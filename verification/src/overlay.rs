//! What is shown on top of the drawing.

use crate::model::{EditKind, EditOperation, ToolKind};
use crate::plan::only_if;
use crate::screen::ScreenRect;
use crate::selection::AreaSelectionShape;
use crate::text::{decimal, decimal_text, joined, natural, natural_text};
use crate::tile_requests::{depth_render_mode_label, DepthRenderMode};
use crate::tile_view::TileKey;
use std::collections::HashSet;
use vstd::prelude::*;

verus! {

broadcast use vstd::std_specs::hash::group_hash_axioms;

/// What the text on the canvas shows.
#[derive(Debug, Clone, Copy, PartialEq, Eq, Structural)]
pub struct OverlaySettings {
    pub enabled: bool,
    pub show_depth: bool,
    pub show_zoom: bool,
    pub show_operation_count: bool,
    pub show_performance: bool,
    pub show_status: bool,
    pub show_tile_state: bool,
    pub show_tile_coordinates: bool,
    pub show_local_coordinates: bool,
}

/// What there is to show. Numbers that are not whole come as text.
pub struct OverlayFacts {
    pub depth: i64,
    pub zoom: String,
    pub operation_count: u64,
    pub performance: String,
    pub status: String,
    pub tile_state: String,
    pub tile_x: String,
    pub tile_y: String,
    pub local_x: String,
    pub local_y: String,
}

/// What the texts of a list are, mathematically.
pub open spec fn texts(list: Seq<String>) -> Seq<Seq<char>> {
    list.map_values(|text: String| text@)
}

/// The texts in a row, with a separator between any two.
pub open spec fn join(list: Seq<Seq<char>>, separator: Seq<char>) -> Seq<char>
    decreases list.len(),
{
    if list.len() == 0 {
        seq![]
    } else if list.len() == 1 {
        list[0]
    } else {
        join(list.drop_last(), separator) + separator + list.last()
    }
}

fn join_texts(list: &Vec<String>, separator: &str) -> (text: String)
    ensures
        text@ == join(texts(list@), separator@),
{
    let ghost all = texts(list@);
    let mut text = String::new();
    let mut i: usize = 0;
    assert(text@ =~= join(all.take(0), separator@));
    while i < list.len()
        invariant
            i <= list@.len(),
            all == texts(list@),
            text@ == join(all.take(i as int), separator@),
        decreases list@.len() - i,
    {
        assert(all.take(i + 1).drop_last() =~= all.take(i as int));
        assert(all.take(i + 1).last() == list@[i as int]@);
        if i > 0 {
            text.append(separator);
        }
        text.append(list[i].as_str());
        i = i + 1;
        assert(text@ =~= join(all.take(i as int), separator@));
    }
    assert(all.take(i as int) =~= all);
    text
}

fn push_text_if(list: &mut Vec<String>, condition: bool, text: String)
    ensures
        texts(final(list)@) == texts(old(list)@) + only_if(condition, text@),
{
    let ghost before = list@;
    if condition {
        list.push(text);
        assert(texts(list@) =~= texts(before).push(text@));
    }
    assert(texts(list@) =~= texts(before) + only_if(condition, text@));
}

/// The parts of the first line.
pub open spec fn summary(settings: OverlaySettings, facts: OverlayFacts) -> Seq<Seq<char>> {
    only_if(settings.show_depth, "depth "@ + decimal_text(facts.depth as int)) + only_if(
        settings.show_zoom,
        "zoom "@ + facts.zoom@ + "x"@,
    ) + only_if(
        settings.show_operation_count,
        natural_text(facts.operation_count as int) + " ops"@,
    ) + only_if(settings.show_performance, facts.performance@) + only_if(
        settings.show_status && facts.status@.len() > 0,
        facts.status@,
    ) + only_if(
        settings.show_tile_state && facts.tile_state@.len() > 0,
        facts.tile_state@,
    )
}

/// The lines of the text on the canvas.
pub open spec fn overlay_lines(settings: OverlaySettings, facts: OverlayFacts) -> Seq<Seq<char>> {
    only_if(
        summary(settings, facts).len() > 0,
        join(summary(settings, facts), "   "@),
    ) + only_if(settings.show_tile_coordinates, "tile X "@ + facts.tile_x@) + only_if(
        settings.show_tile_coordinates,
        "tile Y "@ + facts.tile_y@,
    ) + only_if(
        settings.show_local_coordinates,
        "local X "@ + facts.local_x@ + "   Y "@ + facts.local_y@,
    )
}

/// The text on the canvas; none where there is nothing to show.
pub fn canvas_overlay_text(settings: &OverlaySettings, facts: &OverlayFacts) -> (text: Option<
    String,
>)
    ensures
        ({
            let lines = overlay_lines(*settings, *facts);
            match text {
                Some(text) => settings.enabled && lines.len() > 0 && text@ == join(lines, "\n"@),
                None => !settings.enabled || lines.len() == 0,
            }
        }),
{
    if !settings.enabled {
        return None;
    }
    let mut parts: Vec<String> = Vec::new();
    assert(texts(parts@) =~= seq![]);
    push_text_if(
        &mut parts,
        settings.show_depth,
        joined("depth ", decimal(facts.depth).as_str()),
    );
    let mut zoom = joined("zoom ", facts.zoom.as_str());
    zoom.append("x");
    push_text_if(&mut parts, settings.show_zoom, zoom);
    let mut count = natural(facts.operation_count);
    count.append(" ops");
    push_text_if(&mut parts, settings.show_operation_count, count);
    push_text_if(
        &mut parts,
        settings.show_performance,
        String::from_str(facts.performance.as_str()),
    );
    push_text_if(
        &mut parts,
        settings.show_status && !is_empty(&facts.status),
        String::from_str(facts.status.as_str()),
    );
    push_text_if(
        &mut parts,
        settings.show_tile_state && !is_empty(&facts.tile_state),
        String::from_str(facts.tile_state.as_str()),
    );
    assert(texts(parts@) =~= summary(*settings, *facts));
    assert(texts(parts@).len() == parts@.len());
    let mut lines: Vec<String> = Vec::new();
    assert(texts(lines@) =~= seq![]);
    push_text_if(&mut lines, parts.len() > 0, join_texts(&parts, "   "));
    push_text_if(
        &mut lines,
        settings.show_tile_coordinates,
        joined("tile X ", facts.tile_x.as_str()),
    );
    push_text_if(
        &mut lines,
        settings.show_tile_coordinates,
        joined("tile Y ", facts.tile_y.as_str()),
    );
    let mut local = joined("local X ", facts.local_x.as_str());
    local.append("   Y ");
    local.append(facts.local_y.as_str());
    push_text_if(&mut lines, settings.show_local_coordinates, local);
    assert(texts(lines@) =~= overlay_lines(*settings, *facts));
    assert(texts(lines@).len() == lines@.len());
    if lines.len() == 0 {
        None
    } else {
        Some(join_texts(&lines, "\n"))
    }
}

fn is_empty(text: &String) -> (empty: bool)
    ensures
        empty == (text@.len() == 0),
{
    crate::coordinates::characters(text.as_str()).len() == 0
}

/// Whether the coordinates have to be written for the text on the canvas.
pub fn shows_coordinates(settings: &OverlaySettings) -> (shows: bool)
    ensures
        shows == (settings.enabled && (settings.show_tile_coordinates
            || settings.show_local_coordinates)),
{
    settings.enabled && (settings.show_tile_coordinates || settings.show_local_coordinates)
}

/// What is going on with the tiles: a manual pause before one for drawing, and
/// that before a rebuild that waits.
pub open spec fn tile_activity(manual_pause: bool, drawing_pause: bool, waiting: bool) -> Seq<
    char,
> {
    if manual_pause {
        " · tiles paused"@
    } else if drawing_pause {
        " · tiles paused: drawing"@
    } else if waiting {
        " · rebuild waiting"@
    } else {
        ""@
    }
}

/// How the canvas is drawn and what is going on with the tiles, in words.
pub fn tile_state_text(
    mode: Option<DepthRenderMode>,
    manual_pause: bool,
    drawing_pause: bool,
    waiting: bool,
) -> (text: String)
    ensures
        text@ == (match mode {
            Some(DepthRenderMode::Empty) => "empty"@,
            Some(DepthRenderMode::VectorsNear) => "vectors_near"@,
            Some(DepthRenderMode::DistantTile) => "distant_tile"@,
            None => "unknown"@,
        }) + tile_activity(manual_pause, drawing_pause, waiting),
{
    let label: &str = match mode {
        Some(mode) => depth_render_mode_label(mode),
        None => "unknown",
    };
    let activity: &str = if manual_pause {
        " · tiles paused"
    } else if drawing_pause {
        " · tiles paused: drawing"
    } else if waiting {
        " · rebuild waiting"
    } else {
        ""
    };
    joined(label, activity)
}

/// How fast frames are drawn, in words; the numbers come as text.
pub fn performance_text(metrics: Option<(String, String)>) -> (text: String)
    ensures
        text@ == match metrics {
            Some((fps, frame_time)) => "fps "@ + fps@ + " ("@ + frame_time@ + " ms)"@,
            None => "fps --"@,
        },
{
    match metrics {
        Some((fps, frame_time)) => {
            let mut text = joined("fps ", fps.as_str());
            text.append(" (");
            text.append(frame_time.as_str());
            text.append(" ms)");
            text
        },
        None => String::from_str("fps --"),
    }
}

/// The name of the picture of a tile, with so many pixels along each side.
pub fn texture_name(key: &TileKey, resolution: u64, revision: u64) -> (name: String)
    ensures
        name@ == "tile-d"@ + decimal_text(key.depth as int) + "-p"@ + natural_text(
            resolution as int,
        ) + "-x"@ + decimal_text(key.x@) + "-y"@ + decimal_text(key.y@) + "-r"@ + natural_text(
            revision as int,
        ),
{
    let mut name = joined("tile-d", decimal(key.depth).as_str());
    name.append("-p");
    name.append(natural(resolution).as_str());
    name.append("-x");
    name.append(key.x.to_decimal().as_str());
    name.append("-y");
    name.append(key.y.to_decimal().as_str());
    name.append("-r");
    name.append(natural(revision).as_str());
    name
}

/// How the area that is being selected is shown.
#[derive(Debug, Clone, Copy, PartialEq, Eq, Structural)]
pub enum AreaPreview {
    Nothing,
    /// The rectangle between the first two points.
    Rectangle,
    /// The line drawn so far.
    Line,
}

/// How the area that is being selected is shown, after so many points.
pub fn area_preview(point_count: usize, shape: AreaSelectionShape) -> (preview: AreaPreview)
    ensures
        preview == if point_count < 2 {
            AreaPreview::Nothing
        } else {
            match shape {
                AreaSelectionShape::Rectangle => AreaPreview::Rectangle,
                AreaSelectionShape::Lasso => AreaPreview::Line,
            }
        },
{
    if point_count < 2 {
        AreaPreview::Nothing
    } else {
        match shape {
            AreaSelectionShape::Rectangle => AreaPreview::Rectangle,
            AreaSelectionShape::Lasso => AreaPreview::Line,
        }
    }
}

/// How the outline of an area eraser is shown.
#[derive(Debug, Clone, Copy, PartialEq, Eq, Structural)]
pub enum EraserOutline {
    Nothing,
    /// Open while it is drawn.
    Open,
    Closed,
}

/// How the outline of an area eraser is shown, after so many points.
pub fn eraser_outline(point_count: usize, is_drawn: bool) -> (outline: EraserOutline)
    ensures
        outline == if point_count < 2 {
            EraserOutline::Nothing
        } else if is_drawn {
            EraserOutline::Open
        } else {
            EraserOutline::Closed
        },
{
    if point_count < 2 {
        EraserOutline::Nothing
    } else if is_drawn {
        EraserOutline::Open
    } else {
        EraserOutline::Closed
    }
}

/// What moves the highlighted points of the selection.
#[derive(Debug, Clone, Copy, PartialEq, Eq, Structural)]
pub enum HighlightTransform {
    Rotation,
    Scale,
    Move,
}

/// What moves the highlighted points: a rotation before a change of size, and
/// that before a move.
pub fn highlight_transform(is_rotating: bool, is_scaling: bool) -> (transform: HighlightTransform)
    ensures
        transform == if is_rotating {
            HighlightTransform::Rotation
        } else if is_scaling {
            HighlightTransform::Scale
        } else {
            HighlightTransform::Move
        },
{
    if is_rotating {
        HighlightTransform::Rotation
    } else if is_scaling {
        HighlightTransform::Scale
    } else {
        HighlightTransform::Move
    }
}

/// The shape with which an operation is highlighted.
#[derive(Debug, Clone, Copy, PartialEq, Eq, Structural)]
pub enum HighlightShape {
    Nothing,
    /// A closed line.
    Outline,
    /// A circle around the only point.
    Circle,
    /// A line as wide as the stroke and more.
    Line,
}

/// The shape with which an operation is highlighted, by its points on the
/// screen.
pub fn highlight_shape(kind: EditKind, point_count: usize) -> (shape: HighlightShape)
    ensures
        shape == if kind.area() {
            if point_count >= 2 {
                HighlightShape::Outline
            } else {
                HighlightShape::Nothing
            }
        } else if point_count == 1 {
            HighlightShape::Circle
        } else if point_count >= 2 {
            HighlightShape::Line
        } else {
            HighlightShape::Nothing
        },
{
    if kind.is_area() {
        if point_count >= 2 {
            HighlightShape::Outline
        } else {
            HighlightShape::Nothing
        }
    } else if point_count == 1 {
        HighlightShape::Circle
    } else if point_count >= 2 {
        HighlightShape::Line
    } else {
        HighlightShape::Nothing
    }
}

/// The places of the selected ones among the first `count` operations.
pub open spec fn selected_places(
    operations: Seq<EditOperation>,
    selected: Set<u128>,
    count: int,
) -> Seq<usize>
    decreases count,
{
    if count <= 0 {
        seq![]
    } else if selected.contains(operations[count - 1].id) {
        selected_places(operations, selected, count - 1).push((count - 1) as usize)
    } else {
        selected_places(operations, selected, count - 1)
    }
}

/// The places of the operations that are highlighted one by one; none while
/// the selection is outlined as one.
pub fn highlighted_operations(
    operations: &Vec<EditOperation>,
    selected: &HashSet<u128>,
    outlined_as_one: bool,
) -> (places: Vec<usize>)
    ensures
        places@ == if outlined_as_one {
            seq![]
        } else {
            selected_places(operations@, selected@, operations@.len() as int)
        },
{
    let mut places: Vec<usize> = Vec::new();
    if outlined_as_one {
        assert(places@ =~= seq![]);
        return places;
    }
    let mut i: usize = 0;
    while i < operations.len()
        invariant
            i <= operations@.len(),
            places@ == selected_places(operations@, selected@, i as int),
        decreases operations@.len() - i,
    {
        if selected.contains(&operations[i].id) {
            places.push(i);
        }
        i = i + 1;
    }
    places
}

/// The place of the first operation with the identifier, from `from` on.
pub open spec fn first_place(operations: Seq<EditOperation>, id: u128, from: int) -> int
    decreases operations.len() - from,
{
    if from >= operations.len() || from < 0 || operations[from].id == id {
        from
    } else {
        first_place(operations, id, from + 1)
    }
}

/// The places of the operations of the object on its layer, among the first
/// `count`.
pub open spec fn object_places(
    operations: Seq<EditOperation>,
    layer_id: u128,
    object: u128,
    count: int,
) -> Seq<usize>
    decreases count,
{
    if count <= 0 {
        seq![]
    } else if operations[count - 1].layer_id == layer_id && operations[count - 1].object()
        == object {
        object_places(operations, layer_id, object, count - 1).push((count - 1) as usize)
    } else {
        object_places(operations, layer_id, object, count - 1)
    }
}

/// The places of the operations of the object under the pointer; none where it
/// is selected.
pub fn hovered_operations(
    operations: &Vec<EditOperation>,
    hovered: Option<u128>,
    selected: &HashSet<u128>,
) -> (places: Vec<usize>)
    ensures
        places@ == match hovered {
            Some(id) => {
                let place = first_place(operations@, id, 0);
                if place < operations@.len() && !selected@.contains(id) {
                    object_places(
                        operations@,
                        operations@[place].layer_id,
                        operations@[place].object(),
                        operations@.len() as int,
                    )
                } else {
                    seq![]
                }
            },
            None => seq![],
        },
{
    let mut places: Vec<usize> = Vec::new();
    assert(places@ =~= seq![]);
    match hovered {
        Some(id) => {
            let mut place: usize = 0;
            while place < operations.len() && operations[place].id != id
                invariant
                    place <= operations@.len(),
                    first_place(operations@, id, 0) == first_place(operations@, id, place as int),
                decreases operations@.len() - place,
            {
                place = place + 1;
            }
            if place == operations.len() || selected.contains(&id) {
                return places;
            }
            let layer_id: u128 = operations[place].layer_id;
            let object: u128 = operations[place].object_group_id();
            let mut i: usize = 0;
            while i < operations.len()
                invariant
                    i <= operations@.len(),
                    places@ == object_places(operations@, layer_id, object, i as int),
                decreases operations@.len() - i,
            {
                if operations[i].layer_id == layer_id && operations[i].object_group_id()
                    == object {
                    places.push(i);
                }
                i = i + 1;
            }
            places
        },
        None => places,
    }
}

/// The rectangle around the selection that carries the handles: only with the
/// selection tool, the transformed one before that of the highlights.
pub fn selection_box(
    tool: ToolKind,
    transformed: Option<ScreenRect>,
    highlighted: Option<ScreenRect>,
) -> (bounds: Option<ScreenRect>)
    ensures
        bounds == if tool != ToolKind::Selection {
            None
        } else if transformed is Some {
            transformed
        } else {
            highlighted
        },
{
    if tool != ToolKind::Selection {
        None
    } else if transformed.is_some() {
        transformed
    } else {
        highlighted
    }
}

/// Texts are joined in order, with a separator between each two of them and none
/// before the first or after the last.
pub proof fn law_texts_are_joined_in_order(
    list: Seq<Seq<char>>,
    separator: Seq<char>,
    last: Seq<char>,
)
    ensures
        join(Seq::empty(), separator).len() == 0,
        list.len() == 0 ==> join(list.push(last), separator) == last,
        list.len() > 0 ==> join(list.push(last), separator) == join(list, separator) + separator
            + last,
{
    assert(list.push(last).drop_last() =~= list);
}

proof fn lemma_selected_places(operations: Seq<EditOperation>, selected: Set<u128>, count: int)
    requires
        0 <= count <= operations.len() <= usize::MAX,
    ensures
        ({
            let places = selected_places(operations, selected, count);
            &&& forall|k: int|
                0 <= k < places.len() ==> 0 <= #[trigger] places[k] < count && selected.contains(
                    operations[places[k] as int].id,
                )
            &&& forall|k: int, l: int|
                0 <= k < l < places.len() ==> #[trigger] places[k] < #[trigger] places[l]
            &&& forall|at: usize|
                at < count && selected.contains((#[trigger] operations[at as int]).id)
                    ==> places.contains(at)
        }),
    decreases count,
{
    if count > 0 {
        lemma_selected_places(operations, selected, count - 1);
        let places = selected_places(operations, selected, count);
        let before = selected_places(operations, selected, count - 1);
        assert forall|at: usize|
            at < count && selected.contains(
                (#[trigger] operations[at as int]).id,
            ) implies places.contains(at) by {
            if at < count - 1 {
                assert(places[before.index_of(at)] == at);
            } else {
                assert(places[before.len() as int] == at);
            }
        }
    }
}

/// What is highlighted is everything that is selected, in order, and nothing else.
pub proof fn law_all_that_is_selected_is_highlighted(
    operations: Seq<EditOperation>,
    selected: Set<u128>,
    at: usize,
)
    requires
        at < operations.len() <= usize::MAX,
    ensures
        ({
            let places = selected_places(operations, selected, operations.len() as int);
            &&& places.contains(at) <==> selected.contains(operations[at as int].id)
            &&& forall|k: int, l: int|
                0 <= k < l < places.len() ==> #[trigger] places[k] < #[trigger] places[l]
        }),
{
    lemma_selected_places(operations, selected, operations.len() as int);
    let places = selected_places(operations, selected, operations.len() as int);
    if places.contains(at) {
        assert(places[places.index_of(at)] == at);
    }
}

/// The first operation with an identity is found.
pub proof fn law_the_first_with_an_identity_is_found(
    operations: Seq<EditOperation>,
    id: u128,
    from: int,
)
    requires
        0 <= from <= operations.len(),
    ensures
        ({
            let place = first_place(operations, id, from);
            &&& from <= place <= operations.len()
            &&& place < operations.len() ==> operations[place].id == id
            &&& forall|k: int| from <= k < place ==> (#[trigger] operations[k]).id != id
        }),
    decreases operations.len() - from,
{
    if from < operations.len() && operations[from].id != id {
        law_the_first_with_an_identity_is_found(operations, id, from + 1);
    }
}

proof fn lemma_object_places(
    operations: Seq<EditOperation>,
    layer_id: u128,
    object: u128,
    count: int,
)
    requires
        0 <= count <= operations.len() <= usize::MAX,
    ensures
        ({
            let places = object_places(operations, layer_id, object, count);
            &&& forall|k: int|
                0 <= k < places.len() ==> 0 <= #[trigger] places[k] < count
                    && operations[places[k] as int].layer_id == layer_id
                    && operations[places[k] as int].object() == object
            &&& forall|k: int, l: int|
                0 <= k < l < places.len() ==> #[trigger] places[k] < #[trigger] places[l]
            &&& forall|at: usize|
                at < count && (#[trigger] operations[at as int]).layer_id == layer_id
                    && operations[at as int].object() == object ==> places.contains(at)
        }),
    decreases count,
{
    if count > 0 {
        lemma_object_places(operations, layer_id, object, count - 1);
        let places = object_places(operations, layer_id, object, count);
        let before = object_places(operations, layer_id, object, count - 1);
        assert forall|at: usize|
            at < count && (#[trigger] operations[at as int]).layer_id == layer_id
                && operations[at as int].object() == object implies places.contains(at) by {
            if at < count - 1 {
                assert(places[before.index_of(at)] == at);
            } else {
                assert(places[before.len() as int] == at);
            }
        }
    }
}

/// An object is shown by all of its operations on a layer, in order, and by no
/// others.
pub proof fn law_objects_are_shown_whole(
    operations: Seq<EditOperation>,
    layer_id: u128,
    object: u128,
    at: usize,
)
    requires
        at < operations.len() <= usize::MAX,
    ensures
        ({
            let places = object_places(operations, layer_id, object, operations.len() as int);
            &&& places.contains(at) <==> operations[at as int].layer_id == layer_id
                && operations[at as int].object() == object
            &&& forall|k: int, l: int|
                0 <= k < l < places.len() ==> #[trigger] places[k] < #[trigger] places[l]
        }),
{
    lemma_object_places(operations, layer_id, object, operations.len() as int);
    let places = object_places(operations, layer_id, object, operations.len() as int);
    if places.contains(at) {
        assert(places[places.index_of(at)] == at);
    }
}

} // verus!
