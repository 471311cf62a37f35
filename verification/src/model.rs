//! What a drawing is made of.

use crate::camera::{doubles_match, equal_doubles, DOUBLE_SIGN_BIT};
use crate::tile_index::TileIndex;
use vstd::prelude::*;

verus! {

/// The bit pattern of the number one. The patterns below it are those of the
/// numbers from zero up to one, and they are ordered as these numbers are.
pub const LOCAL_END: u64 = 0x3ff0_0000_0000_0000;

/// Whether the pattern is that of a number from zero up to, but not including,
/// one. Minus zero is such a number.
pub open spec fn within_tile(local: u64) -> bool {
    local < LOCAL_END || local == DOUBLE_SIGN_BIT
}

/// A point of the canvas. The local coordinates are bit patterns of numbers,
/// from zero up to, but not including, one where the point was split into tile
/// and rest.
#[derive(Debug)]
pub struct CanvasPoint {
    pub depth: i64,
    pub tile_x: TileIndex,
    pub tile_y: TileIndex,
    pub local_x: u64,
    pub local_y: u64,
}

/// What a point of the canvas is, mathematically.
#[verifier::ext_equal]
pub struct PointView {
    pub depth: int,
    pub tile_x: int,
    pub tile_y: int,
    pub local_x: u64,
    pub local_y: u64,
}

impl View for CanvasPoint {
    type V = PointView;

    open spec fn view(&self) -> PointView {
        PointView {
            depth: self.depth as int,
            tile_x: self.tile_x@,
            tile_y: self.tile_y@,
            local_x: self.local_x,
            local_y: self.local_y,
        }
    }
}

impl CanvasPoint {
    /// Both local coordinates lie within the tile.
    pub open spec fn wf(self) -> bool {
        within_tile(self.local_x) && within_tile(self.local_y)
    }

    /// The point at these local coordinates of a tile, which are kept as they are.
    pub fn in_tile(
        depth: i64,
        tile_x: &TileIndex,
        tile_y: &TileIndex,
        local_x: u64,
        local_y: u64,
    ) -> (point: Self)
        ensures
            point.wf() == (within_tile(local_x) && within_tile(local_y)),
            point@ == (PointView {
                depth: depth as int,
                tile_x: tile_x@,
                tile_y: tile_y@,
                local_x,
                local_y,
            }),
    {
        CanvasPoint {
            depth,
            tile_x: tile_x.clone(),
            tile_y: tile_y.clone(),
            local_x,
            local_y,
        }
    }
}

impl Clone for CanvasPoint {
    fn clone(&self) -> (point: Self)
        ensures
            point@ == self@,
    {
        CanvasPoint {
            depth: self.depth,
            tile_x: self.tile_x.clone(),
            tile_y: self.tile_y.clone(),
            local_x: self.local_x,
            local_y: self.local_y,
        }
    }
}

/// Whether both are the same point.
pub open spec fn is_same_point(left: PointView, right: PointView) -> bool {
    &&& left.depth == right.depth
    &&& left.tile_x == right.tile_x
    &&& left.tile_y == right.tile_y
    &&& equal_doubles(left.local_x, right.local_x)
    &&& equal_doubles(left.local_y, right.local_y)
}

impl PartialEq for CanvasPoint {
    fn eq(&self, other: &Self) -> (same: bool) {
        self.depth == other.depth && self.tile_x.same_as(&other.tile_x) && self.tile_y.same_as(
            &other.tile_y,
        ) && doubles_match(self.local_x, other.local_x) && doubles_match(
            self.local_y,
            other.local_y,
        )
    }
}

impl vstd::std_specs::cmp::PartialEqSpecImpl for CanvasPoint {
    open spec fn obeys_eq_spec() -> bool {
        true
    }

    open spec fn eq_spec(&self, other: &Self) -> bool {
        is_same_point(self@, other@)
    }
}

/// What the points of a sequence are, mathematically.
pub open spec fn point_views(points: Seq<CanvasPoint>) -> Seq<PointView> {
    points.map_values(|point: CanvasPoint| point@)
}

/// Whether both are the same points in the same order.
pub open spec fn are_same_points(left: Seq<PointView>, right: Seq<PointView>) -> bool {
    &&& left.len() == right.len()
    &&& forall|k: int| 0 <= k < left.len() ==> is_same_point(#[trigger] left[k], right[k])
}

/// A color with eight bits per channel.
#[derive(Debug, Clone, Copy, PartialEq, Eq, Structural)]
pub struct Color {
    pub r: u8,
    pub g: u8,
    pub b: u8,
    pub a: u8,
}

impl Color {
    /// The color with the given channels.
    pub fn rgba(r: u8, g: u8, b: u8, a: u8) -> (color: Self)
        ensures
            color == (Color { r, g, b, a }),
    {
        Color { r, g, b, a }
    }

    /// Whether nothing shows through the color.
    pub fn is_opaque(self) -> (opaque: bool)
        ensures
            opaque == (self.a == 255),
    {
        self.a == 255
    }
}

/// The opaque color with the given red, green and blue.
pub fn color_from_srgb(color: [u8; 3]) -> (result: Color)
    ensures
        result == (Color { r: color[0], g: color[1], b: color[2], a: 255 }),
{
    Color::rgba(color[0], color[1], color[2], u8::MAX)
}

/// The tool in hand.
#[derive(Debug, Clone, Copy, PartialEq, Eq, Structural)]
pub enum ToolKind {
    Brush,
    Eraser,
    LassoFill,
    Eyedropper,
    Selection,
    EraserLasso,
}

/// What an operation does to the canvas.
#[derive(Debug, Clone, Copy, PartialEq, Eq, Structural)]
pub enum EditKind {
    Paint,
    Erase,
    Fill,
    EraseArea,
    CompactBlock,
}

impl EditKind {
    /// Whether the points of the operation are the outline of an area.
    pub open spec fn area(self) -> bool {
        self == EditKind::Fill || self == EditKind::EraseArea || self == EditKind::CompactBlock
    }

    /// Whether the points of the operation are the outline of an area.
    pub fn is_area(self) -> (area: bool)
        ensures
            area == self.area(),
    {
        match self {
            EditKind::Fill | EditKind::EraseArea | EditKind::CompactBlock => true,
            EditKind::Paint | EditKind::Erase => false,
        }
    }

    /// Whether the operation takes color away.
    pub open spec fn erases(self) -> bool {
        self == EditKind::Erase || self == EditKind::EraseArea
    }

    /// Whether the operation takes color away.
    pub fn is_erase(self) -> (erase: bool)
        ensures
            erase == self.erases(),
    {
        match self {
            EditKind::Erase | EditKind::EraseArea => true,
            EditKind::Paint | EditKind::Fill | EditKind::CompactBlock => false,
        }
    }
}

/// One operation of the drawing. Identifiers are the 128-bit values of UUIDs;
/// `width_px` and `native_zoom` are the bit patterns of floating-point numbers.
#[derive(Debug)]
pub struct EditOperation {
    pub id: u128,
    pub layer_id: u128,
    pub transaction_id: u128,
    pub sequence: i64,
    pub kind: EditKind,
    pub points: Vec<CanvasPoint>,
    pub color: Color,
    pub width_px: u32,
    pub native_depth: i64,
    pub native_zoom: u64,
    pub smooth_area: bool,
    pub fill_group_id: Option<u128>,
    pub paint_order: Option<i64>,
    pub affects_before_sequence: Option<i64>,
    pub compact_sources: Vec<EditOperation>,
}

impl EditOperation {
    /// The object that the operation belongs to: its fill group where it has
    /// one, and else the operation alone.
    pub open spec fn object(self) -> u128 {
        match self.fill_group_id {
            Some(group) => group,
            None => self.id,
        }
    }

    /// The object that the operation belongs to.
    pub fn object_group_id(&self) -> (object: u128)
        ensures
            object == self.object(),
    {
        match self.fill_group_id {
            Some(group) => group,
            None => self.id,
        }
    }

    /// Whether both operations are parts of one filled area.
    pub open spec fn shares_fill_group(self, other: EditOperation) -> bool {
        self.fill_group_id.is_some() && self.fill_group_id == other.fill_group_id
    }

    /// Whether both operations are parts of one filled area.
    pub fn shares_fill_group_with(&self, other: &EditOperation) -> (shares: bool)
        ensures
            shares == self.shares_fill_group(*other),
    {
        match (self.fill_group_id, other.fill_group_id) {
            (Some(left), Some(right)) => left == right,
            _ => false,
        }
    }

    /// Where the operation stands in the order of painting.
    pub open spec fn order(self) -> i64 {
        match self.paint_order {
            Some(order) => order,
            None => self.sequence,
        }
    }

    /// Where the operation stands in the order of painting.
    pub fn effective_paint_order(&self) -> (order: i64)
        ensures
            order == self.order(),
    {
        match self.paint_order {
            Some(order) => order,
            None => self.sequence,
        }
    }

    /// Whether the operation stands for a block of others.
    pub open spec fn is_block(self) -> bool {
        self.kind == EditKind::CompactBlock
    }

    /// Whether the operation stands for several older ones.
    pub fn is_compact_block(&self) -> (compact: bool)
        ensures
            compact == self.is_block(),
    {
        self.kind == EditKind::CompactBlock
    }
}

/// Whether two operations are alike in everything.
pub open spec fn same_operation(left: EditOperation, right: EditOperation) -> bool
    decreases left,
{
    &&& left.id == right.id
    &&& left.layer_id == right.layer_id
    &&& left.transaction_id == right.transaction_id
    &&& left.sequence == right.sequence
    &&& left.kind == right.kind
    &&& point_views(left.points@) == point_views(right.points@)
    &&& left.color == right.color
    &&& left.width_px == right.width_px
    &&& left.native_depth == right.native_depth
    &&& left.native_zoom == right.native_zoom
    &&& left.smooth_area == right.smooth_area
    &&& left.fill_group_id == right.fill_group_id
    &&& left.paint_order == right.paint_order
    &&& left.affects_before_sequence == right.affects_before_sequence
    &&& left.compact_sources@.len() == right.compact_sources@.len()
    &&& forall|i: int|
        0 <= i < left.compact_sources@.len() ==> same_operation(
            #[trigger] left.compact_sources@[i],
            right.compact_sources@[i],
        )
}

/// Whether two lists hold operations that are alike, in the same order.
pub open spec fn same_operations(left: Seq<EditOperation>, right: Seq<EditOperation>) -> bool {
    &&& left.len() == right.len()
    &&& forall|i: int| 0 <= i < left.len() ==> same_operation(#[trigger] left[i], right[i])
}

/// Points of the same values.
pub fn clone_points(points: &Vec<CanvasPoint>) -> (result: Vec<CanvasPoint>)
    ensures
        point_views(result@) == point_views(points@),
        result@.len() == points@.len(),
{
    let mut result: Vec<CanvasPoint> = Vec::new();
    let mut i: usize = 0;
    while i < points.len()
        invariant
            i <= points.len(),
            result@.len() == i,
            forall|k: int| 0 <= k < i ==> (#[trigger] result@[k])@ == points@[k]@,
        decreases points.len() - i,
    {
        result.push(points[i].clone());
        i = i + 1;
    }
    assert(point_views(result@) =~= point_views(points@));
    result
}

impl Clone for EditOperation {
    fn clone(&self) -> (operation: Self)
        ensures
            same_operation(*self, operation),
        decreases self,
    {
        let mut compact_sources: Vec<EditOperation> = Vec::new();
        let mut i: usize = 0;
        while i < self.compact_sources.len()
            invariant
                i <= self.compact_sources.len(),
                compact_sources@.len() == i,
                forall|k: int|
                    0 <= k < i ==> same_operation(
                        #[trigger] self.compact_sources@[k],
                        compact_sources@[k],
                    ),
            decreases self.compact_sources.len() - i,
        {
            assert(decreases_to!(*self => self.compact_sources@[i as int]));
            compact_sources.push(self.compact_sources[i].clone());
            i = i + 1;
        }
        EditOperation {
            id: self.id,
            layer_id: self.layer_id,
            transaction_id: self.transaction_id,
            sequence: self.sequence,
            kind: self.kind,
            points: clone_points(&self.points),
            color: self.color,
            width_px: self.width_px,
            native_depth: self.native_depth,
            native_zoom: self.native_zoom,
            smooth_area: self.smooth_area,
            fill_group_id: self.fill_group_id,
            paint_order: self.paint_order,
            affects_before_sequence: self.affects_before_sequence,
            compact_sources,
        }
    }
}

/// Operations that are alike belong to one object, stand at one place in the
/// order of painting, and have the same points and sources.
pub proof fn law_like_operations_cannot_be_told_apart(left: EditOperation, right: EditOperation)
    requires
        same_operation(left, right),
    ensures
        left.object() == right.object(),
        left.order() == right.order(),
        left.is_block() == right.is_block(),
        left.points@.len() == right.points@.len(),
        forall|i: int|
            0 <= i < left.points@.len() ==> (#[trigger] left.points@[i])@ == right.points@[i]@,
        same_operations(left.compact_sources@, right.compact_sources@),
        forall|other: EditOperation| #[trigger]
            left.shares_fill_group(other) == right.shares_fill_group(other),
        (EditOperation {
            points: right.points,
            compact_sources: right.compact_sources,
            ..left
        }) == right,
{
    assert(point_views(left.points@).len() == point_views(right.points@).len());
    assert forall|i: int| 0 <= i < left.points@.len() implies (#[trigger] left.points@[i])@
        == right.points@[i]@ by {
        assert(point_views(left.points@)[i] == left.points@[i]@);
        assert(point_views(right.points@)[i] == right.points@[i]@);
    }
}

/// Parts of one filled area belong to one object, and other operations that have
/// no area in common are each an object of their own.
pub proof fn law_parts_of_an_area_are_one_object(left: EditOperation, right: EditOperation)
    ensures
        left.shares_fill_group(right) ==> left.object() == right.object()
            && right.shares_fill_group(left),
        left.fill_group_id is None ==> left.object() == left.id && !left.shares_fill_group(right),
{
}

} // verus!
