//! The state of the editor as a whole.

use crate::bookmarks::{default_name, Bookmark, BookmarkList};
use crate::coordinates::CoordinateOverlayCache;
use crate::drawing::PointerTools;
use crate::edits::{Clearing, EditEffect, Refresh, SelectionClipboard};
use crate::gestures::SelectionGestures;
use crate::layers::{Layer, LayerEffect, LayerPanel};
use crate::menus::{FileWindowTab, Windows};
use crate::model::{Color, ToolKind};
use crate::renderer::FallbackRenderer;
use crate::selection::{AreaSelectionShape, RectangleSelectionMode, SelectionTargetMode};
use crate::selection_bounds::SelectionOverlayBoundsCache;
use crate::selection_state::SelectionState;
use crate::shortcuts::ClipboardShortcutKeys;
use crate::text::joined;
use crate::tile_requests::{DepthRenderMode, TileFallbackMode};
use crate::tile_state::{next_generation, LoadedView, TileState};
use crate::tile_view::KeyView;
use crate::wheel::WheelZoomDirectionLatch;
use vstd::prelude::*;

verus! {

/// The state of the editor: tools, selections, tiles, layers, bookmarks and
/// windows.
pub struct Editor {
    pub tools: PointerTools,
    pub color: Color,
    pub selection: SelectionState,
    pub selection_bounds: SelectionOverlayBoundsCache,
    pub clipboard: SelectionClipboard,
    pub clipboard_keys: ClipboardShortcutKeys,
    pub wheel_latch: WheelZoomDirectionLatch,
    pub tiles: TileState,
    pub renderer: FallbackRenderer,
    pub layers: LayerPanel,
    pub bookmarks: BookmarkList,
    pub windows: Windows,
    pub coordinates: CoordinateOverlayCache,
    pub last_depth_render_mode: Option<DepthRenderMode>,
    pub last_fallback_mode: Option<TileFallbackMode>,
    /// The depth of the camera for which objects were selected.
    pub capture_depth: i64,
    pub depth_jump_target: i64,
    pub lateral_jump_x: String,
    pub lateral_jump_y: String,
}

/// What goes on in a frame.
#[derive(Debug, Clone, Copy, PartialEq, Eq, Structural)]
pub struct FrameActivity {
    /// Something is previewed that does not change the drawing yet.
    pub previewing: bool,
    /// The drawing is being changed.
    pub input: bool,
    /// That, or tiles wait for the view to settle.
    pub interaction: bool,
    /// That, or something is previewed.
    pub overlay: bool,
    /// The selection is being moved, scaled or rotated.
    pub transforming: bool,
}

impl Editor {
    /// All parts are well-formed.
    pub open spec fn wf(self) -> bool {
        &&& self.selection.wf()
        &&& self.tiles.wf()
        &&& self.renderer.wf()
        &&& self.coordinates.wf()
    }

    /// No selections and no gestures.
    pub open spec fn tools_cleared(self) -> bool {
        &&& self.selection.objects_cleared()
        &&& self.selection.area_cleared()
        &&& self.selection.eraser_cleared()
    }

    /// The editor of a document with the layers and bookmarks.
    pub fn new(
        layers: &Vec<Layer>,
        default_layer_id: u128,
        default_layer_name: &str,
        bookmarks: Vec<Bookmark>,
    ) -> (editor: Self)
        requires
            bookmarks@.len() < usize::MAX,
        ensures
            editor.wf(),
            editor.tools == (PointerTools {
                tool: ToolKind::Brush,
                brush_sizing_drag_active: false,
                alt_gesture: None,
                last_pointer_position: None,
            }),
            editor.color == (Color { r: 0, g: 0, b: 0, a: 255 }),
            editor.tools_cleared(),
            editor.selection.target_mode == SelectionTargetMode::Object,
            editor.selection.rectangle_mode == RectangleSelectionMode::Inside,
            editor.selection.area_shape == AreaSelectionShape::Rectangle,
            editor.selection_bounds.key is None,
            editor.selection_bounds.depth_bounds@.len() == 0,
            editor.selection_bounds.width_hints@.len() == 0,
            editor.clipboard.operations@.len() == 0,
            editor.clipboard.paste_count == 0,
            editor.clipboard_keys == (ClipboardShortcutKeys {
                copy_down: false,
                cut_down: false,
                paste_down: false,
            }),
            editor.wheel_latch == (WheelZoomDirectionLatch {
                direction: None,
                last_input_at: None,
            }),
            editor.tiles.rests(),
            editor.tiles.loaded_view() == Seq::<LoadedView>::empty(),
            editor.tiles.visible_view() == Seq::<KeyView>::empty(),
            editor.tiles.generation == 0,
            editor.tiles.last_zoom_change is None,
            editor.tiles.last_rebuild_interaction is None,
            !editor.tiles.drawing_pause,
            editor.renderer.is_clear(),
            editor.layers.active_layer_id == if layers@.len() > 0 {
                layers@.last().id
            } else {
                default_layer_id
            },
            editor.layers.name_edit@ == if layers@.len() > 0 {
                layers@.last().name@
            } else {
                default_layer_name@
            },
            editor.layers.pending_delete is None,
            editor.bookmarks.bookmarks == bookmarks,
            editor.bookmarks.new_name@ == default_name(bookmarks@.len() as int),
            editor.bookmarks.edits_names_of(bookmarks@),
            editor.coordinates.is_blank(),
            editor.windows == (Windows {
                file: false,
                file_tab: FileWindowTab::File,
                navigation: false,
                bookmarks: false,
                settings: false,
                layers: false,
                palette: false,
            }),
            editor.last_depth_render_mode is None,
            editor.last_fallback_mode is None,
            editor.capture_depth == 0,
            editor.depth_jump_target == 0,
            editor.lateral_jump_x@ == "0"@,
            editor.lateral_jump_y@ == "0"@,
    {
        Editor {
            tools: PointerTools::new(),
            color: Color::rgba(0, 0, 0, 255),
            selection: SelectionState::new(),
            selection_bounds: SelectionOverlayBoundsCache::new(),
            clipboard: SelectionClipboard::new(),
            clipboard_keys: ClipboardShortcutKeys::default(),
            wheel_latch: WheelZoomDirectionLatch::new(),
            tiles: TileState::new(),
            renderer: FallbackRenderer::new(),
            layers: LayerPanel::new(layers, default_layer_id, default_layer_name),
            bookmarks: BookmarkList::new(bookmarks),
            windows: Windows::new(),
            coordinates: CoordinateOverlayCache::new(),
            last_depth_render_mode: None,
            last_fallback_mode: None,
            capture_depth: 0,
            depth_jump_target: 0,
            lateral_jump_x: String::from_str("0"),
            lateral_jump_y: String::from_str("0"),
        }
    }

    /// Turns to another document, with its layers and bookmarks. Where the tiles
    /// of it cannot be kept, the old tiles, bookmarks and view stay. Returns
    /// what to tell the user.
    pub fn replace_document(
        &mut self,
        layers: &Vec<Layer>,
        default_layer_id: u128,
        bookmarks: Vec<Bookmark>,
        camera_depth: i64,
        tile_cache: Result<(), String>,
    ) -> (message: String)
        requires
            old(self).wf(),
            bookmarks@.len() < usize::MAX,
        ensures
            final(self).wf(),
            final(self).tools_cleared(),
            final(self).clipboard.operations@.len() == 0,
            final(self).clipboard.paste_count == 0,
            final(self).layers.pending_delete is None,
            final(self).layers.active_layer_id == if layers@.len() > 0 {
                layers@.last().id
            } else {
                default_layer_id
            },
            final(self).layers.name_edit@ == if layers@.len() > 0 {
                layers@.last().name@
            } else {
                "Layer 1"@
            },
            final(self).selection.same_modes(old(self).selection),
            *final(self) == (Editor {
                clipboard: final(self).clipboard,
                layers: final(self).layers,
                selection: final(self).selection,
                tiles: final(self).tiles,
                renderer: final(self).renderer,
                bookmarks: final(self).bookmarks,
                capture_depth: final(self).capture_depth,
                depth_jump_target: final(self).depth_jump_target,
                ..*old(self)
            }),
            match tile_cache {
                Ok(()) => {
                    &&& message@ == "Canvas opened"@
                    &&& final(self).tiles.rests()
                    &&& final(self).tiles.loaded_view() == Seq::<LoadedView>::empty()
                    &&& final(self).tiles.visible_view() == Seq::<KeyView>::empty()
                    &&& final(self).tiles.generation == next_generation(old(self).tiles.generation)
                    &&& final(self).tiles.last_zoom_change is None
                    &&& final(self).tiles.last_rebuild_interaction is None
                    &&& final(self).tiles.drawing_pause == old(self).tiles.drawing_pause
                    &&& final(self).renderer.is_clear()
                    &&& final(self).bookmarks.bookmarks == bookmarks
                    &&& final(self).bookmarks.new_name@ == default_name(bookmarks@.len() as int)
                    &&& final(self).bookmarks.edits_names_of(bookmarks@)
                    &&& final(self).capture_depth == camera_depth
                    &&& final(self).depth_jump_target == camera_depth
                },
                Err(error) => {
                    &&& message@ == "Tile cache failed: "@ + error@
                    &&& final(self).tiles == old(self).tiles
                    &&& final(self).renderer == old(self).renderer
                    &&& final(self).bookmarks == old(self).bookmarks
                    &&& final(self).capture_depth == old(self).capture_depth
                    &&& final(self).depth_jump_target == old(self).depth_jump_target
                },
            },
    {
        self.clipboard = SelectionClipboard::new();
        self.layers = LayerPanel::new(layers, default_layer_id, "Layer 1");
        self.selection.clear_transient_tools();
        match tile_cache {
            Ok(()) => {
                self.tiles.document_opened();
                self.renderer.clear();
                self.bookmarks = BookmarkList::new(bookmarks);
                self.capture_depth = camera_depth;
                self.depth_jump_target = camera_depth;
                String::from_str("Canvas opened")
            },
            Err(error) => joined("Tile cache failed: ", error.as_str()),
        }
    }

    /// The editor has followed a change of the camera: at another depth the
    /// selected objects are dropped, and what is under the pointer has to be
    /// looked up anew.
    pub open spec fn follows_camera(self, before: Editor, camera_depth: i64, now: u64) -> bool {
        &&& self.capture_depth == camera_depth
        &&& self.depth_jump_target == camera_depth
        &&& self.selection.gestures.hovered_operation_id is None
        &&& self.selection.gestures.hover_position is None
        &&& self.tiles.rests()
        &&& self.tiles.loaded_view() == before.tiles.loaded_view()
        &&& self.tiles.visible_view() == before.tiles.visible_view()
        &&& self.tiles.generation == next_generation(before.tiles.generation)
        &&& self.tiles.last_zoom_change == Some(now)
        &&& self.tiles.last_rebuild_interaction == before.tiles.last_rebuild_interaction
        &&& self.tiles.drawing_pause == before.tiles.drawing_pause
        &&& self.selection.same_modes(before.selection)
        &&& self.selection.same_area(before.selection)
        &&& self.selection.same_eraser(before.selection)
        &&& if before.capture_depth != camera_depth {
            self.selection.objects_cleared()
        } else {
            &&& self.selection.cycle == before.selection.cycle
            &&& self.selection.selected_operation_ids@ == before.selection.selected_operation_ids@
            &&& self.selection.gestures == (SelectionGestures {
                hovered_operation_id: None,
                hover_position: None,
                ..before.selection.gestures
            })
        }
        &&& self == (Editor {
            selection: self.selection,
            tiles: self.tiles,
            capture_depth: camera_depth,
            depth_jump_target: camera_depth,
            ..before
        })
    }

    /// Follows a change of the camera.
    pub fn mark_zoom_changed(&mut self, camera_depth: i64, now: u64)
        requires
            old(self).wf(),
        ensures
            final(self).wf(),
            final(self).follows_camera(*old(self), camera_depth, now),
    {
        if self.capture_depth != camera_depth {
            self.capture_depth = camera_depth;
            self.selection.clear_object_selection_state();
        }
        self.depth_jump_target = camera_depth;
        self.selection.gestures.hovered_operation_id = None;
        self.selection.gestures.hover_position = None;
        self.tiles.zoom_changed(now);
    }

    /// Takes over how the canvas is drawn from now on: a change asks for all
    /// tiles anew, and objects that are only shown as a picture are deselected.
    /// Returns whether it changed.
    pub fn apply_depth_render_mode(&mut self, mode: DepthRenderMode) -> (changed: bool)
        requires
            old(self).wf(),
        ensures
            final(self).wf(),
            changed == (old(self).last_depth_render_mode != Some(mode)),
            !changed ==> *final(self) == *old(self),
            final(self).last_depth_render_mode == Some(mode),
            changed ==> final(self).tiles.rests() && final(self).tiles.visible_view() == Seq::<
                KeyView,
            >::empty() && final(self).tiles.loaded_view() == old(self).tiles.loaded_view()
                && final(self).tiles.generation == next_generation(old(self).tiles.generation)
                && final(self).tiles.same_timing(old(self).tiles),
            changed && mode == DepthRenderMode::DistantTile ==> {
                &&& final(self).selection.objects_cleared()
                &&& final(self).selection.eraser_lasso_points@.len() == 0
                &&& !final(self).selection.eraser_lasso_active
                &&& final(self).selection.eraser_target_ids@
                    == old(self).selection.eraser_target_ids@
                &&& final(self).selection.same_modes(old(self).selection)
                &&& final(self).selection.same_area(old(self).selection)
            },
            changed && mode != DepthRenderMode::DistantTile ==> final(self).selection
                == old(self).selection,
            *final(self) == (Editor {
                selection: final(self).selection,
                tiles: final(self).tiles,
                last_depth_render_mode: final(self).last_depth_render_mode,
                ..*old(self)
            }),
    {
        let same: bool = match self.last_depth_render_mode {
            Some(known) => known == mode,
            None => false,
        };
        if same {
            return false;
        }
        self.tiles.reset_tile_requests();
        if mode == DepthRenderMode::DistantTile {
            self.selection.clear_object_selection_state();
            self.selection.eraser_lasso_points.clear();
            self.selection.eraser_lasso_active = false;
        }
        self.last_depth_render_mode = Some(mode);
        true
    }

    /// Whether objects can be edited one by one.
    pub fn existing_object_tools_are_editable(&self) -> (editable: bool)
        ensures
            editable == (self.last_depth_render_mode != Some(DepthRenderMode::DistantTile)),
    {
        match self.last_depth_render_mode {
            Some(DepthRenderMode::DistantTile) => false,
            _ => true,
        }
    }

    /// Takes note of what the tiles leave to be drawn directly. Returns whether
    /// that changed, which is then logged.
    pub fn note_fallback_mode(&mut self, mode: TileFallbackMode) -> (changed: bool)
        ensures
            changed == (old(self).last_fallback_mode != Some(mode)),
            *final(self) == (Editor { last_fallback_mode: Some(mode), ..*old(self) }),
    {
        let changed: bool = match self.last_fallback_mode {
            Some(known) => known != mode,
            None => true,
        };
        self.last_fallback_mode = Some(mode);
        changed
    }

    /// Makes a layer the active one. Returns what to tell the user where another
    /// one was: selections and gestures are dropped then.
    pub fn activate_layer(&mut self, layer_id: u128, name: String) -> (message: Option<
        &'static str,
    >)
        requires
            old(self).wf(),
        ensures
            final(self).wf(),
            *final(self) == (Editor {
                selection: final(self).selection,
                layers: LayerPanel {
                    active_layer_id: layer_id,
                    name_edit: name,
                    ..old(self).layers
                },
                ..*old(self)
            }),
            if layer_id != old(self).layers.active_layer_id {
                &&& message is Some
                &&& message->0@ == "Active layer changed"@
                &&& final(self).tools_cleared()
                &&& final(self).selection.same_modes(old(self).selection)
            } else {
                message is None && final(self).selection == old(self).selection
            },
    {
        if self.layers.activate_layer(layer_id, name) {
            self.selection.clear_transient_tools();
            Some("Active layer changed")
        } else {
            None
        }
    }

    /// Lets a change of layers take effect.
    pub fn apply_layer_effect(&mut self, effect: &LayerEffect)
        requires
            old(self).wf(),
        ensures
            final(self).wf(),
            *final(self) == (Editor {
                selection: final(self).selection,
                tiles: final(self).tiles,
                renderer: final(self).renderer,
                ..*old(self)
            }),
            effect.clears_tools ==> final(self).tools_cleared() && final(self).selection.same_modes(
                old(self).selection,
            ),
            !effect.clears_tools ==> final(self).selection == old(self).selection,
            effect.invalidates_tiles ==> final(self).everything_is_drawn_anew(*old(self)),
            !effect.invalidates_tiles ==> final(self).tiles == old(self).tiles
                && final(self).renderer == old(self).renderer,
    {
        if effect.clears_tools {
            self.selection.clear_transient_tools();
        }
        if effect.invalidates_tiles {
            self.tiles.invalidate_tile_rendering();
            self.renderer.clear();
        }
    }

    /// All tiles and all that was kept for drawing directly are gone.
    pub open spec fn everything_is_drawn_anew(self, before: Editor) -> bool {
        &&& self.tiles.rests()
        &&& self.tiles.loaded_view() == Seq::<LoadedView>::empty()
        &&& self.tiles.visible_view() == Seq::<KeyView>::empty()
        &&& self.tiles.generation == next_generation(before.tiles.generation)
        &&& self.tiles.same_timing(before.tiles)
        &&& self.renderer.is_clear()
    }

    /// Follows a change of the settings for keeping tiles, where `cache` tells
    /// whether they can be kept that way: all is drawn anew. Returns what to tell
    /// the user where they cannot.
    pub fn finish_tile_scheduler(&mut self, cache: Result<(), String>) -> (message: Option<String>)
        requires
            old(self).wf(),
        ensures
            final(self).wf(),
            match cache {
                Ok(()) => {
                    &&& message is None
                    &&& final(self).everything_is_drawn_anew(*old(self))
                    &&& *final(self) == (Editor {
                        tiles: final(self).tiles,
                        renderer: final(self).renderer,
                        ..*old(self)
                    })
                },
                Err(error) => {
                    &&& message is Some
                    &&& message.unwrap()@ == "Tile cache failed: "@ + error@
                    &&& *final(self) == *old(self)
                },
            },
    {
        match cache {
            Ok(()) => {
                self.tiles.invalidate_tile_rendering();
                self.renderer.clear();
                None
            },
            Err(error) => Some(joined("Tile cache failed: ", error.as_str())),
        }
    }

    /// What `clearing` drops is gone.
    pub open spec fn is_cleared(self, clearing: Clearing, before: Editor) -> bool {
        &&& self.selection.same_modes(before.selection)
        &&& match clearing {
            Clearing::Nothing => self.selection == before.selection,
            Clearing::Objects => {
                &&& self.selection.objects_cleared()
                &&& self.selection.same_area(before.selection)
                &&& self.selection.same_eraser(before.selection)
            },
            Clearing::ObjectsAndArea => {
                &&& self.selection.objects_cleared()
                &&& self.selection.area_cleared()
                &&& self.selection.same_eraser(before.selection)
            },
            Clearing::All => self.tools_cleared(),
        }
    }

    /// What `refresh` has drawn anew is.
    pub open spec fn is_refreshed(
        self,
        refresh: Refresh,
        layer_is_topmost: bool,
        before: Editor,
    ) -> bool {
        match refresh {
            Refresh::Nothing => self.tiles == before.tiles && self.renderer == before.renderer,
            Refresh::Layer => if layer_is_topmost {
                &&& self.tiles.rests()
                &&& self.tiles.loaded_view() == before.tiles.loaded_view()
                &&& self.tiles.visible_view() == before.tiles.visible_view()
                &&& self.tiles.generation == next_generation(before.tiles.generation)
                &&& self.tiles.same_timing(before.tiles)
                &&& self.renderer == before.renderer
            } else {
                self.everything_is_drawn_anew(before)
            },
            Refresh::Everything => self.everything_is_drawn_anew(before),
        }
    }

    fn clear_after_edit(&mut self, clearing: Clearing)
        requires
            old(self).wf(),
        ensures
            final(self).wf(),
            *final(self) == (Editor { selection: final(self).selection, ..*old(self) }),
            final(self).is_cleared(clearing, *old(self)),
    {
        match clearing {
            Clearing::Nothing => {},
            Clearing::Objects => {
                self.selection.clear_object_selection_state();
            },
            Clearing::ObjectsAndArea => {
                self.selection.clear_object_selection_state();
                self.selection.clear_area_selection_state();
            },
            Clearing::All => {
                self.selection.clear_transient_tools();
            },
        }
    }

    fn refresh_after_edit(&mut self, refresh: Refresh, layer_is_topmost: bool)
        requires
            old(self).wf(),
        ensures
            final(self).wf(),
            *final(self) == (Editor {
                tiles: final(self).tiles,
                renderer: final(self).renderer,
                ..*old(self)
            }),
            final(self).is_refreshed(refresh, layer_is_topmost, *old(self)),
    {
        match refresh {
            Refresh::Nothing => {},
            Refresh::Layer => {
                self.tiles.begin_new_document_revision_for_layer(layer_is_topmost);
                if !layer_is_topmost {
                    self.renderer.clear();
                }
            },
            Refresh::Everything => {
                self.tiles.invalidate_tile_rendering();
                self.renderer.clear();
            },
        }
    }

    /// Lets an edit take effect; a change of the topmost layer alone leaves the
    /// tiles until others come.
    pub fn apply_edit_effect(&mut self, effect: &EditEffect, layer_is_topmost: bool)
        requires
            old(self).wf(),
        ensures
            final(self).wf(),
            *final(self) == (Editor {
                selection: final(self).selection,
                tiles: final(self).tiles,
                renderer: final(self).renderer,
                ..*old(self)
            }),
            final(self).is_cleared(effect.clearing, *old(self)),
            final(self).is_refreshed(effect.refresh, layer_is_topmost, *old(self)),
    {
        self.clear_after_edit(effect.clearing);
        self.refresh_after_edit(effect.refresh, layer_is_topmost);
    }

    /// What goes on in a frame, where something is being drawn or a button is
    /// down, and tiles may wait for the zoom to settle or for a pause.
    pub fn frame_activity(
        &self,
        has_draft: bool,
        pointer_down: bool,
        zoom_is_settling: bool,
        rebuild_is_deferred: bool,
    ) -> (activity: FrameActivity)
        ensures
            ({
                let gestures = self.selection.gestures;
                let previewing = gestures.drag_active || gestures.move_active
                    || self.selection.area_drag_active || self.selection.eraser_lasso_active;
                let input = has_draft || (pointer_down && !previewing);
                let interaction = input || zoom_is_settling || rebuild_is_deferred;
                activity == FrameActivity {
                    previewing,
                    input,
                    interaction,
                    overlay: interaction || previewing,
                    transforming: gestures.move_active || gestures.scale is Some
                        || gestures.rotate is Some,
                }
            }),
    {
        let previewing: bool = self.selection.gestures.drag_active
            || self.selection.gestures.move_active || self.selection.area_drag_active
            || self.selection.eraser_lasso_active;
        let input: bool = has_draft || (pointer_down && !previewing);
        let interaction: bool = input || zoom_is_settling || rebuild_is_deferred;
        FrameActivity {
            previewing,
            input,
            interaction,
            overlay: interaction || previewing,
            transforming: self.selection.gestures.move_active
                || self.selection.gestures.scale.is_some()
                || self.selection.gestures.rotate.is_some(),
        }
    }
}

} // verus!
