//! The decision core of an endless drawing canvas.
//!
//! The canvas is a grid of tiles nested without limit in both directions: a
//! tile of one depth is covered by eight times eight tiles of the next deeper
//! one. This crate holds the rules of the editor on that canvas.
//!
//! Coordinates are bit patterns of floating-point numbers. They are compared
//! here as the numbers are, unless it says that the patterns are; what takes
//! arithmetic on them is handed in as functions, and the contracts speak of the
//! answers of these.

pub mod amounts;
pub mod area_clip;
pub mod bookmarks;
pub mod brushwork;
pub mod camera;
pub mod coordinates;
pub mod coords;
pub mod drafts;
pub mod drawing;
pub mod editor;
pub mod edits;
pub mod eraser;
pub mod erasing;
pub mod fallback;
pub mod fill_difference;
pub mod frame_rate;
pub mod gestures;
pub mod highlights;
pub mod history;
pub mod hit_testing;
pub mod ids;
pub mod input;
pub mod intervals;
pub mod jumps;
pub mod layers;
pub mod line_clip;
pub mod mask_rims;
pub mod masks;
pub mod menus;
pub mod model;
pub mod navigation;
pub mod optics;
pub mod overlay;
pub mod pen;
pub mod picking;
pub mod plan;
pub mod plane;
pub mod precision;
pub mod projection;
pub mod regions;
pub mod render_cache;
pub mod renderer;
pub mod round_trips;
pub mod scanlines;
pub mod screen;
pub mod scrolls;
pub mod selection;
pub mod selection_bounds;
pub mod selection_edits;
pub mod selection_order;
pub mod selection_state;
pub mod session_log;
pub mod settings;
pub mod shortcuts;
pub mod sorting;
pub mod stress;
pub mod stroke_cut;
pub mod text;
pub mod tile_index;
pub mod tile_jobs;
pub mod tile_requests;
pub mod tile_state;
pub mod tile_view;
pub mod transfers;
pub mod transforms;
pub mod vector_eraser;
pub mod viewing;
pub mod wheel;
