//! Verified core of a text-art editor: a sparse canvas of styled cells,
//! its ANSI import and export, undo history and the editing actions.

pub mod rect;
pub mod index_map;
pub mod text;
pub mod style;
pub mod canvas;
pub mod yank;
pub mod operations;
pub mod history;
pub mod slots;
pub mod transform;
pub mod state;
pub mod actions;
pub mod operators;
pub mod command_line;
pub mod iter;
pub mod continuous_region;
pub mod keystrokes;
pub mod keystroke;
pub mod keymap;
pub mod presets;
pub mod motions;
pub mod color_target;
pub mod tracer;
pub mod rendering;
pub mod ansi_import;
pub mod ansi_export;
pub mod ansi_round_trip;
