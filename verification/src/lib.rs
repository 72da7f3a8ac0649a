//! Text editing core.
pub mod actions;
pub mod caret_laws;
pub mod change;
pub mod check_laws;
pub mod compose;
pub mod context;
pub mod display_map;
pub mod edit;
pub mod edit_laws;
pub mod history;
pub mod history_laws;
pub mod key_laws;
pub mod keys;
pub mod kind;
pub mod layout_laws;
pub mod mask_format_laws;
pub mod mask_laws;
pub mod mask_pattern;
pub mod mode;
pub mod motion_laws;
pub mod mouse;
pub mod move_laws;
pub mod navigate;
pub mod node;
pub mod pattern;
pub mod place_laws;
pub mod record_laws;
pub mod render;
pub mod rope;
pub mod scroll;
pub mod segmentation;
pub mod selection;
pub mod session_laws;
pub mod settings;
pub mod state;
pub mod state_laws;
pub mod strings;
pub mod text;
pub mod undo_manager;
pub mod value;
