//! Text editing core: positions, style ranges, a bounded undo log and the
//! editing operations that keep them consistent.

pub mod clipboard;
pub mod error;
pub mod grapheme;
pub mod lemmas;
pub mod position;
pub mod range_map;
pub mod text_core;
pub mod text_input;
pub mod text_store;
pub mod undo_buffer;
