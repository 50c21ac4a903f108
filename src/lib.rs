//! A frame-stepped cutscene script interpreter and the shared game state it
//! drives: story flags, key input, visual-effect carets, fades, sound cues
//! and the typed-out message.

pub mod caret;
pub mod decode;
pub mod flags;
pub mod script;
pub mod state;
pub mod vm;
