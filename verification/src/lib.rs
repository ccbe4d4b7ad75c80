//! Editing logic of a single-line command prompt: the line, a cursor kept on a
//! character boundary, cursor movement by grapheme and by word, completion
//! cycling, key handling and the layout of the completion menu; plus the
//! layout of a key-binding help box.

pub mod offsets;
pub mod text;
pub mod movement;
pub mod prompt;
pub mod event;
pub mod layout;
pub mod info;
pub mod laws;
pub mod key_laws;
