//! Core editing engine of a terminal tablature editor: exact rational note
//! durations, the song document (tracks, beats, notes), an addressable
//! cursor with navigation and mutation operations, a clipboard buffer, and
//! a bounded, invertible undo/redo history.

pub mod buffer;
pub mod cursor;
pub mod dur;
pub mod song;
pub mod error;
pub mod gcd;
pub mod history;
