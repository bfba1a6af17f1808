//! Error taxonomy of the editing engine. Invalid user-triggered operations
//! and malformed text are reported through these variants; the engine's
//! verified functions never panic.

use vstd::prelude::*;

verus! {

/// An error surfaced by the engine or by the surrounding application.
#[derive(Debug)]
pub enum Error {
    /// A failure of the terminal or file layer, described in text.
    IOError(String),
    /// Polling for input found none pending; not a real failure.
    NoEvent,
    /// A file could not be used for loading or saving.
    FileError(String),
    /// A piece of text did not match the expected grammar.
    ParseError(String),
    /// An operation was invalid in the current state.
    InvalidOp(String),
}

} // verus!
