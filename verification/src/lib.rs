//! A combinator engine for building parsers over sequential token input.
//!
//! Input is handled either as a complete buffer or as a possibly-truncated
//! prefix of a stream; the same grammar works in both modes. A failed parse
//! is classified as recoverable (a sibling alternative may be tried), as
//! committed (no sibling alternative may be tried), or as a request for more
//! input. The meaning of every grammar is given by a single specification
//! interpreter, and the executable interpreter is proved to agree with it.

pub mod cursor;
pub mod engine;
pub mod error;
pub mod grammar;
pub mod hexfmt;
pub mod laws;
pub mod outcome;
pub mod scan;
pub mod semantics;
