//! Why reading a source can fail.

use vstd::prelude::*;

verus! {

/// The ways in which reading transactions from bytes fails.
#[derive(Debug, Clone, Copy, PartialEq, Eq, Structural)]
pub enum ReadError {
    /// The source cannot be read as the format asked for: text that is not UTF-8, or a
    /// binary record that does not start with the magic word.
    InvalidFormat,
    /// A binary record ends before all its fields.
    UnexpectedEof,
    /// The description of a binary record is not UTF-8.
    InvalidDescription,
}

} // verus!
