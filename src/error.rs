//! Errors of the text operations.

use vstd::prelude::*;

verus! {

/// A position, byte offset or range that does not fit the text.
#[derive(Clone, Copy, Debug, PartialEq, Eq, Structural)]
pub enum TextError {
    /// Row index and number of rows.
    LineIndexOutOfBounds(u32, u32),
    /// Column index and width of the row.
    ColumnIndexOutOfBounds(u32, u32),
    /// Byte offset and length of the text in bytes.
    ByteIndexOutOfBounds(usize, usize),
    /// Byte offset that does not start a grapheme.
    ByteIndexNotCharBoundary(usize),
    /// The text would grow past what positions and offsets can count.
    TextTooLong,
    /// An undo or redo entry does not fit the text it is applied to.
    EntryMismatch,
}

} // verus!
