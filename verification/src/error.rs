use vstd::prelude::*;

verus! {

/// What can go wrong while decoding a field or resolving a memo.
#[derive(Debug, Clone, Copy, PartialEq, Eq, Structural)]
pub enum Error {
    /// The stream ended before the bytes asked for could be read.
    UnexpectedEof,
    /// Text that should hold an unsigned decimal number does not.
    ParseIntError,
    /// Text that should hold a number, with or without a fraction, does
    /// not.
    ParseFloatError,
    /// The tag character names no supported field type.
    InvalidFieldType(char),
    /// Day, month or year lie outside the accepted calendar range.
    InvalidDate,
    /// A memo field was met but no memo reader was supplied.
    MissingMemoFile,
}

} // verus!
