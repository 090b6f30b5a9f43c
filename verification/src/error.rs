//! Definitions of the error types.
use vstd::prelude::*;

use crate::types::NbtString;

verus! {

/// Errors that can occur while parsing NBT data.
#[derive(Debug, Clone, PartialEq, Eq, PartialOrd, Ord)]
pub enum ParseError {
    /// The encountered tag ID is not valid.
    InvalidTagId(u8),
    /// The input ended before the parser finished.
    UnexpectedEndOfInput,
    /// The string data is not valid UTF-8.
    InvalidUtf8,
    /// The encountered length of an `Array` or a `List` is negative.
    NegativeLength(i32),
    /// Extra bytes remaining after the parser finished.
    LeftoverData(usize),
    /// A non-unique tag name was encountered.
    DuplicateTagName(NbtString),
    /// The data is not a valid NBT file.
    NotNBT,
}

/// What a `ParseError` says, with the repeated name taken by its characters.
pub enum ParseFault {
    InvalidTagId(u8),
    UnexpectedEndOfInput,
    InvalidUtf8,
    NegativeLength(i32),
    LeftoverData(usize),
    DuplicateTagName(Seq<char>),
    NotNBT,
}

impl View for ParseError {
    type V = ParseFault;

    open spec fn view(&self) -> ParseFault {
        match self {
            ParseError::InvalidTagId(b) => ParseFault::InvalidTagId(*b),
            ParseError::UnexpectedEndOfInput => ParseFault::UnexpectedEndOfInput,
            ParseError::InvalidUtf8 => ParseFault::InvalidUtf8,
            ParseError::NegativeLength(n) => ParseFault::NegativeLength(*n),
            ParseError::LeftoverData(n) => ParseFault::LeftoverData(*n),
            ParseError::DuplicateTagName(name) => ParseFault::DuplicateTagName(name@),
            ParseError::NotNBT => ParseFault::NotNBT,
        }
    }
}

/// Represents the errors caused by trying to create an invalid NBT tag.
#[derive(Debug, Clone, PartialEq, Eq, Structural, PartialOrd, Ord)]
pub enum ValidationError {
    /// Indicates that the `Array` exceeds the maximum allowed length.
    ArrayTooLong(usize),
    /// Indicates that the `String` exceeds the maximum allowed length.
    StringTooLong(usize),
}

} // verus!
