//! The errors of parsing, encoding, decoding and lookup.
use std::num::ParseIntError;
use vstd::prelude::*;

verus! {

#[verifier::external_type_specification]
#[verifier::external_body]
pub struct ExParseIntError(ParseIntError);

/// What went wrong while reading bytes.
#[derive(Debug, Clone, Copy, PartialEq, Eq, Structural)]
pub enum IoError {
    /// The input ended inside a field.
    UnexpectedEof,
    /// A field holds a value that the format does not allow (an unknown type tag).
    InvalidData,
}

#[derive(Debug, PartialEq, Eq)]
pub enum Error {
    Io(IoError),
    // definitions
    /// The table id of a definition line is not a `u16`.
    InvalidTableId(ParseIntError),
    NoTableName,
    NoTableColumnNames,
    NoTableColumnTypes,
    /// Column names and types lengths do not match
    InconsistentNamesAndTypesLength,
    // decoding
    LastBlockSizeMismatch,
    // adding rows, encoding
    /// Rows reached max capacity
    TooManyRows,
    /// Row has more than 255 columns
    TooManyColumns,
    /// First column in the row must always be `i32`
    InvalidRowID,
    /// Inconsistent amount of columns in an added row
    InconsistentRowLength,
    /// String exceeded the 16-bit size limit
    StringTooBig,
    /// Bookmark out of bounds due to 32-bit limit
    BookmarkOutOfBounds,
    // access
    RowNotFound,
    ColumnNotFound,
    ValueConversionFailed,
    InvalidColumnType,
    /// The length of resulting array does not match the requested length
    MismatchedLength,
}

} // verus!
