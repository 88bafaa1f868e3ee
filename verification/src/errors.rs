//! Error values produced when a symbol table cannot be decoded.

use vstd::prelude::*;

verus! {

/// Why a decode step failed.  Every failure is fatal for the whole table
/// decode: the caller receives either a complete table or one of these.
#[derive(Clone, Debug, PartialEq, Eq)]
pub enum QvdError {
    /// The header bytes before the `0x00` terminator are not valid UTF-8.
    DecodingError,
    /// Either no `0x00` terminator exists before the end of the input
    /// (`offset` is then the input length), or a numeric record whose tag
    /// sits at `offset` needs more bytes than remain in the field's slice.
    FormatError { offset: usize },
    /// A field's declared `offset`/`length` range does not denote a
    /// non-empty range inside the binary payload.
    BoundsError { offset: usize, length: usize },
    /// The byte `tag` found at `offset` is not one of the recognized tag
    /// values.  For a field's leading byte `offset` is relative to the
    /// payload; for a numeric record it is relative to the field's slice.
    UnrecognizedTagError { offset: usize, tag: u8 },
}

/// A decode failure together with the name of the field it arose in.
#[derive(Clone, Debug, PartialEq, Eq)]
pub struct FieldError {
    /// Name of the field whose slice failed to decode.
    pub field_name: String,
    /// What went wrong inside that field.
    pub error: QvdError,
}

} // verus!
