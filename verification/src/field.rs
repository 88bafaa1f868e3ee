//! Field descriptors, the externally supplied metadata that locates one
//! field's symbol stream within the binary payload.

use vstd::prelude::*;

verus! {

/// Where one field's encoded symbol stream sits in the binary payload.
/// Produced by the external header parser; an immutable input here.
#[derive(Clone, Debug, PartialEq, Eq)]
pub struct QvdFieldHeader {
    /// The field's name, the key of its column in the decoded table.
    pub field_name: String,
    /// Byte position of the field's stream, relative to the payload start.
    pub offset: usize,
    /// Byte length of the field's stream.
    pub length: usize,
}

/// The mathematical image of a field descriptor.
pub struct FieldHeaderView {
    /// The field's name as a character sequence.
    pub field_name: Seq<char>,
    /// Byte position of the field's stream, relative to the payload start.
    pub offset: int,
    /// Byte length of the field's stream.
    pub length: int,
}

impl View for QvdFieldHeader {
    type V = FieldHeaderView;

    open spec fn view(&self) -> FieldHeaderView {
        FieldHeaderView {
            field_name: self.field_name@,
            offset: self.offset as int,
            length: self.length as int,
        }
    }
}

impl DeepView for QvdFieldHeader {
    type V = FieldHeaderView;

    open spec fn deep_view(&self) -> FieldHeaderView {
        self.view()
    }
}

} // verus!
