//! Decoder for the binary symbol-table section of a QVD file.
//!
//! A QVD file starts with an XML text header, a single `0x00` terminator
//! byte, and a binary payload holding one tag-prefixed symbol stream per
//! field.  This crate locates the header/payload boundary and decodes each
//! field's symbol stream into either strings or 64-bit integers, collected
//! into a table keyed by field name.  Parsing the XML header itself into
//! field descriptors is left to an external collaborator; the descriptors
//! are plain inputs here.

pub mod boundary;
pub mod errors;
pub mod field;
pub mod numbers;
pub mod strings;
pub mod table;

pub use boundary::get_xml_data;
pub use errors::FieldError;
pub use errors::QvdError;
pub use field::QvdFieldHeader;
pub use numbers::process_number_symbols;
pub use strings::process_string_symbols;
pub use table::decode_symbol_table;
pub use table::get_symbols;
pub use table::Symbol;
pub use table::SymbolTable;
