use qvd_symbols::decode_symbol_table;
use qvd_symbols::get_symbols;
use qvd_symbols::get_xml_data;
use qvd_symbols::process_number_symbols;
use qvd_symbols::process_string_symbols;
use qvd_symbols::QvdError;
use qvd_symbols::QvdFieldHeader;
use qvd_symbols::Symbol;

fn field(name: &str, offset: usize, length: usize) -> QvdFieldHeader {
    QvdFieldHeader { field_name: String::from(name), offset, length }
}

#[test]
fn number_stream_empty_is_ok() {
    let buf: Vec<u8> = Vec::new();
    assert_eq!(process_number_symbols(&buf).unwrap(), Vec::<i64>::new());
}

#[test]
fn number_stream_sign_extends() {
    let buf: Vec<u8> = vec![
        0x01, 0xFF, 0xFF, 0xFF, 0xFF, 0x02, 0xFF, 0xFF, 0xFF, 0xFF, 0xFF, 0xFF, 0xFF, 0xFE,
    ];
    assert_eq!(process_number_symbols(&buf).unwrap(), vec![-1i64, -2i64]);
}

#[test]
fn number_stream_bad_tag_reports_offset() {
    let buf: Vec<u8> = vec![0x01, 0x00, 0x00, 0x00, 0x0A, 0x07, 0x01, 0x02];
    let err = process_number_symbols(&buf).unwrap_err();
    assert_eq!(err, QvdError::UnrecognizedTagError { offset: 5, tag: 7 });
}

#[test]
fn number_stream_truncated_record_is_a_format_error() {
    let buf: Vec<u8> = vec![0x02, 0x00, 0x00];
    let err = process_number_symbols(&buf).unwrap_err();
    assert_eq!(err, QvdError::FormatError { offset: 0 });
}

#[test]
fn string_markers_and_newlines_excluded() {
    let buf: Vec<u8> = vec![4, 97, 13, 10, 98, 0];
    assert_eq!(process_string_symbols(&buf), vec!["ab"]);
}

#[test]
fn unterminated_string_content_dropped() {
    let buf: Vec<u8> = vec![4, 104, 105];
    let first = process_string_symbols(&buf);
    let second = process_string_symbols(&buf);
    assert!(first.is_empty());
    assert_eq!(first, second);
}

#[test]
fn escape_tail_without_terminator_emits_nothing() {
    let buf: Vec<u8> = vec![5, 0, 0, 0, 0, 104, 105];
    assert_eq!(process_string_symbols(&buf), Vec::<String>::new());
}

#[test]
fn short_number_field_yields_empty_column() {
    let payload: Vec<u8> = vec![0x01, 0x00, 0x00, 0x00, 0x0A];
    let sym = get_symbols(&payload, &field("n", 0, 5)).unwrap();
    assert_eq!(sym, Symbol::Numbers(Vec::new()));
}

#[test]
fn unrecognized_leading_tag_fails_the_field() {
    let payload: Vec<u8> = vec![0x09, 1, 2, 3];
    let err = get_symbols(&payload, &field("f", 0, 4)).unwrap_err();
    assert_eq!(err, QvdError::UnrecognizedTagError { offset: 0, tag: 9 });
}

#[test]
fn out_of_bounds_field_is_a_bounds_error() {
    let payload: Vec<u8> = vec![4, 0];
    let err = get_symbols(&payload, &field("f", 1, 5)).unwrap_err();
    assert_eq!(err, QvdError::BoundsError { offset: 1, length: 5 });
}

#[test]
fn bad_field_aborts_the_whole_table() {
    let payload: Vec<u8> = vec![4, 104, 105, 0, 0x09, 1, 2];
    let fields = vec![field("good", 0, 4), field("bad", 4, 3)];
    let err = decode_symbol_table(&payload, &fields).unwrap_err();
    assert_eq!(err.field_name, "bad");
    assert_eq!(err.error, QvdError::UnrecognizedTagError { offset: 4, tag: 9 });
}

#[test]
fn boundary_offset_is_text_length_plus_one() {
    let mut buf: Vec<u8> = Vec::new();
    buf.extend_from_slice(b"hello");
    buf.push(0);
    buf.extend_from_slice(&[1, 2, 3]);
    let (text, offset) = get_xml_data(&buf).unwrap();
    assert_eq!(text, "hello");
    assert_eq!(offset, 6);
}

#[test]
fn boundary_empty_header() {
    let buf: Vec<u8> = vec![0, 42];
    let (text, offset) = get_xml_data(&buf).unwrap();
    assert_eq!(text, "");
    assert_eq!(offset, 1);
}

#[test]
fn boundary_missing_terminator_is_a_format_error() {
    let buf: Vec<u8> = vec![65, 66];
    assert_eq!(get_xml_data(&buf).unwrap_err(), QvdError::FormatError { offset: 2 });
}

#[test]
fn boundary_invalid_utf8_header_is_a_decoding_error() {
    let buf: Vec<u8> = vec![0xFF, 0x00];
    assert_eq!(get_xml_data(&buf).unwrap_err(), QvdError::DecodingError);
}

#[test]
fn boundary_multibyte_header_decoded() {
    let buf: Vec<u8> = vec![0xC3, 0xA9, 0x00, 9];
    let (text, offset) = get_xml_data(&buf).unwrap();
    assert_eq!(text, "\u{e9}");
    assert_eq!(offset, 3);
}

#[test]
fn table_decodes_each_field_by_its_tag() {
    let payload: Vec<u8> = vec![
        4, 104, 105, 0, 0x02, 0x00, 0x00, 0x00, 0x00, 0x00, 0x00, 0x01, 0xA4,
    ];
    let fields = vec![field("s", 0, 4), field("n", 4, 9)];
    let table = decode_symbol_table(&payload, &fields).unwrap();
    match table.get(&String::from("s")) {
        Some(Symbol::Strings(v)) => assert_eq!(v, &vec![String::from("hi")]),
        _ => panic!("expected a string column"),
    }
    match table.get(&String::from("n")) {
        Some(Symbol::Numbers(v)) => assert_eq!(v, &vec![420i64]),
        _ => panic!("expected a number column"),
    }
    assert!(table.get(&String::from("missing")).is_none());
}

#[test]
fn table_round_trip_is_idempotent() {
    let payload: Vec<u8> = vec![
        4, 104, 105, 0, 0x02, 0x00, 0x00, 0x00, 0x00, 0x00, 0x00, 0x01, 0xA4,
    ];
    let fields = vec![field("s", 0, 4), field("n", 4, 9)];
    let first = decode_symbol_table(&payload, &fields).unwrap();
    let second = decode_symbol_table(&payload, &fields).unwrap();
    assert_eq!(first, second);
}

#[test]
fn later_field_with_same_name_wins() {
    let payload: Vec<u8> = vec![4, 97, 0, 4, 98, 0];
    let fields = vec![field("x", 0, 3), field("x", 3, 3)];
    let table = decode_symbol_table(&payload, &fields).unwrap();
    match table.get(&String::from("x")) {
        Some(Symbol::Strings(v)) => assert_eq!(v, &vec![String::from("b")]),
        _ => panic!("expected a string column"),
    }
}
