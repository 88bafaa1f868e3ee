use qvd_symbols::process_number_symbols;
use qvd_symbols::process_string_symbols;

#[test]
fn it_works() {
    assert_eq!(2 + 2, 4);
}

#[test]
fn test_double() {
    let buf: Vec<u8> = vec![
        0x02, 0x00, 0x00, 0x00, 0x00, 0x00, 0x00, 0x01, 0xA4, 0x02, 0x00, 0x00, 0x00, 0x00,
        0x00, 0x00, 0x01, 0xA5,
    ];
    let res = process_number_symbols(&buf).unwrap();
    let expected: Vec<i64> = vec![420, 421];
    assert_eq!(expected, res);
}

#[test]
fn test_int() {
    let buf: Vec<u8> = vec![0x01, 0x00, 0x00, 0x00, 0x0A, 0x01, 0x00, 0x00, 0x00, 0x14];
    let res = process_number_symbols(&buf).unwrap();
    let expected: Vec<i64> = vec![10, 20];
    assert_eq!(expected, res);
}

#[test]
fn test_mixed_numbers() {
    let buf: Vec<u8> = vec![
        0x02, 0x00, 0x00, 0x00, 0x00, 0x00, 0x00, 0x01, 0xA4, 0x02, 0x00, 0x00, 0x00, 0x00,
        0x00, 0x00, 0x01, 0xA5, 0x01, 0x00, 0x00, 0x00, 0x0A, 0x01, 0x00, 0x00, 0x00, 0x14,
    ];
    let res = process_number_symbols(&buf).unwrap();
    let expected: Vec<i64> = vec![420, 421, 10, 20];
    assert_eq!(expected, res);
}

#[test]
fn test_string() {
    let buf: Vec<u8> = vec![
        4, 101, 120, 97, 109, 112, 108, 101, 32, 116, 101, 120, 116, 0, 4, 114, 117, 115, 116,
        0,
    ];
    let res = process_string_symbols(&buf);
    let expected = vec!["example text", "rust"];
    assert_eq!(expected, res);
}

#[test]
fn test_mixed_string() {
    let buf: Vec<u8> = vec![
        4, 101, 120, 97, 109, 112, 108, 101, 32, 116, 101, 120, 116, 0, 4, 114, 117, 115, 116,
        0, 5, 42, 65, 80, 1, 49, 50, 51, 52, 0, 6, 1, 1, 1, 1, 1, 1, 1, 1, 100, 111, 117, 98,
        108, 101, 0,
    ];
    let res = process_string_symbols(&buf);
    let expected = vec!["example text", "rust", "1234", "double"];
    assert_eq!(expected, res);
}
