use wicci_shim::response::{response_from_rows, ResponseError, Row};

fn row(h: &str, t: &[u8], b: &[u8]) -> Row {
    Row { header: h.as_bytes().to_vec(), text: t.to_vec(), binary: b.to_vec() }
}

#[test]
fn full_response() {
    let rows = vec![
        row("_Status", b"200", b""),
        row("Content-Type", b"text/html", b""),
        row("CONTENT-LENGTH", b"5", b""),
        row("_body", b"hello", b""),
    ];
    let rd = response_from_rows(&rows).unwrap();
    assert_eq!(rd.status_code, 200);
    assert_eq!(rd.content_length, 5);
    assert_eq!(rd.body, b"hello".to_vec());
    assert_eq!(rd.headers.len(), 1);
    assert_eq!(rd.headers[0].field, b"content-type".to_vec());
    assert_eq!(rd.headers[0].value, b"text/html".to_vec());
}

#[test]
fn binary_body_and_last_body_wins() {
    let rows = vec![
        row("_body", b"text", b""),
        row("_body_bin", b"", &[0, 255, 7]),
        row("content-length", b"3", b""),
        row("_status", b"404", b""),
    ];
    let rd = response_from_rows(&rows).unwrap();
    assert_eq!(rd.body, vec![0, 255, 7]);
    assert_eq!(rd.status_code, 404);
    assert!(rd.headers.is_empty());
}

#[test]
fn errors() {
    assert_eq!(response_from_rows(&vec![row("_status", b"2x0", b"")]).err(), Some(ResponseError::IllegalStatus));
    assert_eq!(
        response_from_rows(&vec![row("content-length", b"", b""), row("_status", b"200", b"")]).err(),
        None
    );
    assert_eq!(
        response_from_rows(&vec![row("content-length", b"-1", b"")]).err(),
        Some(ResponseError::IllegalContentLength)
    );
    assert_eq!(response_from_rows(&vec![row("X-A", b"", b"")]).err(), Some(ResponseError::EmptyHeaderValue));
    assert_eq!(response_from_rows(&vec![row("X-A", &[200u8], b"")]).err(), Some(ResponseError::InvalidHeader));
    assert_eq!(
        response_from_rows(&vec![row("\u{e9}", b"v", b"")]).err(),
        Some(ResponseError::InvalidHeader)
    );
    assert_eq!(
        response_from_rows(&vec![row("_status", b"200", b""), row("content-length", b"9", b"")]).err(),
        Some(ResponseError::LengthMismatch)
    );
    assert_eq!(response_from_rows(&vec![]).err(), Some(ResponseError::BadStatus));
    assert_eq!(response_from_rows(&vec![row("_status", b"0", b"")]).err(), Some(ResponseError::BadStatus));
}

#[test]
fn first_error_stops_reading() {
    let rows = vec![row("X", b"", b""), row("_status", b"bad", b"")];
    assert_eq!(response_from_rows(&rows).err(), Some(ResponseError::EmptyHeaderValue));
}

#[test]
fn status_code_is_truncated_to_i32() {
    let rows = vec![row("_status", b"4294967496", b"")];
    let rd = response_from_rows(&rows).unwrap();
    assert_eq!(rd.status_code, 200);
}

#[test]
fn overflowing_numbers_stop_at_their_row() {
    let rows = vec![row("_status", b"99999999999999999999999", b"")];
    assert_eq!(response_from_rows(&rows).err(), Some(ResponseError::NumberTooLarge));
    let rows = vec![row("content-length", b"99999999999999999999x", b"")];
    assert_eq!(response_from_rows(&rows).err(), Some(ResponseError::NumberTooLarge));
    let rows = vec![row("content-length", b"12x99999999999999999999999", b"")];
    assert_eq!(response_from_rows(&rows).err(), Some(ResponseError::IllegalContentLength));
    let rows = vec![row("x-big", b"99999999999999999999999", b""), row("_status", b"200", b"")];
    assert!(response_from_rows(&rows).is_ok());
}

#[test]
fn first_bad_number_decides() {
    let rows = vec![row("_status", b"abc", b""), row("content-length", b"9999999999999999999999999", b"")];
    assert_eq!(response_from_rows(&rows).err(), Some(ResponseError::IllegalStatus));
    let rows = vec![row("content-length", b"9999999999999999999999999", b""), row("_status", b"abc", b"")];
    assert_eq!(response_from_rows(&rows).err(), Some(ResponseError::NumberTooLarge));
}
