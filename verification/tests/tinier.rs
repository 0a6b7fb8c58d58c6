use wicci_shim::tinier::{
    append_body, append_bytes, append_bytes_delim, append_headers, append_http_version, append_request,
    append_request_sans_body, encode_request, Header, HttpVersion, Request,
};

fn header(f: &str, v: &str) -> Header {
    Header { field: f.as_bytes().to_vec(), value: v.as_bytes().to_vec() }
}

fn request(headers: Vec<Header>, body_length: Option<usize>, body: &[u8]) -> Request {
    Request {
        method: b"PUT".to_vec(),
        url: b"/x?y=1".to_vec(),
        http_version: HttpVersion(1, 1),
        headers,
        body_length,
        body: body.to_vec(),
    }
}

#[test]
fn tinier_test1() {}

#[test]
fn bytes_counted_or_written() {
    let mut none: Option<&mut Vec<u8>> = None;
    assert_eq!(append_bytes(&mut none, b"abc"), 3);
    assert!(none.is_none());
    let mut buf = b"x".to_vec();
    assert_eq!(append_bytes(&mut Some(&mut buf), b"abc"), 3);
    assert_eq!(buf, b"xabc".to_vec());
    assert_eq!(append_bytes_delim(&mut Some(&mut buf), b"d", b": "), 3);
    assert_eq!(buf, b"xabcd: ".to_vec());
}

#[test]
fn version_and_body() {
    let mut buf = Vec::new();
    assert_eq!(append_http_version(&mut Some(&mut buf), &HttpVersion(1, 0)), 4);
    assert_eq!(buf, b"1.0 ".to_vec());
    let mut none: Option<&mut Vec<u8>> = None;
    assert_eq!(append_body(&mut none, b"hello", 9), 9);
    assert_eq!(append_body(&mut Some(&mut buf), b"hello", 9), 5);
    assert_eq!(buf, b"1.0 hello".to_vec());
}

#[test]
fn headers_return_last_length_only() {
    let hs = vec![header("Host", "a"), header("X", "bc")];
    let mut buf = Vec::new();
    assert_eq!(append_headers(&mut Some(&mut buf), &hs), 7);
    assert_eq!(buf, b"Host: a\r\nX: bc\r\n".to_vec());
    let mut none: Option<&mut Vec<u8>> = None;
    assert_eq!(append_headers(&mut none, &hs), 7);
    assert_eq!(append_headers(&mut none, &[]), 0);
}

#[test]
fn request_encoding() {
    let r = request(vec![header("Host", "wicci.org")], Some(4), b"data");
    let mut buf = Vec::new();
    let head = append_request_sans_body(&mut Some(&mut buf), &r);
    assert_eq!(buf, b"PUT /x?y=1 1.1 Host: wicci.org\r\n\r\n".to_vec());
    assert_eq!(head, buf.len());
    assert_eq!(encode_request(&r), b"PUT /x?y=1 1.1 Host: wicci.org\r\n\r\ndata".to_vec());
}

#[test]
fn counting_and_writing_agree() {
    let r = request(vec![header("A", "1"), header("Bb", "22")], Some(3), b"xyz");
    let mut none: Option<&mut Vec<u8>> = None;
    let counted = append_request(&mut none, &r);
    let mut buf = Vec::new();
    let written = append_request(&mut Some(&mut buf), &r);
    assert_eq!(counted, written);
    // two headers: the count keeps only the last one
    assert_eq!(written + 6, buf.len());
}

#[test]
fn count_is_length_with_one_header() {
    let r = request(vec![header("A", "1")], None, b"");
    let mut buf = Vec::new();
    let written = append_request(&mut Some(&mut buf), &r);
    assert_eq!(written, buf.len());
    let mut none: Option<&mut Vec<u8>> = None;
    assert_eq!(append_request(&mut none, &r), written);
}

#[test]
fn counting_uses_announced_length() {
    let r = request(vec![], Some(10), b"abc");
    let mut none: Option<&mut Vec<u8>> = None;
    let counted = append_request(&mut none, &r);
    let mut buf = Vec::new();
    let written = append_request(&mut Some(&mut buf), &r);
    assert_eq!(counted, written + 7);
}

#[test]
fn counting_checks_no_version_digits() {
    let mut none: Option<&mut Vec<u8>> = None;
    assert_eq!(append_http_version(&mut none, &HttpVersion(12, 0)), 4);
    assert!(none.is_none());
}

#[test]
fn head_ignores_announced_length() {
    let r = request(vec![], Some(usize::MAX), b"");
    let mut buf = Vec::new();
    let head = append_request_sans_body(&mut Some(&mut buf), &r);
    assert_eq!(buf, b"PUT /x?y=1 1.1 \r\n".to_vec());
    assert_eq!(head, buf.len());
    let mut none: Option<&mut Vec<u8>> = None;
    assert_eq!(append_request_sans_body(&mut none, &r), head);
}
