use wicci_shim::selftest::{cat2vec, len_all, path_host_user_server, path_req, path_username_host, row_report, test_request};

#[test]
fn test_len_all() {
    assert_eq!(len_all(&[]), 0);
    assert_eq!(len_all(&[b""]), 0);
    assert_eq!(len_all(&[b"-"]), 1);
    assert_eq!(len_all(&[b"--"]), 2);
    assert_eq!(len_all(&[b"", b""]), 0);
    assert_eq!(len_all(&[b"-", b"-"]), 2);
}

#[test]
fn test_cat2vec() {
    assert_eq!(cat2vec(&[]), b"");
    assert_eq!(cat2vec(&[b""]), b"");
    assert_eq!(cat2vec(&[b"-"]), b"-");
    assert_eq!(cat2vec(&[b"--"]), b"--");
    assert_eq!(cat2vec(&[b"", b""]), b"");
    assert_eq!(cat2vec(&[b"1", b"2"]), b"12");
}

#[test]
fn test_path_username_host() {
    let bv: &[u8] = b"GET /P?host=H&user=U@H HTTP/1.1\r\nHost: localhost:8080\r\n";
    assert_eq!(path_username_host(b"P", b"U", b"H"), bv);
}

#[test]
fn cat2vec_length_is_len_all() {
    let parts: [&[u8]; 3] = [b"abc", b"", b"de"];
    assert_eq!(cat2vec(&parts).len(), len_all(&parts));
    assert_eq!(len_all(&parts), 5);
}

#[test]
fn path_host_user_server_layout() {
    let v = path_host_user_server(b"a/b", b"h.org", b"me", b"srv:1");
    assert_eq!(v, b"GET /a/b?host=h.org&user=me HTTP/1.1\r\nHost: srv:1\r\n".to_vec());
}

#[test]
fn path_req_uses_default_user_and_host() {
    assert_eq!(
        path_req(b"simple"),
        b"GET /simple?host=wicci.org&user=greg@wicci.org HTTP/1.1\r\nHost: localhost:8080\r\n".to_vec()
    );
}

#[test]
fn named_tests_have_requests() {
    assert_eq!(test_request("simple"), Some(path_req(b"simple")));
    assert_eq!(test_request("fancy"), Some(path_req(b"fancy")));
    assert_eq!(test_request("jpg"), Some(path_req(b"Entity-Icon/deadbeef.jpg")));
    assert_eq!(test_request("other"), None);
    assert_eq!(test_request(""), None);
}

#[test]
fn row_reports() {
    assert_eq!(row_report("_body", "hello", 0), "_body:\nhello\n");
    assert_eq!(row_report("content-type", "text/html", 0), "content-type: text/html\n");
    assert_eq!(row_report("x", "", 0), "x\n");
    assert_eq!(row_report("_body_bin", "", 1234), "_body_bin [1234]\n");
    assert_eq!(row_report("_body", "", 7), "_body [7]:\n\n");
}
