use wicci_shim::echo::{echo_reply, header_list_string, version_string, EchoReply};
use wicci_shim::html::{html_static, html_tag_content, html_tag_contents, html_title_contents};
use wicci_shim::tinier::HttpVersion;

#[test]
fn favicon_is_not_found() {
    assert!(matches!(echo_reply("GET", "/favicon.ico", &HttpVersion(1, 1), &vec![]), EchoReply::NotFound));
}

#[test]
fn other_methods_get_no_reply() {
    assert!(matches!(echo_reply("POST", "/", &HttpVersion(1, 1), &vec![]), EchoReply::NoReply));
    assert!(matches!(echo_reply("get", "/", &HttpVersion(1, 1), &vec![]), EchoReply::NoReply));
}

#[test]
fn get_gets_the_page() {
    let headers = vec![("Host".to_string(), "wicci.org".to_string())];
    let expected = html_title_contents(
        "shim response",
        html_tag_contents(
            "dl",
            vec![
                html_tag_content("dt", html_static("method")),
                html_tag_content("dd", "PUT".to_string()),
                html_tag_content("dt", html_static("url")),
                html_tag_content("dd", "/a".to_string()),
                html_tag_content("dt", html_static("http_version")),
                html_tag_content("dd", "1.0".to_string()),
                "<dt>Host</dt>\n<dd>wicci.org</dd>\n".to_string(),
            ],
        ),
    );
    match echo_reply("PUT", "/a", &HttpVersion(1, 0), &headers) {
        EchoReply::Page(p) => {
            assert_eq!(p, expected);
            assert!(p.starts_with("<html>\n<head>\n<title>\nshim response\n</title>\n"));
        }
        _ => panic!("expected a page"),
    }
}

#[test]
fn versions_and_header_lists() {
    assert_eq!(version_string(&HttpVersion(1, 1)), "1.1");
    assert_eq!(version_string(&HttpVersion(10, 0)), "10.0");
    let hs = vec![("A".to_string(), "1".to_string()), ("B".to_string(), "2".to_string())];
    assert_eq!(header_list_string(&hs), "<dt>A</dt>\n<dd>1</dd>\n<dt>B</dt>\n<dd>2</dd>\n");
}
