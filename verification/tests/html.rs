use wicci_shim::html::{
    html_attr, html_attrs, html_id, html_static, html_tag, html_tag_attrs_contents, html_tag_content,
    html_tag_contents, html_text, html_title_contents, html_title_h1_contents, html_val, valid_html_id,
    valid_html_val,
};

#[test]
fn html_test1() {}

#[test]
fn text_is_taken_as_it_is() {
    assert_eq!(html_text("a<b".to_string()), "a<b");
    assert_eq!(html_static("method"), "method");
}

#[test]
fn identifiers_are_checked_and_lowered() {
    assert!(valid_html_id("Div2"));
    assert!(valid_html_id("a"));
    assert!(!valid_html_id(""));
    assert!(!valid_html_id("2div"));
    assert!(!valid_html_id("data-x"));
    assert!(!valid_html_id("div\n"));
    assert!(!valid_html_id("é"));
    assert_eq!(html_id("DIV"), "div");
    assert_eq!(html_attr("HRef"), "href");
    assert_eq!(html_tag("H1"), "h1");
}

#[test]
fn values_are_checked_and_escaped() {
    assert!(valid_html_val("a b ~!"));
    assert!(valid_html_val(""));
    assert!(!valid_html_val("tab\there"));
    assert!(!valid_html_val("line\n"));
    assert_eq!(html_val("say \"hi\""), "say &quot;hi&quot;");
    assert_eq!(html_val("plain"), "plain");
}

#[test]
fn attributes_in_pairs() {
    let attrs = vec!["CLASS".to_string(), "x \"y\"".to_string(), "id".to_string(), "z".to_string()];
    assert_eq!(html_attrs(attrs), " class=\"x &quot;y&quot;\" id=\"z\"");
    assert_eq!(html_attrs(Vec::new()), "");
}

#[test]
fn elements() {
    assert_eq!(
        html_tag_attrs_contents("A", vec!["href".to_string(), "/x".to_string()], vec!["one".to_string(), "two".to_string()]),
        "<a href=\"/x\">\nonetwo\n</a>\n"
    );
    assert_eq!(html_tag_contents("dl", vec!["a".to_string(), "b".to_string()]), "<dl>\nab\n</dl>\n");
    assert_eq!(html_tag_contents("dl", vec![]), html_tag_attrs_contents("dl", vec![], vec![]));
    assert_eq!(html_tag_content("dt", "method".to_string()), "<dt>\nmethod\n</dt>\n");
}

#[test]
fn pages() {
    assert_eq!(
        html_title_h1_contents(None, None, vec![]),
        "<html>\n<head>\n\n</head>\n<body>\n\n</body>\n\n</html>\n"
    );
    assert_eq!(
        html_title_h1_contents(Some("T"), Some("H"), vec!["x".to_string(), "y".to_string()]),
        "<html>\n<head>\n<title>\nT\n</title>\n\n</head>\n<body>\n<h1>\nH\n</h1>\nxy\n</body>\n\n</html>\n"
    );
    assert_eq!(
        html_title_contents("shim", "c".to_string()),
        html_title_h1_contents(Some("shim"), Some("shim"), vec!["c".to_string()])
    );
}
