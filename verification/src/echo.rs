//! The echo mode: each request is answered with a page that shows it.

use vstd::prelude::*;
use crate::html::{concat_all, element, html_static, html_tag_content, html_tag_contents, html_title_contents, page, views, StrVec};
use crate::strings::{decimal_chars, push_decimal};
use crate::tinier::HttpVersion;

verus! {

/// What the echo mode does with a request.
pub enum EchoReply {
    /// The favicon is not served: status 404, no body.
    NotFound,
    /// A `GET` or `PUT` is answered with status 200 and this page.
    Page(String),
    /// Any other method gets no answer.
    NoReply,
}

/// An HTTP version as it is shown: `major.minor`.
pub open spec fn version_text(v: HttpVersion) -> Seq<char> {
    decimal_chars(v.0 as nat) + seq!['.'] + decimal_chars(v.1 as nat)
}

/// The definition-list lines of the headers:
/// `<dt>field</dt>\n<dd>value</dd>\n` for each.
pub open spec fn header_list(hs: Seq<(String, String)>) -> Seq<char>
    decreases hs.len(),
{
    if hs.len() == 0 {
        Seq::empty()
    } else {
        header_list(hs.drop_last()) + "<dt>"@ + hs.last().0@ + "</dt>\n<dd>"@ + hs.last().1@ + "</dd>\n"@
    }
}

/// The body of the echo page: a definition list of method, URL, version
/// and the headers.
pub open spec fn echo_list(method: Seq<char>, url: Seq<char>, version: Seq<char>, header_data: Seq<char>) -> Seq<char> {
    element(
        seq!['d', 'l'],
        Seq::empty(),
        element(seq!['d', 't'], Seq::empty(), "method"@) + element(seq!['d', 'd'], Seq::empty(), method)
            + element(seq!['d', 't'], Seq::empty(), "url"@) + element(seq!['d', 'd'], Seq::empty(), url)
            + element(seq!['d', 't'], Seq::empty(), "http_version"@) + element(
            seq!['d', 'd'],
            Seq::empty(),
            version,
        ) + header_data,
    )
}

/// The echo page of a request.
pub open spec fn echo_page(method: Seq<char>, url: Seq<char>, version: HttpVersion, hs: Seq<(String, String)>) -> Seq<char> {
    page(
        Some("shim response"@),
        Some("shim response"@),
        echo_list(method, url, version_text(version), header_list(hs)),
    )
}

/// Whether two strings are equal, character by character.
pub fn str_equal(a: &str, b: &str) -> (res: bool)
    ensures
        res == (a@ == b@),
{
    let n = a.unicode_len();
    if n != b.unicode_len() {
        return false;
    }
    for i in 0..n
        invariant
            n == a@.len(),
            n == b@.len(),
            forall|j: int| 0 <= j < i ==> a@[j] == b@[j],
    {
        if a.get_char(i) != b.get_char(i) {
            return false;
        }
    }
    assert(a@ =~= b@);
    true
}

/// The HTTP version shown as `major.minor`.
pub fn version_string(v: &HttpVersion) -> (res: String)
    ensures
        res@ == version_text(*v),
{
    let mut s = String::new();
    push_decimal(&mut s, v.0 as usize);
    s.append(".");
    push_decimal(&mut s, v.1 as usize);
    proof {
        reveal_strlit(".");
        assert("."@ =~= seq!['.']);
        assert(s@ =~= version_text(*v));
    }
    s
}

/// The definition-list lines of the headers.
pub fn header_list_string(headers: &Vec<(String, String)>) -> (res: String)
    ensures
        res@ == header_list(headers@),
{
    let mut header_data = String::new();
    let n = headers.len();
    for i in 0..n
        invariant
            n == headers@.len(),
            header_data@ == header_list(headers@.take(i as int)),
    {
        let h = &headers[i];
        header_data.append("<dt>");
        header_data.append(h.0.as_str());
        header_data.append("</dt>\n<dd>");
        header_data.append(h.1.as_str());
        header_data.append("</dd>\n");
        proof {
            assert(headers@.take(i + 1).drop_last() =~= headers@.take(i as int));
            assert(headers@.take(i + 1).last() == headers@[i as int]);
        }
    }
    proof {
        assert(headers@.take(n as int) =~= headers@);
    }
    header_data
}

/// What the echo mode answers to a request with this method, URL,
/// version and headers: the favicon is not found; `GET` and `PUT` get the
/// echo page; anything else gets no answer.
pub fn echo_reply(method: &str, url: &str, http_version: &HttpVersion, headers: &Vec<(String, String)>) -> (res: EchoReply)
    ensures
        url@ == "/favicon.ico"@ ==> res is NotFound,
        url@ != "/favicon.ico"@ && (method@ == "GET"@ || method@ == "PUT"@) ==> (res matches EchoReply::Page(p)
            && p@ == echo_page(method@, url@, *http_version, headers@)),
        url@ != "/favicon.ico"@ && !(method@ == "GET"@ || method@ == "PUT"@) ==> res is NoReply,
{
    if str_equal(url, "/favicon.ico") {
        return EchoReply::NotFound;
    }
    if str_equal(method, "GET") || str_equal(method, "PUT") {
        let header_data = header_list_string(headers);
        proof {
            reveal_strlit("dl");
            reveal_strlit("dt");
            reveal_strlit("dd");
            crate::html::lemma_is_id_literals();
        }
        let items: StrVec = vec![
            html_tag_content("dt", html_static("method")),
            html_tag_content("dd", method.to_owned()),
            html_tag_content("dt", html_static("url")),
            html_tag_content("dd", url.to_owned()),
            html_tag_content("dt", html_static("http_version")),
            html_tag_content("dd", version_string(http_version)),
            header_data,
        ];
        let ghost iv = views(items@);
        let list = html_tag_contents("dl", items);
        proof {
            assert(concat_all(iv) =~= iv[0] + iv[1] + iv[2] + iv[3] + iv[4] + iv[5] + iv[6]) by {
                reveal_with_fuel(concat_all, 8);
            }
        }
        let page = html_title_contents("shim response", list);
        EchoReply::Page(page)
    } else {
        EchoReply::NoReply
    }
}


/// The definition-list lines of headers: none for no headers, and each
/// header adds `<dt>field</dt>\n<dd>value</dd>\n` with its field and value
/// as given.
pub proof fn law_header_list_step(hs: Seq<(String, String)>, h: (String, String))
    ensures
        header_list(Seq::<(String, String)>::empty()) == Seq::<char>::empty(),
        header_list(hs.push(h)) == header_list(hs) + "<dt>"@ + h.0@ + "</dt>\n<dd>"@ + h.1@ + "</dd>\n"@,
{
    assert(hs.push(h).drop_last() =~= hs);
}

/// The definition list of the echo page: the method, the URL and the
/// version, each shown as given under its name, then the header lines.
pub proof fn law_echo_list_layout(method: Seq<char>, url: Seq<char>, version: Seq<char>, header_data: Seq<char>)
    ensures
        echo_list(method, url, version, header_data) == "<dl>\n<dt>\nmethod\n</dt>\n<dd>\n"@ + method
            + "\n</dd>\n<dt>\nurl\n</dt>\n<dd>\n"@ + url + "\n</dd>\n<dt>\nhttp_version\n</dt>\n<dd>\n"@
            + version + "\n</dd>\n"@ + header_data + "\n</dl>\n"@,
{
    reveal_strlit("<dl>\n<dt>\nmethod\n</dt>\n<dd>\n");
    reveal_strlit("\n</dd>\n<dt>\nurl\n</dt>\n<dd>\n");
    reveal_strlit("\n</dd>\n<dt>\nhttp_version\n</dt>\n<dd>\n");
    reveal_strlit("\n</dd>\n");
    reveal_strlit("\n</dl>\n");
    reveal_strlit("method");
    reveal_strlit("url");
    reveal_strlit("http_version");
    let dt = seq!['d', 't'];
    let dd = seq!['d', 'd'];
    let e: Seq<char> = Seq::empty();
    assert("<dl>\n<dt>\nmethod\n</dt>\n<dd>\n"@ =~= seq!['<', 'd', 'l', '>', '\n'] + element(dt, e, "method"@)
        + seq!['<', 'd', 'd', '>', '\n']);
    assert("\n</dd>\n<dt>\nurl\n</dt>\n<dd>\n"@ =~= seq!['\n', '<', '/', 'd', 'd', '>', '\n'] + element(
        dt,
        e,
        "url"@,
    ) + seq!['<', 'd', 'd', '>', '\n']);
    assert("\n</dd>\n<dt>\nhttp_version\n</dt>\n<dd>\n"@ =~= seq!['\n', '<', '/', 'd', 'd', '>', '\n']
        + element(dt, e, "http_version"@) + seq!['<', 'd', 'd', '>', '\n']);
    assert("\n</dd>\n"@ =~= seq!['\n', '<', '/', 'd', 'd', '>', '\n']);
    assert("\n</dl>\n"@ =~= seq!['\n', '<', '/', 'd', 'l', '>', '\n']);
    assert(echo_list(method, url, version, header_data) =~= "<dl>\n<dt>\nmethod\n</dt>\n<dd>\n"@ + method
        + "\n</dd>\n<dt>\nurl\n</dt>\n<dd>\n"@ + url + "\n</dd>\n<dt>\nhttp_version\n</dt>\n<dd>\n"@
        + version + "\n</dd>\n"@ + header_data + "\n</dl>\n"@);
}

/// The echo page is the page titled and headed `shim response` whose
/// content is the definition list of the request's method, URL, version
/// and header lines, the method and URL as given.
pub proof fn law_echo_page_holds_list(method: Seq<char>, url: Seq<char>, version: HttpVersion, hs: Seq<(String, String)>)
    ensures
        echo_page(method, url, version, hs) == page(
            Some("shim response"@),
            Some("shim response"@),
            echo_list(method, url, version_text(version), header_list(hs)),
        ),
{
}

} // verus!
