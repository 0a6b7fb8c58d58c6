//! HTML generation for debugging and error pages.  Tag and attribute
//! names must be plain identifiers and attribute values printable ASCII;
//! both are checked with the `regex` crate.

use vstd::prelude::*;
use crate::strings::{ascii_lowercase, lower_chars};

verus! {

/// A list of strings, as taken by the element builders.
pub type StrVec = Vec<String>;

/// Whether a character is an ASCII letter (`[[:alpha:]]`).
pub open spec fn is_ascii_alpha(c: char) -> bool {
    ('A' <= c && c <= 'Z') || ('a' <= c && c <= 'z')
}

/// Whether a character is an ASCII letter or digit (`[[:alnum:]]`).
pub open spec fn is_ascii_alnum(c: char) -> bool {
    is_ascii_alpha(c) || ('0' <= c && c <= '9')
}

/// Whether a character is a printable ASCII character or a space
/// (`[[:graph:] ]`).
pub open spec fn is_printable(c: char) -> bool {
    ' ' <= c && c <= '~'
}

/// An identifier: a letter followed by letters and digits.
pub open spec fn is_id_text(s: Seq<char>) -> bool {
    &&& s.len() > 0
    &&& is_ascii_alpha(s[0])
    &&& forall|i: int| 1 <= i < s.len() ==> #[trigger] is_ascii_alnum(s[i])
}

/// A value: printable ASCII characters and spaces only.
pub open spec fn is_val_text(s: Seq<char>) -> bool {
    forall|i: int| 0 <= i < s.len() ==> #[trigger] is_printable(s[i])
}

/// The pattern that identifiers are checked against.
pub open spec fn id_pattern() -> Seq<char> {
    "^[[:alpha:]]+[[:alnum:]]*$"@
}

/// The pattern that values are checked against.
pub open spec fn val_pattern() -> Seq<char> {
    "^[[:graph:] ]*$"@
}

/// The pattern that finds double quotes.
pub open spec fn quote_pattern() -> Seq<char> {
    "\""@
}

/// The entity that stands for a double quote.
pub open spec fn quot_entity() -> Seq<char> {
    seq!['&', 'q', 'u', 'o', 't', ';']
}

/// The text with every double quote replaced by `&quot;`.
pub open spec fn escape_quotes(s: Seq<char>) -> Seq<char>
    decreases s.len(),
{
    if s.len() == 0 {
        Seq::empty()
    } else {
        escape_quotes(s.drop_last()) + if s.last() == '"' {
            quot_entity()
        } else {
            seq![s.last()]
        }
    }
}

/// `regex::Regex::new(pattern)` followed by `Regex::is_match(haystack)`.
/// The pattern is one of the two anchored patterns of this module, which
/// compile.  By the regex crate's documentation `[[:alpha:]]` is
/// `[A-Za-z]`, `[[:alnum:]]` is `[0-9A-Za-z]`, `[[:graph:]]` is `[!-~]`,
/// and without multi-line mode `^` and `$` match only at the beginning
/// and the end of the haystack; the clauses state the resulting language.
#[verifier::external_body]
fn regex_is_match(pattern: &str, haystack: &str) -> (res: bool)
    requires
        pattern@ == id_pattern() || pattern@ == val_pattern(),
    ensures
        pattern@ == id_pattern() ==> (res <==> is_id_text(haystack@)),
        pattern@ == val_pattern() ==> (res <==> is_val_text(haystack@)),
{
    regex::Regex::new(pattern).unwrap().is_match(haystack)
}

/// `regex::Regex::new(pattern)` followed by `Regex::replace_all`, owned.
/// With the one-character pattern `"` and the replacement `&quot;`, which
/// holds no `$` to expand, every double quote of the haystack is replaced.
#[verifier::external_body]
fn regex_replace_all(pattern: &str, haystack: &str, replacement: &str) -> (res: String)
    requires
        pattern@ == quote_pattern(),
        replacement@ == quot_entity(),
    ensures
        res@ == escape_quotes(haystack@),
{
    regex::Regex::new(pattern).unwrap().replace_all(haystack, replacement).into_owned()
}

/// Whether `id_str` may be used as a tag or attribute name.
pub fn valid_html_id(id_str: &str) -> (res: bool)
    ensures
        res == is_id_text(id_str@),
{
    regex_is_match("^[[:alpha:]]+[[:alnum:]]*$", id_str)
}

/// Whether `value_str` may be used as an attribute value.
pub fn valid_html_val(value_str: &str) -> (res: bool)
    ensures
        res == is_val_text(value_str@),
{
    regex_is_match("^[[:graph:] ]*$", value_str)
}

/// Text taken into a page as it is.
pub fn html_text(text: String) -> (res: String)
    ensures
        res == text,
{
    text
}

/// A static text taken into a page.
pub fn html_static(text: &'static str) -> (res: String)
    ensures
        res@ == text@,
{
    html_text(text.to_owned())
}

/// An identifier, checked and lower-cased.
pub fn html_id(id_str: &str) -> (res: String)
    requires
        is_id_text(id_str@),
    ensures
        res@ == lower_chars(id_str@),
{
    let ok = valid_html_id(id_str);
    assert(ok);
    ascii_lowercase(id_str)
}

/// An attribute name.
pub fn html_attr(attr_str: &str) -> (res: String)
    requires
        is_id_text(attr_str@),
    ensures
        res@ == lower_chars(attr_str@),
{
    html_id(attr_str)
}

/// A tag name.
pub fn html_tag(tag_str: &'static str) -> (res: String)
    requires
        is_id_text(tag_str@),
    ensures
        res@ == lower_chars(tag_str@),
{
    html_id(tag_str)
}

/// An attribute value, checked, with its double quotes escaped.
pub fn html_val(value_str: &str) -> (res: String)
    requires
        is_val_text(value_str@),
    ensures
        res@ == escape_quotes(value_str@),
{
    let ok = valid_html_val(value_str);
    assert(ok);
    proof {
        reveal_strlit("&quot;");
        assert("&quot;"@ =~= quot_entity());
    }
    regex_replace_all("\"", value_str, "&quot;")
}


/// The views of a list of strings.
pub open spec fn views(v: Seq<String>) -> Seq<Seq<char>> {
    v.map_values(|s: String| s@)
}

/// The texts one after the other.
pub open spec fn concat_all(parts: Seq<Seq<char>>) -> Seq<char>
    decreases parts.len(),
{
    if parts.len() == 0 {
        Seq::empty()
    } else {
        concat_all(parts.drop_last()) + parts.last()
    }
}

/// Attribute names at even places and values at odd places, in pairs.
pub open spec fn valid_attrs(a: Seq<Seq<char>>) -> bool {
    &&& a.len() % 2 == 0
    &&& forall|i: int| 0 <= i < a.len() && i % 2 == 0 ==> #[trigger] is_id_text(a[i])
    &&& forall|i: int| 0 <= i < a.len() && i % 2 == 1 ==> #[trigger] is_val_text(a[i])
}

/// The attribute text of name/value pairs: ` name="value"` for each pair,
/// the name lower-cased and the double quotes of the value escaped.
pub open spec fn attrs_text(a: Seq<Seq<char>>) -> Seq<char>
    decreases a.len(),
{
    if a.len() < 2 {
        Seq::empty()
    } else {
        attrs_text(a.take(a.len() - 2)) + seq![' '] + lower_chars(a[a.len() - 2]) + seq!['=', '"']
            + escape_quotes(a[a.len() - 1]) + seq!['"']
    }
}

/// An element: `<tag attrs>`, a line break, the body, a line break,
/// `</tag>` and a line break.
pub open spec fn element(tag: Seq<char>, attrs: Seq<char>, body: Seq<char>) -> Seq<char> {
    seq!['<'] + tag + attrs + seq!['>', '\n'] + body + seq!['\n', '<', '/'] + tag + seq!['>', '\n']
}

/// The attribute text of a list of name/value pairs.
pub fn html_attrs(attrs: StrVec) -> (res: String)
    requires
        valid_attrs(views(attrs@)),
    ensures
        res@ == attrs_text(views(attrs@)),
{
    let ghost a = views(attrs@);
    let n = attrs.len();
    let mut buf = String::new();
    let mut i: usize = 0;
    proof {
        assert(a.take(0) =~= Seq::<Seq<char>>::empty());
    }
    while i < n
        invariant
            n == attrs@.len(),
            a == views(attrs@),
            a.len() == n,
            valid_attrs(a),
            i % 2 == 0,
            i <= n,
            buf@ == attrs_text(a.take(i as int)),
        decreases n - i,
    {
        assert(i + 1 < n);
        assert(a[i as int] == attrs[i as int]@);
        assert(a[i + 1] == attrs[i + 1]@);
        assert(is_id_text(a[i as int]));
        assert(is_val_text(a[i + 1]));
        let name = html_attr(attrs[i].as_str());
        let value = html_val(attrs[i + 1].as_str());
        buf.append(" ");
        buf.append(name.as_str());
        buf.append("=\"");
        buf.append(value.as_str());
        buf.append("\"");
        let ghost t = a.take(i + 2);
        assert(t.take(t.len() - 2) =~= a.take(i as int));
        assert(t[t.len() - 2] == a[i as int]);
        assert(t[t.len() - 1] == a[i + 1]);
        proof {
            reveal_strlit(" ");
            reveal_strlit("=\"");
            reveal_strlit("\"");
        }
        assert(" "@ =~= seq![' ']);
        assert("=\""@ =~= seq!['=', '"']);
        assert("\""@ =~= seq!['"']);
        i = i + 2;
    }
    assert(a.take(n as int) =~= a);
    buf
}

/// The strings one after the other.
pub fn concat_strings(parts: &Vec<String>) -> (res: String)
    ensures
        res@ == concat_all(views(parts@)),
{
    let n = parts.len();
    let mut buf = String::new();
    let ghost a = views(parts@);
    for i in 0..n
        invariant
            n == parts@.len(),
            a == views(parts@),
            buf@ == concat_all(a.take(i as int)),
    {
        buf.append(parts[i].as_str());
        assert(a.take(i + 1).drop_last() =~= a.take(i as int));
    }
    assert(a.take(n as int) =~= a);
    buf
}

/// An element with attributes and a list of contents.
pub fn html_tag_attrs_contents(tag: &'static str, attrs: StrVec, contents: StrVec) -> (res: String)
    requires
        is_id_text(tag@),
        valid_attrs(views(attrs@)),
    ensures
        res@ == element(lower_chars(tag@), attrs_text(views(attrs@)), concat_all(views(contents@))),
{
    let t = html_tag(tag);
    let a = html_attrs(attrs);
    let c = concat_strings(&contents);
    let mut buf = String::new();
    buf.append("<");
    buf.append(t.as_str());
    buf.append(a.as_str());
    buf.append(">\n");
    buf.append(c.as_str());
    buf.append("\n</");
    buf.append(t.as_str());
    buf.append(">\n");
    proof {
        reveal_strlit("<");
        reveal_strlit(">\n");
        reveal_strlit("\n</");
        assert("<"@ =~= seq!['<']);
        assert(">\n"@ =~= seq!['>', '\n']);
        assert("\n</"@ =~= seq!['\n', '<', '/']);
        assert(buf@ =~= element(t@, a@, c@));
    }
    buf
}

/// An element without attributes.
pub fn html_tag_contents(tag: &'static str, contents: StrVec) -> (res: String)
    requires
        is_id_text(tag@),
    ensures
        res@ == element(lower_chars(tag@), Seq::empty(), concat_all(views(contents@))),
{
    let attrs: StrVec = Vec::with_capacity(0);
    proof {
        assert(views(attrs@) =~= Seq::<Seq<char>>::empty());
        assert(attrs_text(views(attrs@)) =~= Seq::<char>::empty());
    }
    html_tag_attrs_contents(tag, attrs, contents)
}

/// An element without attributes around one content.
pub fn html_tag_content(tag: &'static str, contents: String) -> (res: String)
    requires
        is_id_text(tag@),
    ensures
        res@ == element(lower_chars(tag@), Seq::empty(), contents@),
{
    let ghost c = contents@;
    let v: StrVec = vec![contents];
    proof {
        assert(views(v@) =~= seq![c]);
        assert(views(v@).drop_last() =~= Seq::<Seq<char>>::empty());
        assert(concat_all(views(v@).drop_last()) =~= Seq::<char>::empty());
        assert(concat_all(views(v@)) =~= c);
    }
    html_tag_contents(tag, v)
}


/// The name `html`.
pub open spec fn html_name() -> Seq<char> {
    seq!['h', 't', 'm', 'l']
}

/// The name `head`.
pub open spec fn head_name() -> Seq<char> {
    seq!['h', 'e', 'a', 'd']
}

/// The name `title`.
pub open spec fn title_name() -> Seq<char> {
    seq!['t', 'i', 't', 'l', 'e']
}

/// The name `body`.
pub open spec fn body_name() -> Seq<char> {
    seq!['b', 'o', 'd', 'y']
}

/// The name `h1`.
pub open spec fn h1_name() -> Seq<char> {
    seq!['h', '1']
}

/// An element around the text when there is one, nothing otherwise.
pub open spec fn opt_element(tag: Seq<char>, text: Option<Seq<char>>) -> Seq<char> {
    match text {
        Some(t) => element(tag, Seq::empty(), t),
        None => Seq::empty(),
    }
}

/// The view of an optional string slice.
pub open spec fn opt_view(o: Option<&str>) -> Option<Seq<char>> {
    match o {
        Some(s) => Some(s@),
        None => None,
    }
}

/// A whole page: a head holding the optional title, and a body holding
/// the optional first-level heading followed by the contents.
pub open spec fn page(title: Option<Seq<char>>, h1: Option<Seq<char>>, contents: Seq<char>) -> Seq<char> {
    element(
        html_name(),
        Seq::empty(),
        element(head_name(), Seq::empty(), opt_element(title_name(), title)) + element(
            body_name(),
            Seq::empty(),
            opt_element(h1_name(), h1) + contents,
        ),
    )
}

/// The tag names used by pages are identifiers, already lower-case.
proof fn lemma_page_names()
    ensures
        is_id_text("html"@),
        lower_chars("html"@) == html_name(),
        is_id_text("head"@),
        lower_chars("head"@) == head_name(),
        is_id_text("title"@),
        lower_chars("title"@) == title_name(),
        is_id_text("body"@),
        lower_chars("body"@) == body_name(),
        is_id_text("h1"@),
        lower_chars("h1"@) == h1_name(),
{
    reveal_strlit("html");
    reveal_strlit("head");
    reveal_strlit("title");
    reveal_strlit("body");
    reveal_strlit("h1");
    assert(lower_chars("html"@) =~= html_name());
    assert(lower_chars("head"@) =~= head_name());
    assert(lower_chars("title"@) =~= title_name());
    assert(lower_chars("body"@) =~= body_name());
    assert(lower_chars("h1"@) =~= h1_name());
}

fn optional_element(tag: &'static str, text: Option<&str>) -> (res: String)
    requires
        is_id_text(tag@),
    ensures
        res@ == opt_element(lower_chars(tag@), opt_view(text)),
{
    match text {
        None => String::new(),
        Some(s) => html_tag_content(tag, s.to_owned()),
    }
}

/// A page with an optional title, an optional first-level heading and
/// a list of contents.
pub fn html_title_h1_contents(title: Option<&str>, h1: Option<&str>, contents: StrVec) -> (res: String)
    ensures
        res@ == page(opt_view(title), opt_view(h1), concat_all(views(contents@))),
{
    proof {
        lemma_page_names();
    }
    let head = html_tag_content("head", optional_element("title", title));
    let mut body_text = optional_element("h1", h1);
    let rest = concat_strings(&contents);
    body_text.append(rest.as_str());
    let body = html_tag_content("body", body_text);
    let ghost hv = head@;
    let ghost bv = body@;
    let parts: StrVec = vec![head, body];
    proof {
        assert(views(parts@) =~= seq![hv, bv]);
        assert(views(parts@).drop_last() =~= seq![hv]);
        assert(seq![hv].drop_last() =~= Seq::<Seq<char>>::empty());
        assert(concat_all(Seq::<Seq<char>>::empty()) =~= Seq::<char>::empty());
        assert(concat_all(seq![hv]) =~= hv);
        assert(concat_all(views(parts@)) =~= hv + bv);
    }
    html_tag_contents("html", parts)
}

/// A page whose title and first-level heading are the same text, with
/// one content.
pub fn html_title_contents(title_h1: &'static str, contents: String) -> (res: String)
    ensures
        res@ == page(Some(title_h1@), Some(title_h1@), contents@),
{
    let title_h1_str = html_static(title_h1);
    let ghost c = contents@;
    let v: StrVec = vec![contents];
    proof {
        assert(views(v@) =~= seq![c]);
        assert(views(v@).drop_last() =~= Seq::<Seq<char>>::empty());
        assert(concat_all(views(v@).drop_last()) =~= Seq::<char>::empty());
        assert(concat_all(views(v@)) =~= c);
    }
    html_title_h1_contents(Some(title_h1_str.as_str()), Some(title_h1_str.as_str()), v)
}


/// `core::fmt::Arguments`, the pre-compiled arguments that `format_args!`
/// produces; opaque here.
#[verifier::external_type_specification]
#[verifier::external_body]
pub struct ExArguments<'a>(core::fmt::Arguments<'a>);

/// `core::fmt::write` from std into a new `String`: the text that the
/// arguments write, or `Err` when one of their formatting impls reports
/// an error.  Nothing is stated of the text or of when an error comes: both
/// depend on the formatting impls that the arguments carry, which are not
/// visible here.
#[verifier::external_body]
fn format_arguments(args: core::fmt::Arguments) -> Result<String, ()> {
    let mut s = String::new();
    match core::fmt::write(&mut s, args) {
        Ok(()) => Ok(s),
        Err(_) => Err(()),
    }
}

/// The text written by formatting arguments, taken into a page as it is;
/// `Err` when formatting fails.
pub fn html_format(text: core::fmt::Arguments) -> Result<String, ()> {
    match format_arguments(text) {
        Ok(s) => Ok(html_text(s)),
        Err(()) => Err(()),
    }
}


/// The names of the definition-list elements are identifiers, already
/// lower-case.
pub proof fn lemma_is_id_literals()
    ensures
        is_id_text("dl"@),
        lower_chars("dl"@) == seq!['d', 'l'],
        is_id_text("dt"@),
        lower_chars("dt"@) == seq!['d', 't'],
        is_id_text("dd"@),
        lower_chars("dd"@) == seq!['d', 'd'],
{
    reveal_strlit("dl");
    reveal_strlit("dt");
    reveal_strlit("dd");
    assert(lower_chars("dl"@) =~= seq!['d', 'l']);
    assert(lower_chars("dt"@) =~= seq!['d', 't']);
    assert(lower_chars("dd"@) =~= seq!['d', 'd']);
}


/// An escaped value holds no double quote, so it cannot end the quoted
/// attribute it is written in.
pub proof fn law_escaped_has_no_quote(s: Seq<char>)
    ensures
        forall|i: int| 0 <= i < escape_quotes(s).len() ==> escape_quotes(s)[i] != '"',
    decreases s.len(),
{
    if s.len() > 0 {
        law_escaped_has_no_quote(s.drop_last());
        let prev = escape_quotes(s.drop_last());
        let tail = if s.last() == '"' {
            quot_entity()
        } else {
            seq![s.last()]
        };
        assert(escape_quotes(s) == prev + tail);
        assert forall|i: int| 0 <= i < escape_quotes(s).len() implies escape_quotes(s)[i] != '"' by {
            if i < prev.len() {
                assert(escape_quotes(s)[i] == prev[i]);
            } else {
                assert(escape_quotes(s)[i] == tail[i - prev.len()]);
            }
        }
    }
}

/// A value without double quotes is taken as it is.
pub proof fn law_escape_keeps_quote_free(s: Seq<char>)
    requires
        forall|i: int| 0 <= i < s.len() ==> s[i] != '"',
    ensures
        escape_quotes(s) == s,
    decreases s.len(),
{
    if s.len() > 0 {
        law_escape_keeps_quote_free(s.drop_last());
        assert(s.drop_last().push(s.last()) =~= s);
    }
}

/// A lower-cased identifier is still an identifier.
pub proof fn law_lower_keeps_id(s: Seq<char>)
    requires
        is_id_text(s),
    ensures
        is_id_text(lower_chars(s)),
{
    let l = lower_chars(s);
    assert forall|i: int| 1 <= i < l.len() implies #[trigger] is_ascii_alnum(l[i]) by {
        assert(is_ascii_alnum(s[i]));
    }
}


/// A page, laid out in full: the title inside a head, then a body with
/// the heading followed by the contents, each as given.
pub proof fn law_page_layout(title: Seq<char>, h1: Seq<char>, contents: Seq<char>)
    ensures
        page(Some(title), Some(h1), contents) == "<html>\n<head>\n<title>\n"@ + title
            + "\n</title>\n\n</head>\n<body>\n<h1>\n"@ + h1 + "\n</h1>\n"@ + contents
            + "\n</body>\n\n</html>\n"@,
{
    reveal_strlit("<html>\n<head>\n<title>\n");
    reveal_strlit("\n</title>\n\n</head>\n<body>\n<h1>\n");
    reveal_strlit("\n</h1>\n");
    reveal_strlit("\n</body>\n\n</html>\n");
    assert(page(Some(title), Some(h1), contents) =~= "<html>\n<head>\n<title>\n"@ + title
        + "\n</title>\n\n</head>\n<body>\n<h1>\n"@ + h1 + "\n</h1>\n"@ + contents
        + "\n</body>\n\n</html>\n"@);
}

/// An element: `<`, the tag, the attribute text, `>` and a line break,
/// the body, a line break, `</`, the tag, `>` and a line break, each
/// piece as given.
pub proof fn law_element_layout(tag: Seq<char>, attrs: Seq<char>, body: Seq<char>)
    ensures
        element(tag, attrs, body) == "<"@ + tag + attrs + ">\n"@ + body + "\n</"@ + tag + ">\n"@,
{
    reveal_strlit("<");
    reveal_strlit(">\n");
    reveal_strlit("\n</");
    assert(element(tag, attrs, body) =~= "<"@ + tag + attrs + ">\n"@ + body + "\n</"@ + tag + ">\n"@);
}

/// The texts one after the other: none gives nothing, and each further
/// text is appended as given.
pub proof fn law_concat_step(parts: Seq<Seq<char>>, p: Seq<char>)
    ensures
        concat_all(Seq::<Seq<char>>::empty()) == Seq::<char>::empty(),
        concat_all(parts.push(p)) == concat_all(parts) + p,
{
    assert(parts.push(p).drop_last() =~= parts);
}

/// Escaping: a double quote becomes `&quot;`, any other character is
/// kept, in order.
pub proof fn law_escape_step(s: Seq<char>, c: char)
    ensures
        escape_quotes(Seq::<char>::empty()) == Seq::<char>::empty(),
        escape_quotes(s.push(c)) == escape_quotes(s) + if c == '"' {
            "&quot;"@
        } else {
            seq![c]
        },
{
    reveal_strlit("&quot;");
    assert("&quot;"@ =~= quot_entity());
    assert(s.push(c).drop_last() =~= s);
}

/// Attribute text grows by one ` name="value"` per pair: the name
/// lower-cased, the value with its double quotes escaped and nothing else
/// changed.
pub proof fn law_attrs_pair(a: Seq<Seq<char>>, name: Seq<char>, value: Seq<char>)
    ensures
        attrs_text(Seq::<Seq<char>>::empty()) == Seq::<char>::empty(),
        attrs_text(a.push(name).push(value)) == attrs_text(a) + " "@ + lower_chars(name) + "=\""@
            + escape_quotes(value) + "\""@,
{
    reveal_strlit(" ");
    reveal_strlit("=\"");
    reveal_strlit("\"");
    let b = a.push(name).push(value);
    assert(b.take(b.len() - 2) =~= a);
    assert(" "@ =~= seq![' ']);
    assert("=\""@ =~= seq!['=', '"']);
    assert("\""@ =~= seq!['"']);
}

/// A value without double quotes is written as it is: one pair gives
/// ` name="value"` with the value unchanged.
pub proof fn law_attr_value_verbatim(name: Seq<char>, value: Seq<char>)
    requires
        forall|i: int| 0 <= i < value.len() ==> value[i] != '"',
    ensures
        attrs_text(seq![name, value]) == " "@ + lower_chars(name) + "=\""@ + value + "\""@,
{
    law_attrs_pair(Seq::empty(), name, value);
    law_escape_keeps_quote_free(value);
    assert(Seq::<Seq<char>>::empty().push(name).push(value) =~= seq![name, value]);
}

} // verus!
