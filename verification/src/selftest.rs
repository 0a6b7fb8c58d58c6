//! Requests for trying the database service function by hand: request
//! texts built from byte pieces, the tests that can be asked for by name,
//! and the report lines printed for the rows that come back.

use vstd::prelude::*;
use crate::strings::{decimal_chars, push_decimal};
use crate::echo::str_equal;

verus! {

/// The bytes of an ASCII text.
pub open spec fn ascii_bytes(s: Seq<char>) -> Seq<u8> {
    s.map_values(|c: char| c as u8)
}

/// The contents of a list of byte slices.
pub open spec fn slice_views(s: Seq<&[u8]>) -> Seq<Seq<u8>> {
    s.map_values(|b: &[u8]| b@)
}

/// The total number of bytes in a list of byte sequences.
pub open spec fn total_len(s: Seq<Seq<u8>>) -> nat
    decreases s.len(),
{
    if s.len() == 0 {
        0
    } else {
        total_len(s.drop_last()) + s.last().len()
    }
}

/// The byte sequences one after the other.
pub open spec fn concat_bytes(s: Seq<Seq<u8>>) -> Seq<u8>
    decreases s.len(),
{
    if s.len() == 0 {
        Seq::empty()
    } else {
        concat_bytes(s.drop_last()) + s.last()
    }
}

/// The prefixes of a list have no more bytes than the whole list.
proof fn lemma_total_len_prefix(s: Seq<Seq<u8>>, k: int)
    requires
        0 <= k <= s.len(),
    ensures
        total_len(s.take(k)) <= total_len(s),
    decreases s.len() - k,
{
    if k == s.len() {
        assert(s.take(k) =~= s);
    } else {
        assert(s.take(k + 1).drop_last() =~= s.take(k));
        lemma_total_len_prefix(s, k + 1);
    }
}

/// The number of bytes in all the slices.
pub fn len_all(bytes: &[&[u8]]) -> (len: usize)
    requires
        total_len(slice_views(bytes@)) <= usize::MAX,
    ensures
        len == total_len(slice_views(bytes@)),
{
    let ghost v = slice_views(bytes@);
    let mut len: usize = 0;
    let n = bytes.len();
    for i in 0..n
        invariant
            n == bytes@.len(),
            v == slice_views(bytes@),
            total_len(v) <= usize::MAX,
            len == total_len(v.take(i as int)),
    {
        proof {
            assert(v.take(i + 1).drop_last() =~= v.take(i as int));
            lemma_total_len_prefix(v, i + 1);
        }
        len += bytes[i].len();
    }
    proof {
        assert(v.take(n as int) =~= v);
    }
    len
}

/// The slices concatenated into one buffer, sized beforehand.
pub fn cat2vec(byte_vecs: &[&[u8]]) -> (res: Vec<u8>)
    requires
        total_len(slice_views(byte_vecs@)) <= usize::MAX,
    ensures
        res@ == concat_bytes(slice_views(byte_vecs@)),
{
    let ghost v = slice_views(byte_vecs@);
    let mut vec: Vec<u8> = Vec::with_capacity(len_all(byte_vecs));
    let n = byte_vecs.len();
    for i in 0..n
        invariant
            n == byte_vecs@.len(),
            v == slice_views(byte_vecs@),
            vec@ == concat_bytes(v.take(i as int)),
    {
        let ghost before = vec@;
        vec.extend_from_slice(byte_vecs[i]);
        proof {
            assert(v.take(i + 1).drop_last() =~= v.take(i as int));
            assert(vec@ =~= before + v[i as int]);
        }
    }
    proof {
        assert(v.take(n as int) =~= v);
    }
    vec
}

/// Concatenating slices gives as many bytes as they hold together.
pub proof fn law_cat2vec_len(s: Seq<Seq<u8>>)
    ensures
        concat_bytes(s).len() == total_len(s),
    decreases s.len(),
{
    if s.len() > 0 {
        law_cat2vec_len(s.drop_last());
    }
}

/// The request line and host header of a `GET` for `path`, with the
/// `host` and `user` query parameters, sent to `server`.
pub open spec fn request_text(path: Seq<u8>, host: Seq<u8>, user: Seq<u8>, server: Seq<u8>) -> Seq<u8> {
    ascii_bytes("GET /"@) + path + ascii_bytes("?host="@) + host + ascii_bytes("&user="@) + user
        + ascii_bytes(" HTTP/1.1\r\nHost: "@) + server + ascii_bytes("\r\n"@)
}

/// The server that requests are addressed to.
pub open spec fn server_text() -> Seq<u8> {
    ascii_bytes("localhost:8080"@)
}

/// The user that requests are made for.
pub open spec fn username_text() -> Seq<u8> {
    ascii_bytes("greg"@)
}

/// The host that requests are made for.
pub open spec fn host_text() -> Seq<u8> {
    ascii_bytes("wicci.org"@)
}

/// A request for `path` on `host` by `user`, addressed to `server`.
pub fn path_host_user_server(path: &[u8], host: &[u8], user: &[u8], server: &[u8]) -> (res: Vec<u8>)
    requires
        path@.len() + host@.len() + user@.len() + server@.len() + 40 <= usize::MAX,
    ensures
        res@ == request_text(path@, host@, user@, server@),
{
    // "GET /", "?host=", "&user=", " HTTP/1.1\r\nHost: ", "\r\n"
    let get: &[u8] = &[71u8, 69, 84, 32, 47];
    let qhost: &[u8] = &[63u8, 104, 111, 115, 116, 61];
    let quser: &[u8] = &[38u8, 117, 115, 101, 114, 61];
    let proto: &[u8] = &[32u8, 72, 84, 84, 80, 47, 49, 46, 49, 13, 10, 72, 111, 115, 116, 58, 32];
    let nl: &[u8] = &[13u8, 10];
    let parts: [&[u8]; 9] = [get, path, qhost, host, quser, user, proto, server, nl];
    let ghost v = slice_views(parts@);
    proof {
        reveal_strlit("GET /");
        reveal_strlit("?host=");
        reveal_strlit("&user=");
        reveal_strlit(" HTTP/1.1\r\nHost: ");
        reveal_strlit("\r\n");
        assert(get@ =~= ascii_bytes("GET /"@));
        assert(qhost@ =~= ascii_bytes("?host="@));
        assert(quser@ =~= ascii_bytes("&user="@));
        assert(proto@ =~= ascii_bytes(" HTTP/1.1\r\nHost: "@));
        assert(nl@ =~= ascii_bytes("\r\n"@));
        assert(v =~= seq![get@, path@, qhost@, host@, quser@, user@, proto@, server@, nl@]);
        reveal_with_fuel(total_len, 10);
        reveal_with_fuel(concat_bytes, 10);
        assert(concat_bytes(v) =~= request_text(path@, host@, user@, server@));
    }
    cat2vec(&parts)
}

/// A request for `path` on `host` by `username@host`, addressed to the
/// local server.
pub fn path_username_host(path: &[u8], username: &[u8], host: &[u8]) -> (res: Vec<u8>)
    requires
        path@.len() + 2 * host@.len() + username@.len() + 100 <= usize::MAX,
    ensures
        res@ == request_text(path@, host@, username@ + seq![64u8] + host@, server_text()),
{
    let at: &[u8] = &[64u8];
    let parts: [&[u8]; 3] = [username, at, host];
    let ghost v = slice_views(parts@);
    proof {
        assert(v =~= seq![username@, at@, host@]);
        reveal_with_fuel(total_len, 4);
        reveal_with_fuel(concat_bytes, 4);
        assert(concat_bytes(v) =~= username@ + seq![64u8] + host@);
    }
    let user = cat2vec(&parts);
    // "localhost:8080"
    let server: &[u8] = &[108u8, 111, 99, 97, 108, 104, 111, 115, 116, 58, 56, 48, 56, 48];
    proof {
        reveal_strlit("localhost:8080");
        assert(server@ =~= server_text());
    }
    path_host_user_server(path, host, user.as_slice(), server)
}

/// A request for `path` by the user `greg` on `wicci.org`.
pub fn path_req(path: &[u8]) -> (res: Vec<u8>)
    requires
        path@.len() + 200 <= usize::MAX,
    ensures
        res@ == request_text(path@, host_text(), username_text() + seq![64u8] + host_text(), server_text()),
{
    // "greg", "wicci.org"
    let username: &[u8] = &[103u8, 114, 101, 103];
    let host: &[u8] = &[119u8, 105, 99, 99, 105, 46, 111, 114, 103];
    proof {
        reveal_strlit("greg");
        reveal_strlit("wicci.org");
        assert(username@ =~= username_text());
        assert(host@ =~= host_text());
    }
    path_username_host(path, username, host)
}

/// The path of each test that can be asked for by name.
pub open spec fn test_path(test_name: Seq<char>) -> Option<Seq<u8>> {
    if test_name == "simple"@ {
        Some(ascii_bytes("simple"@))
    } else if test_name == "fancy"@ {
        Some(ascii_bytes("fancy"@))
    } else if test_name == "jpg"@ {
        Some(ascii_bytes("Entity-Icon/deadbeef.jpg"@))
    } else {
        None
    }
}

/// The request of the test with this name, `None` when there is no such
/// test.
pub fn test_request(test_name: &str) -> (res: Option<Vec<u8>>)
    ensures
        match test_path(test_name@) {
            Some(p) => res matches Some(r) && r@ == request_text(
                p,
                host_text(),
                username_text() + seq![64u8] + host_text(),
                server_text(),
            ),
            None => res is None,
        },
{
    proof {
        reveal_strlit("simple");
        reveal_strlit("fancy");
        reveal_strlit("Entity-Icon/deadbeef.jpg");
    }
    if str_equal(test_name, "simple") {
        let p: &[u8] = &[115u8, 105, 109, 112, 108, 101];
        assert(p@ =~= ascii_bytes("simple"@));
        Some(path_req(p))
    } else if str_equal(test_name, "fancy") {
        let p: &[u8] = &[102u8, 97, 110, 99, 121];
        assert(p@ =~= ascii_bytes("fancy"@));
        Some(path_req(p))
    } else if str_equal(test_name, "jpg") {
        let p: &[u8] = &[69u8, 110, 116, 105, 116, 121, 45, 73, 99, 111, 110, 47, 100, 101, 97, 100, 98, 101, 101, 102, 46, 106, 112, 103];
        assert(p@ =~= ascii_bytes("Entity-Icon/deadbeef.jpg"@));
        Some(path_req(p))
    } else {
        None
    }
}

/// The report of one returned row: the header name; ` [n]` when the
/// binary value has `n > 0` bytes; then for `_body` a colon, a line break
/// and the text, for another header with a text `: ` and the text; and a
/// final line break.
pub open spec fn row_report_text(hdr: Seq<char>, text: Seq<char>, bin_len: nat) -> Seq<char> {
    hdr + (if bin_len != 0 {
        " ["@ + decimal_chars(bin_len) + "]"@
    } else {
        Seq::empty()
    }) + (if hdr == "_body"@ {
        ":\n"@ + text
    } else if text.len() != 0 {
        ": "@ + text
    } else {
        Seq::empty()
    }) + "\n"@
}

/// The report of one row returned by a test.
pub fn row_report(hdr: &str, text: &str, bin_len: usize) -> (res: String)
    ensures
        res@ == row_report_text(hdr@, text@, bin_len as nat),
{
    let mut s = hdr.to_owned();
    if bin_len != 0 {
        s.append(" [");
        push_decimal(&mut s, bin_len);
        s.append("]");
    }
    if str_equal(hdr, "_body") {
        s.append(":\n");
        s.append(text);
    } else if !text.is_empty() {
        s.append(": ");
        s.append(text);
    }
    s.append("\n");
    s
}


/// A test request starts `GET /` and then holds the path as given; the
/// host follows `?host=` as given.
pub proof fn law_request_text_layout(path: Seq<u8>, host: Seq<u8>, user: Seq<u8>, server: Seq<u8>)
    ensures
        ({
            let t = request_text(path, host, user, server);
            let p = path.len() as int;
            let h = host.len() as int;
            let u = user.len() as int;
            let n = t.len() as int;
            &&& t.subrange(0, 5) == seq![71u8, 69u8, 84u8, 32u8, 47u8]
            &&& t.subrange(5, 5 + p) == path
            &&& t.subrange(5 + p, 11 + p) == seq![63u8, 104u8, 111u8, 115u8, 116u8, 61u8]
            &&& t.subrange(11 + p, 11 + p + h) == host
            &&& t.subrange(17 + p + h, 17 + p + h + u) == user
            &&& t.subrange(n - 2 - server.len(), n - 2) == server
            &&& t.subrange(t.len() - 2, t.len() as int) == seq![13u8, 10u8]
        }),
{
    reveal_strlit("GET /");
    reveal_strlit("?host=");
    reveal_strlit("&user=");
    reveal_strlit(" HTTP/1.1\r\nHost: ");
    reveal_strlit("\r\n");
    let t = request_text(path, host, user, server);
    let p = path.len() as int;
    let h = host.len() as int;
    let u = user.len() as int;
    assert(t.subrange(0, 5) =~= seq![71u8, 69u8, 84u8, 32u8, 47u8]);
    assert(t.subrange(5, 5 + p) =~= path);
    assert(t.subrange(5 + p, 11 + p) =~= seq![63u8, 104u8, 111u8, 115u8, 116u8, 61u8]);
    assert(t.subrange(11 + p, 11 + p + h) =~= host);
    assert(t.subrange(17 + p + h, 17 + p + h + u) =~= user);
    assert(t.subrange(t.len() - 2 - server.len(), t.len() - 2) =~= server);
    assert(t.subrange(t.len() - 2, t.len() as int) =~= seq![13u8, 10u8]);
}

/// A row report starts with the header name as given and ends with a
/// line break; for `_body` it ends with `:`, a line break, the text as
/// given and a line break.
pub proof fn law_row_report_layout(hdr: Seq<char>, text: Seq<char>, bin_len: nat)
    ensures
        ({
            let r = row_report_text(hdr, text, bin_len);
            let n = r.len() as int;
            &&& r.subrange(0, hdr.len() as int) == hdr
            &&& r[n - 1] == '\n'
            &&& hdr == "_body"@ ==> r.subrange(n - 3 - text.len(), n) == seq![':', '\n'] + text + seq!['\n']
        }),
{
    reveal_strlit(" [");
    reveal_strlit("]");
    reveal_strlit(":\n");
    reveal_strlit(": ");
    reveal_strlit("\n");
    let r = row_report_text(hdr, text, bin_len);
    assert(r.subrange(0, hdr.len() as int) =~= hdr);
    if hdr == "_body"@ {
        assert(r.subrange(r.len() - 3 - text.len(), r.len() as int) =~= seq![':', '\n'] + text + seq!['\n']);
    }
}

} // verus!
