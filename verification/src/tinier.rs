//! HTTP requests as plain values, and their re-encoding as a byte buffer
//! for the database.  Every encoder appends to an optional buffer and
//! returns a length: without a buffer it only counts, with one it writes.

use vstd::prelude::*;

verus! {

/// A request header: field name and value, as bytes.
pub struct Header {
    pub field: Vec<u8>,
    pub value: Vec<u8>,
}

/// An HTTP version: major and minor number.
pub struct HttpVersion(pub u8, pub u8);

/// What the shim reads of an incoming request.  `body_length` is the
/// length that the request announced, `body` what was read of its body.
pub struct Request {
    pub method: Vec<u8>,
    pub url: Vec<u8>,
    pub http_version: HttpVersion,
    pub headers: Vec<Header>,
    pub body_length: Option<usize>,
    pub body: Vec<u8>,
}

/// The bytes `: `.
pub open spec fn colon_space() -> Seq<u8> {
    seq![58u8, 32u8]
}

/// The bytes `\r\n`.
pub open spec fn crlf() -> Seq<u8> {
    seq![13u8, 10u8]
}

/// The byte ` `.
pub open spec fn space() -> Seq<u8> {
    seq![32u8]
}

/// The current contents of an optional buffer.
pub open spec fn buf_now(b: Option<&mut Vec<u8>>) -> Option<Seq<u8>> {
    match b {
        Some(r) => Some((*r)@),
        None => None,
    }
}

/// The optional buffer after `bytes` are appended to it.
pub open spec fn buf_after(b: Option<Seq<u8>>, bytes: Seq<u8>) -> Option<Seq<u8>> {
    match b {
        Some(s) => Some(s + bytes),
        None => None,
    }
}

/// A header as it is encoded: `field: value\r\n`.
pub open spec fn header_bytes(h: Header) -> Seq<u8> {
    h.field@ + colon_space() + h.value@ + crlf()
}

/// The headers encoded one after the other.
pub open spec fn headers_bytes(hs: Seq<Header>) -> Seq<u8>
    decreases hs.len(),
{
    if hs.len() == 0 {
        Seq::empty()
    } else {
        headers_bytes(hs.drop_last()) + header_bytes(hs.last())
    }
}

/// The length that the header encoder returns.  The encoder folds over
/// the headers without adding up: what it returns is the length of the
/// last header only (zero when there are none).
pub open spec fn headers_count(hs: Seq<Header>) -> nat {
    if hs.len() == 0 {
        0
    } else {
        header_bytes(hs.last()).len()
    }
}

/// An HTTP version as it is encoded: `M.m ` with one digit each.
pub open spec fn version_bytes(v: HttpVersion) -> Seq<u8> {
    seq![(48 + v.0) as u8, 46u8, (48 + v.1) as u8, 32u8]
}

/// The encoding of a request up to its body:
/// `method url M.m headers\r\n`.
pub open spec fn request_head_bytes(r: Request) -> Seq<u8> {
    r.method@ + space() + r.url@ + space() + version_bytes(r.http_version) + headers_bytes(
        r.headers@,
    ) + crlf()
}

/// The whole encoding of a request: the head, then the body.
pub open spec fn request_bytes(r: Request) -> Seq<u8> {
    request_head_bytes(r) + r.body@
}

/// The length that the encoder returns for the head of a request.
pub open spec fn request_head_count(r: Request) -> nat {
    (r.method@.len() + 1) + (r.url@.len() + 1) + 4 + headers_count(r.headers@) + 2
}

/// The length that the encoder returns for the body: when counting, the
/// announced length (zero when none was announced); when writing, the
/// number of bytes of the body.
pub open spec fn body_count(r: Request, writing: bool) -> nat {
    if writing {
        r.body@.len()
    } else {
        match r.body_length {
            Some(n) => n as nat,
            None => 0,
        }
    }
}

/// The length that the request encoder returns.
pub open spec fn request_count(r: Request, writing: bool) -> nat {
    request_head_count(r) + body_count(r, writing)
}

/// One-digit version numbers, as the version encoder writes them.
pub open spec fn version_digits(r: Request) -> bool {
    r.http_version.0 < 10 && r.http_version.1 < 10
}

/// The pieces of the head of a request are short enough for a `usize`
/// to add up their lengths.
pub open spec fn head_fits(r: Request) -> bool {
    r.method@.len() + r.url@.len() + headers_bytes(r.headers@).len() + 8 <= usize::MAX
}

/// A request that the encoder writes: one-digit version numbers, and
/// lengths that a `usize` can add up.
pub open spec fn encodable(r: Request) -> bool {
    &&& version_digits(r)
    &&& head_fits(r)
    &&& request_count(r, true) <= usize::MAX
}

/// The announced body length is the length of the body that was read.
pub open spec fn body_consistent(r: Request) -> bool {
    r.body@.len() == match r.body_length {
        Some(n) => n as nat,
        None => 0nat,
    }
}

/// Appends bytes to the buffer, if there is one, and returns their number.
pub fn append_bytes(maybe_buf: &mut Option<&mut Vec<u8>>, bytes: &[u8]) -> (n: usize)
    ensures
        n == bytes@.len(),
        buf_now(*final(maybe_buf)) == buf_after(buf_now(*old(maybe_buf)), bytes@),
        match (*old(maybe_buf), *final(maybe_buf)) {
            (Some(r0), Some(r1)) => *final(r1) == *final(r0),
            (None, None) => true,
            _ => false,
        },
{
    match maybe_buf {
        None => {},
        Some(buf) => {
            buf.extend_from_slice(bytes);
        },
    }
    bytes.len()
}

/// Appends bytes and then a delimiter, and returns their number.
pub fn append_bytes_delim(maybe_buf: &mut Option<&mut Vec<u8>>, bytes: &[u8], delim: &[u8]) -> (n: usize)
    requires
        bytes@.len() + delim@.len() <= usize::MAX,
    ensures
        n == bytes@.len() + delim@.len(),
        buf_now(*final(maybe_buf)) == buf_after(buf_now(*old(maybe_buf)), bytes@ + delim@),
        match (*old(maybe_buf), *final(maybe_buf)) {
            (Some(r0), Some(r1)) => *final(r1) == *final(r0),
            (None, None) => true,
            _ => false,
        },
{
    let a = append_bytes(maybe_buf, bytes);
    let b = append_bytes(maybe_buf, delim);
    proof {
        match *old(maybe_buf) {
            Some(r0) => {
                assert((*r0)@ + bytes@ + delim@ =~= (*r0)@ + (bytes@ + delim@));
            },
            None => {},
        }
    }
    a + b
}


/// Each header is as long as its encoding, and a prefix of the headers
/// encodes to no more bytes than all of them.
proof fn lemma_headers_prefix(hs: Seq<Header>, k: int)
    requires
        0 <= k <= hs.len(),
    ensures
        headers_bytes(hs.take(k)).len() <= headers_bytes(hs).len(),
        k < hs.len() ==> headers_bytes(hs.take(k + 1)) == headers_bytes(hs.take(k)) + header_bytes(hs[k]),
        hs.len() > 0 ==> header_bytes(hs.last()).len() <= headers_bytes(hs).len(),
    decreases hs.len(),
{
    if k < hs.len() {
        assert(hs.take(k + 1).drop_last() =~= hs.take(k));
    }
    if k == hs.len() {
        assert(hs.take(k) =~= hs);
    } else {
        lemma_headers_prefix(hs.drop_last(), k);
        assert(hs.drop_last().take(k) =~= hs.take(k));
    }
}

/// Appends the encoding of each header to the buffer, if there is one.
/// Returns the length of the last header's encoding only (zero when
/// there are none), since the fold that adds them keeps no running sum.
pub fn append_headers(maybe_buf: &mut Option<&mut Vec<u8>>, hdrs: &[Header]) -> (n: usize)
    requires
        headers_bytes(hdrs@).len() <= usize::MAX,
    ensures
        n == headers_count(hdrs@),
        buf_now(*final(maybe_buf)) == buf_after(buf_now(*old(maybe_buf)), headers_bytes(hdrs@)),
        match (*old(maybe_buf), *final(maybe_buf)) {
            (Some(r0), Some(r1)) => *final(r1) == *final(r0),
            (None, None) => true,
            _ => false,
        },
{
    let cs: &[u8] = &[58u8, 32u8];
    let nl: &[u8] = &[13u8, 10u8];
    let n = hdrs.len();
    let mut last: usize = 0;
    proof {
        assert(hdrs@.take(0) =~= Seq::<Header>::empty());
        assert(buf_after(buf_now(*old(maybe_buf)), Seq::empty()) == buf_now(*old(maybe_buf))) by {
            match *old(maybe_buf) {
                Some(r0) => {
                    assert((*r0)@ + Seq::<u8>::empty() =~= (*r0)@);
                },
                None => {},
            }
        }
    }
    for i in 0..n
        invariant
            n == hdrs@.len(),
            cs@ == colon_space(),
            nl@ == crlf(),
            headers_bytes(hdrs@).len() <= usize::MAX,
            last == headers_count(hdrs@.take(i as int)),
            buf_now(*maybe_buf) == buf_after(buf_now(*old(maybe_buf)), headers_bytes(hdrs@.take(i as int))),
            match (*old(maybe_buf), *maybe_buf) {
                (Some(r0), Some(r1)) => *final(r1) == *final(r0),
                (None, None) => true,
                _ => false,
            },
    {
        let h = &hdrs[i];
        proof {
            lemma_headers_prefix(hdrs@, i as int);
            lemma_headers_prefix(hdrs@, i + 1);
            assert(hdrs@.take(i + 1).last() == hdrs@[i as int]);
            lemma_headers_prefix(hdrs@.take(i + 1), i + 1);
            assert(hdrs@.take(i + 1).take(i + 1) =~= hdrs@.take(i + 1));
        }
        let a = append_bytes_delim(maybe_buf, h.field.as_slice(), cs);
        let b = append_bytes_delim(maybe_buf, h.value.as_slice(), nl);
        last = a + b;
        proof {
            match *old(maybe_buf) {
                Some(r0) => {
                    assert(headers_bytes(hdrs@.take(i + 1)) == headers_bytes(hdrs@.take(i as int))
                        + header_bytes(hdrs@[i as int]));
                    assert((*r0)@ + headers_bytes(hdrs@.take(i as int)) + (h.field@ + colon_space())
                        + (h.value@ + crlf()) =~= (*r0)@ + headers_bytes(hdrs@.take(i + 1)));
                },
                None => {},
            }
        }
    }
    proof {
        assert(hdrs@.take(n as int) =~= hdrs@);
    }
    last
}

/// Appends the HTTP version as `M.m ` and returns 4.
pub fn append_http_version(maybe_buf: &mut Option<&mut Vec<u8>>, v: &HttpVersion) -> (n: usize)
    requires
        *old(maybe_buf) is Some ==> v.0 < 10 && v.1 < 10,
    ensures
        n == 4,
        buf_now(*final(maybe_buf)) == buf_after(buf_now(*old(maybe_buf)), version_bytes(*v)),
        match (*old(maybe_buf), *final(maybe_buf)) {
            (Some(r0), Some(r1)) => *final(r1) == *final(r0),
            (None, None) => true,
            _ => false,
        },
{
    match maybe_buf {
        None => {},
        Some(b) => {
            let major = v.0;
            let minor = v.1;
            let ghost before = (**b)@;
            b.push(48 + major);
            b.push(46);
            b.push(48 + minor);
            b.push(32);
            proof {
                assert((**b)@ =~= before + version_bytes(*v));
            }
        },
    }
    4
}

/// Appends the body, if there is a buffer, and returns the number of
/// its bytes; without a buffer returns the announced `size`.
pub fn append_body(maybe_buf: &mut Option<&mut Vec<u8>>, body: &[u8], size: usize) -> (n: usize)
    ensures
        n == (if *old(maybe_buf) is Some {
            body@.len()
        } else {
            size as nat
        }),
        buf_now(*final(maybe_buf)) == buf_after(buf_now(*old(maybe_buf)), body@),
        match (*old(maybe_buf), *final(maybe_buf)) {
            (Some(r0), Some(r1)) => *final(r1) == *final(r0),
            (None, None) => true,
            _ => false,
        },
{
    match maybe_buf {
        None => size,
        Some(buf) => {
            buf.extend_from_slice(body);
            body.len()
        },
    }
}


/// Appends the head of a request (method, URL, version, headers and the
/// blank line) and returns its counted length.
pub fn append_request_sans_body(b: &mut Option<&mut Vec<u8>>, r: &Request) -> (n: usize)
    requires
        head_fits(*r),
        *old(b) is Some ==> version_digits(*r),
    ensures
        n == request_head_count(*r),
        buf_now(*final(b)) == buf_after(buf_now(*old(b)), request_head_bytes(*r)),
        match (*old(b), *final(b)) {
            (Some(r0), Some(r1)) => *final(r1) == *final(r0),
            (None, None) => true,
            _ => false,
        },
{
    let sp: &[u8] = &[32u8];
    let nl: &[u8] = &[13u8, 10u8];
    proof {
        if r.headers@.len() > 0 {
            lemma_headers_prefix(r.headers@, 0);
        }
    }
    let n1 = append_bytes_delim(b, r.method.as_slice(), sp);
    let n2 = append_bytes_delim(b, r.url.as_slice(), sp);
    let n3 = append_http_version(b, &r.http_version);
    let n4 = append_headers(b, r.headers.as_slice());
    let n5 = append_bytes(b, nl);
    proof {
        match *old(b) {
            Some(r0) => {
                assert((*r0)@ + (r.method@ + sp@) + (r.url@ + sp@) + version_bytes(r.http_version)
                    + headers_bytes(r.headers@) + nl@ =~= (*r0)@ + request_head_bytes(*r));
            },
            None => {},
        }
    }
    n1 + n2 + n3 + n4 + n5
}

/// Appends the whole encoding of a request and returns its counted
/// length.  Without a buffer the body is counted by its announced length;
/// with one, by the bytes written.
pub fn append_request(b: &mut Option<&mut Vec<u8>>, r: &Request) -> (n: usize)
    requires
        head_fits(*r),
        *old(b) is Some ==> version_digits(*r),
        request_count(*r, *old(b) is Some) <= usize::MAX,
    ensures
        n == request_count(*r, *old(b) is Some),
        buf_now(*final(b)) == buf_after(buf_now(*old(b)), request_bytes(*r)),
        match (*old(b), *final(b)) {
            (Some(r0), Some(r1)) => *final(r1) == *final(r0),
            (None, None) => true,
            _ => false,
        },
{
    let len_sans_body = append_request_sans_body(b, r);
    let body_len = match r.body_length {
        Some(l) => l,
        None => 0,
    };
    let nb = append_body(b, r.body.as_slice(), body_len);
    proof {
        match *old(b) {
            Some(r0) => {
                assert((*r0)@ + request_head_bytes(*r) + r.body@ =~= (*r0)@ + request_bytes(*r));
            },
            None => {},
        }
    }
    len_sans_body + nb
}

/// The bytes of a request as they are handed to the database: one
/// counting pass sizes the buffer, a second pass writes it.  The two
/// passes agree on the length when the body read is as long as the
/// request announced.
pub fn encode_request(req: &Request) -> (res: Vec<u8>)
    requires
        encodable(*req),
        body_consistent(*req),
    ensures
        res@ == request_bytes(*req),
{
    let mut no_vec: Option<&mut Vec<u8>> = None;
    let req_len = append_request(&mut no_vec, req);
    let mut req_buf: Vec<u8> = Vec::with_capacity(req_len);
    let req_len_ = append_request(&mut Some(&mut req_buf), req);
    proof {
        law_count_modes_agree(*req);
        assert(req_len == req_len_);
        assert(Seq::<u8>::empty() + request_bytes(*req) =~= request_bytes(*req));
    }
    req_buf
}

/// Counting a request and writing it return the same length, whenever
/// the body read is as long as the request announced.
pub proof fn law_count_modes_agree(r: Request)
    requires
        body_consistent(r),
    ensures
        request_count(r, false) == request_count(r, true),
{
}

/// The returned length is the number of bytes written when the request
/// has at most one header.
pub proof fn law_count_is_length(r: Request)
    requires
        r.headers@.len() <= 1,
    ensures
        request_count(r, true) == request_bytes(r).len(),
{
    let hs = r.headers@;
    assert(headers_bytes(Seq::<Header>::empty()) =~= Seq::<u8>::empty());
    if hs.len() == 1 {
        assert(hs.drop_last() =~= Seq::<Header>::empty());
        assert(headers_bytes(hs) =~= header_bytes(hs.last()));
    }
}


/// The encoded headers are each header's field, `: `, its value and
/// `\r\n`, in order, with every byte as given.
pub proof fn law_headers_layout(hs: Seq<Header>, h: Header)
    ensures
        headers_bytes(Seq::<Header>::empty()) == Seq::<u8>::empty(),
        headers_bytes(hs.push(h)) == headers_bytes(hs) + h.field@ + seq![58u8, 32u8] + h.value@ + seq![
            13u8,
            10u8,
        ],
{
    assert(hs.push(h).drop_last() =~= hs);
    assert(headers_bytes(hs.push(h)) =~= headers_bytes(hs) + h.field@ + seq![58u8, 32u8] + h.value@
        + seq![13u8, 10u8]);
}

/// The encoded head of a request holds, in this order and with every
/// byte as given: the method, a space, the URL, a space, the version as
/// `M.m `, the encoded headers and `\r\n`.  The whole encoding is that head
/// followed by the body as it was read.
pub proof fn law_request_layout(r: Request)
    ensures
        ({
            let h = request_head_bytes(r);
            let m = r.method@.len() as int;
            let u = r.url@.len() as int;
            let hb = headers_bytes(r.headers@);
            &&& h.len() == m + u + hb.len() + 8
            &&& h.subrange(0, m) == r.method@
            &&& h[m] == 32u8
            &&& h.subrange(m + 1, m + 1 + u) == r.url@
            &&& h[m + 1 + u] == 32u8
            &&& h.subrange(m + 2 + u, m + 6 + u) == seq![
                (48 + r.http_version.0) as u8,
                46u8,
                (48 + r.http_version.1) as u8,
                32u8,
            ]
            &&& h.subrange(m + 6 + u, h.len() - 2) == hb
            &&& h.subrange(h.len() - 2, h.len() as int) == seq![13u8, 10u8]
        }),
        request_bytes(r).len() == request_head_bytes(r).len() + r.body@.len(),
        request_bytes(r).subrange(0, request_head_bytes(r).len() as int) == request_head_bytes(r),
        request_bytes(r).subrange(request_head_bytes(r).len() as int, request_bytes(r).len() as int)
            == r.body@,
{
    let h = request_head_bytes(r);
    let m = r.method@.len() as int;
    let u = r.url@.len() as int;
    let hb = headers_bytes(r.headers@);
    assert(h.subrange(0, m) =~= r.method@);
    assert(h.subrange(m + 1, m + 1 + u) =~= r.url@);
    assert(h.subrange(m + 2 + u, m + 6 + u) =~= version_bytes(r.http_version));
    assert(h.subrange(m + 6 + u, h.len() - 2) =~= hb);
    assert(h.subrange(h.len() - 2, h.len() as int) =~= crlf());
    let b = request_bytes(r);
    assert(b.subrange(0, h.len() as int) =~= h);
    assert(b.subrange(h.len() as int, b.len() as int) =~= r.body@);
}

} // verus!
