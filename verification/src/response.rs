//! Database rows decoded into an HTTP response.  Each row carries a
//! header name, a text value and a binary value; a few header names are
//! reserved: `_status` gives the status code, `content-length` the
//! length, `_body` and `_body_bin` the body.

use vstd::prelude::*;
use crate::text::{law_lower_idempotent, all_digits, decimal_value, digit_prefixes_fit, digits_fit, digits_to_usize, lower_bytes, make_lower_vec_u8};
use crate::tinier::Header;

verus! {

/// One row returned by the database: header name, text value, binary
/// value.
pub struct Row {
    pub header: Vec<u8>,
    pub text: Vec<u8>,
    pub binary: Vec<u8>,
}

/// The response that the rows describe.
pub struct ResponseData {
    pub headers: Vec<Header>,
    pub status_code: i32,
    pub content_length: usize,
    pub body: Vec<u8>,
}

/// Why rows do not make a response.
#[derive(PartialEq, Eq, Structural, Debug, Clone, Copy)]
pub enum ResponseError {
    /// The `_status` value is not a decimal number.
    IllegalStatus,
    /// The `content-length` value is not a decimal number.
    IllegalContentLength,
    /// A `_status` or `content-length` value is a run of digits whose
    /// number, read digit by digit, passes `usize::MAX` before any
    /// non-digit is reached.
    NumberTooLarge,
    /// A header row has an empty text value.
    EmptyHeaderValue,
    /// A header name or value holds a byte outside ASCII.
    InvalidHeader,
    /// The content length differs from the length of the body.
    LengthMismatch,
    /// No positive status code was given.
    BadStatus,
}

/// The plain form of a row.
pub struct RowView {
    pub header: Seq<u8>,
    pub text: Seq<u8>,
    pub binary: Seq<u8>,
}

/// The plain form of a response.
pub struct ResponseView {
    pub headers: Seq<(Seq<u8>, Seq<u8>)>,
    pub status_code: i32,
    pub content_length: usize,
    pub body: Seq<u8>,
}

impl Row {
    pub open spec fn view(self) -> RowView {
        RowView { header: self.header@, text: self.text@, binary: self.binary@ }
    }
}

impl ResponseData {
    pub open spec fn view(self) -> ResponseView {
        ResponseView {
            headers: self.headers@.map_values(|h: Header| (h.field@, h.value@)),
            status_code: self.status_code,
            content_length: self.content_length,
            body: self.body@,
        }
    }
}

/// The rows in plain form.
pub open spec fn rows_view(rows: Seq<Row>) -> Seq<RowView> {
    rows.map_values(|r: Row| r.view())
}

/// The header name `_status`.
pub open spec fn status_name() -> Seq<u8> {
    seq![95u8, 115u8, 116u8, 97u8, 116u8, 117u8, 115u8]
}

/// The header name `content-length`.
pub open spec fn content_length_name() -> Seq<u8> {
    seq![99u8, 111u8, 110u8, 116u8, 101u8, 110u8, 116u8, 45u8, 108u8, 101u8, 110u8, 103u8, 116u8, 104u8]
}

/// The header name `_body_bin`.
pub open spec fn body_bin_name() -> Seq<u8> {
    seq![95u8, 98u8, 111u8, 100u8, 121u8, 95u8, 98u8, 105u8, 110u8]
}

/// The header name `_body`.
pub open spec fn body_name() -> Seq<u8> {
    seq![95u8, 98u8, 111u8, 100u8, 121u8]
}

/// Whether every byte is ASCII.
pub open spec fn all_ascii(s: Seq<u8>) -> bool {
    forall|i: int| 0 <= i < s.len() ==> #[trigger] s[i] < 128
}

/// The response before any row is read: status -1, nothing else.
pub open spec fn initial_response() -> ResponseView {
    ResponseView { headers: Seq::empty(), status_code: -1i32, content_length: 0usize, body: Seq::empty() }
}

/// The effect of one row on the response being built.  The header name
/// is lower-cased first.
pub open spec fn decode_row(st: ResponseView, row: RowView) -> Result<ResponseView, ResponseError> {
    let h = lower_bytes(row.header);
    if h == status_name() {
        if !digit_prefixes_fit(row.text) {
            Err(ResponseError::NumberTooLarge)
        } else if all_digits(row.text) {
            Ok(ResponseView { status_code: ((decimal_value(row.text) as usize) as i32), ..st })
        } else {
            Err(ResponseError::IllegalStatus)
        }
    } else if h == content_length_name() {
        if !digit_prefixes_fit(row.text) {
            Err(ResponseError::NumberTooLarge)
        } else if all_digits(row.text) {
            Ok(ResponseView { content_length: decimal_value(row.text) as usize, ..st })
        } else {
            Err(ResponseError::IllegalContentLength)
        }
    } else if h == body_bin_name() {
        Ok(ResponseView { body: row.binary, ..st })
    } else if h == body_name() {
        Ok(ResponseView { body: row.text, ..st })
    } else if row.text.len() == 0 {
        Err(ResponseError::EmptyHeaderValue)
    } else if !(all_ascii(h) && all_ascii(row.text)) {
        Err(ResponseError::InvalidHeader)
    } else {
        Ok(ResponseView { headers: st.headers.push((h, row.text)), ..st })
    }
}

/// The rows read in order; the first error stops the reading.
pub open spec fn decode_rows(rows: Seq<RowView>) -> Result<ResponseView, ResponseError>
    decreases rows.len(),
{
    if rows.len() == 0 {
        Ok(initial_response())
    } else {
        match decode_rows(rows.drop_last()) {
            Ok(st) => decode_row(st, rows.last()),
            Err(e) => Err(e),
        }
    }
}

/// The response that the rows describe, once its length and status are
/// checked.
pub open spec fn decode_response(rows: Seq<RowView>) -> Result<ResponseView, ResponseError> {
    match decode_rows(rows) {
        Ok(st) => if st.content_length != st.body.len() {
            Err(ResponseError::LengthMismatch)
        } else if st.status_code <= 0 {
            Err(ResponseError::BadStatus)
        } else {
            Ok(st)
        },
        Err(e) => Err(e),
    }
}

/// `tiny_http::Header::from_bytes`: a header from a field name and a
/// value, which succeeds exactly when both are ASCII (the crate stores
/// both as `AsciiString`, unchanged).  The header's bytes are read back
/// through `as_str().as_bytes()` and `as_bytes()`.
#[verifier::external_body]
fn header_from_bytes(field: Vec<u8>, value: Vec<u8>) -> (res: Result<Header, ()>)
    ensures
        res is Ok <==> (all_ascii(field@) && all_ascii(value@)),
        res matches Ok(h) ==> h.field@ == field@ && h.value@ == value@,
{
    match tiny_http::Header::from_bytes(field, value) {
        Ok(h) => Ok(Header { field: h.field.as_str().as_bytes().to_vec(), value: h.value.as_bytes().to_vec() }),
        Err(()) => Err(()),
    }
}

fn copy_bytes(v: &Vec<u8>) -> (res: Vec<u8>)
    ensures
        res@ == v@,
{
    let mut out: Vec<u8> = Vec::new();
    out.extend_from_slice(v.as_slice());
    assert(out@ =~= v@);
    out
}

fn bytes_equal(a: &Vec<u8>, b: &[u8]) -> (res: bool)
    ensures
        res == (a@ == b@),
{
    if a.len() != b.len() {
        return false;
    }
    let n = a.len();
    for i in 0..n
        invariant
            n == a@.len(),
            n == b@.len(),
            forall|j: int| 0 <= j < i ==> a@[j] == b@[j],
    {
        if a[i] != b[i] {
            return false;
        }
    }
    assert(a@ =~= b@);
    true
}


/// Once a prefix of the rows fails, all of them fail the same way.
proof fn lemma_error_stays(rows: Seq<RowView>, k: int)
    requires
        0 <= k <= rows.len(),
        decode_rows(rows.take(k)) is Err,
    ensures
        decode_rows(rows) == decode_rows(rows.take(k)),
        decode_response(rows) == decode_rows(rows.take(k)),
    decreases rows.len() - k,
{
    if k == rows.len() {
        assert(rows.take(k) =~= rows);
    } else {
        assert(rows.take(k + 1).drop_last() =~= rows.take(k));
        lemma_error_stays(rows, k + 1);
    }
}

/// Decodes database rows into a response: `_status` sets the status
/// code, `content-length` the content length, `_body_bin` and `_body` the
/// body (from the binary or the text value); any other row is a header,
/// whose name is lower-cased.  Header names are lower-cased before they
/// are compared.  The content length must then equal the body's length
/// and the status code be positive.  A number that is too large for a
/// `usize` stops the decoding at its row.
pub fn response_from_rows(rows: &Vec<Row>) -> (res: Result<ResponseData, ResponseError>)
    ensures
        match res {
            Ok(rd) => decode_response(rows_view(rows@)) == Ok::<ResponseView, ResponseError>(rd.view()),
            Err(e) => decode_response(rows_view(rows@)) == Err::<ResponseView, ResponseError>(e),
        },
{
    let ghost rv = rows_view(rows@);
    let n = rows.len();
    let mut rd = ResponseData {
        status_code: -1,
        headers: Vec::with_capacity(n),
        body: Vec::with_capacity(0),
        content_length: 0,
    };
    proof {
        assert(rv.take(0) =~= Seq::<RowView>::empty());
        assert(rd.view().headers =~= Seq::<(Seq<u8>, Seq<u8>)>::empty());
        assert(rd.view().body =~= Seq::<u8>::empty());
        assert(rd.view() == initial_response());
    }
    for i in 0..n
        invariant
            n == rows@.len(),
            rv == rows_view(rows@),
            rv.len() == n,
            decode_rows(rv.take(i as int)) == Ok::<ResponseView, ResponseError>(rd.view()),
    {
        let row = &rows[i];
        let ghost before = rd.view();
        proof {
            assert(rv[i as int] == row.view());
            assert(rv.take(i + 1).drop_last() =~= rv.take(i as int));
            assert(rv.take(i + 1).last() == rv[i as int]);
        }
        let mut hdr_bytes = copy_bytes(&row.header);
        make_lower_vec_u8(&mut hdr_bytes);
        let text_bytes = copy_bytes(&row.text);
        let bin_bytes = copy_bytes(&row.binary);
        let status: &[u8] = &[95u8, 115u8, 116u8, 97u8, 116u8, 117u8, 115u8];
        let length: &[u8] = &[99u8, 111u8, 110u8, 116u8, 101u8, 110u8, 116u8, 45u8, 108u8, 101u8, 110u8, 103u8, 116u8, 104u8];
        let body_bin: &[u8] = &[95u8, 98u8, 111u8, 100u8, 121u8, 95u8, 98u8, 105u8, 110u8];
        let body: &[u8] = &[95u8, 98u8, 111u8, 100u8, 121u8];
        if bytes_equal(&hdr_bytes, status) {
            if !digits_fit(&text_bytes) {
                proof {
                    lemma_error_stays(rv, i + 1);
                }
                return Err(ResponseError::NumberTooLarge);
            }
            match digits_to_usize(&text_bytes) {
                Some(code) => {
                    rd.status_code = #[verifier::truncate] (code as i32);
                },
                None => {
                    proof {
                        lemma_error_stays(rv, i + 1);
                    }
                    return Err(ResponseError::IllegalStatus);
                },
            }
        } else if bytes_equal(&hdr_bytes, length) {
            if !digits_fit(&text_bytes) {
                proof {
                    lemma_error_stays(rv, i + 1);
                }
                return Err(ResponseError::NumberTooLarge);
            }
            match digits_to_usize(&text_bytes) {
                Some(l) => {
                    rd.content_length = l;
                },
                None => {
                    proof {
                        lemma_error_stays(rv, i + 1);
                    }
                    return Err(ResponseError::IllegalContentLength);
                },
            }
        } else if bytes_equal(&hdr_bytes, body_bin) {
            rd.body = bin_bytes;
        } else if bytes_equal(&hdr_bytes, body) {
            rd.body = text_bytes;
        } else {
            if text_bytes.len() == 0 {
                proof {
                        lemma_error_stays(rv, i + 1);
                    }
                    return Err(ResponseError::EmptyHeaderValue);
            }
            let ghost h = hdr_bytes@;
            let ghost t = text_bytes@;
            match header_from_bytes(hdr_bytes, text_bytes) {
                Ok(header) => {
                    rd.headers.push(header);
                    proof {
                        assert(rd.view().headers =~= before.headers.push((h, t)));
                    }
                },
                Err(()) => {
                    proof {
                        lemma_error_stays(rv, i + 1);
                    }
                    return Err(ResponseError::InvalidHeader);
                },
            }
        }
        proof {
            assert(rd.view() == decode_row(before, rv[i as int])->Ok_0) by {
                assert(rd.view().headers =~= (decode_row(before, rv[i as int])->Ok_0).headers);
            }
        }
    }
    proof {
        assert(rv.take(n as int) =~= rv);
    }
    if rd.content_length != rd.body.len() {
        return Err(ResponseError::LengthMismatch);
    }
    if rd.status_code <= 0 {
        return Err(ResponseError::BadStatus);
    }
    Ok(rd)
}


/// A decoded response has a positive status code and a content length
/// equal to the length of its body.
pub proof fn law_response_consistent(rows: Seq<RowView>)
    ensures
        decode_response(rows) matches Ok(st) ==> st.status_code > 0 && st.content_length == st.body.len(),
{
}

/// Headers that a response may carry: a lower-case ASCII name that is not
/// one of the reserved names, and a non-empty ASCII value.
pub open spec fn good_headers(hs: Seq<(Seq<u8>, Seq<u8>)>) -> bool {
    forall|i: int|
        0 <= i < hs.len() ==> {
            let h = #[trigger] hs[i];
            &&& lower_bytes(h.0) == h.0
            &&& all_ascii(h.0)
            &&& all_ascii(h.1)
            &&& h.1.len() > 0
            &&& h.0 != status_name()
            &&& h.0 != content_length_name()
            &&& h.0 != body_bin_name()
            &&& h.0 != body_name()
        }
}

/// Every header taken from the rows has a lower-case ASCII name other
/// than the reserved ones and a non-empty ASCII value, in the order of
/// the rows.
pub proof fn law_response_headers(rows: Seq<RowView>)
    ensures
        decode_rows(rows) matches Ok(st) ==> good_headers(st.headers),
    decreases rows.len(),
{
    if rows.len() > 0 {
        law_response_headers(rows.drop_last());
        law_lower_idempotent(rows.last().header);
        if let Ok(st) = decode_rows(rows.drop_last()) {
            let h = lower_bytes(rows.last().header);
            if let Ok(st2) = decode_row(st, rows.last()) {
                if st2.headers.len() > st.headers.len() {
                    assert(st2.headers == st.headers.push((h, rows.last().text)));
                    assert forall|i: int| 0 <= i < st2.headers.len() implies {
                        let g = #[trigger] st2.headers[i];
                        &&& lower_bytes(g.0) == g.0
                        &&& all_ascii(g.0)
                        &&& all_ascii(g.1)
                        &&& g.1.len() > 0
                        &&& g.0 != status_name()
                        &&& g.0 != content_length_name()
                        &&& g.0 != body_bin_name()
                        &&& g.0 != body_name()
                    } by {
                        if i < st.headers.len() {
                            assert(st2.headers[i] == st.headers[i]);
                        }
                    }
                } else {
                    assert(st2.headers == st.headers);
                }
            }
        }
    }
}


/// Whether a lower-cased header name is one of the four reserved names.
pub open spec fn is_reserved(n: Seq<u8>) -> bool {
    n == status_name() || n == content_length_name() || n == body_bin_name() || n == body_name()
}

/// The ordinary header rows, in order: for each row whose lower-cased
/// name is not reserved, that name and the row's text value.
pub open spec fn header_rows(rows: Seq<RowView>) -> Seq<(Seq<u8>, Seq<u8>)>
    decreases rows.len(),
{
    if rows.len() == 0 {
        Seq::empty()
    } else {
        let n = lower_bytes(rows.last().header);
        if is_reserved(n) {
            header_rows(rows.drop_last())
        } else {
            header_rows(rows.drop_last()).push((n, rows.last().text))
        }
    }
}

/// The last row whose lower-cased name is `name`.
pub open spec fn last_named(rows: Seq<RowView>, name: Seq<u8>) -> Option<RowView>
    decreases rows.len(),
{
    if rows.len() == 0 {
        None
    } else if lower_bytes(rows.last().header) == name {
        Some(rows.last())
    } else {
        last_named(rows.drop_last(), name)
    }
}

/// The last row that gives the body, by the text (`_body`) or by the
/// binary value (`_body_bin`).
pub open spec fn last_body(rows: Seq<RowView>) -> Option<RowView>
    decreases rows.len(),
{
    if rows.len() == 0 {
        None
    } else if lower_bytes(rows.last().header) == body_name() || lower_bytes(rows.last().header)
        == body_bin_name() {
        Some(rows.last())
    } else {
        last_body(rows.drop_last())
    }
}

/// What decoded rows give: every ordinary header row adds one header,
/// in row order, with its lower-cased name and its text as given; the
/// status code and the content length are those of the last `_status` and
/// `content-length` rows (-1 and 0 when there are none); the body is that
/// of the last `_body` or `_body_bin` row (empty when there is none),
/// taken from its text or from its binary value.
pub proof fn law_decoded_rows(rows: Seq<RowView>)
    ensures
        decode_rows(rows) matches Ok(st) ==> {
            &&& st.headers == header_rows(rows)
            &&& st.headers.len() == header_rows(rows).len()
            &&& st.status_code == match last_named(rows, status_name()) {
                Some(r) => (decimal_value(r.text) as usize) as i32,
                None => -1i32,
            }
            &&& st.content_length == match last_named(rows, content_length_name()) {
                Some(r) => decimal_value(r.text) as usize,
                None => 0usize,
            }
            &&& st.body == match last_body(rows) {
                Some(r) => if lower_bytes(r.header) == body_bin_name() {
                    r.binary
                } else {
                    r.text
                },
                None => Seq::<u8>::empty(),
            }
        },
    decreases rows.len(),
{
    if rows.len() > 0 {
        law_decoded_rows(rows.drop_last());
        assert(status_name() != content_length_name());
        assert(status_name() != body_name());
        assert(status_name() != body_bin_name());
        assert(content_length_name() != body_name());
        assert(content_length_name() != body_bin_name());
        assert(body_name().len() != body_bin_name().len());
    }
}

} // verus!
