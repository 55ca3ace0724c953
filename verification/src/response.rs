//! The response side of the protocol: the closed set of statuses, the
//! structured response, the serializer that produces the exact wire
//! bytes, and a parser for those bytes.
//!
//! The wire form is `HTTP/1.1 <status line>\r\n`, one `<name>: <value>\r\n`
//! line per header entry in insertion order, an empty line, then the
//! body bytes unchanged. Header iteration order is insertion order, so
//! serialization is deterministic.
use vstd::prelude::*;

use crate::bytes::{crlf, crlf_bytes, dec_rep, find2, find_two_from, lemma_find2_absent,
    lemma_find2_concat, lemma_find2_first, lemma_split2_nonempty, lemma_split2_step, pair_at,
    split2, split_two, subvec, u64_to_dec, views_of};
use crate::bytes::bytes_eq;
use crate::request::spec_fold_headers;
use crate::headers::{spec_insert, spec_lookup, unique_keys, Headers};
use vstd::slice::slice_to_vec;
use crate::tokens::{colon_space, colon_space_bytes, content_length_key, content_length_key_bytes,
    content_type_key, content_type_key_bytes, http_prefix, http_prefix_bytes, st_bad_request,
    st_bad_request_bytes, st_created, st_created_bytes, st_method_not_allowed,
    st_method_not_allowed_bytes, st_not_found, st_not_found_bytes, st_ok, st_ok_bytes};

verus! {

/// The closed set of response statuses.
#[derive(Clone, Copy, Debug, PartialEq, Eq, Structural)]
pub enum StatusCode {
    OK,
    Created,
    NotFound,
    MethodNotAllowed,
    BadRequest,
}

/// The fixed status line of each status: code and reason phrase.
pub open spec fn spec_status_line(s: StatusCode) -> Seq<u8> {
    match s {
        StatusCode::OK => st_ok(),
        StatusCode::Created => st_created(),
        StatusCode::NotFound => st_not_found(),
        StatusCode::MethodNotAllowed => st_method_not_allowed(),
        StatusCode::BadRequest => st_bad_request(),
    }
}

impl StatusCode {
    /// The bytes of this status's fixed status line.
    pub fn status_line_bytes(&self) -> (r: &'static [u8])
        ensures
            r@ == spec_status_line(*self),
    {
        match self {
            StatusCode::OK => st_ok_bytes(),
            StatusCode::Created => st_created_bytes(),
            StatusCode::NotFound => st_not_found_bytes(),
            StatusCode::MethodNotAllowed => st_method_not_allowed_bytes(),
            StatusCode::BadRequest => st_bad_request_bytes(),
        }
    }
}

/// Mathematical model of a response.
pub struct RespView {
    pub status: StatusCode,
    pub headers: Seq<(Seq<u8>, Seq<u8>)>,
    pub body: Seq<u8>,
}

/// One `<name>: <value>\r\n` line per entry, in order.
pub open spec fn spec_serialize_headers(hs: Seq<(Seq<u8>, Seq<u8>)>) -> Seq<u8>
    decreases hs.len(),
{
    if hs.len() == 0 {
        Seq::empty()
    } else {
        hs[0].0 + colon_space() + hs[0].1 + crlf() + spec_serialize_headers(hs.drop_first())
    }
}

/// The exact wire bytes of a response: status line, header lines, an
/// empty line, then the body bytes unchanged.
pub open spec fn spec_serialize(v: RespView) -> Seq<u8> {
    http_prefix() + spec_status_line(v.status) + crlf() + spec_serialize_headers(v.headers) + crlf()
        + v.body
}

/// Headers are consistent with the body: a non-empty body is described
/// by a `Content-Type` entry and a `Content-Length` entry holding the
/// body's length in decimal.
pub open spec fn resp_consistent(v: RespView) -> bool {
    v.body.len() > 0 ==> spec_lookup(v.headers, content_type_key()) is Some && spec_lookup(
        v.headers,
        content_length_key(),
    ) == Some(dec_rep(v.body.len()))
}

/// A structured response: status, header mapping, body bytes.
pub struct HttpResponse {
    status: StatusCode,
    headers: Headers,
    body: Vec<u8>,
}

impl View for HttpResponse {
    type V = RespView;

    closed spec fn view(&self) -> RespView {
        RespView { status: self.status, headers: self.headers@, body: self.body@ }
    }
}

/// A fresh two-entry mapping `Content-Type: <t>`, `Content-Length: <n>`,
/// in that order.
pub fn create_headers(content_type: &[u8], content_length: u64) -> (h: Headers)
    ensures
        h@ == seq![
            (content_type_key(), content_type@),
            (content_length_key(), dec_rep(content_length as nat)),
        ],
        h.wf(),
{
    let mut h = Headers::new();
    h.insert(slice_to_vec(content_type_key_bytes()), slice_to_vec(content_type));
    proof {
        assert(h@ =~= seq![(content_type_key(), content_type@)]);
    }
    let ghost h1 = h@;
    h.insert(slice_to_vec(content_length_key_bytes()), u64_to_dec(content_length));
    proof {
        assert(content_type_key() != content_length_key()) by {
            assert(content_type_key()[8] == 84);
            assert(content_length_key()[8] == 76);
        }
        assert(h1[0].0 != content_length_key());
        assert(h1.drop_first().len() == 0);
        assert(spec_insert(h1.drop_first(), content_length_key(), dec_rep(content_length as nat))
            =~= seq![(content_length_key(), dec_rep(content_length as nat))]);
        assert(h@ =~= seq![
            (content_type_key(), content_type@),
            (content_length_key(), dec_rep(content_length as nat)),
        ]);
    }
    h
}

impl HttpResponse {
    /// The header names are pairwise distinct.
    pub open spec fn wf(&self) -> bool {
        unique_keys(self@.headers)
    }

    /// The status.
    pub fn status(&self) -> (s: StatusCode)
        ensures
            s == self@.status,
    {
        self.status
    }

    /// The header mapping.
    pub fn headers(&self) -> (h: &Headers)
        ensures
            h@ == self@.headers,
    {
        &self.headers
    }

    /// The body bytes.
    pub fn body(&self) -> (b: &Vec<u8>)
        ensures
            b@ == self@.body,
    {
        &self.body
    }

    /// An `OK` response with no headers and an empty body.
    pub fn new() -> (r: HttpResponse)
        ensures
            r@.status == StatusCode::OK,
            r@.headers == Seq::<(Seq<u8>, Seq<u8>)>::empty(),
            r@.body == Seq::<u8>::empty(),
            r.wf(),
    {
        HttpResponse { status: StatusCode::OK, headers: Headers::new(), body: Vec::new() }
    }

    /// An `OK` response carrying the given headers and body.
    pub fn ok(header: Headers, body: Vec<u8>) -> (r: HttpResponse)
        requires
            header.wf(),
        ensures
            r@.status == StatusCode::OK,
            r@.headers == header@,
            r@.body == body@,
            r.wf(),
    {
        HttpResponse { status: StatusCode::OK, headers: header, body }
    }

    /// A `Created` response with no headers and an empty body.
    pub fn created() -> (r: HttpResponse)
        ensures
            r@.status == StatusCode::Created,
            r@.headers == Seq::<(Seq<u8>, Seq<u8>)>::empty(),
            r@.body == Seq::<u8>::empty(),
            r.wf(),
    {
        HttpResponse { status: StatusCode::Created, headers: Headers::new(), body: Vec::new() }
    }

    /// A `NotFound` response with no headers and an empty body.
    pub fn not_found() -> (r: HttpResponse)
        ensures
            r@.status == StatusCode::NotFound,
            r@.headers == Seq::<(Seq<u8>, Seq<u8>)>::empty(),
            r@.body == Seq::<u8>::empty(),
            r.wf(),
    {
        HttpResponse { status: StatusCode::NotFound, headers: Headers::new(), body: Vec::new() }
    }

    /// A `BadRequest` response with no headers and an empty body.
    pub fn bad_request() -> (r: HttpResponse)
        ensures
            r@.status == StatusCode::BadRequest,
            r@.headers == Seq::<(Seq<u8>, Seq<u8>)>::empty(),
            r@.body == Seq::<u8>::empty(),
            r.wf(),
    {
        HttpResponse { status: StatusCode::BadRequest, headers: Headers::new(), body: Vec::new() }
    }

    /// A `MethodNotAllowed` response with no headers and an empty body.
    pub fn method_not_allowed() -> (r: HttpResponse)
        ensures
            r@.status == StatusCode::MethodNotAllowed,
            r@.headers == Seq::<(Seq<u8>, Seq<u8>)>::empty(),
            r@.body == Seq::<u8>::empty(),
            r.wf(),
    {
        HttpResponse {
            status: StatusCode::MethodNotAllowed,
            headers: Headers::new(),
            body: Vec::new(),
        }
    }

    /// Serializes this response into its exact wire bytes.
    #[verifier::loop_isolation(false)]
    pub fn as_bytes(&self) -> (v: Vec<u8>)
        ensures
            v@ == spec_serialize(self@),
    {
        let ghost hs = self@.headers;
        let mut v: Vec<u8> = Vec::new();
        v.extend_from_slice(http_prefix_bytes());
        v.extend_from_slice(self.status.status_line_bytes());
        v.extend_from_slice(crlf_bytes());
        let ghost pre = v@;
        proof {
            assert(hs.skip(0) =~= hs);
        }
        let mut i: usize = 0;
        while i < self.headers.len()
            invariant
                i <= hs.len(),
                v@ + spec_serialize_headers(hs.skip(i as int)) == pre + spec_serialize_headers(hs),
            decreases hs.len() - i,
        {
            let ghost vpre = v@;
            v.extend_from_slice(self.headers.name_at(i).as_slice());
            v.extend_from_slice(colon_space_bytes());
            v.extend_from_slice(self.headers.value_at(i).as_slice());
            v.extend_from_slice(crlf_bytes());
            proof {
                assert(hs.skip(i as int)[0] == hs[i as int]);
                assert(hs.skip(i as int).drop_first() =~= hs.skip(i as int + 1));
                assert(spec_serialize_headers(hs.skip(i as int)) == hs[i as int].0 + colon_space()
                    + hs[i as int].1 + crlf() + spec_serialize_headers(hs.skip(i as int + 1)));
                assert(v@ =~= vpre + hs[i as int].0 + colon_space() + hs[i as int].1 + crlf());
                assert(v@ + spec_serialize_headers(hs.skip(i as int + 1)) =~= vpre
                    + spec_serialize_headers(hs.skip(i as int)));
            }
            i += 1;
        }
        proof {
            assert(hs.skip(hs.len() as int).len() == 0);
            assert(v@ =~= pre + spec_serialize_headers(hs));
        }
        v.extend_from_slice(crlf_bytes());
        v.extend_from_slice(self.body.as_slice());
        proof {
            assert(v@ =~= spec_serialize(self@));
        }
        v
    }
}

/// What best-effort text decoding makes of a byte sequence: a function
/// of the bytes alone.
pub uninterp spec fn lossy_of(b: Seq<u8>) -> Seq<char>;

/// Relies on String::from_utf8_lossy: the result depends on the bytes
/// alone; valid UTF-8 is decoded, invalid sequences are substituted.
#[verifier::external_body]
fn lossy_decode(b: &[u8]) -> (s: String)
    ensures
        s@ == lossy_of(b@),
{
    String::from_utf8_lossy(b).into_owned()
}

impl HttpResponse {
    /// The wire bytes of this response, best-effort decoded to text.
    pub fn to_string(&self) -> (s: String)
        ensures
            s@ == lossy_of(spec_serialize(self@)),
    {
        let v = self.as_bytes();
        lossy_decode(v.as_slice())
    }
}

/// The status whose full status line a line equals, if any.
pub open spec fn spec_status_of_line(line: Seq<u8>) -> Option<StatusCode> {
    if line == http_prefix() + st_ok() {
        Some(StatusCode::OK)
    } else if line == http_prefix() + st_created() {
        Some(StatusCode::Created)
    } else if line == http_prefix() + st_bad_request() {
        Some(StatusCode::BadRequest)
    } else if line == http_prefix() + st_not_found() {
        Some(StatusCode::NotFound)
    } else if line == http_prefix() + st_method_not_allowed() {
        Some(StatusCode::MethodNotAllowed)
    } else {
        None
    }
}

/// What parsing a response's wire bytes yields: the first line must be
/// one of the five fixed status lines, and the header lines run to the
/// first empty line; what follows the empty line is not examined.
pub open spec fn spec_parse_response(raw: Seq<u8>) -> Option<(StatusCode, Seq<(Seq<u8>, Seq<u8>)>)> {
    let lines = split2(raw, 13, 10);
    match spec_status_of_line(lines[0]) {
        None => None,
        Some(st) => match spec_fold_headers(lines.drop_first(), Seq::empty()) {
            None => None,
            Some(hs) => Some((st, hs)),
        },
    }
}

/// The full status line of a status: `HTTP/1.1 ` and the status line.
fn status_line_full(s: StatusCode) -> (v: Vec<u8>)
    ensures
        v@ == http_prefix() + spec_status_line(s),
{
    let mut v: Vec<u8> = Vec::new();
    v.extend_from_slice(http_prefix_bytes());
    v.extend_from_slice(s.status_line_bytes());
    proof {
        assert(v@ =~= http_prefix() + spec_status_line(s));
    }
    v
}

/// Parses a response's wire bytes back into its status and headers.
#[verifier::loop_isolation(false)]
pub fn parse_response(raw: &[u8]) -> (r: Option<(StatusCode, Headers)>)
    ensures
        match r {
            Some(p) => spec_parse_response(raw@) == Some((p.0, p.1@)) && p.1.wf(),
            None => spec_parse_response(raw@) is None,
        },
{
    let lines: Vec<Vec<u8>> = split_two(raw, 13, 10);
    let ghost lv = views_of(lines@);
    proof {
        lemma_split2_nonempty(raw@, 13, 10);
    }
    let start: &Vec<u8> = &lines[0];
    let status = if bytes_eq(start.as_slice(), status_line_full(StatusCode::OK).as_slice()) {
        StatusCode::OK
    } else if bytes_eq(start.as_slice(), status_line_full(StatusCode::Created).as_slice()) {
        StatusCode::Created
    } else if bytes_eq(start.as_slice(), status_line_full(StatusCode::BadRequest).as_slice()) {
        StatusCode::BadRequest
    } else if bytes_eq(start.as_slice(), status_line_full(StatusCode::NotFound).as_slice()) {
        StatusCode::NotFound
    } else if bytes_eq(
        start.as_slice(),
        status_line_full(StatusCode::MethodNotAllowed).as_slice(),
    ) {
        StatusCode::MethodNotAllowed
    } else {
        return None;
    };
    proof {
        assert(spec_status_of_line(lv[0]) == Some(status));
    }

    let ghost hl = lv.drop_first();
    let mut headers = Headers::new();
    let mut idx: usize = 1;
    proof {
        assert(hl.skip(0) =~= hl);
    }
    while idx < lines.len() && lines[idx].len() > 0
        invariant
            1 <= idx <= lines@.len(),
            headers.wf(),
            spec_fold_headers(hl, Seq::empty()) == spec_fold_headers(hl.skip(idx - 1), headers@),
        decreases lines@.len() - idx,
    {
        let line: &Vec<u8> = &lines[idx];
        proof {
            assert(line@ == lv[idx as int]);
            assert(hl.skip(idx - 1)[0] == hl[idx - 1]);
            assert(hl[idx - 1] == lv[idx as int]);
        }
        match find_two_from(line.as_slice(), 0, 58, 32) {
            None => {
                proof {
                    lemma_find2_absent(line@, 58, 32);
                }
                return None;
            },
            Some(p) => {
                proof {
                    lemma_find2_first(line@, 58, 32, p as int);
                }
                let name = subvec(line.as_slice(), 0, p);
                let value = subvec(line.as_slice(), p + 2, line.len());
                let ghost acc = headers@;
                headers.insert(name, value);
                proof {
                    assert(name@ =~= lv[idx as int].take(p as int));
                    assert(value@ =~= lv[idx as int].skip(p + 2));
                    assert(hl.skip(idx - 1).drop_first() =~= hl.skip(idx as int));
                    assert(spec_fold_headers(hl.skip(idx - 1), acc) == spec_fold_headers(
                        hl.skip(idx as int),
                        headers@,
                    ));
                }
            },
        }
        idx += 1;
    }
    proof {
        if idx < lines@.len() {
            assert(hl.skip(idx - 1)[0] == hl[idx - 1]);
            assert(lv[idx as int].len() == 0);
        }
        assert(spec_fold_headers(hl, Seq::empty()) == Some(headers@));
    }
    Some((status, headers))
}

/// The header lines of a header mapping, in order, without terminators.
pub open spec fn header_lines(hs: Seq<(Seq<u8>, Seq<u8>)>) -> Seq<Seq<u8>> {
    Seq::new(hs.len(), |i: int| hs[i].0 + colon_space() + hs[i].1)
}

/// A name/value entry that survives the wire unchanged: the name holds
/// neither the line terminator nor the `: ` separator, and the value
/// holds no line terminator.
pub open spec fn wire_safe_entry(n: Seq<u8>, v: Seq<u8>) -> bool {
    (forall|p: int| !pair_at(n, 13, 10, p)) && (forall|p: int| !pair_at(n, 58, 32, p)) && (forall|
        p: int,
    | !pair_at(v, 13, 10, p))
}

/// A header mapping that survives the wire unchanged: distinct names,
/// every entry wire-safe.
pub open spec fn wire_safe_headers(hs: Seq<(Seq<u8>, Seq<u8>)>) -> bool {
    unique_keys(hs) && forall|i: int| 0 <= i < hs.len() ==> wire_safe_entry(hs[i].0, hs[i].1)
}

/// A serialized header line holds no line terminator.
proof fn lemma_header_line_no_crlf(n: Seq<u8>, v: Seq<u8>)
    requires
        wire_safe_entry(n, v),
    ensures
        forall|p: int| !pair_at(n + colon_space() + v, 13, 10, p),
{
    let line = n + colon_space() + v;
    let nl = n.len() as int;
    assert forall|p: int| !pair_at(line, 13, 10, p) by {
        if 0 <= p && p + 1 < line.len() {
            if p + 1 < nl {
                assert(line[p] == n[p]);
                assert(line[p + 1] == n[p + 1]);
                assert(!pair_at(n, 13, 10, p));
            } else if p + 1 == nl {
                assert(line[p + 1] == 58);
            } else if p == nl {
                assert(line[p] == 58);
            } else if p == nl + 1 {
                assert(line[p] == 32);
            } else {
                assert(line[p] == v[p - nl - 2]);
                assert(line[p + 1] == v[p - nl - 1]);
                assert(!pair_at(v, 13, 10, p - nl - 2));
            }
        }
    }
}

/// Splitting serialized header lines followed by anything yields those
/// lines, then the split of the rest.
proof fn lemma_split_serialized_headers(hs: Seq<(Seq<u8>, Seq<u8>)>, tail: Seq<u8>)
    requires
        forall|i: int| 0 <= i < hs.len() ==> wire_safe_entry(hs[i].0, hs[i].1),
    ensures
        split2(spec_serialize_headers(hs) + tail, 13, 10) == header_lines(hs) + split2(
            tail,
            13,
            10,
        ),
    decreases hs.len(),
{
    if hs.len() == 0 {
        assert(spec_serialize_headers(hs) + tail =~= tail);
        assert(header_lines(hs) + split2(tail, 13, 10) =~= split2(tail, 13, 10));
    } else {
        let line0 = hs[0].0 + colon_space() + hs[0].1;
        let rest = spec_serialize_headers(hs.drop_first()) + tail;
        assert(wire_safe_entry(hs[0].0, hs[0].1));
        lemma_header_line_no_crlf(hs[0].0, hs[0].1);
        assert(spec_serialize_headers(hs) + tail =~= line0 + seq![13u8, 10u8] + rest);
        lemma_split2_step(line0, rest, 13, 10);
        assert forall|i: int|
            0 <= i < hs.drop_first().len() implies wire_safe_entry(
            hs.drop_first()[i].0,
            hs.drop_first()[i].1,
        ) by {
            assert(hs.drop_first()[i] == hs[i + 1]);
        }
        lemma_split_serialized_headers(hs.drop_first(), tail);
        assert(header_lines(hs.drop_first()) =~= header_lines(hs).drop_first());
        assert(split2(spec_serialize_headers(hs) + tail, 13, 10) =~= header_lines(hs) + split2(
            tail,
            13,
            10,
        ));
    }
}

/// Inserting every entry of `hs` into `acc`, in order.
pub open spec fn insert_all(acc: Seq<(Seq<u8>, Seq<u8>)>, hs: Seq<(Seq<u8>, Seq<u8>)>) -> Seq<
    (Seq<u8>, Seq<u8>),
>
    decreases hs.len(),
{
    if hs.len() == 0 {
        acc
    } else {
        insert_all(spec_insert(acc, hs[0].0, hs[0].1), hs.drop_first())
    }
}

/// Folding serialized header lines rebuilds exactly the inserts of the
/// entries, whatever follows the empty line.
proof fn lemma_fold_header_lines(
    hs: Seq<(Seq<u8>, Seq<u8>)>,
    rest: Seq<Seq<u8>>,
    acc: Seq<(Seq<u8>, Seq<u8>)>,
)
    requires
        forall|i: int| 0 <= i < hs.len() ==> wire_safe_entry(hs[i].0, hs[i].1),
    ensures
        spec_fold_headers(header_lines(hs) + seq![Seq::<u8>::empty()] + rest, acc) == Some(
            insert_all(acc, hs),
        ),
    decreases hs.len(),
{
    let lines = header_lines(hs) + seq![Seq::<u8>::empty()] + rest;
    if hs.len() == 0 {
        assert(lines[0].len() == 0);
    } else {
        let line0 = hs[0].0 + colon_space() + hs[0].1;
        assert(lines[0] == line0);
        assert(line0.len() >= 2);
        assert(wire_safe_entry(hs[0].0, hs[0].1));
        lemma_find2_concat(hs[0].0, hs[0].1, 58, 32);
        assert(find2(line0, 58, 32) == hs[0].0.len());
        let nl = hs[0].0.len() as int;
        assert(line0.take(nl) =~= hs[0].0);
        assert(line0.skip(nl + 2) =~= hs[0].1);
        assert forall|i: int|
            0 <= i < hs.drop_first().len() implies wire_safe_entry(
            hs.drop_first()[i].0,
            hs.drop_first()[i].1,
        ) by {
            assert(hs.drop_first()[i] == hs[i + 1]);
        }
        lemma_fold_header_lines(hs.drop_first(), rest, spec_insert(acc, hs[0].0, hs[0].1));
        assert(lines.drop_first() =~= header_lines(hs.drop_first()) + seq![Seq::<u8>::empty()]
            + rest);
    }
}

/// Inserting pairwise-distinct fresh entries appends them in order.
proof fn lemma_insert_all_id(acc: Seq<(Seq<u8>, Seq<u8>)>, hs: Seq<(Seq<u8>, Seq<u8>)>)
    requires
        unique_keys(acc + hs),
    ensures
        insert_all(acc, hs) == acc + hs,
    decreases hs.len(),
{
    if hs.len() == 0 {
        assert(acc + hs =~= acc);
    } else {
        let all = acc + hs;
        assert forall|j: int| 0 <= j < acc.len() implies acc[j].0 != hs[0].0 by {
            assert(all[j] == acc[j]);
            assert(all[acc.len() as int] == hs[0]);
        }
        crate::headers::lemma_insert_absent(acc, hs[0].0, hs[0].1);
        let acc2 = acc.push((hs[0].0, hs[0].1));
        assert(spec_insert(acc, hs[0].0, hs[0].1) == acc2);
        assert(acc2 + hs.drop_first() =~= acc + hs);
        lemma_insert_all_id(acc2, hs.drop_first());
        assert(insert_all(acc, hs) == insert_all(acc2, hs.drop_first()));
    }
}

/// No fixed status line holds the line terminator.
proof fn lemma_status_line_no_crlf(s: StatusCode)
    ensures
        forall|p: int| !pair_at(http_prefix() + spec_status_line(s), 13, 10, p),
{
    let sl = http_prefix() + spec_status_line(s);
    assert forall|p: int| !pair_at(sl, 13, 10, p) by {
        if 0 <= p && p + 1 < sl.len() {
            assert(sl[p] != 13);
        }
    }
}

/// Round trip across the protocol boundary: serializing a response and
/// parsing the resulting byte stream recovers the same status and the
/// same header mapping, whatever the body holds.
pub proof fn lemma_serialize_then_parse(v: RespView)
    requires
        wire_safe_headers(v.headers),
    ensures
        spec_parse_response(spec_serialize(v)) == Some((v.status, v.headers)),
{
    let sl = http_prefix() + spec_status_line(v.status);
    let hs = v.headers;
    let w = spec_serialize(v);
    let tail_bytes = seq![13u8, 10u8] + v.body;
    assert(w =~= sl + seq![13u8, 10u8] + (spec_serialize_headers(hs) + tail_bytes));
    lemma_status_line_no_crlf(v.status);
    lemma_split2_step(sl, spec_serialize_headers(hs) + tail_bytes, 13, 10);
    lemma_split_serialized_headers(hs, tail_bytes);
    assert(tail_bytes =~= Seq::<u8>::empty() + seq![13u8, 10u8] + v.body);
    lemma_split2_step(Seq::<u8>::empty(), v.body, 13, 10);
    let lines = split2(w, 13, 10);
    assert(lines =~= seq![sl] + header_lines(hs) + seq![Seq::<u8>::empty()] + split2(
        v.body,
        13,
        10,
    ));
    assert(lines[0] == sl);

    // The five status lines have pairwise different lengths, so the
    // first line names exactly `v.status`.
    assert(st_ok().len() == 6);
    assert(st_created().len() == 11);
    assert(st_bad_request().len() == 15);
    assert(st_not_found().len() == 13);
    assert(st_method_not_allowed().len() == 22);
    assert(spec_status_of_line(sl) == Some(v.status));

    assert(lines.drop_first() =~= header_lines(hs) + seq![Seq::<u8>::empty()] + split2(
        v.body,
        13,
        10,
    ));
    lemma_fold_header_lines(hs, split2(v.body, 13, 10), Seq::empty());
    assert(Seq::<(Seq<u8>, Seq<u8>)>::empty() + hs =~= hs);
    lemma_insert_all_id(Seq::empty(), hs);
}

} // verus!
