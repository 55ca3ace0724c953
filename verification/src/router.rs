//! The router: given a structured request, decides a handling strategy
//! per method and path and produces either a finished response or a
//! byte-store action. The byte store itself is an external collaborator:
//! the caller performs the read or write and hands the outcome to
//! [`finish_read`] or [`finish_write`] for the finished response.
use vstd::prelude::*;

use crate::bytes::{dec_rep, pair_at, starts_with, subvec};
use crate::headers::spec_lookup;
use crate::request::{spec_parse_request, HttpMethod, HttpRequest, ReqView};
use crate::response::{create_headers, resp_consistent, spec_parse_response, spec_serialize,
    HttpResponse, RespView, StatusCode};
use crate::tokens::{content_length_key, content_type_key, echo_prefix, echo_prefix_bytes,
    files_prefix, files_prefix_bytes, octet_stream, octet_stream_bytes, root_path,
    root_path_bytes, text_plain, text_plain_bytes, user_agent_key, user_agent_key_bytes,
    user_agent_path, user_agent_path_bytes};
use vstd::slice::slice_to_vec;

verus! {

/// What handling a request requires of the connection: a finished
/// response, a byte-store read, or a byte-store write.
pub enum RouteAction {
    /// The response is finished.
    Done(HttpResponse),
    /// Read the named file under the base directory, then [`finish_read`].
    ReadFile(Vec<u8>),
    /// Write the bytes to the named file under the base directory, then
    /// [`finish_write`].
    WriteFile(Vec<u8>, Vec<u8>),
}

/// Mathematical model of a routing decision.
pub enum PlanView {
    Done(RespView),
    ReadFile(Seq<u8>),
    WriteFile(Seq<u8>, Seq<u8>),
}

impl View for RouteAction {
    type V = PlanView;

    open spec fn view(&self) -> PlanView {
        match self {
            RouteAction::Done(r) => PlanView::Done(r@),
            RouteAction::ReadFile(n) => PlanView::ReadFile(n@),
            RouteAction::WriteFile(n, b) => PlanView::WriteFile(n@, b@),
        }
    }
}

/// A response with the given status, no headers, and an empty body.
pub open spec fn empty_resp(st: StatusCode) -> RespView {
    RespView { status: st, headers: Seq::empty(), body: Seq::empty() }
}

/// An `OK` response whose body is described by a fresh `Content-Type`
/// and `Content-Length` pair.
pub open spec fn ok_with(ct: Seq<u8>, body: Seq<u8>) -> RespView {
    RespView {
        status: StatusCode::OK,
        headers: seq![(content_type_key(), ct), (content_length_key(), dec_rep(body.len()))],
        body,
    }
}

/// The routing table, evaluated as an ordered match. `has_dir` says
/// whether a base directory was supplied; without one every file route
/// resolves to `NotFound`. Methods outside GET and POST are never
/// routed and answer `MethodNotAllowed`.
pub open spec fn spec_route(r: ReqView, has_dir: bool) -> PlanView {
    match r.method {
        HttpMethod::GET => {
            if r.path == root_path() {
                PlanView::Done(empty_resp(StatusCode::OK))
            } else if echo_prefix().is_prefix_of(r.path) {
                PlanView::Done(ok_with(text_plain(), r.path.skip(echo_prefix().len() as int)))
            } else if r.path == user_agent_path() {
                match spec_lookup(r.headers, user_agent_key()) {
                    Some(v) => PlanView::Done(ok_with(text_plain(), v)),
                    None => PlanView::Done(empty_resp(StatusCode::NotFound)),
                }
            } else if files_prefix().is_prefix_of(r.path) {
                if has_dir {
                    PlanView::ReadFile(r.path.skip(files_prefix().len() as int))
                } else {
                    PlanView::Done(empty_resp(StatusCode::NotFound))
                }
            } else {
                PlanView::Done(empty_resp(StatusCode::NotFound))
            }
        },
        HttpMethod::POST => {
            if files_prefix().is_prefix_of(r.path) {
                if has_dir {
                    PlanView::WriteFile(r.path.skip(files_prefix().len() as int), r.body)
                } else {
                    PlanView::Done(empty_resp(StatusCode::NotFound))
                }
            } else {
                PlanView::Done(empty_resp(StatusCode::NotFound))
            }
        },
        _ => PlanView::Done(empty_resp(StatusCode::MethodNotAllowed)),
    }
}

/// The finished response of a byte-store read: the file's bytes with
/// `application/octet-stream` content headers, or `NotFound` when the
/// read failed for any reason.
pub open spec fn spec_finish_read(outcome: Option<Seq<u8>>) -> RespView {
    match outcome {
        Some(data) => ok_with(octet_stream(), data),
        None => empty_resp(StatusCode::NotFound),
    }
}

/// The finished response of a byte-store write: `Created` on success,
/// `BadRequest` on failure.
pub open spec fn spec_finish_write(success: bool) -> RespView {
    if success {
        empty_resp(StatusCode::Created)
    } else {
        empty_resp(StatusCode::BadRequest)
    }
}

/// What a connection answers to its raw request bytes: `BadRequest` on
/// a parse failure, the routing decision otherwise.
pub open spec fn spec_handle(raw: Seq<u8>, has_dir: bool) -> PlanView {
    match spec_parse_request(raw) {
        None => PlanView::Done(empty_resp(StatusCode::BadRequest)),
        Some(rv) => spec_route(rv, has_dir),
    }
}

/// Handles a GET request per the routing table.
pub fn handle_get_method(request: &HttpRequest, has_dir: bool) -> (r: RouteAction)
    requires
        request@.method == HttpMethod::GET,
    ensures
        r@ == spec_route(request@, has_dir),
{
    let path = request.path.as_slice();
    if crate::bytes::bytes_eq(path, root_path_bytes()) {
        RouteAction::Done(HttpResponse::new())
    } else if starts_with(path, echo_prefix_bytes()) {
        let echo = subvec(path, 6, request.path.len());
        proof {
            assert(echo@ =~= request@.path.skip(6));
        }
        let headers = create_headers(text_plain_bytes(), echo.len() as u64);
        RouteAction::Done(HttpResponse::ok(headers, echo))
    } else if crate::bytes::bytes_eq(path, user_agent_path_bytes()) {
        match request.headers.get(user_agent_key_bytes()) {
            Some(user_agent) => {
                let body = slice_to_vec(user_agent.as_slice());
                let headers = create_headers(text_plain_bytes(), body.len() as u64);
                RouteAction::Done(HttpResponse::ok(headers, body))
            },
            None => RouteAction::Done(HttpResponse::not_found()),
        }
    } else if starts_with(path, files_prefix_bytes()) {
        if has_dir {
            let name = subvec(path, 7, request.path.len());
            proof {
                assert(name@ =~= request@.path.skip(7));
            }
            RouteAction::ReadFile(name)
        } else {
            RouteAction::Done(HttpResponse::not_found())
        }
    } else {
        RouteAction::Done(HttpResponse::not_found())
    }
}

/// Handles a POST request per the routing table.
pub fn handle_post_method(request: &HttpRequest, has_dir: bool) -> (r: RouteAction)
    requires
        request@.method == HttpMethod::POST,
    ensures
        r@ == spec_route(request@, has_dir),
{
    let path = request.path.as_slice();
    if starts_with(path, files_prefix_bytes()) {
        if has_dir {
            let name = subvec(path, 7, request.path.len());
            proof {
                assert(name@ =~= request@.path.skip(7));
            }
            let body = slice_to_vec(request.body.as_slice());
            RouteAction::WriteFile(name, body)
        } else {
            RouteAction::Done(HttpResponse::not_found())
        }
    } else {
        RouteAction::Done(HttpResponse::not_found())
    }
}

/// Routes a request: GET and POST go through the routing table; any
/// other method answers `MethodNotAllowed` without being routed.
pub fn route(request: &HttpRequest, has_dir: bool) -> (r: RouteAction)
    ensures
        r@ == spec_route(request@, has_dir),
{
    match request.method {
        HttpMethod::GET => handle_get_method(request, has_dir),
        HttpMethod::POST => handle_post_method(request, has_dir),
        _ => RouteAction::Done(HttpResponse::method_not_allowed()),
    }
}

/// Parses and routes one connection's raw request bytes; a parse
/// failure answers `BadRequest`.
pub fn handle_raw(raw: &[u8], has_dir: bool) -> (r: RouteAction)
    ensures
        r@ == spec_handle(raw@, has_dir),
{
    match HttpRequest::new(raw) {
        Ok(request) => route(&request, has_dir),
        Err(_) => RouteAction::Done(HttpResponse::bad_request()),
    }
}

/// Finishes a file read: the file's bytes with octet-stream content
/// headers, or `NotFound` when the read failed.
pub fn finish_read(outcome: Option<Vec<u8>>) -> (r: HttpResponse)
    ensures
        match outcome {
            Some(data) => r@ == spec_finish_read(Some(data@)),
            None => r@ == spec_finish_read(None),
        },
{
    match outcome {
        Some(data) => {
            let headers = create_headers(octet_stream_bytes(), data.len() as u64);
            HttpResponse::ok(headers, data)
        },
        None => HttpResponse::not_found(),
    }
}

/// Finishes a file write: `Created` on success, `BadRequest` on failure.
pub fn finish_write(success: bool) -> (r: HttpResponse)
    ensures
        r@ == spec_finish_write(success),
{
    if success {
        HttpResponse::created()
    } else {
        HttpResponse::bad_request()
    }
}

/// The status a routing decision terminates in, given the byte-store
/// outcome its action (if any) would see.
pub open spec fn plan_status(p: PlanView, read_outcome: Option<Seq<u8>>, write_ok: bool)
    -> StatusCode {
    match p {
        PlanView::Done(resp) => resp.status,
        PlanView::ReadFile(_) => spec_finish_read(read_outcome).status,
        PlanView::WriteFile(_, _) => spec_finish_write(write_ok).status,
    }
}

/// Handling is total: for every raw request and every byte-store
/// outcome, a connection's handling terminates in exactly one of the
/// five statuses.
pub proof fn lemma_handling_total(
    raw: Seq<u8>,
    has_dir: bool,
    read_outcome: Option<Seq<u8>>,
    write_ok: bool,
)
    ensures
        ({
            let st = plan_status(spec_handle(raw, has_dir), read_outcome, write_ok);
            st == StatusCode::OK || st == StatusCode::Created || st == StatusCode::NotFound
                || st == StatusCode::MethodNotAllowed || st == StatusCode::BadRequest
        }),
{
}

/// Methods outside GET and POST are never routed: they answer
/// `MethodNotAllowed`, whatever the path.
pub proof fn lemma_method_not_allowed(r: ReqView, has_dir: bool)
    requires
        r.method == HttpMethod::PUT || r.method == HttpMethod::DELETE,
    ensures
        spec_route(r, has_dir) == PlanView::Done(empty_resp(StatusCode::MethodNotAllowed)),
{
}

/// A response built by `ok_with` is consistent: its `Content-Type` is
/// present and its `Content-Length` is the body's length in decimal.
proof fn lemma_ok_with_consistent(ct: Seq<u8>, body: Seq<u8>)
    ensures
        resp_consistent(ok_with(ct, body)),
{
    let hs = ok_with(ct, body).headers;
    assert(content_type_key() != content_length_key()) by {
        assert(content_type_key()[8] == 84);
        assert(content_length_key()[8] == 76);
    }
    assert(spec_lookup(hs, content_type_key()) == Some(ct));
    let tail = seq![(content_length_key(), dec_rep(body.len()))];
    assert(hs.drop_first() =~= tail);
    assert(spec_lookup(tail, content_length_key()) == Some(dec_rep(body.len())));
    assert(spec_lookup(hs, content_length_key()) == spec_lookup(tail, content_length_key()));
}

/// Every response the handling constructs carries headers consistent
/// with its body: a non-empty body always comes with `Content-Type` and
/// a `Content-Length` holding its exact length.
pub proof fn lemma_responses_consistent(
    raw: Seq<u8>,
    has_dir: bool,
    read_outcome: Option<Seq<u8>>,
    write_ok: bool,
)
    ensures
        spec_handle(raw, has_dir) matches PlanView::Done(resp) ==> resp_consistent(resp),
        resp_consistent(spec_finish_read(read_outcome)),
        resp_consistent(spec_finish_write(write_ok)),
{
    match spec_parse_request(raw) {
        None => {},
        Some(rv) => {
            match rv.method {
                HttpMethod::GET => {
                    if rv.path == root_path() {
                    } else if echo_prefix().is_prefix_of(rv.path) {
                        lemma_ok_with_consistent(
                            text_plain(),
                            rv.path.skip(echo_prefix().len() as int),
                        );
                    } else if rv.path == user_agent_path() {
                        match spec_lookup(rv.headers, user_agent_key()) {
                            Some(v) => {
                                lemma_ok_with_consistent(text_plain(), v);
                            },
                            None => {},
                        }
                    }
                },
                _ => {},
            }
        },
    }
    match read_outcome {
        Some(data) => {
            lemma_ok_with_consistent(octet_stream(), data);
        },
        None => {},
    }
}

/// A sequence of ASCII digits holds neither the line terminator nor the
/// `: ` separator.
proof fn lemma_digits_wire_safe(v: Seq<u8>)
    requires
        forall|i: int| 0 <= i < v.len() ==> 48 <= #[trigger] v[i] <= 57,
    ensures
        forall|p: int| !pair_at(v, 13, 10, p),
        forall|p: int| !pair_at(v, 58, 32, p),
{
    assert forall|p: int| !pair_at(v, 13, 10, p) && !pair_at(v, 58, 32, p) by {
        if 0 <= p && p + 1 < v.len() {
            assert(48 <= v[p] <= 57);
        }
    }
}

/// The headers built by `ok_with` are wire-safe whenever the content
/// type is free of the line terminator: both names are fixed tokens,
/// and the length value is all digits.
proof fn lemma_ok_with_wire_safe(ct: Seq<u8>, body: Seq<u8>)
    requires
        forall|p: int| !pair_at(ct, 13, 10, p),
    ensures
        crate::response::wire_safe_headers(ok_with(ct, body).headers),
{
    let hs = ok_with(ct, body).headers;
    assert(content_type_key() != content_length_key()) by {
        assert(content_type_key()[8] == 84);
        assert(content_length_key()[8] == 76);
    }
    assert forall|p: int| !pair_at(content_type_key(), 13, 10, p) && !pair_at(
        content_type_key(),
        58,
        32,
        p,
    ) by {
        if 0 <= p && p + 1 < content_type_key().len() {
            assert(content_type_key()[p] != 13);
            assert(content_type_key()[p] != 58);
        }
    }
    assert forall|p: int| !pair_at(content_length_key(), 13, 10, p) && !pair_at(
        content_length_key(),
        58,
        32,
        p,
    ) by {
        if 0 <= p && p + 1 < content_length_key().len() {
            assert(content_length_key()[p] != 13);
            assert(content_length_key()[p] != 58);
        }
    }
    crate::bytes::lemma_dec_rep_digits(body.len());
    lemma_digits_wire_safe(dec_rep(body.len()));
}

/// Neither fixed media type holds the line terminator.
proof fn lemma_media_types_wire_safe()
    ensures
        forall|p: int| !pair_at(text_plain(), 13, 10, p),
        forall|p: int| !pair_at(octet_stream(), 13, 10, p),
{
    assert forall|p: int| !pair_at(text_plain(), 13, 10, p) by {
        if 0 <= p && p + 1 < text_plain().len() {
            assert(text_plain()[p] != 13);
        }
    }
    assert forall|p: int| !pair_at(octet_stream(), 13, 10, p) by {
        if 0 <= p && p + 1 < octet_stream().len() {
            assert(octet_stream()[p] != 13);
        }
    }
}

/// Every response the handling constructs has wire-safe headers, so by
/// the round-trip law its serialized byte stream parses back to exactly
/// its status and header mapping, whatever the body holds.
pub proof fn lemma_emitted_responses_round_trip(
    raw: Seq<u8>,
    has_dir: bool,
    read_outcome: Option<Seq<u8>>,
    write_ok: bool,
)
    ensures
        spec_handle(raw, has_dir) matches PlanView::Done(resp) ==> spec_parse_response(
            spec_serialize(resp),
        ) == Some((resp.status, resp.headers)),
        spec_parse_response(spec_serialize(spec_finish_read(read_outcome))) == Some(
            (spec_finish_read(read_outcome).status, spec_finish_read(read_outcome).headers),
        ),
        spec_parse_response(spec_serialize(spec_finish_write(write_ok))) == Some(
            (spec_finish_write(write_ok).status, spec_finish_write(write_ok).headers),
        ),
{
    lemma_media_types_wire_safe();
    match spec_parse_request(raw) {
        None => {},
        Some(rv) => {
            match rv.method {
                HttpMethod::GET => {
                    if rv.path == root_path() {
                    } else if echo_prefix().is_prefix_of(rv.path) {
                        lemma_ok_with_wire_safe(
                            text_plain(),
                            rv.path.skip(echo_prefix().len() as int),
                        );
                    } else if rv.path == user_agent_path() {
                        match spec_lookup(rv.headers, user_agent_key()) {
                            Some(v) => {
                                lemma_ok_with_wire_safe(text_plain(), v);
                            },
                            None => {},
                        }
                    }
                },
                _ => {},
            }
        },
    }
    match spec_handle(raw, has_dir) {
        PlanView::Done(resp) => {
            crate::response::lemma_serialize_then_parse(resp);
        },
        _ => {},
    }
    match read_outcome {
        Some(data) => {
            lemma_ok_with_wire_safe(octet_stream(), data);
        },
        None => {},
    }
    crate::response::lemma_serialize_then_parse(spec_finish_read(read_outcome));
    crate::response::lemma_serialize_then_parse(spec_finish_write(write_ok));
}

/// The store round trip preserves bytes at the protocol layer: a POST
/// to a file route hands the store exactly the request body, and a
/// successful read outcome is answered byte-for-byte as an `OK` body.
pub proof fn lemma_store_round_trip(r: ReqView, has_dir: bool, data: Seq<u8>)
    requires
        r.method == HttpMethod::POST,
        files_prefix().is_prefix_of(r.path),
        has_dir,
    ensures
        spec_route(r, has_dir) == PlanView::WriteFile(r.path.skip(files_prefix().len() as int), r.body),
        spec_finish_read(Some(data)).body == data,
        spec_finish_read(Some(data)).status == StatusCode::OK,
{
}

} // verus!
