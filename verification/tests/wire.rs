use httpwire::request::{HttpMethod, HttpRequest, ParseError};
use httpwire::response::{parse_response, HttpResponse, StatusCode};
use httpwire::router::{handle_raw, RouteAction};

fn done(action: RouteAction) -> HttpResponse {
    match action {
        RouteAction::Done(resp) => resp,
        _ => panic!("expected a finished response"),
    }
}

#[test]
fn parser_reads_method_path_headers_and_body() {
    let req = HttpRequest::new(
        b"POST /files/a.txt HTTP/1.1\r\nHost: localhost\r\nContent-Length: 11\r\n\r\nhello\r\nworld",
    )
    .unwrap();
    assert_eq!(req.method, HttpMethod::POST);
    assert_eq!(req.path.as_slice(), b"/files/a.txt");
    assert_eq!(req.headers.get(b"Host").unwrap().as_slice(), b"localhost");
    assert_eq!(req.headers.get(b"Content-Length").unwrap().as_slice(), b"11");
    assert_eq!(req.body.as_slice(), b"hello\nworld\n");
}

#[test]
fn parser_accepts_start_line_without_version() {
    let req = HttpRequest::new(b"GET /\r\n\r\n").unwrap();
    assert_eq!(req.method, HttpMethod::GET);
    assert_eq!(req.path.as_slice(), b"/");
}

#[test]
fn parser_keeps_header_names_as_cased_and_last_write_wins() {
    let req = HttpRequest::new(b"GET / HTTP/1.1\r\nx-key: one\r\nx-key: two\r\nX-Key: three\r\n\r\n")
        .unwrap();
    assert_eq!(req.headers.get(b"x-key").unwrap().as_slice(), b"two");
    assert_eq!(req.headers.get(b"X-Key").unwrap().as_slice(), b"three");
    assert_eq!(req.headers.get(b"x-KEY"), None);
}

#[test]
fn parser_splits_header_at_first_colon_space() {
    let req = HttpRequest::new(b"GET / HTTP/1.1\r\nVia: a: b\r\n\r\n").unwrap();
    assert_eq!(req.headers.get(b"Via").unwrap().as_slice(), b"a: b");
}

fn parse_err(raw: &[u8]) -> ParseError {
    match HttpRequest::new(raw) {
        Err(e) => e,
        Ok(_) => panic!("expected a parse failure"),
    }
}

#[test]
fn parser_reports_each_failure_as_its_own_error() {
    assert_eq!(parse_err(b"no-space-here\r\n\r\n"), ParseError::BadStartLine);
    assert_eq!(parse_err(b"FETCH / HTTP/1.1\r\n\r\n"), ParseError::UnknownMethod);
    assert_eq!(
        parse_err(b"GET / HTTP/1.1\r\nbroken\r\n\r\n"),
        ParseError::MalformedHeader
    );
}

#[test]
fn serializer_produces_exact_wire_bytes() {
    let resp = done(handle_raw(b"GET /echo/hello HTTP/1.1\r\n\r\n", false));
    assert_eq!(
        resp.as_bytes().as_slice(),
        b"HTTP/1.1 200 OK\r\nContent-Type: text/plain\r\nContent-Length: 5\r\n\r\nhello".as_slice()
    );
}

#[test]
fn serializer_of_empty_response_is_status_line_and_blank_line() {
    let resp = done(handle_raw(b"GET / HTTP/1.1\r\n\r\n", false));
    assert_eq!(resp.as_bytes().as_slice(), b"HTTP/1.1 200 OK\r\n\r\n".as_slice());
    let resp = done(handle_raw(b"GET /missing HTTP/1.1\r\n\r\n", false));
    assert_eq!(resp.as_bytes().as_slice(), b"HTTP/1.1 404 Not Found\r\n\r\n".as_slice());
}

#[test]
fn to_string_matches_the_wire_bytes_for_text_bodies() {
    let resp = done(handle_raw(b"GET /echo/abc HTTP/1.1\r\n\r\n", false));
    assert_eq!(
        resp.to_string(),
        "HTTP/1.1 200 OK\r\nContent-Type: text/plain\r\nContent-Length: 3\r\n\r\nabc"
    );
}

#[test]
fn each_status_has_its_fixed_status_line() {
    let cases = [
        (StatusCode::OK, b"HTTP/1.1 200 OK\r\n\r\n".as_slice()),
        (StatusCode::Created, b"HTTP/1.1 201 Created\r\n\r\n".as_slice()),
        (StatusCode::BadRequest, b"HTTP/1.1 400 Bad Request\r\n\r\n".as_slice()),
        (StatusCode::NotFound, b"HTTP/1.1 404 Not Found\r\n\r\n".as_slice()),
        (
            StatusCode::MethodNotAllowed,
            b"HTTP/1.1 405 Method Not Allowed\r\n\r\n".as_slice(),
        ),
    ];
    let builders: [fn() -> HttpResponse; 5] = [
        HttpResponse::new,
        HttpResponse::created,
        HttpResponse::bad_request,
        HttpResponse::not_found,
        HttpResponse::method_not_allowed,
    ];
    for ((status, wire), build) in cases.iter().zip(builders.iter()) {
        let resp = build();
        assert_eq!(resp.status(), *status);
        assert_eq!(resp.as_bytes().as_slice(), *wire);
    }
}

#[test]
fn reparsing_a_serialized_response_recovers_status_and_headers() {
    let resp = done(handle_raw(
        b"GET /user-agent HTTP/1.1\r\nUser-Agent: curl/8.0\r\n\r\n",
        false,
    ));
    let (status, headers) = parse_response(resp.as_bytes().as_slice()).unwrap();
    assert_eq!(status, resp.status());
    assert_eq!(headers.len(), resp.headers().len());
    assert_eq!(
        headers.get(b"Content-Type").unwrap().as_slice(),
        b"text/plain"
    );
    assert_eq!(headers.get(b"Content-Length").unwrap().as_slice(), b"8");
}

#[test]
fn reparsing_an_empty_body_response_recovers_status_and_headers() {
    let resp = done(handle_raw(b"GET / HTTP/1.1\r\n\r\n", false));
    let (status, headers) = parse_response(resp.as_bytes().as_slice()).unwrap();
    assert_eq!(status, StatusCode::OK);
    assert_eq!(headers.len(), 0);
}

#[test]
fn parse_response_rejects_an_unknown_status_line() {
    assert!(parse_response(b"HTTP/1.1 500 Oops\r\n\r\n").is_none());
    assert!(parse_response(b"junk").is_none());
}

#[test]
fn content_length_is_rendered_in_decimal() {
    let resp = done(handle_raw(b"GET /echo/ HTTP/1.1\r\n\r\n", false));
    assert_eq!(resp.headers().get(b"Content-Length").unwrap().as_slice(), b"0");
    let long = [b'a'; 137];
    let mut raw = b"GET /echo/".to_vec();
    raw.extend_from_slice(&long);
    raw.extend_from_slice(b" HTTP/1.1\r\n\r\n");
    let resp = done(handle_raw(&raw, false));
    assert_eq!(resp.headers().get(b"Content-Length").unwrap().as_slice(), b"137");
    assert_eq!(resp.body().len(), 137);
}
