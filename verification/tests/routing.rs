use httpwire::response::StatusCode;
use httpwire::router::{finish_read, finish_write, handle_raw, RouteAction};

fn done(action: RouteAction) -> httpwire::response::HttpResponse {
    match action {
        RouteAction::Done(resp) => resp,
        _ => panic!("expected a finished response"),
    }
}

#[test]
fn echo_route_returns_suffix_with_content_headers() {
    let resp = done(handle_raw(b"GET /echo/hello HTTP/1.1\r\n\r\n", false));
    assert_eq!(resp.status(), StatusCode::OK);
    assert_eq!(resp.body().as_slice(), b"hello");
    assert_eq!(
        resp.headers().get(b"Content-Type").unwrap().as_slice(),
        b"text/plain"
    );
    assert_eq!(
        resp.headers().get(b"Content-Length").unwrap().as_slice(),
        b"5"
    );
}

#[test]
fn root_route_returns_ok_with_empty_body() {
    let resp = done(handle_raw(b"GET / HTTP/1.1\r\n\r\n", false));
    assert_eq!(resp.status(), StatusCode::OK);
    assert!(resp.body().is_empty());
    assert_eq!(resp.headers().len(), 0);
}

#[test]
fn unknown_path_returns_not_found() {
    let resp = done(handle_raw(b"GET /nonexistent HTTP/1.1\r\n\r\n", false));
    assert_eq!(resp.status(), StatusCode::NotFound);
}

#[test]
fn user_agent_route_echoes_header_value() {
    let resp = done(handle_raw(
        b"GET /user-agent HTTP/1.1\r\nHost: localhost\r\nUser-Agent: foo\r\n\r\n",
        false,
    ));
    assert_eq!(resp.status(), StatusCode::OK);
    assert_eq!(resp.body().as_slice(), b"foo");
    assert_eq!(
        resp.headers().get(b"Content-Length").unwrap().as_slice(),
        b"3"
    );
    assert_eq!(
        resp.headers().get(b"Content-Type").unwrap().as_slice(),
        b"text/plain"
    );
}

#[test]
fn user_agent_route_without_header_returns_not_found() {
    let resp = done(handle_raw(b"GET /user-agent HTTP/1.1\r\nHost: localhost\r\n\r\n", false));
    assert_eq!(resp.status(), StatusCode::NotFound);
}

#[test]
fn put_and_delete_return_method_not_allowed_for_any_path() {
    for raw in [
        b"PUT /anything HTTP/1.1\r\n\r\n".as_slice(),
        b"DELETE /anything HTTP/1.1\r\n\r\n".as_slice(),
        b"PUT / HTTP/1.1\r\n\r\n".as_slice(),
        b"DELETE /files/x HTTP/1.1\r\n\r\n".as_slice(),
    ] {
        let resp = done(handle_raw(raw, true));
        assert_eq!(resp.status(), StatusCode::MethodNotAllowed);
    }
}

#[test]
fn unknown_method_returns_bad_request() {
    let resp = done(handle_raw(b"PATCH / HTTP/1.1\r\n\r\n", false));
    assert_eq!(resp.status(), StatusCode::BadRequest);
}

#[test]
fn start_line_without_space_returns_bad_request() {
    let resp = done(handle_raw(b"nonsense\r\n\r\n", false));
    assert_eq!(resp.status(), StatusCode::BadRequest);
}

#[test]
fn malformed_header_line_returns_bad_request() {
    let resp = done(handle_raw(b"GET / HTTP/1.1\r\nNoSeparatorHere\r\n\r\n", false));
    assert_eq!(resp.status(), StatusCode::BadRequest);
}

#[test]
fn file_routes_without_base_directory_return_not_found() {
    let get = done(handle_raw(b"GET /files/test.txt HTTP/1.1\r\n\r\n", false));
    assert_eq!(get.status(), StatusCode::NotFound);
    let post = done(handle_raw(b"POST /files/test.txt HTTP/1.1\r\n\r\nbody", false));
    assert_eq!(post.status(), StatusCode::NotFound);
}

#[test]
fn file_read_route_asks_the_store_for_the_named_file() {
    match handle_raw(b"GET /files/test.txt HTTP/1.1\r\n\r\n", true) {
        RouteAction::ReadFile(name) => assert_eq!(name.as_slice(), b"test.txt"),
        _ => panic!("expected a read action"),
    }
}

#[test]
fn file_write_route_hands_the_store_the_request_body() {
    match handle_raw(b"POST /files/test.txt HTTP/1.1\r\n\r\nhello", true) {
        RouteAction::WriteFile(name, contents) => {
            assert_eq!(name.as_slice(), b"test.txt");
            assert_eq!(contents.as_slice(), b"hello\n");
        }
        _ => panic!("expected a write action"),
    }
}

#[test]
fn finish_read_wraps_file_bytes_in_ok_response() {
    let resp = finish_read(Some(b"data".to_vec()));
    assert_eq!(resp.status(), StatusCode::OK);
    assert_eq!(resp.body().as_slice(), b"data");
    assert_eq!(
        resp.headers().get(b"Content-Type").unwrap().as_slice(),
        b"application/octet-stream"
    );
    assert_eq!(
        resp.headers().get(b"Content-Length").unwrap().as_slice(),
        b"4"
    );
}

#[test]
fn finish_read_failure_returns_not_found() {
    let resp = finish_read(None);
    assert_eq!(resp.status(), StatusCode::NotFound);
}

#[test]
fn finish_write_maps_outcome_to_created_or_bad_request() {
    assert_eq!(finish_write(true).status(), StatusCode::Created);
    assert_eq!(finish_write(false).status(), StatusCode::BadRequest);
}

#[test]
fn post_then_get_round_trips_through_a_store() {
    let mut store: std::collections::HashMap<Vec<u8>, Vec<u8>> = std::collections::HashMap::new();
    let posted = match handle_raw(b"POST /files/test.txt HTTP/1.1\r\n\r\ncontent", true) {
        RouteAction::WriteFile(name, contents) => {
            store.insert(name, contents.clone());
            contents
        }
        _ => panic!("expected a write action"),
    };
    let resp = match handle_raw(b"GET /files/test.txt HTTP/1.1\r\n\r\n", true) {
        RouteAction::ReadFile(name) => finish_read(store.get(&name).cloned()),
        _ => panic!("expected a read action"),
    };
    assert_eq!(resp.status(), StatusCode::OK);
    assert_eq!(resp.body().as_slice(), posted.as_slice());
    assert_eq!(resp.body().as_slice(), b"content\n");
}

#[test]
fn every_handling_ends_in_one_of_the_five_statuses() {
    let inputs: [&[u8]; 7] = [
        b"GET / HTTP/1.1\r\n\r\n",
        b"GET /echo/x HTTP/1.1\r\n\r\n",
        b"POST /files/a HTTP/1.1\r\n\r\nbody",
        b"PUT /x HTTP/1.1\r\n\r\n",
        b"DELETE / HTTP/1.1\r\n\r\n",
        b"BOGUS / HTTP/1.1\r\n\r\n",
        b"\r\n\r\n",
    ];
    for raw in inputs {
        for has_dir in [false, true] {
            let resp = match handle_raw(raw, has_dir) {
                RouteAction::Done(resp) => resp,
                RouteAction::ReadFile(_) => finish_read(None),
                RouteAction::WriteFile(_, _) => finish_write(true),
            };
            let st = resp.status();
            assert!(matches!(
                st,
                StatusCode::OK
                    | StatusCode::Created
                    | StatusCode::NotFound
                    | StatusCode::MethodNotAllowed
                    | StatusCode::BadRequest
            ));
        }
    }
}
