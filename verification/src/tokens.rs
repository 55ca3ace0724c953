//! The fixed byte tokens of the wire protocol: method names, path
//! patterns, header names, media types, and the pieces of a status line.
//! Each token exists twice: a spec constant giving its bytes, and an
//! executable function proved to return exactly those bytes.
use vstd::prelude::*;

verus! {

use vstd::string::StringSliceAdditionalSpecFns;

/// The header separator `: ` (colon and space).
pub open spec fn colon_space() -> Seq<u8> {
    seq![58u8, 32]
}

/// The bytes of `: `.
pub fn colon_space_bytes() -> (r: &'static [u8])
    ensures
        r@ == colon_space(),
{
    let s = ": ";
    proof {
        reveal_strlit(": ");
        assert(vstd::utf8::is_ascii_chars(s@));
        vstd::string::is_ascii_spec_bytes(s);
        assert(s.spec_bytes() =~= colon_space());
    }
    s.as_bytes()
}

/// The method token `GET`.
pub open spec fn m_get() -> Seq<u8> {
    seq![71u8, 69, 84]
}

/// The bytes of `GET`.
pub fn m_get_bytes() -> (r: &'static [u8])
    ensures
        r@ == m_get(),
{
    let s = "GET";
    proof {
        reveal_strlit("GET");
        assert(vstd::utf8::is_ascii_chars(s@));
        vstd::string::is_ascii_spec_bytes(s);
        assert(s.spec_bytes() =~= m_get());
    }
    s.as_bytes()
}

/// The method token `POST`.
pub open spec fn m_post() -> Seq<u8> {
    seq![80u8, 79, 83, 84]
}

/// The bytes of `POST`.
pub fn m_post_bytes() -> (r: &'static [u8])
    ensures
        r@ == m_post(),
{
    let s = "POST";
    proof {
        reveal_strlit("POST");
        assert(vstd::utf8::is_ascii_chars(s@));
        vstd::string::is_ascii_spec_bytes(s);
        assert(s.spec_bytes() =~= m_post());
    }
    s.as_bytes()
}

/// The method token `PUT`.
pub open spec fn m_put() -> Seq<u8> {
    seq![80u8, 85, 84]
}

/// The bytes of `PUT`.
pub fn m_put_bytes() -> (r: &'static [u8])
    ensures
        r@ == m_put(),
{
    let s = "PUT";
    proof {
        reveal_strlit("PUT");
        assert(vstd::utf8::is_ascii_chars(s@));
        vstd::string::is_ascii_spec_bytes(s);
        assert(s.spec_bytes() =~= m_put());
    }
    s.as_bytes()
}

/// The method token `DELETE`.
pub open spec fn m_delete() -> Seq<u8> {
    seq![68u8, 69, 76, 69, 84, 69]
}

/// The bytes of `DELETE`.
pub fn m_delete_bytes() -> (r: &'static [u8])
    ensures
        r@ == m_delete(),
{
    let s = "DELETE";
    proof {
        reveal_strlit("DELETE");
        assert(vstd::utf8::is_ascii_chars(s@));
        vstd::string::is_ascii_spec_bytes(s);
        assert(s.spec_bytes() =~= m_delete());
    }
    s.as_bytes()
}

/// The status line `200 OK`.
pub open spec fn st_ok() -> Seq<u8> {
    seq![50u8, 48, 48, 32, 79, 75]
}

/// The bytes of `200 OK`.
pub fn st_ok_bytes() -> (r: &'static [u8])
    ensures
        r@ == st_ok(),
{
    let s = "200 OK";
    proof {
        reveal_strlit("200 OK");
        assert(vstd::utf8::is_ascii_chars(s@));
        vstd::string::is_ascii_spec_bytes(s);
        assert(s.spec_bytes() =~= st_ok());
    }
    s.as_bytes()
}

/// The status line `201 Created`.
pub open spec fn st_created() -> Seq<u8> {
    seq![50u8, 48, 49, 32, 67, 114, 101, 97, 116, 101, 100]
}

/// The bytes of `201 Created`.
pub fn st_created_bytes() -> (r: &'static [u8])
    ensures
        r@ == st_created(),
{
    let s = "201 Created";
    proof {
        reveal_strlit("201 Created");
        assert(vstd::utf8::is_ascii_chars(s@));
        vstd::string::is_ascii_spec_bytes(s);
        assert(s.spec_bytes() =~= st_created());
    }
    s.as_bytes()
}

/// The status line `400 Bad Request`.
pub open spec fn st_bad_request() -> Seq<u8> {
    seq![52u8, 48, 48, 32, 66, 97, 100, 32, 82, 101, 113, 117, 101, 115, 116]
}

/// The bytes of `400 Bad Request`.
pub fn st_bad_request_bytes() -> (r: &'static [u8])
    ensures
        r@ == st_bad_request(),
{
    let s = "400 Bad Request";
    proof {
        reveal_strlit("400 Bad Request");
        assert(vstd::utf8::is_ascii_chars(s@));
        vstd::string::is_ascii_spec_bytes(s);
        assert(s.spec_bytes() =~= st_bad_request());
    }
    s.as_bytes()
}

/// The status line `404 Not Found`.
pub open spec fn st_not_found() -> Seq<u8> {
    seq![52u8, 48, 52, 32, 78, 111, 116, 32, 70, 111, 117, 110, 100]
}

/// The bytes of `404 Not Found`.
pub fn st_not_found_bytes() -> (r: &'static [u8])
    ensures
        r@ == st_not_found(),
{
    let s = "404 Not Found";
    proof {
        reveal_strlit("404 Not Found");
        assert(vstd::utf8::is_ascii_chars(s@));
        vstd::string::is_ascii_spec_bytes(s);
        assert(s.spec_bytes() =~= st_not_found());
    }
    s.as_bytes()
}

/// The status line `405 Method Not Allowed`.
pub open spec fn st_method_not_allowed() -> Seq<u8> {
    seq![52u8, 48, 53, 32, 77, 101, 116, 104, 111, 100, 32, 78, 111, 116, 32, 65, 108, 108, 111, 119, 101, 100]
}

/// The bytes of `405 Method Not Allowed`.
pub fn st_method_not_allowed_bytes() -> (r: &'static [u8])
    ensures
        r@ == st_method_not_allowed(),
{
    let s = "405 Method Not Allowed";
    proof {
        reveal_strlit("405 Method Not Allowed");
        assert(vstd::utf8::is_ascii_chars(s@));
        vstd::string::is_ascii_spec_bytes(s);
        assert(s.spec_bytes() =~= st_method_not_allowed());
    }
    s.as_bytes()
}

/// The version-and-space prefix `HTTP/1.1 ` of every status line.
pub open spec fn http_prefix() -> Seq<u8> {
    seq![72u8, 84, 84, 80, 47, 49, 46, 49, 32]
}

/// The bytes of `HTTP/1.1 `.
pub fn http_prefix_bytes() -> (r: &'static [u8])
    ensures
        r@ == http_prefix(),
{
    let s = "HTTP/1.1 ";
    proof {
        reveal_strlit("HTTP/1.1 ");
        assert(vstd::utf8::is_ascii_chars(s@));
        vstd::string::is_ascii_spec_bytes(s);
        assert(s.spec_bytes() =~= http_prefix());
    }
    s.as_bytes()
}

/// The root path `/`.
pub open spec fn root_path() -> Seq<u8> {
    seq![47u8]
}

/// The bytes of `/`.
pub fn root_path_bytes() -> (r: &'static [u8])
    ensures
        r@ == root_path(),
{
    let s = "/";
    proof {
        reveal_strlit("/");
        assert(vstd::utf8::is_ascii_chars(s@));
        vstd::string::is_ascii_spec_bytes(s);
        assert(s.spec_bytes() =~= root_path());
    }
    s.as_bytes()
}

/// The path prefix `/echo/`.
pub open spec fn echo_prefix() -> Seq<u8> {
    seq![47u8, 101, 99, 104, 111, 47]
}

/// The bytes of `/echo/`.
pub fn echo_prefix_bytes() -> (r: &'static [u8])
    ensures
        r@ == echo_prefix(),
{
    let s = "/echo/";
    proof {
        reveal_strlit("/echo/");
        assert(vstd::utf8::is_ascii_chars(s@));
        vstd::string::is_ascii_spec_bytes(s);
        assert(s.spec_bytes() =~= echo_prefix());
    }
    s.as_bytes()
}

/// The path `/user-agent`.
pub open spec fn user_agent_path() -> Seq<u8> {
    seq![47u8, 117, 115, 101, 114, 45, 97, 103, 101, 110, 116]
}

/// The bytes of `/user-agent`.
pub fn user_agent_path_bytes() -> (r: &'static [u8])
    ensures
        r@ == user_agent_path(),
{
    let s = "/user-agent";
    proof {
        reveal_strlit("/user-agent");
        assert(vstd::utf8::is_ascii_chars(s@));
        vstd::string::is_ascii_spec_bytes(s);
        assert(s.spec_bytes() =~= user_agent_path());
    }
    s.as_bytes()
}

/// The path prefix `/files/`.
pub open spec fn files_prefix() -> Seq<u8> {
    seq![47u8, 102, 105, 108, 101, 115, 47]
}

/// The bytes of `/files/`.
pub fn files_prefix_bytes() -> (r: &'static [u8])
    ensures
        r@ == files_prefix(),
{
    let s = "/files/";
    proof {
        reveal_strlit("/files/");
        assert(vstd::utf8::is_ascii_chars(s@));
        vstd::string::is_ascii_spec_bytes(s);
        assert(s.spec_bytes() =~= files_prefix());
    }
    s.as_bytes()
}

/// The header name `User-Agent`.
pub open spec fn user_agent_key() -> Seq<u8> {
    seq![85u8, 115, 101, 114, 45, 65, 103, 101, 110, 116]
}

/// The bytes of `User-Agent`.
pub fn user_agent_key_bytes() -> (r: &'static [u8])
    ensures
        r@ == user_agent_key(),
{
    let s = "User-Agent";
    proof {
        reveal_strlit("User-Agent");
        assert(vstd::utf8::is_ascii_chars(s@));
        vstd::string::is_ascii_spec_bytes(s);
        assert(s.spec_bytes() =~= user_agent_key());
    }
    s.as_bytes()
}

/// The header name `Content-Type`.
pub open spec fn content_type_key() -> Seq<u8> {
    seq![67u8, 111, 110, 116, 101, 110, 116, 45, 84, 121, 112, 101]
}

/// The bytes of `Content-Type`.
pub fn content_type_key_bytes() -> (r: &'static [u8])
    ensures
        r@ == content_type_key(),
{
    let s = "Content-Type";
    proof {
        reveal_strlit("Content-Type");
        assert(vstd::utf8::is_ascii_chars(s@));
        vstd::string::is_ascii_spec_bytes(s);
        assert(s.spec_bytes() =~= content_type_key());
    }
    s.as_bytes()
}

/// The header name `Content-Length`.
pub open spec fn content_length_key() -> Seq<u8> {
    seq![67u8, 111, 110, 116, 101, 110, 116, 45, 76, 101, 110, 103, 116, 104]
}

/// The bytes of `Content-Length`.
pub fn content_length_key_bytes() -> (r: &'static [u8])
    ensures
        r@ == content_length_key(),
{
    let s = "Content-Length";
    proof {
        reveal_strlit("Content-Length");
        assert(vstd::utf8::is_ascii_chars(s@));
        vstd::string::is_ascii_spec_bytes(s);
        assert(s.spec_bytes() =~= content_length_key());
    }
    s.as_bytes()
}

/// The media type `text/plain`.
pub open spec fn text_plain() -> Seq<u8> {
    seq![116u8, 101, 120, 116, 47, 112, 108, 97, 105, 110]
}

/// The bytes of `text/plain`.
pub fn text_plain_bytes() -> (r: &'static [u8])
    ensures
        r@ == text_plain(),
{
    let s = "text/plain";
    proof {
        reveal_strlit("text/plain");
        assert(vstd::utf8::is_ascii_chars(s@));
        vstd::string::is_ascii_spec_bytes(s);
        assert(s.spec_bytes() =~= text_plain());
    }
    s.as_bytes()
}

/// The media type `application/octet-stream`.
pub open spec fn octet_stream() -> Seq<u8> {
    seq![97u8, 112, 112, 108, 105, 99, 97, 116, 105, 111, 110, 47, 111, 99, 116, 101, 116, 45, 115, 116, 114, 101, 97, 109]
}

/// The bytes of `application/octet-stream`.
pub fn octet_stream_bytes() -> (r: &'static [u8])
    ensures
        r@ == octet_stream(),
{
    let s = "application/octet-stream";
    proof {
        reveal_strlit("application/octet-stream");
        assert(vstd::utf8::is_ascii_chars(s@));
        vstd::string::is_ascii_spec_bytes(s);
        assert(s.spec_bytes() =~= octet_stream());
    }
    s.as_bytes()
}

} // verus!
