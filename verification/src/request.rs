//! The request side of the protocol: the closed set of methods, the
//! structured request, and the parser that turns the raw bytes read from
//! a connection into one.
//!
//! The wire form is a start line `<method> <path> ...`, then header
//! lines `<name>: <value>` up to the first empty line, all separated by
//! `\r\n`; every line after the first empty line is body content and
//! contributes its bytes plus one newline byte. Malformed input is
//! reported as a typed parse failure, never a panic.
use vstd::prelude::*;

use crate::bytes::{
    byte_at, find1, find2, find_byte_from, find_two_from, lemma_find1_absent, lemma_find1_first,
    lemma_find2_absent, lemma_find2_first, lemma_split2_nonempty, pair_at, split2, split_two,
    subvec, views_of,
};
use crate::bytes::bytes_eq;
use crate::headers::{spec_insert, Headers};
use crate::tokens::{m_delete, m_delete_bytes, m_get, m_get_bytes, m_post, m_post_bytes, m_put,
    m_put_bytes};

verus! {

/// The closed set of request methods.
#[derive(Clone, Copy, Debug, PartialEq, Eq, Structural)]
pub enum HttpMethod {
    GET,
    POST,
    PUT,
    DELETE,
}

/// The method named by a token, if it names one.
pub open spec fn spec_method_of(s: Seq<u8>) -> Option<HttpMethod> {
    if s == m_get() {
        Some(HttpMethod::GET)
    } else if s == m_post() {
        Some(HttpMethod::POST)
    } else if s == m_put() {
        Some(HttpMethod::PUT)
    } else if s == m_delete() {
        Some(HttpMethod::DELETE)
    } else {
        None
    }
}

impl HttpMethod {
    /// Reads a method token; an unrecognized token is a parse failure
    /// of the caller, not a default.
    pub fn from_str(s: &[u8]) -> (r: Option<HttpMethod>)
        ensures
            r == spec_method_of(s@),
    {
        if bytes_eq(s, m_get_bytes()) {
            Some(HttpMethod::GET)
        } else if bytes_eq(s, m_post_bytes()) {
            Some(HttpMethod::POST)
        } else if bytes_eq(s, m_put_bytes()) {
            Some(HttpMethod::PUT)
        } else if bytes_eq(s, m_delete_bytes()) {
            Some(HttpMethod::DELETE)
        } else {
            None
        }
    }
}

/// Why a request failed to parse.
#[derive(Clone, Copy, Debug, PartialEq, Eq, Structural)]
pub enum ParseError {
    /// The start line holds no space, so it has no path token.
    BadStartLine,
    /// The method token names no supported method.
    UnknownMethod,
    /// A header line holds no `: ` separator.
    MalformedHeader,
}

/// Mathematical model of a request.
pub struct ReqView {
    pub method: HttpMethod,
    pub path: Seq<u8>,
    pub headers: Seq<(Seq<u8>, Seq<u8>)>,
    pub body: Seq<u8>,
}

/// Index of the first empty line, or `lines.len()` when none is empty.
pub open spec fn first_blank(lines: Seq<Seq<u8>>) -> int
    decreases lines.len(),
{
    if lines.len() == 0 {
        0
    } else if lines[0].len() == 0 {
        0
    } else {
        1 + first_blank(lines.drop_first())
    }
}

/// Body reconstruction: each line contributes its bytes plus one
/// newline byte.
pub open spec fn spec_join(lines: Seq<Seq<u8>>) -> Seq<u8>
    decreases lines.len(),
{
    if lines.len() == 0 {
        Seq::empty()
    } else {
        lines[0] + seq![10u8] + spec_join(lines.drop_first())
    }
}

/// Folds header lines into `acc` until the first empty line or the end,
/// splitting each at the first `: `; a line without `: ` fails.
pub open spec fn spec_fold_headers(lines: Seq<Seq<u8>>, acc: Seq<(Seq<u8>, Seq<u8>)>) -> Option<
    Seq<(Seq<u8>, Seq<u8>)>,
>
    decreases lines.len(),
{
    if lines.len() == 0 || lines[0].len() == 0 {
        Some(acc)
    } else {
        let i = find2(lines[0], 58, 32);
        if i < 0 {
            None
        } else {
            spec_fold_headers(
                lines.drop_first(),
                spec_insert(acc, lines[0].take(i), lines[0].skip(i + 2)),
            )
        }
    }
}

/// What parsing a raw request yields: the lines are the input split on
/// `\r\n`; the start line must hold a space, the token before it a
/// supported method, and the token after it (up to the next space or the
/// line's end) is the path; header lines run to the first empty line;
/// the lines after it, joined with one newline byte each, are the body.
pub open spec fn spec_parse_request(raw: Seq<u8>) -> Option<ReqView> {
    let lines = split2(raw, 13, 10);
    let start = lines[0];
    let i = find1(start, 32);
    if i < 0 {
        None
    } else {
        let rest = start.skip(i + 1);
        let j = find1(rest, 32);
        let path = if j < 0 {
            rest
        } else {
            rest.take(j)
        };
        match spec_method_of(start.take(i)) {
            None => None,
            Some(m) => {
                let hl = lines.drop_first();
                match spec_fold_headers(hl, Seq::empty()) {
                    None => None,
                    Some(hs) => {
                        let b = first_blank(hl);
                        let body = if b >= hl.len() {
                            Seq::<u8>::empty()
                        } else {
                            spec_join(hl.skip(b + 1))
                        };
                        Some(ReqView { method: m, path, headers: hs, body })
                    },
                }
            },
        }
    }
}

/// The failure reported when parsing yields nothing.
pub open spec fn spec_parse_error(raw: Seq<u8>) -> ParseError {
    let lines = split2(raw, 13, 10);
    let start = lines[0];
    let i = find1(start, 32);
    if i < 0 {
        ParseError::BadStartLine
    } else if spec_method_of(start.take(i)) is None {
        ParseError::UnknownMethod
    } else {
        ParseError::MalformedHeader
    }
}

/// A structured request: method, raw path, header mapping, body bytes.
pub struct HttpRequest {
    pub method: HttpMethod,
    pub path: Vec<u8>,
    pub headers: Headers,
    pub body: Vec<u8>,
}

impl View for HttpRequest {
    type V = ReqView;

    open spec fn view(&self) -> ReqView {
        ReqView {
            method: self.method,
            path: self.path@,
            headers: self.headers@,
            body: self.body@,
        }
    }
}

/// When all of `lines[..m]` are nonempty and `lines[m]` (if it exists)
/// is empty, the first empty line stands at `m`.
proof fn lemma_first_blank_at(lines: Seq<Seq<u8>>, m: int)
    requires
        0 <= m <= lines.len(),
        forall|j: int| 0 <= j < m ==> lines[j].len() != 0,
        m < lines.len() ==> lines[m].len() == 0,
    ensures
        first_blank(lines) == m,
    decreases m,
{
    if lines.len() == 0 {
    } else if m == 0 {
    } else {
        assert(lines[0].len() != 0);
        lemma_first_blank_at(lines.drop_first(), m - 1);
    }
}

impl HttpRequest {
    /// The header names are pairwise distinct.
    pub open spec fn wf(&self) -> bool {
        self.headers.wf()
    }

    /// Parses the raw bytes of one connection's request.
    #[verifier::loop_isolation(false)]
    pub fn new(raw: &[u8]) -> (r: Result<HttpRequest, ParseError>)
        ensures
            match r {
                Ok(req) => spec_parse_request(raw@) == Some(req@) && req.wf(),
                Err(e) => spec_parse_request(raw@) is None && e == spec_parse_error(raw@),
            },
    {
        let lines: Vec<Vec<u8>> = split_two(raw, 13, 10);
        let ghost lv = views_of(lines@);
        proof {
            lemma_split2_nonempty(raw@, 13, 10);
        }
        let start: &Vec<u8> = &lines[0];

        // Start line: the method token runs to the first space.
        let i = match find_byte_from(start.as_slice(), 0, 32) {
            None => {
                proof {
                    lemma_find1_absent(lv[0], 32);
                }
                return Err(ParseError::BadStartLine);
            },
            Some(i) => {
                proof {
                    lemma_find1_first(lv[0], 32, i as int);
                }
                i
            },
        };
        let method_tok = subvec(start.as_slice(), 0, i);
        proof {
            assert(method_tok@ =~= lv[0].take(i as int));
        }
        let method = match HttpMethod::from_str(method_tok.as_slice()) {
            None => {
                return Err(ParseError::UnknownMethod);
            },
            Some(m) => m,
        };

        // The path token runs from after that space to the next space
        // or the line's end.
        let ghost rest = lv[0].skip(i + 1);
        let path = match find_byte_from(start.as_slice(), i + 1, 32) {
            None => {
                proof {
                    assert forall|p: int| !byte_at(rest, 32, p) by {
                        if 0 <= p < rest.len() {
                            assert(rest[p] == lv[0][i + 1 + p]);
                        }
                    }
                    lemma_find1_absent(rest, 32);
                }
                let p = subvec(start.as_slice(), i + 1, start.len());
                proof {
                    assert(p@ =~= rest);
                }
                p
            },
            Some(j) => {
                proof {
                    assert(rest[j - i - 1] == lv[0][j as int]);
                    assert forall|p: int| 0 <= p < j - i - 1 implies !byte_at(rest, 32, p) by {
                        assert(rest[p] == lv[0][i + 1 + p]);
                    }
                    lemma_find1_first(rest, 32, j - i - 1);
                }
                let p = subvec(start.as_slice(), i + 1, j);
                proof {
                    assert(p@ =~= rest.take(j - i - 1));
                }
                p
            },
        };

        // Header lines run to the first empty line; each splits at the
        // first `: `.
        let ghost hl = lv.drop_first();
        let mut headers = Headers::new();
        let mut idx: usize = 1;
        proof {
            assert(hl.skip(0) =~= hl);
        }
        while idx < lines.len() && lines[idx].len() > 0
            invariant
                1 <= idx <= lines@.len(),
                views_of(lines@) == lv,
                lv.len() == lines@.len(),
                hl == lv.drop_first(),
                headers.wf(),
                forall|j: int| 1 <= j < idx ==> lv[j].len() != 0,
                spec_fold_headers(hl, Seq::empty()) == spec_fold_headers(
                    hl.skip(idx - 1),
                    headers@,
                ),
            decreases lines@.len() - idx,
        {
            let line: &Vec<u8> = &lines[idx];
            proof {
                assert(line@ == lv[idx as int]);
                assert(hl.skip(idx - 1)[0] == hl[idx - 1]);
                assert(hl[idx - 1] == lv[idx as int]);
            }
            match find_two_from(line.as_slice(), 0, 58, 32) {
                None => {
                    proof {
                        lemma_find2_absent(line@, 58, 32);
                    }
                    return Err(ParseError::MalformedHeader);
                },
                Some(p) => {
                    proof {
                        lemma_find2_first(line@, 58, 32, p as int);
                    }
                    let name = subvec(line.as_slice(), 0, p);
                    let value = subvec(line.as_slice(), p + 2, line.len());
                    let ghost acc = headers@;
                    headers.insert(name, value);
                    proof {
                        assert(name@ =~= lv[idx as int].take(p as int));
                        assert(value@ =~= lv[idx as int].skip(p + 2));
                        assert(hl.skip(idx - 1).drop_first() =~= hl.skip(idx as int));
                        assert(spec_fold_headers(hl.skip(idx - 1), acc) == spec_fold_headers(
                            hl.skip(idx as int),
                            headers@,
                        ));
                    }
                },
            }
            idx += 1;
        }
        proof {
            assert(hl.skip(idx - 1).len() == hl.len() - (idx - 1));
            if idx < lines@.len() {
                assert(hl.skip(idx - 1)[0] == hl[idx - 1]);
                assert(lv[idx as int].len() == 0);
            }
            assert(spec_fold_headers(hl, Seq::empty()) == Some(headers@));
            assert forall|j: int| 0 <= j < idx - 1 implies hl[j].len() != 0 by {
                assert(hl[j] == lv[j + 1]);
            }
            if idx < lines@.len() {
                assert(hl[idx - 1].len() == 0);
            }
            lemma_first_blank_at(hl, idx - 1);
        }

        // Body: the lines after the first empty line, each with one
        // newline byte appended.
        let mut body: Vec<u8> = Vec::new();
        if idx < lines.len() {
            let ghost bl = hl.skip(idx as int);
            let mut k: usize = idx + 1;
            proof {
                assert(bl.skip(0) =~= bl);
            }
            while k < lines.len()
                invariant
                    idx + 1 <= k <= lines@.len(),
                    views_of(lines@) == lv,
                    lv.len() == lines@.len(),
                    bl == lv.drop_first().skip(idx as int),
                    bl.len() == lines@.len() - idx - 1,
                    body@ + spec_join(bl.skip(k - idx - 1)) == spec_join(bl),
                decreases lines@.len() - k,
            {
                let line: &Vec<u8> = &lines[k];
                let ghost pre = body@;
                body.extend_from_slice(line.as_slice());
                body.push(10);
                proof {
                    let m = k - idx - 1;
                    assert(bl.skip(m)[0] == bl[m]);
                    assert(bl[m] == lv.drop_first()[idx + m]);
                    assert(lv.drop_first()[idx + m] == lv[idx + m + 1]);
                    assert(bl.skip(m).drop_first() =~= bl.skip(m + 1));
                    assert(spec_join(bl.skip(m)) == bl[m] + seq![10u8] + spec_join(bl.skip(m + 1)));
                    assert(body@ =~= pre + lv[k as int] + seq![10u8]);
                    assert(body@ + spec_join(bl.skip(k - idx as int)) =~= spec_join(bl));
                }
                k += 1;
            }
            proof {
                assert(bl.skip(bl.len() as int).len() == 0);
                assert(body@ + spec_join(bl.skip(bl.len() as int)) =~= body@);
                assert(body@ == spec_join(bl));
            }
        }

        let req = HttpRequest { method, path, headers, body };
        proof {
            if idx < lines@.len() {
                assert(first_blank(hl) == idx - 1);
                assert(hl.skip(idx as int) == hl.skip(first_blank(hl) + 1));
            }
            assert(spec_parse_request(raw@) == Some(req@));
        }
        Ok(req)
    }
}

} // verus!
