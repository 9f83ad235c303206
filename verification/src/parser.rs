//! The request parser: request-line validation, header parsing, and the
//! splitting of the raw path into path, query parameters and body
//! parameters.

use vstd::prelude::*;
use crate::bytes::{
    ascii_bytes, bytes_eq, clone_vec, is_digit, lit_bytes, spec_find, spec_find2, spec_lines,
    spec_lower, spec_tokens, split_first, split_first2, split_lines, subvec, to_lower, tokenize,
    views,
};
use crate::codec::{spec_walk_params, walk_params};
use crate::http::HTTPRequest;

verus! {

/// Why request-line validation failed.
#[derive(Clone, Copy, PartialEq, Eq, Structural, Debug)]
pub enum ValidationError {
    /// The method is neither `GET` nor `POST`.
    InvalidMethod,
    /// The protocol token does not match `HTTP/<digit>.<digit>`.
    InvalidVersion,
    /// The path does not start with `/`.
    InvalidPath,
}

impl ValidationError {
    /// The fixed human-readable message for this failure.
    pub open spec fn spec_message(self) -> Seq<char> {
        match self {
            ValidationError::InvalidMethod => "Invalid request method"@,
            ValidationError::InvalidVersion => "Invalid HTTP version"@,
            ValidationError::InvalidPath => "Invalid request path"@,
        }
    }

    /// The fixed human-readable message as bytes.
    pub fn message(self) -> (r: Vec<u8>)
        ensures
            r@ == ascii_bytes(self.spec_message()),
    {
        match self {
            ValidationError::InvalidMethod => {
                proof {
                    reveal_strlit("Invalid request method");
                    assert(vstd::string::is_ascii("Invalid request method"));
                }
                lit_bytes("Invalid request method")
            },
            ValidationError::InvalidVersion => {
                proof {
                    reveal_strlit("Invalid HTTP version");
                    assert(vstd::string::is_ascii("Invalid HTTP version"));
                }
                lit_bytes("Invalid HTTP version")
            },
            ValidationError::InvalidPath => {
                proof {
                    reveal_strlit("Invalid request path");
                    assert(vstd::string::is_ascii("Invalid request path"));
                }
                lit_bytes("Invalid request path")
            },
        }
    }
}

/// The method is one of `GET` and `POST`.
pub open spec fn spec_method_ok(m: Seq<u8>) -> bool {
    m == ascii_bytes("GET"@) || m == ascii_bytes("POST"@)
}

/// The protocol token matches `HTTP/<digit>.<digit>`.
pub open spec fn spec_proto_ok(p: Seq<u8>) -> bool {
    p.len() == 8 && p.take(5) == ascii_bytes("HTTP/"@) && is_digit(p[5]) && p[6] == 46 && is_digit(
        p[7],
    )
}

/// The path starts with `/`.
pub open spec fn spec_path_ok(p: Seq<u8>) -> bool {
    p.len() > 0 && p[0] == 47
}

/// Token `i` of the whitespace-tokenized line, or the empty sequence when the
/// line has fewer tokens.
pub open spec fn spec_token_or_empty(line: Seq<u8>, i: int) -> Seq<u8> {
    let t = spec_tokens(line);
    if 0 <= i < t.len() {
        t[i]
    } else {
        Seq::empty()
    }
}

/// What validating a request line yields: the (method, path, protocol)
/// tokens when all three checks pass, otherwise the first failing check in
/// the order method, protocol, path.
pub open spec fn spec_validation(line: Seq<u8>) -> Result<
    (Seq<u8>, Seq<u8>, Seq<u8>),
    ValidationError,
> {
    let m = spec_token_or_empty(line, 0);
    let p = spec_token_or_empty(line, 1);
    let v = spec_token_or_empty(line, 2);
    if !spec_method_ok(m) {
        Err(ValidationError::InvalidMethod)
    } else if !spec_proto_ok(v) {
        Err(ValidationError::InvalidVersion)
    } else if !spec_path_ok(p) {
        Err(ValidationError::InvalidPath)
    } else {
        Ok((m, p, v))
    }
}

/// Validate a request line.  The first three whitespace-separated tokens are
/// taken as method, path and protocol (missing tokens count as empty); the
/// checks run in the order method, protocol, path, and the first failure is
/// returned.  On success the returned request holds exactly those tokens, is
/// marked valid, and has no headers or parameters yet.
pub fn validate_request(line: &Vec<u8>) -> (r: Result<HTTPRequest, ValidationError>)
    ensures
        match r {
            Ok(req) => {
                &&& spec_validation(line@) == Ok::<_, ValidationError>(
                    (req.method@, req.path@, req.proto@),
                )
                &&& req.headers@ == Map::<Seq<u8>, Seq<u8>>::empty()
                &&& req.params@ == Map::<Seq<u8>, Seq<u8>>::empty()
                &&& req.data@ == Map::<Seq<u8>, Seq<u8>>::empty()
                &&& req.headers.entries_seq() == Seq::<(Seq<u8>, Seq<u8>)>::empty()
                &&& req.valid == true
                &&& req.wf()
            },
            Err(e) => spec_validation(line@) == Err::<(Seq<u8>, Seq<u8>, Seq<u8>), _>(e),
        },
{
    let tokens = tokenize(line);
    let method = if tokens.len() > 0 {
        clone_vec(&tokens[0])
    } else {
        Vec::new()
    };
    let path = if tokens.len() > 1 {
        clone_vec(&tokens[1])
    } else {
        Vec::new()
    };
    let proto = if tokens.len() > 2 {
        clone_vec(&tokens[2])
    } else {
        Vec::new()
    };
    proof {
        assert(method@ == spec_token_or_empty(line@, 0));
        assert(path@ == spec_token_or_empty(line@, 1));
        assert(proto@ == spec_token_or_empty(line@, 2));
        reveal_strlit("GET");
        reveal_strlit("POST");
        reveal_strlit("HTTP/");
        assert(vstd::string::is_ascii("GET"));
        assert(vstd::string::is_ascii("POST"));
        assert(vstd::string::is_ascii("HTTP/"));
    }
    let get_lit = lit_bytes("GET");
    let post_lit = lit_bytes("POST");
    if !(bytes_eq(&method, &get_lit) || bytes_eq(&method, &post_lit)) {
        return Err(ValidationError::InvalidMethod);
    }
    let proto_ok = if proto.len() == 8 {
        let head = subvec(&proto, 0, 5);
        let http_lit = lit_bytes("HTTP/");
        let d1 = proto[5];
        let d2 = proto[7];
        bytes_eq(&head, &http_lit) && 48 <= d1 && d1 <= 57 && proto[6] == 46 && 48 <= d2 && d2
            <= 57
    } else {
        false
    };
    if !proto_ok {
        return Err(ValidationError::InvalidVersion);
    }
    if !(path.len() > 0 && path[0] == 47) {
        return Err(ValidationError::InvalidPath);
    }
    Ok(HTTPRequest::new(method, path, proto))
}

/// Validation accepts every well-formed request line: when the first three
/// whitespace-separated tokens are a supported method, a path starting with
/// `/` and a protocol of the form `HTTP/<digit>.<digit>`, validation
/// succeeds and yields exactly those three fields.
pub proof fn lemma_validation_accepts(line: Seq<u8>)
    requires
        spec_method_ok(spec_token_or_empty(line, 0)),
        spec_path_ok(spec_token_or_empty(line, 1)),
        spec_proto_ok(spec_token_or_empty(line, 2)),
    ensures
        spec_validation(line) == Ok::<_, ValidationError>(
            (
                spec_token_or_empty(line, 0),
                spec_token_or_empty(line, 1),
                spec_token_or_empty(line, 2),
            ),
        ),
{
}

/// The entry contributed by one header line: the lower-cased name before the
/// first `": "` and the value after it; `None` when the line holds no `": "`,
/// in which case the line is silently skipped.
pub open spec fn spec_header_entry(line: Seq<u8>) -> Option<(Seq<u8>, Seq<u8>)> {
    match spec_find2(line, 58, 32) {
        None => None,
        Some(i) => Some((spec_lower(line.take(i)), line.skip(i + 2))),
    }
}

/// The index of the first empty line at `from` or beyond, if any.
pub open spec fn spec_first_empty(lines: Seq<Seq<u8>>, from: int) -> Option<int>
    decreases lines.len() - from,
{
    if from < 0 || from >= lines.len() {
        None
    } else if lines[from].len() == 0 {
        Some(from)
    } else {
        spec_first_empty(lines, from + 1)
    }
}

/// The line index where the body begins: one past the first empty line after
/// the request line, or 0 when no empty line exists.
pub open spec fn spec_body_offset(lines: Seq<Seq<u8>>) -> int {
    match spec_first_empty(lines, 1) {
        Some(i) => i + 1,
        None => 0,
    }
}

/// The header lines end at the first empty line after the request line, or
/// at the end of the buffer.
pub open spec fn spec_headers_end(lines: Seq<Seq<u8>>) -> int {
    match spec_first_empty(lines, 1) {
        Some(i) => i,
        None => lines.len() as int,
    }
}

/// The header mapping after inserting the entries of `lines[from..end)` into
/// `m`, in order.
pub open spec fn spec_insert_headers(
    m: Map<Seq<u8>, Seq<u8>>,
    lines: Seq<Seq<u8>>,
    from: int,
    end: int,
) -> Map<Seq<u8>, Seq<u8>>
    decreases end - from,
{
    if from < 0 || from >= end || end > lines.len() {
        m
    } else {
        let m2 = match spec_header_entry(lines[from]) {
            None => m,
            Some(p) => m.insert(p.0, p.1),
        };
        spec_insert_headers(m2, lines, from + 1, end)
    }
}

/// The header mapping after parsing a whole buffer: the lines from the
/// second up to the first empty one, inserted into `m` in order.
pub open spec fn spec_parse_headers(m: Map<Seq<u8>, Seq<u8>>, lines: Seq<Seq<u8>>) -> Map<
    Seq<u8>,
    Seq<u8>,
> {
    spec_insert_headers(m, lines, 1, spec_headers_end(lines))
}

proof fn lemma_first_empty_found(lines: Seq<Seq<u8>>, from: int, i: int)
    requires
        0 <= from <= i < lines.len(),
        lines[i].len() == 0,
        forall|j: int| from <= j < i ==> (#[trigger] lines[j]).len() != 0,
    ensures
        spec_first_empty(lines, from) == Some(i),
    decreases i - from,
{
    if from < i {
        lemma_first_empty_found(lines, from + 1, i);
    }
}

proof fn lemma_first_empty_none(lines: Seq<Seq<u8>>, from: int)
    requires
        forall|j: int| from <= j < lines.len() ==> (#[trigger] lines[j]).len() != 0,
    ensures
        spec_first_empty(lines, from) is None,
    decreases lines.len() - from,
{
    if 0 <= from && from < lines.len() {
        lemma_first_empty_none(lines, from + 1);
    }
}

proof fn lemma_insert_headers_snoc(m: Map<Seq<u8>, Seq<u8>>, lines: Seq<Seq<u8>>, a: int, b: int)
    requires
        0 <= a <= b < lines.len(),
    ensures
        spec_insert_headers(m, lines, a, b + 1) == (match spec_header_entry(lines[b]) {
            None => spec_insert_headers(m, lines, a, b),
            Some(p) => spec_insert_headers(m, lines, a, b).insert(p.0, p.1),
        }),
    decreases b - a,
{
    let m2 = match spec_header_entry(lines[a]) {
        None => m,
        Some(p) => m.insert(p.0, p.1),
    };
    if a == b {
        assert(spec_insert_headers(m, lines, a, b + 1) == spec_insert_headers(m2, lines, a + 1, b + 1));
        assert(spec_insert_headers(m2, lines, a + 1, b + 1) == m2);
        assert(spec_insert_headers(m, lines, a, b) == m);
    } else {
        lemma_insert_headers_snoc(m2, lines, a + 1, b);
        assert(spec_insert_headers(m, lines, a, b + 1) == spec_insert_headers(m2, lines, a + 1, b + 1));
        assert(spec_insert_headers(m, lines, a, b) == spec_insert_headers(m2, lines, a + 1, b));
    }
}

/// The header line's entry exists and carries key `k`.
pub open spec fn header_line_yields(line: Seq<u8>, k: Seq<u8>) -> bool {
    spec_header_entry(line) matches Some(e) && e.0 == k
}

proof fn lemma_first_empty_in_range(lines: Seq<Seq<u8>>, from: int)
    ensures
        spec_first_empty(lines, from) matches Some(i) ==> from <= i && i < lines.len(),
    decreases lines.len() - from,
{
    if 0 <= from && from < lines.len() && lines[from].len() != 0 {
        lemma_first_empty_in_range(lines, from + 1);
    }
}

proof fn lemma_insert_headers_keeps(
    m: Map<Seq<u8>, Seq<u8>>,
    lines: Seq<Seq<u8>>,
    a: int,
    b: int,
    k: Seq<u8>,
    v: Seq<u8>,
)
    requires
        b <= lines.len(),
        m.contains_key(k),
        m[k] == v,
        forall|j: int| a <= j < b ==> !(#[trigger] header_line_yields(lines[j], k)),
    ensures
        spec_insert_headers(m, lines, a, b).contains_key(k),
        spec_insert_headers(m, lines, a, b)[k] == v,
    decreases b - a,
{
    if 0 <= a && a < b {
        let m2 = match spec_header_entry(lines[a]) {
            None => m,
            Some(p) => m.insert(p.0, p.1),
        };
        assert(!header_line_yields(lines[a], k));
        lemma_insert_headers_keeps(m2, lines, a + 1, b, k, v);
    }
}

proof fn lemma_insert_headers_last_wins(
    m: Map<Seq<u8>, Seq<u8>>,
    lines: Seq<Seq<u8>>,
    from: int,
    end: int,
    i: int,
    k: Seq<u8>,
    v: Seq<u8>,
)
    requires
        0 <= from <= i < end <= lines.len(),
        spec_header_entry(lines[i]) == Some((k, v)),
        forall|j: int| i < j < end ==> !(#[trigger] header_line_yields(lines[j], k)),
    ensures
        spec_insert_headers(m, lines, from, end).contains_key(k),
        spec_insert_headers(m, lines, from, end)[k] == v,
    decreases i - from,
{
    let m2 = match spec_header_entry(lines[from]) {
        None => m,
        Some(p) => m.insert(p.0, p.1),
    };
    if from == i {
        lemma_insert_headers_keeps(m2, lines, from + 1, end, k, v);
    } else {
        lemma_insert_headers_last_wins(m2, lines, from + 1, end, i, k, v);
    }
}

/// Header keys are retrievable case-insensitively: a header line whose
/// lower-cased name is `k`, after which no further header line before the
/// blank line yields `k` again, leaves the parsed mapping holding exactly
/// its value under `k` -- whatever casing the header was sent under.  With a
/// later duplicate, last-write-wins applies instead.
pub proof fn lemma_header_retrievable(
    m0: Map<Seq<u8>, Seq<u8>>,
    lines: Seq<Seq<u8>>,
    i: int,
    k: Seq<u8>,
    v: Seq<u8>,
)
    requires
        1 <= i < spec_headers_end(lines),
        spec_header_entry(lines[i]) == Some((k, v)),
        forall|j: int|
            i < j < spec_headers_end(lines) ==> !(#[trigger] header_line_yields(lines[j], k)),
    ensures
        spec_parse_headers(m0, lines).contains_key(k),
        spec_parse_headers(m0, lines)[k] == v,
{
    lemma_first_empty_in_range(lines, 1);
    lemma_insert_headers_last_wins(m0, lines, 1, spec_headers_end(lines), i, k, v);
}

/// Parse header lines: from the second line on, stop at the first empty
/// line; split each line on the first `": "`, lower-case the name, insert it
/// with last-write-wins; skip lines without `": "`.  Returns the line index
/// where the body begins, or 0 when no empty line marks it.
pub fn parse_headers(request_buf: &Vec<u8>, request: &mut HTTPRequest) -> (r: usize)
    requires
        old(request).wf(),
    ensures
        final(request).wf(),
        final(request).headers@ == spec_parse_headers(
            old(request).headers@,
            spec_lines(request_buf@),
        ),
        r as int == spec_body_offset(spec_lines(request_buf@)),
        r as int <= spec_lines(request_buf@).len(),
        final(request).method == old(request).method,
        final(request).path == old(request).path,
        final(request).proto == old(request).proto,
        final(request).params == old(request).params,
        final(request).data == old(request).data,
        final(request).valid == old(request).valid,
{
    let lines = split_lines(request_buf);
    let ghost lv = spec_lines(request_buf@);
    let ghost m0 = request.headers@;
    let mut i: usize = 1;
    while i < lines.len()
        invariant
            1 <= i,
            i <= lv.len() || i == 1,
            lv == spec_lines(request_buf@),
            m0 == old(request).headers@,
            lv == views(lines@),
            lv.len() == lines@.len(),
            request.wf(),
            request.headers@ == spec_insert_headers(m0, lv, 1, i as int),
            forall|j: int| 1 <= j < i ==> (#[trigger] lv[j]).len() != 0,
            request.method == old(request).method,
            request.path == old(request).path,
            request.proto == old(request).proto,
            request.params == old(request).params,
            request.data == old(request).data,
            request.valid == old(request).valid,
        decreases lines@.len() - i,
    {
        let line = &lines[i];
        if line.len() == 0 {
            proof {
                assert(lv[i as int] == lines@[i as int]@);
                lemma_first_empty_found(lv, 1, i as int);
                assert(spec_first_empty(lv, 1) == Some(i as int));
                assert(spec_headers_end(lv) == i as int);
                assert(spec_body_offset(lv) == i as int + 1);
            }
            return i + 1;
        }
        match split_first2(line, 58, 32) {
            Some(kv) => {
                let (name, value) = kv;
                let lowered = to_lower(&name);
                request.headers.insert(lowered, value);
                proof {
                    lemma_insert_headers_snoc(m0, lv, 1, i as int);
                }
            },
            None => {
                proof {
                    lemma_insert_headers_snoc(m0, lv, 1, i as int);
                }
            },
        }
        i = i + 1;
    }
    proof {
        lemma_first_empty_none(lv, 1);
        if lv.len() == 0 {
            assert(spec_insert_headers(m0, lv, 1, 1) == m0);
            assert(spec_insert_headers(m0, lv, 1, spec_headers_end(lv)) == m0);
        }
    }
    0
}

/// The raw path split on the first `?`: the stored path and the raw query
/// string (empty when no `?` occurs).
pub open spec fn spec_split_path(p: Seq<u8>) -> (Seq<u8>, Seq<u8>) {
    match spec_find(p, 63) {
        None => (p, Seq::empty()),
        Some(i) => (p.take(i), p.skip(i + 1)),
    }
}

/// The query string with an optional fragment stripped: everything before
/// the first `#`.
pub open spec fn spec_query_part(q: Seq<u8>) -> Seq<u8> {
    match spec_find(q, 35) {
        None => q,
        Some(i) => q.take(i),
    }
}

/// For a raw path holding a `?`, the stored path is exactly what stands
/// before the first `?`, and the raw query is everything after it; neither
/// the query nor a fragment reaches the stored path.
pub proof fn lemma_query_split(p: Seq<u8>, i: int)
    requires
        spec_find(p, 63) == Some(i),
    ensures
        0 <= i < p.len(),
        spec_split_path(p).0 == p.take(i),
        spec_split_path(p).1 == p.skip(i + 1),
{
    crate::bytes::lemma_find(p, 63);
}

/// With a `#` in the raw query, everything from the `#` on is discarded
/// before the query is decoded.
pub proof fn lemma_fragment_dropped(q: Seq<u8>, i: int)
    requires
        spec_find(q, 35) == Some(i),
    ensures
        0 <= i < q.len(),
        spec_query_part(q) == q.take(i),
{
    crate::bytes::lemma_find(q, 35);
}

/// Header keys are case-insensitive: the key stored for a header line is the
/// ASCII lower-casing of the name as it was sent, so a header sent under any
/// casing is retrievable under the lower-cased key.
pub proof fn lemma_header_key_lowercased(line: Seq<u8>, i: int)
    requires
        spec_find2(line, 58, 32) == Some(i),
    ensures
        spec_header_entry(line) == Some((spec_lower(line.take(i)), line.skip(i + 2))),
        spec_lower(spec_lower(line.take(i))) == spec_lower(line.take(i)),
{
    let k = spec_lower(line.take(i));
    assert(spec_lower(k) =~= k);
}

/// Split the stored path on the first `?`, drop a `#` fragment from the
/// query, decode the query into the query parameters and the body into the
/// body parameters.
pub fn parse_request(request: &mut HTTPRequest, body: &Vec<u8>)
    requires
        old(request).wf(),
    ensures
        final(request).wf(),
        final(request).path@ == spec_split_path(old(request).path@).0,
        final(request).params@ == spec_walk_params(
            old(request).params@,
            spec_query_part(spec_split_path(old(request).path@).1),
        ),
        final(request).data@ == spec_walk_params(old(request).data@, body@),
        final(request).method == old(request).method,
        final(request).proto == old(request).proto,
        final(request).headers == old(request).headers,
        final(request).valid == old(request).valid,
{
    let mut params: Vec<u8> = Vec::new();
    match split_first(&request.path, 63) {
        Some(pq) => {
            let (p, q) = pq;
            request.path = p;
            params = q;
        },
        None => {
            proof {
                assert(params@ =~= spec_split_path(request.path@).1);
            }
        },
    }
    match split_first(&params, 35) {
        Some(qf) => {
            params = qf.0;
        },
        None => {},
    }
    walk_params(&params, &mut request.params);
    walk_params(body, &mut request.data);
}

} // verus!
