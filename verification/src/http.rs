//! The HTTP data model: the closed set of statuses, the structured request,
//! the response, and the fixed error pages.

use vstd::prelude::*;
use crate::bytes::{ascii_bytes, lit_bytes, dec_bytes, spec_dec};
use crate::params::ByteMap;

verus! {

/// The closed set of response statuses the library produces.
#[derive(Clone, Copy, PartialEq, Eq, Structural, Debug)]
pub enum HTTPStatus {
    /// 200 OK
    Okay,
    /// 400 Bad Request
    BadRequest,
    /// 404 File Not Found
    FileNotFound,
    /// 405 Method Not Supported
    MethodNotSupported,
    /// 500 Internal Server Error
    InternalServerError,
}

impl HTTPStatus {
    /// The numeric status code.
    pub open spec fn spec_code(self) -> u16 {
        match self {
            HTTPStatus::Okay => 200,
            HTTPStatus::BadRequest => 400,
            HTTPStatus::FileNotFound => 404,
            HTTPStatus::MethodNotSupported => 405,
            HTTPStatus::InternalServerError => 500,
        }
    }

    /// The fixed reason phrase.
    pub open spec fn spec_reason(self) -> Seq<char> {
        match self {
            HTTPStatus::Okay => "OK"@,
            HTTPStatus::BadRequest => "Bad Request"@,
            HTTPStatus::FileNotFound => "File Not Found"@,
            HTTPStatus::MethodNotSupported => "Method Not Supported"@,
            HTTPStatus::InternalServerError => "Internal Server Error"@,
        }
    }

    /// The numeric status code.
    pub fn code(self) -> (r: u16)
        ensures
            r == self.spec_code(),
    {
        match self {
            HTTPStatus::Okay => 200,
            HTTPStatus::BadRequest => 400,
            HTTPStatus::FileNotFound => 404,
            HTTPStatus::MethodNotSupported => 405,
            HTTPStatus::InternalServerError => 500,
        }
    }

    /// The reason phrase as bytes.
    pub fn reason(self) -> (r: Vec<u8>)
        ensures
            r@ == ascii_bytes(self.spec_reason()),
    {
        match self {
            HTTPStatus::Okay => {
                proof {
                    reveal_strlit("OK");
                    assert(vstd::string::is_ascii("OK"));
                }
                lit_bytes("OK")
            },
            HTTPStatus::BadRequest => {
                proof {
                    reveal_strlit("Bad Request");
                    assert(vstd::string::is_ascii("Bad Request"));
                }
                lit_bytes("Bad Request")
            },
            HTTPStatus::FileNotFound => {
                proof {
                    reveal_strlit("File Not Found");
                    assert(vstd::string::is_ascii("File Not Found"));
                }
                lit_bytes("File Not Found")
            },
            HTTPStatus::MethodNotSupported => {
                proof {
                    reveal_strlit("Method Not Supported");
                    assert(vstd::string::is_ascii("Method Not Supported"));
                }
                lit_bytes("Method Not Supported")
            },
            HTTPStatus::InternalServerError => {
                proof {
                    reveal_strlit("Internal Server Error");
                    assert(vstd::string::is_ascii("Internal Server Error"));
                }
                lit_bytes("Internal Server Error")
            },
        }
    }
}

/// The fixed error page for a status: `<html><h1>` + reason + `</h1></html>`.
pub open spec fn spec_error_page(status: HTTPStatus) -> Seq<u8> {
    ascii_bytes("<html><h1>"@) + ascii_bytes(status.spec_reason()) + ascii_bytes("</h1></html>"@)
}

/// The fixed error page body for a status.
pub fn fmt_http_error(err: HTTPStatus) -> (r: Vec<u8>)
    ensures
        r@ == spec_error_page(err),
{
    proof {
        reveal_strlit("<html><h1>");
        reveal_strlit("</h1></html>");
        assert(vstd::string::is_ascii("<html><h1>"));
        assert(vstd::string::is_ascii("</h1></html>"));
    }
    let mut r = lit_bytes("<html><h1>");
    let mut reason = err.reason();
    let mut close = lit_bytes("</h1></html>");
    r.append(&mut reason);
    r.append(&mut close);
    r
}

/// A structured request: request line fields, headers, decoded query
/// parameters and decoded body parameters.  `valid` is false when validation
/// failed and the pipeline must send one 400 response and nothing else.
#[derive(Debug)]
pub struct HTTPRequest {
    pub method: Vec<u8>,
    pub path: Vec<u8>,
    pub proto: Vec<u8>,
    pub headers: ByteMap,
    pub params: ByteMap,
    pub data: ByteMap,
    pub valid: bool,
}

impl HTTPRequest {
    /// All three mappings are well-formed.
    pub open spec fn wf(self) -> bool {
        self.headers.wf() && self.params.wf() && self.data.wf()
    }

    /// A request with the given request-line fields and no headers or
    /// parameters yet.
    pub fn new(method: Vec<u8>, path: Vec<u8>, proto: Vec<u8>) -> (r: HTTPRequest)
        ensures
            r.method == method,
            r.path == path,
            r.proto == proto,
            r.headers@ == Map::<Seq<u8>, Seq<u8>>::empty(),
            r.params@ == Map::<Seq<u8>, Seq<u8>>::empty(),
            r.data@ == Map::<Seq<u8>, Seq<u8>>::empty(),
            r.headers.entries_seq() == Seq::<(Seq<u8>, Seq<u8>)>::empty(),
            r.valid == true,
            r.wf(),
    {
        HTTPRequest {
            method,
            path,
            proto,
            headers: ByteMap::new(),
            params: ByteMap::new(),
            data: ByteMap::new(),
            valid: true,
        }
    }
}

/// A response under construction: status, headers and body.
#[derive(Debug)]
pub struct HTTPResponse {
    pub status: HTTPStatus,
    pub headers: ByteMap,
    pub body: Vec<u8>,
}

impl HTTPResponse {
    /// The header mapping is well-formed.
    pub open spec fn wf(self) -> bool {
        self.headers.wf()
    }

    /// A fresh 200 response with no headers and an empty body.
    pub fn new() -> (r: HTTPResponse)
        ensures
            r.status == HTTPStatus::Okay,
            r.headers@ == Map::<Seq<u8>, Seq<u8>>::empty(),
            r.headers.entries_seq() == Seq::<(Seq<u8>, Seq<u8>)>::empty(),
            r.body@ == Seq::<u8>::empty(),
            r.wf(),
    {
        let r = HTTPResponse { status: HTTPStatus::Okay, headers: ByteMap::new(), body: Vec::new() };
        proof {
            assert(r.body@ =~= Seq::<u8>::empty());
        }
        r
    }
}

/// The wire bytes of a plain response: the given status and body with only
/// the two injected headers.
pub open spec fn spec_plain_response_bytes(status: HTTPStatus, body: Seq<u8>) -> Seq<u8> {
    spec_status_line(status) + spec_header_line(server_header_key(), server_token())
        + spec_header_line(content_length_key(), spec_dec(body.len())) + ascii_bytes("\r\n"@)
        + body
}

/// A response whose header list is exactly the two injected headers
/// serializes to the plain wire form.
pub proof fn lemma_plain_serialized(resp: HTTPResponse)
    requires
        resp.headers.entries_seq() == seq![
            (server_header_key(), server_token()),
            (content_length_key(), spec_dec(resp.body@.len())),
        ],
    ensures
        spec_serialized(resp) == spec_plain_response_bytes(resp.status, resp.body@),
{
    let sk = server_header_key();
    let st = server_token();
    let ck = content_length_key();
    let cd = spec_dec(resp.body@.len());
    let e2 = seq![(sk, st), (ck, cd)];
    assert(e2.drop_last() =~= seq![(sk, st)]);
    assert(seq![(sk, st)].drop_last() =~= Seq::<(Seq<u8>, Seq<u8>)>::empty());
    assert(spec_header_lines(e2) == spec_header_lines(seq![(sk, st)]) + spec_header_line(ck, cd));
    assert(spec_header_lines(seq![(sk, st)]) == spec_header_lines(
        Seq::<(Seq<u8>, Seq<u8>)>::empty(),
    ) + spec_header_line(sk, st));
    assert(spec_serialized(resp) =~= spec_plain_response_bytes(resp.status, resp.body@));
}

/// Serialize a bare response: the given status with `resp_data` as its body
/// and no handler-set headers.
pub fn http_response(status: HTTPStatus, resp_data: Vec<u8>) -> (r: Vec<u8>)
    ensures
        r@ == spec_plain_response_bytes(status, resp_data@),
{
    let mut response = HTTPResponse::new();
    response.status = status;
    response.body = resp_data;
    let ghost b = response.body@;
    let bytes = response.serialize();
    proof {
        lemma_plain_serialized(response);
    }
    bytes
}

/// Turn a response into the fixed error page for `err`: the status becomes
/// `err`, the body becomes the error page, the headers stay.
pub fn gen_http_error(err: HTTPStatus, response: &mut HTTPResponse)
    ensures
        final(response).status == err,
        final(response).body@ == spec_error_page(err),
        final(response).headers == old(response).headers,
{
    response.body = fmt_http_error(err);
    response.status = err;
}

/// The key of the `Server` header, injected at send time.
pub open spec fn server_header_key() -> Seq<u8> {
    ascii_bytes("Server"@)
}

/// The fixed `Server` header value.
pub open spec fn server_token() -> Seq<u8> {
    ascii_bytes("Rustalot/0.1.0"@)
}

/// The key of the `Content-Length` header, injected at send time.
pub open spec fn content_length_key() -> Seq<u8> {
    ascii_bytes("Content-Length"@)
}

/// The status line: `HTTP/1.1 <code> <reason>` and CRLF.
pub open spec fn spec_status_line(status: HTTPStatus) -> Seq<u8> {
    ascii_bytes("HTTP/1.1 "@) + spec_dec(status.spec_code() as nat) + seq![32u8] + ascii_bytes(
        status.spec_reason(),
    ) + ascii_bytes("\r\n"@)
}

/// One serialized header line: `key: value` and CRLF.
pub open spec fn spec_header_line(k: Seq<u8>, v: Seq<u8>) -> Seq<u8> {
    k + ascii_bytes(": "@) + v + ascii_bytes("\r\n"@)
}

/// The serialized header lines of an entry list, in order.
pub open spec fn spec_header_lines(entries: Seq<(Seq<u8>, Seq<u8>)>) -> Seq<u8>
    decreases entries.len(),
{
    if entries.len() == 0 {
        Seq::empty()
    } else {
        spec_header_lines(entries.drop_last()) + spec_header_line(
            entries.last().0,
            entries.last().1,
        )
    }
}

/// The wire form of a response: status line, header lines, a blank line, then
/// the body verbatim.
pub open spec fn spec_serialized(resp: HTTPResponse) -> Seq<u8> {
    spec_status_line(resp.status) + spec_header_lines(resp.headers.entries_seq()) + ascii_bytes(
        "\r\n"@,
    ) + resp.body@
}

impl HTTPResponse {
    /// The wire bytes of this response.  The `Server` and `Content-Length`
    /// headers are injected first, overwriting any handler-set values under
    /// those keys; `Content-Length` is recomputed from the body's byte
    /// length.
    pub fn serialize(&mut self) -> (r: Vec<u8>)
        requires
            old(self).wf(),
        ensures
            final(self).wf(),
            final(self).status == old(self).status,
            final(self).body == old(self).body,
            final(self).headers@ == old(self).headers@.insert(
                server_header_key(),
                server_token(),
            ).insert(content_length_key(), spec_dec(old(self).body@.len())),
            old(self).headers.entries_seq() == Seq::<(Seq<u8>, Seq<u8>)>::empty() ==> final(self).headers.entries_seq() == seq![
                (server_header_key(), server_token()),
                (content_length_key(), spec_dec(old(self).body@.len())),
            ],
            r@ == spec_serialized(*final(self)),
    {
        proof {
            reveal_strlit("Server");
            reveal_strlit("Rustalot/0.1.0");
            reveal_strlit("Content-Length");
            reveal_strlit("HTTP/1.1 ");
            reveal_strlit("\r\n");
            reveal_strlit(": ");
            assert(vstd::string::is_ascii("Server"));
            assert(vstd::string::is_ascii("Rustalot/0.1.0"));
            assert(vstd::string::is_ascii("Content-Length"));
            assert(vstd::string::is_ascii("HTTP/1.1 "));
            assert(vstd::string::is_ascii("\r\n"));
            assert(vstd::string::is_ascii(": "));
        }
        let ghost e0 = self.headers.entries_seq();
        proof {
            crate::params::lemma_view_is_assoc(self.headers);
            assert(server_header_key().len() == 6);
            assert(content_length_key().len() == 14);
        }
        self.headers.insert(lit_bytes("Server"), lit_bytes("Rustalot/0.1.0"));
        let body_len = self.body.len();
        self.headers.insert(lit_bytes("Content-Length"), dec_bytes(body_len as u64));
        proof {
            if e0 == Seq::<(Seq<u8>, Seq<u8>)>::empty() {
                assert(self.headers.entries_seq() =~= seq![
                    (server_header_key(), server_token()),
                    (content_length_key(), spec_dec(old(self).body@.len())),
                ]);
            }
        }

        let mut r = lit_bytes("HTTP/1.1 ");
        let mut code = dec_bytes(self.status.code() as u64);
        r.append(&mut code);
        r.push(32);
        let mut reason = self.status.reason();
        r.append(&mut reason);
        let mut crlf = lit_bytes("\r\n");
        r.append(&mut crlf);
        proof {
            assert(r@ =~= spec_status_line(self.status));
        }

        let ghost entries = self.headers.entries_seq();
        let n = self.headers.len();
        let mut i: usize = 0;
        while i < n
            invariant
                n == entries.len(),
                i <= n,
                entries == self.headers.entries_seq(),
                self.headers.wf(),
                r@ == spec_status_line(self.status) + spec_header_lines(entries.take(i as int)),
            decreases n - i,
        {
            let (k, v) = self.headers.entry_at(i);
            let mut line = crate::bytes::clone_vec(k);
            proof {
                reveal_strlit(": ");
                reveal_strlit("\r\n");
                assert(vstd::string::is_ascii(": "));
                assert(vstd::string::is_ascii("\r\n"));
            }
            let mut sep = lit_bytes(": ");
            line.append(&mut sep);
            let mut val = crate::bytes::clone_vec(v);
            line.append(&mut val);
            let mut end = lit_bytes("\r\n");
            line.append(&mut end);
            r.append(&mut line);
            i = i + 1;
            proof {
                assert(entries.take(i as int).drop_last() =~= entries.take(i as int - 1));
                assert(entries.take(i as int).last() == entries[i as int - 1]);
                assert(r@ =~= spec_status_line(self.status) + spec_header_lines(
                    entries.take(i as int),
                ));
            }
        }
        let mut blank = lit_bytes("\r\n");
        r.append(&mut blank);
        let mut body = crate::bytes::clone_vec(&self.body);
        r.append(&mut body);
        proof {
            assert(entries.take(entries.len() as int) =~= entries);
            assert(r@ =~= spec_serialized(*self));
        }
        r
    }
}

} // verus!
