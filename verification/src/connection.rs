//! One connection's computation: parse the bytes read from the socket,
//! route, and serialize exactly one response, together with what the access
//! log line needs.  Reading, writing and closing the socket happen outside
//! the library.

use vstd::prelude::*;
use crate::bytes::{
    ascii_bytes, clone_vec, concat_from, dec_bytes, lit_bytes, spec_concat, spec_dec, spec_lines,
    split_lines,
};
use crate::codec::spec_walk_params;
use crate::http::{
    content_length_key, fmt_http_error, http_response, server_header_key, server_token,
    spec_error_page, spec_plain_response_bytes, spec_serialized, HTTPRequest, HTTPResponse,
    HTTPStatus,
};
use crate::parser::{
    parse_headers, parse_request, spec_body_offset, spec_parse_headers, spec_query_part,
    spec_split_path, spec_validation, validate_request,
};
use crate::route::{router, spec_first_match, spec_routed, Handler, RouteTable};

verus! {

/// The `user-agent` header key the access log reads.
pub open spec fn spec_user_agent_key() -> Seq<u8> {
    ascii_bytes("user-agent"@)
}

/// What one connection's computation yields.
pub struct ConnectionOutcome {
    /// The serialized response to write back.
    pub response_bytes: Vec<u8>,
    /// The status of that response.
    pub status: HTTPStatus,
    /// The original request line, for the access log.
    pub request_line: Vec<u8>,
    /// The `user-agent` header value, empty when absent.
    pub user_agent: Vec<u8>,
}

/// The first line of the buffer, or empty when the buffer has none.
pub open spec fn spec_first_line(buf: Seq<u8>) -> Seq<u8> {
    let lines = spec_lines(buf);
    if lines.len() > 0 {
        lines[0]
    } else {
        Seq::empty()
    }
}

/// Run one connection's computation over the bytes read from the socket:
/// validate the request line; on failure build exactly one 400 response and
/// skip header, parameter and body parsing entirely; on success parse
/// headers, query and body parameters, route, and serialize the routed
/// response.  An unmatched path yields the fixed 404 page.  The body is
/// rebuilt by joining the lines after the blank one without their line
/// endings, a known fidelity loss for multi-line bodies.  For a validated
/// request, the written bytes are always the serialization -- with the
/// `Server` and `Content-Length` headers injected -- of a response that
/// routing the parsed request may produce.
pub fn handle_request<H: Handler>(buf: &Vec<u8>, routes: &RouteTable<H>) -> (outcome:
    ConnectionOutcome)
    ensures
        outcome.request_line@ == spec_first_line(buf@),
        match spec_validation(spec_first_line(buf@)) {
            Err(e) => outcome.status == HTTPStatus::BadRequest && outcome.user_agent@
                == Seq::<u8>::empty() && outcome.response_bytes@ == spec_plain_response_bytes(
                HTTPStatus::BadRequest,
                spec_error_page(HTTPStatus::BadRequest),
            ),
            Ok(mpv) => {
                let headers = spec_parse_headers(
                    Map::<Seq<u8>, Seq<u8>>::empty(),
                    spec_lines(buf@),
                );
                &&& (headers.contains_key(spec_user_agent_key()) ==> outcome.user_agent@
                    == headers[spec_user_agent_key()])
                &&& (!headers.contains_key(spec_user_agent_key()) ==> outcome.user_agent@
                    == Seq::<u8>::empty())
                &&& (spec_first_match(routes.patterns(), spec_split_path(mpv.1).0) is None
                    ==> outcome.status == HTTPStatus::FileNotFound && outcome.response_bytes@
                    == spec_plain_response_bytes(
                    HTTPStatus::FileNotFound,
                    spec_error_page(HTTPStatus::FileNotFound),
                ))
                &&& (exists|req: HTTPRequest, routed: HTTPResponse, fin: HTTPResponse|
                    #![trigger spec_routed(*routes, req, routed), spec_serialized(fin)]
                    {
                        &&& req.method@ == mpv.0
                        &&& req.path@ == spec_split_path(mpv.1).0
                        &&& req.proto@ == mpv.2
                        &&& req.headers@ == headers
                        &&& req.params@ == spec_walk_params(
                            Map::<Seq<u8>, Seq<u8>>::empty(),
                            spec_query_part(spec_split_path(mpv.1).1),
                        )
                        &&& req.data@ == spec_walk_params(
                            Map::<Seq<u8>, Seq<u8>>::empty(),
                            spec_concat(spec_lines(buf@), spec_body_offset(spec_lines(buf@))),
                        )
                        &&& req.valid == true
                        &&& spec_routed(*routes, req, routed)
                        &&& outcome.status == routed.status
                        &&& fin.status == routed.status
                        &&& fin.body == routed.body
                        &&& fin.headers@ == routed.headers@.insert(
                            server_header_key(),
                            server_token(),
                        ).insert(content_length_key(), spec_dec(routed.body@.len()))
                        &&& outcome.response_bytes@ == spec_serialized(fin)
                    })
            },
        },
{
    let lines = split_lines(buf);
    let first_line = if lines.len() > 0 {
        clone_vec(&lines[0])
    } else {
        Vec::new()
    };
    proof {
        assert(first_line@ == spec_first_line(buf@));
    }
    match validate_request(&first_line) {
        Err(_) => {
            let body = fmt_http_error(HTTPStatus::BadRequest);
            let bytes = http_response(HTTPStatus::BadRequest, body);
            ConnectionOutcome {
                response_bytes: bytes,
                status: HTTPStatus::BadRequest,
                request_line: first_line,
                user_agent: Vec::new(),
            }
        },
        Ok(request) => {
            let mut request = request;
            let offset = parse_headers(buf, &mut request);
            let body = concat_from(&lines, offset);
            parse_request(&mut request, &body);
            let mut response = router(&request, routes);
            let ghost routed0 = response;
            let status = response.status;
            let bytes = response.serialize();
            proof {
                reveal_strlit("user-agent");
                assert(vstd::string::is_ascii("user-agent"));
            }
            let ua_key = lit_bytes("user-agent");
            let user_agent = match request.headers.get(&ua_key) {
                Some(v) => clone_vec(v),
                None => Vec::new(),
            };
            proof {
                assert(spec_routed(*routes, request, routed0));
                assert(spec_serialized(response) == bytes@);
                assert(response.status == routed0.status && response.body == routed0.body);
                assert(response.headers@ == routed0.headers@.insert(
                    server_header_key(),
                    server_token(),
                ).insert(content_length_key(), spec_dec(routed0.body@.len())));
                if spec_first_match(routes.patterns(), request.path@) is None {
                    crate::http::lemma_plain_serialized(response);
                }
            }
            ConnectionOutcome { response_bytes: bytes, status, request_line: first_line, user_agent }
        },
    }
}

/// The frozen access-log line: `<address> - "<request line>" <code>
/// "<user agent>"`.
pub open spec fn spec_log_line(
    addr: Seq<u8>,
    line: Seq<u8>,
    status: HTTPStatus,
    ua: Seq<u8>,
) -> Seq<u8> {
    addr + ascii_bytes(" - \""@) + line + ascii_bytes("\" "@) + spec_dec(
        status.spec_code() as nat,
    ) + ascii_bytes(" \""@) + ua + ascii_bytes("\""@)
}

/// Format one access-log line.
pub fn fmt_log_line(addr: &Vec<u8>, line: &Vec<u8>, status: HTTPStatus, user_agent: &Vec<u8>) -> (r:
    Vec<u8>)
    ensures
        r@ == spec_log_line(addr@, line@, status, user_agent@),
{
    proof {
        reveal_strlit(" - \"");
        reveal_strlit("\" ");
        reveal_strlit(" \"");
        reveal_strlit("\"");
        assert(vstd::string::is_ascii(" - \""));
        assert(vstd::string::is_ascii("\" "));
        assert(vstd::string::is_ascii(" \""));
        assert(vstd::string::is_ascii("\""));
    }
    let mut r = clone_vec(addr);
    let mut sep1 = lit_bytes(" - \"");
    r.append(&mut sep1);
    let mut l = clone_vec(line);
    r.append(&mut l);
    let mut sep2 = lit_bytes("\" ");
    r.append(&mut sep2);
    let mut code = dec_bytes(status.code() as u64);
    r.append(&mut code);
    let mut sep3 = lit_bytes(" \"");
    r.append(&mut sep3);
    let mut ua = clone_vec(user_agent);
    r.append(&mut ua);
    let mut sep4 = lit_bytes("\"");
    r.append(&mut sep4);
    r
}

} // verus!
