use rustalot::connection::{fmt_log_line, handle_request};
use rustalot::http::{HTTPRequest, HTTPResponse, HTTPStatus};
use rustalot::route::{Handler, HandlerError, HTTPResult, RouteTable};

enum AppHandler {
    Index,
    Params,
    Fail,
}

impl Handler for AppHandler {
    fn handle(&self, request: &HTTPRequest, mut response: HTTPResponse) -> HTTPResult {
        match self {
            AppHandler::Index => {
                response.body = b"<html><h1>IT WORKS!!!</h1></html>".to_vec();
                Ok(response)
            },
            AppHandler::Params => {
                let value = match request.params.get(&b"test".to_vec()) {
                    Some(v) => v.clone(),
                    None => return Err(HandlerError),
                };
                let mut body = b"<html><p><b>Test param:</b>".to_vec();
                body.extend(value);
                body.extend(b"</p></html>".to_vec());
                response.body = body;
                Ok(response)
            },
            AppHandler::Fail => Err(HandlerError),
        }
    }
}

fn demo_table() -> RouteTable<AppHandler> {
    let mut table = RouteTable::new();
    assert!(table.add_route("/".to_string(), AppHandler::Index));
    assert!(table.add_route("/error".to_string(), AppHandler::Fail));
    assert!(table.add_route("/params".to_string(), AppHandler::Params));
    table
}

fn plain_response(code_line: &str, body: &str) -> Vec<u8> {
    format!(
        "HTTP/1.1 {}\r\nServer: Rustalot/0.1.0\r\nContent-Length: {}\r\n\r\n{}",
        code_line,
        body.len(),
        body
    )
    .into_bytes()
}

#[test]
fn query_param_request_reaches_its_handler() {
    let table = demo_table();
    let buf = b"GET /params?test=42 HTTP/1.1\r\n\r\n".to_vec();
    let outcome = handle_request(&buf, &table);
    assert_eq!(outcome.status.code(), 200);
    assert_eq!(outcome.request_line, b"GET /params?test=42 HTTP/1.1".to_vec());
    assert_eq!(
        outcome.response_bytes,
        plain_response("200 OK", "<html><p><b>Test param:</b>42</p></html>")
    );
}

#[test]
fn missing_path_yields_404_with_fixed_body() {
    let table = demo_table();
    let buf = b"GET /missing HTTP/1.1\r\n\r\n".to_vec();
    let outcome = handle_request(&buf, &table);
    assert_eq!(outcome.status.code(), 404);
    assert_eq!(
        outcome.response_bytes,
        plain_response("404 File Not Found", "<html><h1>File Not Found</h1></html>")
    );
}

#[test]
fn failing_handler_yields_500_with_fixed_body() {
    let table = demo_table();
    let buf = b"POST /error HTTP/1.1\r\n\r\n".to_vec();
    let outcome = handle_request(&buf, &table);
    assert_eq!(outcome.status.code(), 500);
    assert_eq!(
        outcome.response_bytes,
        plain_response("500 Internal Server Error", "<html><h1>Internal Server Error</h1></html>")
    );
}

#[test]
fn bad_method_yields_400_and_skips_routing() {
    let table = demo_table();
    let buf = b"BADMETHOD / HTTP/1.1\r\n\r\n".to_vec();
    let outcome = handle_request(&buf, &table);
    assert_eq!(outcome.status.code(), 400);
    assert_eq!(outcome.user_agent, Vec::<u8>::new());
    assert_eq!(
        outcome.response_bytes,
        plain_response("400 Bad Request", "<html><h1>Bad Request</h1></html>")
    );
}

#[test]
fn index_route_serves_its_page() {
    let table = demo_table();
    let buf = b"GET / HTTP/1.1\r\n\r\n".to_vec();
    let outcome = handle_request(&buf, &table);
    assert_eq!(outcome.status.code(), 200);
    assert_eq!(
        outcome.response_bytes,
        plain_response("200 OK", "<html><h1>IT WORKS!!!</h1></html>")
    );
}

#[test]
fn user_agent_is_read_case_insensitively() {
    let table = demo_table();
    let buf = b"GET / HTTP/1.1\r\nUser-Agent: tester/1.0\r\n\r\n".to_vec();
    let outcome = handle_request(&buf, &table);
    assert_eq!(outcome.user_agent, b"tester/1.0".to_vec());
}

#[test]
fn absent_user_agent_is_empty_not_fatal() {
    let table = demo_table();
    let buf = b"GET / HTTP/1.1\r\nHost: localhost\r\n\r\n".to_vec();
    let outcome = handle_request(&buf, &table);
    assert_eq!(outcome.user_agent, Vec::<u8>::new());
    assert_eq!(outcome.status.code(), 200);
}

#[test]
fn body_params_reach_post_handlers() {
    let mut table: RouteTable<AppHandler> = RouteTable::new();
    assert!(table.add_route("/submit".to_string(), AppHandler::Index));
    let buf = b"POST /submit HTTP/1.1\r\nHost: x\r\n\r\nname=value".to_vec();
    let outcome = handle_request(&buf, &table);
    assert_eq!(outcome.status.code(), 200);
}

#[test]
fn empty_buffer_yields_400() {
    let table = demo_table();
    let outcome = handle_request(&Vec::new(), &table);
    assert_eq!(outcome.status.code(), 400);
    assert_eq!(outcome.request_line, Vec::<u8>::new());
}

#[test]
fn log_line_has_the_frozen_format() {
    let line = fmt_log_line(
        &b"127.0.0.1:5000".to_vec(),
        &b"GET / HTTP/1.1".to_vec(),
        HTTPStatus::Okay,
        &b"curl/8.0".to_vec(),
    );
    assert_eq!(line, b"127.0.0.1:5000 - \"GET / HTTP/1.1\" 200 \"curl/8.0\"".to_vec());
}

#[test]
fn log_line_with_empty_user_agent() {
    let line = fmt_log_line(
        &b"10.0.0.1:1234".to_vec(),
        &b"BADMETHOD / HTTP/1.1".to_vec(),
        HTTPStatus::BadRequest,
        &Vec::new(),
    );
    assert_eq!(line, b"10.0.0.1:1234 - \"BADMETHOD / HTTP/1.1\" 400 \"\"".to_vec());
}
