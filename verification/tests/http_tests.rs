use rustalot::http::{fmt_http_error, gen_http_error, http_response, HTTPResponse, HTTPStatus};

#[test]
fn status_codes_and_reasons() {
    assert_eq!(HTTPStatus::Okay.code(), 200);
    assert_eq!(HTTPStatus::BadRequest.code(), 400);
    assert_eq!(HTTPStatus::FileNotFound.code(), 404);
    assert_eq!(HTTPStatus::MethodNotSupported.code(), 405);
    assert_eq!(HTTPStatus::InternalServerError.code(), 500);
    assert_eq!(HTTPStatus::Okay.reason(), b"OK".to_vec());
    assert_eq!(HTTPStatus::FileNotFound.reason(), b"File Not Found".to_vec());
    assert_eq!(HTTPStatus::MethodNotSupported.reason(), b"Method Not Supported".to_vec());
}

#[test]
fn error_pages_are_fixed() {
    assert_eq!(fmt_http_error(HTTPStatus::FileNotFound), b"<html><h1>File Not Found</h1></html>".to_vec());
    assert_eq!(fmt_http_error(HTTPStatus::BadRequest), b"<html><h1>Bad Request</h1></html>".to_vec());
    assert_eq!(
        fmt_http_error(HTTPStatus::InternalServerError),
        b"<html><h1>Internal Server Error</h1></html>".to_vec()
    );
}

#[test]
fn gen_http_error_sets_status_and_body() {
    let mut response = HTTPResponse::new();
    gen_http_error(HTTPStatus::MethodNotSupported, &mut response);
    assert_eq!(response.status.code(), 405);
    assert_eq!(response.body, b"<html><h1>Method Not Supported</h1></html>".to_vec());
}

#[test]
fn serialize_injects_server_and_content_length() {
    let mut response = HTTPResponse::new();
    response.body = b"hello".to_vec();
    let bytes = response.serialize();
    let expected = b"HTTP/1.1 200 OK\r\nServer: Rustalot/0.1.0\r\nContent-Length: 5\r\n\r\nhello";
    assert_eq!(bytes, expected.to_vec());
}

#[test]
fn serialize_keeps_handler_headers_in_order() {
    let mut response = HTTPResponse::new();
    response.headers.insert(b"X-Custom".to_vec(), b"y".to_vec());
    response.body = b"".to_vec();
    let bytes = response.serialize();
    let expected =
        b"HTTP/1.1 200 OK\r\nX-Custom: y\r\nServer: Rustalot/0.1.0\r\nContent-Length: 0\r\n\r\n";
    assert_eq!(bytes, expected.to_vec());
}

#[test]
fn serialize_overwrites_handler_set_server_and_length() {
    let mut response = HTTPResponse::new();
    response.headers.insert(b"Server".to_vec(), b"fake".to_vec());
    response.headers.insert(b"Content-Length".to_vec(), b"9999".to_vec());
    response.body = b"ab".to_vec();
    let bytes = response.serialize();
    let expected =
        b"HTTP/1.1 200 OK\r\nServer: Rustalot/0.1.0\r\nContent-Length: 2\r\n\r\nab";
    assert_eq!(bytes, expected.to_vec());
}

#[test]
fn serialize_recomputes_length_for_long_bodies() {
    let mut response = HTTPResponse::new();
    response.body = vec![b'x'; 123];
    let bytes = response.serialize();
    let mut expected = b"HTTP/1.1 200 OK\r\nServer: Rustalot/0.1.0\r\nContent-Length: 123\r\n\r\n"
        .to_vec();
    expected.extend(vec![b'x'; 123]);
    assert_eq!(bytes, expected);
}

#[test]
fn http_response_serializes_a_bare_status_and_body() {
    let bytes = http_response(HTTPStatus::FileNotFound, b"gone".to_vec());
    let expected = b"HTTP/1.1 404 File Not Found\r\nServer: Rustalot/0.1.0\r\nContent-Length: 4\r\n\r\ngone";
    assert_eq!(bytes, expected.to_vec());
}
