use rustalot::parser::{parse_headers, parse_request, validate_request, ValidationError};
use rustalot::split_string;

#[test]
fn valid_get_line_is_accepted() {
    let req = validate_request(&b"GET /index.html HTTP/1.1".to_vec()).unwrap();
    assert_eq!(req.method, b"GET".to_vec());
    assert_eq!(req.path, b"/index.html".to_vec());
    assert_eq!(req.proto, b"HTTP/1.1".to_vec());
    assert!(req.valid);
}

#[test]
fn valid_post_line_is_accepted() {
    let req = validate_request(&b"POST /submit HTTP/1.0".to_vec()).unwrap();
    assert_eq!(req.method, b"POST".to_vec());
    assert_eq!(req.path, b"/submit".to_vec());
    assert_eq!(req.proto, b"HTTP/1.0".to_vec());
}

#[test]
fn unknown_method_is_rejected() {
    let err = validate_request(&b"BADMETHOD / HTTP/1.1".to_vec()).unwrap_err();
    assert_eq!(err, ValidationError::InvalidMethod);
    assert_eq!(err.message(), b"Invalid request method".to_vec());
}

#[test]
fn lowercase_method_is_rejected() {
    let err = validate_request(&b"get / HTTP/1.1".to_vec()).unwrap_err();
    assert_eq!(err, ValidationError::InvalidMethod);
}

#[test]
fn bad_version_is_rejected() {
    let err = validate_request(&b"GET / HTTP/11".to_vec()).unwrap_err();
    assert_eq!(err, ValidationError::InvalidVersion);
    assert_eq!(err.message(), b"Invalid HTTP version".to_vec());
    let err = validate_request(&b"GET / HTTPS/1.1".to_vec()).unwrap_err();
    assert_eq!(err, ValidationError::InvalidVersion);
    let err = validate_request(&b"GET / HTTP/1.1.1".to_vec()).unwrap_err();
    assert_eq!(err, ValidationError::InvalidVersion);
}

#[test]
fn bad_path_is_rejected() {
    let err = validate_request(&b"GET nope HTTP/1.1".to_vec()).unwrap_err();
    assert_eq!(err, ValidationError::InvalidPath);
    assert_eq!(err.message(), b"Invalid request path".to_vec());
}

#[test]
fn short_line_is_rejected() {
    assert!(validate_request(&b"GET".to_vec()).is_err());
    assert!(validate_request(&b"".to_vec()).is_err());
}

#[test]
fn headers_are_parsed_and_lowercased() {
    let buf = b"GET / HTTP/1.1\r\nUser-Agent: tester\r\nHost: localhost\r\n\r\nbody".to_vec();
    let mut req = validate_request(&b"GET / HTTP/1.1".to_vec()).unwrap();
    let offset = parse_headers(&buf, &mut req);
    assert_eq!(req.headers.get(&b"user-agent".to_vec()), Some(&b"tester".to_vec()));
    assert_eq!(req.headers.get(&b"host".to_vec()), Some(&b"localhost".to_vec()));
    assert_eq!(req.headers.get(&b"User-Agent".to_vec()), None);
    assert_eq!(offset, 4);
}

#[test]
fn header_value_keeps_everything_after_first_separator() {
    let buf = b"GET / HTTP/1.1\r\nReferer: http: //x\r\n\r\n".to_vec();
    let mut req = validate_request(&b"GET / HTTP/1.1".to_vec()).unwrap();
    parse_headers(&buf, &mut req);
    assert_eq!(req.headers.get(&b"referer".to_vec()), Some(&b"http: //x".to_vec()));
}

#[test]
fn malformed_header_line_is_skipped() {
    let buf = b"GET / HTTP/1.1\r\nnot-a-header\r\nGood: yes\r\n\r\n".to_vec();
    let mut req = validate_request(&b"GET / HTTP/1.1".to_vec()).unwrap();
    let offset = parse_headers(&buf, &mut req);
    assert_eq!(req.headers.get(&b"not-a-header".to_vec()), None);
    assert_eq!(req.headers.get(&b"good".to_vec()), Some(&b"yes".to_vec()));
    assert_eq!(offset, 4);
}

#[test]
fn missing_blank_line_returns_zero() {
    let buf = b"GET / HTTP/1.1\r\nHost: x".to_vec();
    let mut req = validate_request(&b"GET / HTTP/1.1".to_vec()).unwrap();
    let offset = parse_headers(&buf, &mut req);
    assert_eq!(offset, 0);
    assert_eq!(req.headers.get(&b"host".to_vec()), Some(&b"x".to_vec()));
}

#[test]
fn query_is_split_from_path() {
    let mut req = validate_request(&b"GET /params?test=42 HTTP/1.1".to_vec()).unwrap();
    parse_request(&mut req, &Vec::new());
    assert_eq!(req.path, b"/params".to_vec());
    assert_eq!(req.params.get(&b"test".to_vec()), Some(&b"42".to_vec()));
}

#[test]
fn fragment_is_dropped_from_query() {
    let mut req = validate_request(&b"GET /p?a=1&b=2#frag HTTP/1.1".to_vec()).unwrap();
    parse_request(&mut req, &Vec::new());
    assert_eq!(req.path, b"/p".to_vec());
    assert_eq!(req.params.get(&b"a".to_vec()), Some(&b"1".to_vec()));
    assert_eq!(req.params.get(&b"b".to_vec()), Some(&b"2".to_vec()));
    assert_eq!(req.params.get(&b"b=2#frag".to_vec()), None);
}

#[test]
fn query_takes_everything_after_first_question_mark() {
    let mut req = validate_request(&b"GET /p?a=1?b=2 HTTP/1.1".to_vec()).unwrap();
    parse_request(&mut req, &Vec::new());
    assert_eq!(req.path, b"/p".to_vec());
    assert_eq!(req.params.get(&b"a".to_vec()), Some(&b"1?b=2".to_vec()));
}

#[test]
fn path_without_query_is_kept_whole() {
    let mut req = validate_request(&b"GET /plain HTTP/1.1".to_vec()).unwrap();
    parse_request(&mut req, &Vec::new());
    assert_eq!(req.path, b"/plain".to_vec());
    assert_eq!(req.params.len(), 0);
}

#[test]
fn body_pairs_land_in_data() {
    let mut req = validate_request(&b"POST /submit HTTP/1.1".to_vec()).unwrap();
    parse_request(&mut req, &b"name=a%26b&age=30".to_vec());
    assert_eq!(req.data.get(&b"name".to_vec()), Some(&b"a&b".to_vec()));
    assert_eq!(req.data.get(&b"age".to_vec()), Some(&b"30".to_vec()));
}

#[test]
fn split_string_picks_the_piece() {
    let s = b"/a?b?c".to_vec();
    assert_eq!(split_string(&s, b'?', 0), Some(b"/a".to_vec()));
    assert_eq!(split_string(&s, b'?', 1), Some(b"b".to_vec()));
    assert_eq!(split_string(&s, b'?', 2), Some(b"c".to_vec()));
    assert_eq!(split_string(&s, b'?', 3), None);
    assert_eq!(split_string(&b"nosep".to_vec(), b'?', 0), Some(b"nosep".to_vec()));
}
