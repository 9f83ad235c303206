use rustalot::http::{HTTPRequest, HTTPResponse, HTTPStatus};
use rustalot::route::{
    resolve_handler_result, router, router_404, serve_static, Handler, HandlerError, HTTPResult,
    LoadError, Loader, RouteTable, StaticHandler,
};

enum TestHandler {
    Body(&'static [u8]),
    Fail,
    MutateThenFail,
}

impl Handler for TestHandler {
    fn handle(&self, _request: &HTTPRequest, mut response: HTTPResponse) -> HTTPResult {
        match self {
            TestHandler::Body(b) => {
                response.body = b.to_vec();
                Ok(response)
            },
            TestHandler::Fail => Err(HandlerError),
            TestHandler::MutateThenFail => {
                response.body = b"partial output".to_vec();
                response.status = HTTPStatus::Okay;
                response.headers.insert(b"X-Partial".to_vec(), b"yes".to_vec());
                Err(HandlerError)
            },
        }
    }
}

fn request_for(path: &[u8]) -> HTTPRequest {
    HTTPRequest::new(b"GET".to_vec(), path.to_vec(), b"HTTP/1.1".to_vec())
}

#[test]
fn first_registered_route_wins() {
    let mut table: RouteTable<TestHandler> = RouteTable::new();
    assert!(table.add_route("/overlap.*".to_string(), TestHandler::Body(b"A")));
    assert!(table.add_route("/overlap/specific".to_string(), TestHandler::Body(b"B")));
    let response = router(&request_for(b"/overlap/specific"), &table);
    assert_eq!(response.body, b"A".to_vec());
    assert_eq!(response.status.code(), 200);
}

#[test]
fn later_route_matches_when_earlier_does_not() {
    let mut table: RouteTable<TestHandler> = RouteTable::new();
    assert!(table.add_route("/one".to_string(), TestHandler::Body(b"one")));
    assert!(table.add_route("/two".to_string(), TestHandler::Body(b"two")));
    let response = router(&request_for(b"/two"), &table);
    assert_eq!(response.body, b"two".to_vec());
}

#[test]
fn match_is_anchored_not_prefix() {
    let mut table: RouteTable<TestHandler> = RouteTable::new();
    assert!(table.add_route("/exact".to_string(), TestHandler::Body(b"hit")));
    let response = router(&request_for(b"/exact/longer"), &table);
    assert_eq!(response.status.code(), 404);
    let response = router(&request_for(b"/exact"), &table);
    assert_eq!(response.body, b"hit".to_vec());
}

#[test]
fn find_route_reports_first_match() {
    let mut table: RouteTable<TestHandler> = RouteTable::new();
    assert!(table.add_route("/a".to_string(), TestHandler::Body(b"a")));
    assert!(table.add_route("/.*".to_string(), TestHandler::Body(b"any")));
    assert_eq!(table.find_route(&b"/a".to_vec()), Some(0));
    assert_eq!(table.find_route(&b"/b".to_vec()), Some(1));
    assert_eq!(table.find_route(&b"nope".to_vec()), None);
}

#[test]
fn invalid_pattern_is_rejected_and_table_unchanged() {
    let mut table: RouteTable<TestHandler> = RouteTable::new();
    assert!(!table.add_route("(".to_string(), TestHandler::Body(b"never")));
    assert_eq!(table.find_route(&b"/".to_vec()), None);
}

#[test]
fn unmatched_path_yields_fixed_404() {
    let table: RouteTable<TestHandler> = RouteTable::new();
    let response = router(&request_for(b"/missing"), &table);
    assert_eq!(response.status.code(), 404);
    assert_eq!(response.body, b"<html><h1>File Not Found</h1></html>".to_vec());
}

#[test]
fn failing_handler_yields_fixed_500() {
    let mut table: RouteTable<TestHandler> = RouteTable::new();
    assert!(table.add_route("/error".to_string(), TestHandler::Fail));
    let response = router(&request_for(b"/error"), &table);
    assert_eq!(response.status.code(), 500);
    assert_eq!(response.body, b"<html><h1>Internal Server Error</h1></html>".to_vec());
}

#[test]
fn partial_handler_output_never_leaks() {
    let mut table: RouteTable<TestHandler> = RouteTable::new();
    assert!(table.add_route("/mutate".to_string(), TestHandler::MutateThenFail));
    let response = router(&request_for(b"/mutate"), &table);
    assert_eq!(response.status.code(), 500);
    assert_eq!(response.body, b"<html><h1>Internal Server Error</h1></html>".to_vec());
    assert_eq!(response.headers.get(&b"X-Partial".to_vec()), None);
}

#[test]
fn resolve_keeps_success_and_replaces_failure() {
    let mut ok_response = HTTPResponse::new();
    ok_response.body = b"kept".to_vec();
    let resolved = resolve_handler_result(Ok(ok_response));
    assert_eq!(resolved.body, b"kept".to_vec());
    assert_eq!(resolved.status.code(), 200);

    let resolved = resolve_handler_result(Err(HandlerError));
    assert_eq!(resolved.status.code(), 500);
    assert_eq!(resolved.body, b"<html><h1>Internal Server Error</h1></html>".to_vec());
}

#[test]
fn router_404_builds_the_fixed_page() {
    let request = request_for(b"/whatever");
    let response = router_404(&request, HTTPResponse::new()).unwrap();
    assert_eq!(response.status.code(), 404);
    assert_eq!(response.body, b"<html><h1>File Not Found</h1></html>".to_vec());
}

#[test]
fn serve_static_returns_content_or_404() {
    let request = request_for(b"/static/page.html");
    let served = serve_static(&request, HTTPResponse::new(), Ok(b"<p>hi</p>".to_vec())).unwrap();
    assert_eq!(served.status.code(), 200);
    assert_eq!(served.body, b"<p>hi</p>".to_vec());

    let served = serve_static(&request, HTTPResponse::new(), Err(LoadError)).unwrap();
    assert_eq!(served.status.code(), 404);
    assert_eq!(served.body, b"<html><h1>File Not Found</h1></html>".to_vec());
}

struct OnePageLoader;

impl Loader for OnePageLoader {
    fn load(&self, name: &Vec<u8>) -> Result<Vec<u8>, LoadError> {
        if name == &b"static/known.html".to_vec() {
            Ok(b"known content".to_vec())
        } else {
            Err(LoadError)
        }
    }
}

#[test]
fn static_handler_strips_leading_slash_and_serves() {
    let handler = StaticHandler { loader: OnePageLoader };
    let request = request_for(b"/static/known.html");
    let response = handler.handle(&request, HTTPResponse::new()).unwrap();
    assert_eq!(response.status.code(), 200);
    assert_eq!(response.body, b"known content".to_vec());

    let request = request_for(b"/static/missing.html");
    let response = handler.handle(&request, HTTPResponse::new()).unwrap();
    assert_eq!(response.status.code(), 404);
}
