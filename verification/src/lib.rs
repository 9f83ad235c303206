//! A minimal HTTP/1.1-style server library.
//!
//! Raw request bytes are parsed into a structured [`HTTPRequest`], dispatched
//! through a [`RouteTable`] whose first matching pattern wins, and the
//! handler's [`HTTPResponse`] is serialized back into wire bytes.  All of the
//! request lifecycle that computes on plain values lives here, verified; the
//! sockets and the worker pool that drive it live outside the library.

pub mod bytes;
pub mod codec;
pub mod connection;
pub mod http;
pub mod params;
pub mod parser;
pub mod route;

pub use bytes::split_string;
pub use codec::walk_params;
pub use connection::{fmt_log_line, handle_request, ConnectionOutcome};
pub use http::{
    fmt_http_error, gen_http_error, http_response, HTTPRequest, HTTPResponse, HTTPStatus,
};
pub use params::ByteMap;
pub use parser::{parse_headers, parse_request, validate_request, ValidationError};
pub use route::{
    resolve_handler_result, router, router_404, serve_static, Handler, HandlerError, HTTPResult,
    LoadError, Loader, RouteTable, StaticHandler,
};
