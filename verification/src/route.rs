//! Routing: an ordered table of compiled patterns and handlers.  Patterns
//! are tried in registration order and the first one matching the whole path
//! wins; an unmatched path gets the built-in 404 handler; a failing handler
//! yields a fresh 500 response with nothing of its partial output.

use vstd::prelude::*;
use crate::bytes::subvec;
use crate::http::{gen_http_error, spec_error_page, HTTPRequest, HTTPResponse, HTTPStatus};

verus! {

/// Declares `regex::bytes::Regex` so that compiled patterns can be stored in
/// fields; the verifier treats its values as opaque.
#[verifier::external_type_specification]
#[verifier::external_body]
pub struct ExRegex(regex::bytes::Regex);

/// Whether `regex::bytes::Regex::new` accepts the anchored pattern `^pat$`.
/// Compilation succeeds or fails on the pattern text alone.
pub uninterp spec fn route_pattern_ok(pat: Seq<char>) -> bool;

/// Whether the anchored regular expression `^pat$` matches `text`, as the
/// regex crate interprets that pattern.  Matching is a function of the
/// pattern and the text alone.
pub uninterp spec fn route_matches(pat: Seq<char>, text: Seq<u8>) -> bool;

/// A route pattern, compiled once at registration time and never recompiled
/// per request.  `source` is always the exact text `regex` was compiled
/// from, anchored; note that a pattern with a top-level alternation is
/// anchored as written, `^a|b$`.
pub struct CompiledPattern {
    source: String,
    regex: regex::bytes::Regex,
}

impl CompiledPattern {
    /// The pattern text this was compiled from.
    pub closed spec fn source_spec(self) -> Seq<char> {
        self.source@
    }

    /// Relies on `regex::bytes::Regex::new`: compiling `^pattern$` succeeds
    /// exactly when the pattern text is acceptable, and depends on that text
    /// alone.  The compiled regex is stored beside its pattern text.
    #[verifier::external_body]
    fn compile(pattern: String) -> (r: Option<CompiledPattern>)
        ensures
            r is Some <==> route_pattern_ok(pattern@),
            r matches Some(c) ==> c.source_spec() == pattern@,
    {
        match regex::bytes::Regex::new(&format!("^{}$", pattern)) {
            Ok(regex) => Some(CompiledPattern { source: pattern, regex }),
            Err(_) => None,
        }
    }

    /// Relies on `regex::bytes::Regex::is_match`: `regex` is the compiled
    /// anchored form of `source`, so the call tells whether `^source$`
    /// matches `text`, a function of the two texts alone.
    #[verifier::external_body]
    fn is_match(&self, text: &Vec<u8>) -> (r: bool)
        ensures
            r == route_matches(self.source_spec(), text@),
    {
        self.regex.is_match(text.as_slice())
    }
}

/// The failure a handler reports; the router turns it into a 500 response.
#[derive(Clone, Copy, PartialEq, Eq, Structural, Debug)]
pub struct HandlerError;

/// What a handler produces: the response to send, or a failure.
pub type HTTPResult = Result<HTTPResponse, HandlerError>;

/// A handler capability: given a request and a fresh response, produce the
/// response to send, or fail.  A successful handler returns a response whose
/// header mapping is well-formed; it receives well-formed inputs.
pub trait Handler {
    /// Handle `request`, starting from `response`.
    fn handle(&self, request: &HTTPRequest, response: HTTPResponse) -> (r: HTTPResult)
        requires
            request.wf(),
            response.wf(),
        ensures
            r matches Ok(resp) ==> resp.wf(),
    ;
}

/// The index of the first pattern in `pats` that matches the whole of
/// `path`, if any.
pub open spec fn spec_first_match(pats: Seq<Seq<char>>, path: Seq<u8>) -> Option<int>
    decreases pats.len(),
{
    if pats.len() == 0 {
        None
    } else if route_matches(pats[0], path) {
        Some(0int)
    } else {
        match spec_first_match(pats.skip(1), path) {
            None => None,
            Some(i) => Some(i + 1),
        }
    }
}

/// First-registered-wins: when two or more registered patterns match a path,
/// the selected index is the least of them, however specific a later
/// pattern is; and no index is selected only when no pattern matches.
pub proof fn lemma_first_match(pats: Seq<Seq<char>>, path: Seq<u8>)
    ensures
        match spec_first_match(pats, path) {
            Some(i) => 0 <= i < pats.len() && route_matches(pats[i], path) && (forall|j: int|
                0 <= j < i ==> !route_matches(pats[j], path)),
            None => forall|j: int| 0 <= j < pats.len() ==> !route_matches(pats[j], path),
        },
    decreases pats.len(),
{
    if pats.len() > 0 && !route_matches(pats[0], path) {
        lemma_first_match(pats.skip(1), path);
        let t = pats.skip(1);
        assert(forall|j: int| 0 <= j < t.len() ==> t[j] == pats[j + 1]);
        match spec_first_match(t, path) {
            Some(i) => {
                assert(t[i] == pats[i + 1]);
                assert forall|j: int| 0 <= j < i + 1 implies !route_matches(pats[j], path) by {
                    if j > 0 {
                        assert(t[j - 1] == pats[j]);
                    }
                }
            },
            None => {
                assert forall|j: int| 0 <= j < pats.len() implies !route_matches(pats[j], path) by {
                    if j > 0 {
                        assert(t[j - 1] == pats[j]);
                    }
                }
            },
        }
    }
}

proof fn lemma_first_match_is_first(pats: Seq<Seq<char>>, path: Seq<u8>, i: int)
    requires
        0 <= i < pats.len(),
        route_matches(pats[i], path),
        forall|j: int| 0 <= j < i ==> !route_matches(pats[j], path),
    ensures
        spec_first_match(pats, path) == Some(i),
    decreases i,
{
    if i > 0 {
        let t = pats.skip(1);
        assert(forall|j: int| 0 <= j < t.len() ==> t[j] == pats[j + 1]);
        assert(forall|j: int| 0 <= j < i - 1 ==> !route_matches(t[j], path));
        lemma_first_match_is_first(t, path, i - 1);
    }
}

/// An ordered route table.  Routes are registered before serving starts and
/// the table is read-only afterwards, shared by every connection.
pub struct RouteTable<H> {
    routes: Vec<(CompiledPattern, H)>,
}

impl<H: Handler> RouteTable<H> {
    /// The pattern texts in registration order.
    pub closed spec fn patterns(self) -> Seq<Seq<char>> {
        self.routes@.map_values(|r: (CompiledPattern, H)| r.0.source_spec())
    }

    /// The handler registered at index `i`.
    pub closed spec fn handler_at(self, i: int) -> H {
        self.routes@[i].1
    }

    /// An empty table.
    pub fn new() -> (r: RouteTable<H>)
        ensures
            r.patterns() == Seq::<Seq<char>>::empty(),
    {
        let r = RouteTable { routes: Vec::new() };
        proof {
            assert(r.patterns() =~= Seq::<Seq<char>>::empty());
        }
        r
    }

    /// Register a route: the pattern is compiled anchored (`^path$`) now,
    /// once.  Returns whether the pattern was accepted; a rejected pattern
    /// leaves the table unchanged.
    pub fn add_route(&mut self, path: String, func: H) -> (r: bool)
        ensures
            r == route_pattern_ok(path@),
            r ==> final(self).patterns() == old(self).patterns().push(path@),
            r ==> final(self).handler_at(old(self).patterns().len() as int) == func,
            r ==> forall|i: int|
                0 <= i < old(self).patterns().len() ==> final(self).handler_at(i) == old(
                    self,
                ).handler_at(i),
            !r ==> *final(self) == *old(self),
    {
        let ghost p = path@;
        match CompiledPattern::compile(path) {
            Some(c) => {
                self.routes.push((c, func));
                proof {
                    assert(self.patterns() =~= old(self).patterns().push(p));
                }
                true
            },
            None => false,
        }
    }

    /// The index of the first registered route whose anchored pattern
    /// matches the whole path, if any: first-registered-wins, not
    /// most-specific-wins.
    pub fn find_route(&self, path: &Vec<u8>) -> (r: Option<usize>)
        ensures
            match r {
                Some(i) => spec_first_match(self.patterns(), path@) == Some(i as int),
                None => spec_first_match(self.patterns(), path@) is None,
            },
    {
        let mut i: usize = 0;
        while i < self.routes.len()
            invariant
                i <= self.routes@.len(),
                self.patterns().len() == self.routes@.len(),
                forall|j: int| 0 <= j < i ==> !route_matches(self.patterns()[j], path@),
            decreases self.routes@.len() - i,
        {
            if self.routes[i].0.is_match(path) {
                proof {
                    lemma_first_match_is_first(self.patterns(), path@, i as int);
                }
                return Some(i);
            }
            i = i + 1;
        }
        proof {
            lemma_first_match(self.patterns(), path@);
        }
        None
    }
}

/// The built-in fallback handler: any request it sees gets the fixed 404
/// page.
pub fn router_404(_request: &HTTPRequest, response: HTTPResponse) -> (r: HTTPResult)
    ensures
        r matches Ok(resp) && resp.status == HTTPStatus::FileNotFound && resp.body@
            == spec_error_page(HTTPStatus::FileNotFound) && resp.headers == response.headers,
{
    let mut response = response;
    gen_http_error(HTTPStatus::FileNotFound, &mut response);
    Ok(response)
}

/// The response the router sends, given what the selected handler returned:
/// the handler's own response on success; on failure a brand-new 500
/// response with the fixed error page, so that nothing of the handler's
/// partial output leaks to the client.
pub fn resolve_handler_result(result: HTTPResult) -> (r: HTTPResponse)
    ensures
        match result {
            Ok(resp) => r == resp,
            Err(e) => r.status == HTTPStatus::InternalServerError && r.body@ == spec_error_page(
                HTTPStatus::InternalServerError,
            ) && r.headers@ == Map::<Seq<u8>, Seq<u8>>::empty() && r.headers.entries_seq()
                == Seq::<(Seq<u8>, Seq<u8>)>::empty() && r.wf(),
        },
{
    match result {
        Ok(resp) => resp,
        Err(_) => {
            let mut response = HTTPResponse::new();
            gen_http_error(HTTPStatus::InternalServerError, &mut response);
            response
        },
    }
}

/// What routing may return for `request` against `table`.  When no
/// registered pattern matches the path, `r` is the fixed 404 page on a fresh
/// response.  When the first match is at index `i`, there are a fresh empty
/// response and a result the selected handler's contract permits for
/// (request, that response), and `r` is that result's own response on
/// success, the fixed fresh 500 page on failure: first-registered-wins, and
/// nothing of a failing handler's partial output survives.
pub open spec fn spec_routed<H: Handler>(
    table: RouteTable<H>,
    request: HTTPRequest,
    r: HTTPResponse,
) -> bool {
    match spec_first_match(table.patterns(), request.path@) {
        None => r.status == HTTPStatus::FileNotFound && r.body@ == spec_error_page(
            HTTPStatus::FileNotFound,
        ) && r.headers@ == Map::<Seq<u8>, Seq<u8>>::empty() && r.headers.entries_seq()
            == Seq::<(Seq<u8>, Seq<u8>)>::empty(),
        Some(i) => exists|res: HTTPResult, resp0: HTTPResponse|
            {
                &&& resp0.status == HTTPStatus::Okay
                &&& resp0.headers@ == Map::<Seq<u8>, Seq<u8>>::empty()
                &&& resp0.headers.entries_seq() == Seq::<(Seq<u8>, Seq<u8>)>::empty()
                &&& resp0.body@ == Seq::<u8>::empty()
                &&& #[trigger] call_ensures(H::handle, (&table.handler_at(i), &request, resp0), res)
                &&& match res {
                    Ok(resp) => r == resp,
                    Err(e) => r.status == HTTPStatus::InternalServerError && r.body@
                        == spec_error_page(HTTPStatus::InternalServerError) && r.headers@
                        == Map::<Seq<u8>, Seq<u8>>::empty() && r.headers.entries_seq()
                        == Seq::<(Seq<u8>, Seq<u8>)>::empty(),
                }
            },
    }
}

/// Route a request: the first registered pattern matching the whole path
/// wins and its handler runs on a fresh empty response; an unmatched path
/// gets the built-in 404 page; a failing handler yields the fixed 500
/// response.  The router itself never fails.
pub fn router<H: Handler>(request: &HTTPRequest, routes: &RouteTable<H>) -> (r: HTTPResponse)
    requires
        request.wf(),
    ensures
        r.wf(),
        spec_routed(*routes, *request, r),
        spec_first_match(routes.patterns(), request.path@) is None ==> r.status
            == HTTPStatus::FileNotFound && r.body@ == spec_error_page(HTTPStatus::FileNotFound)
            && r.headers@ == Map::<Seq<u8>, Seq<u8>>::empty() && r.headers.entries_seq()
            == Seq::<(Seq<u8>, Seq<u8>)>::empty(),
{
    match routes.find_route(&request.path) {
        Some(i) => {
            proof {
                lemma_first_match(routes.patterns(), request.path@);
                assert(routes.patterns().len() == routes.routes@.len());
            }
            let fresh = HTTPResponse::new();
            let ghost fresh0 = fresh;
            let handled = routes.routes[i].1.handle(request, fresh);
            let ghost handled0 = handled;
            let r = resolve_handler_result(handled);
            proof {
                assert(call_ensures(
                    H::handle,
                    (&routes.handler_at(i as int), &*request, fresh0),
                    handled0,
                ));
                assert(spec_routed(*routes, *request, r));
            }
            r
        },
        None => {
            match router_404(request, HTTPResponse::new()) {
                Ok(resp) => resp,
                Err(_) => {
                    proof {
                        assert(false);
                    }
                    HTTPResponse::new()
                },
            }
        },
    }
}

/// Why a static or template lookup failed: the name is not there.
#[derive(Clone, Copy, PartialEq, Eq, Structural, Debug)]
pub struct LoadError;

/// The file-lookup collaborator: maps a relative name to its bytes, or
/// fails.
pub trait Loader {
    /// Look `name` up.
    fn load(&self, name: &Vec<u8>) -> Result<Vec<u8>, LoadError>;
}

/// What the static handler sends, given what the lookup returned: on
/// success the looked-up bytes become the body and the response is otherwise
/// untouched; on failure the response becomes the fixed 404 page.
pub fn serve_static(
    request: &HTTPRequest,
    response: HTTPResponse,
    loaded: Result<Vec<u8>, LoadError>,
) -> (r: HTTPResult)
    ensures
        match loaded {
            Ok(content) => r matches Ok(resp) && resp.status == response.status && resp.body@
                == content@ && resp.headers == response.headers,
            Err(e) => r matches Ok(resp) && resp.status == HTTPStatus::FileNotFound && resp.body@
                == spec_error_page(HTTPStatus::FileNotFound) && resp.headers == response.headers,
        },
{
    let mut response = response;
    match loaded {
        Ok(content) => {
            response.body = content;
            Ok(response)
        },
        Err(_) => {
            gen_http_error(HTTPStatus::FileNotFound, &mut response);
            Ok(response)
        },
    }
}

/// The built-in handler behind the default `/static/.*` route: the path
/// without its leading slash names the file to look up.
pub struct StaticHandler<L> {
    /// The lookup collaborator.
    pub loader: L,
}

impl<L: Loader> Handler for StaticHandler<L> {
    fn handle(&self, request: &HTTPRequest, response: HTTPResponse) -> (r: HTTPResult) {
        let name = if request.path.len() >= 1 {
            subvec(&request.path, 1, request.path.len())
        } else {
            Vec::new()
        };
        let loaded = self.loader.load(&name);
        serve_static(request, response, loaded)
    }
}

} // verus!
