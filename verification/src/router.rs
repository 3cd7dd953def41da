//! The router: an ordered list of routes and a fallback. The first route
//! that agrees with the method and matches the path handles the request.

use crate::http::request::RequestView;
use crate::http::response::{fresh_headers, ResponseView};
use crate::http::{Method, Request, Response, StatusCode, Version};
use crate::pattern::{captures, compile, Segment};
use crate::service::{Readiness, Service};
use crate::string_map::{distinct_keys, lemma_put, map_of, put, StringMap};
use crate::text::{decimal, segments};
use std::sync::Arc;
use vstd::prelude::*;

pub use crate::pattern::RoutePattern;
use vstd::utf8::encode_utf8;

verus! {

/// `Arc::clone` of the standard library: another pointer to the same value.
#[verifier::external_body]
fn share<T>(a: &Arc<T>) -> (res: Arc<T>)
    ensures
        res == *a,
{
    Arc::clone(a)
}

/// One route: a pattern, an optional method filter and a handler. Without
/// a filter the route takes every method.
pub struct Route<H> {
    pub pattern: RoutePattern,
    pub method: Option<Method>,
    pub handler: Arc<H>,
}

/// The routes in registration order, and the handler for requests that no
/// route takes. Without such a handler the router answers with a fixed
/// page. Every handler that a router holds accepts every request.
pub struct Router<H: Fn(Request) -> Result<Response, String>> {
    routes: Vec<Route<H>>,
    not_found_handler: Option<Arc<H>>,
}

/// What a route captures from a request with the given method and path
/// segments, or `None` where the route does not take it. A method filter
/// that disagrees settles the matter before the pattern is looked at.
pub open spec fn route_captures(
    pattern: Seq<Segment>,
    filter: Option<Method>,
    method: Method,
    path: Seq<Seq<char>>,
) -> Option<Map<Seq<char>, Seq<char>>> {
    match filter {
        Some(wanted) => if wanted == method {
            captures(pattern, path)
        } else {
            None
        },
        None => captures(pattern, path),
    }
}

/// The first route at or after `from` that takes the request, with what it
/// captures.
pub open spec fn select(
    table: Seq<(Seq<Segment>, Option<Method>)>,
    method: Method,
    path: Seq<Seq<char>>,
    from: int,
) -> Option<(int, Map<Seq<char>, Seq<char>>)>
    decreases table.len() - from,
{
    if from < 0 || from >= table.len() {
        None
    } else {
        match route_captures(table[from].0, table[from].1, method, path) {
            Some(captured) => Some((from, captured)),
            None => select(table, method, path, from + 1),
        }
    }
}

/// The request as a handler gets it: with the captured path parameters in
/// place of whatever parameters it carried, and nothing else changed.
pub open spec fn with_captures(request: RequestView, captured: Map<Seq<char>, Seq<char>>) -> RequestView {
    RequestView { params: captured, ..request }
}

/// The page that the router sends when nothing else is configured.
pub open spec fn not_found_page() -> Seq<char> {
    "<html><body><h1>404 - Not Found</h1></body></html>"@
}

/// The response that the router gives by default where no route matches.
pub open spec fn default_not_found(r: ResponseView) -> bool {
    &&& r.version == Version::HTTP1_1
    &&& r.status_code == StatusCode::NotFound
    &&& r.body == encode_utf8(not_found_page())
    &&& exists|date: Seq<char>|
        r.headers == put(
            put(fresh_headers(date), "Content-Type"@, "text/html"@),
            "Content-Length"@,
            decimal(r.body.len()),
        )
}

/// Makes the default response for a request that no route takes.
pub fn not_found_response() -> (r: Response)
    ensures
        default_not_found(r@),
        r.length_agrees(),
{
    let mut r = Response::new(StatusCode::NotFound);
    r.set_content_type("text/html");
    r.set_body("<html><body><h1>404 - Not Found</h1></body></html>".as_bytes_vec());
    r
}

impl<H: Fn(Request) -> Result<Response, String>> Router<H> {
    /// Every handler accepts every request.
    #[verifier::type_invariant]
    pub closed spec fn total(&self) -> bool {
        &&& forall|i: int, request: Request|
            0 <= i < self.routes@.len() ==> #[trigger] call_requires(
                *self.routes@[i].handler,
                (request,),
            )
        &&& self.not_found_handler is Some ==> forall|request: Request|
            call_requires(*self.not_found_handler->0, (request,))
    }

    /// Pattern and method filter of each route, in registration order.
    pub closed spec fn table(&self) -> Seq<(Seq<Segment>, Option<Method>)> {
        Seq::new(self.routes@.len(), |i: int| (self.routes@[i].pattern@, self.routes@[i].method))
    }

    /// The handlers of the routes, in registration order.
    pub closed spec fn handlers(&self) -> Seq<H> {
        Seq::new(self.routes@.len(), |i: int| *self.routes@[i].handler)
    }

    /// The configured handler for requests that no route takes.
    pub closed spec fn fallback(&self) -> Option<H> {
        match self.not_found_handler {
            Some(handler) => Some(*handler),
            None => None,
        }
    }

    /// The route that takes `request`, with what it captures.
    pub open spec fn selected(&self, request: RequestView) -> Option<
        (int, Map<Seq<char>, Seq<char>>),
    > {
        select(self.table(), request.method, segments(request.path), 0)
    }

    /// `outcome` is what the handler that the router picks for `request`
    /// may give: the handler of the selected route, called with the
    /// captured parameters in place of those that the request carried, or,
    /// where no route is selected, the fallback called with the request as
    /// it came, or the default page where no fallback is configured.
    pub open spec fn dispatched(&self, request: Request, outcome: Result<Response, String>) -> bool {
        match self.selected(request@) {
            Some((i, captured)) => exists|routed: Request|
                {
                    &&& routed@ == with_captures(request@, captured)
                    &&& #[trigger] call_ensures(self.handlers()[i], (routed,), outcome)
                },
            None => match self.fallback() {
                Some(handler) => call_ensures(handler, (request,), outcome),
                None => outcome matches Ok(r) && default_not_found(r@),
            },
        }
    }

    /// A router without routes, with the default answer for unknown paths.
    pub fn new() -> (router: Self)
        ensures
            router.table().len() == 0,
            router.handlers().len() == 0,
            router.fallback() is None,
    {
        Router { routes: Vec::new(), not_found_handler: None }
    }

    /// How many routes are registered.
    pub fn len(&self) -> (n: usize)
        ensures
            n == self.table().len(),
    {
        self.routes.len()
    }

    /// The method filter of route `i`.
    pub fn method_at(&self, i: usize) -> (method: Option<Method>)
        requires
            i < self.table().len(),
        ensures
            method == self.table()[i as int].1,
    {
        self.routes[i].method
    }

    /// Whether a handler for requests that no route takes is configured.
    pub fn has_not_found_handler(&self) -> (b: bool)
        ensures
            b == self.fallback().is_some(),
    {
        self.not_found_handler.is_some()
    }

    /// Finds the route that takes `request`: the first in registration
    /// order whose method filter agrees and whose pattern matches the path.
    pub fn resolve(&self, request: &Request) -> (r: Option<(usize, StringMap)>)
        ensures
            match r {
                Some((i, params)) => self.selected(request@) == Some((i as int, params@)) && i
                    < self.table().len(),
                None => self.selected(request@) is None,
            },
    {
        let mut i: usize = 0;
        while i < self.routes.len()
            invariant
                i <= self.routes.len(),
                self.selected(request@) == select(
                    self.table(),
                    request@.method,
                    segments(request@.path),
                    i as int,
                ),
            decreases self.routes.len() - i,
        {
            let route = &self.routes[i];
            let agrees = match route.method {
                Some(wanted) => wanted == request.method,
                None => true,
            };
            if agrees {
                match route.pattern.matches(request.path.as_str()) {
                    Some(params) => {
                        return Some((i, params));
                    },
                    None => {},
                }
            }
            i += 1;
        }
        None
    }

    /// Adds a route after those that are there. The handler has to accept
    /// every request.
    pub fn route(self, pattern: &str, method: Option<Method>, handler: H) -> (router: Self)
        requires
            forall|request: Request| call_requires(handler, (request,)),
        ensures
            router.table() == self.table().push((compile(pattern@), method)),
            router.handlers() == self.handlers().push(handler),
            router.fallback() == self.fallback(),
    {
        proof {
            use_type_invariant(&self);
        }
        let ghost before = self;
        let Router { routes, not_found_handler } = self;
        let mut routes = routes;
        let route = Route { pattern: RoutePattern::new(pattern), method, handler: Arc::new(handler) };
        routes.push(route);
        let router = Router { routes, not_found_handler };
        assert(router.table() =~= before.table().push((compile(pattern@), method)));
        assert(router.handlers() =~= before.handlers().push(handler));
        router
    }

    /// Adds a route for `GET`.
    pub fn get(self, pattern: &str, handler: H) -> (router: Self)
        requires
            forall|request: Request| call_requires(handler, (request,)),
        ensures
            router.table() == self.table().push((compile(pattern@), Some(Method::GET))),
            router.handlers() == self.handlers().push(handler),
            router.fallback() == self.fallback(),
    {
        self.route(pattern, Some(Method::GET), handler)
    }

    /// Adds a route for `POST`.
    pub fn post(self, pattern: &str, handler: H) -> (router: Self)
        requires
            forall|request: Request| call_requires(handler, (request,)),
        ensures
            router.table() == self.table().push((compile(pattern@), Some(Method::POST))),
            router.handlers() == self.handlers().push(handler),
            router.fallback() == self.fallback(),
    {
        self.route(pattern, Some(Method::POST), handler)
    }

    /// Replaces the handler for requests that no route takes. The handler
    /// has to accept every request.
    pub fn set_not_found_handler(self, handler: H) -> (router: Self)
        requires
            forall|request: Request| call_requires(handler, (request,)),
        ensures
            router.table() == self.table(),
            router.handlers() == self.handlers(),
            router.fallback() == Some(handler),
    {
        proof {
            use_type_invariant(&self);
        }
        let ghost before = self;
        let Router { routes, not_found_handler } = self;
        let router = Router { routes, not_found_handler: Some(Arc::new(handler)) };
        assert(router.table() =~= before.table());
        assert(router.handlers() =~= before.handlers());
        router
    }

    /// Hands `request` to the route that takes it, with the captured path
    /// parameters in place of whatever parameters it carried; where no
    /// route takes it, to the not-found handler, as it came.
    pub fn handle(&self, request: Request) -> (outcome: Result<Response, String>)
        ensures
            self.dispatched(request, outcome),
    {
        proof {
            use_type_invariant(self);
        }
        match self.resolve(&request) {
            Some((i, params)) => {
                let routed = request.with_params(params);
                let handler: &H = &self.routes[i].handler;
                let outcome = handler(routed);
                proof {
                    let picked = self.selected(request@).unwrap();
                    assert(*handler == self.handlers()[picked.0]);
                    assert(routed@ == with_captures(request@, picked.1));
                    assert(call_ensures(self.handlers()[picked.0], (routed,), outcome));
                }
                outcome
            },
            None => match &self.not_found_handler {
                Some(shared) => {
                    let handler: &H = &shared;
                    let outcome = handler(request);
                    proof {
                        assert(self.fallback() == Some(*handler));
                    }
                    outcome
                },
                None => {
                    assert(self.fallback() is None);
                    Ok(not_found_response())
                },
            },
        }
    }
}

impl<H: Fn(Request) -> Result<Response, String>> Service for Router<H> {
    open spec fn ready(&self) -> bool {
        true
    }

    open spec fn probed(&self, after: &Self, answer: Readiness) -> bool {
        *after == *self && answer == Readiness::Ready(Ok(()))
    }

    open spec fn served(
        &self,
        request: Request,
        after: &Self,
        lines: Seq<String>,
        outcome: Result<Response, String>,
    ) -> bool {
        &&& *after == *self
        &&& lines.len() == 0
        &&& self.dispatched(request, outcome)
    }

    fn poll_ready(&mut self) -> (answer: Readiness) {
        Readiness::Ready(Ok(()))
    }

    fn call(&mut self, request: Request, journal: &mut Vec<String>) -> (outcome: Result<
        Response,
        String,
    >) {
        self.handle(request)
    }
}

impl<H: Fn(Request) -> Result<Response, String>> Clone for Router<H> {
    /// The same routes and handlers; the copy shares the handlers with
    /// `self`.
    fn clone(&self) -> (router: Self)
        ensures
            router.table() == self.table(),
            router.handlers() == self.handlers(),
            router.fallback() == self.fallback(),
    {
        proof {
            use_type_invariant(self);
        }
        let mut routes: Vec<Route<H>> = Vec::new();
        let mut i: usize = 0;
        while i < self.routes.len()
            invariant
                i <= self.routes.len(),
                routes@.len() == i,
                forall|k: int|
                    0 <= k < i ==> {
                        &&& (#[trigger] routes@[k]).pattern@ == self.routes@[k].pattern@
                        &&& routes@[k].method == self.routes@[k].method
                        &&& routes@[k].handler == self.routes@[k].handler
                    },
            decreases self.routes.len() - i,
        {
            let route = &self.routes[i];
            routes.push(
                Route {
                    pattern: route.pattern.clone(),
                    method: route.method,
                    handler: share(&route.handler),
                },
            );
            i += 1;
        }
        let not_found_handler = match &self.not_found_handler {
            Some(shared) => Some(share(shared)),
            None => None,
        };
        let router = Router { routes, not_found_handler };
        assert(router.table() =~= self.table());
        assert(router.handlers() =~= self.handlers());
        router
    }
}

impl<H: Fn(Request) -> Result<Response, String>> Default for Router<H> {
    fn default() -> (router: Self)
        ensures
            router.table().len() == 0,
            router.handlers().len() == 0,
            router.fallback() is None,
    {
        Router::new()
    }
}

/// Nothing before the selected route takes the request, and the selected
/// route does.
pub proof fn lemma_select_first(
    table: Seq<(Seq<Segment>, Option<Method>)>,
    method: Method,
    path: Seq<Seq<char>>,
    from: int,
)
    requires
        0 <= from,
    ensures
        match select(table, method, path, from) {
            Some((i, captured)) => {
                &&& from <= i < table.len()
                &&& route_captures(table[i].0, table[i].1, method, path) == Some(captured)
                &&& forall|j: int|
                    from <= j < i ==> route_captures(table[j].0, table[j].1, method, path) is None
            },
            None => forall|j: int|
                from <= j < table.len() ==> route_captures(table[j].0, table[j].1, method, path)
                    is None,
        },
    decreases table.len() - from,
{
    if from < table.len() {
        if route_captures(table[from].0, table[from].1, method, path) is None {
            lemma_select_first(table, method, path, from + 1);
        }
    }
}

/// Registration order decides: of two routes that both take a request, the
/// one registered first is selected, never the later one.
pub proof fn lemma_first_registered_wins(
    table: Seq<(Seq<Segment>, Option<Method>)>,
    method: Method,
    path: Seq<Seq<char>>,
    a: int,
    b: int,
)
    requires
        0 <= a < b < table.len(),
        route_captures(table[a].0, table[a].1, method, path) is Some,
        route_captures(table[b].0, table[b].1, method, path) is Some,
    ensures
        select(table, method, path, 0) matches Some((i, _)) && i <= a && i != b,
{
    lemma_select_first(table, method, path, 0);
}

/// A route with a method filter is never selected for a request of another
/// method, whatever its pattern.
pub proof fn lemma_method_filter(
    table: Seq<(Seq<Segment>, Option<Method>)>,
    method: Method,
    path: Seq<Seq<char>>,
    k: int,
)
    requires
        0 <= k < table.len(),
        table[k].1 matches Some(wanted) && wanted != method,
    ensures
        route_captures(table[k].0, table[k].1, method, path) is None,
        !(select(table, method, path, 0) matches Some((i, _)) && i == k),
{
    lemma_select_first(table, method, path, 0);
}

/// The default answer for unknown paths is a 404 whose header fields say
/// `text/html` and the length of the fixed page.
pub proof fn lemma_default_not_found(r: ResponseView)
    requires
        default_not_found(r),
    ensures
        r.status_code.number() == 404,
        r.body == encode_utf8(not_found_page()),
        distinct_keys(r.headers),
        map_of(r.headers).contains_key("Content-Type"@),
        map_of(r.headers)["Content-Type"@] == "text/html"@,
        map_of(r.headers).contains_key("Content-Length"@),
        map_of(r.headers)["Content-Length"@] == decimal(r.body.len()),
{
    let date = choose|date: Seq<char>|
        r.headers == put(
            put(fresh_headers(date), "Content-Type"@, "text/html"@),
            "Content-Length"@,
            decimal(r.body.len()),
        );
    let fresh = fresh_headers(date);
    reveal_strlit("Server");
    reveal_strlit("Date");
    reveal_strlit("Content-Type");
    reveal_strlit("Content-Length");
    assert("Server"@.len() != "Date"@.len());
    assert("Content-Type"@.len() != "Content-Length"@.len());
    assert(distinct_keys(fresh));
    lemma_put(fresh, "Content-Type"@, "text/html"@);
    lemma_put(put(fresh, "Content-Type"@, "text/html"@), "Content-Length"@, decimal(r.body.len()));
}

/// A request that no route takes goes to the not-found handler, as it
/// came, and leaves the router as it was, so that the same request gets
/// the same treatment however often it is made. Without a configured
/// handler the answer is the default page.
pub proof fn lemma_unmatched_request<H: Fn(Request) -> Result<Response, String>>(
    router: Router<H>,
    request: Request,
    after: Router<H>,
    lines: Seq<String>,
    outcome: Result<Response, String>,
)
    requires
        router.selected(request@) is None,
        router.served(request, &after, lines, outcome),
    ensures
        after == router,
        lines.len() == 0,
        router.fallback() is None ==> (outcome matches Ok(r) && default_not_found(r@)),
        router.fallback() is Some ==> call_ensures(router.fallback()->0, (request,), outcome),
{
}

} // verus!
