//! The middleware that comes with the server: one that reports each request
//! and its outcome, and one that adds the headers for cross-origin access.

use crate::http::request::RequestView;
use crate::http::response::ResponseView;
use crate::http::{Method, Request, Response};
use crate::service::{Layer, Readiness, Service};
use crate::string_map::put;
use crate::text::{decimal, to_decimal};
use vstd::prelude::*;

verus! {

/// How the log names a method: the four common ones by name, the rest as
/// `OTHER`.
pub open spec fn method_label(method: Method) -> Seq<char> {
    match method {
        Method::GET => "GET"@,
        Method::POST => "POST"@,
        Method::PUT => "PUT"@,
        Method::DELETE => "DELETE"@,
        _ => "OTHER"@,
    }
}

/// The line that reports a request.
pub open spec fn request_line(request: RequestView) -> Seq<char> {
    "Request: "@ + method_label(request.method) + seq![' '] + request.path
}

/// The line that reports an outcome: the status code of a response, or the
/// text of an error.
pub open spec fn outcome_line(outcome: Result<Response, String>) -> Seq<char> {
    match outcome {
        Ok(response) => "Response: "@ + decimal(response.status_code.number()),
        Err(reason) => "Error: "@ + reason@,
    }
}

/// Writes the line that reports `request`.
pub fn describe_request(request: &Request) -> (line: String)
    ensures
        line@ == request_line(request@),
{
    let mut line = "Request: ".to_string();
    let label = match request.method {
        Method::GET => "GET",
        Method::POST => "POST",
        Method::PUT => "PUT",
        Method::DELETE => "DELETE",
        _ => "OTHER",
    };
    line.append(label);
    line.push(' ');
    line.append(request.path.as_str());
    line
}

/// Writes the line that reports `outcome`.
pub fn describe_outcome(outcome: &Result<Response, String>) -> (line: String)
    ensures
        line@ == outcome_line(*outcome),
{
    match outcome {
        Ok(response) => {
            let mut line = "Response: ".to_string();
            line.append(to_decimal(response.status_code.code() as usize).as_str());
            line
        },
        Err(reason) => {
            let mut line = "Error: ".to_string();
            line.append(reason.as_str());
            line
        },
    }
}

/// Wraps a service in `LogMiddleware`.
pub struct LogLayer;

/// Reports each request before the inner service sees it, and the outcome
/// once the inner service is done.
#[derive(Clone)]
pub struct LogMiddleware<S> {
    pub inner: S,
}

impl<S> Layer<S> for LogLayer {
    type Service = LogMiddleware<S>;

    open spec fn wrap(&self, inner: S) -> LogMiddleware<S> {
        LogMiddleware { inner }
    }

    fn layer(&self, inner: S) -> (outer: LogMiddleware<S>) {
        LogMiddleware { inner }
    }
}

impl<S: Service> Service for LogMiddleware<S> {
    open spec fn ready(&self) -> bool {
        self.inner.ready()
    }

    open spec fn probed(&self, after: &Self, answer: Readiness) -> bool {
        self.inner.probed(&after.inner, answer)
    }

    /// The first line reports the request, the last the outcome; what
    /// stands between them is the inner service's.
    open spec fn served(
        &self,
        request: Request,
        after: &Self,
        lines: Seq<String>,
        outcome: Result<Response, String>,
    ) -> bool {
        &&& lines.len() >= 2
        &&& lines.first()@ == request_line(request@)
        &&& lines.last()@ == outcome_line(outcome)
        &&& self.inner.served(request, &after.inner, lines.subrange(1, lines.len() - 1), outcome)
    }

    fn poll_ready(&mut self) -> (answer: Readiness) {
        self.inner.poll_ready()
    }

    fn call(&mut self, request: Request, journal: &mut Vec<String>) -> (outcome: Result<
        Response,
        String,
    >) {
        let ghost before = journal@;
        journal.push(describe_request(&request));
        let ghost entered = journal@;
        let outcome = self.inner.call(request, journal);
        let ghost returned = journal@;
        journal.push(describe_outcome(&outcome));
        proof {
            let n = before.len() as int;
            let lines = journal@.skip(n);
            assert(returned.take(n + 1) == entered);
            assert(lines.first() == entered[n]);
            assert(lines.subrange(1, lines.len() - 1) =~= returned.skip(n + 1));
            assert(returned.take(n) =~= returned.take(n + 1).take(n));
            assert(entered.take(n) =~= before);
            assert(journal@.take(n) =~= returned.take(n));
        }
        outcome
    }
}

/// The headers that allow cross-origin access.
pub open spec fn with_cors(headers: Seq<(Seq<char>, Seq<char>)>) -> Seq<(Seq<char>, Seq<char>)> {
    put(
        put(
            put(headers, "Access-Control-Allow-Origin"@, "*"@),
            "Access-Control-Allow-Methods"@,
            "GET, POST, PUT, DELETE, OPTIONS"@,
        ),
        "Access-Control-Allow-Headers"@,
        "Content-Type, Authorization"@,
    )
}

/// What the cross-origin middleware makes of an inner outcome: a response
/// gets the headers, an error passes as it is.
pub open spec fn cors_outcome(
    inner: Result<Response, String>,
    outcome: Result<Response, String>,
) -> bool {
    match inner {
        Ok(response) => outcome matches Ok(r) && r@ == (ResponseView {
            headers: with_cors(response@.headers),
            ..response@
        }),
        Err(reason) => outcome == inner,
    }
}

/// Adds the cross-origin headers to a response.
pub fn add_cors_headers(response: &mut Response)
    ensures
        final(response)@ == (ResponseView {
            headers: with_cors(old(response)@.headers),
            ..old(response)@
        }),
        old(response).length_agrees() ==> final(response).length_agrees(),
{
    proof {
        reveal_strlit("Access-Control-Allow-Origin");
        reveal_strlit("Access-Control-Allow-Methods");
        reveal_strlit("Access-Control-Allow-Headers");
        reveal_strlit("Content-Length");
        assert("Access-Control-Allow-Origin"@.len() != "Content-Length"@.len());
        assert("Access-Control-Allow-Methods"@.len() != "Content-Length"@.len());
        assert("Access-Control-Allow-Headers"@.len() != "Content-Length"@.len());
    }
    response.set_header("Access-Control-Allow-Origin", "*");
    response.set_header("Access-Control-Allow-Methods", "GET, POST, PUT, DELETE, OPTIONS");
    response.set_header("Access-Control-Allow-Headers", "Content-Type, Authorization");
}

/// Wraps a service in `CorsMiddleware`.
pub struct CorsLayer;

/// Adds the cross-origin headers to every response of the inner service.
#[derive(Clone)]
pub struct CorsMiddleware<S> {
    pub inner: S,
}

impl<S> Layer<S> for CorsLayer {
    type Service = CorsMiddleware<S>;

    open spec fn wrap(&self, inner: S) -> CorsMiddleware<S> {
        CorsMiddleware { inner }
    }

    fn layer(&self, inner: S) -> (outer: CorsMiddleware<S>) {
        CorsMiddleware { inner }
    }
}

impl<S: Service> Service for CorsMiddleware<S> {
    open spec fn ready(&self) -> bool {
        self.inner.ready()
    }

    open spec fn probed(&self, after: &Self, answer: Readiness) -> bool {
        self.inner.probed(&after.inner, answer)
    }

    /// The lines are the inner service's; the outcome is the inner one
    /// with the headers added.
    open spec fn served(
        &self,
        request: Request,
        after: &Self,
        lines: Seq<String>,
        outcome: Result<Response, String>,
    ) -> bool {
        exists|inner: Result<Response, String>|
            {
                &&& #[trigger] self.inner.served(request, &after.inner, lines, inner)
                &&& cors_outcome(inner, outcome)
            }
    }

    fn poll_ready(&mut self) -> (answer: Readiness) {
        self.inner.poll_ready()
    }

    fn call(&mut self, request: Request, journal: &mut Vec<String>) -> (outcome: Result<
        Response,
        String,
    >) {
        let inner = self.inner.call(request, journal);
        let ghost witness = inner;
        let ghost lines = journal@.skip(old(journal)@.len() as int);
        let outcome = match inner {
            Ok(response) => {
                let mut response = response;
                add_cors_headers(&mut response);
                Ok(response)
            },
            Err(reason) => Err(reason),
        };
        proof {
            assert(old(self).inner.served(request, &self.inner, lines, witness));
            assert(cors_outcome(witness, outcome));
        }
        outcome
    }
}

/// Two reporting layers round a base service write, in this order: the
/// outer one's request line, the inner one's request line, what the base
/// writes, the inner one's outcome line, the outer one's outcome line.
pub proof fn lemma_onion_order<S: Service>(
    outer: LogMiddleware<LogMiddleware<S>>,
    request: Request,
    after: LogMiddleware<LogMiddleware<S>>,
    lines: Seq<String>,
    outcome: Result<Response, String>,
)
    requires
        outer.served(request, &after, lines, outcome),
    ensures
        lines.len() >= 4,
        lines[0]@ == request_line(request@),
        lines[1]@ == request_line(request@),
        outer.inner.inner.served(
            request,
            &after.inner.inner,
            lines.subrange(2, lines.len() - 2),
            outcome,
        ),
        lines[lines.len() - 2]@ == outcome_line(outcome),
        lines[lines.len() - 1]@ == outcome_line(outcome),
{
    let middle = lines.subrange(1, lines.len() - 1);
    assert(middle.subrange(1, middle.len() - 1) =~= lines.subrange(2, lines.len() - 2));
}

/// The reporting layer round the cross-origin layer round a base service:
/// the request is reported first, then the base service runs, then the
/// headers are added, and the outcome that is reported last is the one
/// with the headers.
pub proof fn lemma_log_round_cors<S: Service>(
    outer: LogMiddleware<CorsMiddleware<S>>,
    request: Request,
    after: LogMiddleware<CorsMiddleware<S>>,
    lines: Seq<String>,
    outcome: Result<Response, String>,
)
    requires
        outer.served(request, &after, lines, outcome),
    ensures
        lines.len() >= 2,
        lines.first()@ == request_line(request@),
        lines.last()@ == outcome_line(outcome),
        exists|inner: Result<Response, String>|
            {
                &&& #[trigger] outer.inner.inner.served(
                    request,
                    &after.inner.inner,
                    lines.subrange(1, lines.len() - 1),
                    inner,
                )
                &&& cors_outcome(inner, outcome)
            },
{
}

} // verus!
