//! The server value and the life of one connection: reading until the
//! header block is complete, parsing, dispatching, and the bytes to send.

use crate::http::parser::{parse, parse_request, utf8_lossy};
use crate::http::request::RequestView;
use crate::http::response::{fresh_headers, wire, ResponseView};
use crate::http::{Request, Response, StatusCode, Version};
use crate::middleware::{CorsLayer, CorsMiddleware, LogLayer, LogMiddleware};
use crate::router::Router;
use crate::service::{Layer, Readiness, Service, ServiceBuilder};
use crate::string_map::put;
use crate::text::decimal;
use vstd::prelude::*;
use vstd::utf8::encode_utf8;

verus! {

/// How many bytes one read asks for at most.
pub const CHUNK_SIZE: usize = 4096;

/// How many bytes of an unfinished header block a connection may gather.
pub const MAX_REQUEST_BYTES: usize = 1048576;

/// How many seconds a read may wait for the peer.
pub const READ_TIMEOUT_SECS: u64 = 30;

/// An address to listen on and the service that answers.
#[derive(Clone)]
pub struct Server<S> {
    pub address: String,
    pub service: S,
}

impl<S: Service> Server<S> {
    /// A server for `address` that answers with `service`.
    pub fn new(address: &str, service: S) -> (server: Self)
        ensures
            server.address@ == address@,
            server.service == service,
    {
        Server { address: address.to_string(), service }
    }
}

/// A server whose router is wrapped in the reporting layer and, inside it,
/// the cross-origin layer.
pub fn new_server<H: Fn(Request) -> Result<Response, String>>(address: &str, router: Router<H>) -> (server:
    Server<LogMiddleware<CorsMiddleware<Router<H>>>>)
    ensures
        server.address@ == address@,
        server.service == (LogMiddleware { inner: CorsMiddleware { inner: router } }),
{
    let service = ServiceBuilder::new(router).layer(LogLayer).layer(CorsLayer).build();
    Server::new(address, service)
}

/// The four bytes that end a header block stand at `i`.
pub open spec fn terminator_at(bytes: Seq<u8>, i: int) -> bool {
    &&& 0 <= i
    &&& i + 4 <= bytes.len()
    &&& bytes[i] == 13
    &&& bytes[i + 1] == 10
    &&& bytes[i + 2] == 13
    &&& bytes[i + 3] == 10
}

/// The bytes hold the end of a header block.
pub open spec fn has_terminator(bytes: Seq<u8>) -> bool {
    exists|i: int| terminator_at(bytes, i)
}

/// What a connection does after a read.
#[derive(Debug, Clone, Copy, PartialEq, Eq, Structural)]
pub enum ReadStep {
    /// The header block is not complete: read again.
    Continue,
    /// The header block is complete: parse and dispatch.
    Complete,
    /// The peer closed: give the connection up, send nothing.
    Closed,
    /// Too much came without an end of the header block: give the
    /// connection up, send nothing.
    TooLarge,
}

/// What follows when `chunk` arrives on a connection that holds `buffer`.
/// A read of no bytes means that the peer closed.
pub open spec fn read_step(buffer: Seq<u8>, chunk: Seq<u8>) -> ReadStep {
    if chunk.len() == 0 {
        ReadStep::Closed
    } else if has_terminator(buffer + chunk) {
        ReadStep::Complete
    } else if (buffer + chunk).len() > MAX_REQUEST_BYTES {
        ReadStep::TooLarge
    } else {
        ReadStep::Continue
    }
}

/// How a connection ended.
#[derive(Debug, Clone, Copy, PartialEq, Eq, Structural)]
pub enum Ending {
    /// The request did not parse; a 400 was sent.
    BadRequest,
    /// The service was not ready; a 503 was sent.
    ServiceUnavailable,
    /// The service failed; a 500 was sent.
    InternalError,
    /// The service answered; its response was sent.
    ResponseSent,
    /// The peer closed before the header block was complete; nothing was sent.
    PeerClosed,
    /// The header block grew past the limit; nothing was sent.
    TooLarge,
}

/// Where a connection stands.
#[derive(Debug, Clone, Copy, PartialEq, Eq, Structural)]
pub enum Phase {
    Accepted,
    ReadingHeaders,
    Closed(Ending),
}

/// What the owner of the socket has to do next.
#[derive(Debug)]
pub enum Action {
    /// Read up to `CHUNK_SIZE` bytes, waiting `READ_TIMEOUT_SECS` at most.
    Read,
    /// Write these bytes, then close.
    Respond(Vec<u8>),
    /// Close without writing.
    Close,
}

/// A response that the server makes itself: plain text with the given
/// status.
pub open spec fn canned(r: ResponseView, status_code: StatusCode, text: Seq<char>) -> bool {
    &&& r.version == Version::HTTP1_1
    &&& r.status_code == status_code
    &&& r.body == encode_utf8(text)
    &&& exists|date: Seq<char>|
        r.headers == put(
            put(fresh_headers(date), "Content-Type"@, "text/plain"@),
            "Content-Length"@,
            decimal(r.body.len()),
        )
}

/// Makes a plain-text response with the given status.
pub fn canned_response(status_code: StatusCode, text: &str) -> (r: Response)
    ensures
        canned(r@, status_code, text@),
        r.length_agrees(),
{
    let mut r = Response::new(status_code);
    r.set_content_type("text/plain");
    r.set_body(text.as_bytes_vec());
    r
}

/// The outcome of a call decides how the connection ends and what is sent.
pub open spec fn settled(
    outcome: Result<Response, String>,
    ending: Ending,
    response: ResponseView,
) -> bool {
    match outcome {
        Ok(r) => ending == Ending::ResponseSent && response == r@,
        Err(_) => ending == Ending::InternalError && canned(
            response,
            StatusCode::InternalServerError,
            "Internal Server Error"@,
        ),
    }
}

/// What follows a probe that answered `answer` and left `probed`: on
/// success the call, whose outcome settles the rest; else a 503, with the
/// service not called.
pub open spec fn after_probe<S: Service>(
    probed: S,
    answer: Readiness,
    request: Request,
    after: S,
    lines: Seq<String>,
    ending: Ending,
    response: ResponseView,
) -> bool {
    if answer matches Readiness::Ready(Ok(_)) {
        exists|outcome: Result<Response, String>|
            {
                &&& #[trigger] probed.served(request, &after, lines, outcome)
                &&& settled(outcome, ending, response)
            }
    } else {
        &&& after == probed
        &&& lines.len() == 0
        &&& ending == Ending::ServiceUnavailable
        &&& canned(response, StatusCode::ServiceUnavailable, "Service Unavailable"@)
    }
}

/// The service `before` was probed once and, if ready, called once with
/// `request`; this left `after`, wrote `lines`, and made the connection
/// end as `ending` with `response` to send.
pub open spec fn dispatched<S: Service>(
    before: S,
    request: Request,
    after: S,
    lines: Seq<String>,
    ending: Ending,
    response: ResponseView,
) -> bool {
    exists|probed: S, answer: Readiness|
        {
            &&& #[trigger] before.probed(&probed, answer)
            &&& after_probe(probed, answer, request, after, lines, ending, response)
        }
}

/// Probes the service and, if it is ready, calls it with `request`.
pub fn dispatch<S: Service>(service: &mut S, request: Request, journal: &mut Vec<String>) -> (r: (
    Ending,
    Response,
))
    ensures
        old(journal)@.len() <= final(journal)@.len(),
        final(journal)@.take(old(journal)@.len() as int) == old(journal)@,
        dispatched(
            *old(service),
            request,
            *final(service),
            final(journal)@.skip(old(journal)@.len() as int),
            r.0,
            r.1@,
        ),
{
    let answer = service.poll_ready();
    let ghost probed = *service;
    let ghost shown = answer;
    let ready = match answer {
        Readiness::Ready(Ok(_)) => true,
        _ => false,
    };
    if !ready {
        let response = canned_response(StatusCode::ServiceUnavailable, "Service Unavailable");
        proof {
            assert(journal@.skip(journal@.len() as int).len() == 0);
            assert(after_probe(
                probed,
                shown,
                request,
                *service,
                journal@.skip(old(journal)@.len() as int),
                Ending::ServiceUnavailable,
                response@,
            ));
        }
        return (Ending::ServiceUnavailable, response);
    }
    let outcome = service.call(request, journal);
    let ghost lines = journal@.skip(old(journal)@.len() as int);
    let ghost witness = outcome;
    let r = match outcome {
        Ok(response) => (Ending::ResponseSent, response),
        Err(_) => (
            Ending::InternalError,
            canned_response(StatusCode::InternalServerError, "Internal Server Error"),
        ),
    };
    proof {
        assert(probed.served(request, &*service, lines, witness));
        assert(settled(witness, r.0, r.1@));
        assert(after_probe(probed, shown, request, *service, lines, r.0, r.1@));
    }
    r
}

/// The bytes `data` were parsed and, if they hold a request, dispatched;
/// `bytes` is what goes back to the peer.
pub open spec fn exchanged<S: Service>(
    before: S,
    data: Seq<u8>,
    after: S,
    lines: Seq<String>,
    ending: Ending,
    bytes: Seq<u8>,
) -> bool {
    match parse_request(utf8_lossy(data)) {
        Err(_) => {
            &&& after == before
            &&& lines.len() == 0
            &&& ending == Ending::BadRequest
            &&& exists|r: ResponseView| #[trigger]
                canned(r, StatusCode::BadRequest, "Bad Request"@) && bytes == wire(r)
        },
        Ok(parsed) => exists|request: Request, response: ResponseView|
            {
                &&& request@ == parsed
                &&& #[trigger] dispatched(before, request, after, lines, ending, response)
                &&& bytes == wire(response)
            },
    }
}

/// Parses `data`, dispatches the request and serialises what comes back.
/// A request that does not parse is answered with a 400 and never reaches
/// the service.
pub fn exchange<S: Service>(service: &mut S, data: &[u8], journal: &mut Vec<String>) -> (r: (
    Ending,
    Vec<u8>,
))
    ensures
        old(journal)@.len() <= final(journal)@.len(),
        final(journal)@.take(old(journal)@.len() as int) == old(journal)@,
        exchanged(
            *old(service),
            data@,
            *final(service),
            final(journal)@.skip(old(journal)@.len() as int),
            r.0,
            r.1@,
        ),
{
    match parse(data) {
        Err(_) => {
            let response = canned_response(StatusCode::BadRequest, "Bad Request");
            let bytes = response.to_bytes();
            proof {
                assert(journal@.skip(journal@.len() as int).len() == 0);
                assert(canned(response@, StatusCode::BadRequest, "Bad Request"@) && bytes@ == wire(
                    response@,
                ));
            }
            (Ending::BadRequest, bytes)
        },
        Ok(request) => {
            let ghost shown = request;
            let (ending, response) = dispatch(service, request, journal);
            let bytes = response.to_bytes();
            proof {
                let lines = journal@.skip(old(journal)@.len() as int);
                assert(dispatched(*old(service), shown, *service, lines, ending, response@));
            }
            (ending, bytes)
        },
    }
}

/// Whether `bytes` hold the end of a header block.
pub fn contains_terminator(bytes: &Vec<u8>) -> (found: bool)
    ensures
        found == has_terminator(bytes@),
{
    let n: usize = bytes.len();
    let mut i: usize = 0;
    while n >= 4 && i <= n - 4
        invariant
            n == bytes.len(),
            i <= n,
            forall|k: int| 0 <= k < i ==> !terminator_at(bytes@, k),
        decreases n - i,
    {
        if bytes[i] == 13 && bytes[i + 1] == 10 && bytes[i + 2] == 13 && bytes[i + 3] == 10 {
            assert(terminator_at(bytes@, i as int));
            return true;
        }
        i += 1;
    }
    false
}

/// One accepted connection: what has been read so far, and where the
/// exchange stands. It serves one request and is then closed.
pub struct Connection {
    pub phase: Phase,
    pub buffer: Vec<u8>,
}

impl Connection {
    /// A connection that was just accepted.
    pub fn new() -> (c: Self)
        ensures
            c.phase == Phase::Accepted,
            c.buffer@.len() == 0,
    {
        Connection { phase: Phase::Accepted, buffer: Vec::new() }
    }

    /// Starts reading. On a connection that is past `Accepted` nothing
    /// changes, and a closed one stays closed.
    pub fn begin(&mut self) -> (action: Action)
        ensures
            final(self).buffer@ == old(self).buffer@,
            match old(self).phase {
                Phase::Accepted => final(self).phase == Phase::ReadingHeaders && action is Read,
                Phase::ReadingHeaders => final(self).phase == Phase::ReadingHeaders
                    && action is Read,
                Phase::Closed(ending) => final(self).phase == old(self).phase && action is Close,
            },
    {
        match self.phase {
            Phase::Accepted => {
                self.phase = Phase::ReadingHeaders;
                Action::Read
            },
            Phase::ReadingHeaders => Action::Read,
            Phase::Closed(_) => Action::Close,
        }
    }

    /// Takes the bytes of one read; no bytes mean that the peer closed.
    /// Once the header block is complete the request is parsed and
    /// dispatched, and the bytes to write come back. A peer that closes
    /// early, and a header block that outgrows the limit, end the
    /// connection with nothing to write.
    pub fn receive<S: Service>(
        &mut self,
        chunk: &[u8],
        service: &mut S,
        journal: &mut Vec<String>,
    ) -> (action: Action)
        ensures
            old(journal)@.len() <= final(journal)@.len(),
            final(journal)@.take(old(journal)@.len() as int) == old(journal)@,
            received(
                *old(self),
                chunk@,
                *old(service),
                *final(self),
                *final(service),
                final(journal)@.skip(old(journal)@.len() as int),
                action,
            ),
    {
        proof {
            assert(journal@.skip(journal@.len() as int).len() == 0);
        }
        match self.phase {
            Phase::ReadingHeaders => {},
            _ => {
                return Action::Close;
            },
        }
        if chunk.len() == 0 {
            self.phase = Phase::Closed(Ending::PeerClosed);
            return Action::Close;
        }
        crate::http::response::append_bytes(&mut self.buffer, chunk);
        if contains_terminator(&self.buffer) {
            let (ending, bytes) = exchange(service, self.buffer.as_slice(), journal);
            self.phase = Phase::Closed(ending);
            return Action::Respond(bytes);
        }
        if self.buffer.len() > MAX_REQUEST_BYTES {
            self.phase = Phase::Closed(Ending::TooLarge);
            return Action::Close;
        }
        Action::Read
    }
}

/// `receive` on connection `before` with `chunk` and service `service`
/// left `after` and `served`, wrote `lines` and asks for `action`.
pub open spec fn received<S: Service>(
    before: Connection,
    chunk: Seq<u8>,
    service: S,
    after: Connection,
    served: S,
    lines: Seq<String>,
    action: Action,
) -> bool {
    if before.phase != Phase::ReadingHeaders {
        &&& after == before
        &&& served == service
        &&& lines.len() == 0
        &&& action is Close
    } else {
        match read_step(before.buffer@, chunk) {
            ReadStep::Closed => {
                &&& after.phase == Phase::Closed(Ending::PeerClosed)
                &&& after.buffer@ == before.buffer@
                &&& served == service
                &&& lines.len() == 0
                &&& action is Close
            },
            ReadStep::TooLarge => {
                &&& after.phase == Phase::Closed(Ending::TooLarge)
                &&& after.buffer@ == before.buffer@ + chunk
                &&& served == service
                &&& lines.len() == 0
                &&& action is Close
            },
            ReadStep::Continue => {
                &&& after.phase == Phase::ReadingHeaders
                &&& after.buffer@ == before.buffer@ + chunk
                &&& served == service
                &&& lines.len() == 0
                &&& action is Read
            },
            ReadStep::Complete => {
                &&& after.buffer@ == before.buffer@ + chunk
                &&& after.phase matches Phase::Closed(ending)
                &&& action matches Action::Respond(bytes)
                &&& exchanged(service, after.buffer@, served, lines, ending, bytes@)
            },
        }
    }
}

/// The chunks one after another.
pub open spec fn concat(chunks: Seq<Seq<u8>>) -> Seq<u8>
    decreases chunks.len(),
{
    if chunks.len() == 0 {
        Seq::empty()
    } else {
        chunks[0] + concat(chunks.drop_first())
    }
}

/// Where reading stands after the chunks arrived in order on a connection
/// that held `buffer`: the first step that is not `Continue` decides.
pub open spec fn read_all(buffer: Seq<u8>, chunks: Seq<Seq<u8>>) -> ReadStep
    decreases chunks.len(),
{
    if chunks.len() == 0 {
        ReadStep::Continue
    } else {
        match read_step(buffer, chunks[0]) {
            ReadStep::Continue => read_all(buffer + chunks[0], chunks.drop_first()),
            step => step,
        }
    }
}

/// A terminator in the front part of a byte sequence is one in the whole.
pub proof fn lemma_terminator_extends(front: Seq<u8>, back: Seq<u8>)
    requires
        has_terminator(front),
    ensures
        has_terminator(front + back),
{
    let i = choose|i: int| terminator_at(front, i);
    assert(terminator_at(front + back, i));
}

/// As long as what arrived holds no end of a header block, reading never
/// completes, so nothing is parsed and no response is written.
pub proof fn lemma_unterminated_never_completes(buffer: Seq<u8>, chunks: Seq<Seq<u8>>)
    requires
        !has_terminator(buffer + concat(chunks)),
    ensures
        read_all(buffer, chunks) != ReadStep::Complete,
    decreases chunks.len(),
{
    if chunks.len() > 0 {
        let rest = chunks.drop_first();
        assert(buffer + concat(chunks) =~= (buffer + chunks[0]) + concat(rest));
        if has_terminator(buffer + chunks[0]) {
            lemma_terminator_extends(buffer + chunks[0], concat(rest));
        }
        lemma_unterminated_never_completes(buffer + chunks[0], rest);
    }
}

/// A peer that sends less than a complete header block, within the limit,
/// and then closes makes the connection end as closed by the peer: no
/// response is written.
pub proof fn lemma_early_close(buffer: Seq<u8>, chunks: Seq<Seq<u8>>)
    requires
        !has_terminator(buffer + concat(chunks)),
        (buffer + concat(chunks)).len() <= MAX_REQUEST_BYTES,
        forall|i: int| 0 <= i < chunks.len() ==> chunks[i].len() > 0,
    ensures
        read_all(buffer, chunks) == ReadStep::Continue,
        read_all(buffer, chunks.push(Seq::empty())) == ReadStep::Closed,
    decreases chunks.len(),
{
    if chunks.len() > 0 {
        let rest = chunks.drop_first();
        assert(buffer + concat(chunks) =~= (buffer + chunks[0]) + concat(rest));
        if has_terminator(buffer + chunks[0]) {
            lemma_terminator_extends(buffer + chunks[0], concat(rest));
        }
        assert forall|i: int| 0 <= i < rest.len() implies rest[i].len() > 0 by {
            assert(rest[i] == chunks[i + 1]);
        }
        lemma_early_close(buffer + chunks[0], rest);
        assert(chunks.push(Seq::empty()).drop_first() =~= rest.push(Seq::empty()));
    } else {
        assert(chunks.push(Seq::<u8>::empty()).drop_first() =~= Seq::<Seq<u8>>::empty());
    }
}

/// A peer that sends more than the limit without ever completing the
/// header block makes the connection end as too large: no response is
/// written.
pub proof fn lemma_oversized(buffer: Seq<u8>, chunks: Seq<Seq<u8>>)
    requires
        !has_terminator(buffer + concat(chunks)),
        buffer.len() <= MAX_REQUEST_BYTES,
        (buffer + concat(chunks)).len() > MAX_REQUEST_BYTES,
        forall|i: int| 0 <= i < chunks.len() ==> chunks[i].len() > 0,
    ensures
        read_all(buffer, chunks) == ReadStep::TooLarge,
    decreases chunks.len(),
{
    if chunks.len() > 0 {
        let rest = chunks.drop_first();
        assert(buffer + concat(chunks) =~= (buffer + chunks[0]) + concat(rest));
        if has_terminator(buffer + chunks[0]) {
            lemma_terminator_extends(buffer + chunks[0], concat(rest));
        }
        if (buffer + chunks[0]).len() <= MAX_REQUEST_BYTES {
            assert forall|i: int| 0 <= i < rest.len() implies rest[i].len() > 0 by {
                assert(rest[i] == chunks[i + 1]);
            }
            lemma_oversized(buffer + chunks[0], rest);
        }
    } else {
        assert(buffer + concat(chunks) =~= buffer);
    }
}

} // verus!
