//! The service abstraction: a readiness probe and a call that handles one
//! request, and layers that wrap one service in another.

use crate::http::{Request, Response};
use vstd::prelude::*;

verus! {

/// What a readiness probe answers.
pub enum Readiness {
    /// The service cannot say yet.
    Pending,
    /// The service is ready, or has failed for good.
    Ready(Result<(), String>),
}

/// A unit that handles one request at a time. Lines that a service wants
/// to report go to the journal that the caller hands in, in the order in
/// which they arise.
pub trait Service {
    /// The service has answered a probe with success and may be called. A
    /// service that says nothing here may always be called.
    open spec fn ready(&self) -> bool {
        true
    }

    /// A probe of `self` may give `answer` and leave `after`. Of a service
    /// that says nothing here, any answer is to be expected.
    open spec fn probed(&self, after: &Self, answer: Readiness) -> bool {
        true
    }

    /// A call of `self` with `request` may write `lines`, give `outcome`
    /// and leave `after`. Of a service that says nothing here, anything is
    /// to be expected.
    open spec fn served(
        &self,
        request: Request,
        after: &Self,
        lines: Seq<String>,
        outcome: Result<Response, String>,
    ) -> bool {
        true
    }

    /// Asks whether the service can take a request now.
    fn poll_ready(&mut self) -> (answer: Readiness)
        ensures
            old(self).probed(final(self), answer),
            answer matches Readiness::Ready(Ok(_)) ==> final(self).ready(),
    ;

    /// Handles one request. The service must have answered the probe
    /// before it with success.
    fn call(&mut self, request: Request, journal: &mut Vec<String>) -> (outcome: Result<
        Response,
        String,
    >)
        requires
            old(self).ready(),
        ensures
            old(journal)@.len() <= final(journal)@.len(),
            final(journal)@.take(old(journal)@.len() as int) == old(journal)@,
            old(self).served(
                request,
                final(self),
                final(journal)@.skip(old(journal)@.len() as int),
                outcome,
            ),
    ;
}

/// Something that wraps a service of type `S` in another service.
pub trait Layer<S> {
    /// The service that comes out.
    type Service;

    /// The service that wrapping `inner` gives.
    spec fn wrap(&self, inner: S) -> Self::Service;

    /// Wraps `inner`.
    fn layer(&self, inner: S) -> (outer: Self::Service)
        ensures
            outer == self.wrap(inner),
    ;
}

/// The layer that changes nothing.
pub struct Identity;

impl<S> Layer<S> for Identity {
    type Service = S;

    open spec fn wrap(&self, inner: S) -> S {
        inner
    }

    fn layer(&self, inner: S) -> (outer: S) {
        inner
    }
}

/// Two layers as one: `inner` is applied to the service first, `outer`
/// round the result.
pub struct Stack<Inner, Outer> {
    pub inner: Inner,
    pub outer: Outer,
}

impl<S, Inner: Layer<S>, Outer: Layer<Inner::Service>> Layer<S> for Stack<Inner, Outer> {
    type Service = Outer::Service;

    open spec fn wrap(&self, service: S) -> Outer::Service {
        self.outer.wrap(self.inner.wrap(service))
    }

    fn layer(&self, service: S) -> (outer: Outer::Service) {
        self.outer.layer(self.inner.layer(service))
    }
}

/// Builds a service from a base service and layers. The layer that is
/// added first ends up outermost: it sees a request first and its outcome
/// last.
pub struct ServiceBuilder<S, L> {
    pub service: S,
    pub layers: L,
}

impl<S> ServiceBuilder<S, Identity> {
    /// A builder that holds `service` and no layer yet.
    pub fn new(service: S) -> (b: Self)
        ensures
            b.service == service,
            b.layers == Identity,
    {
        ServiceBuilder { service, layers: Identity }
    }
}

impl<S, L> ServiceBuilder<S, L> {
    /// Adds a layer inside those added before.
    pub fn layer<T>(self, layer: T) -> (b: ServiceBuilder<S, Stack<T, L>>)
        ensures
            b.service == self.service,
            b.layers == (Stack { inner: layer, outer: self.layers }),
    {
        ServiceBuilder { service: self.service, layers: Stack { inner: layer, outer: self.layers } }
    }
}

impl<S, L: Layer<S>> ServiceBuilder<S, L> {
    /// The service that `build` gives.
    pub open spec fn built(self) -> L::Service {
        self.layers.wrap(self.service)
    }

    /// Wraps the base service in the layers.
    pub fn build(self) -> (service: L::Service)
        ensures
            service == self.built(),
    {
        self.layers.layer(self.service)
    }
}

/// Two layers added in the order `first`, `second` give the service in
/// which `first` wraps `second` and `second` wraps the base.
pub proof fn lemma_first_layer_outermost<S, A: Layer<B::Service>, B: Layer<S>>(
    base: S,
    first: A,
    second: B,
)
    ensures
        (ServiceBuilder {
            service: base,
            layers: Stack { inner: second, outer: Stack { inner: first, outer: Identity } },
        }).built() == first.wrap(second.wrap(base)),
{
}

/// A service made of a plain function that accepts every request.
pub struct HandlerService<F: Fn(Request) -> Result<Response, String>> {
    f: F,
}

impl<F: Fn(Request) -> Result<Response, String>> HandlerService<F> {
    /// The function that answers.
    pub closed spec fn handler(&self) -> F {
        self.f
    }

    /// The function accepts every request.
    #[verifier::type_invariant]
    pub closed spec fn total(&self) -> bool {
        forall|request: Request| call_requires(self.f, (request,))
    }
}

impl<F: Fn(Request) -> Result<Response, String>> Service for HandlerService<F> {
    open spec fn ready(&self) -> bool {
        true
    }

    open spec fn probed(&self, after: &Self, answer: Readiness) -> bool {
        *after == *self && answer == Readiness::Ready(Ok(()))
    }

    open spec fn served(
        &self,
        request: Request,
        after: &Self,
        lines: Seq<String>,
        outcome: Result<Response, String>,
    ) -> bool {
        &&& *after == *self
        &&& lines.len() == 0
        &&& call_ensures(self.handler(), (request,), outcome)
    }

    fn poll_ready(&mut self) -> (answer: Readiness) {
        Readiness::Ready(Ok(()))
    }

    fn call(&mut self, request: Request, journal: &mut Vec<String>) -> (outcome: Result<
        Response,
        String,
    >) {
        proof {
            use_type_invariant(&*self);
        }
        (self.f)(request)
    }
}

/// Makes a service of a function that accepts every request.
pub fn service_fn<F: Fn(Request) -> Result<Response, String>>(f: F) -> (service: HandlerService<F>)
    requires
        forall|request: Request| call_requires(f, (request,)),
    ensures
        service.handler() == f,
{
    HandlerService { f }
}

} // verus!
