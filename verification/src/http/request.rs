//! The request value.

use crate::http::{Method, Version};
use crate::string_map::StringMap;
use vstd::prelude::*;

verus! {

/// What a request holds, as plain mathematical values.
pub struct RequestView {
    pub method: Method,
    pub path: Seq<char>,
    pub version: Version,
    pub headers: Map<Seq<char>, Seq<char>>,
    pub body: Seq<u8>,
    pub params: Map<Seq<char>, Seq<char>>,
    pub query: Map<Seq<char>, Seq<char>>,
}

/// One parsed request. `path` never holds the query string; `params` is
/// empty until a router fills it.
#[derive(Debug)]
pub struct Request {
    pub method: Method,
    pub path: String,
    pub version: Version,
    pub headers: StringMap,
    pub body: Vec<u8>,
    pub params: StringMap,
    pub query: StringMap,
}

impl View for Request {
    type V = RequestView;

    open spec fn view(&self) -> RequestView {
        RequestView {
            method: self.method,
            path: self.path@,
            version: self.version,
            headers: self.headers@,
            body: self.body@,
            params: self.params@,
            query: self.query@,
        }
    }
}

impl Request {
    /// The path parameter captured under `key`, if the route captured one.
    pub fn param(&self, key: &str) -> (r: Option<&String>)
        ensures
            match r {
                Some(v) => self@.params.contains_key(key@) && v@ == self@.params[key@],
                None => !self@.params.contains_key(key@),
            },
    {
        self.params.get(key)
    }

    /// The query parameter under `key`, if the target carried one.
    pub fn query_param(&self, key: &str) -> (r: Option<&String>)
        ensures
            match r {
                Some(v) => self@.query.contains_key(key@) && v@ == self@.query[key@],
                None => !self@.query.contains_key(key@),
            },
    {
        self.query.get(key)
    }

    /// The same request with its path parameters replaced by `params`.
    pub fn with_params(&self, params: StringMap) -> (r: Request)
        ensures
            r@ == (RequestView { params: params@, ..self@ }),
    {
        Request {
            method: self.method,
            path: self.path.clone(),
            version: self.version,
            headers: self.headers.clone(),
            body: self.body.clone(),
            params,
            query: self.query.clone(),
        }
    }
}

impl Clone for Request {
    fn clone(&self) -> (r: Self)
        ensures
            r@ == self@,
    {
        Request {
            method: self.method,
            path: self.path.clone(),
            version: self.version,
            headers: self.headers.clone(),
            body: self.body.clone(),
            params: self.params.clone(),
            query: self.query.clone(),
        }
    }
}

} // verus!
