//! A small HTTP/1.x dispatch engine: route patterns, a service abstraction with
//! ordered middleware, a router, and the per-connection request lifecycle.

pub mod http;
pub mod middleware;
pub mod pattern;
pub mod router;
pub mod server;
pub mod service;
pub mod string_map;
pub mod text;
