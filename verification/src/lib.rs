//! Request gating and response rewriting for a reverse proxy that stands in
//! front of a single upstream server.
//!
//! The crate holds the decisions of the proxy as plain functions over plain
//! values: the session store and token codec, the access check, the registry of
//! redaction stages, the compression step and the repair of response headers.
//! Sockets, timers and the HTTP transport live with the caller.

pub mod brotli_compressor;
pub mod captcha;
pub mod cookie_manager;
pub mod dashboard;
pub mod headers;
pub mod ipv4_detector;
pub mod ipv6_detector;
pub mod module;
pub mod pattern;
pub mod proxy;
pub mod text;
