//! A SOCKS5 front end that relays connections and, for HTTP/1.x requests that
//! match a route rule, rewrites the request path prefix and diverts the request
//! to an alternate upstream.

pub mod bytes_util;
pub mod route;
pub mod http;
pub mod socks;
pub mod engine;
pub mod config;
pub mod logs;
