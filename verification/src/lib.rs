//! A small HTTP file server library: a worker pool that decouples
//! connection acceptance from request handling, an HTTP request parser,
//! response construction, and path routing.

pub mod http;
pub mod pool;
pub mod request;
pub mod response;
pub mod routing;
pub mod text;
