//! A verified HTTP request-routing core.
//!
//! The crate models a tree of routes (literal and `:name` parameter
//! segments), resolves an incoming request to a handler id together with
//! the path parameters and the inherited middleware chain, and builds the
//! correct fallback responses (404, 405 with `Allow`, HEAD body
//! stripping).  Handlers and middleware are carried as opaque `u64` ids;
//! the host embedding owns the actual function values and drives them
//! with the resolution this crate computes.

pub mod codec;
pub mod decimal;
pub mod dispatcher;
pub mod laws;
pub mod method;
pub mod request;
pub mod response;
pub mod router;
pub mod split;
pub mod strmap;

pub use codec::{decode_component, decode_query};
pub use dispatcher::{normalize_path, Dispatch, Dispatcher, ResolveResult};
pub use method::HttpMethod;
pub use request::Request;
pub use response::Response;
pub use router::Router;
pub use strmap::StrMap;
