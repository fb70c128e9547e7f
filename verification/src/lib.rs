//! A tiny HTTP server library: an incremental HTTP/1.1 request parser that
//! describes every parsed field as a byte range of the raw request, and a
//! router that matches a method and a path against an ordered list of
//! patterns.

pub mod asset;
pub mod compression;
pub mod error;
pub mod http_parser;
pub mod markdown;
pub mod method;
pub mod request;
pub mod responder;
pub mod response;
pub mod router;
pub mod server;
pub mod session;
pub mod streaming;
pub mod string_map;
pub mod text;
pub mod util;

pub use compression::Compression;
pub use error::Error;
pub use method::Method;
pub use request::{Request, Span};
pub use responder::Responder;
pub use response::Response;
pub use router::Router;
