//! A small HTTP/1.1 request parser: method, target resource, protocol
//! version, header block and body, each read from the raw request text.
use vstd::prelude::*;

pub mod headers;
pub mod request;
pub mod text;

pub use headers::HttpHeader;
pub use request::{HttpRequest, Method, RequestError, Resource, Version, VersionError};

verus! {

} // verus!
