//! An embeddable HTTP/1.1 server core: an incremental request parser that
//! tolerates arbitrary chunk boundaries, a route-dispatch table, a response
//! wire encoder, and the connection bookkeeping of a readiness-driven
//! reactor. The surrounding program owns the sockets and the event loop; the
//! core here is pure logic over bytes and is verified.

use vstd::prelude::*;

pub mod bytes;
pub mod method;
pub mod status;
pub mod http;
pub mod parser;
pub mod encode;
pub mod demo;
pub mod router;
pub mod conn;

verus! {

/// Upper bound on the number of body bytes a request or response may carry.
/// A declared request length beyond it is silently truncated to it.
pub const MAX_CONTENT_SIZE: usize = 65535;

} // verus!
