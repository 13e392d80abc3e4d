//! A client core for the Yammer REST API: a token-bucket rate limiter, the
//! backoff of a rate-limited request, the walk through a paginated message feed,
//! the reading and filtering of the service's JSON records, the rules that keep a
//! deletion off liked and foreign posts, and the rebuilding of a thread's reply
//! trees from its flat list of messages.
use vstd::prelude::*;

pub mod args;
pub mod backoff;
pub mod bucket;
pub mod error;
pub mod errors;
pub mod feed;
pub mod json;
pub mod message;
pub mod paging;
pub mod thread;

verus! {

} // verus!
