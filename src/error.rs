use vstd::prelude::*;

verus! {

#[derive(Debug)]
/// The service refused the request.
pub struct BlockedRequestError;

/// The network could not be reached.
#[derive(Debug)]
pub struct NoConnectionError;

/// The named browser is not supported.
#[derive(Debug)]
pub struct UnsupportedBrowserError(pub String);

/// An operation failed on every try.
#[derive(Debug)]
pub struct MaxTriesExceededError;

/// A name did not match any variant of the named enumeration.
#[derive(Debug)]
pub struct ParseEnumError(pub String);

/// The service kept answering "too many requests" until the waiting allowance ran out.
#[derive(Debug)]
pub struct RateLimitTimeoutExceededError;

/// An argument could not be read; holds the offending text.
#[derive(Debug)]
pub struct ParseArgsError(pub String);

/// No user goes by the given email address.
#[derive(Debug)]
pub struct InvalidEmailError;

/// The application ended with the given exit code.
#[derive(Debug)]
pub struct ExitCodeError(pub i32);

/// A record from the service lacks a required member, or holds one of the wrong
/// type; holds the member's name.
#[derive(Debug)]
pub struct MalformedResponseError(pub String);

} // verus!
