pub use crate::error::{BlockedRequestError, MaxTriesExceededError, NoConnectionError, UnsupportedBrowserError};
