//! The error taxonomy of the remote-call boundary.
//!
//! Every failure of a remote procedure call reaches callers through exactly
//! one seam: `RpcErrorMapper::map`. A structured rejection by the serving
//! endpoint keeps its numeric code and message; every other failure —
//! connection, timeout, malformed response — becomes a transport error with
//! a description. No other error shape escapes the boundary.

use vstd::prelude::*;

verus! {

/// A remote procedure failure as the transport hands it over: either the
/// endpoint itself rejected the call with its own code and message, or the
/// call failed below that level.
#[derive(Debug)]
pub enum RemoteFailure {
    Rejection { code: u64, message: String },
    Failure { description: String },
}

/// The user-facing remote-call error: a server-side rejection with its code
/// and message preserved, or a transport failure with a description.
#[derive(Debug)]
pub enum RpcError {
    Remote { code: u64, message: String },
    Transport { description: String },
}

/// The single seam through which every remote-call failure passes.
pub struct RpcErrorMapper;

impl RpcErrorMapper {
    /// Maps a remote result into the user-facing taxonomy: success passes
    /// through unchanged, a structured rejection keeps its code and message
    /// as `Remote`, and any other failure becomes `Transport`.
    pub fn map<T>(remote_result: Result<T, RemoteFailure>) -> (res: Result<T, RpcError>)
        ensures
            remote_result matches Ok(v) ==> (res matches Ok(w) && w == v),
            remote_result matches Err(RemoteFailure::Rejection { code, message }) ==> (
            res matches Err(e) && e matches RpcError::Remote { code: c, message: m } && c == code
                && m == message),
            remote_result matches Err(RemoteFailure::Failure { description }) ==> (
            res matches Err(e) && e matches RpcError::Transport { description: d } && d
                == description),
    {
        match remote_result {
            Ok(v) => Ok(v),
            Err(RemoteFailure::Rejection { code, message }) => Err(
                RpcError::Remote { code, message },
            ),
            Err(RemoteFailure::Failure { description }) => Err(
                RpcError::Transport { description },
            ),
        }
    }
}

} // verus!
