//! Error kinds of the client, each scoped as the run orchestration expects.

use vstd::prelude::*;

verus! {

/// What went wrong during a run or a one-shot query.
#[derive(Debug, Clone, Copy, PartialEq, Eq, Structural)]
pub enum ClientError {
    /// A connect, read, or write on one socket failed; scoped to the worker
    /// or one-shot query that raised it.
    Connection,
    /// A server reply did not match the protocol grammar.
    Protocol,
    /// The source image could not be decoded; fatal to the whole run.
    ImageDecode,
    /// A worker count or batch size of zero.
    Config,
}

impl ClientError {
    /// A short description of the error kind.
    pub fn describe(&self) -> (s: &'static str)
        ensures
            *self is Connection ==> s@ == "connection failed"@,
            *self is Protocol ==> s@ == "malformed server reply"@,
            *self is ImageDecode ==> s@ == "image could not be decoded"@,
            *self is Config ==> s@ == "invalid configuration"@,
    {
        match self {
            ClientError::Connection => "connection failed",
            ClientError::Protocol => "malformed server reply",
            ClientError::ImageDecode => "image could not be decoded",
            ClientError::Config => "invalid configuration",
        }
    }
}

} // verus!
