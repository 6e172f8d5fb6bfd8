//! The errors that an exchange with a FastCGI server can end in.

use crate::meta::{ProtocolStatus, RequestType};
use vstd::prelude::*;

verus! {

/// How the transport failed.
#[derive(Debug, Clone, Copy, PartialEq, Eq, Structural)]
pub enum IoFailure {
    /// The stream ended in the middle of a header, a content or a padding.
    UnexpectedEof,
    /// A record was handed to the framer whose content does not have the
    /// length that its header gives.
    InvalidInput,
    /// Any other failure of the transport.
    Other,
}

/// Why an exchange failed.
#[derive(Debug, Clone, Copy, PartialEq, Eq, Structural)]
pub enum ClientError {
    /// The transport failed. The connection is unusable afterwards.
    Io(IoFailure),
    /// A name-value stream ended in the middle of a pair.
    MalformedParams,
    /// The server sent a record of a kind that is not valid while a response
    /// is received.
    UnexpectedServerRecord(RequestType),
    /// The response completed, and the server reported a protocol status
    /// other than `RequestComplete`. The second field is the application
    /// status.
    EndRequestWithProtocolStatus(ProtocolStatus, u32),
    /// A record arrived for another request. Reserved: such records are
    /// discarded, and this error is never returned.
    RequestIdMismatch,
}

/// The result of a client operation.
pub type ClientResult<T> = Result<T, ClientError>;

impl ClientError {
    /// The error of a response that ended with `protocol_status`.
    pub fn new_end_request_with_protocol_status(
        protocol_status: ProtocolStatus,
        app_status: u32,
    ) -> (e: Self)
        ensures
            e == ClientError::EndRequestWithProtocolStatus(protocol_status, app_status),
    {
        ClientError::EndRequestWithProtocolStatus(protocol_status, app_status)
    }

    /// Whether a keep-alive connection must not be used again after this
    /// error: true of transport failures and of unexpected records.
    pub open spec fn spec_poisons(self) -> bool {
        self is Io || self is UnexpectedServerRecord
    }

    /// Whether a keep-alive connection must not be used again after this
    /// error.
    pub fn poisons(&self) -> (r: bool)
        ensures
            r == self.spec_poisons(),
    {
        match self {
            ClientError::Io(_) => true,
            ClientError::UnexpectedServerRecord(_) => true,
            _ => false,
        }
    }
}

} // verus!
