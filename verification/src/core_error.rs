use vstd::prelude::*;

use crate::error::ProtocolError;

verus! {

/// Why a networking operation failed. Failures of the transport are carried
/// as the text of the transport's error.
#[derive(Debug, Clone, PartialEq, Eq)]
pub enum CoreError {
    /// A QUIC connection failed.
    Quinn(String),
    /// Writing to a QUIC stream failed.
    Write(String),
    /// Reading from a QUIC stream failed.
    Read(String),
    /// A packet could not be encoded or decoded.
    Protocol(ProtocolError),
    /// The TLS configuration could not be built.
    Tls(String),
    /// An address could not be parsed.
    InvalidAddress(String),
    /// A peer of that username is already connected.
    PeerAlreadyExists(String),
    /// No peer of that username is connected.
    PeerNotFound(String),
    /// The peer closed the connection or broke the protocol.
    ConnectionClosed,
    /// A username was refused.
    InvalidUsername(String),
    /// Some other I/O operation failed.
    Io(String),
}

impl From<ProtocolError> for CoreError {
    fn from(e: ProtocolError) -> (r: CoreError) {
        CoreError::Protocol(e)
    }
}

impl vstd::std_specs::convert::FromSpecImpl<ProtocolError> for CoreError {
    open spec fn obeys_from_spec() -> bool {
        true
    }

    open spec fn from_spec(e: ProtocolError) -> CoreError {
        CoreError::Protocol(e)
    }
}

} // verus!
