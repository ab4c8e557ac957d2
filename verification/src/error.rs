use vstd::prelude::*;

verus! {

/// Why a packet or an identity could not be encoded or decoded.
#[derive(Debug, Clone, Copy, PartialEq, Eq, Structural)]
pub enum ProtocolError {
    /// The input ended before the structure it announced.
    TooShort,
    /// The first byte of a packet names no known packet type.
    UnknownPacketType(u8),
    /// A text field is not valid UTF-8.
    InvalidUtf8,
    /// A text field is too large for its length prefix (or empty where a
    /// value is required).
    FieldTooLarge,
    /// The packet is malformed in some other way.
    InvalidPacket,
}

} // verus!
