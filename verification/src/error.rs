//! Why bytes are not a control packet.
use vstd::prelude::*;

verus! {

/// The three places for SRT extensions behind a version 5 handshake, in the
/// order in which they follow it.
#[derive(Debug, Clone, Copy, PartialEq, Eq, Structural)]
pub enum ExtSlot {
    /// A handshake request or response
    Handshake,
    /// A key manager request or response
    KeyManager,
    /// A stream ID or a smoother
    Config,
}

/// What is wrong with the body of an SRT packet or extension.
#[derive(Debug, Clone, Copy, PartialEq, Eq, Structural)]
pub enum SrtError {
    /// The body of an SRT handshake is shorter than its three words
    HandshakeTooShort,
    /// A key message is shorter than its four header words
    KeyMessageTooShort,
    /// The version of a key message is not 1
    UnrecognizedKeyVersion(u8),
    /// No such cipher
    UnrecognizedCipher(u8),
    /// A key message declares neither an even nor an odd key
    NoKeys,
    /// The keys are not 16, 24 or 32 bytes long, but this long
    InvalidKeyLength(u16),
    /// The salt, the keys and the wrap data do not fit in what is left
    KeysTooShort,
    /// No such SRT packet type
    UnrecognizedType(u16),
}

/// What is wrong with a control packet.
#[derive(Debug, Clone, Copy, PartialEq, Eq, Structural)]
pub enum ParseError {
    /// Packet not large enough to be a handshake
    HandshakeTooShort,
    /// The UDT version is neither 4 nor 5
    IncompatibleVersion(i32),
    /// No such stage of the handshake
    InvalidShakeType(i32),
    /// No such socket type
    UnrecognizedSocketType(u16),
    /// Not enough room for a declared extension
    ExtensionTooShort,
    /// An extension of this type does not belong in this place
    UnexpectedExtension(ExtSlot, u16),
    /// The body of an SRT packet or extension is wrong
    Srt(SrtError),
    /// Not enough data for an ack packet
    AckTooShort,
    /// Not enough data for a drop request
    DropRequestTooShort,
    /// No such control packet type
    UnrecognizedControlType(u16),
}

} // verus!
