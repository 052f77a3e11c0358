//! The small numeric types of the protocol.
use vstd::prelude::*;

verus! {

/// Sequence numbers have 31 bits.
pub const SEQ_NUMBER_COUNT: u32 = 0x8000_0000;

/// Message numbers have 26 bits.
pub const MSG_NUMBER_COUNT: u32 = 0x400_0000;

/// A packet sequence number.
#[derive(Debug, Clone, Copy, PartialEq, Eq, Structural)]
pub struct SeqNumber(pub u32);

/// A message number.
#[derive(Debug, Clone, Copy, PartialEq, Eq, Structural)]
pub struct MsgNumber(pub u32);

/// Identifies a socket, for multiplexing.
#[derive(Debug, Clone, Copy, PartialEq, Eq, Structural)]
pub struct SocketID(pub u32);

/// A version of SRT.
#[derive(Debug, Clone, Copy, PartialEq, Eq, Structural)]
pub struct SrtVersion {
    pub major: u8,
    pub minor: u8,
    pub patch: u8,
}

impl SeqNumber {
    /// The number is one that 31 bits can hold.
    pub open spec fn in_range(self) -> bool {
        self.0 < SEQ_NUMBER_COUNT
    }

    /// The sequence number in the low 31 bits of `from`.
    pub open spec fn truncate(from: u32) -> SeqNumber {
        SeqNumber(from % SEQ_NUMBER_COUNT)
    }

    /// The sequence number in the low 31 bits of `from`.
    pub fn new_truncate(from: u32) -> (r: SeqNumber)
        ensures
            r == SeqNumber::truncate(from),
            r.in_range(),
    {
        SeqNumber(from % SEQ_NUMBER_COUNT)
    }

    /// The number itself.
    pub fn as_raw(self) -> (r: u32)
        ensures
            r == self.0,
    {
        self.0
    }
}

impl MsgNumber {
    /// The number is one that 26 bits can hold.
    pub open spec fn in_range(self) -> bool {
        self.0 < MSG_NUMBER_COUNT
    }

    /// The message number in the low 26 bits of `from`.
    pub open spec fn truncate(from: u32) -> MsgNumber {
        MsgNumber(from % MSG_NUMBER_COUNT)
    }

    /// The message number in the low 26 bits of `from`.
    pub fn new_truncate(from: u32) -> (r: MsgNumber)
        ensures
            r == MsgNumber::truncate(from),
            r.in_range(),
    {
        MsgNumber(from % MSG_NUMBER_COUNT)
    }

    /// The number itself.
    pub fn as_raw(self) -> (r: u32)
        ensures
            r == self.0,
    {
        self.0
    }
}

impl SrtVersion {
    /// The version of SRT that is spoken here, 1.3.1.
    pub fn current() -> (r: SrtVersion)
        ensures
            r == (SrtVersion { major: 1, minor: 3, patch: 1 }),
    {
        SrtVersion { major: 1, minor: 3, patch: 1 }
    }

    /// The version `major.minor.patch`.
    pub fn new(major: u8, minor: u8, patch: u8) -> (r: SrtVersion)
        ensures
            r == (SrtVersion { major, minor, patch }),
    {
        SrtVersion { major, minor, patch }
    }

    /// The version as one number, a byte for each part below a zero byte.
    pub open spec fn code(self) -> u32 {
        (self.major * 0x1_0000 + self.minor * 0x100 + self.patch) as u32
    }

    /// The version in the three low bytes of `from`.
    pub open spec fn decode(from: u32) -> SrtVersion {
        SrtVersion {
            major: (from / 0x1_0000 % 0x100) as u8,
            minor: (from / 0x100 % 0x100) as u8,
            patch: (from % 0x100) as u8,
        }
    }

    /// The version as one number, a byte for each part below a zero byte.
    pub fn to_u32(self) -> (r: u32)
        ensures
            r == self.code(),
    {
        self.major as u32 * 0x1_0000 + self.minor as u32 * 0x100 + self.patch as u32
    }

    /// The version in the three low bytes of `from`.
    pub fn parse(from: u32) -> (r: SrtVersion)
        ensures
            r == SrtVersion::decode(from),
    {
        SrtVersion {
            major: (from / 0x1_0000 % 0x100) as u8,
            minor: (from / 0x100 % 0x100) as u8,
            patch: (from % 0x100) as u8,
        }
    }
}

} // verus!
