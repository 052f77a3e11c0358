//! SRT/UDT control packets: their types, their reading and their writing.
mod buffer;
pub mod canonical;
pub mod control;
pub mod error;
pub mod laws;
pub mod layout;
pub mod numbers;
pub mod reading;
pub mod srt;
pub mod wire;
pub mod writing;

pub use control::{
    ControlPacket, ControlPacketView, ControlTypes, ControlTypesView, HandshakeControlInfo,
    HandshakeVSInfo, HandshakeView, HandshakeWarnings, IpAddr, IpAddrView, ShakeType, SocketType, VSInfoView,
};
pub use error::{ExtSlot, ParseError, SrtError};
pub use numbers::{MsgNumber, SeqNumber, SocketID, SrtVersion};
pub use srt::{
    CipherType, KeyMessageView, SrtControlPacket, SrtControlView, SrtHandshake, SrtKeyMessage,
    SrtShakeFlags,
};
