//! The control packets.
use crate::buffer;
use crate::error::{ExtSlot, ParseError};
use crate::numbers::{MsgNumber, SeqNumber, SocketID};
use crate::srt::{SrtControlPacket, SrtControlView};
use crate::wire;
use vstd::prelude::*;

verus! {

/// Stands in place of the extension flags in a version 5 induction, so that the
/// peer sees that SRT is spoken.
pub const SRT_MAGIC_CODE: u16 = 0x4A17;

/// The extension flags say that there is a handshake extension.
pub const EXT_HS: u16 = 0b1;

/// The extension flags say that there is a key manager extension.
pub const EXT_KM: u16 = 0b10;

/// The extension flags say that there is a config extension (SID or smoother).
pub const EXT_CONFIG: u16 = 0b100;

/// The size of the header of a control packet, in bytes.
pub const HEADER_LEN: usize = 16;

/// The size of a handshake without extensions, in bytes: eight words and the
/// peer's address.
pub const HANDSHAKE_LEN: usize = 48;

/// What an ack holds where nothing is known of the round trip time.
pub const DEFAULT_RTT: i32 = 10_000;

/// What an ack holds where nothing is known of the variance of the round trip
/// time.
pub const DEFAULT_RTT_VARIANCE: i32 = 50_000;

/// What an ack holds where nothing is known of the available buffer.
pub const DEFAULT_BUFFER_AVAILABLE: i32 = 8175;

/// What an ack holds where nothing is known of the receive rate.
pub const DEFAULT_PACKET_RECV_RATE: i32 = 10_000;

/// What an ack holds where nothing is known of the link capacity.
pub const DEFAULT_EST_LINK_CAP: i32 = 1_000;

/// A UDP packet carrying control information
///
/// ```ignore
///  0                   1                   2                   3
///  0 1 2 3 4 5 6 7 8 9 0 1 2 3 4 5 6 7 8 9 0 1 2 3 4 5 6 7 8 9 0 1
///  +-+-+-+-+-+-+-+-+-+-+-+-+-+-+-+-+-+-+-+-+-+-+-+-+-+-+-+-+-+-+-+-+
///  |1|             Type            |            Reserved           |
///  +-+-+-+-+-+-+-+-+-+-+-+-+-+-+-+-+-+-+-+-+-+-+-+-+-+-+-+-+-+-+-+-+
///  |     |                    Additional Info                      |
///  +-+-+-+-+-+-+-+-+-+-+-+-+-+-+-+-+-+-+-+-+-+-+-+-+-+-+-+-+-+-+-+-+
///  |                            Time Stamp                         |
///  +-+-+-+-+-+-+-+-+-+-+-+-+-+-+-+-+-+-+-+-+-+-+-+-+-+-+-+-+-+-+-+-+
///  |                    Destination Socket ID                      |
///  +-+-+-+-+-+-+-+-+-+-+-+-+-+-+-+-+-+-+-+-+-+-+-+-+-+-+-+-+-+-+-+-+
///  |                                                               |
///  ~                 Control Information Field                     ~
///  |                                                               |
///  +-+-+-+-+-+-+-+-+-+-+-+-+-+-+-+-+-+-+-+-+-+-+-+-+-+-+-+-+-+-+-+-+
/// ```
/// (from <https://tools.ietf.org/html/draft-gg-udt-03#page-5>)
#[derive(Debug, Clone, PartialEq)]
pub struct ControlPacket {
    /// The timestamp, relative to the socket start time
    pub timestamp: i32,

    /// The dest socket ID, used for multiplexing
    pub dest_sockid: SocketID,

    /// The extra data
    pub control_type: ControlTypes,
}

/// The different kinds of control packets
#[derive(Debug, Clone, PartialEq)]
pub enum ControlTypes {
    /// For initiating connections, type 0x0.
    /// Does not use Additional Info
    Handshake(HandshakeControlInfo),

    /// To keep a connection alive, type 0x1.
    /// Does not use Additional Info or Control Info
    KeepAlive,

    /// ACK packet, type 0x2
    Ack {
        /// The ack sequence number of this ack, increments for each ack sent.
        /// Stored in Additional Info
        ack_seq_num: i32,

        /// The packet sequence number that all packets have been received
        /// until (excluding)
        ack_number: SeqNumber,

        /// Round trip time
        rtt: Option<i32>,

        /// RTT variance
        rtt_variance: Option<i32>,

        /// Available buffer
        buffer_available: Option<i32>,

        /// Receive rate, in packets/sec
        packet_recv_rate: Option<i32>,

        /// Estimated link capacity
        est_link_cap: Option<i32>,
    },

    /// NAK packet, type 0x3, with the lost packets as a compressed list.
    /// Additional Info isn't used
    Nak(Vec<u32>),

    /// Shutdown packet, type 0x5
    Shutdown,

    /// Acknowledgement of an acknowledgement (ACK2), type 0x6.
    /// Additional Info holds the ack sequence number to acknowledge
    Ack2(i32),

    /// Drop request, type 0x7
    DropRequest {
        /// The message to drop.
        /// Stored in Additional Info
        msg_to_drop: MsgNumber,

        /// The first sequence number in the message to drop
        first: SeqNumber,

        /// The last sequence number in the message to drop
        last: SeqNumber,
    },

    /// SRT control packets.
    /// These use the UDT extension type 0x7FFF, with their own type in the
    /// reserved half word
    Srt(SrtControlPacket),
}

/// HS-version dependent data
#[derive(Debug, Clone, PartialEq)]
pub enum HandshakeVSInfo {
    /// Version 4, plain UDT
    V4(SocketType),

    /// Version 5, with SRT extensions
    V5 {
        /// The crypto key size in bytes, either 0 (no encryption), 16, 24, or 32
        crypto_size: u8,

        /// The extension HSReq/HSResp
        ext_hs: Option<SrtControlPacket>,

        /// The extension KMREQ/KMRESP
        ext_km: Option<SrtControlPacket>,

        /// The extension config (SID, smoother)
        ext_config: Option<SrtControlPacket>,
    },
}

/// The control info for handshake packets
#[derive(Debug, Clone, PartialEq)]
pub struct HandshakeControlInfo {
    /// The initial sequence number, usually randomly initialized
    pub init_seq_num: SeqNumber,

    /// Max packet size, including UDP/IP headers. 1500 by default
    pub max_packet_size: u32,

    /// Max flow window size, by default 25600
    pub max_flow_size: u32,

    /// Designates where in the handshake process this packet lies
    pub shake_type: ShakeType,

    /// The socket ID that this request is originating from
    pub socket_id: SocketID,

    /// The cookie that a server makes from the client's address and a secret
    /// key, and that the client has to send back
    pub syn_cookie: i32,

    /// The IP address of the connecting client
    pub peer_addr: IpAddr,

    /// The rest of the data, which is HS version specific
    pub info: HandshakeVSInfo,
}

/// An IP address, as its octets in the order in which they are written
#[derive(Debug, Clone, Copy, PartialEq)]
pub enum IpAddr {
    V4([u8; 4]),
    V6([u8; 16]),
}

/// The socket type for a handshake.
#[derive(Debug, Clone, Copy, PartialEq, Eq, Structural)]
pub enum SocketType {
    /// A stream socket, 1 when serialized
    Stream,

    /// A datagram socket, 2 when serialized
    Datagram,
}

/// Where in the handshake process a packet lies. See
/// <https://tools.ietf.org/html/draft-gg-udt-03#page-10>
///
/// The client-server connection uses:
/// --> INDUCTION (empty)
/// <-- INDUCTION (cookie)
/// --> CONCLUSION (cookie)
/// <-- CONCLUSION (ok)
///
/// The rendezvous HSv4 (legacy):
/// --> WAVEAHAND (effective only if peer is also connecting)
/// <-- CONCLUSION (empty) (consider yourself connected upon reception)
/// --> AGREEMENT (sent as a response for conclusion, requires no response)
///
/// The rendezvous HSv5 (using SRT extensions):
/// --> WAVEAHAND (with cookie)
/// --- (selecting INITIATOR/RESPONDER by comparing one another's cookie)
/// <-- CONCLUSION (without extensions, if RESPONDER, with extensions, if INITIATOR)
/// --> CONCLUSION (with response extensions, if RESPONDER)
/// <-- AGREEMENT (sent by INITIATOR on a CONCLUSION with response extensions)
#[derive(Debug, Clone, Copy, PartialEq, Eq, Structural)]
pub enum ShakeType {
    /// First handshake exchange in client-server connection, 1
    Induction,

    /// A rendezvous connection, initial connect request, 0
    Waveahand,

    /// A rendezvous connection, response to initial connect request, -1.
    /// Also a regular connection client response to the second handshake
    Conclusion,

    /// Final rendezvous check, -2
    Agreement,
}

impl SocketType {
    /// The number that stands for the socket type on the wire.
    pub open spec fn code(self) -> u16 {
        match self {
            SocketType::Stream => 1,
            SocketType::Datagram => 2,
        }
    }

    /// The socket type that `num` stands for, or `num` itself if there is none.
    pub open spec fn decode(num: u16) -> Result<SocketType, u16> {
        if num == 1 {
            Ok(SocketType::Stream)
        } else if num == 2 {
            Ok(SocketType::Datagram)
        } else {
            Err(num)
        }
    }

    /// Turns a number into a `SocketType`. If there is none for it (only 1 and 2
    /// are valid), the number comes back.
    pub fn from_u16(num: u16) -> (r: Result<SocketType, u16>)
        ensures
            r == SocketType::decode(num),
            r is Ok <==> num == 1 || num == 2,
            r matches Ok(t) ==> t.code() == num,
            r matches Err(n) ==> n == num,
    {
        match num {
            1 => Ok(SocketType::Stream),
            2 => Ok(SocketType::Datagram),
            i => Err(i),
        }
    }

    /// The number that stands for the socket type on the wire.
    pub fn to_u16(self) -> (r: u16)
        ensures
            r == self.code(),
    {
        match self {
            SocketType::Stream => 1,
            SocketType::Datagram => 2,
        }
    }
}

impl ShakeType {
    /// The number that stands for the stage on the wire.
    pub open spec fn code(self) -> i32 {
        match self {
            ShakeType::Induction => 1,
            ShakeType::Waveahand => 0,
            ShakeType::Conclusion => (-1) as i32,
            ShakeType::Agreement => (-2) as i32,
        }
    }

    /// The stage that `num` stands for, or `num` itself if there is none.
    pub open spec fn decode(num: i32) -> Result<ShakeType, i32> {
        if num == 1 {
            Ok(ShakeType::Induction)
        } else if num == 0 {
            Ok(ShakeType::Waveahand)
        } else if num == -1 {
            Ok(ShakeType::Conclusion)
        } else if num == -2 {
            Ok(ShakeType::Agreement)
        } else {
            Err(num)
        }
    }

    /// Turns a number into a `ShakeType`. If there is none for it, the number
    /// comes back.
    pub fn from_i32(num: i32) -> (r: Result<ShakeType, i32>)
        ensures
            r == ShakeType::decode(num),
            r is Ok <==> -2 <= num <= 1,
            r matches Ok(t) ==> t.code() == num,
            r matches Err(n) ==> n == num,
    {
        match num {
            1 => Ok(ShakeType::Induction),
            0 => Ok(ShakeType::Waveahand),
            -1 => Ok(ShakeType::Conclusion),
            -2 => Ok(ShakeType::Agreement),
            i => Err(i),
        }
    }

    /// The number that stands for the stage on the wire.
    pub fn to_i32(self) -> (r: i32)
        ensures
            r == self.code(),
    {
        match self {
            ShakeType::Induction => 1,
            ShakeType::Waveahand => 0,
            ShakeType::Conclusion => -1,
            ShakeType::Agreement => -2,
        }
    }
}

/// An IP address as a mathematical value.
#[verifier::ext_equal]
pub enum IpAddrView {
    V4(Seq<u8>),
    V6(Seq<u8>),
}

impl View for IpAddr {
    type V = IpAddrView;

    open spec fn view(&self) -> IpAddrView {
        match *self {
            IpAddr::V4(octets) => IpAddrView::V4(octets@),
            IpAddr::V6(octets) => IpAddrView::V6(octets@),
        }
    }
}

impl IpAddrView {
    /// The 16 bytes of the address: the octets from the last to the first, those
    /// of an IPv4 address with zeros behind them.
    pub open spec fn bytes(self) -> Seq<u8> {
        match self {
            IpAddrView::V4(octets) => octets.reverse() + Seq::new(12, |i: int| 0u8),
            IpAddrView::V6(octets) => octets.reverse(),
        }
    }

    /// The address in the 16 bytes `b`: an IPv4 address, from the last octet to
    /// the first, where all bytes behind its four are zero, else an IPv6 address,
    /// from the first octet to the last.
    pub open spec fn read(b: Seq<u8>) -> IpAddrView {
        if forall|i: int| 4 <= i < 16 ==> b[i] == 0 {
            IpAddrView::V4(seq![b[3], b[2], b[1], b[0]])
        } else {
            IpAddrView::V6(b.take(16))
        }
    }

    /// The address has as many octets as one of its kind.
    pub open spec fn well_formed(self) -> bool {
        match self {
            IpAddrView::V4(octets) => octets.len() == 4,
            IpAddrView::V6(octets) => octets.len() == 16,
        }
    }

    /// The address comes through the wire unchanged: it is an IPv4 address, or
    /// an IPv6 address that is the same in both directions and not all zero.
    pub open spec fn symmetric(self) -> bool {
        match self {
            IpAddrView::V4(_) => true,
            IpAddrView::V6(octets) => {
                &&& octets.reverse() == octets
                &&& exists|i: int| 0 <= i < 16 && octets[i] != 0
            },
        }
    }
}

impl IpAddr {
    /// Takes an address from the front of `buf`.
    fn parse(buf: &mut &[u8]) -> (r: IpAddr)
        requires
            old(buf)@.len() >= 16,
        ensures
            r@ == IpAddrView::read(old(buf)@),
            final(buf)@ == old(buf)@.skip(16),
    {
        let mut ip_buf: [u8; 16] = [0; 16];
        buffer::copy_to_slice(buf, &mut ip_buf);
        let ghost b = old(buf)@;
        assert(forall|j: int| 0 <= j < 16 ==> ip_buf@[j] == b[j]);
        let mut i: usize = 4;
        while i < 16
            invariant
                4 <= i <= 16,
                forall|j: int| 4 <= j < i ==> ip_buf@[j] == 0,
                forall|j: int| 0 <= j < 16 ==> ip_buf@[j] == b[j],
                ip_buf@ =~= b.take(16),
                b == old(buf)@,
                buf@ == old(buf)@.skip(16),
            decreases 16 - i,
        {
            if ip_buf[i] != 0 {
                assert(b[i as int] != 0);
                return IpAddr::V6(ip_buf);
            }
            i = i + 1;
        }
        let octets: [u8; 4] = [ip_buf[3], ip_buf[2], ip_buf[1], ip_buf[0]];
        assert(octets@ =~= seq![b[3], b[2], b[1], b[0]]);
        IpAddr::V4(octets)
    }

    /// Appends the address to `into`.
    fn serialize(&self, into: &mut Vec<u8>)
        requires
            wire::room_for(old(into)@.len(), 16),
        ensures
            final(into)@ == old(into)@ + self@.bytes(),
    {
        match self {
            IpAddr::V4(octets) => {
                let v = reversed(octets.as_slice());
                buffer::put(into, v.as_slice());
                // The field has room for an IPv6 address
                let zeros: [u8; 12] = [0; 12];
                buffer::put(into, zeros.as_slice());
                assert(into@ =~= old(into)@ + self@.bytes());
            },
            IpAddr::V6(octets) => {
                let v = reversed(octets.as_slice());
                buffer::put(into, v.as_slice());
            },
        }
    }
}

/// The bytes from the last to the first.
fn reversed(bytes: &[u8]) -> (r: Vec<u8>)
    ensures
        r@ == bytes@.reverse(),
{
    let mut v: Vec<u8> = Vec::new();
    let mut i: usize = bytes.len();
    while i > 0
        invariant
            i <= bytes@.len(),
            v@.len() == bytes@.len() - i,
            forall|j: int| 0 <= j < v@.len() ==> v@[j] == bytes@[bytes@.len() - 1 - j],
        decreases i,
    {
        i = i - 1;
        v.push(bytes[i]);
    }
    assert(v@ =~= bytes@.reverse());
    v
}

/// HS-version dependent data as a mathematical value.
#[verifier::ext_equal]
pub enum VSInfoView {
    V4(SocketType),
    V5 {
        crypto_size: u8,
        ext_hs: Option<SrtControlView>,
        ext_km: Option<SrtControlView>,
        ext_config: Option<SrtControlView>,
    },
}

/// The control info of a handshake as a mathematical value.
#[verifier::ext_equal]
pub struct HandshakeView {
    pub init_seq_num: SeqNumber,
    pub max_packet_size: u32,
    pub max_flow_size: u32,
    pub shake_type: ShakeType,
    pub socket_id: SocketID,
    pub syn_cookie: i32,
    pub peer_addr: IpAddrView,
    pub info: VSInfoView,
}

/// An extension that may be there, as a mathematical value.
pub open spec fn ext_view(ext: Option<SrtControlPacket>) -> Option<SrtControlView> {
    match ext {
        Some(p) => Some(p@),
        None => None,
    }
}

impl View for HandshakeVSInfo {
    type V = VSInfoView;

    open spec fn view(&self) -> VSInfoView {
        match *self {
            HandshakeVSInfo::V4(ty) => VSInfoView::V4(ty),
            HandshakeVSInfo::V5 { crypto_size, ext_hs, ext_km, ext_config } => VSInfoView::V5 {
                crypto_size,
                ext_hs: ext_view(ext_hs),
                ext_km: ext_view(ext_km),
                ext_config: ext_view(ext_config),
            },
        }
    }
}

impl View for HandshakeControlInfo {
    type V = HandshakeView;

    open spec fn view(&self) -> HandshakeView {
        HandshakeView {
            init_seq_num: self.init_seq_num,
            max_packet_size: self.max_packet_size,
            max_flow_size: self.max_flow_size,
            shake_type: self.shake_type,
            socket_id: self.socket_id,
            syn_cookie: self.syn_cookie,
            peer_addr: self.peer_addr@,
            info: self.info@,
        }
    }
}

impl ExtSlot {
    /// The lower of the two types of SRT packets that belong in this place.
    pub open spec fn first_type(self) -> u16 {
        match self {
            ExtSlot::Handshake => 1,
            ExtSlot::KeyManager => 3,
            ExtSlot::Config => 5,
        }
    }

    /// An SRT packet of this type belongs in this place.
    pub open spec fn allows(self, kind: u16) -> bool {
        kind == self.first_type() || kind == self.first_type() + 1
    }

    /// Whether an SRT packet of this type belongs in this place.
    fn admits(self, kind: u16) -> (r: bool)
        ensures
            r == self.allows(kind),
    {
        match self {
            // 1 and 2 are handshake requests and responses
            ExtSlot::Handshake => kind == 1 || kind == 2,
            // 3 and 4 are key manager requests and responses
            ExtSlot::KeyManager => kind == 3 || kind == 4,
            // 5 is SID, 6 is smoother
            ExtSlot::Config => kind == 5 || kind == 6,
        }
    }
}

/// The bytes of an extension that may be there: its type, its length in words,
/// and its body.
pub open spec fn ext_bytes(ext: Option<SrtControlView>) -> Seq<u8> {
    match ext {
        Some(p) => wire::u16_bytes(p.type_id()) + wire::u16_bytes(
            (p.words() % 0x1_0000) as u16,
        ) + p.bytes(),
        None => Seq::empty(),
    }
}

/// What `b` starts with where an extension for `slot` is declared or not: the
/// extension or the error, and the bytes behind it. The length that an extension
/// gives for itself is passed over.
pub open spec fn ext_read(declared: bool, slot: ExtSlot, b: Seq<u8>) -> (
    Result<Option<SrtControlView>, ParseError>,
    Seq<u8>,
) {
    if !declared {
        (Ok(None), b)
    } else if b.len() < 4 {
        (Err(ParseError::ExtensionTooShort), b)
    } else if !slot.allows(wire::u16_at(b, 0)) {
        (Err(ParseError::UnexpectedExtension(slot, wire::u16_at(b, 0))), b.skip(4))
    } else {
        let (ext, rest) = SrtControlView::read(wire::u16_at(b, 0), b.skip(4));
        (
            match ext {
                Ok(p) => Ok(Some(p)),
                Err(e) => Err(ParseError::Srt(e)),
            },
            rest,
        )
    }
}

/// An extension that may be there is one for its place that the wire can hold.
pub open spec fn ext_well_formed(slot: ExtSlot, ext: Option<SrtControlView>) -> bool {
    ext matches Some(p) ==> slot.allows(p.type_id()) && p.well_formed()
}

/// The value of an extension flag.
pub open spec fn flag(ext: Option<SrtControlView>, bit: u16) -> int {
    if ext is Some {
        bit as int
    } else {
        0
    }
}

/// The crypto key size that a handshake declares by `field`, in units of eight
/// bytes. Other sizes than 16, 24 and 32 mean none.
pub open spec fn crypto_size_of(field: u16) -> u8 {
    let size = field * 8 % 0x1_0000;
    if size == 16 || size == 24 || size == 32 {
        size as u8
    } else {
        0
    }
}

impl VSInfoView {
    /// The UDT version.
    pub open spec fn version(self) -> u32 {
        match self {
            VSInfoView::V4(_) => 4,
            VSInfoView::V5 { .. } => 5,
        }
    }

    /// There is an extension.
    pub open spec fn has_extensions(self) -> bool {
        self matches VSInfoView::V5 { ext_hs, ext_km, ext_config, .. } && (ext_hs is Some || ext_km
            is Some || ext_config is Some)
    }

    /// The crypto size is one of those in use, and each extension is one for its
    /// place that the wire can hold.
    pub open spec fn well_formed(self) -> bool {
        match self {
            VSInfoView::V4(_) => true,
            VSInfoView::V5 { crypto_size, ext_hs, ext_km, ext_config } => {
                &&& crypto_size == 0 || crypto_size == 16 || crypto_size == 24 || crypto_size == 32
                &&& ext_well_formed(ExtSlot::Handshake, ext_hs)
                &&& ext_well_formed(ExtSlot::KeyManager, ext_km)
                &&& ext_well_formed(ExtSlot::Config, ext_config)
            },
        }
    }

    /// The second word of the handshake. In version 4 it is the socket type. In
    /// version 5 the upper half is the crypto size in units of eight bytes; the
    /// lower half is the magic code in an induction, else the extension flags.
    pub open spec fn type_flags(self, shake_type: ShakeType) -> u32 {
        match self {
            VSInfoView::V4(ty) => ty.code() as u32,
            VSInfoView::V5 { crypto_size, ext_hs, ext_km, ext_config } => (crypto_size / 8
                * 0x1_0000 + (if shake_type == ShakeType::Induction {
                SRT_MAGIC_CODE as int
            } else {
                flag(ext_hs, EXT_HS) + flag(ext_km, EXT_KM) + flag(ext_config, EXT_CONFIG)
            })) as u32,
        }
    }

    /// The bytes of the extensions.
    pub open spec fn bytes(self) -> Seq<u8> {
        match self {
            VSInfoView::V4(_) => Seq::empty(),
            VSInfoView::V5 { ext_hs, ext_km, ext_config, .. } => ext_bytes(ext_hs) + ext_bytes(
                ext_km,
            ) + ext_bytes(ext_config),
        }
    }

    /// What follows the 48 bytes of a version 5 handshake that is no induction
    /// and whose extension flags are `flags`: the extensions or the error, and
    /// the bytes behind them. Other bits than the three flags are passed over.
    pub open spec fn read_extensions(crypto_size: u8, flags: u16, b: Seq<u8>) -> (
        Result<VSInfoView, ParseError>,
        Seq<u8>,
    ) {
        let (hs, b_km) = ext_read(flags % 2 == 1, ExtSlot::Handshake, b);
        let (km, b_config) = ext_read(flags / 2 % 2 == 1, ExtSlot::KeyManager, b_km);
        let (config, rest) = ext_read(flags / 4 % 2 == 1, ExtSlot::Config, b_config);
        match hs {
            Err(e) => (Err(e), b_km),
            Ok(ext_hs) => match km {
                Err(e) => (Err(e), b_config),
                Ok(ext_km) => match config {
                    Err(e) => (Err(e), rest),
                    Ok(ext_config) => (
                        Ok(VSInfoView::V5 { crypto_size, ext_hs, ext_km, ext_config }),
                        rest,
                    ),
                },
            },
        }
    }

    /// The version dependent data of a handshake: what its version `version`,
    /// the halves `crypto` and `flags` of its second word and its stage say, with
    /// the bytes `b` behind its 48. `version` is 4 or 5.
    pub open spec fn read(
        version: i32,
        crypto: u16,
        flags: u16,
        shake_type: ShakeType,
        b: Seq<u8>,
    ) -> (Result<VSInfoView, ParseError>, Seq<u8>) {
        if version == 4 {
            (
                match SocketType::decode(flags) {
                    Ok(ty) => Ok(VSInfoView::V4(ty)),
                    Err(n) => Err(ParseError::UnrecognizedSocketType(n)),
                },
                b,
            )
        } else if shake_type == ShakeType::Induction {
            (
                Ok(
                    VSInfoView::V5 {
                        crypto_size: crypto_size_of(crypto),
                        ext_hs: None,
                        ext_km: None,
                        ext_config: None,
                    },
                ),
                b,
            )
        } else {
            VSInfoView::read_extensions(crypto_size_of(crypto), flags, b)
        }
    }
}

/// Reads an extension for `slot` from the front of `buf`, if it is declared.
fn parse_extension(declared: bool, slot: ExtSlot, buf: &mut &[u8]) -> (r: Result<
    Option<SrtControlPacket>,
    ParseError,
>)
    ensures
        ext_read(declared, slot, old(buf)@).0 == (match r {
            Ok(ext) => Ok(ext_view(ext)),
            Err(e) => Err(e),
        }),
        final(buf)@ == ext_read(declared, slot, old(buf)@).1,
{
    if !declared {
        return Ok(None);
    }
    if buffer::remaining(buf) < 4 {
        return Err(ParseError::ExtensionTooShort);
    }
    broadcast use wire::lemma_skip_skip;

    let pack_type = buffer::get_u16(buf);
    let _pack_size = buffer::get_u16(buf);
    if !slot.admits(pack_type) {
        return Err(ParseError::UnexpectedExtension(slot, pack_type));
    }
    match SrtControlPacket::parse(pack_type, buf) {
        Ok(p) => Ok(Some(p)),
        Err(e) => Err(ParseError::Srt(e)),
    }
}

/// Appends an extension to `into`, if it is there.
fn serialize_extension(ext: &Option<SrtControlPacket>, into: &mut Vec<u8>)
    requires
        wire::room_for(old(into)@.len(), ext_bytes(ext_view(*ext)).len()),
    ensures
        final(into)@ == old(into)@ + ext_bytes(ext_view(*ext)),
{
    match ext {
        Some(p) => {
            buffer::put_u16(into, p.type_id());
            // The size in 32-bit words
            buffer::put_u16(into, p.size_words());
            p.serialize(into);
            assert(into@ =~= old(into)@ + ext_bytes(Some(p@)));
        },
        None => {
            assert(into@ =~= old(into)@ + ext_bytes(None));
        },
    }
}

impl HandshakeVSInfo {
    /// Reads the version dependent data of a handshake of the given version and
    /// stage: `crypto_field` and `type_ext_socket_type` are the halves of its
    /// second word, and extensions stand at the front of `buf`.
    fn parse(
        udt_version: i32,
        crypto_field: u16,
        type_ext_socket_type: u16,
        shake_type: ShakeType,
        buf: &mut &[u8],
    ) -> (r: Result<HandshakeVSInfo, ParseError>)
        requires
            udt_version == 4 || udt_version == 5,
        ensures
            wire::outcome(r) == VSInfoView::read(
                udt_version,
                crypto_field,
                type_ext_socket_type,
                shake_type,
                old(buf)@,
            ).0,
            final(buf)@ == VSInfoView::read(
                udt_version,
                crypto_field,
                type_ext_socket_type,
                shake_type,
                old(buf)@,
            ).1,
    {
        if udt_version == 4 {
            return match SocketType::from_u16(type_ext_socket_type) {
                Ok(t) => Ok(HandshakeVSInfo::V4(t)),
                Err(n) => Err(ParseError::UnrecognizedSocketType(n)),
            };
        }
        assert(crypto_field << 3 == crypto_field * 8 % 0x1_0000) by (bit_vector);
        let crypto_size: u8 = match crypto_field << 3 {
            16 => 16,
            24 => 24,
            32 => 32,
            _ => 0,
        };
        if shake_type == ShakeType::Induction {
            return Ok(
                HandshakeVSInfo::V5 { crypto_size, ext_hs: None, ext_km: None, ext_config: None },
            );
        }
        let flags = type_ext_socket_type;
        assert(flags & 1 == 1 <==> flags % 2 == 1) by (bit_vector);
        assert(flags & 2 == 2 <==> flags / 2 % 2 == 1) by (bit_vector);
        assert(flags & 4 == 4 <==> flags / 4 % 2 == 1) by (bit_vector);
        let ext_hs = match parse_extension(flags & EXT_HS == EXT_HS, ExtSlot::Handshake, buf) {
            Ok(ext) => ext,
            Err(e) => return Err(e),
        };
        let ext_km = match parse_extension(flags & EXT_KM == EXT_KM, ExtSlot::KeyManager, buf) {
            Ok(ext) => ext,
            Err(e) => return Err(e),
        };
        let ext_config = match parse_extension(
            flags & EXT_CONFIG == EXT_CONFIG,
            ExtSlot::Config,
            buf,
        ) {
            Ok(ext) => ext,
            Err(e) => return Err(e),
        };
        Ok(HandshakeVSInfo::V5 { crypto_size, ext_hs, ext_km, ext_config })
    }

    /// Get the type (V4) or the crypto size and extension flags (V5). The
    /// `shake_type` decides whether the magic code stands in place of the flags:
    /// an induction has no extensions.
    pub fn type_flags(&self, shake_type: ShakeType) -> (r: u32)
        requires
            shake_type == ShakeType::Induction ==> !self@.has_extensions(),
        ensures
            r == self@.type_flags(shake_type),
    {
        match self {
            HandshakeVSInfo::V4(ty) => ty.to_u16() as u32,
            HandshakeVSInfo::V5 { crypto_size, ext_hs, ext_km, ext_config } => {
                let mut flags: u16 = 0;
                assert(0u16 | 1 == 1 && 0u16 | 2 == 2 && 1u16 | 2 == 3 && 0u16 | 4 == 4 && 1u16 | 4
                    == 5 && 2u16 | 4 == 6 && 3u16 | 4 == 7) by (bit_vector);
                if ext_hs.is_some() {
                    flags = flags | EXT_HS;
                }
                if ext_km.is_some() {
                    flags = flags | EXT_KM;
                }
                if ext_config.is_some() {
                    flags = flags | EXT_CONFIG;
                }
                let size: u8 = *crypto_size;
                let low: u16 = if shake_type == ShakeType::Induction {
                    SRT_MAGIC_CODE
                } else {
                    flags
                };
                assert((size as u32) >> 3 << 16 | (low as u32) == size / 8 * 0x1_0000 + low)
                    by (bit_vector);
                // the crypto size without its three low bits, in the upper half
                (size as u32) >> 3 << 16 | (low as u32)
            },
        }
    }

    /// Get the UDT version
    pub fn version(&self) -> (r: u32)
        ensures
            r == self@.version(),
    {
        match self {
            HandshakeVSInfo::V4(_) => 4,
            HandshakeVSInfo::V5 { .. } => 5,
        }
    }

    /// Appends the extensions to `into`.
    fn serialize(&self, into: &mut Vec<u8>)
        requires
            wire::room_for(old(into)@.len(), self@.bytes().len()),
        ensures
            final(into)@ == old(into)@ + self@.bytes(),
    {
        match self {
            HandshakeVSInfo::V4(_) => {
                assert(into@ =~= old(into)@ + self@.bytes());
            },
            HandshakeVSInfo::V5 { ext_hs, ext_km, ext_config, .. } => {
                serialize_extension(ext_hs, into);
                serialize_extension(ext_km, into);
                serialize_extension(ext_config, into);
                assert(into@ =~= old(into)@ + self@.bytes());
            },
        }
    }
}

impl HandshakeView {
    /// The eight words before the address.
    pub open spec fn head_bytes(self) -> Seq<u8> {
        wire::u32_bytes(self.info.version()) + wire::u32_bytes(
            self.info.type_flags(self.shake_type),
        ) + wire::u32_bytes(self.init_seq_num.0) + wire::u32_bytes(self.max_packet_size)
            + wire::u32_bytes(self.max_flow_size) + wire::i32_bytes(self.shake_type.code())
            + wire::u32_bytes(self.socket_id.0) + wire::i32_bytes(self.syn_cookie)
    }

    /// The bytes of the handshake: eight words, the address, the extensions.
    pub open spec fn bytes(self) -> Seq<u8> {
        self.head_bytes() + self.peer_addr.bytes() + self.info.bytes()
    }

    /// No extension stands in an induction, where the magic code is instead of
    /// the extension flags.
    pub open spec fn serializable(self) -> bool {
        self.shake_type == ShakeType::Induction ==> !self.info.has_extensions()
    }

    /// Every part is one that the protocol knows.
    pub open spec fn well_formed(self) -> bool {
        &&& self.init_seq_num.in_range()
        &&& self.peer_addr.well_formed()
        &&& self.info.well_formed()
        &&& self.serializable()
    }

    /// What `b` starts with: the handshake or the error, and the bytes behind it.
    pub open spec fn read(b: Seq<u8>) -> (Result<HandshakeView, ParseError>, Seq<u8>) {
        let version = wire::i32_at(b, 0);
        let stage = wire::i32_at(b, 20);
        if b.len() < HANDSHAKE_LEN {
            (Err(ParseError::HandshakeTooShort), b)
        } else if version != 4 && version != 5 {
            (Err(ParseError::IncompatibleVersion(version)), b.skip(4))
        } else {
            match ShakeType::decode(stage) {
                Err(n) => (Err(ParseError::InvalidShakeType(n)), b.skip(24)),
                Ok(shake_type) => {
                    let (info, rest) = VSInfoView::read(
                        version,
                        wire::u16_at(b, 4),
                        wire::u16_at(b, 6),
                        shake_type,
                        b.skip(48),
                    );
                    (
                        match info {
                            Err(e) => Err(e),
                            Ok(info) => Ok(
                                HandshakeView {
                                    init_seq_num: SeqNumber::truncate(wire::u32_at(b, 8)),
                                    max_packet_size: wire::u32_at(b, 12),
                                    max_flow_size: wire::u32_at(b, 16),
                                    shake_type,
                                    socket_id: SocketID(wire::u32_at(b, 24)),
                                    syn_cookie: wire::i32_at(b, 28),
                                    peer_addr: IpAddrView::read(b.skip(32)),
                                    info,
                                },
                            ),
                        },
                        rest,
                    )
                },
            }
        }
    }
}

impl HandshakeControlInfo {
    /// Reads a handshake from the front of `buf`.
    fn parse(buf: &mut &[u8]) -> (r: Result<HandshakeControlInfo, ParseError>)
        ensures
            wire::outcome(r) == HandshakeView::read(old(buf)@).0,
            final(buf)@ == HandshakeView::read(old(buf)@).1,
    {
        // 8 32-bit words, 1 128-bit address
        if buffer::remaining(buf) < HANDSHAKE_LEN {
            return Err(ParseError::HandshakeTooShort);
        }
        broadcast use wire::lemma_skip_skip;

        let ghost b = buf@;
        let udt_version = buffer::get_i32(buf);
        if udt_version != 4 && udt_version != 5 {
            return Err(ParseError::IncompatibleVersion(udt_version));
        }
        // In version 4 the second word is the socket type, whose upper half is
        // always zero. In version 5 the upper half is the crypto key size
        // without its three low bits, and the lower half the magic code in an
        // induction, else the extension flags
        let crypto_field = buffer::get_u16(buf);
        let type_ext_socket_type = buffer::get_u16(buf);
        let init_seq_num = SeqNumber::new_truncate(buffer::get_u32(buf));
        let max_packet_size = buffer::get_u32(buf);
        let max_flow_size = buffer::get_u32(buf);
        let stage = buffer::get_i32(buf);
        assert(stage == wire::i32_at(b, 20));
        assert(buf@ == b.skip(24));
        let shake_type = match ShakeType::from_i32(stage) {
            Ok(ct) => ct,
            Err(n) => return Err(ParseError::InvalidShakeType(n)),
        };
        let socket_id = SocketID(buffer::get_u32(buf));
        let syn_cookie = buffer::get_i32(buf);
        let peer_addr = IpAddr::parse(buf);
        let info = match HandshakeVSInfo::parse(
            udt_version,
            crypto_field,
            type_ext_socket_type,
            shake_type,
            buf,
        ) {
            Ok(info) => info,
            Err(e) => return Err(e),
        };
        Ok(
            HandshakeControlInfo {
                init_seq_num,
                max_packet_size,
                max_flow_size,
                shake_type,
                socket_id,
                syn_cookie,
                peer_addr,
                info,
            },
        )
    }

    /// Appends the eight words before the address to `into`.
    fn serialize_head(&self, into: &mut Vec<u8>)
        requires
            self@.serializable(),
            wire::room_for(old(into)@.len(), 32),
        ensures
            final(into)@ == old(into)@ + self@.head_bytes(),
    {
        buffer::put_u32(into, self.info.version());
        buffer::put_u32(into, self.info.type_flags(self.shake_type));
        buffer::put_u32(into, self.init_seq_num.as_raw());
        buffer::put_u32(into, self.max_packet_size);
        buffer::put_u32(into, self.max_flow_size);
        buffer::put_i32(into, self.shake_type.to_i32());
        buffer::put_u32(into, self.socket_id.0);
        buffer::put_i32(into, self.syn_cookie);
        assert(into@ =~= old(into)@ + self@.head_bytes());
    }

    /// Appends the handshake to `into`.
    fn serialize(&self, into: &mut Vec<u8>)
        requires
            self@.serializable(),
            wire::room_for(old(into)@.len(), self@.bytes().len()),
        ensures
            final(into)@ == old(into)@ + self@.bytes(),
    {
        assert(self@.head_bytes().len() == 32);
        assert(self@.peer_addr.bytes().len() == 16);
        self.serialize_head(into);
        self.peer_addr.serialize(into);
        self.info.serialize(into);
        assert(into@ =~= old(into)@ + self@.bytes());
    }
}

/// What is suspicious about a handshake although it can be read.
#[derive(Debug, Clone, Copy, PartialEq, Eq, Structural)]
pub struct HandshakeWarnings {
    /// The crypto key length is none that is in use, so there is no encryption
    pub crypto_length: bool,

    /// An induction does not have the magic code
    pub no_magic_code: bool,

    /// There are bits among the extension flags that stand for no extension
    pub extra_flags: bool,

    /// The crypto key length that the handshake declares, in bytes
    pub length: u16,

    /// The half word for the magic code or the extension flags
    pub flags: u16,
}

impl HandshakeWarnings {
    /// The handshake `b` is one that there can be warnings about: it is of
    /// version 5, in a stage that there is.
    pub open spec fn apply_to(b: Seq<u8>) -> bool {
        b.len() >= HANDSHAKE_LEN && wire::i32_at(b, 0) == 5 && -2 <= wire::i32_at(b, 20) <= 1
    }

    /// The warnings about the handshake `b`.
    pub open spec fn of(b: Seq<u8>) -> HandshakeWarnings {
        let length = (wire::u16_at(b, 4) * 8 % 0x1_0000) as u16;
        let flags = wire::u16_at(b, 6);
        let induction = wire::i32_at(b, 20) == 1;
        if HandshakeWarnings::apply_to(b) {
            HandshakeWarnings {
                crypto_length: !(length == 0 || length == 16 || length == 24 || length == 32),
                no_magic_code: induction && flags != SRT_MAGIC_CODE,
                extra_flags: !induction && flags >= 8,
                length,
                flags,
            }
        } else {
            HandshakeWarnings::none()
        }
    }

    /// No warnings.
    pub open spec fn none() -> HandshakeWarnings {
        HandshakeWarnings {
            crypto_length: false,
            no_magic_code: false,
            extra_flags: false,
            length: 0,
            flags: 0,
        }
    }

    /// No warnings.
    fn new() -> (r: HandshakeWarnings)
        ensures
            r == HandshakeWarnings::none(),
    {
        HandshakeWarnings {
            crypto_length: false,
            no_magic_code: false,
            extra_flags: false,
            length: 0,
            flags: 0,
        }
    }
}

impl HandshakeControlInfo {
    /// The warnings about the handshake that `handshake` starts with. There are
    /// none about one that is too short, of version 4, or in no stage that there
    /// is.
    pub fn warnings(handshake: &[u8]) -> (r: HandshakeWarnings)
        ensures
            r == HandshakeWarnings::of(handshake@),
            r.crypto_length <==> HandshakeWarnings::apply_to(handshake@) && {
                let length = wire::u16_at(handshake@, 4) * 8 % 0x1_0000;
                length != 0 && length != 16 && length != 24 && length != 32
            },
            r.no_magic_code <==> HandshakeWarnings::apply_to(handshake@) && wire::i32_at(
                handshake@,
                20,
            ) == 1 && wire::u16_at(handshake@, 6) != SRT_MAGIC_CODE,
            r.extra_flags <==> HandshakeWarnings::apply_to(handshake@) && wire::i32_at(
                handshake@,
                20,
            ) != 1 && wire::u16_at(handshake@, 6) >= 8,
    {
        let mut buf: &[u8] = handshake;
        if buffer::remaining(&buf) < HANDSHAKE_LEN {
            return HandshakeWarnings::new();
        }
        broadcast use wire::lemma_skip_skip;

        let udt_version = buffer::get_i32(&mut buf);
        if udt_version != 5 {
            return HandshakeWarnings::new();
        }
        let crypto_field = buffer::get_u16(&mut buf);
        let flags = buffer::get_u16(&mut buf);
        let _init_seq_num = buffer::get_u32(&mut buf);
        let _max_packet_size = buffer::get_u32(&mut buf);
        let _max_flow_size = buffer::get_u32(&mut buf);
        let stage = buffer::get_i32(&mut buf);
        assert(stage == wire::i32_at(handshake@, 20));
        let shake_type = match ShakeType::from_i32(stage) {
            Ok(ct) => ct,
            Err(_) => return HandshakeWarnings::new(),
        };
        assert(crypto_field << 3 == crypto_field * 8 % 0x1_0000) by (bit_vector);
        let all: u16 = EXT_HS | EXT_KM | EXT_CONFIG;
        assert(1u16 | 2 | 4 == 7) by (bit_vector);
        assert(flags & 7 == flags <==> flags < 8) by (bit_vector);
        let length: u16 = crypto_field << 3;
        let known_length = match length {
            0 | 16 | 24 | 32 => true,
            _ => false,
        };
        let induction = shake_type == ShakeType::Induction;
        HandshakeWarnings {
            crypto_length: !known_length,
            no_magic_code: induction && flags != SRT_MAGIC_CODE,
            extra_flags: !induction && flags & all != flags,
            length,
            flags,
        }
    }
}

/// The kinds of control packets as mathematical values.
#[verifier::ext_equal]
pub enum ControlTypesView {
    Handshake(HandshakeView),
    KeepAlive,
    Ack {
        ack_seq_num: i32,
        ack_number: SeqNumber,
        rtt: Option<i32>,
        rtt_variance: Option<i32>,
        buffer_available: Option<i32>,
        packet_recv_rate: Option<i32>,
        est_link_cap: Option<i32>,
    },
    Nak(Seq<u32>),
    Shutdown,
    Ack2(i32),
    DropRequest { msg_to_drop: MsgNumber, first: SeqNumber, last: SeqNumber },
    Srt(SrtControlView),
}

/// A control packet as a mathematical value.
#[verifier::ext_equal]
pub struct ControlPacketView {
    pub timestamp: i32,
    pub dest_sockid: SocketID,
    pub control_type: ControlTypesView,
}

impl View for ControlTypes {
    type V = ControlTypesView;

    open spec fn view(&self) -> ControlTypesView {
        match *self {
            ControlTypes::Handshake(c) => ControlTypesView::Handshake(c@),
            ControlTypes::KeepAlive => ControlTypesView::KeepAlive,
            ControlTypes::Ack {
                ack_seq_num,
                ack_number,
                rtt,
                rtt_variance,
                buffer_available,
                packet_recv_rate,
                est_link_cap,
            } => ControlTypesView::Ack {
                ack_seq_num,
                ack_number,
                rtt,
                rtt_variance,
                buffer_available,
                packet_recv_rate,
                est_link_cap,
            },
            ControlTypes::Nak(n) => ControlTypesView::Nak(n@),
            ControlTypes::Shutdown => ControlTypesView::Shutdown,
            ControlTypes::Ack2(a) => ControlTypesView::Ack2(a),
            ControlTypes::DropRequest { msg_to_drop, first, last } => {
                ControlTypesView::DropRequest { msg_to_drop, first, last }
            },
            ControlTypes::Srt(srt) => ControlTypesView::Srt(srt@),
        }
    }
}

impl View for ControlPacket {
    type V = ControlPacketView;

    open spec fn view(&self) -> ControlPacketView {
        ControlPacketView {
            timestamp: self.timestamp,
            dest_sockid: self.dest_sockid,
            control_type: self.control_type@,
        }
    }
}

/// The value, or the default where there is none.
pub open spec fn or_default(v: Option<i32>, default: i32) -> i32 {
    match v {
        Some(v) => v,
        None => default,
    }
}

impl ControlTypesView {
    /// The number of the type of the control packet.
    pub open spec fn id_byte(self) -> u16 {
        match self {
            ControlTypesView::Handshake(_) => 0x0,
            ControlTypesView::KeepAlive => 0x1,
            ControlTypesView::Ack { .. } => 0x2,
            ControlTypesView::Nak(_) => 0x3,
            ControlTypesView::Shutdown => 0x5,
            ControlTypesView::Ack2(_) => 0x6,
            ControlTypesView::DropRequest { .. } => 0x7,
            ControlTypesView::Srt(_) => 0x7FFF,
        }
    }

    /// The Additional Info: the message number of a drop request, the ack
    /// sequence number of an ack or an ACK2, else 0.
    pub open spec fn additional_info(self) -> i32 {
        match self {
            ControlTypesView::DropRequest { msg_to_drop, .. } => wire::signed(msg_to_drop.0),
            ControlTypesView::Ack2(a) => a,
            ControlTypesView::Ack { ack_seq_num, .. } => ack_seq_num,
            _ => 0,
        }
    }

    /// The reserved half word: the type of an SRT packet, else 0.
    pub open spec fn reserved(self) -> u16 {
        match self {
            ControlTypesView::Srt(srt) => srt.type_id(),
            _ => 0,
        }
    }

    /// Every part is one that the protocol knows.
    pub open spec fn well_formed(self) -> bool {
        match self {
            ControlTypesView::Handshake(c) => c.well_formed(),
            ControlTypesView::Ack { ack_number, .. } => ack_number.in_range(),
            ControlTypesView::DropRequest { msg_to_drop, first, last } => {
                &&& msg_to_drop.in_range()
                &&& first.in_range()
                &&& last.in_range()
            },
            ControlTypesView::Srt(srt) => srt.well_formed(),
            _ => true,
        }
    }

    /// The same with the defaults in place of what an ack does not know.
    pub open spec fn filled(self) -> ControlTypesView {
        match self {
            ControlTypesView::Ack {
                ack_seq_num,
                ack_number,
                rtt,
                rtt_variance,
                buffer_available,
                packet_recv_rate,
                est_link_cap,
            } => ControlTypesView::Ack {
                ack_seq_num,
                ack_number,
                rtt: Some(or_default(rtt, DEFAULT_RTT)),
                rtt_variance: Some(or_default(rtt_variance, DEFAULT_RTT_VARIANCE)),
                buffer_available: Some(or_default(buffer_available, DEFAULT_BUFFER_AVAILABLE)),
                packet_recv_rate: Some(or_default(packet_recv_rate, DEFAULT_PACKET_RECV_RATE)),
                est_link_cap: Some(or_default(est_link_cap, DEFAULT_EST_LINK_CAP)),
            },
            _ => self,
        }
    }

    /// All that an ack can hold is known.
    pub open spec fn complete(self) -> bool {
        self matches ControlTypesView::Ack {
            rtt,
            rtt_variance,
            buffer_available,
            packet_recv_rate,
            est_link_cap,
            ..
        } ==> rtt is Some && rtt_variance is Some && buffer_available is Some && packet_recv_rate
            is Some && est_link_cap is Some
    }

    /// The peer's address in a handshake comes through the wire unchanged.
    pub open spec fn symmetric_addr(self) -> bool {
        self matches ControlTypesView::Handshake(c) ==> c.peer_addr.symmetric()
    }

    /// The bytes that a reading of the packet leaves: the unused word of an
    /// ACK2.
    pub open spec fn unread(self) -> Seq<u8> {
        match self {
            ControlTypesView::Ack2(_) => wire::u32_bytes(0),
            _ => Seq::empty(),
        }
    }

    /// The packet can be written: it is no drop request and no induction with
    /// extensions.
    pub open spec fn serializable(self) -> bool {
        match self {
            ControlTypesView::Handshake(c) => c.serializable(),
            ControlTypesView::DropRequest { .. } => false,
            _ => true,
        }
    }

    /// The bytes of the Control Information Field. An ACK2 has an unused word
    /// there.
    pub open spec fn bytes(self) -> Seq<u8> {
        match self {
            ControlTypesView::Handshake(c) => c.bytes(),
            ControlTypesView::Ack {
                ack_number,
                rtt,
                rtt_variance,
                buffer_available,
                packet_recv_rate,
                est_link_cap,
                ..
            } => wire::u32_bytes(ack_number.0) + wire::i32_bytes(or_default(rtt, DEFAULT_RTT))
                + wire::i32_bytes(or_default(rtt_variance, DEFAULT_RTT_VARIANCE)) + wire::i32_bytes(
                or_default(buffer_available, DEFAULT_BUFFER_AVAILABLE),
            ) + wire::i32_bytes(or_default(packet_recv_rate, DEFAULT_PACKET_RECV_RATE))
                + wire::i32_bytes(or_default(est_link_cap, DEFAULT_EST_LINK_CAP)),
            ControlTypesView::Nak(n) => wire::words_bytes(n),
            ControlTypesView::Ack2(_) => wire::u32_bytes(0),
            ControlTypesView::Srt(srt) => srt.bytes(),
            _ => Seq::empty(),
        }
    }

    /// What a Control Information Field `b` holds in a packet of type
    /// `packet_type` with the given reserved half word and Additional Info: the
    /// control type or the error, and the bytes behind it.
    pub open spec fn read(packet_type: u16, reserved: u16, extra_info: i32, b: Seq<u8>) -> (
        Result<ControlTypesView, ParseError>,
        Seq<u8>,
    ) {
        if packet_type == 0x0 {
            let (c, rest) = HandshakeView::read(b);
            (
                match c {
                    Ok(c) => Ok(ControlTypesView::Handshake(c)),
                    Err(e) => Err(e),
                },
                rest,
            )
        } else if packet_type == 0x1 {
            (Ok(ControlTypesView::KeepAlive), b)
        } else if packet_type == 0x2 {
            if b.len() < 24 {
                (Err(ParseError::AckTooShort), b)
            } else {
                (
                    Ok(
                        ControlTypesView::Ack {
                            ack_seq_num: extra_info,
                            ack_number: SeqNumber::truncate(wire::u32_at(b, 0)),
                            rtt: Some(wire::i32_at(b, 4)),
                            rtt_variance: Some(wire::i32_at(b, 8)),
                            buffer_available: Some(wire::i32_at(b, 12)),
                            packet_recv_rate: Some(wire::i32_at(b, 16)),
                            est_link_cap: Some(wire::i32_at(b, 20)),
                        },
                    ),
                    b.skip(24),
                )
            }
        } else if packet_type == 0x3 {
            (Ok(ControlTypesView::Nak(wire::words_in(b))), b.skip(b.len() - b.len() % 4))
        } else if packet_type == 0x5 {
            (Ok(ControlTypesView::Shutdown), b)
        } else if packet_type == 0x6 {
            (Ok(ControlTypesView::Ack2(extra_info)), b)
        } else if packet_type == 0x7 {
            if b.len() < 8 {
                (Err(ParseError::DropRequestTooShort), b)
            } else {
                (
                    Ok(
                        ControlTypesView::DropRequest {
                            msg_to_drop: MsgNumber::truncate(wire::unsigned(extra_info)),
                            first: SeqNumber::truncate(wire::u32_at(b, 0)),
                            last: SeqNumber::truncate(wire::u32_at(b, 4)),
                        },
                    ),
                    b.skip(8),
                )
            }
        } else if packet_type == 0x7FFF {
            let (srt, rest) = SrtControlView::read(reserved, b);
            (
                match srt {
                    Ok(srt) => Ok(ControlTypesView::Srt(srt)),
                    Err(e) => Err(ParseError::Srt(e)),
                },
                rest,
            )
        } else {
            (Err(ParseError::UnrecognizedControlType(packet_type)), b)
        }
    }
}

/// Reads a word from the front of `buf`, if it still holds one.
fn opt_read_next(buf: &mut &[u8]) -> (r: Option<i32>)
    ensures
        r == (if old(buf)@.len() >= 4 {
            Some(wire::i32_at(old(buf)@, 0))
        } else {
            None
        }),
        final(buf)@ == (if old(buf)@.len() >= 4 {
            old(buf)@.skip(4)
        } else {
            old(buf)@
        }),
{
    if buffer::remaining(buf) >= 4 {
        Some(buffer::get_i32(buf))
    } else {
        None
    }
}

/// Reads all whole words from `buf`.
fn read_words(buf: &mut &[u8]) -> (r: Vec<u32>)
    ensures
        r@ == wire::words_in(old(buf)@),
        final(buf)@ == old(buf)@.skip(old(buf)@.len() - old(buf)@.len() % 4),
{
    let mut words: Vec<u32> = Vec::new();
    let ghost b = buf@;
    assert(buf@ =~= b.skip(0));
    while buffer::remaining(buf) >= 4
        invariant
            b == old(buf)@,
            4 * words@.len() <= b.len(),
            buf@ == b.skip(4 * words@.len() as int),
            forall|i: int| 0 <= i < words@.len() ==> words@[i] == wire::u32_at(b, 4 * i),
        decreases buf@.len(),
    {
        broadcast use wire::lemma_skip_skip;

        words.push(buffer::get_u32(buf));
    }
    assert(words@ =~= wire::words_in(b));
    words
}

impl ControlTypes {
    /// Reads the Control Information Field from the front of `buf`.
    /// * `packet_type` - the type in the first half word, without the first bit
    /// * `reserved` - the second half word, reserved for custom packets
    /// * `extra_info` - the Additional Info
    pub fn deserialize(
        packet_type: u16,
        reserved: u16,
        extra_info: i32,
        buf: &mut &[u8],
    ) -> (r: Result<ControlTypes, ParseError>)
        ensures
            wire::outcome(r) == ControlTypesView::read(
                packet_type,
                reserved,
                extra_info,
                old(buf)@,
            ).0,
            final(buf)@ == ControlTypesView::read(packet_type, reserved, extra_info, old(buf)@).1,
    {
        broadcast use wire::lemma_skip_skip;

        match packet_type {
            0x0 => match HandshakeControlInfo::parse(buf) {
                Ok(c) => Ok(ControlTypes::Handshake(c)),
                Err(e) => Err(e),
            },
            0x1 => Ok(ControlTypes::KeepAlive),
            0x2 => {
                // 6 32-bit words
                if buffer::remaining(buf) < 24 {
                    return Err(ParseError::AckTooShort);
                }
                let ack_number = SeqNumber::new_truncate(buffer::get_u32(buf));
                let rtt = opt_read_next(buf);
                let rtt_variance = opt_read_next(buf);
                let buffer_available = opt_read_next(buf);
                let packet_recv_rate = opt_read_next(buf);
                let est_link_cap = opt_read_next(buf);
                Ok(
                    ControlTypes::Ack {
                        ack_seq_num: extra_info,
                        ack_number,
                        rtt,
                        rtt_variance,
                        buffer_available,
                        packet_recv_rate,
                        est_link_cap,
                    },
                )
            },
            0x3 => Ok(ControlTypes::Nak(read_words(buf))),
            0x5 => Ok(ControlTypes::Shutdown),
            0x6 => Ok(ControlTypes::Ack2(extra_info)),
            0x7 => {
                if buffer::remaining(buf) < 8 {
                    return Err(ParseError::DropRequestTooShort);
                }
                proof {
                    wire::lemma_sign_casts(0, extra_info);
                }
                let msg_to_drop = MsgNumber::new_truncate(extra_info as u32);
                let first = SeqNumber::new_truncate(buffer::get_u32(buf));
                let last = SeqNumber::new_truncate(buffer::get_u32(buf));
                Ok(ControlTypes::DropRequest { msg_to_drop, first, last })
            },
            0x7FFF => match SrtControlPacket::parse(reserved, buf) {
                Ok(srt) => Ok(ControlTypes::Srt(srt)),
                Err(e) => Err(ParseError::Srt(e)),
            },
            x => Err(ParseError::UnrecognizedControlType(x)),
        }
    }

    /// The number of the type of the control packet.
    pub fn id_byte(&self) -> (r: u16)
        ensures
            r == self@.id_byte(),
    {
        match self {
            ControlTypes::Handshake(_) => 0x0,
            ControlTypes::KeepAlive => 0x1,
            ControlTypes::Ack { .. } => 0x2,
            ControlTypes::Nak(_) => 0x3,
            ControlTypes::Shutdown => 0x5,
            ControlTypes::Ack2(_) => 0x6,
            ControlTypes::DropRequest { .. } => 0x7,
            ControlTypes::Srt(_) => 0x7FFF,
        }
    }

    /// The Additional Info.
    pub fn additional_info(&self) -> (r: i32)
        ensures
            r == self@.additional_info(),
    {
        match self {
            // These types have additional info
            ControlTypes::DropRequest { msg_to_drop: a, .. } => {
                proof {
                    wire::lemma_sign_casts(a.0, 0);
                }
                a.as_raw() as i32
            },
            ControlTypes::Ack2(a) | ControlTypes::Ack { ack_seq_num: a, .. } => *a,
            // These do not, just use zero
            _ => 0,
        }
    }

    /// The reserved half word.
    pub fn reserved(&self) -> (r: u16)
        ensures
            r == self@.reserved(),
    {
        match self {
            ControlTypes::Srt(srt) => srt.type_id(),
            _ => 0,
        }
    }

    /// Appends the Control Information Field to `into`.
    pub fn serialize(&self, into: &mut Vec<u8>)
        requires
            self@.serializable(),
            wire::room_for(old(into)@.len(), self@.bytes().len()),
        ensures
            final(into)@ == old(into)@ + self@.bytes(),
    {
        match self {
            ControlTypes::Handshake(c) => {
                c.serialize(into);
            },
            ControlTypes::Ack {
                ack_number,
                rtt,
                rtt_variance,
                buffer_available,
                packet_recv_rate,
                est_link_cap,
                ..
            } => {
                buffer::put_u32(into, ack_number.as_raw());
                buffer::put_i32(into, rtt.unwrap_or(DEFAULT_RTT));
                buffer::put_i32(into, rtt_variance.unwrap_or(DEFAULT_RTT_VARIANCE));
                buffer::put_i32(into, buffer_available.unwrap_or(DEFAULT_BUFFER_AVAILABLE));
                buffer::put_i32(into, packet_recv_rate.unwrap_or(DEFAULT_PACKET_RECV_RATE));
                buffer::put_i32(into, est_link_cap.unwrap_or(DEFAULT_EST_LINK_CAP));
                assert(into@ =~= old(into)@ + self@.bytes());
            },
            ControlTypes::Nak(n) => {
                serialize_words(n, into);
            },
            // Cannot be written
            ControlTypes::DropRequest { .. } => {},
            ControlTypes::Ack2(_) => {
                // An unused word, without which the packet counts as malformed
                buffer::put_u32(into, 0x0);
            },
            ControlTypes::Shutdown | ControlTypes::KeepAlive => {
                assert(into@ =~= old(into)@ + self@.bytes());
            },
            ControlTypes::Srt(srt) => {
                srt.serialize(into);
            },
        }
    }
}

/// Appends the words to `into`.
fn serialize_words(words: &Vec<u32>, into: &mut Vec<u8>)
    requires
        wire::room_for(old(into)@.len(), wire::words_bytes(words@).len()),
    ensures
        final(into)@ == old(into)@ + wire::words_bytes(words@),
{
    let ghost start = into@;
    assert(words@.take(0) =~= Seq::<u32>::empty());
    assert(into@ =~= start + wire::words_bytes(words@.take(0)));
    proof {
        wire::lemma_words_len(words@);
    }
    let mut i: usize = 0;
    while i < words.len()
        invariant
            i <= words@.len(),
            into@ == start + wire::words_bytes(words@.take(i as int)),
            wire::room_for(start.len(), 4 * words@.len()),
        decreases words@.len() - i,
    {
        proof {
            wire::lemma_words_len(words@.take(i as int));
            let next = words@.take(i + 1);
            assert(next.drop_last() =~= words@.take(i as int));
            assert(next.last() == words@[i as int]);
        }
        broadcast use wire::lemma_concat;

        buffer::put_u32(into, words[i]);
        i = i + 1;
    }
    assert(words@.take(i as int) =~= words@);
}

impl ControlPacketView {
    /// The four words of the header.
    pub open spec fn header_bytes(self) -> Seq<u8> {
        wire::u16_bytes((0x8000 + self.control_type.id_byte()) as u16) + wire::u16_bytes(
            self.control_type.reserved(),
        ) + wire::i32_bytes(self.control_type.additional_info()) + wire::i32_bytes(self.timestamp)
            + wire::u32_bytes(self.dest_sockid.0)
    }

    /// The bytes of the packet.
    pub open spec fn bytes(self) -> Seq<u8> {
        self.header_bytes() + self.control_type.bytes()
    }

    /// What `b` starts with: the packet or the error, and the bytes behind it.
    /// `b` holds a header.
    pub open spec fn read(b: Seq<u8>) -> (Result<ControlPacketView, ParseError>, Seq<u8>) {
        let (control_type, rest) = ControlTypesView::read(
            wire::u16_at(b, 0) % 0x8000,
            wire::u16_at(b, 2),
            wire::i32_at(b, 4),
            b.skip(16),
        );
        (
            match control_type {
                Ok(control_type) => Ok(
                    ControlPacketView {
                        timestamp: wire::i32_at(b, 8),
                        dest_sockid: SocketID(wire::u32_at(b, 12)),
                        control_type,
                    },
                ),
                Err(e) => Err(e),
            },
            rest,
        )
    }
}

impl ControlPacket {
    /// Reads a packet from the front of `buf`, which holds at least a header.
    pub fn parse(buf: &mut &[u8]) -> (r: Result<ControlPacket, ParseError>)
        requires
            old(buf)@.len() >= HEADER_LEN,
        ensures
            wire::outcome(r) == ControlPacketView::read(old(buf)@).0,
            final(buf)@ == ControlPacketView::read(old(buf)@).1,
    {
        broadcast use wire::lemma_skip_skip;

        let first = buffer::get_u16(buf);
        assert(first << 1 >> 1 == first % 0x8000) by (bit_vector);
        let control_type = first << 1 >> 1;  // clear first bit

        // reserved data, the last two bytes of the first four bytes
        let reserved = buffer::get_u16(buf);
        let add_info = buffer::get_i32(buf);
        let timestamp = buffer::get_i32(buf);
        let dest_sockid = buffer::get_u32(buf);
        match ControlTypes::deserialize(control_type, reserved, add_info, buf) {
            Ok(control_type) => Ok(
                ControlPacket { timestamp, dest_sockid: SocketID(dest_sockid), control_type },
            ),
            Err(e) => Err(e),
        }
    }

    /// The warnings about the packet that `packet` starts with, which holds at
    /// least a header. There are none about one that is no handshake.
    pub fn warnings(packet: &[u8]) -> (r: HandshakeWarnings)
        requires
            packet@.len() >= HEADER_LEN,
        ensures
            r == (if wire::u16_at(packet@, 0) % 0x8000 == 0 {
                HandshakeWarnings::of(packet@.skip(16))
            } else {
                HandshakeWarnings::none()
            }),
    {
        broadcast use wire::lemma_skip_skip;

        let mut buf: &[u8] = packet;
        let first = buffer::get_u16(&mut buf);
        assert(first << 1 >> 1 == first % 0x8000) by (bit_vector);
        let _reserved = buffer::get_u16(&mut buf);
        let _add_info = buffer::get_i32(&mut buf);
        let _timestamp = buffer::get_i32(&mut buf);
        let _dest_sockid = buffer::get_u32(&mut buf);
        if first << 1 >> 1 == 0 {
            HandshakeControlInfo::warnings(buf)
        } else {
            HandshakeWarnings::new()
        }
    }

    /// Appends the packet to `into`.
    pub fn serialize(&self, into: &mut Vec<u8>)
        requires
            self@.control_type.serializable(),
            wire::room_for(old(into)@.len(), self@.bytes().len()),
        ensures
            final(into)@ == old(into)@ + self@.bytes(),
    {
        let id = self.control_type.id_byte();
        assert(id | (1u16 << 15) == 0x8000 + id) by (bit_vector)
            requires
                id < 0x8000,
        ;
        assert(self@.header_bytes().len() == 16);
        // first half of first row, the control type and the 1st bit which is a one
        buffer::put_u16(into, id | (0b1 << 15));

        // finish that row, which is reserved
        buffer::put_u16(into, self.control_type.reserved());

        // the additional info line
        buffer::put_i32(into, self.control_type.additional_info());

        // timestamp
        buffer::put_i32(into, self.timestamp);

        // dest sock id
        buffer::put_u32(into, self.dest_sockid.0);
        assert(into@ =~= old(into)@ + self@.header_bytes());

        // the rest of the info
        self.control_type.serialize(into);
        assert(into@ =~= old(into)@ + self@.bytes());
    }
}

} // verus!
