//! The SRT packets: control packets of their own, and extensions behind a
//! version 5 handshake.
use crate::buffer;
use crate::error::SrtError;
use crate::numbers::SrtVersion;
use crate::wire;
use vstd::prelude::*;

verus! {

/// All flags of an SRT handshake together.
pub const SHAKE_FLAGS_ALL: u32 = 0x3F;

/// The capabilities that an SRT handshake declares, one bit each.
#[derive(Debug, Clone, Copy, PartialEq, Eq, Structural)]
pub struct SrtShakeFlags {
    pub bits: u32,
}

/// The body of an SRT handshake request or response.
///
/// ```ignore
///  |                          SRT version                          |
///  |                             Flags                             |
///  |          Peer latency         |            Latency            |
/// ```
#[derive(Debug, Clone, Copy, PartialEq, Eq, Structural)]
pub struct SrtHandshake {
    /// The SRT version
    pub version: SrtVersion,

    /// What the sender is capable of
    pub flags: SrtShakeFlags,

    /// The latency of the peer, in milliseconds
    pub peer_latency: u16,

    /// The latency of the sender, in milliseconds
    pub latency: u16,
}

/// How the stream is encrypted.
#[derive(Debug, Clone, Copy, PartialEq, Eq, Structural)]
pub enum CipherType {
    /// Not at all, 0 when serialized
    NoCipher,
    /// 1 when serialized
    ECB,
    /// 2 when serialized
    CTR,
    /// 3 when serialized
    CBC,
}

/// The body of a key manager request or response.
///
/// ```ignore
///  |0| Vers|   PT  |             Sign              |    resv   |KF |
///  |                              KEKI                             |
///  |    Cipher     |      Auth     |      SE       |     resv      |
///  |              resv             |     Slen/4    |     Klen/4    |
///  ~                              Salt                             ~
///  ~                         Even key, odd key                     ~
///  |                           Wrap data                           |
///  |                                                               |
/// ```
#[derive(Debug, Clone, PartialEq)]
pub struct SrtKeyMessage {
    /// The packet type, of four bits
    pub pt: u8,
    pub sign: u16,
    pub keki: u32,
    pub cipher: CipherType,
    pub auth: u8,
    pub se: u8,
    pub salt: Vec<u8>,
    pub even_key: Option<Vec<u8>>,
    pub odd_key: Option<Vec<u8>>,
    pub wrap_data: [u8; 8],
}

/// The SRT packets.
#[derive(Debug, Clone, PartialEq)]
pub enum SrtControlPacket {
    /// Handshake reject, type 0
    Reject,

    /// Handshake request, type 1
    HandshakeRequest(SrtHandshake),

    /// Handshake response, type 2
    HandshakeResponse(SrtHandshake),

    /// Key manager request, type 3
    KeyManagerRequest(SrtKeyMessage),

    /// Key manager response, type 4
    KeyManagerResponse(SrtKeyMessage),

    /// Stream ID, type 5. What it holds is not read
    Sid,

    /// Smoother, type 6. What it holds is not read
    Smoother,
}

/// A key message as a mathematical value.
#[verifier::ext_equal]
pub struct KeyMessageView {
    pub pt: u8,
    pub sign: u16,
    pub keki: u32,
    pub cipher: CipherType,
    pub auth: u8,
    pub se: u8,
    pub salt: Seq<u8>,
    pub even_key: Option<Seq<u8>>,
    pub odd_key: Option<Seq<u8>>,
    pub wrap_data: Seq<u8>,
}

/// An SRT packet as a mathematical value.
#[verifier::ext_equal]
pub enum SrtControlView {
    Reject,
    HandshakeRequest(SrtHandshake),
    HandshakeResponse(SrtHandshake),
    KeyManagerRequest(KeyMessageView),
    KeyManagerResponse(KeyMessageView),
    Sid,
    Smoother,
}

/// A key that may be there, as a mathematical value.
pub open spec fn key_view(key: Option<Vec<u8>>) -> Option<Seq<u8>> {
    match key {
        Some(k) => Some(k@),
        None => None,
    }
}

impl View for SrtKeyMessage {
    type V = KeyMessageView;

    open spec fn view(&self) -> KeyMessageView {
        KeyMessageView {
            pt: self.pt,
            sign: self.sign,
            keki: self.keki,
            cipher: self.cipher,
            auth: self.auth,
            se: self.se,
            salt: self.salt@,
            even_key: key_view(self.even_key),
            odd_key: key_view(self.odd_key),
            wrap_data: self.wrap_data@,
        }
    }
}

impl View for SrtControlPacket {
    type V = SrtControlView;

    open spec fn view(&self) -> SrtControlView {
        match *self {
            SrtControlPacket::Reject => SrtControlView::Reject,
            SrtControlPacket::HandshakeRequest(h) => SrtControlView::HandshakeRequest(h),
            SrtControlPacket::HandshakeResponse(h) => SrtControlView::HandshakeResponse(h),
            SrtControlPacket::KeyManagerRequest(k) => SrtControlView::KeyManagerRequest(k@),
            SrtControlPacket::KeyManagerResponse(k) => SrtControlView::KeyManagerResponse(k@),
            SrtControlPacket::Sid => SrtControlView::Sid,
            SrtControlPacket::Smoother => SrtControlView::Smoother,
        }
    }
}

impl SrtShakeFlags {
    /// Timestamp-based packet delivery by the sender
    pub const TSBPDSND: u32 = 0x1;

    /// Timestamp-based packet delivery by the receiver
    pub const TSBPDRCV: u32 = 0x2;

    /// Encryption
    pub const HAICRYPT: u32 = 0x4;

    /// Packets that come too late are dropped
    pub const TLPKTDROP: u32 = 0x8;

    /// Losses are reported periodically
    pub const NAKREPORT: u32 = 0x10;

    /// Retransmitted packets are flagged
    pub const REXMITFLG: u32 = 0x20;

    /// No bit is set that stands for no flag.
    pub open spec fn known(self) -> bool {
        self.bits <= SHAKE_FLAGS_ALL
    }

    /// The flags among `bits`: the low six bits.
    pub open spec fn truncate(bits: u32) -> SrtShakeFlags {
        SrtShakeFlags { bits: bits % 0x40 }
    }

    /// The flags among `bits`, without those that stand for nothing.
    pub fn from_bits_truncate(bits: u32) -> (r: SrtShakeFlags)
        ensures
            r == SrtShakeFlags::truncate(bits),
            r.known(),
    {
        assert(bits & 0x3F == bits % 0x40) by (bit_vector);
        SrtShakeFlags { bits: bits & SHAKE_FLAGS_ALL }
    }
}

impl CipherType {
    /// The number that stands for the cipher on the wire.
    pub open spec fn code(self) -> u8 {
        match self {
            CipherType::NoCipher => 0,
            CipherType::ECB => 1,
            CipherType::CTR => 2,
            CipherType::CBC => 3,
        }
    }

    /// The number that stands for the cipher on the wire.
    pub fn to_u8(self) -> (r: u8)
        ensures
            r == self.code(),
    {
        match self {
            CipherType::NoCipher => 0,
            CipherType::ECB => 1,
            CipherType::CTR => 2,
            CipherType::CBC => 3,
        }
    }

    /// The cipher that `num` stands for, or `num` itself if there is none.
    pub open spec fn decode(num: u8) -> Result<CipherType, u8> {
        if num == 0 {
            Ok(CipherType::NoCipher)
        } else if num == 1 {
            Ok(CipherType::ECB)
        } else if num == 2 {
            Ok(CipherType::CTR)
        } else if num == 3 {
            Ok(CipherType::CBC)
        } else {
            Err(num)
        }
    }

    /// The cipher that `num` stands for, or `num` itself if there is none.
    pub fn from_u8(num: u8) -> (r: Result<CipherType, u8>)
        ensures
            r == CipherType::decode(num),
            r matches Ok(c) ==> c.code() == num,
            r matches Err(n) ==> n == num && num > 3,
    {
        match num {
            0 => Ok(CipherType::NoCipher),
            1 => Ok(CipherType::ECB),
            2 => Ok(CipherType::CTR),
            3 => Ok(CipherType::CBC),
            n => Err(n),
        }
    }
}

impl SrtHandshake {
    /// The twelve bytes of the handshake.
    pub open spec fn bytes(self) -> Seq<u8> {
        wire::u32_bytes(self.version.code()) + wire::u32_bytes(self.flags.bits) + wire::u16_bytes(
            self.peer_latency,
        ) + wire::u16_bytes(self.latency)
    }

    /// What `b` starts with: the handshake or the error, and the bytes behind it.
    pub open spec fn read(b: Seq<u8>) -> (Result<SrtHandshake, SrtError>, Seq<u8>) {
        if b.len() < 12 {
            (Err(SrtError::HandshakeTooShort), b)
        } else {
            (
                Ok(
                    SrtHandshake {
                        version: SrtVersion::decode(wire::u32_at(b, 0)),
                        flags: SrtShakeFlags::truncate(wire::u32_at(b, 4)),
                        peer_latency: wire::u16_at(b, 8),
                        latency: wire::u16_at(b, 10),
                    },
                ),
                b.skip(12),
            )
        }
    }

    /// Reads a handshake from the front of `buf`.
    pub fn parse(buf: &mut &[u8]) -> (r: Result<SrtHandshake, SrtError>)
        ensures
            r == SrtHandshake::read(old(buf)@).0,
            final(buf)@ == SrtHandshake::read(old(buf)@).1,
    {
        if buffer::remaining(buf) < 12 {
            return Err(SrtError::HandshakeTooShort);
        }
        let version = SrtVersion::parse(buffer::get_u32(buf));
        let flags = SrtShakeFlags::from_bits_truncate(buffer::get_u32(buf));
        let peer_latency = buffer::get_u16(buf);
        let latency = buffer::get_u16(buf);
        assert(buf@ =~= old(buf)@.skip(12));
        Ok(SrtHandshake { version, flags, peer_latency, latency })
    }

    /// Appends the handshake to `into`.
    pub fn serialize(&self, into: &mut Vec<u8>)
        requires
            wire::room_for(old(into)@.len(), 12),
        ensures
            final(into)@ == old(into)@ + self.bytes(),
    {
        buffer::put_u32(into, self.version.to_u32());
        buffer::put_u32(into, self.flags.bits);
        buffer::put_u16(into, self.peer_latency);
        buffer::put_u16(into, self.latency);
        assert(into@ =~= old(into)@ + self.bytes());
    }
}

/// A key length that is in use.
pub open spec fn is_key_len(n: int) -> bool {
    n == 16 || n == 24 || n == 32
}

impl KeyMessageView {
    /// The length of the keys, 0 without one.
    pub open spec fn key_len(self) -> nat {
        match self.even_key {
            Some(k) => k.len(),
            None => match self.odd_key {
                Some(k) => k.len(),
                None => 0,
            },
        }
    }

    /// The key flags: bit 0 for the even key, bit 1 for the odd one.
    pub open spec fn key_flags(self) -> u8 {
        let even: int = if self.even_key is Some {
            1
        } else {
            0
        };
        let odd: int = if self.odd_key is Some {
            2
        } else {
            0
        };
        (even + odd) as u8
    }

    /// The four header words. The lengths of the salt and of the keys count
    /// words, in a byte each.
    pub open spec fn header_bytes(self) -> Seq<u8> {
        seq![(0x10 + self.pt % 0x10) as u8] + wire::u16_bytes(self.sign) + seq![self.key_flags()]
            + wire::u32_bytes(self.keki) + seq![self.cipher.code(), self.auth, self.se, 0u8]
            + wire::u16_bytes(0) + seq![
            (self.salt.len() / 4 % 0x100) as u8,
            (self.key_len() / 4 % 0x100) as u8,
        ]
    }

    /// The bytes of the key message.
    pub open spec fn bytes(self) -> Seq<u8> {
        self.header_bytes() + self.salt + wire::opt_bytes(self.even_key) + wire::opt_bytes(
            self.odd_key,
        ) + self.wrap_data
    }

    /// The length of the key message in whole words.
    pub open spec fn words(self) -> nat {
        4 + self.salt.len() / 4 + wire::opt_bytes(self.even_key).len() / 4 + wire::opt_bytes(
            self.odd_key,
        ).len() / 4 + 2
    }

    /// The wire can hold the message: there is a key, the keys have one of the
    /// lengths in use, and the other parts fit in their fields.
    pub open spec fn well_formed(self) -> bool {
        &&& self.pt < 0x10
        &&& self.salt.len() % 4 == 0
        &&& self.salt.len() < 0x400
        &&& self.even_key is Some || self.odd_key is Some
        &&& is_key_len(self.key_len() as int)
        &&& self.even_key matches Some(k) ==> k.len() == self.key_len()
        &&& self.odd_key matches Some(k) ==> k.len() == self.key_len()
        &&& self.wrap_data.len() == 8
    }

    /// What `b` starts with: the key message or the error, and the bytes behind
    /// it.
    pub open spec fn read(b: Seq<u8>) -> (Result<KeyMessageView, SrtError>, Seq<u8>) {
        let has_even = b[3] % 2 == 1;
        let has_odd = b[3] / 2 % 2 == 1;
        let key_len = b[15] * 4;
        let even_at = 16 + b[14] * 4;
        let odd_at = even_at + (if has_even {
            key_len
        } else {
            0
        });
        let wrap_at = odd_at + (if has_odd {
            key_len
        } else {
            0
        });
        if b.len() < 16 {
            (Err(SrtError::KeyMessageTooShort), b)
        } else if b[0] / 0x10 != 1 {
            (Err(SrtError::UnrecognizedKeyVersion(b[0] / 0x10)), b.skip(16))
        } else if b[8] > 3 {
            (Err(SrtError::UnrecognizedCipher(b[8])), b.skip(16))
        } else if !has_even && !has_odd {
            (Err(SrtError::NoKeys), b.skip(16))
        } else if !is_key_len(key_len) {
            (Err(SrtError::InvalidKeyLength(key_len as u16)), b.skip(16))
        } else if b.len() < wrap_at + 8 {
            (Err(SrtError::KeysTooShort), b.skip(16))
        } else {
            (
                Ok(
                    KeyMessageView {
                        pt: b[0] % 0x10,
                        sign: wire::u16_at(b, 1),
                        keki: wire::u32_at(b, 4),
                        cipher: CipherType::decode(b[8])->Ok_0,
                        auth: b[9],
                        se: b[10],
                        salt: b.subrange(16, even_at),
                        even_key: if has_even {
                            Some(b.subrange(even_at, odd_at))
                        } else {
                            None
                        },
                        odd_key: if has_odd {
                            Some(b.subrange(odd_at, wrap_at))
                        } else {
                            None
                        },
                        wrap_data: b.subrange(wrap_at, wrap_at + 8),
                    },
                ),
                b.skip(wrap_at + 8),
            )
        }
    }
}

/// Takes the first `n` bytes from `buf`.
fn get_bytes(buf: &mut &[u8], n: usize) -> (r: Vec<u8>)
    requires
        old(buf)@.len() >= n,
    ensures
        r@ == old(buf)@.take(n as int),
        final(buf)@ == old(buf)@.skip(n as int),
{
    let mut v: Vec<u8> = vec![0; n];
    buffer::copy_to_slice(buf, v.as_mut_slice());
    v
}

/// Takes a key of `n` bytes from `buf`, if there is one.
fn get_key(buf: &mut &[u8], present: bool, n: usize) -> (r: Option<Vec<u8>>)
    requires
        present ==> old(buf)@.len() >= n,
    ensures
        key_view(r) == (if present {
            Some(old(buf)@.take(n as int))
        } else {
            None
        }),
        final(buf)@ == old(buf)@.skip(if present {
            n as int
        } else {
            0
        }),
{
    if present {
        Some(get_bytes(buf, n))
    } else {
        assert(buf@ =~= old(buf)@.skip(0));
        None
    }
}

/// The four header words of a key message, as they come.
struct KeyHeader {
    version_pt: u8,
    sign: u16,
    key_flags: u8,
    keki: u32,
    cipher: u8,
    auth: u8,
    se: u8,
    salt_words: u8,
    key_words: u8,
}

impl KeyHeader {
    /// Reads the header words from the front of `buf`.
    fn parse(buf: &mut &[u8]) -> (r: KeyHeader)
        requires
            old(buf)@.len() >= 16,
        ensures
            r.version_pt == old(buf)@[0],
            r.sign == wire::u16_at(old(buf)@, 1),
            r.key_flags == old(buf)@[3],
            r.keki == wire::u32_at(old(buf)@, 4),
            r.cipher == old(buf)@[8],
            r.auth == old(buf)@[9],
            r.se == old(buf)@[10],
            r.salt_words == old(buf)@[14],
            r.key_words == old(buf)@[15],
            final(buf)@ == old(buf)@.skip(16),
    {
        broadcast use wire::lemma_skip_skip;

        let version_pt = buffer::get_u8(buf);
        let sign = buffer::get_u16(buf);
        let key_flags = buffer::get_u8(buf);
        let keki = buffer::get_u32(buf);
        let cipher = buffer::get_u8(buf);
        let auth = buffer::get_u8(buf);
        let se = buffer::get_u8(buf);
        let _reserved = buffer::get_u8(buf);
        let _reserved = buffer::get_u16(buf);
        let salt_words = buffer::get_u8(buf);
        let key_words = buffer::get_u8(buf);
        KeyHeader { version_pt, sign, key_flags, keki, cipher, auth, se, salt_words, key_words }
    }
}

impl SrtKeyMessage {
    /// Reads a key message from the front of `buf`.
    pub fn parse(buf: &mut &[u8]) -> (r: Result<SrtKeyMessage, SrtError>)
        ensures
            wire::outcome(r) == KeyMessageView::read(old(buf)@).0,
            final(buf)@ == KeyMessageView::read(old(buf)@).1,
    {
        if buffer::remaining(buf) < 16 {
            return Err(SrtError::KeyMessageTooShort);
        }
        let ghost b = buf@;
        let h = KeyHeader::parse(buf);
        if h.version_pt / 0x10 != 1 {
            return Err(SrtError::UnrecognizedKeyVersion(h.version_pt / 0x10));
        }
        let cipher = match CipherType::from_u8(h.cipher) {
            Ok(c) => c,
            Err(c) => return Err(SrtError::UnrecognizedCipher(c)),
        };
        let has_even = h.key_flags % 2 == 1;
        let has_odd = h.key_flags / 2 % 2 == 1;
        let salt_len = h.salt_words as usize * 4;
        let key_len = h.key_words as usize * 4;
        if !has_even && !has_odd {
            return Err(SrtError::NoKeys);
        }
        match key_len {
            16 | 24 | 32 => {},
            n => return Err(SrtError::InvalidKeyLength(n as u16)),
        }
        let even_len: usize = if has_even {
            key_len
        } else {
            0
        };
        let odd_len: usize = if has_odd {
            key_len
        } else {
            0
        };
        if buffer::remaining(buf) < salt_len + even_len + odd_len + 8 {
            return Err(SrtError::KeysTooShort);
        }
        broadcast use wire::lemma_skip_skip;

        let ghost even_at: int = 16 + salt_len;
        let ghost odd_at: int = even_at + even_len;
        let ghost wrap_at: int = odd_at + odd_len;
        let salt = get_bytes(buf, salt_len);
        assert(salt@ =~= b.subrange(16, even_at));
        let even_key = get_key(buf, has_even, key_len);
        assert(buf@ == b.skip(odd_at));
        assert(has_even ==> key_view(even_key)->Some_0 =~= b.subrange(even_at, odd_at));
        let odd_key = get_key(buf, has_odd, key_len);
        assert(buf@ == b.skip(wrap_at));
        assert(has_odd ==> key_view(odd_key)->Some_0 =~= b.subrange(odd_at, wrap_at));
        let mut wrap_data: [u8; 8] = [0; 8];
        buffer::copy_to_slice(buf, &mut wrap_data);
        assert(wrap_data@ =~= b.subrange(wrap_at, wrap_at + 8));
        Ok(SrtKeyMessage {
            pt: h.version_pt % 0x10,
            sign: h.sign,
            keki: h.keki,
            cipher,
            auth: h.auth,
            se: h.se,
            salt,
            even_key,
            odd_key,
            wrap_data,
        })
    }

    /// The length of the keys, 0 without one.
    fn key_len(&self) -> (r: usize)
        ensures
            r == self@.key_len(),
    {
        match &self.even_key {
            Some(k) => k.len(),
            None => match &self.odd_key {
                Some(k) => k.len(),
                None => 0,
            },
        }
    }

    /// The length of the key message in words of 32 bits, in the 16 bits that
    /// an extension has for it.
    pub fn size_words(&self) -> (r: u16)
        ensures
            r == self@.words() % 0x1_0000,
    {
        let even: usize = match &self.even_key {
            Some(k) => k.len(),
            None => 0,
        };
        let odd: usize = match &self.odd_key {
            Some(k) => k.len(),
            None => 0,
        };
        let words: usize = 4 + self.salt.len() / 4 + even / 4 + odd / 4 + 2;
        (words % 0x1_0000) as u16
    }

    /// The key flags: bit 0 for the even key, bit 1 for the odd one.
    fn key_flags(&self) -> (r: u8)
        ensures
            r == self@.key_flags(),
    {
        let even: u8 = if self.even_key.is_some() {
            1
        } else {
            0
        };
        let odd: u8 = if self.odd_key.is_some() {
            2
        } else {
            0
        };
        even + odd
    }

    /// Appends the four header words to `into`.
    fn serialize_header(&self, into: &mut Vec<u8>)
        requires
            wire::room_for(old(into)@.len(), 16),
        ensures
            final(into)@ == old(into)@ + self@.header_bytes(),
    {
        let cipher: [u8; 4] = [self.cipher.to_u8(), self.auth, self.se, 0];
        let lengths: [u8; 2] = [
            (self.salt.len() / 4 % 0x100) as u8,
            (self.key_len() / 4 % 0x100) as u8,
        ];
        assert(cipher@ =~= seq![self.cipher.code(), self.auth, self.se, 0u8]);
        assert(lengths@ =~= seq![
            (self@.salt.len() / 4 % 0x100) as u8,
            (self@.key_len() / 4 % 0x100) as u8,
        ]);
        buffer::put_u8(into, 0x10 + self.pt % 0x10);
        buffer::put_u16(into, self.sign);
        buffer::put_u8(into, self.key_flags());
        buffer::put_u32(into, self.keki);
        buffer::put(into, cipher.as_slice());
        buffer::put_u16(into, 0);
        buffer::put(into, lengths.as_slice());
        assert(into@ =~= old(into)@ + self@.header_bytes());
    }

    /// Appends the key message to `into`.
    pub fn serialize(&self, into: &mut Vec<u8>)
        requires
            wire::room_for(old(into)@.len(), self@.bytes().len()),
        ensures
            final(into)@ == old(into)@ + self@.bytes(),
    {
        let ghost header = self@.header_bytes();
        assert(header.len() == 16);
        self.serialize_header(into);
        buffer::put(into, self.salt.as_slice());
        if let Some(k) = &self.even_key {
            buffer::put(into, k.as_slice());
        }
        if let Some(k) = &self.odd_key {
            buffer::put(into, k.as_slice());
        }
        buffer::put(into, self.wrap_data.as_slice());
        assert(into@ =~= old(into)@ + self@.bytes());
    }
}

impl SrtControlView {
    /// The number of the packet's type.
    pub open spec fn type_id(self) -> u16 {
        match self {
            SrtControlView::Reject => 0,
            SrtControlView::HandshakeRequest(_) => 1,
            SrtControlView::HandshakeResponse(_) => 2,
            SrtControlView::KeyManagerRequest(_) => 3,
            SrtControlView::KeyManagerResponse(_) => 4,
            SrtControlView::Sid => 5,
            SrtControlView::Smoother => 6,
        }
    }

    /// The bytes of the packet's body.
    pub open spec fn bytes(self) -> Seq<u8> {
        match self {
            SrtControlView::HandshakeRequest(h) | SrtControlView::HandshakeResponse(h) => h.bytes(),
            SrtControlView::KeyManagerRequest(k) | SrtControlView::KeyManagerResponse(k) => {
                k.bytes()
            },
            _ => Seq::empty(),
        }
    }

    /// The length of the packet's body in whole words.
    pub open spec fn words(self) -> nat {
        match self {
            SrtControlView::HandshakeRequest(_) | SrtControlView::HandshakeResponse(_) => 3,
            SrtControlView::KeyManagerRequest(k) | SrtControlView::KeyManagerResponse(k) => {
                k.words()
            },
            _ => 0,
        }
    }

    /// The wire can hold the packet.
    pub open spec fn well_formed(self) -> bool {
        match self {
            SrtControlView::HandshakeRequest(h) | SrtControlView::HandshakeResponse(h) => {
                h.flags.known()
            },
            SrtControlView::KeyManagerRequest(k) | SrtControlView::KeyManagerResponse(k) => {
                k.well_formed()
            },
            _ => true,
        }
    }

    /// What `b` starts with, as a packet of type `kind`: the packet or the
    /// error, and the bytes behind it.
    pub open spec fn read(kind: u16, b: Seq<u8>) -> (Result<SrtControlView, SrtError>, Seq<u8>) {
        if kind == 0 {
            (Ok(SrtControlView::Reject), b)
        } else if kind == 1 || kind == 2 {
            let (h, rest) = SrtHandshake::read(b);
            (
                match h {
                    Ok(h) => Ok(
                        if kind == 1 {
                            SrtControlView::HandshakeRequest(h)
                        } else {
                            SrtControlView::HandshakeResponse(h)
                        },
                    ),
                    Err(e) => Err(e),
                },
                rest,
            )
        } else if kind == 3 || kind == 4 {
            let (k, rest) = KeyMessageView::read(b);
            (
                match k {
                    Ok(k) => Ok(
                        if kind == 3 {
                            SrtControlView::KeyManagerRequest(k)
                        } else {
                            SrtControlView::KeyManagerResponse(k)
                        },
                    ),
                    Err(e) => Err(e),
                },
                rest,
            )
        } else if kind == 5 {
            (Ok(SrtControlView::Sid), b)
        } else if kind == 6 {
            (Ok(SrtControlView::Smoother), b)
        } else {
            (Err(SrtError::UnrecognizedType(kind)), b)
        }
    }
}

impl SrtControlPacket {
    /// Reads a packet of type `packet_type` from the front of `buf`.
    pub fn parse(packet_type: u16, buf: &mut &[u8]) -> (r: Result<SrtControlPacket, SrtError>)
        ensures
            wire::outcome(r) == SrtControlView::read(packet_type, old(buf)@).0,
            final(buf)@ == SrtControlView::read(packet_type, old(buf)@).1,
    {
        match packet_type {
            0 => Ok(SrtControlPacket::Reject),
            1 => match SrtHandshake::parse(buf) {
                Ok(h) => Ok(SrtControlPacket::HandshakeRequest(h)),
                Err(e) => Err(e),
            },
            2 => match SrtHandshake::parse(buf) {
                Ok(h) => Ok(SrtControlPacket::HandshakeResponse(h)),
                Err(e) => Err(e),
            },
            3 => match SrtKeyMessage::parse(buf) {
                Ok(k) => Ok(SrtControlPacket::KeyManagerRequest(k)),
                Err(e) => Err(e),
            },
            4 => match SrtKeyMessage::parse(buf) {
                Ok(k) => Ok(SrtControlPacket::KeyManagerResponse(k)),
                Err(e) => Err(e),
            },
            5 => Ok(SrtControlPacket::Sid),
            6 => Ok(SrtControlPacket::Smoother),
            n => Err(SrtError::UnrecognizedType(n)),
        }
    }

    /// The number of the packet's type.
    pub fn type_id(&self) -> (r: u16)
        ensures
            r == self@.type_id(),
    {
        match self {
            SrtControlPacket::Reject => 0,
            SrtControlPacket::HandshakeRequest(_) => 1,
            SrtControlPacket::HandshakeResponse(_) => 2,
            SrtControlPacket::KeyManagerRequest(_) => 3,
            SrtControlPacket::KeyManagerResponse(_) => 4,
            SrtControlPacket::Sid => 5,
            SrtControlPacket::Smoother => 6,
        }
    }

    /// The length of the packet's body in words of 32 bits, in the 16 bits that
    /// an extension has for it.
    pub fn size_words(&self) -> (r: u16)
        ensures
            r == self@.words() % 0x1_0000,
    {
        match self {
            SrtControlPacket::HandshakeRequest(_) | SrtControlPacket::HandshakeResponse(_) => 3,
            SrtControlPacket::KeyManagerRequest(k) | SrtControlPacket::KeyManagerResponse(k) => {
                k.size_words()
            },
            _ => 0,
        }
    }

    /// Appends the packet's body to `into`.
    pub fn serialize(&self, into: &mut Vec<u8>)
        requires
            wire::room_for(old(into)@.len(), self@.bytes().len()),
        ensures
            final(into)@ == old(into)@ + self@.bytes(),
    {
        match self {
            SrtControlPacket::HandshakeRequest(h) | SrtControlPacket::HandshakeResponse(h) => {
                h.serialize(into);
            },
            SrtControlPacket::KeyManagerRequest(k) | SrtControlPacket::KeyManagerResponse(k) => {
                k.serialize(into);
            },
            _ => {
                assert(into@ =~= old(into)@ + self@.bytes());
            },
        }
    }
}

} // verus!
