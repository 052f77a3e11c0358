//! Where the parts of a packet stand among its bytes.
//!
//! All positions are counted from the start of the bytes, and all numbers are
//! written out, byte by byte.
use crate::control::{HandshakeVSInfo, HandshakeWarnings, IpAddr, ShakeType, SocketType};
use crate::numbers::{MsgNumber, SeqNumber, SrtVersion};
use crate::srt::{CipherType, SrtControlPacket, SrtHandshake, SrtKeyMessage, SrtShakeFlags};
use crate::{srt, wire};
use vstd::prelude::*;

verus! {

/// The number that the two bytes at `at` are, the first one the upper.
pub open spec fn half(b: Seq<u8>, at: int) -> int {
    b[at] * 0x100 + b[at + 1]
}

/// The number that the four bytes at `at` are, the first one the uppermost.
pub open spec fn word(b: Seq<u8>, at: int) -> int {
    b[at] * 0x100_0000 + b[at + 1] * 0x1_0000 + b[at + 2] * 0x100 + b[at + 3]
}

/// The same in two's complement: the first bit is worth the opposite.
pub open spec fn signed_word(b: Seq<u8>, at: int) -> int {
    if b[at] < 0x80 {
        word(b, at)
    } else {
        word(b, at) - 0x1_0000_0000
    }
}

/// The bytes `s` stand in `b` at `at`.
pub open spec fn stands_at(s: Seq<u8>, b: Seq<u8>, at: int) -> bool {
    &&& 0 <= at
    &&& at + s.len() <= b.len()
    &&& forall|i: int| 0 <= i < s.len() ==> #[trigger] s[i] == b[at + i]
}

/// An SRT handshake stands in `b` at `at`, as far as its version and its two
/// latencies go.
pub open spec fn srt_handshake_at(h: SrtHandshake, b: Seq<u8>, at: int) -> bool {
    &&& 0 <= at
    &&& at + 12 <= b.len()
    &&& b[at + 1] == h.version.major
    &&& b[at + 2] == h.version.minor
    &&& b[at + 3] == h.version.patch
    &&& half(b, at + 8) == h.peer_latency
    &&& half(b, at + 10) == h.latency
}

/// The length of a key that may be there.
pub open spec fn key_size(key: Option<Vec<u8>>) -> int {
    match key {
        Some(k) => k@.len() as int,
        None => 0,
    }
}

/// The number of bytes of a key message: four words, the salt, the keys and two
/// words.
pub open spec fn key_message_size(m: SrtKeyMessage) -> int {
    16 + m.salt@.len() + key_size(m.even_key) + key_size(m.odd_key) + 8
}

/// The number `n` stands for the cipher.
pub open spec fn is_cipher_number(c: CipherType, n: u8) -> bool {
    match c {
        CipherType::NoCipher => n == 0,
        CipherType::ECB => n == 1,
        CipherType::CTR => n == 2,
        CipherType::CBC => n == 3,
    }
}

/// A key message stands in `b` at `at`, as far as all but the lengths in its
/// header go: behind four words come the salt, the even key, the odd key and the
/// wrap data.
pub open spec fn key_message_at(m: SrtKeyMessage, b: Seq<u8>, at: int) -> bool {
    let even_at = at + 16 + m.salt@.len();
    let odd_at = even_at + key_size(m.even_key);
    let wrap_at = odd_at + key_size(m.odd_key);
    &&& 0 <= at
    &&& at + key_message_size(m) <= b.len()
    &&& b[at] / 0x10 == 1
    &&& b[at] % 0x10 == m.pt % 0x10
    &&& half(b, at + 1) == m.sign
    &&& b[at + 3] % 2 == 1 <==> m.even_key is Some
    &&& b[at + 3] / 2 % 2 == 1 <==> m.odd_key is Some
    &&& word(b, at + 4) == m.keki
    &&& is_cipher_number(m.cipher, b[at + 8])
    &&& b[at + 9] == m.auth
    &&& b[at + 10] == m.se
    &&& stands_at(m.salt@, b, at + 16)
    &&& m.even_key matches Some(k) ==> stands_at(k@, b, even_at)
    &&& m.odd_key matches Some(k) ==> stands_at(k@, b, odd_at)
    &&& stands_at(m.wrap_data@, b, wrap_at)
}

/// The number `n` stands for the type of the SRT packet.
pub open spec fn is_srt_number(p: SrtControlPacket, n: int) -> bool {
    match p {
        SrtControlPacket::Reject => n == 0,
        SrtControlPacket::HandshakeRequest(_) => n == 1,
        SrtControlPacket::HandshakeResponse(_) => n == 2,
        SrtControlPacket::KeyManagerRequest(_) => n == 3,
        SrtControlPacket::KeyManagerResponse(_) => n == 4,
        SrtControlPacket::Sid => n == 5,
        SrtControlPacket::Smoother => n == 6,
    }
}

/// The number of bytes of an SRT packet's body.
pub open spec fn srt_packet_size(p: SrtControlPacket) -> int {
    match p {
        SrtControlPacket::HandshakeRequest(_) | SrtControlPacket::HandshakeResponse(_) => 12,
        SrtControlPacket::KeyManagerRequest(m) | SrtControlPacket::KeyManagerResponse(m) => {
            key_message_size(m)
        },
        _ => 0,
    }
}

/// An IP address stands in the 16 bytes of `b` at `at`, its octets from the last
/// to the first, with zeros behind those of an IPv4 address.
pub open spec fn reversed_address_at(a: IpAddr, b: Seq<u8>, at: int) -> bool {
    match a {
        IpAddr::V4(octets) => {
            &&& forall|i: int| 0 <= i < 4 ==> #[trigger] b[at + i] == octets@[3 - i]
            &&& forall|i: int| 4 <= i < 16 ==> #[trigger] b[at + i] == 0
        },
        IpAddr::V6(octets) => forall|i: int|
            0 <= i < 16 ==> #[trigger] b[at + i] == octets@[15 - i],
    }
}

/// The number `n` stands for the stage of the handshake.
pub open spec fn is_stage_number(s: ShakeType, n: int) -> bool {
    match s {
        ShakeType::Induction => n == 1,
        ShakeType::Waveahand => n == 0,
        ShakeType::Conclusion => n == -1,
        ShakeType::Agreement => n == -2,
    }
}

/// The number `n` stands for the socket type.
pub open spec fn is_socket_number(t: SocketType, n: int) -> bool {
    match t {
        SocketType::Stream => n == 1,
        SocketType::Datagram => n == 2,
    }
}

/// Numbers are read in big-endian order, signed ones in two's complement.
pub proof fn law_numbers_are_read_big_endian(b: Seq<u8>, at: int)
    ensures
        wire::u16_at(b, at) == half(b, at),
        wire::u32_at(b, at) == word(b, at),
        wire::i32_at(b, at) == signed_word(b, at),
{
}

/// Numbers are written in big-endian order, signed ones in two's complement.
#[verifier::rlimit(60)]
pub proof fn law_numbers_are_written_big_endian(x: u16, y: u32, z: i32)
    ensures
        wire::u16_bytes(x).len() == 2,
        half(wire::u16_bytes(x), 0) == x,
        wire::u32_bytes(y).len() == 4,
        word(wire::u32_bytes(y), 0) == y,
        wire::i32_bytes(z).len() == 4,
        signed_word(wire::i32_bytes(z), 0) == z,
{
}

/// There is room for more where all bytes together, twice over, are no more than
/// a vector can hold.
pub proof fn law_room(len: nat, extra: nat)
    ensures
        wire::room_for(len, extra) <==> len + extra + len + extra <= isize::MAX,
{
}

/// A sequence number is all of the word but its first bit: what is left takes
/// the low 31 bits as they are.
pub proof fn law_sequence_numbers_have_31_bits(n: u32)
    ensures
        n < 0x8000_0000 ==> SeqNumber::truncate(n).0 == n,
        n >= 0x8000_0000 ==> SeqNumber::truncate(n).0 == n - 0x8000_0000,
        SeqNumber(n).in_range() <==> n < 0x8000_0000,
{
}

/// A message number is the low 26 bits of the word, as they are: it differs from
/// the word by a multiple of what those bits can count to.
pub proof fn law_message_numbers_have_26_bits(n: u32)
    ensures
        MsgNumber::truncate(n).0 < 0x400_0000,
        MsgNumber::truncate(n).0 <= n,
        (n - MsgNumber::truncate(n).0) % 0x400_0000 == 0,
        MsgNumber(n).in_range() <==> n < 0x400_0000,
{
}

/// A version is three bytes below a zero byte, the major part uppermost; the
/// uppermost byte of a number that is read is passed over.
pub proof fn law_version_is_three_bytes(v: SrtVersion, b: Seq<u8>, at: int)
    ensures
        v.code() == v.major * 0x1_0000 + v.minor * 0x100 + v.patch,
        SrtVersion::decode(wire::u32_at(b, at)).major == b[at + 1],
        SrtVersion::decode(wire::u32_at(b, at)).minor == b[at + 2],
        SrtVersion::decode(wire::u32_at(b, at)).patch == b[at + 3],
{
    lemma_bytes_of_word(wire::u32_at(b, at), b[at], b[at + 1], b[at + 2], b[at + 3]);
}

/// The bytes of a number, from the uppermost down.
proof fn lemma_bytes_of_word(n: u32, b0: u8, b1: u8, b2: u8, b3: u8)
    requires
        n == b0 * 0x100_0000 + b1 * 0x1_0000 + b2 * 0x100 + b3,
    ensures
        n / 0x1_0000 % 0x100 == b1,
        n / 0x100 % 0x100 == b2,
        n % 0x100 == b3,
{
    assert(n / 0x1_0000 == b0 * 0x100 + b1);
    assert(n / 0x100 == b0 * 0x1_0000 + b1 * 0x100 + b2);
}

/// The flags of an SRT handshake are the low six bits of the word, as they are.
pub proof fn law_shake_flags_have_six_bits(f: SrtShakeFlags, n: u32)
    ensures
        SrtShakeFlags::truncate(n).bits < 0x40,
        SrtShakeFlags::truncate(n).bits <= n,
        (n - SrtShakeFlags::truncate(n).bits) % 0x40 == 0,
        f.known() <==> f.bits < 0x40,
{
}

/// The flags of an SRT handshake are one bit each, in this order, and there are
/// no others.
pub proof fn law_shake_flags_in_order()
    ensures
        SrtShakeFlags::TSBPDSND == 1,
        SrtShakeFlags::TSBPDRCV == 2 * SrtShakeFlags::TSBPDSND,
        SrtShakeFlags::HAICRYPT == 2 * SrtShakeFlags::TSBPDRCV,
        SrtShakeFlags::TLPKTDROP == 2 * SrtShakeFlags::HAICRYPT,
        SrtShakeFlags::NAKREPORT == 2 * SrtShakeFlags::TLPKTDROP,
        SrtShakeFlags::REXMITFLG == 2 * SrtShakeFlags::NAKREPORT,
        srt::SHAKE_FLAGS_ALL == 2 * SrtShakeFlags::REXMITFLG - 1,
{
}

/// The numbers of the socket types, and that any other number comes back.
pub proof fn law_socket_type_numbers(t: SocketType, n: u16)
    ensures
        is_socket_number(t, t.code() as int),
        SocketType::decode(n) matches Ok(s) ==> is_socket_number(s, n as int),
        SocketType::decode(n) matches Err(m) ==> m == n && n != 1 && n != 2,
{
}

/// The numbers of the stages of a handshake, and that any other number comes
/// back.
pub proof fn law_stage_numbers(s: ShakeType, n: i32)
    ensures
        is_stage_number(s, s.code() as int),
        ShakeType::decode(n) matches Ok(t) ==> is_stage_number(t, n as int),
        ShakeType::decode(n) matches Err(m) ==> m == n && !(-2 <= n <= 1),
{
}

/// The numbers of the ciphers, and that any other number comes back.
pub proof fn law_cipher_numbers(c: CipherType, n: u8)
    ensures
        is_cipher_number(c, c.code()),
        CipherType::decode(n) matches Ok(d) ==> is_cipher_number(d, n),
        CipherType::decode(n) matches Err(m) ==> m == n && n > 3,
{
}

/// The numbers of the SRT packets, and the lengths of their bodies in words: a
/// part of a key message that is no whole number of words counts without its
/// end.
pub proof fn law_srt_packet_numbers(p: SrtControlPacket)
    ensures
        is_srt_number(p, p@.type_id() as int),
        p@.words() == size_in_words(p),
{
}

/// The number of words of an SRT packet's body.
pub open spec fn size_in_words(p: SrtControlPacket) -> int {
    match p {
        SrtControlPacket::HandshakeRequest(_) | SrtControlPacket::HandshakeResponse(_) => 3,
        SrtControlPacket::KeyManagerRequest(m) | SrtControlPacket::KeyManagerResponse(m) => {
            6 + m.salt@.len() / 4 + key_size(m.even_key) / 4 + key_size(m.odd_key) / 4
        },
        _ => 0,
    }
}

/// The bit for an extension, where there is one.
pub open spec fn bit_of(ext: Option<SrtControlPacket>, bit: int) -> int {
    if ext is Some {
        bit
    } else {
        0
    }
}

/// The second word of a handshake. In version 4 it is the number of the socket
/// type. In version 5 the upper half is the crypto size in units of eight bytes;
/// the lower half is the magic code in an induction, else a bit for each
/// extension that there is.
pub proof fn law_type_flags(info: HandshakeVSInfo, s: ShakeType)
    ensures
        info matches HandshakeVSInfo::V4(t) ==> info@.version() == 4 && is_socket_number(
            t,
            info@.type_flags(s) as int,
        ),
        info matches HandshakeVSInfo::V5 { crypto_size, ext_hs, ext_km, ext_config } ==> {
            let w = info@.type_flags(s);
            &&& info@.version() == 5
            &&& w / 0x1_0000 == crypto_size / 8
            &&& s is Induction ==> w % 0x1_0000 == 0x4A17
            &&& s !is Induction ==> w % 0x1_0000 == bit_of(ext_hs, 1) + bit_of(ext_km, 2) + bit_of(
                ext_config,
                4,
            )
        },
        info@.has_extensions() <==> (info matches HandshakeVSInfo::V5 {
            ext_hs,
            ext_km,
            ext_config,
            ..
        } && (ext_hs is Some || ext_km is Some || ext_config is Some)),
{
    if let HandshakeVSInfo::V5 { crypto_size, ext_hs, ext_km, ext_config } = info {
        let high = (crypto_size / 8) as int;
        let low: int = if s is Induction {
            0x4A17
        } else {
            bit_of(ext_hs, 1) + bit_of(ext_km, 2) + bit_of(ext_config, 4)
        };
        let w = info@.type_flags(s);
        assert(0 <= low < 0x1_0000 && 0 <= high < 0x20);
        assert(w == high * 0x1_0000 + low);
    }
}

/// What is suspicious about a handshake of version 5 in one of the four stages:
/// a crypto size other than 0, 16, 24 and 32, an induction without the magic
/// code, and bits above the three extension flags elsewhere. About anything else
/// there is no warning.
pub proof fn law_warnings(b: Seq<u8>)
    ensures
        ({
            let w = HandshakeWarnings::of(b);
            let units = half(b, 4);
            if b.len() >= 48 && signed_word(b, 0) == 5 && -2 <= signed_word(b, 20) <= 1 {
                &&& w.length == 8 * units % 0x1_0000
                &&& w.flags == half(b, 6)
                &&& w.crypto_length <==> !(w.length == 0 || w.length == 16 || w.length == 24
                    || w.length == 32)
                &&& w.no_magic_code <==> signed_word(b, 20) == 1 && half(b, 6) != 0x4A17
                &&& w.extra_flags <==> signed_word(b, 20) != 1 && half(b, 6) > 7
            } else {
                &&& !w.crypto_length
                &&& !w.no_magic_code
                &&& !w.extra_flags
                &&& w.length == 0
                &&& w.flags == 0
                &&& w == HandshakeWarnings::none()
            }
        }),
        ({
            let w = HandshakeWarnings::none();
            !w.crypto_length && !w.no_magic_code && !w.extra_flags && w.length == 0 && w.flags == 0
        }),
{
}

} // verus!
