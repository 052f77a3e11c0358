//! What is written, and where: each law is about the bytes that a call appends.
use crate::control::{
    ControlPacket, ControlTypes, HandshakeControlInfo, HandshakeVSInfo, IpAddr, ShakeType,
};
use crate::srt::{SrtControlPacket, SrtHandshake, SrtKeyMessage};
use crate::{control, laws, layout, wire};
use vstd::prelude::*;

verus! {

/// An SRT handshake that was written to `b` at `at`: the first byte is zero, and
/// all flags are there.
pub open spec fn written_srt_handshake_at(h: SrtHandshake, b: Seq<u8>, at: int) -> bool {
    &&& layout::srt_handshake_at(h, b, at)
    &&& b[at] == 0
    &&& layout::word(b, at + 4) == h.flags.bits
}

/// A key message that was written to `b` at `at`: the reserved bits are zero, and
/// the lengths of the salt and of a key, the even one if there is one, count
/// words.
pub open spec fn written_key_message_at(m: SrtKeyMessage, b: Seq<u8>, at: int) -> bool {
    let key = if m.even_key is Some {
        layout::key_size(m.even_key)
    } else {
        layout::key_size(m.odd_key)
    };
    &&& layout::key_message_at(m, b, at)
    &&& b[at + 3] < 4
    &&& b[at + 11] == 0
    &&& b[at + 12] == 0
    &&& b[at + 13] == 0
    &&& b[at + 14] == m.salt@.len() / 4 % 0x100
    &&& b[at + 15] == key / 4 % 0x100
}

/// The body of an SRT packet that was written to `b` at `at`.
pub open spec fn written_srt_packet_at(p: SrtControlPacket, b: Seq<u8>, at: int) -> bool {
    match p {
        SrtControlPacket::HandshakeRequest(h) | SrtControlPacket::HandshakeResponse(h) => {
            written_srt_handshake_at(h, b, at)
        },
        SrtControlPacket::KeyManagerRequest(m) | SrtControlPacket::KeyManagerResponse(m) => {
            written_key_message_at(m, b, at)
        },
        _ => true,
    }
}

/// An SRT handshake that is written takes twelve bytes and has every field in its
/// place.
pub proof fn law_srt_handshake_is_written(h: SrtHandshake)
    ensures
        h.bytes().len() == 12,
        written_srt_handshake_at(h, h.bytes(), 0),
{
    let s = h.bytes();
    assert(s.subrange(0, 4) =~= wire::u32_bytes(h.version.code()));
    assert(s.subrange(4, 8) =~= wire::u32_bytes(h.flags.bits));
    assert(s.subrange(8, 10) =~= wire::u16_bytes(h.peer_latency));
    assert(s.subrange(10, 12) =~= wire::u16_bytes(h.latency));
    wire::lemma_u32_reads_back(s, 0, h.version.code());
    wire::lemma_u32_reads_back(s, 4, h.flags.bits);
    wire::lemma_u16_reads_back(s, 8, h.peer_latency);
    wire::lemma_u16_reads_back(s, 10, h.latency);
    layout::law_version_is_three_bytes(h.version, s, 0);
    laws::law_version_reads_back(h.version);
    assert(s[0] == (h.version.code() / 0x100_0000) as u8);
}

/// The header of a key message that is written.
proof fn lemma_key_header(m: SrtKeyMessage, t: Seq<u8>)
    ensures
        m@.header_bytes().len() == 16,
        ({
            let b = m@.header_bytes() + t;
            let key = if m.even_key is Some {
                layout::key_size(m.even_key)
            } else {
                layout::key_size(m.odd_key)
            };
            &&& b[0] / 0x10 == 1
            &&& b[0] % 0x10 == m.pt % 0x10
            &&& layout::half(b, 1) == m.sign
            &&& b[3] < 4
            &&& b[3] % 2 == 1 <==> m.even_key is Some
            &&& b[3] / 2 % 2 == 1 <==> m.odd_key is Some
            &&& layout::word(b, 4) == m.keki
            &&& layout::is_cipher_number(m.cipher, b[8])
            &&& b[9] == m.auth
            &&& b[10] == m.se
            &&& b[11] == 0
            &&& b[12] == 0
            &&& b[13] == 0
            &&& b[14] == m.salt@.len() / 4 % 0x100
            &&& b[15] == key / 4 % 0x100
        }),
{
    let b = m@.header_bytes() + t;
    assert(b.subrange(1, 3) =~= wire::u16_bytes(m.sign));
    assert(b.subrange(4, 8) =~= wire::u32_bytes(m.keki));
    wire::lemma_u16_reads_back(b, 1, m.sign);
    wire::lemma_u32_reads_back(b, 4, m.keki);
    layout::law_cipher_numbers(m.cipher, 0);
    assert(b[0] == 0x10 + m.pt % 0x10);
    assert(b[3] == m@.key_flags());
}

/// A key message that is written has every field in its place, and as many bytes
/// as its parts.
pub proof fn law_key_message_is_written(m: SrtKeyMessage)
    ensures
        m@.bytes().len() == layout::key_message_size(m),
        written_key_message_at(m, m@.bytes(), 0),
{
    let s = m@.bytes();
    let even = wire::opt_bytes(m@.even_key);
    let odd = wire::opt_bytes(m@.odd_key);
    let body = m@.salt + even + odd + m@.wrap_data;
    lemma_key_header(m, body);
    assert(s =~= m@.header_bytes() + body);
    let even_at = 16 + m.salt@.len() as int;
    let odd_at = even_at + layout::key_size(m.even_key);
    let wrap_at = odd_at + layout::key_size(m.odd_key);
    assert(even.len() == layout::key_size(m.even_key));
    assert(odd.len() == layout::key_size(m.odd_key));
    assert(layout::stands_at(m.salt@, s, 16));
    assert(layout::stands_at(even, s, even_at));
    assert(layout::stands_at(odd, s, odd_at));
    assert(layout::stands_at(m.wrap_data@, s, wrap_at));
}

/// The body of an SRT packet that is written has every field in its place, and
/// none but a handshake or a key message has a body.
pub proof fn law_srt_packet_is_written(p: SrtControlPacket)
    ensures
        p@.bytes().len() == layout::srt_packet_size(p),
        written_srt_packet_at(p, p@.bytes(), 0),
        layout::is_srt_number(p, p@.type_id() as int),
{
    match p {
        SrtControlPacket::HandshakeRequest(h) | SrtControlPacket::HandshakeResponse(h) => {
            law_srt_handshake_is_written(h);
        },
        SrtControlPacket::KeyManagerRequest(m) | SrtControlPacket::KeyManagerResponse(m) => {
            law_key_message_is_written(m);
        },
        _ => {},
    }
}

/// Bytes that stand in the part of `b` that is `s` stand in `b`, that much
/// further on.
proof fn lemma_part_stands(v: Seq<u8>, s: Seq<u8>, i: int, b: Seq<u8>, at: int)
    requires
        layout::stands_at(s, b, at),
        layout::stands_at(v, s, i),
    ensures
        layout::stands_at(v, b, at + i),
{
    assert forall|j: int| 0 <= j < v.len() implies #[trigger] v[j] == b[at + i + j] by {
        assert(s[i + j] == b[at + (i + j)]);
    }
}

/// Four words in a part of `b` are the same in `b`, as far as a key message has
/// fields there.
proof fn lemma_header_moves(s: Seq<u8>, i: int, b: Seq<u8>, at: int)
    requires
        layout::stands_at(s, b, at),
        0 <= i,
        i + 16 <= s.len(),
    ensures
        b[at + i] == s[i],
        layout::half(b, at + i + 1) == layout::half(s, i + 1),
        b[at + i + 3] == s[i + 3],
        layout::word(b, at + i + 4) == layout::word(s, i + 4),
        b[at + i + 8] == s[i + 8],
        b[at + i + 9] == s[i + 9],
        b[at + i + 10] == s[i + 10],
        b[at + i + 11] == s[i + 11],
        b[at + i + 12] == s[i + 12],
        b[at + i + 13] == s[i + 13],
        b[at + i + 14] == s[i + 14],
        b[at + i + 15] == s[i + 15],
{
    lemma_numbers_move(s, i + 1, b, at);
    lemma_numbers_move(s, i + 4, b, at);
    assert forall|j: int| 0 <= j < s.len() implies #[trigger] s[j] == b[at + j] by {}
}

/// A key message that was written to a part of `b` at `i` was written to `b`.
proof fn lemma_key_message_moves(m: SrtKeyMessage, s: Seq<u8>, i: int, b: Seq<u8>, at: int)
    requires
        layout::stands_at(s, b, at),
        written_key_message_at(m, s, i),
    ensures
        written_key_message_at(m, b, at + i),
{
    lemma_header_moves(s, i, b, at);
    let even_at = i + 16 + m.salt@.len();
    let odd_at = even_at + layout::key_size(m.even_key);
    let wrap_at = odd_at + layout::key_size(m.odd_key);
    lemma_part_stands(m.salt@, s, i + 16, b, at);
    if let Some(k) = m.even_key {
        lemma_part_stands(k@, s, even_at, b, at);
    }
    if let Some(k) = m.odd_key {
        lemma_part_stands(k@, s, odd_at, b, at);
    }
    lemma_part_stands(m.wrap_data@, s, wrap_at, b, at);
}

/// An SRT handshake that was written to a part of `b` was written to `b`.
proof fn lemma_srt_handshake_moves(h: SrtHandshake, s: Seq<u8>, i: int, b: Seq<u8>, at: int)
    requires
        layout::stands_at(s, b, at),
        written_srt_handshake_at(h, s, i),
    ensures
        written_srt_handshake_at(h, b, at + i),
{
    lemma_numbers_move(s, i + 4, b, at);
    lemma_numbers_move(s, i + 8, b, at);
    assert(s[i] == b[at + i]);
    assert(s[i + 1] == b[at + (i + 1)]);
    assert(s[i + 2] == b[at + (i + 2)]);
    assert(s[i + 3] == b[at + (i + 3)]);
}

/// An SRT packet that was written to a part of `b` was written to `b`.
proof fn lemma_srt_packet_moves(p: SrtControlPacket, s: Seq<u8>, i: int, b: Seq<u8>, at: int)
    requires
        layout::stands_at(s, b, at),
        written_srt_packet_at(p, s, i),
    ensures
        written_srt_packet_at(p, b, at + i),
{
    match p {
        SrtControlPacket::HandshakeRequest(h) | SrtControlPacket::HandshakeResponse(h) => {
            lemma_srt_handshake_moves(h, s, i, b, at);
        },
        SrtControlPacket::KeyManagerRequest(m) | SrtControlPacket::KeyManagerResponse(m) => {
            lemma_key_message_moves(m, s, i, b, at);
        },
        _ => {},
    }
}

/// The number of bytes of an extension that may be there.
pub open spec fn extension_size(ext: Option<SrtControlPacket>) -> int {
    match ext {
        Some(p) => 4 + layout::srt_packet_size(p),
        None => 0,
    }
}

/// An extension that may be there was written to `b` at `at`: its type, its length
/// in words, in as many bits as there are for it, and its body.
pub open spec fn written_extension_at(
    ext: Option<SrtControlPacket>,
    b: Seq<u8>,
    at: int,
) -> bool {
    ext matches Some(p) ==> {
        &&& at + extension_size(ext) <= b.len()
        &&& layout::is_srt_number(p, layout::half(b, at))
        &&& layout::half(b, at + 2) == layout::size_in_words(p) % 0x1_0000
        &&& written_srt_packet_at(p, b, at + 4)
    }
}

/// An extension that is written, wherever it stands.
proof fn lemma_extension_is_written(ext: Option<SrtControlPacket>, b: Seq<u8>, at: int)
    requires
        layout::stands_at(control::ext_bytes(control::ext_view(ext)), b, at),
    ensures
        control::ext_bytes(control::ext_view(ext)).len() == extension_size(ext),
        written_extension_at(ext, b, at),
{
    if let Some(p) = ext {
        let s = control::ext_bytes(Some(p@));
        let words = (p@.words() % 0x1_0000) as u16;
        law_srt_packet_is_written(p);
        layout::law_srt_packet_numbers(p);
        assert(s.subrange(0, 2) =~= wire::u16_bytes(p@.type_id()));
        assert(s.subrange(2, 4) =~= wire::u16_bytes(words));
        wire::lemma_u16_reads_back(s, 0, p@.type_id());
        wire::lemma_u16_reads_back(s, 2, words);
        assert(s[0] == b[at + 0] && s[1] == b[at + 1] && s[2] == b[at + 2] && s[3] == b[at + 3]);
        assert(layout::stands_at(p@.bytes(), s, 4));
        lemma_part_stands(p@.bytes(), s, 4, b, at);
        lemma_srt_packet_moves(p, p@.bytes(), 0, b, at + 4);
    }
}

/// An address that is written takes 16 bytes, its octets from the last to the
/// first, with zeros behind those of an IPv4 address.
pub proof fn law_address_is_written(a: IpAddr)
    ensures
        a@.bytes().len() == 16,
        layout::reversed_address_at(a, a@.bytes(), 0),
{
    let s = a@.bytes();
    match a {
        IpAddr::V4(octets) => {
            assert forall|i: int| 0 <= i < 4 implies #[trigger] s[0 + i] == octets@[3 - i] by {}
            assert forall|i: int| 4 <= i < 16 implies #[trigger] s[0 + i] == 0 by {}
        },
        IpAddr::V6(octets) => {
            assert forall|i: int| 0 <= i < 16 implies #[trigger] s[0 + i] == octets@[15 - i] by {}
        },
    }
}

/// The lower half of the second word of a handshake of version 5: the magic code
/// in an induction, else a bit for each extension that there is.
pub open spec fn declared_by(
    s: ShakeType,
    hs: Option<SrtControlPacket>,
    km: Option<SrtControlPacket>,
    config: Option<SrtControlPacket>,
) -> int {
    if s is Induction {
        0x4A17
    } else {
        layout::bit_of(hs, 1) + layout::bit_of(km, 2) + layout::bit_of(config, 4)
    }
}

/// A handshake that was written to `b` at `at`, as far as its words and its address
/// go.
pub open spec fn written_handshake_at(h: HandshakeControlInfo, b: Seq<u8>, at: int) -> bool {
    &&& b.len() >= at + 48
    &&& layout::word(b, at + 8) == h.init_seq_num.0
    &&& layout::word(b, at + 12) == h.max_packet_size
    &&& layout::word(b, at + 16) == h.max_flow_size
    &&& layout::is_stage_number(h.shake_type, layout::signed_word(b, at + 20))
    &&& layout::word(b, at + 24) == h.socket_id.0
    &&& layout::signed_word(b, at + 28) == h.syn_cookie
    &&& layout::reversed_address_at(h.peer_addr, b, at + 32)
    &&& match h.info {
        HandshakeVSInfo::V4(t) => {
            &&& layout::word(b, at) == 4
            &&& layout::half(b, at + 4) == 0
            &&& layout::is_socket_number(t, layout::half(b, at + 6))
        },
        HandshakeVSInfo::V5 { crypto_size, ext_hs, ext_km, ext_config } => {
            &&& layout::word(b, at) == 5
            &&& layout::half(b, at + 4) == crypto_size / 8
            &&& layout::half(b, at + 6) == declared_by(h.shake_type, ext_hs, ext_km, ext_config)
        },
    }
}

/// The extensions of a handshake that was written to `b` at `at`: they follow its
/// 48 bytes, the handshake extension first, the config extension last.
pub open spec fn written_extensions_at(h: HandshakeControlInfo, b: Seq<u8>, at: int) -> bool {
    h.info matches HandshakeVSInfo::V5 { ext_hs, ext_km, ext_config, .. } ==> {
        let km_at = at + 48 + extension_size(ext_hs);
        let config_at = km_at + extension_size(ext_km);
        &&& written_extension_at(ext_hs, b, at + 48)
        &&& written_extension_at(ext_km, b, km_at)
        &&& written_extension_at(ext_config, b, config_at)
    }
}

/// The number of bytes of a handshake.
pub open spec fn handshake_size(h: HandshakeControlInfo) -> int {
    match h.info {
        HandshakeVSInfo::V4(_) => 48,
        HandshakeVSInfo::V5 { ext_hs, ext_km, ext_config, .. } => 48 + extension_size(ext_hs)
            + extension_size(ext_km) + extension_size(ext_config),
    }
}

/// The words of a handshake that is written.
proof fn lemma_handshake_words(h: HandshakeControlInfo, t: Seq<u8>)
    ensures
        h@.head_bytes().len() == 32,
        ({
            let b = h@.head_bytes() + (h.peer_addr@.bytes() + t);
            &&& b.len() == 48 + t.len()
            &&& written_handshake_at(h, b, 0)
        }),
{
    let addr = h.peer_addr@.bytes();
    let b = h@.head_bytes() + (addr + t);
    laws::lemma_handshake_head(h@, addr + t);
    law_address_is_written(h.peer_addr);
    layout::law_stage_numbers(h.shake_type, 0);
    layout::law_type_flags(h.info, h.shake_type);
    assert forall|i: int| 0 <= i < 16 implies #[trigger] b[0 + 32 + i] == addr[0 + i] by {}
    assert(layout::reversed_address_at(h.peer_addr, b, 32));
    assert(layout::word(b, 0) == wire::u32_at(b, 0));
    assert(wire::i32_at(b, 0) == h.info@.version());
}

/// The extensions of a handshake that is written.
proof fn lemma_extensions_are_written(h: HandshakeControlInfo, front: Seq<u8>)
    requires
        front.len() == 48,
    ensures
        written_extensions_at(h, front + h.info@.bytes(), 0),
        48 + h.info@.bytes().len() == handshake_size(h),
{
    let b = front + h.info@.bytes();
    if let HandshakeVSInfo::V5 { ext_hs, ext_km, ext_config, .. } = h.info {
        let hs = control::ext_bytes(control::ext_view(ext_hs));
        let km = control::ext_bytes(control::ext_view(ext_km));
        let config = control::ext_bytes(control::ext_view(ext_config));
        assert(h.info@.bytes() == hs + km + config);
        assert(layout::stands_at(hs, b, 48));
        lemma_extension_is_written(ext_hs, b, 48);
        assert(layout::stands_at(km, b, 48 + extension_size(ext_hs)));
        lemma_extension_is_written(ext_km, b, 48 + extension_size(ext_hs));
        let config_at = 48 + extension_size(ext_hs) + extension_size(ext_km);
        assert(layout::stands_at(config, b, config_at));
        lemma_extension_is_written(ext_config, b, config_at);
    }
}

/// The value of a field of an ack that may be known, else its default.
pub open spec fn known_or(v: Option<i32>, default: int) -> int {
    match v {
        Some(v) => v as int,
        None => default,
    }
}

/// A Control Information Field that was written to `b` at `at`, to its end.
pub open spec fn written_control_type_at(c: ControlTypes, b: Seq<u8>, at: int) -> bool {
    match c {
        ControlTypes::Handshake(h) => {
            &&& b.len() == at + handshake_size(h)
            &&& written_handshake_at(h, b, at)
            &&& written_extensions_at(h, b, at)
        },
        ControlTypes::Ack {
            ack_number,
            rtt,
            rtt_variance,
            buffer_available,
            packet_recv_rate,
            est_link_cap,
            ..
        } => {
            &&& b.len() == at + 24
            &&& layout::word(b, at) == ack_number.0
            &&& layout::signed_word(b, at + 4) == known_or(rtt, 10_000)
            &&& layout::signed_word(b, at + 8) == known_or(rtt_variance, 50_000)
            &&& layout::signed_word(b, at + 12) == known_or(buffer_available, 8175)
            &&& layout::signed_word(b, at + 16) == known_or(packet_recv_rate, 10_000)
            &&& layout::signed_word(b, at + 20) == known_or(est_link_cap, 1_000)
        },
        ControlTypes::Nak(n) => {
            &&& b.len() == at + 4 * n@.len()
            &&& forall|i: int| 0 <= i < n@.len() ==> #[trigger] n@[i] == layout::word(b, at + 4 * i)
        },
        ControlTypes::Ack2(_) => b.len() == at + 4 && layout::word(b, at) == 0,
        ControlTypes::Srt(p) => {
            &&& b.len() == at + layout::srt_packet_size(p)
            &&& written_srt_packet_at(p, b, at)
        },
        _ => b.len() == at,
    }
}

/// The words of an ack that is written, behind anything.
proof fn lemma_ack_is_written(c: ControlTypes, front: Seq<u8>)
    requires
        c is Ack,
    ensures
        written_control_type_at(c, front + c@.bytes(), front.len() as int),
{
    let s = c@.bytes();
    let b = front + s;
    let at = front.len() as int;
    let rtt = control::or_default(c->rtt, 10_000);
    let variance = control::or_default(c->rtt_variance, 50_000);
    let available = control::or_default(c->buffer_available, 8175);
    let rate = control::or_default(c->packet_recv_rate, 10_000);
    let cap = control::or_default(c->est_link_cap, 1_000);
    assert(b.subrange(at, at + 4) =~= wire::u32_bytes(c->ack_number.0));
    assert(b.subrange(at + 4, at + 8) =~= wire::i32_bytes(rtt));
    assert(b.subrange(at + 8, at + 12) =~= wire::i32_bytes(variance));
    assert(b.subrange(at + 12, at + 16) =~= wire::i32_bytes(available));
    assert(b.subrange(at + 16, at + 20) =~= wire::i32_bytes(rate));
    assert(b.subrange(at + 20, at + 24) =~= wire::i32_bytes(cap));
    wire::lemma_u32_reads_back(b, at, c->ack_number.0);
    wire::lemma_i32_reads_back(b, at + 4, rtt);
    wire::lemma_i32_reads_back(b, at + 8, variance);
    wire::lemma_i32_reads_back(b, at + 12, available);
    wire::lemma_i32_reads_back(b, at + 16, rate);
    wire::lemma_i32_reads_back(b, at + 20, cap);
}

/// The words of a NAK that is written, behind anything.
proof fn lemma_nak_is_written(n: Seq<u32>, front: Seq<u8>)
    ensures
        wire::words_bytes(n).len() == 4 * n.len(),
        forall|i: int|
            0 <= i < n.len() ==> #[trigger] n[i] == layout::word(
                front + wire::words_bytes(n),
                front.len() + 4 * i,
            ),
{
    let s = wire::words_bytes(n);
    let at = front.len() as int;
    wire::lemma_words_len(n);
    wire::lemma_words_read_back(n, Seq::empty());
    assert(s + Seq::empty() =~= s);
    assert forall|i: int| 0 <= i < n.len() implies #[trigger] n[i] == layout::word(
        front + s,
        at + 4 * i,
    ) by {
        assert(wire::words_in(s)[i] == wire::u32_at(s, 4 * i));
        assert(forall|j: int| 0 <= j < s.len() ==> #[trigger] s[j] == (front + s)[at + j]);
    }
}

/// A handshake that is written, behind anything.
proof fn lemma_handshake_is_written(h: HandshakeControlInfo, front: Seq<u8>)
    ensures
        written_control_type_at(
            ControlTypes::Handshake(h),
            front + h@.bytes(),
            front.len() as int,
        ),
{
    let s = h@.bytes();
    let head = h@.head_bytes() + h.peer_addr@.bytes();
    lemma_handshake_words(h, h.info@.bytes());
    law_address_is_written(h.peer_addr);
    wire::lemma_concat(h@.head_bytes(), h.peer_addr@.bytes(), h.info@.bytes());
    lemma_extensions_are_written(h, head);
    assert(layout::stands_at(s, front + s, front.len() as int));
    lemma_handshake_words_move(h, s, front + s, front.len() as int);
    lemma_extensions_move(h, s, front + s, front.len() as int);
}

/// Numbers in a part of `b` are the same in `b`.
proof fn lemma_numbers_move(s: Seq<u8>, i: int, b: Seq<u8>, at: int)
    requires
        layout::stands_at(s, b, at),
        0 <= i,
        i + 4 <= s.len(),
    ensures
        layout::half(b, at + i) == layout::half(s, i),
        layout::half(b, at + i + 2) == layout::half(s, i + 2),
        layout::word(b, at + i) == layout::word(s, i),
        layout::signed_word(b, at + i) == layout::signed_word(s, i),
{
    assert(s[i] == b[at + i]);
    assert(s[i + 1] == b[at + (i + 1)]);
    assert(s[i + 2] == b[at + (i + 2)]);
    assert(s[i + 3] == b[at + (i + 3)]);
}

/// An address in a part of `b` is the same in `b`.
proof fn lemma_address_moves(a: IpAddr, s: Seq<u8>, i: int, b: Seq<u8>, at: int)
    requires
        layout::stands_at(s, b, at),
        0 <= i,
        i + 16 <= s.len(),
        layout::reversed_address_at(a, s, i),
    ensures
        layout::reversed_address_at(a, b, at + i),
{
    assert forall|j: int| 0 <= j < 16 implies #[trigger] b[at + i + j] == s[i + j] by {
        assert(s[i + j] == b[at + (i + j)]);
    }
}

/// The words and the address of a handshake in a part of `b` are the same in `b`.
proof fn lemma_handshake_words_move(h: HandshakeControlInfo, s: Seq<u8>, b: Seq<u8>, at: int)
    requires
        layout::stands_at(s, b, at),
        written_handshake_at(h, s, 0),
    ensures
        written_handshake_at(h, b, at),
{
    lemma_numbers_move(s, 0, b, at);
    lemma_numbers_move(s, 4, b, at);
    lemma_numbers_move(s, 8, b, at);
    lemma_numbers_move(s, 12, b, at);
    lemma_numbers_move(s, 16, b, at);
    lemma_numbers_move(s, 20, b, at);
    lemma_numbers_move(s, 24, b, at);
    lemma_numbers_move(s, 28, b, at);
    lemma_address_moves(h.peer_addr, s, 32, b, at);
}

/// The extensions of a handshake in a part of `b` are the same in `b`.
proof fn lemma_extensions_move(h: HandshakeControlInfo, s: Seq<u8>, b: Seq<u8>, at: int)
    requires
        layout::stands_at(s, b, at),
        written_extensions_at(h, s, 0),
    ensures
        written_extensions_at(h, b, at),
{
    if let HandshakeVSInfo::V5 { ext_hs, ext_km, ext_config, .. } = h.info {
        let km_at = 48 + extension_size(ext_hs);
        let config_at = km_at + extension_size(ext_km);
        lemma_extension_size(ext_hs);
        lemma_extension_size(ext_km);
        lemma_extension_moves(ext_hs, s, 48, b, at);
        lemma_extension_moves(ext_km, s, km_at, b, at);
        lemma_extension_moves(ext_config, s, config_at, b, at);
    }
}

/// An extension has no negative length.
proof fn lemma_extension_size(ext: Option<SrtControlPacket>)
    ensures
        extension_size(ext) >= 0,
        ext is Some <==> extension_size(ext) > 0,
{
}

/// An extension that was written to a part of `b` was written to `b`.
proof fn lemma_extension_moves(
    ext: Option<SrtControlPacket>,
    s: Seq<u8>,
    i: int,
    b: Seq<u8>,
    at: int,
)
    requires
        i >= 0,
        layout::stands_at(s, b, at),
        written_extension_at(ext, s, i),
    ensures
        written_extension_at(ext, b, at + i),
{
    if let Some(p) = ext {
        lemma_extension_size(ext);
        lemma_numbers_move(s, i, b, at);
        lemma_srt_packet_moves(p, s, i + 4, b, at);
    }
}

/// A Control Information Field that is written has every part in its place,
/// whatever it follows. An ACK2 is a zero word; a keep-alive, a shutdown and a
/// drop request have none.
pub proof fn law_control_type_is_written(c: ControlTypes, front: Seq<u8>)
    ensures
        written_control_type_at(c, front + c@.bytes(), front.len() as int),
{
    let b = front + c@.bytes();
    let at = front.len() as int;
    match c {
        ControlTypes::Handshake(h) => {
            lemma_handshake_is_written(h, front);
        },
        ControlTypes::Ack { .. } => {
            lemma_ack_is_written(c, front);
        },
        ControlTypes::Nak(n) => {
            lemma_nak_is_written(n@, front);
        },
        ControlTypes::Ack2(_) => {
            assert(b.subrange(at, at + 4) =~= wire::u32_bytes(0));
            wire::lemma_u32_reads_back(b, at, 0);
        },
        ControlTypes::Srt(p) => {
            law_srt_packet_is_written(p);
            assert(layout::stands_at(p@.bytes(), b, at));
            lemma_srt_packet_moves(p, p@.bytes(), 0, b, at);
        },
        _ => {},
    }
}

/// The number `n` stands for the control type.
pub open spec fn is_control_number(c: ControlTypes, n: int) -> bool {
    match c {
        ControlTypes::Handshake(_) => n == 0,
        ControlTypes::KeepAlive => n == 1,
        ControlTypes::Ack { .. } => n == 2,
        ControlTypes::Nak(_) => n == 3,
        ControlTypes::Shutdown => n == 5,
        ControlTypes::Ack2(_) => n == 6,
        ControlTypes::DropRequest { .. } => n == 7,
        ControlTypes::Srt(_) => n == 0x7FFF,
    }
}

/// The number `n` is the reserved half word of the control type: the number of an
/// SRT packet, else 0.
pub open spec fn is_reserved_number(c: ControlTypes, n: int) -> bool {
    match c {
        ControlTypes::Srt(p) => layout::is_srt_number(p, n),
        _ => n == 0,
    }
}

/// The number `n` is the Additional Info of the control type: the ack sequence
/// number of an ack or of an ACK2, the message number of a drop request, else 0.
pub open spec fn is_additional_info(c: ControlTypes, n: i32) -> bool {
    match c {
        ControlTypes::Ack { ack_seq_num, .. } => n == ack_seq_num,
        ControlTypes::Ack2(a) => n == a,
        ControlTypes::DropRequest { msg_to_drop, .. } => n as int % 0x1_0000_0000 == msg_to_drop.0,
        _ => n == 0,
    }
}

/// What the header says of a control type, and when the type can be written: it is
/// no drop request, and no induction with extensions.
pub proof fn law_header_of_control_type(c: ControlTypes)
    ensures
        is_control_number(c, c@.id_byte() as int),
        is_reserved_number(c, c@.reserved() as int),
        is_additional_info(c, c@.additional_info()),
        c@.serializable() <==> match c {
            ControlTypes::DropRequest { .. } => false,
            ControlTypes::Handshake(h) => !(h.shake_type is Induction && handshake_size(h) > 48),
            _ => true,
        },
{
    match c {
        ControlTypes::Srt(p) => {
            layout::law_srt_packet_numbers(p);
        },
        ControlTypes::Handshake(h) => {
            if let HandshakeVSInfo::V5 { ext_hs, ext_km, ext_config, .. } = h.info {
                layout::law_type_flags(h.info, h.shake_type);
                lemma_extension_size(ext_hs);
                lemma_extension_size(ext_km);
                lemma_extension_size(ext_config);
            }
        },
        _ => {},
    }
}

/// A packet that is written has the first bit set, its type, its reserved half
/// word, its Additional Info, its time stamp and its destination in its 16 byte
/// header, and its Control Information Field behind that.
pub proof fn law_packet_is_written(p: ControlPacket)
    ensures
        ({
            let s = p@.bytes();
            &&& s[0] >= 0x80
            &&& is_control_number(p.control_type, layout::half(s, 0) - 0x8000)
            &&& is_reserved_number(p.control_type, layout::half(s, 2))
            &&& is_additional_info(p.control_type, layout::signed_word(s, 4) as i32)
            &&& layout::signed_word(s, 8) == p.timestamp
            &&& layout::word(s, 12) == p.dest_sockid.0
            &&& written_control_type_at(p.control_type, s, 16)
        }),
{
    let s = p@.bytes();
    laws::lemma_packet_header(p@, p@.control_type.bytes());
    law_header_of_control_type(p.control_type);
    law_control_type_is_written(p.control_type, p@.header_bytes());
    assert(s == p@.header_bytes() + p.control_type@.bytes());
    assert(wire::i32_at(s, 4) == p.control_type@.additional_info());
    assert(layout::signed_word(s, 4) == wire::i32_at(s, 4));
    assert(layout::half(s, 0) == wire::u16_at(s, 0));
    assert(layout::half(s, 2) == p.control_type@.reserved());
    assert(layout::half(s, 0) - 0x8000 == p.control_type@.id_byte());
}

/// The signed word at bytes 4 to 8 of an ack or an ACK2 that is written is its ack
/// sequence number.
pub proof fn law_ack_sequence_number_is_written(p: ControlPacket)
    ensures
        p.control_type matches ControlTypes::Ack { ack_seq_num, .. } ==> layout::signed_word(
            p@.bytes(),
            4,
        ) == ack_seq_num,
        p.control_type matches ControlTypes::Ack2(a) ==> layout::signed_word(p@.bytes(), 4) == a,
{
    law_packet_is_written(p);
}

/// The word at `i` of a NAK that is written stands `i` words behind the header.
pub proof fn law_nak_is_written(p: ControlPacket, i: int)
    ensures
        p.control_type matches ControlTypes::Nak(n) ==> {
            let s = p@.bytes();
            &&& s.len() == 16 + 4 * n@.len()
            &&& 0 <= i < n@.len() ==> s[16 + 4 * i] * 0x100_0000 + s[17 + 4 * i] * 0x1_0000 + s[18
                + 4 * i] * 0x100 + s[19 + 4 * i] == n@[i]
        },
{
    law_packet_is_written(p);
    if let ControlTypes::Nak(n) = p.control_type {
        if 0 <= i < n@.len() {
            assert(n@[i] == layout::word(p@.bytes(), 16 + 4 * i));
        }
    }
}

} // verus!
