//! What holds of the library as a whole.
use crate::control::{
    ControlPacketView, ControlTypesView, HandshakeView, HandshakeWarnings, IpAddrView, ShakeType, SocketType,
    VSInfoView,
};
use crate::error::{ExtSlot, ParseError, SrtError};
use crate::numbers::SrtVersion;
use crate::srt::{CipherType, KeyMessageView, SrtControlView, SrtHandshake};
use crate::{control, wire};
use vstd::prelude::*;

verus! {

/// An SRT version reads back from the number that stands for it.
pub proof fn law_version_reads_back(v: SrtVersion)
    ensures
        SrtVersion::decode(v.code()) == v,
{
}

/// A socket type reads back from the number that stands for it, and no other
/// number is read as it.
pub proof fn law_socket_type_reads_back(t: SocketType, n: u16)
    ensures
        SocketType::decode(n) == Ok::<SocketType, u16>(t) <==> n == t.code(),
{
}

/// A stage of the handshake reads back from the number that stands for it, and
/// no other number is read as it.
pub proof fn law_shake_type_reads_back(s: ShakeType, n: i32)
    ensures
        ShakeType::decode(n) == Ok::<ShakeType, i32>(s) <==> n == s.code(),
{
}

/// A cipher reads back from the number that stands for it, and no other number
/// is read as it.
pub proof fn law_cipher_reads_back(c: CipherType, n: u8)
    ensures
        CipherType::decode(n) == Ok::<CipherType, u8>(c) <==> n == c.code(),
{
}

/// An SRT handshake reads back from its bytes, whatever follows them.
proof fn lemma_srt_handshake(h: SrtHandshake, t: Seq<u8>)
    requires
        h.flags.known(),
    ensures
        SrtHandshake::read(h.bytes() + t) == (Ok::<SrtHandshake, SrtError>(h), t),
{
    let b = h.bytes() + t;
    assert(b.subrange(0, 4) =~= wire::u32_bytes(h.version.code()));
    assert(b.subrange(4, 8) =~= wire::u32_bytes(h.flags.bits));
    assert(b.subrange(8, 10) =~= wire::u16_bytes(h.peer_latency));
    assert(b.subrange(10, 12) =~= wire::u16_bytes(h.latency));
    wire::lemma_u32_reads_back(b, 0, h.version.code());
    wire::lemma_u32_reads_back(b, 4, h.flags.bits);
    wire::lemma_u16_reads_back(b, 8, h.peer_latency);
    wire::lemma_u16_reads_back(b, 10, h.latency);
    law_version_reads_back(h.version);
    assert(b.skip(12) =~= t);
}

/// The fields of a key message's header, where they stand.
pub(crate) proof fn lemma_key_header(m: KeyMessageView, t: Seq<u8>)
    requires
        m.well_formed(),
    ensures
        m.header_bytes().len() == 16,
        ({
            let b = m.header_bytes() + t;
            &&& b.len() == 16 + t.len()
            &&& b[0] == 0x10 + m.pt
            &&& wire::u16_at(b, 1) == m.sign
            &&& b[3] == m.key_flags()
            &&& wire::u32_at(b, 4) == m.keki
            &&& b[8] == m.cipher.code()
            &&& b[9] == m.auth
            &&& b[10] == m.se
            &&& b[11] == 0 && b[12] == 0 && b[13] == 0
            &&& b[14] * 4 == m.salt.len()
            &&& b[15] * 4 == m.key_len()
            &&& b.skip(16) == t
        }),
{
    let b = m.header_bytes() + t;
    assert(b.subrange(1, 3) =~= wire::u16_bytes(m.sign));
    assert(b.subrange(4, 8) =~= wire::u32_bytes(m.keki));
    wire::lemma_u16_reads_back(b, 1, m.sign);
    wire::lemma_u32_reads_back(b, 4, m.keki);
    assert(b.skip(16) =~= t);
}

/// A key message reads back from its bytes, whatever follows them.
proof fn lemma_key_message(m: KeyMessageView, t: Seq<u8>)
    requires
        m.well_formed(),
    ensures
        KeyMessageView::read(m.bytes() + t) == (Ok::<KeyMessageView, SrtError>(m), t),
{
    let even = wire::opt_bytes(m.even_key);
    let odd = wire::opt_bytes(m.odd_key);
    let body = m.salt + even + odd + m.wrap_data + t;
    let b = m.bytes() + t;
    lemma_key_header(m, body);
    assert(b =~= m.header_bytes() + body);
    let even_at = 16 + m.salt.len() as int;
    let odd_at = even_at + even.len();
    let wrap_at = odd_at + odd.len();
    assert(b.subrange(16, even_at) =~= m.salt);
    assert(b.subrange(even_at, odd_at) =~= even);
    assert(b.subrange(odd_at, wrap_at) =~= odd);
    assert(b.subrange(wrap_at, wrap_at + 8) =~= m.wrap_data);
    assert(b.skip(wrap_at + 8) =~= t);
    law_cipher_reads_back(m.cipher, m.cipher.code());
    let r = KeyMessageView::read(b);
    assert(r.0 is Ok);
    assert(r.0->Ok_0 =~= m);
}

/// An SRT packet reads back from its type and its bytes, whatever follows them.
pub proof fn law_srt_packet_reads_back(p: SrtControlView, t: Seq<u8>)
    requires
        p.well_formed(),
    ensures
        SrtControlView::read(p.type_id(), p.bytes() + t) == (
            Ok::<SrtControlView, SrtError>(p),
            t,
        ),
{
    match p {
        SrtControlView::HandshakeRequest(h) | SrtControlView::HandshakeResponse(h) => {
            lemma_srt_handshake(h, t);
        },
        SrtControlView::KeyManagerRequest(k) | SrtControlView::KeyManagerResponse(k) => {
            lemma_key_message(k, t);
        },
        _ => {
            assert(p.bytes() + t =~= t);
        },
    }
}

/// The length that an extension gives for itself is that of its body, and fits
/// in its 16 bits.
pub proof fn law_size_in_words(p: SrtControlView)
    requires
        p.well_formed(),
    ensures
        p.bytes().len() == 4 * p.words(),
        p.words() < 0x1_0000,
{
    match p {
        SrtControlView::KeyManagerRequest(k) | SrtControlView::KeyManagerResponse(k) => {
            lemma_key_header(k, Seq::empty());
        },
        _ => {},
    }
}

/// An IP address reads back from its bytes if and only if it is an IPv4 address
/// or the same in both directions and not all zero.
pub proof fn law_address_reads_back(a: IpAddrView, t: Seq<u8>)
    requires
        a.well_formed(),
    ensures
        a.bytes().len() == 16,
        IpAddrView::read(a.bytes() + t) == a <==> a.symmetric(),
{
    let b = a.bytes() + t;
    match a {
        IpAddrView::V4(octets) => {
            assert(seq![b[3], b[2], b[1], b[0]] =~= octets);
        },
        IpAddrView::V6(octets) => {
            assert(b.take(16) =~= octets.reverse());
            if a.symmetric() {
                let i = choose|i: int| 0 <= i < 16 && octets[i] != 0;
                assert(octets.reverse()[15 - i] == octets[i]);
                assert(octets[15 - i] == octets[i]);
                if i < 4 {
                    assert(b[15 - i] != 0);
                } else {
                    assert(b[i] != 0);
                }
            }
            if IpAddrView::read(b) == a {
                let i = choose|i: int| 4 <= i < 16 && b[i] != 0;
                assert(octets.reverse()[i] == b[i]);
                assert(octets[i] != 0);
            }
        },
    }
}

/// An extension reads back from its bytes, whatever follows them.
pub(crate) proof fn lemma_extension(slot: ExtSlot, ext: Option<SrtControlView>, t: Seq<u8>)
    requires
        control::ext_well_formed(slot, ext),
    ensures
        control::ext_read(ext is Some, slot, control::ext_bytes(ext) + t) == (
            Ok::<Option<SrtControlView>, ParseError>(ext),
            t,
        ),
{
    let b = control::ext_bytes(ext) + t;
    match ext {
        None => {
            assert(b =~= t);
        },
        Some(p) => {
            assert(b.subrange(0, 2) =~= wire::u16_bytes(p.type_id()));
            wire::lemma_u16_reads_back(b, 0, p.type_id());
            assert(b.skip(4) =~= p.bytes() + t);
            law_srt_packet_reads_back(p, t);
        },
    }
}

/// The halves of the second word of a version 5 handshake.
pub(crate) proof fn lemma_type_flags(info: VSInfoView, s: ShakeType)
    requires
        info.well_formed(),
        info is V5,
    ensures
        ({
            let word = info.type_flags(s);
            let flags = (word % 0x1_0000) as u16;
            &&& word / 0x1_0000 == info->crypto_size / 8
            &&& control::crypto_size_of((word / 0x1_0000) as u16) == info->crypto_size
            &&& s == ShakeType::Induction ==> flags == control::SRT_MAGIC_CODE
            &&& s != ShakeType::Induction ==> {
                &&& flags < 8
                &&& flags % 2 == 1 <==> info->ext_hs is Some
                &&& flags / 2 % 2 == 1 <==> info->ext_km is Some
                &&& flags / 4 % 2 == 1 <==> info->ext_config is Some
            }
        }),
{
    let high = info->crypto_size / 8;
    let low = if s == ShakeType::Induction {
        control::SRT_MAGIC_CODE as int
    } else {
        control::flag(info->ext_hs, 1) + control::flag(info->ext_km, 2) + control::flag(
            info->ext_config,
            4,
        )
    };
    let word = info.type_flags(s);
    assert(word == high * 0x1_0000 + low);
    assert(0 <= low < 0x1_0000);
    assert(word / 0x1_0000 == high && word % 0x1_0000 == low);
}

/// The extensions of a version 5 handshake read back, whatever follows them.
proof fn lemma_extensions(info: VSInfoView, flags: u16, t: Seq<u8>)
    requires
        info.well_formed(),
        info is V5,
        flags % 2 == 1 <==> info->ext_hs is Some,
        flags / 2 % 2 == 1 <==> info->ext_km is Some,
        flags / 4 % 2 == 1 <==> info->ext_config is Some,
    ensures
        VSInfoView::read_extensions(info->crypto_size, flags, info.bytes() + t) == (
            Ok::<VSInfoView, ParseError>(info),
            t,
        ),
{
    let hs = control::ext_bytes(info->ext_hs);
    let km = control::ext_bytes(info->ext_km);
    let config = control::ext_bytes(info->ext_config);
    lemma_extension(ExtSlot::Handshake, info->ext_hs, km + (config + t));
    lemma_extension(ExtSlot::KeyManager, info->ext_km, config + t);
    lemma_extension(ExtSlot::Config, info->ext_config, t);
    assert(info.bytes() + t == hs + (km + (config + t))) by {
        broadcast use wire::lemma_concat;

    }
}

/// The version dependent data of a handshake reads back, whatever follows it.
proof fn lemma_vs_info(info: VSInfoView, s: ShakeType, t: Seq<u8>)
    requires
        info.well_formed(),
        s == ShakeType::Induction ==> !info.has_extensions(),
    ensures
        VSInfoView::read(
            info.version() as i32,
            (info.type_flags(s) / 0x1_0000) as u16,
            (info.type_flags(s) % 0x1_0000) as u16,
            s,
            info.bytes() + t,
        ) == (Ok::<VSInfoView, ParseError>(info), t),
{
    if info is V4 {
        assert(info.bytes() + t =~= t);
    } else {
        lemma_type_flags(info, s);
        if s == ShakeType::Induction {
            assert(info.bytes() + t =~= t);
        } else {
            lemma_extensions(info, (info.type_flags(s) % 0x1_0000) as u16, t);
        }
    }
}

/// The fields of a handshake's first eight words, where they stand.
#[verifier::rlimit(60)]
pub(crate) proof fn lemma_handshake_head(c: HandshakeView, t: Seq<u8>)
    ensures
        c.head_bytes().len() == 32,
        ({
            let b = c.head_bytes() + t;
            let word = c.info.type_flags(c.shake_type);
            &&& b.len() == 32 + t.len()
            &&& wire::i32_at(b, 0) == c.info.version()
            &&& wire::u16_at(b, 4) == word / 0x1_0000
            &&& wire::u16_at(b, 6) == word % 0x1_0000
            &&& wire::u32_at(b, 8) == c.init_seq_num.0
            &&& wire::u32_at(b, 12) == c.max_packet_size
            &&& wire::u32_at(b, 16) == c.max_flow_size
            &&& wire::i32_at(b, 20) == c.shake_type.code()
            &&& wire::u32_at(b, 24) == c.socket_id.0
            &&& wire::i32_at(b, 28) == c.syn_cookie
            &&& b.skip(32) == t
        }),
{
    let b = c.head_bytes() + t;
    let word = c.info.type_flags(c.shake_type);
    let stage = wire::unsigned(c.shake_type.code());
    let cookie = wire::unsigned(c.syn_cookie);
    assert(b.subrange(0, 4) =~= wire::u32_bytes(c.info.version()));
    assert(b.subrange(4, 8) =~= wire::u32_bytes(word));
    assert(b.subrange(8, 12) =~= wire::u32_bytes(c.init_seq_num.0));
    assert(b.subrange(12, 16) =~= wire::u32_bytes(c.max_packet_size));
    assert(b.subrange(16, 20) =~= wire::u32_bytes(c.max_flow_size));
    assert(b.subrange(20, 24) =~= wire::u32_bytes(stage));
    assert(b.subrange(24, 28) =~= wire::u32_bytes(c.socket_id.0));
    assert(b.subrange(28, 32) =~= wire::u32_bytes(cookie));
    wire::lemma_u32_reads_back(b, 0, c.info.version());
    wire::lemma_u32_halves(b, 4, word);
    wire::lemma_u32_reads_back(b, 8, c.init_seq_num.0);
    wire::lemma_u32_reads_back(b, 12, c.max_packet_size);
    wire::lemma_u32_reads_back(b, 16, c.max_flow_size);
    wire::lemma_u32_reads_back(b, 20, stage);
    wire::lemma_u32_reads_back(b, 24, c.socket_id.0);
    wire::lemma_u32_reads_back(b, 28, cookie);
    wire::lemma_sign_casts(0, c.shake_type.code());
    wire::lemma_sign_casts(0, c.syn_cookie);
    assert(b.skip(32) =~= t);
}

/// A handshake reads back from its bytes, whatever follows them.
proof fn lemma_handshake(c: HandshakeView, t: Seq<u8>)
    requires
        c.well_formed(),
        c.peer_addr.symmetric(),
    ensures
        HandshakeView::read(c.bytes() + t) == (Ok::<HandshakeView, ParseError>(c), t),
{
    let info = c.info.bytes();
    let peer = c.peer_addr.bytes();
    let addr = peer + (info + t);
    let b = c.head_bytes() + addr;
    wire::lemma_concat(c.head_bytes() + peer, info, t);
    wire::lemma_concat(c.head_bytes(), peer, info + t);
    lemma_handshake_head(c, addr);
    law_address_reads_back(c.peer_addr, info + t);
    lemma_after_address(c, b, info + t);
    lemma_vs_info(c.info, c.shake_type, t);
    lemma_handshake_fields(c, b, info + t, t);
}

/// What follows the address of a handshake.
proof fn lemma_after_address(c: HandshakeView, b: Seq<u8>, tail: Seq<u8>)
    requires
        b.len() >= 32,
        b.skip(32) == c.peer_addr.bytes() + tail,
        c.peer_addr.bytes().len() == 16,
    ensures
        b.len() == 48 + tail.len(),
        b.skip(48) == tail,
{
    wire::lemma_skip_skip(b, 32, 16);
    assert((c.peer_addr.bytes() + tail).skip(16) =~= tail);
}

/// A handshake reads back where all its fields stand in their places.
proof fn lemma_handshake_fields(c: HandshakeView, b: Seq<u8>, tail: Seq<u8>, t: Seq<u8>)
    requires
        c.well_formed(),
        b.len() >= 48,
        b.skip(48) == tail,
        wire::i32_at(b, 0) == c.info.version(),
        wire::u16_at(b, 4) == c.info.type_flags(c.shake_type) / 0x1_0000,
        wire::u16_at(b, 6) == c.info.type_flags(c.shake_type) % 0x1_0000,
        wire::u32_at(b, 8) == c.init_seq_num.0,
        wire::u32_at(b, 12) == c.max_packet_size,
        wire::u32_at(b, 16) == c.max_flow_size,
        wire::i32_at(b, 20) == c.shake_type.code(),
        wire::u32_at(b, 24) == c.socket_id.0,
        wire::i32_at(b, 28) == c.syn_cookie,
        IpAddrView::read(b.skip(32)) == c.peer_addr,
        VSInfoView::read(
            c.info.version() as i32,
            (c.info.type_flags(c.shake_type) / 0x1_0000) as u16,
            (c.info.type_flags(c.shake_type) % 0x1_0000) as u16,
            c.shake_type,
            tail,
        ) == (Ok::<VSInfoView, ParseError>(c.info), t),
    ensures
        HandshakeView::read(b) == (Ok::<HandshakeView, ParseError>(c), t),
{
    law_shake_type_reads_back(c.shake_type, c.shake_type.code());
}

/// A control type reads back from what a packet says of it, whatever follows it.
proof fn lemma_control_type(c: ControlTypesView, t: Seq<u8>)
    requires
        c.well_formed(),
        c.serializable(),
        c.symmetric_addr(),
        c is Nak ==> t.len() < 4,
    ensures
        ControlTypesView::read(c.id_byte(), c.reserved(), c.additional_info(), c.bytes() + t) == (
            Ok::<ControlTypesView, ParseError>(c.filled()),
            c.unread() + t,
        ),
{
    let b = c.bytes() + t;
    match c {
        ControlTypesView::Handshake(h) => {
            lemma_handshake(h, t);
            assert(c.unread() + t =~= t);
        },
        ControlTypesView::Ack { .. } => {
            lemma_ack(c, t);
            assert(c.unread() + t =~= t);
        },
        ControlTypesView::Nak(n) => {
            wire::lemma_words_len(n);
            wire::lemma_words_read_back(n, t);
            assert(b.skip(b.len() - b.len() % 4) =~= t);
            assert(c.unread() + t =~= t);
        },
        ControlTypesView::Srt(p) => {
            law_srt_packet_reads_back(p, t);
            assert(c.unread() + t =~= t);
        },
        ControlTypesView::Ack2(_) => {},
        _ => {
            assert(b =~= t);
            assert(c.unread() + t =~= t);
        },
    }
}

/// An ack reads back from its bytes, whatever follows them, with the defaults in
/// place of what it does not know.
#[verifier::rlimit(60)]
proof fn lemma_ack(c: ControlTypesView, t: Seq<u8>)
    requires
        c is Ack,
        c.well_formed(),
    ensures
        ControlTypesView::read(c.id_byte(), c.reserved(), c.additional_info(), c.bytes() + t) == (
            Ok::<ControlTypesView, ParseError>(c.filled()),
            t,
        ),
{
    let b = c.bytes() + t;
    let rtt = control::or_default(c->rtt, control::DEFAULT_RTT);
    let variance = control::or_default(c->rtt_variance, control::DEFAULT_RTT_VARIANCE);
    let available = control::or_default(c->buffer_available, control::DEFAULT_BUFFER_AVAILABLE);
    let rate = control::or_default(c->packet_recv_rate, control::DEFAULT_PACKET_RECV_RATE);
    let cap = control::or_default(c->est_link_cap, control::DEFAULT_EST_LINK_CAP);
    assert(b.subrange(0, 4) =~= wire::u32_bytes(c->ack_number.0));
    assert(b.subrange(4, 8) =~= wire::i32_bytes(rtt));
    assert(b.subrange(8, 12) =~= wire::i32_bytes(variance));
    assert(b.subrange(12, 16) =~= wire::i32_bytes(available));
    assert(b.subrange(16, 20) =~= wire::i32_bytes(rate));
    assert(b.subrange(20, 24) =~= wire::i32_bytes(cap));
    wire::lemma_u32_reads_back(b, 0, c->ack_number.0);
    wire::lemma_i32_reads_back(b, 4, rtt);
    wire::lemma_i32_reads_back(b, 8, variance);
    wire::lemma_i32_reads_back(b, 12, available);
    wire::lemma_i32_reads_back(b, 16, rate);
    wire::lemma_i32_reads_back(b, 20, cap);
    assert(b.skip(24) =~= t);
}

/// The fields of a packet's header, where they stand.
pub(crate) proof fn lemma_packet_header(p: ControlPacketView, t: Seq<u8>)
    ensures
        p.header_bytes().len() == 16,
        ({
            let b = p.header_bytes() + t;
            &&& b.len() == 16 + t.len()
            &&& b[0] >= 0x80
            &&& wire::u16_at(b, 0) % 0x8000 == p.control_type.id_byte()
            &&& wire::u16_at(b, 2) == p.control_type.reserved()
            &&& wire::i32_at(b, 4) == p.control_type.additional_info()
            &&& wire::i32_at(b, 8) == p.timestamp
            &&& wire::u32_at(b, 12) == p.dest_sockid.0
            &&& b.skip(16) == t
        }),
{
    let b = p.header_bytes() + t;
    let first = (0x8000 + p.control_type.id_byte()) as u16;
    assert(b.subrange(0, 2) =~= wire::u16_bytes(first));
    assert(b.subrange(2, 4) =~= wire::u16_bytes(p.control_type.reserved()));
    assert(b.subrange(4, 8) =~= wire::i32_bytes(p.control_type.additional_info()));
    assert(b.subrange(8, 12) =~= wire::i32_bytes(p.timestamp));
    assert(b.subrange(12, 16) =~= wire::u32_bytes(p.dest_sockid.0));
    wire::lemma_u16_reads_back(b, 0, first);
    wire::lemma_u16_reads_back(b, 2, p.control_type.reserved());
    wire::lemma_i32_reads_back(b, 4, p.control_type.additional_info());
    wire::lemma_i32_reads_back(b, 8, p.timestamp);
    wire::lemma_u32_reads_back(b, 12, p.dest_sockid.0);
    assert(b.skip(16) =~= t);
}

/// A packet that is written reads back, whatever follows it: with the defaults
/// in place of what an ack does not know, so unchanged where it knows all. What
/// is left is what follows the packet, behind the unused word of an ACK2. A NAK
/// takes any whole word that follows it for its own.
///
/// A drop request cannot be written, and an IPv6 address reads back in the
/// opposite direction.
pub proof fn law_written_packet_reads_back(p: ControlPacketView, t: Seq<u8>)
    requires
        p.control_type.well_formed(),
        p.control_type.serializable(),
        p.control_type.symmetric_addr(),
        p.control_type is Nak ==> t.len() < 4,
    ensures
        ControlPacketView::read(p.bytes() + t).0 == Ok::<ControlPacketView, ParseError>(
            ControlPacketView { control_type: p.control_type.filled(), ..p },
        ),
        ControlPacketView::read(p.bytes() + t).1 == p.control_type.unread() + t,
        p.control_type.complete() ==> ControlPacketView::read(p.bytes() + t).0 == Ok::<
            ControlPacketView,
            ParseError,
        >(p),
{
    let body = p.control_type.bytes() + t;
    assert(p.bytes() + t == p.header_bytes() + body) by {
        broadcast use wire::lemma_concat;

    }
    lemma_packet_header(p, body);
    lemma_control_type(p.control_type, t);
}

/// Two packets with the same bytes are the same, of those that read back
/// unchanged.
pub proof fn law_distinct_packets_differ(p: ControlPacketView, q: ControlPacketView)
    requires
        p.control_type.well_formed(),
        p.control_type.serializable(),
        p.control_type.symmetric_addr(),
        p.control_type.complete(),
        q.control_type.well_formed(),
        q.control_type.serializable(),
        q.control_type.symmetric_addr(),
        q.control_type.complete(),
        p.bytes() == q.bytes(),
    ensures
        p == q,
{
    law_written_packet_reads_back(p, Seq::empty());
    law_written_packet_reads_back(q, Seq::empty());
}

/// A packet that is written has the first bit set and starts with a whole
/// header.
pub proof fn law_written_packet_is_a_control_packet(p: ControlPacketView)
    ensures
        p.bytes().len() == 16 + p.control_type.bytes().len(),
        p.bytes()[0] >= 0x80,
{
    lemma_packet_header(p, p.control_type.bytes());
}

/// A reading does not look at the first bit.
pub proof fn law_first_bit_is_ignored(b: Seq<u8>, c: Seq<u8>)
    requires
        b.len() >= 16,
        b.len() == c.len(),
        b[0] % 0x80 == c[0] % 0x80,
        forall|i: int| 1 <= i < b.len() ==> b[i] == c[i],
    ensures
        ControlPacketView::read(b) == ControlPacketView::read(c),
{
    assert(b.skip(16) =~= c.skip(16));
    assert(wire::u16_at(b, 0) % 0x8000 == wire::u16_at(c, 0) % 0x8000);
}

/// The type of a packet that is read is the one that its header gives, and a
/// packet of any other type is refused.
pub proof fn law_type_decides(b: Seq<u8>)
    requires
        b.len() >= 16,
    ensures
        ({
            let kind = wire::u16_at(b, 0) % 0x8000;
            let r = ControlPacketView::read(b).0;
            &&& r matches Ok(p) ==> p.control_type.id_byte() == kind
            &&& !(kind <= 3 || 5 <= kind <= 7 || kind == 0x7FFF) <==> r == Err::<
                ControlPacketView,
                ParseError,
            >(ParseError::UnrecognizedControlType(kind))
        }),
{
}

/// An SRT packet that is read is of the type that was asked for, and one that
/// the wire can hold.
pub proof fn law_read_srt_packet_is_well_formed(kind: u16, b: Seq<u8>)
    ensures
        SrtControlView::read(kind, b).0 matches Ok(p) ==> p.type_id() == kind && p.well_formed(),
{
}

/// An extension that is read is one for its place.
pub(crate) proof fn lemma_read_extension(declared: bool, slot: ExtSlot, b: Seq<u8>)
    ensures
        control::ext_read(declared, slot, b).0 matches Ok(ext) ==> control::ext_well_formed(
            slot,
            ext,
        ) && (ext is Some <==> declared),
{
    if declared && b.len() >= 4 {
        law_read_srt_packet_is_well_formed(wire::u16_at(b, 0), b.skip(4));
    }
}

/// A handshake that is read is one that the protocol knows.
proof fn lemma_read_handshake(b: Seq<u8>)
    ensures
        HandshakeView::read(b).0 matches Ok(c) ==> c.well_formed(),
{
    let flags = wire::u16_at(b, 6);
    let b_hs = b.skip(48);
    let b_km = control::ext_read(flags % 2 == 1, ExtSlot::Handshake, b_hs).1;
    let b_config = control::ext_read(flags / 2 % 2 == 1, ExtSlot::KeyManager, b_km).1;
    lemma_read_extension(flags % 2 == 1, ExtSlot::Handshake, b_hs);
    lemma_read_extension(flags / 2 % 2 == 1, ExtSlot::KeyManager, b_km);
    lemma_read_extension(flags / 4 % 2 == 1, ExtSlot::Config, b_config);
}

/// A packet that is read is one that the protocol knows: its numbers are in
/// range, its extensions in their places, its ack complete, and it can be
/// written again unless it is a drop request.
pub proof fn law_read_packet_is_well_formed(b: Seq<u8>)
    requires
        b.len() >= 16,
    ensures
        ControlPacketView::read(b).0 matches Ok(p) ==> {
            &&& p.control_type.well_formed()
            &&& p.control_type.complete()
            &&& p.control_type is DropRequest || p.control_type.serializable()
        },
{
    lemma_read_handshake(b.skip(16));
    law_read_srt_packet_is_well_formed(wire::u16_at(b, 2), b.skip(16));
}

/// A packet that is read, written and read again is the same, unless it is a
/// drop request or a handshake with an IPv6 address that is not the same in both
/// directions.
pub proof fn law_read_packet_survives(b: Seq<u8>)
    requires
        b.len() >= 16,
    ensures
        ControlPacketView::read(b).0 matches Ok(p) ==> p.control_type !is DropRequest
            && p.control_type.symmetric_addr() ==> ControlPacketView::read(p.bytes()).0 == Ok::<
            ControlPacketView,
            ParseError,
        >(p),
{
    law_read_packet_is_well_formed(b);
    if let Ok(p) = ControlPacketView::read(b).0 {
        if p.control_type !is DropRequest && p.control_type.symmetric_addr() {
            law_written_packet_reads_back(p, Seq::empty());
            assert(p.bytes() + Seq::empty() =~= p.bytes());
        }
    }
}

/// A crypto key length that is not in use means no encryption: where there is a
/// warning about the length, the handshake that is read has the size 0.
pub proof fn law_unknown_crypto_length_disables_encryption(b: Seq<u8>)
    requires
        HandshakeWarnings::of(b).crypto_length,
    ensures
        HandshakeView::read(b).0 matches Ok(c) ==> c.info matches VSInfoView::V5 {
            crypto_size,
            ..
        } && crypto_size == 0,
{
}

/// `rest` is the end of `b`.
pub open spec fn is_end_of(rest: Seq<u8>, b: Seq<u8>) -> bool {
    rest.len() <= b.len() && rest == b.skip(b.len() - rest.len())
}

/// The end of an end is an end.
proof fn lemma_end_of_end(a: Seq<u8>, b: Seq<u8>, c: Seq<u8>)
    requires
        is_end_of(a, b),
        is_end_of(b, c),
    ensures
        is_end_of(a, c),
{
    wire::lemma_skip_skip(c, c.len() - b.len(), b.len() - a.len());
}

/// What is left of the bytes behind an SRT packet is the end of them.
proof fn lemma_srt_leaves_end(kind: u16, b: Seq<u8>)
    ensures
        is_end_of(SrtControlView::read(kind, b).1, b),
{
    assert(b.skip(0) =~= b);
    if kind == 3 || kind == 4 {
        lemma_key_message_leaves_end(b);
    }
}

/// What is left of the bytes behind a key message is the end of them.
proof fn lemma_key_message_leaves_end(b: Seq<u8>)
    ensures
        is_end_of(KeyMessageView::read(b).1, b),
{
    assert(b.skip(0) =~= b);
}

/// What is left of the bytes behind an extension is the end of them.
proof fn lemma_extension_leaves_end(declared: bool, slot: ExtSlot, b: Seq<u8>)
    ensures
        is_end_of(control::ext_read(declared, slot, b).1, b),
{
    assert(b.skip(0) =~= b);
    if declared && b.len() >= 4 {
        let kind = wire::u16_at(b, 0);
        lemma_srt_leaves_end(kind, b.skip(4));
        lemma_end_of_end(SrtControlView::read(kind, b.skip(4)).1, b.skip(4), b);
    }
}

/// What is left of the bytes behind a handshake is the end of them.
proof fn lemma_handshake_leaves_end(b: Seq<u8>)
    ensures
        is_end_of(HandshakeView::read(b).1, b),
{
    assert(b.skip(0) =~= b);
    if b.len() >= 48 {
        let flags = wire::u16_at(b, 6);
        let b_hs = b.skip(48);
        let b_km = control::ext_read(flags % 2 == 1, ExtSlot::Handshake, b_hs).1;
        let b_config = control::ext_read(flags / 2 % 2 == 1, ExtSlot::KeyManager, b_km).1;
        let rest = control::ext_read(flags / 4 % 2 == 1, ExtSlot::Config, b_config).1;
        lemma_extension_leaves_end(flags % 2 == 1, ExtSlot::Handshake, b_hs);
        lemma_extension_leaves_end(flags / 2 % 2 == 1, ExtSlot::KeyManager, b_km);
        lemma_extension_leaves_end(flags / 4 % 2 == 1, ExtSlot::Config, b_config);
        lemma_end_of_end(b_km, b_hs, b);
        lemma_end_of_end(b_config, b_km, b);
        lemma_end_of_end(rest, b_config, b);
    }
}

/// A reading takes bytes from the front alone: what it leaves is the end of what
/// was there, whether it finds a packet or not.
pub proof fn law_reading_leaves_the_end(b: Seq<u8>)
    requires
        b.len() >= 16,
    ensures
        is_end_of(ControlPacketView::read(b).1, b),
        ControlPacketView::read(b).1.len() <= b.len() - 16,
{
    let body = b.skip(16);
    assert(body.skip(0) =~= body);
    lemma_handshake_leaves_end(body);
    lemma_srt_leaves_end(wire::u16_at(b, 2), body);
    lemma_end_of_end(ControlPacketView::read(b).1, body, b);
}

} // verus!
