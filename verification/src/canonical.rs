//! Canonical bytes: those that come out the same when they are read and written
//! again.
use crate::control::{
    ControlPacketView, ControlTypesView, HandshakeView, IpAddrView, ShakeType, VSInfoView,
};
use crate::error::ExtSlot;
use crate::srt::{KeyMessageView, SrtControlView, SrtHandshake};
use crate::{control, laws, wire};
use vstd::prelude::*;

verus! {

/// In the body `b` of an SRT packet of type `kind`, what a reading passes over is
/// as it is written: the byte above the version and the flags that stand for
/// nothing, or the reserved bits and bytes of a key message, are zero.
pub open spec fn canonical_srt(kind: u16, b: Seq<u8>) -> bool {
    if kind == 1 || kind == 2 {
        b[0] == 0 && wire::u32_at(b, 4) < 0x40
    } else if kind == 3 || kind == 4 {
        b[3] < 4 && b[11] == 0 && b[12] == 0 && b[13] == 0
    } else {
        true
    }
}

/// The extension for `slot` at the front of `b`, if it is declared, is as it is
/// written: it gives the length of its body in words, and the body is as it is
/// written.
pub open spec fn canonical_ext(declared: bool, slot: ExtSlot, b: Seq<u8>) -> bool {
    declared ==> {
        &&& 4 * wire::u16_at(b, 2) == b.len() - 4 - control::ext_read(declared, slot, b).1.len()
        &&& canonical_srt(wire::u16_at(b, 0), b.skip(4))
    }
}

/// The extensions at the front of `b`, as `flags` declares them, are as they are
/// written.
pub open spec fn canonical_extensions(flags: u16, b: Seq<u8>) -> bool {
    let (hs, km, config) = (flags % 2 == 1, flags / 2 % 2 == 1, flags / 4 % 2 == 1);
    let b_km = control::ext_read(hs, ExtSlot::Handshake, b).1;
    let b_config = control::ext_read(km, ExtSlot::KeyManager, b_km).1;
    &&& canonical_ext(hs, ExtSlot::Handshake, b)
    &&& canonical_ext(km, ExtSlot::KeyManager, b_km)
    &&& canonical_ext(config, ExtSlot::Config, b_config)
}

/// The 16 bytes `b` of an address are as they are written: an IPv4 address with
/// zeros behind it, or the same in both directions.
pub open spec fn canonical_addr(b: Seq<u8>) -> bool {
    ||| forall|i: int| 4 <= i < 16 ==> b[i] == 0
    ||| b.reverse() == b
}

/// The handshake `b` is as it is written. The sequence number has 31 bits. In
/// version 4 the second word holds nothing but the socket type. In version 5 its
/// upper half is one of the crypto sizes in use, and its lower half the magic
/// code in an induction, else the extension flags and nothing but them.
pub open spec fn canonical_handshake(b: Seq<u8>) -> bool {
    let crypto = wire::u16_at(b, 4);
    let flags = wire::u16_at(b, 6);
    &&& wire::u32_at(b, 8) < 0x8000_0000
    &&& canonical_addr(b.subrange(32, 48))
    &&& wire::i32_at(b, 0) == 4 ==> crypto == 0
    &&& wire::i32_at(b, 0) == 5 ==> {
        &&& crypto * 8 == 0 || crypto * 8 == 16 || crypto * 8 == 24 || crypto * 8 == 32
        &&& if wire::i32_at(b, 20) == 1 {
            flags == control::SRT_MAGIC_CODE
        } else {
            flags < 8 && canonical_extensions(flags, b.skip(48))
        }
    }
}

/// The packet `b` is as it is written. The first bit is set. The reserved half
/// word and the Additional Info are zero where the type does not use them. What
/// the type holds is as it is written. Nothing follows but the zero word of an
/// ACK2.
pub open spec fn canonical(b: Seq<u8>) -> bool {
    let kind = wire::u16_at(b, 0) % 0x8000;
    &&& b[0] >= 0x80
    &&& kind != 0x7FFF ==> wire::u16_at(b, 2) == 0
    &&& kind != 2 && kind != 6 && kind != 7 ==> wire::i32_at(b, 4) == 0
    &&& kind == 0 ==> canonical_handshake(b.skip(16))
    &&& kind == 2 ==> wire::u32_at(b, 16) < 0x8000_0000
    &&& kind == 0x7FFF ==> canonical_srt(wire::u16_at(b, 2), b.skip(16))
    &&& if kind == 6 {
        b.len() == 20 && wire::u32_at(b, 16) == 0
    } else {
        ControlPacketView::read(b).1.len() == 0
    }
}

/// The bytes of an SRT handshake come back.
proof fn lemma_srt_handshake(b: Seq<u8>)
    requires
        b.len() >= 12,
        canonical_srt(1, b),
    ensures
        SrtHandshake::read(b).0 matches Ok(h) && h.bytes() + SrtHandshake::read(b).1 == b,
{
    let (r, rest) = SrtHandshake::read(b);
    let h = r->Ok_0;
    assert(h.version.code() == wire::u32_at(b, 0));
    assert(h.flags.bits == wire::u32_at(b, 4));
    wire::lemma_u32_writes_back(b, 0);
    wire::lemma_u32_writes_back(b, 4);
    wire::lemma_u16_writes_back(b, 8);
    wire::lemma_u16_writes_back(b, 10);
    assert(h.bytes() =~= b.take(12));
    assert(h.bytes() + rest =~= b);
}

/// The header words of a key message come back.
proof fn lemma_key_header(b: Seq<u8>)
    requires
        canonical_srt(3, b),
        KeyMessageView::read(b).0 is Ok,
    ensures
        (KeyMessageView::read(b).0->Ok_0).header_bytes() == b.take(16),
{
    let m = KeyMessageView::read(b).0->Ok_0;
    let h = m.header_bytes();
    wire::lemma_u16_writes_back(b, 1);
    wire::lemma_u32_writes_back(b, 4);
    assert(m.key_len() == b[15] * 4);
    assert(m.salt.len() == b[14] * 4);
    assert(m.key_flags() == b[3]);
    laws::law_cipher_reads_back(m.cipher, b[8]);
    assert(0x10 + m.pt % 0x10 == b[0]);
    assert(h.len() == 16);
    assert(wire::u16_bytes(0) =~= seq![0u8, 0u8]);
    assert(h =~= b.take(16));
}

/// The bytes of a key message come back.
proof fn lemma_key_message(b: Seq<u8>)
    requires
        canonical_srt(3, b),
        KeyMessageView::read(b).0 is Ok,
    ensures
        (KeyMessageView::read(b).0->Ok_0).bytes() + KeyMessageView::read(b).1 == b,
{
    let (r, rest) = KeyMessageView::read(b);
    let m = r->Ok_0;
    lemma_key_header(b);
    assert(m.bytes() + rest =~= b);
}

/// The bytes of an SRT packet come back.
proof fn lemma_srt(kind: u16, b: Seq<u8>)
    requires
        canonical_srt(kind, b),
        SrtControlView::read(kind, b).0 is Ok,
    ensures
        (SrtControlView::read(kind, b).0->Ok_0).bytes() + SrtControlView::read(kind, b).1 == b,
{
    if kind == 1 || kind == 2 {
        lemma_srt_handshake(b);
    } else if kind == 3 || kind == 4 {
        lemma_key_message(b);
    } else {
        assert(Seq::<u8>::empty() + b =~= b);
    }
}

/// Two half words and what follows them are their bytes.
proof fn lemma_behind_half_words(b: Seq<u8>, body: Seq<u8>, rest: Seq<u8>)
    requires
        b.len() >= 4,
        body + rest == b.skip(4),
    ensures
        wire::u16_bytes(wire::u16_at(b, 0)) + wire::u16_bytes(wire::u16_at(b, 2)) + body + rest
            == b,
{
    let head = wire::u16_bytes(wire::u16_at(b, 0)) + wire::u16_bytes(wire::u16_at(b, 2));
    wire::lemma_u16_writes_back(b, 0);
    wire::lemma_u16_writes_back(b, 2);
    assert(head =~= b.take(4));
    wire::lemma_concat(head, body, rest);
    assert(head + b.skip(4) =~= b);
}

/// An extension that is read has the type and the length that it gives.
#[verifier::rlimit(30)]
proof fn lemma_ext_head(slot: ExtSlot, b: Seq<u8>)
    requires
        canonical_ext(true, slot, b),
        control::ext_read(true, slot, b).0 is Ok,
    ensures
        ({
            let (r, rest) = control::ext_read(true, slot, b);
            let p = r->Ok_0->Some_0;
            &&& b.len() >= 4
            &&& r->Ok_0 is Some
            &&& p.type_id() == wire::u16_at(b, 0)
            &&& p.words() == wire::u16_at(b, 2)
            &&& p.bytes() + rest == b.skip(4)
        }),
{
    let (r, rest) = control::ext_read(true, slot, b);
    let p = r->Ok_0->Some_0;
    let kind = wire::u16_at(b, 0);
    lemma_srt(kind, b.skip(4));
    laws::law_read_srt_packet_is_well_formed(kind, b.skip(4));
    laws::law_size_in_words(p);
    assert((p.bytes() + rest).len() == b.len() - 4);
}

/// The bytes of an extension come back where it has the type and the length that
/// it gives.
proof fn lemma_ext_body(p: SrtControlView, b: Seq<u8>, rest: Seq<u8>)
    requires
        b.len() >= 4,
        p.type_id() == wire::u16_at(b, 0),
        p.words() == wire::u16_at(b, 2),
        p.bytes() + rest == b.skip(4),
    ensures
        control::ext_bytes(Some(p)) + rest == b,
{
    lemma_behind_half_words(b, p.bytes(), rest);
    assert((p.words() % 0x1_0000) as u16 == wire::u16_at(b, 2));
}

/// The bytes of an extension come back.
#[verifier::rlimit(30)]
proof fn lemma_ext(declared: bool, slot: ExtSlot, b: Seq<u8>)
    requires
        canonical_ext(declared, slot, b),
        control::ext_read(declared, slot, b).0 is Ok,
    ensures
        control::ext_bytes(control::ext_read(declared, slot, b).0->Ok_0) + control::ext_read(
            declared,
            slot,
            b,
        ).1 == b,
{
    let (r, rest) = control::ext_read(declared, slot, b);
    if declared {
        let p = r->Ok_0->Some_0;
        lemma_ext_head(slot, b);
        lemma_ext_body(p, b, rest);
    } else {
        assert(Seq::<u8>::empty() + b =~= b);
    }
}

/// The bytes of the extensions come back.
proof fn lemma_extensions(crypto_size: u8, flags: u16, b: Seq<u8>)
    requires
        canonical_extensions(flags, b),
        VSInfoView::read_extensions(crypto_size, flags, b).0 is Ok,
    ensures
        (VSInfoView::read_extensions(crypto_size, flags, b).0->Ok_0).bytes()
            + VSInfoView::read_extensions(crypto_size, flags, b).1 == b,
{
    let (hs, b_km) = control::ext_read(flags % 2 == 1, ExtSlot::Handshake, b);
    let (km, b_config) = control::ext_read(flags / 2 % 2 == 1, ExtSlot::KeyManager, b_km);
    let (config, rest) = control::ext_read(flags / 4 % 2 == 1, ExtSlot::Config, b_config);
    lemma_ext(flags % 2 == 1, ExtSlot::Handshake, b);
    lemma_ext(flags / 2 % 2 == 1, ExtSlot::KeyManager, b_km);
    lemma_ext(flags / 4 % 2 == 1, ExtSlot::Config, b_config);
    let x = control::ext_bytes(hs->Ok_0);
    let y = control::ext_bytes(km->Ok_0);
    let z = control::ext_bytes(config->Ok_0);
    wire::lemma_concat(x + y, z, rest);
    wire::lemma_concat(x, y, z + rest);
}

/// The flags that are read of the extensions are those that declare them.
proof fn lemma_flags(crypto_size: u8, flags: u16, b: Seq<u8>)
    requires
        VSInfoView::read_extensions(crypto_size, flags, b).0 is Ok,
        flags < 8,
    ensures
        ({
            let info = VSInfoView::read_extensions(crypto_size, flags, b).0->Ok_0;
            &&& info is V5
            &&& info->crypto_size == crypto_size
            &&& control::flag(info->ext_hs, 1) + control::flag(info->ext_km, 2) + control::flag(
                info->ext_config,
                4,
            ) == flags
        }),
{
    let b_km = control::ext_read(flags % 2 == 1, ExtSlot::Handshake, b).1;
    let b_config = control::ext_read(flags / 2 % 2 == 1, ExtSlot::KeyManager, b_km).1;
    laws::lemma_read_extension(flags % 2 == 1, ExtSlot::Handshake, b);
    laws::lemma_read_extension(flags / 2 % 2 == 1, ExtSlot::KeyManager, b_km);
    laws::lemma_read_extension(flags / 4 % 2 == 1, ExtSlot::Config, b_config);
}

/// The second word and the extensions of a handshake come back.
proof fn lemma_vs_info(version: i32, crypto: u16, flags: u16, s: ShakeType, b: Seq<u8>)
    requires
        version == 4 || version == 5,
        version == 4 ==> crypto == 0,
        version == 5 ==> crypto * 8 == 0 || crypto * 8 == 16 || crypto * 8 == 24 || crypto * 8
            == 32,
        version == 5 && s == ShakeType::Induction ==> flags == control::SRT_MAGIC_CODE,
        version == 5 && s != ShakeType::Induction ==> flags < 8 && canonical_extensions(flags, b),
        VSInfoView::read(version, crypto, flags, s, b).0 is Ok,
    ensures
        ({
            let (r, rest) = VSInfoView::read(version, crypto, flags, s, b);
            let info = r->Ok_0;
            &&& info.version() == version
            &&& info.type_flags(s) == crypto * 0x1_0000 + flags
            &&& info.bytes() + rest == b
        }),
{
    if version == 4 || s == ShakeType::Induction {
        assert(Seq::<u8>::empty() + b =~= b);
        assert(Seq::<u8>::empty() + Seq::<u8>::empty() + Seq::<u8>::empty() + b =~= b);
    } else {
        let crypto_size = control::crypto_size_of(crypto);
        lemma_extensions(crypto_size, flags, b);
        lemma_flags(crypto_size, flags, b);
    }
}

/// The bytes of an address come back.
proof fn lemma_addr(b: Seq<u8>)
    requires
        b.len() >= 16,
        canonical_addr(b.take(16)),
    ensures
        IpAddrView::read(b).bytes() == b.take(16),
{
    let a = b.take(16);
    if forall|i: int| 4 <= i < 16 ==> b[i] == 0 {
        assert(IpAddrView::read(b).bytes() =~= a);
    } else {
        let i = choose|i: int| 4 <= i < 16 && b[i] != 0;
        assert(a[i] != 0);
    }
}

/// The eight words before the address of a handshake come back.
proof fn lemma_handshake_head(c: HandshakeView, b: Seq<u8>)
    requires
        b.len() >= 48,
        wire::i32_at(b, 0) == c.info.version(),
        c.info.type_flags(c.shake_type) == wire::u16_at(b, 4) * 0x1_0000 + wire::u16_at(b, 6),
        wire::u32_at(b, 8) == c.init_seq_num.0,
        wire::u32_at(b, 12) == c.max_packet_size,
        wire::u32_at(b, 16) == c.max_flow_size,
        wire::i32_at(b, 20) == c.shake_type.code(),
        wire::u32_at(b, 24) == c.socket_id.0,
        wire::i32_at(b, 28) == c.syn_cookie,
    ensures
        c.head_bytes() == b.take(32),
{
    wire::lemma_u32_writes_back(b, 0);
    wire::lemma_u32_writes_back(b, 4);
    wire::lemma_u32_writes_back(b, 8);
    wire::lemma_u32_writes_back(b, 12);
    wire::lemma_u32_writes_back(b, 16);
    wire::lemma_u32_writes_back(b, 20);
    wire::lemma_u32_writes_back(b, 24);
    wire::lemma_u32_writes_back(b, 28);
    wire::lemma_sign_casts(c.info.version(), 0);
    assert(wire::u32_at(b, 4) == wire::u16_at(b, 4) * 0x1_0000 + wire::u16_at(b, 6));
    assert(wire::unsigned(wire::i32_at(b, 0)) == c.info.version());
    assert(c.head_bytes() =~= b.take(32));
}

/// The parts of a handshake are its bytes.
proof fn lemma_handshake_parts(c: HandshakeView, rest: Seq<u8>, b: Seq<u8>)
    requires
        b.len() >= 48,
        c.head_bytes() == b.take(32),
        c.peer_addr.bytes() == b.skip(32).take(16),
        c.info.bytes() + rest == b.skip(48),
    ensures
        c.bytes() + rest == b,
{
    let head = c.head_bytes() + c.peer_addr.bytes();
    wire::lemma_concat(head, c.info.bytes(), rest);
    assert(b.take(32) + b.skip(32).take(16) + b.skip(48) =~= b);
}

/// The fields of a handshake that is read, where they stand.
proof fn lemma_handshake_fields(b: Seq<u8>)
    requires
        canonical_handshake(b),
        HandshakeView::read(b).0 is Ok,
    ensures
        ({
            let (r, rest) = HandshakeView::read(b);
            let c = r->Ok_0;
            &&& b.len() >= 48
            &&& wire::i32_at(b, 0) == c.info.version()
            &&& c.info.type_flags(c.shake_type) == wire::u16_at(b, 4) * 0x1_0000 + wire::u16_at(
                b,
                6,
            )
            &&& wire::u32_at(b, 8) == c.init_seq_num.0
            &&& wire::u32_at(b, 12) == c.max_packet_size
            &&& wire::u32_at(b, 16) == c.max_flow_size
            &&& wire::i32_at(b, 20) == c.shake_type.code()
            &&& wire::u32_at(b, 24) == c.socket_id.0
            &&& wire::i32_at(b, 28) == c.syn_cookie
            &&& c.peer_addr == IpAddrView::read(b.skip(32))
            &&& c.info.bytes() + rest == b.skip(48)
        }),
{
    let c = HandshakeView::read(b).0->Ok_0;
    laws::law_shake_type_reads_back(c.shake_type, wire::i32_at(b, 20));
    lemma_vs_info(
        wire::i32_at(b, 0),
        wire::u16_at(b, 4),
        wire::u16_at(b, 6),
        c.shake_type,
        b.skip(48),
    );
}

/// The bytes of a handshake come back.
proof fn lemma_handshake(b: Seq<u8>)
    requires
        canonical_handshake(b),
        HandshakeView::read(b).0 is Ok,
    ensures
        (HandshakeView::read(b).0->Ok_0).bytes() + HandshakeView::read(b).1 == b,
{
    let (r, rest) = HandshakeView::read(b);
    let c = r->Ok_0;
    lemma_handshake_fields(b);
    lemma_handshake_head(c, b);
    assert(b.skip(32).take(16) =~= b.subrange(32, 48));
    lemma_addr(b.skip(32));
    lemma_handshake_parts(c, rest, b);
}

/// Six words one behind the other.
proof fn lemma_six_words(b: Seq<u8>)
    requires
        b.len() == 24,
    ensures
        b.subrange(0, 4) + b.subrange(4, 8) + b.subrange(8, 12) + b.subrange(12, 16) + b.subrange(
            16,
            20,
        ) + b.subrange(20, 24) == b,
{
    assert(b.subrange(0, 4) + b.subrange(4, 8) + b.subrange(8, 12) + b.subrange(12, 16)
        + b.subrange(16, 20) + b.subrange(20, 24) =~= b);
}

/// The bytes of an ack come back.
#[verifier::rlimit(30)]
proof fn lemma_ack(c: ControlTypesView, b: Seq<u8>)
    requires
        b.len() == 24,
        c is Ack,
        c->ack_number.0 == wire::u32_at(b, 0),
        c->rtt == Some(wire::i32_at(b, 4)),
        c->rtt_variance == Some(wire::i32_at(b, 8)),
        c->buffer_available == Some(wire::i32_at(b, 12)),
        c->packet_recv_rate == Some(wire::i32_at(b, 16)),
        c->est_link_cap == Some(wire::i32_at(b, 20)),
    ensures
        c.bytes() == b,
{
    wire::lemma_u32_writes_back(b, 0);
    wire::lemma_u32_writes_back(b, 4);
    wire::lemma_u32_writes_back(b, 8);
    wire::lemma_u32_writes_back(b, 12);
    wire::lemma_u32_writes_back(b, 16);
    wire::lemma_u32_writes_back(b, 20);
    lemma_six_words(b);
}

/// The four words of the header come back.
proof fn lemma_packet_header(b: Seq<u8>)
    requires
        b.len() >= 16,
        canonical(b),
        ControlPacketView::read(b).0 is Ok,
        (ControlPacketView::read(b).0->Ok_0).control_type !is DropRequest,
    ensures
        (ControlPacketView::read(b).0->Ok_0).header_bytes() == b.take(16),
{
    let p = ControlPacketView::read(b).0->Ok_0;
    laws::law_type_decides(b);
    laws::law_read_srt_packet_is_well_formed(wire::u16_at(b, 2), b.skip(16));
    assert(wire::u16_at(b, 0) == 0x8000 + p.control_type.id_byte());
    assert(wire::u16_at(b, 2) == p.control_type.reserved());
    assert(wire::i32_at(b, 4) == p.control_type.additional_info());
    wire::lemma_u16_writes_back(b, 0);
    wire::lemma_u16_writes_back(b, 2);
    wire::lemma_u32_writes_back(b, 4);
    wire::lemma_u32_writes_back(b, 8);
    wire::lemma_u32_writes_back(b, 12);
    assert(p.header_bytes() =~= b.take(16));
}

/// The Control Information Field comes back.
#[verifier::rlimit(60)]
proof fn lemma_control_type(b: Seq<u8>)
    requires
        b.len() >= 16,
        canonical(b),
        ControlPacketView::read(b).0 is Ok,
        (ControlPacketView::read(b).0->Ok_0).control_type !is DropRequest,
    ensures
        (ControlPacketView::read(b).0->Ok_0).control_type.bytes() == b.skip(16),
{
    let (r, rest) = ControlPacketView::read(b);
    let c = (r->Ok_0).control_type;
    let body = b.skip(16);
    let kind = wire::u16_at(b, 0) % 0x8000;
    if kind == 0 {
        lemma_handshake(body);
        assert(c.bytes() + rest =~= c.bytes());
    } else if kind == 2 {
        assert(wire::u32_at(body, 0) == wire::u32_at(b, 16));
        assert(body.len() == 24);
        lemma_ack(c, body);
    } else if kind == 3 {
        wire::lemma_words_write_back(body);
    } else if kind == 6 {
        wire::lemma_u32_writes_back(b, 16);
        assert(b.subrange(16, 20) =~= body);
    } else if kind == 0x7FFF {
        lemma_srt(wire::u16_at(b, 2), body);
        assert(c.bytes() + rest =~= c.bytes());
    } else {
        assert(c.bytes() =~= body);
    }
}

/// Canonical bytes come out the same when the packet in them is read and written
/// again, unless it is a drop request, which cannot be written.
pub proof fn law_canonical_bytes_survive(b: Seq<u8>)
    requires
        b.len() >= 16,
        canonical(b),
    ensures
        ControlPacketView::read(b).0 matches Ok(p) ==> p.control_type is DropRequest || p.bytes()
            == b,
{
    if let Ok(p) = ControlPacketView::read(b).0 {
        if p.control_type !is DropRequest {
            lemma_packet_header(b);
            lemma_control_type(b);
            assert(b.take(16) + b.skip(16) =~= b);
        }
    }
}

/// The body of an SRT packet is canonical.
#[verifier::rlimit(60)]
proof fn lemma_srt_is_canonical(p: SrtControlView, t: Seq<u8>)
    requires
        p.well_formed(),
    ensures
        canonical_srt(p.type_id(), p.bytes() + t),
{
    let b = p.bytes() + t;
    match p {
        SrtControlView::HandshakeRequest(h) | SrtControlView::HandshakeResponse(h) => {
            assert(b.subrange(4, 8) =~= wire::u32_bytes(h.flags.bits));
            wire::lemma_u32_reads_back(b, 4, h.flags.bits);
            assert(b[0] == h.version.code() / 0x100_0000);
        },
        SrtControlView::KeyManagerRequest(k) | SrtControlView::KeyManagerResponse(k) => {
            let body = k.salt + wire::opt_bytes(k.even_key) + wire::opt_bytes(k.odd_key)
                + k.wrap_data + t;
            laws::lemma_key_header(k, body);
            assert(b =~= k.header_bytes() + body);
        },
        _ => {},
    }
}

/// Two half words in front of `body`, where they stand.
proof fn lemma_half_words(x: u16, y: u16, body: Seq<u8>, t: Seq<u8>)
    ensures
        ({
            let b = wire::u16_bytes(x) + wire::u16_bytes(y) + body + t;
            &&& wire::u16_at(b, 0) == x
            &&& wire::u16_at(b, 2) == y
            &&& b.len() == 4 + body.len() + t.len()
            &&& b.skip(4) == body + t
        }),
{
    let b = wire::u16_bytes(x) + wire::u16_bytes(y) + body + t;
    assert(b.subrange(0, 2) =~= wire::u16_bytes(x));
    assert(b.subrange(2, 4) =~= wire::u16_bytes(y));
    wire::lemma_u16_reads_back(b, 0, x);
    wire::lemma_u16_reads_back(b, 2, y);
    assert(b.skip(4) =~= body + t);
}

/// An extension is canonical where it gives the length of its body and the body
/// is canonical.
proof fn lemma_ext_parts(slot: ExtSlot, kind: u16, words: u16, body: Seq<u8>, t: Seq<u8>)
    requires
        control::ext_read(
            true,
            slot,
            wire::u16_bytes(kind) + wire::u16_bytes(words) + body + t,
        ).1.len() == t.len(),
        4 * words == body.len(),
        canonical_srt(kind, body + t),
    ensures
        canonical_ext(
            true,
            slot,
            wire::u16_bytes(kind) + wire::u16_bytes(words) + body + t,
        ),
{
    lemma_half_words(kind, words, body, t);
}

/// What is left behind an extension is what follows it.
proof fn lemma_ext_rest(slot: ExtSlot, p: SrtControlView, t: Seq<u8>)
    requires
        slot.allows(p.type_id()),
        p.well_formed(),
    ensures
        control::ext_read(true, slot, control::ext_bytes(Some(p)) + t).1.len() == t.len(),
{
    laws::lemma_extension(slot, Some(p), t);
}

/// An extension is canonical.
#[verifier::rlimit(60)]
proof fn lemma_ext_is_canonical(slot: ExtSlot, ext: Option<SrtControlView>, t: Seq<u8>)
    requires
        control::ext_well_formed(slot, ext),
    ensures
        canonical_ext(ext is Some, slot, control::ext_bytes(ext) + t),
{
    if let Some(p) = ext {
        lemma_ext_rest(slot, p, t);
        laws::law_size_in_words(p);
        lemma_srt_is_canonical(p, t);
        lemma_ext_parts(slot, p.type_id(), (p.words() % 0x1_0000) as u16, p.bytes(), t);
    }
}

/// The extensions of a version 5 handshake are canonical.
proof fn lemma_extensions_are_canonical(info: VSInfoView, flags: u16)
    requires
        info.well_formed(),
        info is V5,
        flags % 2 == 1 <==> info->ext_hs is Some,
        flags / 2 % 2 == 1 <==> info->ext_km is Some,
        flags / 4 % 2 == 1 <==> info->ext_config is Some,
    ensures
        canonical_extensions(flags, info.bytes()),
{
    let hs = control::ext_bytes(info->ext_hs);
    let km = control::ext_bytes(info->ext_km);
    let config = control::ext_bytes(info->ext_config);
    let end = Seq::<u8>::empty();
    assert(config + end =~= config);
    laws::lemma_extension(ExtSlot::Handshake, info->ext_hs, km + config);
    laws::lemma_extension(ExtSlot::KeyManager, info->ext_km, config);
    lemma_ext_is_canonical(ExtSlot::Handshake, info->ext_hs, km + config);
    lemma_ext_is_canonical(ExtSlot::KeyManager, info->ext_km, config);
    lemma_ext_is_canonical(ExtSlot::Config, info->ext_config, end);
    wire::lemma_concat(hs, km, config);
}

/// The bytes of an address are canonical.
proof fn lemma_addr_is_canonical(a: IpAddrView)
    requires
        a.well_formed(),
        a.symmetric(),
    ensures
        canonical_addr(a.bytes()),
{
    let b = a.bytes();
    if a is V4 {
        assert(forall|i: int| 4 <= i < 16 ==> b[i] == 0);
    }
}

/// A handshake is canonical.
#[verifier::rlimit(60)]
proof fn lemma_handshake_is_canonical(c: HandshakeView)
    requires
        c.well_formed(),
        c.peer_addr.symmetric(),
    ensures
        canonical_handshake(c.bytes()),
{
    let addr = c.peer_addr.bytes();
    let info = c.info.bytes();
    let b = c.bytes();
    laws::law_address_reads_back(c.peer_addr, info);
    laws::lemma_handshake_head(c, addr + info);
    wire::lemma_concat(c.head_bytes(), addr, info);
    lemma_addr_is_canonical(c.peer_addr);
    assert(b.subrange(32, 48) =~= addr);
    assert(b.skip(48) =~= info);
    if c.info is V5 {
        laws::lemma_type_flags(c.info, c.shake_type);
        if c.shake_type != ShakeType::Induction {
            lemma_extensions_are_canonical(c.info, wire::u16_at(b, 6));
        }
    }
}

/// The bytes of a packet that is written are canonical, so that they come out the
/// same when they are read and written again.
#[verifier::rlimit(60)]
pub proof fn law_written_bytes_are_canonical(p: ControlPacketView)
    requires
        p.control_type.well_formed(),
        p.control_type.serializable(),
        p.control_type.symmetric_addr(),
    ensures
        canonical(p.bytes()),
{
    let b = p.bytes();
    let body = p.control_type.bytes();
    let end = Seq::<u8>::empty();
    assert(b + end =~= b);
    assert(body + end =~= body);
    laws::lemma_packet_header(p, body);
    laws::law_written_packet_reads_back(p, end);
    assert(b.skip(16) == body);
    match p.control_type {
        ControlTypesView::Handshake(c) => {
            lemma_handshake_is_canonical(c);
        },
        ControlTypesView::Ack { ack_number, .. } => {
            assert(b.subrange(16, 20) =~= wire::u32_bytes(ack_number.0));
            wire::lemma_u32_reads_back(b, 16, ack_number.0);
        },
        ControlTypesView::Ack2(_) => {
            assert(b.subrange(16, 20) =~= wire::u32_bytes(0));
            wire::lemma_u32_reads_back(b, 16, 0);
        },
        ControlTypesView::Srt(srt) => {
            lemma_srt_is_canonical(srt, end);
        },
        _ => {},
    }
}

} // verus!
