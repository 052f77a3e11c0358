//! What a reading finds, and where: each law is about what a call returned and
//! the bytes that it left.
use crate::control::{
    ControlPacket, ControlPacketView, ControlTypes, ControlTypesView, HandshakeControlInfo,
    HandshakeVSInfo, HandshakeView, IpAddr, IpAddrView, ShakeType, VSInfoView,
};
use crate::error::{ExtSlot, ParseError, SrtError};
use crate::srt::{
    KeyMessageView, SrtControlPacket, SrtControlView, SrtHandshake, SrtKeyMessage,
};
use crate::{control, layout, wire};
use vstd::prelude::*;

verus! {

/// An SRT handshake that was read from `b` at `at`, with its flags.
pub open spec fn read_srt_handshake_at(h: SrtHandshake, b: Seq<u8>, at: int) -> bool {
    &&& layout::srt_handshake_at(h, b, at)
    &&& h.flags.bits == layout::word(b, at + 4) % 0x40
}

/// The number of bytes that the header of a key message at `at` speaks of.
pub open spec fn key_message_len(b: Seq<u8>, at: int) -> int {
    24 + 4 * b[at + 14] + 4 * b[at + 15] * (b[at + 3] % 2 + b[at + 3] / 2 % 2)
}

/// A length that a key can have.
pub open spec fn is_key_size(n: int) -> bool {
    n == 16 || n == 24 || n == 32
}

/// A whole key message that can be read stands in `b` at `at`.
pub open spec fn key_message_fits(b: Seq<u8>, at: int) -> bool {
    &&& b.len() >= at + 16
    &&& 0x10 <= b[at] < 0x20
    &&& b[at + 8] < 4
    &&& b[at + 3] % 4 != 0
    &&& is_key_size(4 * b[at + 15])
    &&& b.len() >= at + key_message_len(b, at)
}

/// A key message that was read from `b` at `at`, with the lengths in its header.
pub open spec fn read_key_message_at(m: SrtKeyMessage, b: Seq<u8>, at: int) -> bool {
    &&& layout::key_message_at(m, b, at)
    &&& key_message_fits(b, at)
    &&& m.pt < 0x10
    &&& m.salt@.len() == 4 * b[at + 14]
    &&& m.even_key matches Some(k) ==> k@.len() == 4 * b[at + 15]
    &&& m.odd_key matches Some(k) ==> k@.len() == 4 * b[at + 15]
    &&& layout::key_message_size(m) == key_message_len(b, at)
}

/// Why there is no key message in `b` at `at`: `e` is the first of these things
/// that is wrong.
pub open spec fn key_message_refused_at(e: SrtError, b: Seq<u8>, at: int) -> bool {
    let header = b.len() >= at + 16;
    let version = header && 0x10 <= b[at] < 0x20;
    let cipher = version && b[at + 8] < 4;
    let keys = cipher && b[at + 3] % 4 != 0;
    let size = keys && is_key_size(4 * b[at + 15]);
    match e {
        SrtError::KeyMessageTooShort => !header,
        SrtError::UnrecognizedKeyVersion(n) => header && !version && n == b[at] / 0x10,
        SrtError::UnrecognizedCipher(n) => version && !cipher && n == b[at + 8],
        SrtError::NoKeys => cipher && !keys,
        SrtError::InvalidKeyLength(n) => keys && !size && n == 4 * b[at + 15],
        SrtError::KeysTooShort => size && b.len() < at + key_message_len(b, at),
        _ => false,
    }
}

/// An SRT packet of the type `kind` that was read from `b` at `at`.
pub open spec fn read_srt_packet_at(p: SrtControlPacket, kind: int, b: Seq<u8>, at: int) -> bool {
    &&& layout::is_srt_number(p, kind)
    &&& match p {
        SrtControlPacket::HandshakeRequest(h) | SrtControlPacket::HandshakeResponse(h) => {
            read_srt_handshake_at(h, b, at)
        },
        SrtControlPacket::KeyManagerRequest(m) | SrtControlPacket::KeyManagerResponse(m) => {
            read_key_message_at(m, b, at)
        },
        _ => true,
    }
}

/// Why there is no SRT packet of the type `kind` in `b` at `at`.
pub open spec fn srt_packet_refused_at(e: SrtError, kind: int, b: Seq<u8>, at: int) -> bool {
    if kind == 1 || kind == 2 {
        e is HandshakeTooShort && b.len() < at + 12
    } else if kind == 3 || kind == 4 {
        key_message_refused_at(e, b, at)
    } else {
        kind > 6 && (e matches SrtError::UnrecognizedType(n) && n == kind)
    }
}

/// What a refused SRT packet at `at` takes of `b`: the header of a key message,
/// if it is there, else nothing.
pub open spec fn end_of_refused_srt(kind: int, b: Seq<u8>, at: int) -> int {
    if (kind == 3 || kind == 4) && b.len() >= at + 16 {
        at + 16
    } else {
        at
    }
}

/// A reading of an SRT handshake finds every field in its place and takes twelve
/// bytes; it fails where there are fewer, and then takes none.
pub proof fn law_srt_handshake_is_read(
    b: Seq<u8>,
    r: Result<SrtHandshake, SrtError>,
    rest: Seq<u8>,
)
    requires
        r == SrtHandshake::read(b).0,
        rest == SrtHandshake::read(b).1,
    ensures
        r is Ok <==> b.len() >= 12,
        r matches Ok(h) ==> read_srt_handshake_at(h, b, 0) && rest == b.skip(12),
        r matches Err(e) ==> e is HandshakeTooShort && rest == b,
{
    if b.len() >= 12 {
        layout::law_version_is_three_bytes(r->Ok_0.version, b, 0);
        layout::law_shake_flags_have_six_bits(r->Ok_0.flags, wire::u32_at(b, 4));
    }
}

/// A reading of a key message finds every field in its place and takes the bytes
/// that the header speaks of; where it fails, it names the first thing that is
/// wrong and takes the header, if there is one.
pub proof fn law_key_message_is_read(
    b: Seq<u8>,
    r: Result<SrtKeyMessage, SrtError>,
    rest: Seq<u8>,
)
    requires
        wire::outcome(r) == KeyMessageView::read(b).0,
        rest == KeyMessageView::read(b).1,
    ensures
        r is Ok <==> key_message_fits(b, 0),
        r matches Ok(m) ==> read_key_message_at(m, b, 0) && rest == b.skip(key_message_len(b, 0)),
        r matches Err(e) ==> key_message_refused_at(e, b, 0) && rest == b.skip(
            end_of_refused_srt(3, b, 0),
        ),
{
    lemma_key_message_len(b);
    assert(b.skip(0) =~= b);
    if let Ok(m) = r {
        let v = KeyMessageView::read(b).0->Ok_0;
        assert(m@ == v);
        lemma_key_message_fields(b, m);
    }
}

/// Where a key message ends, and when there is one.
proof fn lemma_key_message_len(b: Seq<u8>)
    ensures
        KeyMessageView::read(b).0 is Ok <==> key_message_fits(b, 0),
        KeyMessageView::read(b).0 is Ok ==> KeyMessageView::read(b).1 == b.skip(
            key_message_len(b, 0),
        ),
        KeyMessageView::read(b).0 matches Err(e) ==> key_message_refused_at(e, b, 0),
        KeyMessageView::read(b).0 is Err ==> KeyMessageView::read(b).1 == (if b.len() >= 16 {
            b.skip(16)
        } else {
            b
        }),
{
    let (n, even, odd) = (4 * b[15], b[3] % 2, b[3] / 2 % 2);
    assert(n * (even + odd) == (if even == 1 {
        n
    } else {
        0
    }) + (if odd == 1 {
        n
    } else {
        0
    })) by (nonlinear_arith)
        requires
            0 <= even < 2,
            0 <= odd < 2,
    ;
}

/// The fields of a key message that was read.
proof fn lemma_key_message_fields(b: Seq<u8>, m: SrtKeyMessage)
    requires
        KeyMessageView::read(b).0 == Ok::<KeyMessageView, SrtError>(m@),
    ensures
        read_key_message_at(m, b, 0),
{
    lemma_key_message_len(b);
    let v = KeyMessageView::read(b).0->Ok_0;
    let even_at = 16 + 4 * b[14];
    let odd_at = even_at + layout::key_size(m.even_key);
    let wrap_at = odd_at + layout::key_size(m.odd_key);
    assert(m.salt@ == v.salt);
    assert(m.wrap_data@ == v.wrap_data);
    assert(m.even_key matches Some(k) ==> v.even_key == Some(k@));
    assert(m.odd_key matches Some(k) ==> v.odd_key == Some(k@));
    assert(v.salt == b.subrange(16, even_at));
    assert(wrap_at + 8 == key_message_len(b, 0)) by {
        let (n, even, odd) = (4 * b[15], b[3] % 2, b[3] / 2 % 2);
        assert(n * (even + odd) == (if even == 1 {
            n
        } else {
            0
        }) + (if odd == 1 {
            n
        } else {
            0
        })) by (nonlinear_arith)
            requires
                0 <= even < 2,
                0 <= odd < 2,
        ;
    }
    assert(v.wrap_data == b.subrange(wrap_at, wrap_at + 8));
    layout::law_cipher_numbers(m.cipher, b[8]);
}

/// A reading of an SRT packet finds the type that it was asked for, with every
/// field of the body in its place, and takes the body; a type above 6 is
/// refused.
pub proof fn law_srt_packet_is_read(
    kind: u16,
    b: Seq<u8>,
    r: Result<SrtControlPacket, SrtError>,
    rest: Seq<u8>,
)
    requires
        wire::outcome(r) == SrtControlView::read(kind, b).0,
        rest == SrtControlView::read(kind, b).1,
    ensures
        r matches Ok(p) ==> read_srt_packet_at(p, kind as int, b, 0) && rest == b.skip(
            layout::srt_packet_size(p),
        ),
        r matches Err(e) ==> srt_packet_refused_at(e, kind as int, b, 0) && rest == b.skip(
            end_of_refused_srt(kind as int, b, 0),
        ),
{
    assert(b.skip(0) =~= b);
    lemma_key_message_len(b);
    match r {
        Ok(SrtControlPacket::HandshakeRequest(h)) | Ok(SrtControlPacket::HandshakeResponse(h)) => {
            law_srt_handshake_is_read(b, Ok(h), b.skip(12));
        },
        Ok(SrtControlPacket::KeyManagerRequest(m)) | Ok(
            SrtControlPacket::KeyManagerResponse(m),
        ) => {
            lemma_key_message_fields(b, m);
        },
        _ => {},
    }
}

/// The type of an SRT packet is one for this place behind a handshake.
pub open spec fn belongs_in(slot: ExtSlot, kind: int) -> bool {
    match slot {
        ExtSlot::Handshake => kind == 1 || kind == 2,
        ExtSlot::KeyManager => kind == 3 || kind == 4,
        ExtSlot::Config => kind == 5 || kind == 6,
    }
}

/// The number of bytes of an extension for `slot` in `b` at `at`.
pub open spec fn extension_len(slot: ExtSlot, b: Seq<u8>, at: int) -> int {
    match slot {
        ExtSlot::Handshake => 16,
        ExtSlot::KeyManager => 4 + key_message_len(b, at + 4),
        ExtSlot::Config => 4,
    }
}

/// An extension for `slot` that can be read stands in `b` at `at`.
pub open spec fn extension_fits(slot: ExtSlot, b: Seq<u8>, at: int) -> bool {
    &&& b.len() >= at + 4
    &&& belongs_in(slot, layout::half(b, at))
    &&& match slot {
        ExtSlot::Handshake => b.len() >= at + 16,
        ExtSlot::KeyManager => key_message_fits(b, at + 4),
        ExtSlot::Config => true,
    }
}

/// Why there is no extension for `slot` in `b` at `at`, and what is left of `b`
/// then.
pub open spec fn extension_refused_at(
    e: ParseError,
    rest: Seq<u8>,
    slot: ExtSlot,
    b: Seq<u8>,
    at: int,
) -> bool {
    let kind = layout::half(b, at);
    match e {
        ParseError::ExtensionTooShort => b.len() < at + 4 && rest == b.skip(at),
        ParseError::UnexpectedExtension(place, n) => {
            &&& b.len() >= at + 4
            &&& place == slot
            &&& n == kind
            &&& !belongs_in(slot, kind)
            &&& rest == b.skip(at + 4)
        },
        ParseError::Srt(e) => {
            &&& b.len() >= at + 4
            &&& belongs_in(slot, kind)
            &&& srt_packet_refused_at(e, kind, b, at + 4)
            &&& rest == b.skip(end_of_refused_srt(kind, b, at + 4))
        },
        _ => false,
    }
}

/// The handshake `b` declares an extension for `slot`: a bit for each, from the
/// lowest up.
pub open spec fn declares(slot: ExtSlot, b: Seq<u8>) -> bool {
    match slot {
        ExtSlot::Handshake => layout::half(b, 6) % 2 == 1,
        ExtSlot::KeyManager => layout::half(b, 6) / 2 % 2 == 1,
        ExtSlot::Config => layout::half(b, 6) / 4 % 2 == 1,
    }
}

/// Where the extension for `slot` stands behind the handshake `b`: each directly
/// behind the one before it, if that is declared.
pub open spec fn extension_at(slot: ExtSlot, b: Seq<u8>) -> int {
    let km_at = if declares(ExtSlot::Handshake, b) {
        64
    } else {
        48int
    };
    match slot {
        ExtSlot::Handshake => 48,
        ExtSlot::KeyManager => km_at,
        ExtSlot::Config => if declares(ExtSlot::KeyManager, b) {
            km_at + extension_len(ExtSlot::KeyManager, b, km_at)
        } else {
            km_at
        },
    }
}

/// Where the extensions of the handshake `b` end.
pub open spec fn extensions_end(b: Seq<u8>) -> int {
    extension_at(ExtSlot::Config, b) + (if declares(ExtSlot::Config, b) {
        4
    } else {
        0int
    })
}

/// The extension for `slot` of the handshake `b` is not declared, or can be read.
pub open spec fn extension_is_good(slot: ExtSlot, b: Seq<u8>) -> bool {
    declares(slot, b) ==> extension_fits(slot, b, extension_at(slot, b))
}

/// The extension for `slot` is there if and only if the handshake `b` declares
/// it, and then it is what stands in its place.
pub open spec fn read_extension_of(
    ext: Option<SrtControlPacket>,
    slot: ExtSlot,
    b: Seq<u8>,
) -> bool {
    let at = extension_at(slot, b);
    match ext {
        Some(p) => {
            &&& declares(slot, b)
            &&& extension_fits(slot, b, at)
            &&& read_srt_packet_at(p, layout::half(b, at), b, at + 4)
        },
        None => !declares(slot, b),
    }
}

/// What is said of the bytes behind `k` holds of all bytes, that much further on.
proof fn lemma_further_on(b: Seq<u8>, k: int)
    requires
        0 <= k <= b.len(),
    ensures
        key_message_fits(b.skip(k), 0) <==> key_message_fits(b, k),
        b.len() >= k + 16 ==> key_message_len(b.skip(k), 0) == key_message_len(b, k),
        forall|e: SrtError|
            key_message_refused_at(e, b.skip(k), 0) ==> key_message_refused_at(e, b, k),
{
    let c = b.skip(k);
    if b.len() >= k + 16 {
        assert(c[0] == b[k] && c[3] == b[k + 3] && c[8] == b[k + 8]);
        assert(c[14] == b[k + 14] && c[15] == b[k + 15]);
    }
}

/// Bytes that stand behind `k` stand in all bytes, that much further on.
proof fn lemma_stands_further_on(s: Seq<u8>, b: Seq<u8>, k: int, at: int)
    requires
        0 <= k <= b.len(),
        layout::stands_at(s, b.skip(k), at),
    ensures
        layout::stands_at(s, b, k + at),
{
    assert forall|i: int| 0 <= i < s.len() implies #[trigger] s[i] == b[k + at + i] by {
        assert(b.skip(k)[at + i] == b[k + at + i]);
    }
}

/// A key message that was read from the bytes behind `k` was read at `k`.
proof fn lemma_key_message_further_on(m: SrtKeyMessage, b: Seq<u8>, k: int)
    requires
        0 <= k <= b.len(),
        read_key_message_at(m, b.skip(k), 0),
    ensures
        read_key_message_at(m, b, k),
{
    let c = b.skip(k);
    lemma_further_on(b, k);
    assert(forall|i: int| 0 <= i < 16 ==> #[trigger] c[i] == b[k + i]);
    let even_at = 16 + m.salt@.len() as int;
    let odd_at = even_at + layout::key_size(m.even_key);
    let wrap_at = odd_at + layout::key_size(m.odd_key);
    lemma_stands_further_on(m.salt@, b, k, 16);
    if let Some(key) = m.even_key {
        lemma_stands_further_on(key@, b, k, even_at);
    }
    if let Some(key) = m.odd_key {
        lemma_stands_further_on(key@, b, k, odd_at);
    }
    lemma_stands_further_on(m.wrap_data@, b, k, wrap_at);
}

/// An SRT packet that was read from the bytes behind `k` was read at `k`.
proof fn lemma_srt_packet_further_on(p: SrtControlPacket, kind: int, b: Seq<u8>, k: int)
    requires
        0 <= k <= b.len(),
        read_srt_packet_at(p, kind, b.skip(k), 0),
    ensures
        read_srt_packet_at(p, kind, b, k),
{
    match p {
        SrtControlPacket::HandshakeRequest(h) | SrtControlPacket::HandshakeResponse(h) => {
            let c = b.skip(k);
            assert(forall|i: int| 0 <= i < 12 ==> #[trigger] c[i] == b[k + i]);
        },
        SrtControlPacket::KeyManagerRequest(m) | SrtControlPacket::KeyManagerResponse(m) => {
            lemma_key_message_further_on(m, b, k);
        },
        _ => {},
    }
}

/// A reading of a declared extension in `b` at `at`.
proof fn lemma_extension_is_read(slot: ExtSlot, b: Seq<u8>, at: int)
    requires
        0 <= at <= b.len(),
    ensures
        ({
            let (r, rest) = control::ext_read(true, slot, b.skip(at));
            &&& r is Ok <==> extension_fits(slot, b, at)
            &&& r is Ok ==> rest == b.skip(at + extension_len(slot, b, at))
            &&& r matches Ok(ext) ==> ext is Some
            &&& r matches Err(e) ==> extension_refused_at(e, rest, slot, b, at)
        }),
{
    let c = b.skip(at);
    if b.len() >= at + 4 {
        assert(c[0] == b[at] && c[1] == b[at + 1]);
        let body = b.skip(at + 4);
        wire::lemma_skip_skip(b, at, 4);
        lemma_key_message_len(body);
        lemma_further_on(b, at + 4);
        if b.len() >= at + 16 {
            wire::lemma_skip_skip(b, at + 4, 12);
        }
        if b.len() >= at + 20 {
            wire::lemma_skip_skip(b, at + 4, 16);
            if key_message_fits(b, at + 4) {
                lemma_len_is_positive(b, at + 4);
                wire::lemma_skip_skip(b, at + 4, key_message_len(b, at + 4));
            }
        }
    }
}

/// A key message has a header.
proof fn lemma_len_is_positive(b: Seq<u8>, at: int)
    ensures
        key_message_len(b, at) >= 24,
{
    let (n, keys) = (4 * b[at + 15], b[at + 3] % 2 + b[at + 3] / 2 % 2);
    assert(n * keys >= 0) by (nonlinear_arith)
        requires
            n >= 0,
            keys >= 0,
    ;
}

/// What a reading of a declared extension in `b` at `at` found.
proof fn lemma_extension_contents(slot: ExtSlot, p: SrtControlPacket, b: Seq<u8>, at: int)
    requires
        0 <= at <= b.len(),
        control::ext_read(true, slot, b.skip(at)).0 == Ok::<Option<SrtControlView>, ParseError>(
            Some(p@),
        ),
    ensures
        read_srt_packet_at(p, layout::half(b, at), b, at + 4),
{
    let c = b.skip(at);
    let kind = wire::u16_at(c, 0);
    assert(c[0] == b[at] && c[1] == b[at + 1]);
    wire::lemma_skip_skip(b, at, 4);
    law_srt_packet_is_read(kind, b.skip(at + 4), Ok(p), SrtControlView::read(kind, c.skip(4)).1);
    lemma_srt_packet_further_on(p, kind as int, b, at + 4);
}

/// The handshake `b` is of version 5 and in a stage behind the first, so that
/// extensions can follow it.
pub open spec fn may_have_extensions(b: Seq<u8>) -> bool {
    &&& b.len() >= 48
    &&& layout::signed_word(b, 0) == 5
    &&& -2 <= layout::signed_word(b, 20) <= 0
}

/// How the extensions of a handshake follow each other.
proof fn lemma_extensions_are_read(crypto: u8, b: Seq<u8>)
    requires
        b.len() >= 48,
    ensures
        ({
            let (r, rest) = VSInfoView::read_extensions(crypto, wire::u16_at(b, 6), b.skip(48));
            let hs = extension_is_good(ExtSlot::Handshake, b);
            let km = hs && extension_is_good(ExtSlot::KeyManager, b);
            let config = km && extension_is_good(ExtSlot::Config, b);
            &&& r is Ok <==> config
            &&& r is Ok ==> rest == b.skip(extensions_end(b))
            &&& r matches Err(e) ==> if !hs {
                extension_refused_at(e, rest, ExtSlot::Handshake, b, 48)
            } else if !km {
                extension_refused_at(
                    e,
                    rest,
                    ExtSlot::KeyManager,
                    b,
                    extension_at(ExtSlot::KeyManager, b),
                )
            } else {
                extension_refused_at(e, rest, ExtSlot::Config, b, extension_at(ExtSlot::Config, b))
            }
        }),
{
    let km_at = extension_at(ExtSlot::KeyManager, b);
    let config_at = extension_at(ExtSlot::Config, b);
    lemma_extension_is_read(ExtSlot::Handshake, b, 48);
    if extension_is_good(ExtSlot::Handshake, b) {
        lemma_extension_is_read(ExtSlot::KeyManager, b, km_at);
        if extension_is_good(ExtSlot::KeyManager, b) {
            lemma_len_is_positive(b, km_at + 4);
            lemma_extension_is_read(ExtSlot::Config, b, config_at);
        }
    }
}

/// What the extensions of a handshake are.
proof fn lemma_extension_fields(
    crypto: u8,
    b: Seq<u8>,
    hs: Option<SrtControlPacket>,
    km: Option<SrtControlPacket>,
    config: Option<SrtControlPacket>,
)
    requires
        b.len() >= 48,
        VSInfoView::read_extensions(crypto, wire::u16_at(b, 6), b.skip(48)).0 == Ok::<
            VSInfoView,
            ParseError,
        >(
            (VSInfoView::V5 {
                crypto_size: crypto,
                ext_hs: control::ext_view(hs),
                ext_km: control::ext_view(km),
                ext_config: control::ext_view(config),
            }),
        ),
    ensures
        read_extension_of(hs, ExtSlot::Handshake, b),
        read_extension_of(km, ExtSlot::KeyManager, b),
        read_extension_of(config, ExtSlot::Config, b),
{
    let km_at = extension_at(ExtSlot::KeyManager, b);
    let config_at = extension_at(ExtSlot::Config, b);
    lemma_extensions_are_read(crypto, b);
    lemma_len_is_positive(b, km_at + 4);
    lemma_extension_is_read(ExtSlot::Handshake, b, 48);
    lemma_extension_is_read(ExtSlot::KeyManager, b, km_at);
    lemma_extension_is_read(ExtSlot::Config, b, config_at);
    if let Some(p) = hs {
        lemma_extension_contents(ExtSlot::Handshake, p, b, 48);
    }
    if let Some(p) = km {
        lemma_extension_contents(ExtSlot::KeyManager, p, b, km_at);
    }
    if let Some(p) = config {
        lemma_extension_contents(ExtSlot::Config, p, b, config_at);
    }
}

/// An IP address that was read from the 16 bytes of `b` at `at`: where the last
/// twelve are zero, an IPv4 address whose octets are the first four, from the last
/// to the first; else an IPv6 address whose octets are the 16 bytes in their
/// order.
pub open spec fn read_address_at(a: IpAddr, b: Seq<u8>, at: int) -> bool {
    if forall|i: int| 4 <= i < 16 ==> #[trigger] b[at + i] == 0 {
        a matches IpAddr::V4(octets) && octets@[0] == b[at + 3] && octets@[1] == b[at + 2]
            && octets@[2] == b[at + 1] && octets@[3] == b[at]
    } else {
        a matches IpAddr::V6(octets) && forall|i: int|
            0 <= i < 16 ==> octets@[i] == #[trigger] b[at + i]
    }
}

/// A reading of an address finds an IPv6 address, with all 16 bytes as they
/// come, wherever one of the last twelve bytes is not zero; and an IPv4 address
/// only where all twelve are.
pub proof fn law_address_is_read(b: Seq<u8>, a: IpAddr)
    requires
        b.len() >= 16,
        a@ == IpAddrView::read(b),
    ensures
        read_address_at(a, b, 0),
        forall|k: int| 4 <= k < 16 && #[trigger] b[k] != 0 ==> (a matches IpAddr::V6(octets)
            && octets@ == b.take(16)),
{
    if forall|i: int| 4 <= i < 16 ==> #[trigger] b[0 + i] == 0 {
        assert forall|i: int| 4 <= i < 16 implies b[i] == 0 by {
            assert(b[0 + i] == 0);
        }
        assert(IpAddrView::read(b) == IpAddrView::V4(seq![b[3], b[2], b[1], b[0]]));
        assert(a@->V4_0 == seq![b[3], b[2], b[1], b[0]]);
    } else {
        let i = choose|i: int| 4 <= i < 16 && #[trigger] b[0 + i] != 0;
        assert(b[i] != 0);
        assert(IpAddrView::read(b) == IpAddrView::V6(b.take(16)));
        assert(a@->V6_0 == b.take(16));
    }
}

/// The crypto size of a handshake that was read: what the upper half of the
/// second word says in units of eight bytes, where that is 16, 24 or 32, else 0.
pub open spec fn read_crypto_size(size: u8, units: int) -> bool {
    if is_key_size(8 * units % 0x1_0000) {
        size == 8 * units % 0x1_0000
    } else {
        size == 0
    }
}

/// A handshake that was read from `b` at `at`, as far as its words and its address
/// go.
pub open spec fn read_handshake_at(h: HandshakeControlInfo, b: Seq<u8>, at: int) -> bool {
    &&& b.len() >= at + 48
    &&& h.init_seq_num.0 == layout::word(b, at + 8) % 0x8000_0000
    &&& h.max_packet_size == layout::word(b, at + 12)
    &&& h.max_flow_size == layout::word(b, at + 16)
    &&& layout::is_stage_number(h.shake_type, layout::signed_word(b, at + 20))
    &&& h.socket_id.0 == layout::word(b, at + 24)
    &&& h.syn_cookie == layout::signed_word(b, at + 28)
    &&& read_address_at(h.peer_addr, b, at + 32)
    &&& match h.info {
        HandshakeVSInfo::V4(t) => {
            &&& layout::signed_word(b, at) == 4
            &&& layout::is_socket_number(t, layout::half(b, at + 6))
        },
        HandshakeVSInfo::V5 { crypto_size, .. } => {
            &&& layout::signed_word(b, at) == 5
            &&& read_crypto_size(crypto_size, layout::half(b, at + 4))
        },
    }
}

/// The extensions of a handshake that was read from `b`: none in an induction,
/// else those that are declared.
pub open spec fn read_extensions_of(h: HandshakeControlInfo, b: Seq<u8>) -> bool {
    h.info matches HandshakeVSInfo::V5 { ext_hs, ext_km, ext_config, .. } ==> if h.shake_type
        is Induction {
        ext_hs is None && ext_km is None && ext_config is None
    } else {
        &&& read_extension_of(ext_hs, ExtSlot::Handshake, b)
        &&& read_extension_of(ext_km, ExtSlot::KeyManager, b)
        &&& read_extension_of(ext_config, ExtSlot::Config, b)
    }
}

/// Where the handshake `b` ends.
pub open spec fn handshake_end(b: Seq<u8>) -> int {
    if may_have_extensions(b) {
        extensions_end(b)
    } else {
        48
    }
}

/// Why `b` is no handshake, and what is left of it then: `e` is the first of these
/// things that is wrong.
pub open spec fn handshake_refused(e: ParseError, rest: Seq<u8>, b: Seq<u8>) -> bool {
    let version = layout::signed_word(b, 0);
    let stage = layout::signed_word(b, 20);
    let hs = extension_is_good(ExtSlot::Handshake, b);
    let km = extension_is_good(ExtSlot::KeyManager, b);
    match e {
        ParseError::HandshakeTooShort => b.len() < 48 && rest == b,
        ParseError::IncompatibleVersion(n) => {
            &&& b.len() >= 48
            &&& n == version
            &&& version != 4
            &&& version != 5
            &&& rest == b.skip(4)
        },
        ParseError::InvalidShakeType(n) => {
            &&& b.len() >= 48
            &&& version == 4 || version == 5
            &&& n == stage
            &&& !(-2 <= stage <= 1)
            &&& rest == b.skip(24)
        },
        ParseError::UnrecognizedSocketType(n) => {
            &&& b.len() >= 48
            &&& version == 4
            &&& -2 <= stage <= 1
            &&& n == layout::half(b, 6)
            &&& n != 1
            &&& n != 2
            &&& rest == b.skip(48)
        },
        _ => {
            &&& may_have_extensions(b)
            &&& if !hs {
                extension_refused_at(e, rest, ExtSlot::Handshake, b, 48)
            } else if !km {
                extension_refused_at(
                    e,
                    rest,
                    ExtSlot::KeyManager,
                    b,
                    extension_at(ExtSlot::KeyManager, b),
                )
            } else {
                &&& !extension_is_good(ExtSlot::Config, b)
                &&& extension_refused_at(
                    e,
                    rest,
                    ExtSlot::Config,
                    b,
                    extension_at(ExtSlot::Config, b),
                )
            }
        },
    }
}

/// What a reading of a handshake finds.
proof fn lemma_handshake_is_read(b: Seq<u8>, h: HandshakeControlInfo)
    requires
        HandshakeView::read(b).0 == Ok::<HandshakeView, ParseError>(h@),
    ensures
        read_handshake_at(h, b, 0),
        read_extensions_of(h, b),
        HandshakeView::read(b).1 == b.skip(handshake_end(b)),
{
    let addr = b.skip(32);
    assert(forall|i: int| 0 <= i < 16 ==> #[trigger] addr[i] == b[32 + i]);
    law_address_is_read(addr, h.peer_addr);
    lemma_address_further_on(h.peer_addr, b, 32);
    layout::law_stage_numbers(h.shake_type, wire::i32_at(b, 20));
    layout::law_socket_type_numbers(h.info->V4_0, wire::u16_at(b, 6));
    assert(VSInfoView::read(
        wire::i32_at(b, 0),
        wire::u16_at(b, 4),
        wire::u16_at(b, 6),
        h.shake_type,
        b.skip(48),
    ).0 == Ok::<VSInfoView, ParseError>(h.info@));
    let crypto = control::crypto_size_of(wire::u16_at(b, 4));
    if let HandshakeVSInfo::V5 { crypto_size, ext_hs, ext_km, ext_config } = h.info {
        assert(crypto_size == crypto);
        if h.shake_type !is Induction {
            lemma_extension_fields(crypto, b, ext_hs, ext_km, ext_config);
            lemma_extensions_are_read(crypto, b);
        } else {
            assert(ext_hs is None && ext_km is None && ext_config is None);
        }
    }
}

/// An address that was read from the bytes behind `k` was read at `k`.
proof fn lemma_address_further_on(a: IpAddr, b: Seq<u8>, k: int)
    requires
        0 <= k,
        k + 16 <= b.len(),
        read_address_at(a, b.skip(k), 0),
    ensures
        read_address_at(a, b, k),
{
    let c = b.skip(k);
    assert forall|i: int| 0 <= i < 16 implies #[trigger] c[0 + i] == b[k + i] by {}
    assert forall|i: int| 0 <= i < 16 implies #[trigger] b[k + i] == c[0 + i] by {}
}

/// Why a reading of a handshake fails.
proof fn lemma_handshake_is_refused(b: Seq<u8>, e: ParseError)
    requires
        HandshakeView::read(b).0 == Err::<HandshakeView, ParseError>(e),
    ensures
        handshake_refused(e, HandshakeView::read(b).1, b),
{
    if b.len() >= 48 {
        layout::law_stage_numbers(ShakeType::Induction, wire::i32_at(b, 20));
        lemma_extensions_are_read(control::crypto_size_of(wire::u16_at(b, 4)), b);
    }
}

/// What a Control Information Field in `b` from `at` on holds that is of the type
/// `kind`, where the header has `reserved` and `info`.
pub open spec fn read_control_type_at(
    c: ControlTypes,
    kind: int,
    reserved: int,
    info: int,
    b: Seq<u8>,
    at: int,
) -> bool {
    match c {
        ControlTypes::Handshake(h) => {
            &&& kind == 0
            &&& read_handshake_at(h, b, at)
            &&& read_extensions_of(h, b.skip(at))
        },
        ControlTypes::KeepAlive => kind == 1,
        ControlTypes::Ack {
            ack_seq_num,
            ack_number,
            rtt,
            rtt_variance,
            buffer_available,
            packet_recv_rate,
            est_link_cap,
        } => {
            &&& kind == 2
            &&& b.len() >= at + 24
            &&& ack_seq_num == info
            &&& ack_number.0 == layout::word(b, at) % 0x8000_0000
            &&& rtt matches Some(v) && v == layout::signed_word(b, at + 4)
            &&& rtt_variance matches Some(v) && v == layout::signed_word(b, at + 8)
            &&& buffer_available matches Some(v) && v == layout::signed_word(b, at + 12)
            &&& packet_recv_rate matches Some(v) && v == layout::signed_word(b, at + 16)
            &&& est_link_cap matches Some(v) && v == layout::signed_word(b, at + 20)
        },
        ControlTypes::Nak(n) => {
            &&& kind == 3
            &&& at + 4 * n@.len() <= b.len() < at + 4 * n@.len() + 4
            &&& forall|i: int| 0 <= i < n@.len() ==> #[trigger] n@[i] == layout::word(b, at + 4 * i)
        },
        ControlTypes::Shutdown => kind == 5,
        ControlTypes::Ack2(a) => kind == 6 && a == info,
        ControlTypes::DropRequest { msg_to_drop, first, last } => {
            &&& kind == 7
            &&& b.len() >= at + 8
            &&& msg_to_drop.0 == info % 0x400_0000
            &&& first.0 == layout::word(b, at) % 0x8000_0000
            &&& last.0 == layout::word(b, at + 4) % 0x8000_0000
        },
        ControlTypes::Srt(p) => kind == 0x7FFF && read_srt_packet_at(p, reserved, b, at),
    }
}

/// Where the Control Information Field `b` of the control type ends.
pub open spec fn control_type_end(c: ControlTypes, b: Seq<u8>) -> int {
    match c {
        ControlTypes::Handshake(_) => handshake_end(b),
        ControlTypes::Ack { .. } => 24,
        ControlTypes::Nak(n) => 4 * n@.len() as int,
        ControlTypes::DropRequest { .. } => 8,
        ControlTypes::Srt(p) => layout::srt_packet_size(p),
        _ => 0,
    }
}

/// Why there is no control type `kind` in `b`, where the header has `reserved`,
/// and what is left of `b` then.
pub open spec fn control_type_refused(
    e: ParseError,
    rest: Seq<u8>,
    kind: int,
    reserved: int,
    b: Seq<u8>,
) -> bool {
    if kind == 0 {
        handshake_refused(e, rest, b)
    } else if kind == 2 {
        e is AckTooShort && b.len() < 24 && rest == b
    } else if kind == 7 {
        e is DropRequestTooShort && b.len() < 8 && rest == b
    } else if kind == 0x7FFF {
        &&& e matches ParseError::Srt(s) && srt_packet_refused_at(s, reserved, b, 0)
        &&& rest == b.skip(end_of_refused_srt(reserved, b, 0))
    } else {
        &&& kind == 4 || kind > 7
        &&& e matches ParseError::UnrecognizedControlType(n) && n == kind
        &&& rest == b
    }
}

/// A reading of a Control Information Field finds the type that it was asked for,
/// with every part in its place, and takes what the type has; where it fails, it
/// names what is wrong.
pub proof fn law_control_type_is_read(
    kind: u16,
    reserved: u16,
    info: i32,
    b: Seq<u8>,
    r: Result<ControlTypes, ParseError>,
    rest: Seq<u8>,
)
    requires
        wire::outcome(r) == ControlTypesView::read(kind, reserved, info, b).0,
        rest == ControlTypesView::read(kind, reserved, info, b).1,
    ensures
        r matches Ok(c) ==> read_control_type_at(
            c,
            kind as int,
            reserved as int,
            info as int,
            b,
            0,
        ) && rest == b.skip(control_type_end(c, b)),
        r matches Err(e) ==> control_type_refused(e, rest, kind as int, reserved as int, b),
{
    assert(b.skip(0) =~= b);
    match r {
        Ok(ControlTypes::Handshake(h)) => {
            lemma_handshake_is_read(b, h);
        },
        Ok(ControlTypes::Nak(n)) => {
            assert(n@ == wire::words_in(b));
            assert(b.skip(b.len() - b.len() % 4) =~= b.skip(4 * n@.len() as int));
        },
        Ok(ControlTypes::DropRequest { .. }) => {
            lemma_low_bits(info);
        },
        Ok(ControlTypes::Srt(p)) => {
            law_srt_packet_is_read(reserved, b, Ok(p), rest);
        },
        Err(e) => {
            if kind == 0 {
                lemma_handshake_is_refused(b, e);
            } else if kind == 0x7FFF {
                law_srt_packet_is_read(reserved, b, Err(e->Srt_0), rest);
            }
        },
        _ => {},
    }
}

/// The low bits of a number are the same in both readings.
proof fn lemma_low_bits(i: i32)
    ensures
        wire::unsigned(i) % 0x400_0000 == i as int % 0x400_0000,
{
}

/// A control type that was read from the bytes behind `k` was read at `k`.
proof fn lemma_control_type_further_on(
    c: ControlTypes,
    kind: int,
    reserved: int,
    info: int,
    b: Seq<u8>,
    k: int,
)
    requires
        0 <= k <= b.len(),
        read_control_type_at(c, kind, reserved, info, b.skip(k), 0),
    ensures
        read_control_type_at(c, kind, reserved, info, b, k),
{
    let f = b.skip(k);
    assert(f.skip(0) =~= f);
    match c {
        ControlTypes::Handshake(h) => {
            assert(forall|i: int| 0 <= i < 32 ==> #[trigger] f[i] == b[k + i]);
            wire::lemma_skip_skip(b, k, 32);
            assert forall|i: int| 0 <= i < 16 implies #[trigger] f[32 + i] == b[k + 32 + i] by {}
            assert forall|i: int| 0 <= i < 16 implies #[trigger] b[k + 32 + i] == f[32 + i] by {}
        },
        ControlTypes::Ack { .. } => {
            assert(forall|i: int| 0 <= i < 24 ==> #[trigger] f[i] == b[k + i]);
        },
        ControlTypes::Nak(n) => {
            assert forall|i: int| 0 <= i < n@.len() implies #[trigger] n@[i] == layout::word(
                b,
                k + 4 * i,
            ) by {
                assert(n@[i] == layout::word(f, 0 + 4 * i));
            }
        },
        ControlTypes::Srt(p) => {
            lemma_srt_packet_further_on(p, reserved, b, k);
        },
        _ => {},
    }
}

/// A reading of a packet finds the time stamp and the destination in the header,
/// and the control type that the header speaks of behind it; it takes the header
/// and what the type has. It fails where the Control Information Field is
/// refused.
pub proof fn law_packet_is_read(
    b: Seq<u8>,
    r: Result<ControlPacket, ParseError>,
    rest: Seq<u8>,
)
    requires
        b.len() >= 16,
        wire::outcome(r) == ControlPacketView::read(b).0,
        rest == ControlPacketView::read(b).1,
    ensures
        ({
            let kind = layout::half(b, 0) % 0x8000;
            let reserved = layout::half(b, 2);
            let info = layout::signed_word(b, 4);
            let field = b.skip(16);
            &&& r matches Ok(p) ==> {
                &&& p.timestamp == layout::signed_word(b, 8)
                &&& p.dest_sockid.0 == layout::word(b, 12)
                &&& read_control_type_at(p.control_type, kind, reserved, info, b, 16)
                &&& rest == field.skip(control_type_end(p.control_type, field))
            }
            &&& r matches Err(e) ==> control_type_refused(e, rest, kind, reserved, field)
        }),
{
    let kind = wire::u16_at(b, 0) % 0x8000;
    let reserved = wire::u16_at(b, 2);
    let info = wire::i32_at(b, 4);
    let field = b.skip(16);
    match r {
        Ok(p) => {
            law_control_type_is_read(kind, reserved, info, field, Ok(p.control_type), rest);
            lemma_control_type_further_on(
                p.control_type,
                kind as int,
                reserved as int,
                info as int,
                b,
                16,
            );
        },
        Err(e) => {
            law_control_type_is_read(kind, reserved, info, field, Err(e), rest);
        },
    }
}

/// The signed word at bytes 4 to 8 of a packet is the ack sequence number of an
/// ack or of an ACK2 that is read from it, and its low 26 bits are the message
/// number of a drop request.
pub proof fn law_additional_info_is_read(b: Seq<u8>, p: ControlPacket)
    requires
        b.len() >= 16,
        wire::outcome(Ok::<ControlPacket, ParseError>(p)) == ControlPacketView::read(b).0,
    ensures
        p.control_type matches ControlTypes::Ack { ack_seq_num, .. } ==> ack_seq_num
            == layout::signed_word(b, 4),
        p.control_type matches ControlTypes::Ack2(a) ==> a == layout::signed_word(b, 4),
        p.control_type matches ControlTypes::DropRequest { msg_to_drop, .. } ==> msg_to_drop.0
            == layout::word(b, 4) % 0x400_0000,
{
    law_packet_is_read(b, Ok(p), ControlPacketView::read(b).1);
}

/// A drop request that is read from a packet is of the two words behind the
/// header, each without its first bit and with all the others.
pub proof fn law_drop_request_is_read(b: Seq<u8>, p: ControlPacket)
    requires
        b.len() >= 16,
        wire::outcome(Ok::<ControlPacket, ParseError>(p)) == ControlPacketView::read(b).0,
    ensures
        p.control_type matches ControlTypes::DropRequest { msg_to_drop, first, last } ==> {
            &&& b.len() >= 24
            &&& first.0 == (b[16] % 0x80) * 0x100_0000 + b[17] * 0x1_0000 + b[18] * 0x100 + b[19]
            &&& last.0 == (b[20] % 0x80) * 0x100_0000 + b[21] * 0x1_0000 + b[22] * 0x100 + b[23]
            &&& msg_to_drop.0 == (b[4] % 4) * 0x100_0000 + b[5] * 0x1_0000 + b[6] * 0x100 + b[7]
        },
{
    law_packet_is_read(b, Ok(p), ControlPacketView::read(b).1);
    law_additional_info_is_read(b, p);
    lemma_cut_words(b[4], b[5], b[6], b[7]);
    lemma_cut_words(b[16], b[17], b[18], b[19]);
    lemma_cut_words(b[20], b[21], b[22], b[23]);
}

/// A word without its upper bits is one whose first byte is without them.
proof fn lemma_cut_words(b0: u8, b1: u8, b2: u8, b3: u8)
    ensures
        (b0 * 0x100_0000 + b1 * 0x1_0000 + b2 * 0x100 + b3) % 0x8000_0000 == (b0 % 0x80)
            * 0x100_0000 + b1 * 0x1_0000 + b2 * 0x100 + b3,
        (b0 * 0x100_0000 + b1 * 0x1_0000 + b2 * 0x100 + b3) % 0x400_0000 == (b0 % 4) * 0x100_0000
            + b1 * 0x1_0000 + b2 * 0x100 + b3,
{
    let low = b1 * 0x1_0000 + b2 * 0x100 + b3;
    assert(b0 == b0 / 0x80 * 0x80 + b0 % 0x80);
    assert(b0 == b0 / 4 * 4 + b0 % 4);
    assert(0 <= low < 0x100_0000);
}

/// The word at `i` of a NAK that is read from a packet is the one `i` words behind
/// the header, and there are as many as the packet has room for.
pub proof fn law_nak_is_read(b: Seq<u8>, p: ControlPacket, i: int)
    requires
        b.len() >= 16,
        wire::outcome(Ok::<ControlPacket, ParseError>(p)) == ControlPacketView::read(b).0,
    ensures
        p.control_type matches ControlTypes::Nak(n) ==> {
            &&& n@.len() == (b.len() - 16) / 4
            &&& 0 <= i < n@.len() ==> n@[i] == b[16 + 4 * i] * 0x100_0000 + b[17 + 4 * i]
                * 0x1_0000 + b[18 + 4 * i] * 0x100 + b[19 + 4 * i]
        },
{
    law_packet_is_read(b, Ok(p), ControlPacketView::read(b).1);
    if let ControlTypes::Nak(n) = p.control_type {
        if 0 <= i < n@.len() {
            assert(n@[i] == layout::word(b, 16 + 4 * i));
        }
    }
}

/// The address in a handshake that is read from a packet is an IPv6 address
/// wherever one of the bytes 52 to 64 is not zero, with the octets 48 to 64 as
/// they come.
pub proof fn law_peer_address_is_read(b: Seq<u8>, p: ControlPacket, k: int)
    requires
        b.len() >= 16,
        wire::outcome(Ok::<ControlPacket, ParseError>(p)) == ControlPacketView::read(b).0,
        52 <= k < 64,
        b[k] != 0,
    ensures
        p.control_type matches ControlTypes::Handshake(h) ==> (h.peer_addr matches IpAddr::V6(
            octets,
        ) && octets@ == b.subrange(48, 64)),
{
    law_packet_is_read(b, Ok(p), ControlPacketView::read(b).1);
    if let ControlTypes::Handshake(h) = p.control_type {
        assert(read_address_at(h.peer_addr, b, 48));
        assert(b[48 + (k - 48)] != 0);
        if let IpAddr::V6(octets) = h.peer_addr {
            assert forall|i: int| 0 <= i < 16 implies octets@[i] == b.subrange(48, 64)[i] by {
                assert(octets@[i] == b[48 + i]);
            }
            assert(octets@ =~= b.subrange(48, 64));
        }
    }
}

} // verus!
