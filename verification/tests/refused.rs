//! Bytes that are no control packet, and what is left of them.
use srt_control::{
    CipherType, ControlPacket, ControlTypes, ExtSlot, ParseError, ShakeType, SocketType,
    SrtControlPacket, SrtError, SrtHandshake, SrtKeyMessage,
};

/// A header for a packet of the given type and reserved half word, then `body`.
fn packet(kind: u16, reserved: u16, body: &[u8]) -> Vec<u8> {
    let mut v = vec![];
    v.extend_from_slice(&(0x8000 | kind).to_be_bytes());
    v.extend_from_slice(&reserved.to_be_bytes());
    v.extend_from_slice(&[0; 12]);
    v.extend_from_slice(body);
    v
}

/// The 48 bytes of a handshake.
fn handshake(version: i32, crypto: u16, flags: u16, stage: i32) -> Vec<u8> {
    let mut v = vec![];
    v.extend_from_slice(&version.to_be_bytes());
    v.extend_from_slice(&crypto.to_be_bytes());
    v.extend_from_slice(&flags.to_be_bytes());
    v.extend_from_slice(&[0; 12]);
    v.extend_from_slice(&stage.to_be_bytes());
    v.extend_from_slice(&[0; 24]);
    v
}

/// What is said of the bytes, and how many are left.
fn refused(data: &[u8]) -> (ParseError, usize) {
    let mut buf = data;
    let e = ControlPacket::parse(&mut buf).unwrap_err();
    assert_eq!(buf, &data[data.len() - buf.len()..]);
    (e, buf.len())
}

#[test]
fn short_handshake() {
    let data = packet(0, 0, &handshake(5, 0, 0, 1)[..47]);
    assert_eq!(refused(&data), (ParseError::HandshakeTooShort, 47));
}

#[test]
fn other_udt_version() {
    for version in [3, 6, -1, i32::MIN] {
        let data = packet(0, 0, &handshake(version, 0, 0, 1));
        assert_eq!(
            refused(&data),
            (ParseError::IncompatibleVersion(version), 44)
        );
    }
}

#[test]
fn other_stage() {
    for stage in [2, -3, i32::MAX] {
        let data = packet(0, 0, &handshake(4, 0, 1, stage));
        assert_eq!(refused(&data), (ParseError::InvalidShakeType(stage), 24));
    }
}

#[test]
fn other_socket_type() {
    for ty in [0, 3, 0xFFFF] {
        let data = packet(0, 0, &handshake(4, 0, ty, 1));
        assert_eq!(refused(&data), (ParseError::UnrecognizedSocketType(ty), 0));
    }
}

#[test]
fn declared_extension_is_missing() {
    for flags in [1, 2, 4] {
        let mut body = handshake(5, 0, flags, -1);
        body.extend_from_slice(&[0, 1, 0]);
        let data = packet(0, 0, &body);
        assert_eq!(refused(&data), (ParseError::ExtensionTooShort, 3));
    }
}

#[test]
fn extension_in_the_wrong_place() {
    for (flags, slot, kinds) in [
        (1, ExtSlot::Handshake, [0, 3]),
        (2, ExtSlot::KeyManager, [2, 5]),
        (4, ExtSlot::Config, [4, 7]),
    ] {
        for kind in kinds {
            let mut body = handshake(5, 0, flags, -1);
            body.extend_from_slice(&[0, kind, 0, 3, 9, 9]);
            let data = packet(0, 0, &body);
            assert_eq!(
                refused(&data),
                (ParseError::UnexpectedExtension(slot, u16::from(kind)), 2)
            );
        }
    }
}

#[test]
fn extension_with_a_short_body() {
    let mut body = handshake(5, 0, 1, -1);
    body.extend_from_slice(&[0, 1, 0, 3]);
    body.extend_from_slice(&[0; 11]);
    let data = packet(0, 0, &body);
    assert_eq!(
        refused(&data),
        (ParseError::Srt(SrtError::HandshakeTooShort), 11)
    );
}

#[test]
fn short_ack() {
    let data = packet(2, 0, &[0; 23]);
    assert_eq!(refused(&data), (ParseError::AckTooShort, 23));
}

#[test]
fn short_drop_request() {
    let data = packet(7, 0, &[0; 7]);
    assert_eq!(refused(&data), (ParseError::DropRequestTooShort, 7));
}

#[test]
fn other_control_type() {
    for kind in [4, 8, 0xFF, 0x7FFE] {
        let data = packet(kind, 0, &[1, 2]);
        assert_eq!(
            refused(&data),
            (ParseError::UnrecognizedControlType(kind), 2)
        );
    }
}

#[test]
fn other_srt_type() {
    let data = packet(0x7FFF, 7, &[1, 2]);
    assert_eq!(
        refused(&data),
        (ParseError::Srt(SrtError::UnrecognizedType(7)), 2)
    );
}

/// A key message with one or two keys of 16 bytes and a salt of 4.
fn key_message(flags: u8) -> Vec<u8> {
    let keys = if flags == 3 { 2 } else { 1 };
    let mut v = vec![0x12, 0x20, 0x29, flags, 0, 0, 0, 7, 2, 0, 2, 0, 0, 0, 1, 4];
    v.extend_from_slice(&[0xA, 0xB, 0xC, 0xD]);
    for k in 0..16 * keys {
        v.push(k);
    }
    v.extend_from_slice(&[8, 7, 6, 5, 4, 3, 2, 1]);
    v
}

#[test]
fn bad_key_messages() {
    let good = key_message(3);
    let refused = |data: &[u8]| {
        let mut buf = data;
        let e = SrtKeyMessage::parse(&mut buf).unwrap_err();
        (e, data.len() - buf.len())
    };
    assert_eq!(refused(&good[..15]), (SrtError::KeyMessageTooShort, 0));
    assert_eq!(
        refused(&good[..good.len() - 1]),
        (SrtError::KeysTooShort, 16)
    );

    let mut data = good.clone();
    data[0] = 0x92;
    assert_eq!(refused(&data), (SrtError::UnrecognizedKeyVersion(9), 16));

    let mut data = good.clone();
    data[8] = 4;
    assert_eq!(refused(&data), (SrtError::UnrecognizedCipher(4), 16));

    let mut data = good.clone();
    data[3] = 0xFC;
    assert_eq!(refused(&data), (SrtError::NoKeys, 16));

    let mut data = good.clone();
    data[15] = 5;
    assert_eq!(refused(&data), (SrtError::InvalidKeyLength(20), 16));
}

#[test]
fn key_message_with_two_keys() {
    let data = key_message(3);
    let mut buf = &data[..];
    let m = SrtKeyMessage::parse(&mut buf).unwrap();
    assert!(buf.is_empty());
    assert_eq!(m.pt, 2);
    assert_eq!(m.sign, 0x2029);
    assert_eq!(m.keki, 7);
    assert_eq!(m.cipher, CipherType::CTR);
    assert_eq!(m.salt, vec![0xA, 0xB, 0xC, 0xD]);
    assert_eq!(m.even_key, Some((0..16).collect()));
    assert_eq!(m.odd_key, Some((16..32).collect()));
    assert_eq!(m.wrap_data, [8, 7, 6, 5, 4, 3, 2, 1]);
    assert_eq!(m.size_words(), 15);

    let mut out = vec![];
    m.serialize(&mut out);
    assert_eq!(out, data);
}

#[test]
fn key_message_with_an_odd_key() {
    let data = key_message(2);
    let m = SrtKeyMessage::parse(&mut &data[..]).unwrap();
    assert_eq!(m.even_key, None);
    assert_eq!(m.odd_key, Some((0..16).collect()));
    assert_eq!(m.size_words(), 11);
    let p = SrtControlPacket::KeyManagerResponse(m);
    assert_eq!(p.type_id(), 4);
    assert_eq!(p.size_words(), 11);
}

#[test]
fn short_srt_handshake() {
    let mut buf = &[0u8; 11][..];
    assert_eq!(
        SrtHandshake::parse(&mut buf),
        Err(SrtError::HandshakeTooShort)
    );
    assert_eq!(buf.len(), 11);
}

#[test]
fn unknown_shake_flags_are_dropped() {
    let data = [0, 1, 3, 1, 0xFF, 0xFF, 0xFF, 0xC2, 0, 1, 0, 2];
    let h = SrtHandshake::parse(&mut &data[..]).unwrap();
    assert_eq!(h.flags.bits, 2);
}

#[test]
fn numbers_of_enums() {
    assert_eq!(SocketType::from_u16(1), Ok(SocketType::Stream));
    assert_eq!(SocketType::from_u16(2), Ok(SocketType::Datagram));
    assert_eq!(SocketType::from_u16(0), Err(0));
    assert_eq!(SocketType::from_u16(3), Err(3));
    assert_eq!(ShakeType::from_i32(1), Ok(ShakeType::Induction));
    assert_eq!(ShakeType::from_i32(0), Ok(ShakeType::Waveahand));
    assert_eq!(ShakeType::from_i32(-1), Ok(ShakeType::Conclusion));
    assert_eq!(ShakeType::from_i32(-2), Ok(ShakeType::Agreement));
    assert_eq!(ShakeType::from_i32(2), Err(2));
    assert_eq!(ShakeType::from_i32(-3), Err(-3));
    for n in 0..4 {
        assert_eq!(CipherType::from_u8(n).unwrap().to_u8(), n);
    }
    assert_eq!(CipherType::from_u8(4), Err(4));
}

#[test]
fn field_of_a_nak() {
    let data = packet(3, 0, &[0x80, 0, 0, 1, 0xFF, 0xFF, 0xFF, 0xFF, 5, 6, 7]);
    let mut buf = &data[..];
    let p = ControlPacket::parse(&mut buf).unwrap();
    assert_eq!(
        p.control_type,
        ControlTypes::Nak(vec![0x8000_0001, 0xFFFF_FFFF])
    );
    assert_eq!(buf, &[5, 6, 7]);
}
