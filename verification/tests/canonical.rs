//! Bytes that are read and written again, and warnings about bytes.
use srt_control::{ControlPacket, HandshakeControlInfo, HandshakeWarnings};

/// What comes out when the bytes are read and written again.
fn again(data: &[u8]) -> Vec<u8> {
    let mut out = vec![];
    ControlPacket::parse(&mut &data[..])
        .unwrap()
        .serialize(&mut out);
    out
}

fn handshake(version: u8, crypto: u16, flags: u16, stage: i32, addr: [u8; 16]) -> Vec<u8> {
    let mut v = vec![0x80, 0, 0, 0, 0, 0, 0, 0, 1, 2, 3, 4, 5, 6, 7, 8];
    v.extend_from_slice(&[0, 0, 0, version]);
    v.extend_from_slice(&crypto.to_be_bytes());
    v.extend_from_slice(&flags.to_be_bytes());
    v.extend_from_slice(&[0x7F, 0xFF, 0xFF, 0xFF, 1, 2, 3, 4, 5, 6, 7, 8]);
    v.extend_from_slice(&stage.to_be_bytes());
    v.extend_from_slice(&[9, 10, 11, 12, 13, 14, 15, 16]);
    v.extend_from_slice(&addr);
    v
}

const V4: [u8; 16] = [1, 0, 0, 127, 0, 0, 0, 0, 0, 0, 0, 0, 0, 0, 0, 0];

#[test]
fn canonical_packets_come_out_the_same() {
    let mut packets = vec![
        // a keep-alive, a shutdown, an ACK2, a NAK, an ack and an SRT reject
        hex::decode("80010000000000000000000100000002").unwrap(),
        hex::decode("80050000000000000000000100000002").unwrap(),
        hex::decode("80060000FFFFFFFF000000010000000200000000").unwrap(),
        hex::decode("8003000000000000000000010000000280000001FFFFFFFF").unwrap(),
        hex::decode("800200000000000900000001000000027FFFFFFF0000000280000000FFFFFFFF0000000500000006")
            .unwrap(),
        hex::decode("FFFF0000000000000000000100000002").unwrap(),
        handshake(4, 0, 2, -1, V4),
        handshake(5, 4, 0x4A17, 1, V4),
        handshake(5, 0, 0, -2, [3; 16]),
    ];
    let mut with_sid = handshake(5, 2, 4, -1, V4);
    with_sid.extend_from_slice(&[0, 5, 0, 0]);
    packets.push(with_sid);
    for data in packets {
        assert_eq!(again(&data), data);
    }
}

#[test]
fn other_packets_come_out_canonical() {
    let good = handshake(5, 0, 0x4A17, 1, V4);
    // the first bit, the reserved half word, the crypto size, the magic code, the
    // sequence number, and a byte too many
    let mut bad = vec![];
    for (at, v) in [(0, 0), (3, 1), (7, 1), (21, 1), (23, 0), (24, 0xFF)] {
        let mut data = good.clone();
        data[at] = v;
        bad.push(data);
    }
    let mut data = good.clone();
    data.push(0);
    bad.push(data);
    for data in bad {
        assert_eq!(again(&data), good);
    }
}

fn warnings(
    crypto_length: bool,
    no_magic_code: bool,
    extra_flags: bool,
    length: u16,
    flags: u16,
) -> HandshakeWarnings {
    HandshakeWarnings {
        crypto_length,
        no_magic_code,
        extra_flags,
        length,
        flags,
    }
}

#[test]
fn warnings_of_a_handshake() {
    let none = warnings(false, false, false, 0, 0);
    let of = |data: &[u8]| {
        let w = ControlPacket::warnings(data);
        assert_eq!(w, HandshakeControlInfo::warnings(&data[16..]));
        w
    };
    assert_eq!(
        of(&handshake(5, 2, 0x4A17, 1, V4)),
        warnings(false, false, false, 16, 0x4A17)
    );
    assert_eq!(
        of(&handshake(5, 2, 7, 1, V4)),
        warnings(false, true, false, 16, 7)
    );
    assert_eq!(
        of(&handshake(5, 1, 7, -1, V4)),
        warnings(true, false, false, 8, 7)
    );
    assert_eq!(
        of(&handshake(5, 0x2002, 8, 0, V4)),
        warnings(false, false, true, 16, 8)
    );
    assert_eq!(
        of(&handshake(5, 0xFFFF, 0x4A17, -2, V4)),
        warnings(true, false, true, 0xFFF8, 0x4A17)
    );
    // version 4, no such stage, too short
    assert_eq!(of(&handshake(4, 1, 9, -1, V4)), none);
    assert_eq!(of(&handshake(5, 1, 9, 2, V4)), none);
    assert_eq!(of(&handshake(5, 1, 9, -1, V4)[..63]), none);
}

#[test]
fn no_warnings_of_other_packets() {
    let mut data = handshake(5, 1, 9, -1, V4);
    data[1] = 3;
    assert_eq!(
        ControlPacket::warnings(&data),
        warnings(false, false, false, 0, 0)
    );
}

#[test]
fn unknown_crypto_length_disables_encryption() {
    let data = handshake(5, 1, 0x4A17, 1, V4);
    assert!(ControlPacket::warnings(&data).crypto_length);
    assert_eq!(again(&data), handshake(5, 0, 0x4A17, 1, V4));
}
