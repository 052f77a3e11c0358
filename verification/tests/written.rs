//! Packets that are written, and what is read back of them.
use srt_control::{
    ControlPacket, ControlTypes, HandshakeControlInfo, HandshakeVSInfo, IpAddr, MsgNumber,
    SeqNumber, ShakeType, SocketID, SocketType, SrtControlPacket, SrtHandshake, SrtShakeFlags,
    SrtVersion,
};

fn packet(control_type: ControlTypes) -> ControlPacket {
    ControlPacket {
        timestamp: -2,
        dest_sockid: SocketID(0xFEDC_BA98),
        control_type,
    }
}

fn written(p: &ControlPacket) -> Vec<u8> {
    let mut v = vec![];
    p.serialize(&mut v);
    v
}

fn handshake(
    shake_type: ShakeType,
    peer_addr: IpAddr,
    info: HandshakeVSInfo,
) -> HandshakeControlInfo {
    HandshakeControlInfo {
        init_seq_num: SeqNumber(0x7FFF_FFFF),
        max_packet_size: 1,
        max_flow_size: 2,
        shake_type,
        socket_id: SocketID(3),
        syn_cookie: i32::MIN,
        peer_addr,
        info,
    }
}

fn v5(crypto_size: u8) -> HandshakeVSInfo {
    HandshakeVSInfo::V5 {
        crypto_size,
        ext_hs: None,
        ext_km: None,
        ext_config: None,
    }
}

const LOCALHOST: IpAddr = IpAddr::V4([127, 0, 0, 1]);

#[test]
fn header_of_a_keep_alive() {
    let data = written(&packet(ControlTypes::KeepAlive));
    assert_eq!(
        data,
        vec![
            0x80, 1, 0, 0, 0, 0, 0, 0, 0xFF, 0xFF, 0xFF, 0xFE, 0xFE, 0xDC, 0xBA, 0x98
        ]
    );
}

#[test]
fn packets_are_appended() {
    let mut v = vec![1, 2, 3];
    packet(ControlTypes::Shutdown).serialize(&mut v);
    assert_eq!(&v[..5], &[1, 2, 3, 0x80, 5]);
    assert_eq!(v.len(), 19);
}

#[test]
fn packets_read_back_whatever_follows() {
    let srt = SrtHandshake {
        version: SrtVersion::new(1, 2, 3),
        flags: SrtShakeFlags::from_bits_truncate(SrtShakeFlags::HAICRYPT),
        peer_latency: 0xFFFF,
        latency: 1,
    };
    let with_config = HandshakeVSInfo::V5 {
        crypto_size: 32,
        ext_hs: None,
        ext_km: None,
        ext_config: Some(SrtControlPacket::Smoother),
    };
    let with_sid = HandshakeVSInfo::V5 {
        crypto_size: 24,
        ext_hs: Some(SrtControlPacket::HandshakeRequest(srt)),
        ext_km: None,
        ext_config: Some(SrtControlPacket::Sid),
    };
    for (control_type, unread) in [
        (ControlTypes::KeepAlive, 0),
        (ControlTypes::Shutdown, 0),
        (ControlTypes::Ack2(-1), 4),
        (ControlTypes::Srt(SrtControlPacket::Reject), 0),
        (ControlTypes::Srt(SrtControlPacket::HandshakeResponse(srt)), 0),
        (
            ControlTypes::Handshake(handshake(ShakeType::Agreement, LOCALHOST, with_config)),
            0,
        ),
        (
            ControlTypes::Handshake(handshake(ShakeType::Conclusion, LOCALHOST, with_sid)),
            0,
        ),
        (
            ControlTypes::Handshake(handshake(ShakeType::Induction, LOCALHOST, v5(16))),
            0,
        ),
        (
            ControlTypes::Handshake(handshake(
                ShakeType::Waveahand,
                IpAddr::V4([0, 0, 0, 0]),
                HandshakeVSInfo::V4(SocketType::Datagram),
            )),
            0,
        ),
    ] {
        let p = packet(control_type);
        let mut data = written(&p);
        data.extend_from_slice(&[7; 9]);
        let mut buf = &data[..];
        assert_eq!(ControlPacket::parse(&mut buf).unwrap(), p);
        assert_eq!(buf.len(), 9 + unread);
    }
}

#[test]
fn nak_reads_back() {
    for words in [vec![], vec![0], vec![1, 0x8000_0000, u32::MAX]] {
        let p = packet(ControlTypes::Nak(words));
        let mut data = written(&p);
        data.extend_from_slice(&[7; 3]);
        let mut buf = &data[..];
        assert_eq!(ControlPacket::parse(&mut buf).unwrap(), p);
        assert_eq!(buf, &[7; 3]);
    }
}

#[test]
fn unknown_parts_of_an_ack_get_defaults() {
    let p = packet(ControlTypes::Ack {
        ack_seq_num: 9,
        ack_number: SeqNumber(8),
        rtt: None,
        rtt_variance: None,
        buffer_available: None,
        packet_recv_rate: None,
        est_link_cap: None,
    });
    assert_eq!(
        ControlPacket::parse(&mut &written(&p)[..]).unwrap(),
        packet(ControlTypes::Ack {
            ack_seq_num: 9,
            ack_number: SeqNumber(8),
            rtt: Some(10_000),
            rtt_variance: Some(50_000),
            buffer_available: Some(8175),
            packet_recv_rate: Some(10_000),
            est_link_cap: Some(1_000),
        })
    );
}

#[test]
fn addresses() {
    let at = |addr: IpAddr| {
        let p = packet(ControlTypes::Handshake(handshake(
            ShakeType::Induction,
            addr,
            v5(0),
        )));
        let data = written(&p);
        let read = match ControlPacket::parse(&mut &data[..]).unwrap().control_type {
            ControlTypes::Handshake(c) => c.peer_addr,
            _ => unreachable!(),
        };
        (data[48..64].to_vec(), read)
    };

    let (bytes, read) = at(IpAddr::V4([192, 168, 0, 1]));
    assert_eq!(bytes, vec![1, 0, 168, 192, 0, 0, 0, 0, 0, 0, 0, 0, 0, 0, 0, 0]);
    assert_eq!(read, IpAddr::V4([192, 168, 0, 1]));

    // the octets of an IPv6 address are written backwards, and read as they come
    let forward = [0, 1, 2, 3, 4, 5, 6, 7, 8, 9, 10, 11, 12, 13, 14, 15];
    let backward = [15, 14, 13, 12, 11, 10, 9, 8, 7, 6, 5, 4, 3, 2, 1, 0];
    let (bytes, read) = at(IpAddr::V6(forward));
    assert_eq!(bytes, backward.to_vec());
    assert_eq!(read, IpAddr::V6(backward));

    let symmetric = [1, 2, 3, 4, 5, 6, 7, 8, 8, 7, 6, 5, 4, 3, 2, 1];
    assert_eq!(at(IpAddr::V6(symmetric)).1, IpAddr::V6(symmetric));

    // nothing tells this one from an IPv4 address
    assert_eq!(at(IpAddr::V6([0; 16])).1, IpAddr::V4([0; 4]));
}

#[test]
fn second_word_of_a_handshake() {
    let ext = Some(SrtControlPacket::Sid);
    assert_eq!(
        HandshakeVSInfo::V4(SocketType::Stream).type_flags(ShakeType::Induction),
        1
    );
    assert_eq!(
        HandshakeVSInfo::V4(SocketType::Datagram).type_flags(ShakeType::Conclusion),
        2
    );
    assert_eq!(v5(24).type_flags(ShakeType::Induction), 0x3_4A17);
    assert_eq!(v5(24).type_flags(ShakeType::Conclusion), 0x3_0000);
    assert_eq!(v5(7).type_flags(ShakeType::Conclusion), 0);
    for (flags, hs, km, config) in [(1, true, false, false), (2, false, true, false), (7, true, true, true)] {
        let info = HandshakeVSInfo::V5 {
            crypto_size: 16,
            ext_hs: if hs { ext.clone() } else { None },
            ext_km: if km { ext.clone() } else { None },
            ext_config: if config { ext.clone() } else { None },
        };
        assert_eq!(info.type_flags(ShakeType::Conclusion), 0x2_0000 + flags);
        assert_eq!(info.version(), 5);
    }
    assert_eq!(HandshakeVSInfo::V4(SocketType::Stream).version(), 4);
}

#[test]
fn crypto_sizes() {
    for (field, size) in [(0, 0), (1, 0), (2, 16), (3, 24), (4, 32), (5, 0), (0x2002, 16), (0xFFFF, 0)] {
        let mut data = written(&packet(ControlTypes::Handshake(handshake(
            ShakeType::Induction,
            LOCALHOST,
            v5(0),
        ))));
        data[20..22].copy_from_slice(&u16::to_be_bytes(field));
        match ControlPacket::parse(&mut &data[..]).unwrap().control_type {
            ControlTypes::Handshake(c) => assert_eq!(c.info, v5(size)),
            _ => unreachable!(),
        }
    }
}

#[test]
fn magic_code_and_unknown_flags_do_not_matter() {
    let p = packet(ControlTypes::Handshake(handshake(
        ShakeType::Induction,
        LOCALHOST,
        v5(0),
    )));
    let mut data = written(&p);
    assert_eq!(&data[20..24], &[0, 0, 0x4A, 0x17]);
    data[22..24].copy_from_slice(&[0, 7]);
    assert_eq!(ControlPacket::parse(&mut &data[..]).unwrap(), p);

    let p = packet(ControlTypes::Handshake(handshake(
        ShakeType::Conclusion,
        LOCALHOST,
        v5(0),
    )));
    let mut data = written(&p);
    data[22..24].copy_from_slice(&[0xFF, 0xF8]);
    assert_eq!(ControlPacket::parse(&mut &data[..]).unwrap(), p);
}

#[test]
fn first_bit_does_not_matter() {
    let p = packet(ControlTypes::Ack2(5));
    let mut data = written(&p);
    assert_eq!(data[0], 0x80);
    data[0] = 0;
    assert_eq!(ControlPacket::parse(&mut &data[..]).unwrap(), p);
}

#[test]
fn drop_request_is_read() {
    let data = [
        0x80, 7, 0, 0, 0xFF, 0xFF, 0xFF, 0xFE, 0, 0, 0, 1, 0, 0, 0, 2, 0x80, 0, 0, 3, 0, 0, 0, 4,
    ];
    let p = ControlPacket::parse(&mut &data[..]).unwrap();
    assert_eq!(
        p,
        ControlPacket {
            timestamp: 1,
            dest_sockid: SocketID(2),
            control_type: ControlTypes::DropRequest {
                msg_to_drop: MsgNumber(0x3FF_FFFE),
                first: SeqNumber(3),
                last: SeqNumber(4),
            },
        }
    );
    assert_eq!(p.control_type.id_byte(), 7);
    assert_eq!(p.control_type.additional_info(), 0x3FF_FFFE);
    assert_eq!(p.control_type.reserved(), 0);
}

#[test]
fn srt_packet_uses_the_reserved_half_word() {
    let c = ControlTypes::Srt(SrtControlPacket::Smoother);
    assert_eq!(c.id_byte(), 0x7FFF);
    assert_eq!(c.reserved(), 6);
    assert_eq!(c.additional_info(), 0);
    assert_eq!(&written(&packet(c))[..4], &[0xFF, 0xFF, 0, 6]);
}

#[test]
fn versions_and_numbers() {
    assert_eq!(SrtVersion::current(), SrtVersion::new(1, 3, 1));
    assert_eq!(SrtVersion::new(1, 3, 1).to_u32(), 0x0001_0301);
    assert_eq!(SrtVersion::parse(0xFF01_0301), SrtVersion::new(1, 3, 1));
    assert_eq!(SeqNumber::new_truncate(0x8000_0005).as_raw(), 5);
    assert_eq!(MsgNumber::new_truncate(0x0400_0005).as_raw(), 5);
}
