//! Packets through the wire, and packets from the wire.
use srt_control::{
    CipherType, ControlPacket, ControlTypes, HandshakeControlInfo, HandshakeVSInfo, IpAddr,
    SeqNumber, ShakeType, SocketID, SrtControlPacket, SrtHandshake, SrtKeyMessage, SrtShakeFlags,
    SrtVersion,
};

#[test]
fn handshake_ser_des_test() {
    let pack = ControlPacket {
        timestamp: 0,
        dest_sockid: SocketID(0),
        control_type: ControlTypes::Handshake(HandshakeControlInfo {
            init_seq_num: SeqNumber::new_truncate(1_827_131),
            max_packet_size: 1500,
            max_flow_size: 25600,
            shake_type: ShakeType::Conclusion,
            socket_id: SocketID(1231),
            syn_cookie: 0,
            // 127.0.0.1
            peer_addr: IpAddr::V4([127, 0, 0, 1]),
            info: HandshakeVSInfo::V5 {
                crypto_size: 0,
                ext_hs: Some(SrtControlPacket::HandshakeResponse(SrtHandshake {
                    version: SrtVersion::current(),
                    flags: SrtShakeFlags::from_bits_truncate(
                        SrtShakeFlags::NAKREPORT | SrtShakeFlags::TSBPDSND,
                    ),
                    peer_latency: 3000,
                    latency: 12345,
                })),
                ext_km: None,
                ext_config: None,
            },
        }),
    };

    let mut buf = vec![];
    pack.serialize(&mut buf);

    let des = ControlPacket::parse(&mut &buf[..]).unwrap();

    assert_eq!(pack, des);
}

#[test]
fn ack_ser_des_test() {
    let pack = ControlPacket {
        timestamp: 113_703,
        dest_sockid: SocketID(2_453_706_529),
        control_type: ControlTypes::Ack {
            ack_seq_num: 1,
            ack_number: SeqNumber::new_truncate(282_049_186),
            rtt: Some(10_002),
            rtt_variance: Some(1000),
            buffer_available: Some(1314),
            packet_recv_rate: Some(0),
            est_link_cap: Some(0),
        },
    };

    let mut buf = vec![];
    pack.serialize(&mut buf);

    let des = ControlPacket::parse(&mut &buf[..]).unwrap();

    assert_eq!(pack, des);
}

#[test]
fn ack2_ser_des_test() {
    let pack = ControlPacket {
        timestamp: 125_812,
        dest_sockid: SocketID(8313),
        control_type: ControlTypes::Ack2(831),
    };
    assert_eq!(pack.control_type.additional_info(), 831);

    let mut buf = vec![];
    pack.serialize(&mut buf);

    // dword 2 should have 831 in big endian, so the last two bits of the second dword
    assert_eq!((u32::from(buf[6]) << 8) + u32::from(buf[7]), 831);

    let des = ControlPacket::parse(&mut &buf[..]).unwrap();

    assert_eq!(pack, des);
}

#[test]
fn raw_srt_packet_test() {
    // a SRT reject message
    let packet_data =
        hex::decode("FFFF000000000000000189702BFFEFF2000103010000001E00000078").unwrap();

    let packet = ControlPacket::parse(&mut &packet_data[..]).unwrap();

    assert_eq!(
        packet,
        ControlPacket {
            timestamp: 100_720,
            dest_sockid: SocketID(738_193_394),
            control_type: ControlTypes::Srt(SrtControlPacket::Reject)
        }
    )
}

#[test]
fn raw_handshake_srt() {
    // an example HSv5 conclusion packet
    let packet_data = hex::decode("8000000000000000000F9EC400000000000000050000000144BEA60D000005DC00002000FFFFFFFF3D6936B6E3E405DD0100007F00000000000000000000000000010003000103010000002F00780000").unwrap();
    let packet = ControlPacket::parse(&mut &packet_data[..]).unwrap();
    assert_eq!(
        packet,
        ControlPacket {
            timestamp: 1_023_684,
            dest_sockid: SocketID(0),
            control_type: ControlTypes::Handshake(HandshakeControlInfo {
                init_seq_num: SeqNumber(1_153_345_037),
                max_packet_size: 1500,
                max_flow_size: 8192,
                shake_type: ShakeType::Conclusion,
                socket_id: SocketID(1_030_305_462),
                syn_cookie: -471_595_555,
                // 127.0.0.1
                peer_addr: IpAddr::V4([127, 0, 0, 1]),
                info: HandshakeVSInfo::V5 {
                    crypto_size: 0,
                    ext_hs: Some(SrtControlPacket::HandshakeRequest(SrtHandshake {
                        version: SrtVersion::new(1, 3, 1),
                        flags: SrtShakeFlags::from_bits_truncate(
                            SrtShakeFlags::TSBPDSND
                                | SrtShakeFlags::TSBPDRCV
                                | SrtShakeFlags::HAICRYPT
                                | SrtShakeFlags::TLPKTDROP
                                | SrtShakeFlags::REXMITFLG
                        ),
                        peer_latency: 120,
                        latency: 0
                    })),
                    ext_km: None,
                    ext_config: None
                }
            })
        }
    );

    // reserialize it
    let mut buf = vec![];
    packet.serialize(&mut buf);

    assert_eq!(&buf[..], &packet_data[..]);
}

#[test]
fn raw_handshake_crypto() {
    // an example HSv5 conclusion packet that has crypto data embedded.
    let packet_data = hex::decode("800000000000000000175E8A0000000000000005000000036FEFB8D8000005DC00002000FFFFFFFF35E790ED5D16CCEA0100007F00000000000000000000000000010003000103010000002F01F401F40003000E122029010000000002000200000004049D75B0AC924C6E4C9EC40FEB4FE973DB1D215D426C18A2871EBF77E2646D9BAB15DBD7689AEF60EC").unwrap();
    let packet = ControlPacket::parse(&mut &packet_data[..]).unwrap();

    assert_eq!(
        packet,
        ControlPacket {
            timestamp: 1_531_530,
            dest_sockid: SocketID(0),
            control_type: ControlTypes::Handshake(HandshakeControlInfo {
                init_seq_num: SeqNumber(1_877_981_400),
                max_packet_size: 1_500,
                max_flow_size: 8_192,
                shake_type: ShakeType::Conclusion,
                socket_id: SocketID(904_368_365),
                syn_cookie: 1_561_775_338,
                // 127.0.0.1
                peer_addr: IpAddr::V4([127, 0, 0, 1]),
                info: HandshakeVSInfo::V5 {
                    crypto_size: 0,
                    ext_hs: Some(SrtControlPacket::HandshakeRequest(SrtHandshake {
                        version: SrtVersion::new(1, 3, 1),
                        flags: SrtShakeFlags::from_bits_truncate(
                            SrtShakeFlags::TSBPDSND
                                | SrtShakeFlags::TSBPDRCV
                                | SrtShakeFlags::HAICRYPT
                                | SrtShakeFlags::TLPKTDROP
                                | SrtShakeFlags::REXMITFLG
                        ),
                        peer_latency: 500,
                        latency: 500
                    })),
                    ext_km: Some(SrtControlPacket::KeyManagerRequest(SrtKeyMessage {
                        pt: 2,
                        sign: 8_233,
                        keki: 0,
                        cipher: CipherType::CTR,
                        auth: 0,
                        se: 2,
                        salt: hex::decode("9D75B0AC924C6E4C9EC40FEB4FE973DB").unwrap(),
                        even_key: Some(
                            hex::decode("1D215D426C18A2871EBF77E2646D9BAB").unwrap()
                        ),
                        odd_key: None,
                        wrap_data: *b"\x15\xDB\xD7\x68\x9A\xEF\x60\xEC",
                    })),
                    ext_config: None
                }
            })
        }
    );

    let mut buf = vec![];
    packet.serialize(&mut buf);

    assert_eq!(&buf[..], &packet_data[..])
}

#[test]
fn raw_handshake_crypto_pt2() {
    let packet_data = hex::decode("8000000000000000000000000C110D94000000050000000374B7526E000005DC00002000FFFFFFFF18C1CED1F3819B720100007F00000000000000000000000000020003000103010000003F03E803E80004000E12202901000000000200020000000404D3B3D84BE1188A4EBDA4DA16EA65D522D82DE544E1BE06B6ED8128BF15AA4E18EC50EAA95546B101").unwrap();
    let _packet = ControlPacket::parse(&mut &packet_data[..]).unwrap();
}
