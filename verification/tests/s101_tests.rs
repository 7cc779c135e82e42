use emberplus::ember::EmberPacket;
use emberplus::s101::{Decoded, EscapingS101Frame, Flags, NonEscapingS101Frame, S101Frame};

#[test]
fn escaping_encoding_works() {
    let packet = EmberPacket::new(Flags::SinglePacket, 2, 5, vec![0; 10]);
    let frame = EscapingS101Frame::EmberPacket(packet);
    let output = frame.encode();
    assert_eq!(
        vec![254, 0, 14, 0, 1, 192, 1, 2, 5, 2, 0, 0, 0, 0, 0, 0, 0, 0, 0, 0, 107, 240, 255],
        output
    );
}

#[test]
fn non_escaping_encoding_works() {
    let mut packet = EmberPacket::new(Flags::SinglePacket, 2, 5, vec![0; 10]);
    packet.set_flag(Flags::SinglePacket);
    let frame = NonEscapingS101Frame::EmberPacket(packet);
    let output = frame.encode();
    assert_eq!(
        vec![
            0xF8, 0x01, 0x13, 0x00, 0x0E, 0x00, 0x01, 0xC0, 0x01, 0x02, 0x05, 0x02, 0x00, 0x00,
            0x00, 0x00, 0x00, 0x00, 0x00, 0x00, 0x00, 0x00,
        ],
        output
    );
}

#[test]
fn escaping_decoding_works() {
    let data = vec![
        254, 0, 14, 0, 1, 192, 1, 2, 5, 2, 0, 0, 0, 0, 0, 0, 0, 0, 0, 0, 107, 240, 255,
    ];
    let mut packet = EmberPacket::new(Flags::SinglePacket, 2, 5, vec![0; 10]);
    packet.set_flag(Flags::SinglePacket);
    let frame = EscapingS101Frame::EmberPacket(packet);
    match S101Frame::decode(&data) {
        Ok(Decoded::Frame(decoded, consumed)) => {
            assert_eq!(S101Frame::Escaping(frame), decoded);
            assert_eq!(data.len(), consumed);
        }
        other => panic!("expected a frame, got {:?}", other.is_ok()),
    }
}

#[test]
fn non_escaping_decoding_works() {
    let data = vec![
        0xF8, 0x01, 0x13, 0x00, 0x0E, 0x00, 0x01, 0xC0, 0x01, 0x02, 0x05, 0x02, 0x00, 0x00, 0x00,
        0x00, 0x00, 0x00, 0x00, 0x00, 0x00, 0x00,
    ];
    let mut packet = EmberPacket::new(Flags::SinglePacket, 2, 5, vec![0; 10]);
    packet.set_flag(Flags::SinglePacket);
    let frame = NonEscapingS101Frame::EmberPacket(packet);
    match S101Frame::decode(&data) {
        Ok(Decoded::Frame(decoded, consumed)) => {
            assert_eq!(S101Frame::NonEscaping(frame), decoded);
            assert_eq!(data.len(), consumed);
        }
        other => panic!("expected a frame, got {:?}", other.is_ok()),
    }
}

#[test]
fn get_directory_frame_bytes_are_exact() {
    // the BER encoding of a bare GetDirectory(All) command wrapped as a
    // single-packet escaping frame
    let ber: Vec<u8> = vec![
        0x60, 0x10, 0x6b, 0x0e, 0xa0, 0x0c, 0x62, 0x0a, 0xa0, 0x03, 0x02, 0x01, 0x20, 0xa1, 0x03,
        0x02, 0x01, 0xff,
    ];
    let packets = emberplus::glow::to_packets(&ber);
    assert_eq!(1, packets.len());
    assert_eq!(Flags::SinglePacket, packets[0].flag());
    let frame = EscapingS101Frame::EmberPacket(packets.into_iter().next().unwrap());
    let output = frame.encode();
    let expected: Vec<u8> = vec![
        0xfe, 0x00, 0x0e, 0x00, 0x01, 0xc0, 0x01, 0x02, 0x32, 0x02, 0x60, 0x10, 0x6b, 0x0e, 0xa0,
        0x0c, 0x62, 0x0a, 0xa0, 0x03, 0x02, 0x01, 0x20, 0xa1, 0x03, 0x02, 0x01, 0xfd, 0xdf, 0x14,
        0xcc, 0xff,
    ];
    assert_eq!(expected, output);
}

#[test]
fn escaping_round_trip_with_escaped_bytes() {
    // a payload full of bytes that need escaping
    let payload: Vec<u8> = vec![0xF8, 0xFE, 0xFF, 0xFD, 0x00, 0x42, 0xFC];
    let packet = EmberPacket::new(Flags::SinglePacket, 2, 50, payload);
    let frame = EscapingS101Frame::EmberPacket(packet.clone());
    let wire = frame.encode();
    match S101Frame::decode(&wire) {
        Ok(Decoded::Frame(decoded, consumed)) => {
            assert_eq!(S101Frame::Escaping(EscapingS101Frame::EmberPacket(packet)), decoded);
            assert_eq!(wire.len(), consumed);
        }
        _ => panic!("round trip failed"),
    }
}

#[test]
fn keepalive_frames_round_trip_in_both_modes() {
    for frame in [
        S101Frame::Escaping(EscapingS101Frame::KeepaliveRequest),
        S101Frame::Escaping(EscapingS101Frame::KeepaliveResponse),
        S101Frame::NonEscaping(NonEscapingS101Frame::KeepaliveRequest),
        S101Frame::NonEscaping(NonEscapingS101Frame::KeepaliveResponse),
    ] {
        let wire = frame.encode();
        match S101Frame::decode(&wire) {
            Ok(Decoded::Frame(decoded, consumed)) => {
                assert_eq!(frame, decoded);
                assert_eq!(wire.len(), consumed);
            }
            _ => panic!("keepalive round trip failed"),
        }
    }
}

#[test]
fn single_bit_flips_are_rejected() {
    // flipping any single bit inside the escaped region of a valid frame
    // must not yield the same frame back: almost always the CRC rejects
    // it; a flip may at best turn the frame into a different error
    let packet = EmberPacket::new(Flags::SinglePacket, 2, 50, vec![1, 2, 3, 4, 5]);
    let frame = EscapingS101Frame::EmberPacket(packet);
    let wire = frame.encode();
    let original = S101Frame::Escaping(frame);
    for byte_idx in 1..wire.len() - 1 {
        for bit in 0..8 {
            let mut corrupted = wire.clone();
            corrupted[byte_idx] ^= 1u8 << bit;
            match S101Frame::decode(&corrupted) {
                Ok(Decoded::Frame(decoded, _)) => {
                    assert_ne!(
                        original, decoded,
                        "flip of bit {} in byte {} went unnoticed",
                        bit, byte_idx
                    );
                }
                _ => {}
            }
        }
    }
}

#[test]
fn empty_non_escaping_frame_is_skipped() {
    match S101Frame::decode(&[0xF8, 0x00]) {
        Ok(Decoded::Empty(n)) => assert_eq!(2, n),
        _ => panic!("expected an empty frame"),
    }
}

#[test]
fn invalid_start_byte_is_an_error() {
    assert!(S101Frame::decode(&[0x42, 0x00]).is_err());
}

#[test]
fn invalid_crc_is_an_error() {
    let packet = EmberPacket::new(Flags::SinglePacket, 2, 50, vec![9, 9, 9]);
    let frame = EscapingS101Frame::EmberPacket(packet);
    let mut wire = frame.encode();
    let idx = wire.len() - 2;
    wire[idx] ^= 0x01;
    assert!(S101Frame::decode(&wire).is_err());
}

#[test]
fn incomplete_frames_ask_for_more_data() {
    let packet = EmberPacket::new(Flags::SinglePacket, 2, 50, vec![7; 20]);
    let esc = EscapingS101Frame::EmberPacket(packet.clone()).encode();
    for cut in 1..esc.len() {
        match S101Frame::decode(&esc[..cut]) {
            Ok(Decoded::Incomplete) => {}
            other => panic!("cut at {} gave {:?}", cut, other.is_ok()),
        }
    }
    let ne = NonEscapingS101Frame::EmberPacket(packet).encode();
    for cut in 1..ne.len() {
        match S101Frame::decode(&ne[..cut]) {
            Ok(Decoded::Incomplete) => {}
            other => panic!("cut at {} gave {:?}", cut, other.is_ok()),
        }
    }
}

#[test]
fn length_boundary_frames_round_trip() {
    // frame body lengths at one and two length-octet boundaries: bodies of
    // 255, 256 and 65535 bytes (payloads nine bytes shorter)
    for payload_len in [0usize, 1, 246, 247, 65526] {
        let packet = EmberPacket::new(Flags::SinglePacket, 2, 50, vec![0xAB; payload_len]);
        let frame = NonEscapingS101Frame::EmberPacket(packet.clone());
        let wire = frame.encode();
        match S101Frame::decode(&wire) {
            Ok(Decoded::Frame(decoded, consumed)) => {
                if payload_len > 0 {
                    assert_eq!(
                        S101Frame::NonEscaping(NonEscapingS101Frame::EmberPacket(packet)),
                        decoded
                    );
                }
                assert_eq!(wire.len(), consumed);
            }
            _ => {
                // a packet without payload bytes is below the minimum
                // packet length and is rejected on decode
                assert_eq!(0, payload_len);
            }
        }
    }
}

#[test]
fn stray_bof_inside_a_frame_is_an_error() {
    assert!(S101Frame::decode(&[0xFE, 0x01, 0x02, 0xFE, 0xFF]).is_err());
}

#[test]
fn unknown_command_byte_is_an_error() {
    // a frame with a passing CRC whose command byte is outside the three
    // known commands
    let wire = [0xFE, 0x00, 0x0E, 0x03, 0x01, 0x24, 0xD7, 0xFF];
    assert!(S101Frame::decode(&wire).is_err());
}

#[test]
fn zero_length_non_escaping_frame_is_skipped() {
    match S101Frame::decode(&[0xF8, 0x01, 0x00]) {
        Ok(Decoded::Empty(n)) => assert_eq!(3, n),
        _ => panic!("expected an empty frame"),
    }
}

#[test]
fn oversized_length_octet_count_is_an_error() {
    assert!(S101Frame::decode(&[0xF8, 0x09, 0x00]).is_err());
}
