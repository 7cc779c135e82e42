use emberplus::ember::EmberPacket;
use emberplus::glow::{from_packets, packet_count, to_packets};
use emberplus::s101::Flags;

#[test]
fn packet_count_is_calculated_correctly() {
    let payload = [];
    assert_eq!(0, packet_count(&payload));

    let payload = [0; 1];
    assert_eq!(1, packet_count(&payload));

    let payload = [0; 10];
    assert_eq!(1, packet_count(&payload));

    let payload = [0; 100];
    assert_eq!(1, packet_count(&payload));

    let payload = [0; 1000];
    assert_eq!(1, packet_count(&payload));

    let payload = [0; 1024];
    assert_eq!(1, packet_count(&payload));

    let payload = [0; 1025];
    assert_eq!(2, packet_count(&payload));

    let payload = [0; 2047];
    assert_eq!(2, packet_count(&payload));

    let payload = [0; 2048];
    assert_eq!(2, packet_count(&payload));

    let payload = [0; 2049];
    assert_eq!(3, packet_count(&payload));

    let payload = [0; 3071];
    assert_eq!(3, packet_count(&payload));

    let payload = [0; 3072];
    assert_eq!(3, packet_count(&payload));

    let payload = [0; 3073];
    assert_eq!(4, packet_count(&payload));
}

#[test]
fn to_single_packet_works() {
    // a payload that fits one chunk travels as a single packet
    let original: Vec<u8> = (0..200u32).map(|i| (i % 256) as u8).collect();
    let packets = to_packets(&original);
    assert_eq!(1, packets.len());
    assert_eq!(Flags::SinglePacket, packets[0].flag());
    let reconstructed = from_packets(&packets);
    assert_eq!(original, reconstructed);
}

#[test]
fn to_two_packets_works() {
    // a payload just over one chunk splits into first and last
    let original: Vec<u8> = (0..1500u32).map(|i| (i % 256) as u8).collect();
    let packets = to_packets(&original);
    assert_eq!(2, packets.len());
    assert_eq!(Flags::MultiPacketFirst, packets[0].flag());
    assert_eq!(Flags::MultiPacketLast, packets[1].flag());
    let reconstructed = from_packets(&packets);
    assert_eq!(original, reconstructed);
}

#[test]
fn to_multi_packets_works() {
    // a payload of four chunks: first, two middles, last
    let original: Vec<u8> = (0..3100u32).map(|i| (i % 256) as u8).collect();
    let packets = to_packets(&original);
    assert_eq!(4, packets.len());
    assert_eq!(Flags::MultiPacketFirst, packets[0].flag());
    assert_eq!(Flags::MultiPacket, packets[1].flag());
    assert_eq!(Flags::MultiPacket, packets[2].flag());
    assert_eq!(Flags::MultiPacketLast, packets[3].flag());
    let reconstructed = from_packets(&packets);
    assert_eq!(original, reconstructed);
}

#[test]
fn fragmentation_boundaries() {
    // exactly one chunk: single; one byte more: first and last; exactly
    // three chunks plus one byte: four packets
    let one = vec![7u8; 1024];
    let packets = to_packets(&one);
    assert_eq!(1, packets.len());
    assert_eq!(Flags::SinglePacket, packets[0].flag());

    let two = vec![7u8; 1025];
    let packets = to_packets(&two);
    assert_eq!(2, packets.len());
    assert_eq!(Flags::MultiPacketFirst, packets[0].flag());
    assert_eq!(Flags::MultiPacketLast, packets[1].flag());
    assert_eq!(1024, packets[0].payload().len());
    assert_eq!(1, packets[1].payload().len());

    let four = vec![7u8; 3073];
    let packets = to_packets(&four);
    assert_eq!(4, packets.len());
    assert_eq!(Flags::MultiPacketFirst, packets[0].flag());
    assert_eq!(Flags::MultiPacket, packets[1].flag());
    assert_eq!(Flags::MultiPacket, packets[2].flag());
    assert_eq!(Flags::MultiPacketLast, packets[3].flag());

    let empty: Vec<u8> = Vec::new();
    assert_eq!(0, to_packets(&empty).len());
}

#[test]
fn packet_wire_form_round_trips() {
    let packet = EmberPacket::new(Flags::MultiPacketFirst, 2, 50, vec![1, 2, 3]);
    let bytes = packet.to_bytes();
    assert_eq!(vec![0x80, 0x01, 0x02, 50, 2, 1, 2, 3], bytes);
    let back = EmberPacket::from_bytes(&bytes).unwrap();
    assert_eq!(packet, back);
}

#[test]
fn packet_from_short_buffer_is_an_error() {
    assert!(EmberPacket::from_bytes(&[0xC0, 1, 2, 50, 2]).is_err());
}

#[test]
fn packet_with_unknown_flag_is_an_error() {
    assert!(EmberPacket::from_bytes(&[0x55, 1, 2, 50, 2, 9]).is_err());
}
