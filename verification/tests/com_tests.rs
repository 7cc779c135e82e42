use emberplus::com::{
    frame_packet, keepalive_request, keepalive_response, route_frame, FrameDisposition,
    FramingNegotiation, ReassemblyBuffer,
};
use emberplus::ember::EmberPacket;
use emberplus::error::EmberError;
use emberplus::s101::{EscapingS101Frame, Flags, NonEscapingS101Frame, S101Frame};
use emberplus::utils::{format_byte_size, format_bytes};

fn packet(flag: Flags, payload: Vec<u8>) -> EmberPacket {
    EmberPacket::new(flag, 2, 50, payload)
}

#[test]
fn single_packet_completes_at_once() {
    let mut buffer = ReassemblyBuffer::new();
    let out = buffer.push(packet(Flags::SinglePacket, vec![1, 2, 3]));
    assert_eq!(Some(vec![1, 2, 3]), out);
    assert_eq!(0, buffer.len());
}

#[test]
fn multi_packet_message_is_reassembled() {
    let mut buffer = ReassemblyBuffer::new();
    assert_eq!(None, buffer.push(packet(Flags::MultiPacketFirst, vec![1, 2])));
    assert_eq!(None, buffer.push(packet(Flags::MultiPacket, vec![3])));
    let out = buffer.push(packet(Flags::MultiPacketLast, vec![4, 5]));
    assert_eq!(Some(vec![1, 2, 3, 4, 5]), out);
    assert_eq!(0, buffer.len());
}

#[test]
fn single_packet_discards_a_partial_message() {
    let mut buffer = ReassemblyBuffer::new();
    assert_eq!(None, buffer.push(packet(Flags::MultiPacketFirst, vec![9])));
    let out = buffer.push(packet(Flags::SinglePacket, vec![1]));
    assert_eq!(Some(vec![1]), out);
    assert_eq!(0, buffer.len());
}

#[test]
fn first_packet_discards_a_partial_message() {
    let mut buffer = ReassemblyBuffer::new();
    assert_eq!(None, buffer.push(packet(Flags::MultiPacketFirst, vec![9])));
    assert_eq!(None, buffer.push(packet(Flags::MultiPacketFirst, vec![1])));
    let out = buffer.push(packet(Flags::MultiPacketLast, vec![2]));
    assert_eq!(Some(vec![1, 2]), out);
}

#[test]
fn stray_middle_and_last_packets_are_dropped() {
    let mut buffer = ReassemblyBuffer::new();
    assert_eq!(None, buffer.push(packet(Flags::MultiPacket, vec![1])));
    assert_eq!(0, buffer.len());
    assert_eq!(None, buffer.push(packet(Flags::MultiPacketLast, vec![2])));
    assert_eq!(0, buffer.len());
}

#[test]
fn empty_packets_are_ignored() {
    let mut buffer = ReassemblyBuffer::new();
    assert_eq!(None, buffer.push(packet(Flags::MultiPacketFirst, vec![1])));
    assert_eq!(None, buffer.push(packet(Flags::EmptyPacket, vec![])));
    assert_eq!(1, buffer.len());
}

#[test]
fn negotiation_commits_to_the_responding_mode() {
    // an escaping keepalive response within the timeout commits to escaping
    let negotiation = FramingNegotiation::new();
    let escaping_reply = S101Frame::Escaping(EscapingS101Frame::KeepaliveResponse);
    assert!(!negotiation.on_response(&escaping_reply));
    let non_escaping_reply = S101Frame::NonEscaping(NonEscapingS101Frame::KeepaliveResponse);
    assert!(negotiation.on_response(&non_escaping_reply));
}

#[test]
fn negotiation_gives_up_after_three_timeouts() {
    let mut negotiation = FramingNegotiation::new();
    assert!(!negotiation.give_up());
    negotiation.on_timeout();
    assert!(!negotiation.give_up());
    negotiation.on_timeout();
    assert!(!negotiation.give_up());
    negotiation.on_timeout();
    assert!(negotiation.give_up());
}

#[test]
fn probe_is_a_non_escaping_keepalive_request() {
    let probe = FramingNegotiation::probe();
    assert!(probe.is_non_escaping());
    assert!(probe.is_keepalive_request());
}

#[test]
fn keepalive_frames_follow_the_mode() {
    assert!(keepalive_request(true).is_non_escaping());
    assert!(!keepalive_request(false).is_non_escaping());
    assert!(keepalive_response(true).is_keepalive_response());
    assert!(keepalive_response(false).is_keepalive_response());
}

#[test]
fn inbound_frames_are_routed() {
    let req = S101Frame::Escaping(EscapingS101Frame::KeepaliveRequest);
    assert_eq!(FrameDisposition::RespondKeepalive, route_frame(req));
    let resp = S101Frame::NonEscaping(NonEscapingS101Frame::KeepaliveResponse);
    assert_eq!(FrameDisposition::Ignore, route_frame(resp));
    let p = packet(Flags::SinglePacket, vec![1]);
    let framed = frame_packet(p.clone(), false);
    assert_eq!(FrameDisposition::Deliver(p), route_frame(framed));
}

#[test]
fn recoverable_errors_are_only_deserialization() {
    assert!(EmberError::Deserialization("x".to_string()).is_recoverable());
    assert!(!EmberError::Io("x".to_string()).is_recoverable());
    assert!(!EmberError::Connection("x".to_string()).is_recoverable());
}

#[test]
fn byte_formatting() {
    assert_eq!("[0x60, 0x10, 0xff]", format_bytes(&[0x60, 0x10, 0xff]));
    assert_eq!("[]", format_bytes(&[]));
    assert_eq!("999 B", format_byte_size(999));
    assert_eq!("1.0 KB", format_byte_size(1024));
    assert_eq!("1.5 KB", format_byte_size(1536));
    assert_eq!("2.0 MB", format_byte_size(2 * 1024 * 1024));
}
