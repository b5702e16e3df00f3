use mavlink::ardupilotmega::{MavMessage, HEARTBEAT_DATA};
use mavgate::codec::parse_mavlink_message;

#[test]
fn decode_inverts_encode_for_a_heartbeat() {
    let header = mavlink::MavHeader { system_id: 42, component_id: 7, sequence: 3 };
    let msg = MavMessage::HEARTBEAT(HEARTBEAT_DATA::default());
    let mut frame: Vec<u8> = Vec::new();
    mavlink::write_versioned_msg(&mut frame, mavlink::MavlinkVersion::V2, header, &msg)
        .expect("encode");
    let (h, m) = parse_mavlink_message(&frame).expect("decode");
    assert_eq!(h.system_id, 42);
    assert_eq!(h.component_id, 7);
    assert_eq!(h.sequence, 3);
    assert_eq!(m, msg);
}

#[test]
fn garbage_bytes_do_not_decode() {
    let junk: Vec<u8> = vec![0x01, 0x02, 0x03, 0x04];
    assert!(parse_mavlink_message(&junk).is_err());
}

#[test]
fn a_corrupted_checksum_is_rejected() {
    let header = mavlink::MavHeader { system_id: 1, component_id: 1, sequence: 0 };
    let msg = MavMessage::HEARTBEAT(HEARTBEAT_DATA::default());
    let mut frame: Vec<u8> = Vec::new();
    mavlink::write_versioned_msg(&mut frame, mavlink::MavlinkVersion::V2, header, &msg)
        .expect("encode");
    let last = frame.len() - 1;
    frame[last] = frame[last].wrapping_add(1);
    let second_to_last = frame.len() - 2;
    frame[second_to_last] = frame[second_to_last].wrapping_add(1);
    assert!(parse_mavlink_message(&frame).is_err());
}
