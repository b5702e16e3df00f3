use mavgate::frame::{parse_header_v1, parse_header_v2, take_frame};

fn heartbeat_frame() -> Vec<u8> {
    let mut f = vec![0xFD, 0x09, 0x00, 0x00, 0x00, 0x01, 0x01, 0x00, 0x00, 0x00];
    f.extend_from_slice(&[0u8; 9]);
    f.extend_from_slice(&[0xAA, 0xBB]);
    f
}

#[test]
fn take_frame_extracts_one_complete_frame() {
    let frame = heartbeat_frame();
    let mut pending = frame.clone();
    pending.extend_from_slice(&[0xFD, 0x01]);
    let got = take_frame(&mut pending).expect("complete frame");
    assert_eq!(got, frame);
    assert_eq!(pending, vec![0xFD, 0x01]);
}

#[test]
fn take_frame_skips_leading_garbage() {
    let frame = heartbeat_frame();
    let mut pending = vec![0x00, 0x42, 0x13];
    pending.extend_from_slice(&frame);
    let got = take_frame(&mut pending).expect("complete frame");
    assert_eq!(got, frame);
    assert!(pending.is_empty());
}

#[test]
fn take_frame_waits_for_missing_bytes() {
    let frame = heartbeat_frame();
    let mut pending = frame[..frame.len() - 1].to_vec();
    assert!(take_frame(&mut pending).is_none());
    assert_eq!(pending.len(), frame.len() - 1);
    let mut no_marker = vec![0x01, 0x02, 0x03];
    assert!(take_frame(&mut no_marker).is_none());
}

#[test]
fn parse_header_v2_reads_the_header_bytes() {
    let mut frame = heartbeat_frame();
    frame[4] = 7; // sequence
    frame[5] = 42; // system
    frame[6] = 200; // component
    frame[7] = 77; // message id low byte
    let (h, id) = parse_header_v2(&frame).expect("header");
    assert_eq!(h.sequence, 7);
    assert_eq!(h.system_id, 42);
    assert_eq!(h.component_id, 200);
    assert_eq!(id, 77);
    assert!(parse_header_v2(&vec![0x00, 0x01]).is_none());
}

#[test]
fn parse_header_v1_reads_the_short_header() {
    let frame: Vec<u8> = vec![0xFE, 0x02, 9, 3, 4, 0, 0x11, 0x22, 0xCC, 0xDD];
    let (h, id) = parse_header_v1(&frame).expect("header");
    assert_eq!(h.sequence, 9);
    assert_eq!(h.system_id, 3);
    assert_eq!(h.component_id, 4);
    assert_eq!(id, 0);
    assert!(parse_header_v1(&vec![0xFD, 0x00]).is_none());
}

#[test]
fn take_frame_drains_a_stream_frame_by_frame() {
    let mut a = heartbeat_frame();
    a[5] = 1;
    let mut b = heartbeat_frame();
    b[5] = 2;
    let mut pending: Vec<u8> = Vec::new();
    pending.extend_from_slice(&a);
    pending.extend_from_slice(&b);
    assert_eq!(take_frame(&mut pending).unwrap(), a);
    assert_eq!(take_frame(&mut pending).unwrap(), b);
    assert!(take_frame(&mut pending).is_none());
}
