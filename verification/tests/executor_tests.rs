use mavgate::action::Action;
use mavgate::batch::BatchManager;
use mavgate::executor::{execute_actions, ExecOutcome, SinkKind};
use mavlink::ardupilotmega::{MavMessage, COMMAND_LONG_DATA};

fn heartbeat_frame() -> Vec<u8> {
    let mut f = vec![0xFD, 0x09, 0x00, 0x00, 0x00, 0x01, 0x01, 0x00, 0x00, 0x00];
    f.extend_from_slice(&[0u8; 9]);
    f.extend_from_slice(&[0x12, 0x34]);
    f
}

#[test]
fn forward_only_delivers_identical_bytes() {
    let mut batch = BatchManager::new();
    let frame = heartbeat_frame();
    let r = execute_actions(
        vec![Action::Forward],
        vec![frame.clone()],
        SinkKind::Router,
        &mut batch,
    );
    match r {
        ExecOutcome::Delivered { frames } => assert_eq!(frames, vec![frame]),
        _ => panic!("expected delivery"),
    }
}

#[test]
fn an_empty_action_list_delivers_everything() {
    let mut batch = BatchManager::new();
    let r = execute_actions(
        Vec::new(),
        vec![vec![1, 2], vec![3]],
        SinkKind::Broadcast,
        &mut batch,
    );
    match r {
        ExecOutcome::Delivered { frames } => assert_eq!(frames, vec![vec![1, 2], vec![3]]),
        _ => panic!("expected delivery"),
    }
}

#[test]
fn block_stops_and_later_steps_never_run() {
    let mut batch = BatchManager::new();
    let r = execute_actions(
        vec![Action::Forward, Action::Block, Action::Delay(99)],
        vec![heartbeat_frame()],
        SinkKind::Router,
        &mut batch,
    );
    assert!(matches!(r, ExecOutcome::Blocked));
}

#[test]
fn delay_suspends_with_the_rest_of_the_list() {
    let mut batch = BatchManager::new();
    let frame = heartbeat_frame();
    let r = execute_actions(
        vec![Action::Delay(2), Action::Block],
        vec![frame.clone()],
        SinkKind::Router,
        &mut batch,
    );
    match r {
        ExecOutcome::Delayed { seconds, remaining, frames } => {
            assert_eq!(seconds, 2);
            assert!(matches!(remaining.as_slice(), [Action::Block]));
            assert_eq!(frames, vec![frame.clone()]);
            // resuming after the delay applies the rest of the list
            let resumed = execute_actions(remaining, frames, SinkKind::Router, &mut batch);
            assert!(matches!(resumed, ExecOutcome::Blocked));
        }
        _ => panic!("expected a suspension"),
    }
}

#[test]
fn batch_step_queues_until_enough_sources_then_releases_in_order() {
    let mut batch = BatchManager::new();
    let step = |key: &str| Action::Batch {
        count: 2,
        timeout_seconds: 10,
        key: key.to_owned(),
        forward_on_timeout: true,
        system_id_field: None,
    };
    let encode = |system_id: u8| {
        let header = mavlink::MavHeader { system_id, component_id: 1, sequence: 0 };
        let msg = MavMessage::HEARTBEAT(Default::default());
        let mut f: Vec<u8> = Vec::new();
        mavlink::write_versioned_msg(&mut f, mavlink::MavlinkVersion::V2, header, &msg).unwrap();
        f
    };
    let f1 = encode(1);
    let f2 = encode(2);
    let r1 = execute_actions(
        vec![step("arm"), Action::Forward],
        vec![f1.clone()],
        SinkKind::Router,
        &mut batch,
    );
    match r1 {
        ExecOutcome::Queued { timer } => {
            let t = timer.expect("first packet arms the timeout");
            assert_eq!(t.key, "arm");
            assert_eq!(t.timeout_seconds, 10);
        }
        _ => panic!("expected the first packet to queue"),
    }
    let r2 = execute_actions(
        vec![step("arm"), Action::Forward],
        vec![f2.clone()],
        SinkKind::Router,
        &mut batch,
    );
    match r2 {
        ExecOutcome::Delivered { frames } => assert_eq!(frames, vec![f1, f2]),
        _ => panic!("expected the second source to release the batch"),
    }
}

#[test]
fn batch_on_the_broadcast_side_is_downgraded_to_forward() {
    let mut batch = BatchManager::new();
    let frame = heartbeat_frame();
    let r = execute_actions(
        vec![
            Action::Batch {
                count: 3,
                timeout_seconds: 10,
                key: "k".to_owned(),
                forward_on_timeout: true,
                system_id_field: None,
            },
        ],
        vec![frame.clone()],
        SinkKind::Broadcast,
        &mut batch,
    );
    match r {
        ExecOutcome::Delivered { frames } => assert_eq!(frames, vec![frame]),
        _ => panic!("expected a plain delivery"),
    }
}

#[test]
fn modify_reencodes_each_frame_with_the_prepared_message() {
    let header = mavlink::MavHeader { system_id: 5, component_id: 6, sequence: 9 };
    let original = MavMessage::COMMAND_LONG(COMMAND_LONG_DATA {
        param1: 1.0,
        ..Default::default()
    });
    let mut frame: Vec<u8> = Vec::new();
    mavlink::write_versioned_msg(&mut frame, mavlink::MavlinkVersion::V2, header, &original)
        .expect("encode");
    let modified = MavMessage::COMMAND_LONG(COMMAND_LONG_DATA {
        param1: 0.0,
        ..Default::default()
    });
    let mut batch = BatchManager::new();
    let r = execute_actions(
        vec![
            Action::Modify {
                modifier: "disarm".to_owned(),
                modified_message: Some(modified),
            },
            Action::Forward,
        ],
        vec![frame],
        SinkKind::Router,
        &mut batch,
    );
    match r {
        ExecOutcome::Delivered { frames } => {
            assert_eq!(frames.len(), 1);
            let (h, m) = mavgate::codec::parse_mavlink_message(&frames[0]).expect("valid frame");
            assert_eq!(h.system_id, 5);
            assert_eq!(h.component_id, 6);
            assert_eq!(h.sequence, 9);
            match m {
                MavMessage::COMMAND_LONG(d) => assert_eq!(d.param1, 0.0),
                _ => panic!("expected a COMMAND_LONG"),
            }
        }
        _ => panic!("expected delivery of the modified frame"),
    }
}

#[test]
fn modify_keeps_a_frame_that_does_not_parse() {
    let mut batch = BatchManager::new();
    let junk: Vec<u8> = vec![1, 2, 3];
    let r = execute_actions(
        vec![
            Action::Modify {
                modifier: "x".to_owned(),
                modified_message: Some(mavlink::ardupilotmega::MavMessage::HEARTBEAT(
                    Default::default(),
                )),
            },
        ],
        vec![junk.clone()],
        SinkKind::Router,
        &mut batch,
    );
    match r {
        ExecOutcome::Delivered { frames } => assert_eq!(frames, vec![junk]),
        _ => panic!("expected the original bytes back"),
    }
}

#[test]
fn modify_continues_with_the_rest_of_the_list() {
    let mut batch = BatchManager::new();
    let r = execute_actions(
        vec![
            Action::Modify {
                modifier: "m".to_owned(),
                modified_message: Some(MavMessage::HEARTBEAT(Default::default())),
            },
            Action::Block,
        ],
        vec![heartbeat_frame()],
        SinkKind::Router,
        &mut batch,
    );
    assert!(matches!(r, ExecOutcome::Blocked));
}

#[test]
fn a_release_resumes_the_stored_tail_through_the_executor() {
    let mut batch = BatchManager::new();
    let encode = |system_id: u8| {
        let header = mavlink::MavHeader { system_id, component_id: 1, sequence: 0 };
        let msg = MavMessage::HEARTBEAT(Default::default());
        let mut f: Vec<u8> = Vec::new();
        mavlink::write_versioned_msg(&mut f, mavlink::MavlinkVersion::V2, header, &msg).unwrap();
        f
    };
    let step = || Action::Batch {
        count: 2,
        timeout_seconds: 30,
        key: "pair".to_owned(),
        forward_on_timeout: true,
        system_id_field: None,
    };
    let f1 = encode(1);
    let f2 = encode(2);
    let r1 = execute_actions(
        vec![step(), Action::Delay(3)],
        vec![f1.clone()],
        SinkKind::Router,
        &mut batch,
    );
    assert!(matches!(r1, ExecOutcome::Queued { .. }));
    // the second source releases the pair and the stored tail suspends them
    let r2 = execute_actions(
        vec![step(), Action::Delay(3)],
        vec![f2.clone()],
        SinkKind::Router,
        &mut batch,
    );
    match r2 {
        ExecOutcome::Delayed { seconds, remaining, frames } => {
            assert_eq!(seconds, 3);
            assert!(remaining.is_empty());
            assert_eq!(frames, vec![f1, f2]);
        }
        _ => panic!("expected the released pair to suspend on the stored delay"),
    }
}
