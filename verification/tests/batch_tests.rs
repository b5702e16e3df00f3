use mavgate::action::Action;
use mavgate::batch::{BatchManager, BatchResult, TimeoutResult};

fn q(
    m: &mut BatchManager,
    key: &str,
    sid: u8,
    pkt: Vec<u8>,
    threshold: usize,
    forward_on_timeout: bool,
) -> (BatchResult, Option<u64>) {
    m.queue_or_release(key, sid, pkt, threshold, forward_on_timeout, vec![Action::Forward])
}

#[test]
fn threshold_release_returns_packets_in_insertion_order() {
    let mut m = BatchManager::new();
    let (r1, t1) = q(&mut m, "arm", 1, vec![1], 3, true);
    assert!(matches!(r1, BatchResult::Queued));
    assert!(t1.is_some());
    let (r2, t2) = q(&mut m, "arm", 1, vec![2], 3, true);
    assert!(matches!(r2, BatchResult::Queued));
    assert!(t2.is_none());
    let (r3, _) = q(&mut m, "arm", 2, vec![3], 3, true);
    assert!(matches!(r3, BatchResult::Queued));
    let (r4, _) = q(&mut m, "arm", 3, vec![4], 3, true);
    match r4 {
        BatchResult::Release { packets, .. } => {
            assert_eq!(packets, vec![vec![1], vec![2], vec![3], vec![4]]);
        }
        _ => panic!("expected release on the third distinct source"),
    }
}

#[test]
fn release_keeps_the_tail_stored_at_creation() {
    let mut m = BatchManager::new();
    let (_, _) = m.queue_or_release("k", 1, vec![1], 2, true, vec![Action::Delay(9)]);
    let (r, _) = m.queue_or_release("k", 2, vec![2], 99, false, vec![Action::Block]);
    match r {
        BatchResult::Release { remaining_actions, .. } => {
            assert!(matches!(remaining_actions.as_slice(), [Action::Delay(9)]));
        }
        _ => panic!("expected release with the creation-time tail"),
    }
}

#[test]
fn timeout_drops_when_forwarding_is_off() {
    let mut m = BatchManager::new();
    let (_, timer) = q(&mut m, "k", 1, vec![1], 3, false);
    let generation = timer.expect("fresh batch arms a timer");
    q(&mut m, "k", 1, vec![2], 3, false);
    match m.handle_timeout("k", generation) {
        TimeoutResult::Dropped => {}
        _ => panic!("expected the batch to be dropped"),
    }
    // a later packet starts a fresh batch
    let (r, timer2) = q(&mut m, "k", 1, vec![3], 3, false);
    assert!(matches!(r, BatchResult::Queued));
    assert!(timer2.is_some());
    assert_ne!(timer2.unwrap(), generation);
}

#[test]
fn timeout_forwards_queued_packets_in_order() {
    let mut m = BatchManager::new();
    let (_, timer) = q(&mut m, "k", 1, vec![10], 5, true);
    q(&mut m, "k", 2, vec![20], 5, true);
    match m.handle_timeout("k", timer.unwrap()) {
        TimeoutResult::Release { packets, .. } => {
            assert_eq!(packets, vec![vec![10], vec![20]]);
        }
        _ => panic!("expected a forwarding release"),
    }
}

#[test]
fn a_released_batch_answers_no_timeout() {
    let mut m = BatchManager::new();
    let (_, timer) = q(&mut m, "k", 1, vec![1], 2, true);
    let generation = timer.unwrap();
    let (r, _) = q(&mut m, "k", 2, vec![2], 2, true);
    assert!(matches!(r, BatchResult::Release { .. }));
    assert!(matches!(m.handle_timeout("k", generation), TimeoutResult::Missing));
}

#[test]
fn a_stale_timeout_leaves_a_younger_batch_alone() {
    let mut m = BatchManager::new();
    let (_, timer) = q(&mut m, "k", 1, vec![1], 2, true);
    let stale = timer.unwrap();
    q(&mut m, "k", 2, vec![2], 2, true); // releases
    let (_, timer2) = q(&mut m, "k", 9, vec![3], 2, true); // fresh batch, same key
    assert!(matches!(m.handle_timeout("k", stale), TimeoutResult::Missing));
    // the fresh batch is still live: its own timeout finds it
    assert!(matches!(
        m.handle_timeout("k", timer2.unwrap()),
        TimeoutResult::Release { .. }
    ));
}

#[test]
fn an_immediate_release_leaves_no_batch_behind() {
    let mut m = BatchManager::new();
    let (r, timer) = q(&mut m, "solo", 7, vec![9], 1, true);
    match r {
        BatchResult::Release { packets, .. } => assert_eq!(packets, vec![vec![9]]),
        _ => panic!("threshold one releases at once"),
    }
    assert!(matches!(
        m.handle_timeout("solo", timer.unwrap()),
        TimeoutResult::Missing
    ));
}
