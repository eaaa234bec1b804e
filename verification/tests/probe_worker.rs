use steam_server_disable::addr::Address;
use steam_server_disable::pinger_worker::{PingerMessage, ProbeWorker};

fn a(last: u8) -> Address {
    Address::new(10, 0, 0, last)
}

#[test]
fn drain_applies_messages_in_order() {
    let mut worker = ProbeWorker::new();
    let msgs = vec![
        PingerMessage::PushToList(a(1)),
        PingerMessage::AppendToList(vec![a(1), a(2), a(3)]),
        PingerMessage::RemoveFromList(a(2)),
    ];
    let kill = worker.drain(&msgs);
    assert!(!kill);
    assert_eq!(worker.len(), 2);
    assert!(worker.contains(a(1)));
    assert!(!worker.contains(a(2)));
    assert!(worker.contains(a(3)));
}

#[test]
fn drain_clear_empties_worklist() {
    let mut worker = ProbeWorker::new();
    worker.drain(&vec![PingerMessage::AppendToList(vec![a(1), a(2)])]);
    let kill = worker.drain(&vec![PingerMessage::ClearList]);
    assert!(!kill);
    assert_eq!(worker.len(), 0);
}

#[test]
fn kill_is_reported_and_whole_batch_still_applies() {
    // The kill signal terminates the worker loop, but every other
    // message of the drained batch is applied first.
    let mut worker = ProbeWorker::new();
    let msgs = vec![
        PingerMessage::PushToList(a(1)),
        PingerMessage::KillThread,
        PingerMessage::PushToList(a(2)),
    ];
    let kill = worker.drain(&msgs);
    assert!(kill);
    assert_eq!(worker.len(), 2);
    assert!(worker.contains(a(1)));
    assert!(worker.contains(a(2)));
}

#[test]
fn kill_with_non_empty_worklist_still_reported() {
    let mut worker = ProbeWorker::new();
    worker.drain(&vec![PingerMessage::AppendToList(vec![a(1), a(2), a(3)])]);
    let kill = worker.drain(&vec![PingerMessage::KillThread]);
    assert!(kill);
    assert_eq!(worker.len(), 3);
}

#[test]
fn next_target_cycles_in_order() {
    let mut worker = ProbeWorker::new();
    worker.drain(&vec![PingerMessage::AppendToList(vec![a(1), a(2), a(3)])]);
    assert_eq!(worker.next_target(), Some(a(1)));
    assert_eq!(worker.next_target(), Some(a(2)));
    assert_eq!(worker.next_target(), Some(a(3)));
    // wraps to the front
    assert_eq!(worker.next_target(), Some(a(1)));
}

#[test]
fn next_target_on_empty_worklist_is_none() {
    let mut worker = ProbeWorker::new();
    assert_eq!(worker.next_target(), None);
}

#[test]
fn round_robin_survives_concurrent_shrinkage() {
    // Fill with three targets and advance the cursor to the last slot;
    // then remove two targets so the cursor points past the end. The
    // next probe must not fail: the cursor wraps and cycling resumes
    // over what remains.
    let mut worker = ProbeWorker::new();
    worker.drain(&vec![PingerMessage::AppendToList(vec![a(1), a(2), a(3)])]);
    assert_eq!(worker.next_target(), Some(a(1)));
    assert_eq!(worker.next_target(), Some(a(2)));
    assert_eq!(worker.next_target(), Some(a(3)));
    worker.drain(&vec![
        PingerMessage::RemoveFromList(a(2)),
        PingerMessage::RemoveFromList(a(3)),
    ]);
    assert_eq!(worker.len(), 1);
    assert_eq!(worker.next_target(), Some(a(1)));
    assert_eq!(worker.next_target(), Some(a(1)));
}

#[test]
fn targets_reports_worklist_contents() {
    let mut worker = ProbeWorker::new();
    worker.drain(&vec![PingerMessage::AppendToList(vec![a(7), a(8)])]);
    assert_eq!(worker.targets(), vec![a(7), a(8)]);
}
