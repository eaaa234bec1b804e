use steam_server_disable::addr::Address;
use steam_server_disable::firewall::{self, FirewallRequirements, MemoryFirewall};
use steam_server_disable::status_worker::{
    classify, classify_results, ServerStatusMessage, StatusWorker,
};
use steam_server_disable::steam_server::ServerState;

fn a(last: u8) -> Address {
    Address::new(10, 0, 0, last)
}

#[test]
fn classify_all_blocked() {
    let ips = vec![a(1), a(2), a(3)];
    let flags = vec![true, true, true];
    assert_eq!(classify(&ips, &flags), ServerState::AllDisabled);
}

#[test]
fn classify_none_blocked() {
    let ips = vec![a(1), a(2), a(3)];
    let flags = vec![false, false, false];
    assert_eq!(classify(&ips, &flags), ServerState::NoneDisabled);
}

#[test]
fn classify_partially_blocked_carries_blocked_addresses() {
    let ips = vec![a(1), a(2), a(3)];
    let flags = vec![true, false, true];
    assert_eq!(
        classify(&ips, &flags),
        ServerState::SomeDisabled(vec![a(1), a(3)])
    );
}

#[test]
fn errored_block_check_counts_as_not_confirmed_blocked() {
    // one confirmed blocked, one check failed: the group must come out
    // partially blocked, never fully blocked
    let ips = vec![a(1), a(2)];
    let answers = vec![
        Ok(true),
        Err(firewall::Error::UnsuccessfulBlockCheck(a(2))),
    ];
    assert_eq!(
        classify_results(&ips, &answers),
        ServerState::SomeDisabled(vec![a(1)])
    );
}

#[test]
fn all_block_checks_failing_means_none_confirmed_blocked() {
    let ips = vec![a(1), a(2)];
    let answers = vec![
        Err(firewall::Error::UnsuccessfulBlockCheck(a(1))),
        Err(firewall::Error::UnsuccessfulBlockCheck(a(2))),
    ];
    assert_eq!(classify_results(&ips, &answers), ServerState::NoneDisabled);
}

#[test]
fn ok_false_answers_count_as_not_blocked() {
    let ips = vec![a(1), a(2)];
    let answers: Vec<Result<bool, firewall::Error>> = vec![Ok(false), Ok(true)];
    assert_eq!(
        classify_results(&ips, &answers),
        ServerState::SomeDisabled(vec![a(2)])
    );
}

#[test]
fn classify_empty_group_counts_as_all_blocked() {
    let ips: Vec<Address> = vec![];
    let flags: Vec<bool> = vec![];
    assert_eq!(classify(&ips, &flags), ServerState::AllDisabled);
}

#[test]
fn drain_appends_removes_and_clears_in_order() {
    let mut worker = StatusWorker::new();
    let kill = worker.drain(vec![ServerStatusMessage::AppendToList(vec![
        ("sgp".to_string(), vec![a(1), a(2)]),
        ("eur".to_string(), vec![a(3)]),
    ])]);
    assert!(!kill);
    assert_eq!(worker.len(), 2);

    let kill = worker.drain(vec![ServerStatusMessage::RemoveServer("sgp".to_string())]);
    assert!(!kill);
    assert_eq!(worker.len(), 1);

    // removing an unknown group is a silent no-op
    let kill = worker.drain(vec![ServerStatusMessage::RemoveServer("nope".to_string())]);
    assert!(!kill);
    assert_eq!(worker.len(), 1);

    let kill = worker.drain(vec![ServerStatusMessage::ClearList]);
    assert!(!kill);
    assert_eq!(worker.len(), 0);
}

#[test]
fn status_kill_is_reported_and_whole_batch_still_applies() {
    let mut worker = StatusWorker::new();
    let kill = worker.drain(vec![
        ServerStatusMessage::AppendToList(vec![("sgp".to_string(), vec![a(1)])]),
        ServerStatusMessage::KillThread,
        ServerStatusMessage::AppendToList(vec![("eur".to_string(), vec![a(2)])]),
    ]);
    assert!(kill);
    assert_eq!(worker.len(), 2);
}

#[test]
fn pop_front_is_fifo() {
    let mut worker = StatusWorker::new();
    worker.drain(vec![ServerStatusMessage::AppendToList(vec![
        ("first".to_string(), vec![a(1)]),
        ("second".to_string(), vec![a(2)]),
    ])]);
    let (name, ips) = worker.pop_front().unwrap();
    assert_eq!(name, "first");
    assert_eq!(ips, vec![a(1)]);
    let (name, _) = worker.pop_front().unwrap();
    assert_eq!(name, "second");
    assert!(worker.pop_front().is_none());
}

#[test]
fn step_classifies_against_the_firewall() {
    let mut fw = MemoryFirewall::new();
    fw.ban_ip(a(1)).unwrap();

    let mut worker = StatusWorker::new();
    worker.drain(vec![ServerStatusMessage::AppendToList(vec![
        ("mixed".to_string(), vec![a(1), a(2)]),
        ("open".to_string(), vec![a(3)]),
    ])]);

    let (name, state) = worker.step(&mut fw).unwrap();
    assert_eq!(name, "mixed");
    assert_eq!(state, ServerState::SomeDisabled(vec![a(1)]));

    let (name, state) = worker.step(&mut fw).unwrap();
    assert_eq!(name, "open");
    assert_eq!(state, ServerState::NoneDisabled);

    assert!(worker.step(&mut fw).is_none());
}

#[test]
fn step_reports_all_blocked_when_every_address_is_banned() {
    let mut fw = MemoryFirewall::new();
    fw.ban_ip(a(1)).unwrap();
    fw.ban_ip(a(2)).unwrap();
    let mut worker = StatusWorker::new();
    worker.drain(vec![ServerStatusMessage::AppendToList(vec![(
        "sgp".to_string(),
        vec![a(1), a(2)],
    )])]);
    let (_, state) = worker.step(&mut fw).unwrap();
    assert_eq!(state, ServerState::AllDisabled);
}
