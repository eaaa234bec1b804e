//! End-to-end flows over the verified engine: the reconciler, both worker
//! state machines and the in-memory firewall authority, pumped by hand
//! the way the embedding application pumps them over channels.

use steam_server_disable::addr::Address;
use steam_server_disable::app::App;
use steam_server_disable::firewall::{FirewallRequirements, MemoryFirewall};
use steam_server_disable::matcher::Matcher;
use steam_server_disable::pinger_worker::ProbeWorker;
use steam_server_disable::status_worker::StatusWorker;
use steam_server_disable::steam_server::{ServerState, Servers};

fn a(last: u8) -> Address {
    Address::new(1, 2, 3, last)
}

fn entry(name: &str, ips: Vec<Address>) -> (String, Option<String>, Vec<Address>) {
    (name.to_string(), None, ips)
}

/// Forward every queued control message to both workers, run the status
/// worker until its queue empties, and feed the reports back, until
/// nothing moves any more.
fn settle(
    app: &mut App,
    fw: &mut MemoryFirewall,
    probe: &mut ProbeWorker,
    status: &mut StatusWorker,
) {
    loop {
        let pinger_msgs = app.take_pinger_messages();
        let status_msgs = app.take_status_messages();
        if pinger_msgs.is_empty() && status_msgs.is_empty() {
            break;
        }
        probe.drain(&pinger_msgs);
        status.drain(status_msgs);
        let mut reports = Vec::new();
        while let Some(report) = status.step(fw) {
            reports.push(report);
        }
        app.update(&vec![], reports);
        // in-flight probe reports were flushed above; purge what is marked
        let purge = app.take_pending_purge();
        app.purge_ping_histories(&purge);
    }
}

#[test]
fn disable_group_blocks_addresses_and_stops_probing() {
    let servers = Servers::from_parsed(vec![entry("sgp", vec![a(4), a(5)])]);
    let mut app = App::new(servers);
    let mut fw = MemoryFirewall::new();
    let mut probe = ProbeWorker::new();
    let mut status = StatusWorker::new();

    // first classification: nothing blocked, probing starts
    settle(&mut app, &mut fw, &mut probe, &mut status);
    assert_eq!(*app.get_server_status(0), ServerState::NoneDisabled);
    assert!(probe.contains(a(4)));
    assert!(probe.contains(a(5)));

    // a probe report lands meanwhile
    app.handle_ping_report(
        a(4),
        Ok(steam_server_disable::ping::PingInfo::new(10)),
    );
    assert!(app.ping_history(a(4)).is_some());

    // disable the group
    let idx = app.find_server_index("sgp").unwrap();
    app.disable_server(&mut fw, idx).unwrap();
    assert_eq!(fw.is_blocked(a(4)), Ok(true));
    assert_eq!(fw.is_blocked(a(5)), Ok(true));

    settle(&mut app, &mut fw, &mut probe, &mut status);
    assert_eq!(*app.get_server_status(0), ServerState::AllDisabled);
    assert!(!probe.contains(a(4)));
    assert!(!probe.contains(a(5)));
    assert!(app.ping_history(a(4)).is_none());
    assert!(app.ping_history(a(5)).is_none());
}

#[test]
fn enable_group_unblocks_and_reappears_once_in_worklist() {
    let servers = Servers::from_parsed(vec![entry("sgp", vec![a(4), a(5)])]);
    let mut app = App::new(servers);
    let mut fw = MemoryFirewall::new();
    let mut probe = ProbeWorker::new();
    let mut status = StatusWorker::new();

    // start from a partially blocked group: one address banned directly
    fw.ban_ip(a(4)).unwrap();
    settle(&mut app, &mut fw, &mut probe, &mut status);
    assert_eq!(
        *app.get_server_status(0),
        ServerState::SomeDisabled(vec![a(4)])
    );
    assert!(!probe.contains(a(4)));
    assert!(probe.contains(a(5)));

    // enable the whole group
    let idx = app.find_server_index("sgp").unwrap();
    app.enable_server(&mut fw, idx).unwrap();
    assert_eq!(fw.is_blocked(a(4)), Ok(false));
    assert_eq!(fw.is_blocked(a(5)), Ok(false));

    settle(&mut app, &mut fw, &mut probe, &mut status);
    assert_eq!(*app.get_server_status(0), ServerState::NoneDisabled);
    // each address stands in the worklist exactly once, although one of
    // them was already present before the enable
    let targets = probe.targets();
    assert_eq!(targets.iter().filter(|x| **x == a(4)).count(), 1);
    assert_eq!(targets.iter().filter(|x| **x == a(5)).count(), 1);
}

#[test]
fn enable_matching_honours_filter_and_exclusion() {
    let servers = Servers::from_parsed(vec![
        entry("eur", vec![a(10)]),
        entry("sgp", vec![a(11)]),
        entry("sgp2", vec![a(12)]),
        entry("sgt", vec![a(13)]),
    ]);
    let mut app = App::new(servers);
    let mut fw = MemoryFirewall::new();

    // start fully blocked
    assert!(app.disable_all_servers(&mut fw).is_empty());
    assert_eq!(fw.blocked_count(), 4);

    let matcher = Matcher::compile("^sg").unwrap();
    let exclude = Matcher::compile("sgp2").unwrap();
    assert!(app.enable_matching(&mut fw, &matcher, Some(&exclude)).is_empty());

    // every group starting with "sg" except exactly "sgp2" is unblocked
    assert_eq!(fw.is_blocked(a(10)), Ok(true)); // eur: no match
    assert_eq!(fw.is_blocked(a(11)), Ok(false)); // sgp
    assert_eq!(fw.is_blocked(a(12)), Ok(true)); // sgp2: excluded
    assert_eq!(fw.is_blocked(a(13)), Ok(false)); // sgt
}

#[test]
fn disable_matching_honours_filter_and_exclusion() {
    let servers = Servers::from_parsed(vec![
        entry("eur", vec![a(10)]),
        entry("sgp", vec![a(11)]),
        entry("sgp2", vec![a(12)]),
    ]);
    let mut app = App::new(servers);
    let mut fw = MemoryFirewall::new();

    let matcher = Matcher::compile("^sg").unwrap();
    let exclude = Matcher::compile("sgp2").unwrap();
    assert!(app.disable_matching(&mut fw, &matcher, Some(&exclude)).is_empty());

    assert_eq!(fw.is_blocked(a(10)), Ok(false));
    assert_eq!(fw.is_blocked(a(11)), Ok(true));
    assert_eq!(fw.is_blocked(a(12)), Ok(false));
}

#[test]
fn matcher_reports_pattern_matches() {
    let m = Matcher::compile("^sg").unwrap();
    assert!(m.is_match("sgp"));
    assert!(!m.is_match("eur"));
    assert!(Matcher::compile("[").is_none());
}

#[test]
fn enable_selected_enables_exactly_the_selection() {
    let servers = Servers::from_parsed(vec![
        entry("eur", vec![a(10)]),
        entry("sgp", vec![a(11), a(12)]),
    ]);
    let mut app = App::new(servers);
    let mut fw = MemoryFirewall::new();
    assert!(app.disable_all_servers(&mut fw).is_empty());
    assert_eq!(fw.blocked_count(), 3);

    // select all of eur and one address of sgp
    app.set_ip_selected(a(10), true);
    app.set_ip_selected(a(11), true);
    assert!(app.enable_selected_ips(&mut fw).is_empty());

    assert_eq!(fw.is_blocked(a(10)), Ok(false));
    assert_eq!(fw.is_blocked(a(11)), Ok(false));
    assert_eq!(fw.is_blocked(a(12)), Ok(true));
}

#[test]
fn disable_selected_disables_exactly_the_selection() {
    let servers = Servers::from_parsed(vec![
        entry("eur", vec![a(10)]),
        entry("sgp", vec![a(11), a(12)]),
    ]);
    let mut app = App::new(servers);
    let mut fw = MemoryFirewall::new();

    app.set_ip_selected(a(12), true);
    assert!(app.disable_selected_ips(&mut fw).is_empty());

    assert_eq!(fw.is_blocked(a(10)), Ok(false));
    assert_eq!(fw.is_blocked(a(11)), Ok(false));
    assert_eq!(fw.is_blocked(a(12)), Ok(true));
}

#[test]
fn disable_all_then_enable_all_round_trip() {
    let servers = Servers::from_parsed(vec![
        entry("eur", vec![a(10)]),
        entry("sgp", vec![a(11), a(12)]),
    ]);
    let mut app = App::new(servers);
    let mut fw = MemoryFirewall::new();
    let mut probe = ProbeWorker::new();
    let mut status = StatusWorker::new();

    assert!(app.disable_all_servers(&mut fw).is_empty());
    settle(&mut app, &mut fw, &mut probe, &mut status);
    assert_eq!(fw.blocked_count(), 3);
    assert_eq!(*app.get_server_status(0), ServerState::AllDisabled);
    assert_eq!(*app.get_server_status(1), ServerState::AllDisabled);
    assert_eq!(probe.len(), 0);

    assert!(app.enable_all_servers(&mut fw).is_empty());
    settle(&mut app, &mut fw, &mut probe, &mut status);
    assert_eq!(fw.blocked_count(), 0);
    assert_eq!(*app.get_server_status(0), ServerState::NoneDisabled);
    assert_eq!(*app.get_server_status(1), ServerState::NoneDisabled);
    assert!(probe.contains(a(10)));
    assert!(probe.contains(a(11)));
    assert!(probe.contains(a(12)));
}

#[test]
fn enable_single_ip_restores_probing_for_it() {
    let servers = Servers::from_parsed(vec![entry("sgp", vec![a(4), a(5)])]);
    let mut app = App::new(servers);
    let mut fw = MemoryFirewall::new();
    let mut probe = ProbeWorker::new();
    let mut status = StatusWorker::new();

    assert!(app.disable_all_servers(&mut fw).is_empty());
    settle(&mut app, &mut fw, &mut probe, &mut status);
    assert_eq!(*app.get_server_status(0), ServerState::AllDisabled);

    let idx = app.find_server_index("sgp").unwrap();
    app.enable_ip(&mut fw, idx, a(4)).unwrap();
    assert_eq!(fw.is_blocked(a(4)), Ok(false));
    assert_eq!(fw.is_blocked(a(5)), Ok(true));

    settle(&mut app, &mut fw, &mut probe, &mut status);
    assert_eq!(
        *app.get_server_status(0),
        ServerState::SomeDisabled(vec![a(5)])
    );
    assert!(probe.contains(a(4)));
    assert!(!probe.contains(a(5)));
}
