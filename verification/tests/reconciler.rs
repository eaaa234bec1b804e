use steam_server_disable::addr::Address;
use steam_server_disable::app::ServerSelectionStatus;
use steam_server_disable::app::{average_rtt_micros, loss_percent, App, AppMode, MAX_PINGS_PER_IP};
use steam_server_disable::logger::CombineLoggers;
use steam_server_disable::ping::{self, PingInfo};
use steam_server_disable::steam_server::{ServerState, Servers};

fn a(last: u8) -> Address {
    Address::new(10, 0, 0, last)
}

fn entry(name: &str, ips: Vec<Address>) -> (String, Option<String>, Vec<Address>) {
    (name.to_string(), None, ips)
}

fn small_app() -> App {
    App::new(Servers::from_parsed(vec![
        entry("eur", vec![a(3)]),
        entry("sgp", vec![a(1), a(2)]),
    ]))
}

#[test]
fn new_app_queues_whole_catalog_for_classification() {
    let mut app = small_app();
    // no probing before the first classification arrives
    assert!(app.take_pinger_messages().is_empty());
    let status_msgs = app.take_status_messages();
    assert_eq!(status_msgs.len(), 1);
    // taking drains the outbox
    assert!(app.take_status_messages().is_empty());
    assert_eq!(
        *app.get_server_status(0),
        ServerState::Unknown
    );
    assert_eq!(
        *app.get_server_status(1),
        ServerState::Unknown
    );
}

#[test]
fn history_cap_keeps_twenty_most_recent() {
    let mut app = small_app();
    // 25 sequential outcomes for one address, rtt 0..24 microseconds
    for k in 0..25u64 {
        app.handle_ping_report(a(1), Ok(PingInfo::new(k)));
    }
    let hist = app.ping_history(a(1)).unwrap();
    assert_eq!(hist.len(), MAX_PINGS_PER_IP);
    assert_eq!(hist.len(), 20);
    // most recent first: 24, 23, ..., 5; the oldest five are discarded
    for (pos, outcome) in hist.iter().enumerate() {
        assert_eq!(*outcome, Ok(PingInfo::new(24 - pos as u64)));
    }
}

#[test]
fn ping_report_for_unknown_address_creates_history() {
    let mut app = small_app();
    assert!(app.ping_history(a(9)).is_none());
    app.handle_ping_report(a(9), Err(ping::Error::Unreachable));
    let hist = app.ping_history(a(9)).unwrap();
    assert_eq!(hist.len(), 1);
    assert_eq!(hist[0], Err(ping::Error::Unreachable));
}

#[test]
fn failed_probes_of_every_kind_count_as_losses() {
    let mut app = small_app();
    app.handle_ping_report(a(1), Err(ping::Error::Unreachable));
    app.handle_ping_report(a(1), Err(ping::Error::IoError));
    app.handle_ping_report(a(1), Err(ping::Error::SendError));
    app.handle_ping_report(a(1), Err(ping::Error::UnknownReturnAddress(a(8))));
    let (rtt, count, lost) = app.calculate_total_ping_for_ip(a(1));
    assert_eq!((rtt, count, lost), (0, 4, 4));
}

#[test]
fn aggregation_sums_rtt_samples_and_losses() {
    let mut app = small_app();
    app.handle_ping_report(a(1), Ok(PingInfo::new(100)));
    app.handle_ping_report(a(1), Err(ping::Error::IoError));
    app.handle_ping_report(a(2), Ok(PingInfo::new(50)));
    let (rtt, count, lost) = app.calculate_total_ping_for_ip(a(1));
    assert_eq!((rtt, count, lost), (100, 2, 1));
    let (rtt, count, lost) = app.aggregate_ping(&vec![a(1), a(2)]);
    assert_eq!((rtt, count, lost), (150, 3, 1));
    assert_eq!(average_rtt_micros(rtt, count, lost), Some(75));
    assert_eq!(loss_percent(count, lost), Some(33));
}

#[test]
fn aggregation_with_no_samples_is_unavailable() {
    let app = small_app();
    let (rtt, count, lost) = app.aggregate_ping(&vec![a(1), a(2)]);
    assert_eq!((rtt, count, lost), (0, 0, 0));
    assert_eq!(average_rtt_micros(rtt, count, lost), None);
    assert_eq!(loss_percent(count, lost), None);
}

#[test]
fn aggregation_with_all_samples_lost_reports_full_loss_and_no_average() {
    let mut app = small_app();
    for _ in 0..5 {
        app.handle_ping_report(a(1), Err(ping::Error::SendError));
    }
    let (rtt, count, lost) = app.aggregate_ping(&vec![a(1)]);
    assert_eq!((rtt, count, lost), (0, 5, 5));
    assert_eq!(average_rtt_micros(rtt, count, lost), None);
    assert_eq!(loss_percent(count, lost), Some(100));
}

#[test]
fn status_report_for_unknown_group_is_ignored() {
    let mut app = small_app();
    app.take_status_messages();
    app.handle_status_report("nope", ServerState::AllDisabled);
    assert_eq!(*app.get_server_status(0), ServerState::Unknown);
    assert_eq!(*app.get_server_status(1), ServerState::Unknown);
    assert!(app.take_pinger_messages().is_empty());
}

#[test]
fn last_status_report_wins() {
    let mut app = small_app();
    app.take_status_messages();
    app.update(
        &vec![],
        vec![
            ("sgp".to_string(), ServerState::NoneDisabled),
            ("sgp".to_string(), ServerState::AllDisabled),
        ],
    );
    assert_eq!(*app.get_server_status(1), ServerState::AllDisabled);
}

#[test]
fn unchanged_status_report_emits_no_adjustments() {
    let mut app = small_app();
    app.take_status_messages();
    app.handle_status_report("sgp", ServerState::NoneDisabled);
    assert!(!app.take_pinger_messages().is_empty());
    app.handle_status_report("sgp", ServerState::NoneDisabled);
    assert!(app.take_pinger_messages().is_empty());
}

#[test]
fn purge_drops_exactly_the_marked_histories() {
    let mut app = small_app();
    app.handle_ping_report(a(1), Ok(PingInfo::new(10)));
    app.handle_ping_report(a(2), Ok(PingInfo::new(20)));
    app.purge_ping_histories(&vec![a(1)]);
    assert!(app.ping_history(a(1)).is_none());
    assert!(app.ping_history(a(2)).is_some());
}

#[test]
fn selection_round_trip() {
    let mut app = small_app();
    assert!(!app.is_ip_selected(a(1)));
    app.set_ip_selected(a(1), true);
    assert!(app.is_ip_selected(a(1)));
    assert!(!app.is_ip_selected(a(2)));
    app.set_ip_selected(a(1), false);
    assert!(!app.is_ip_selected(a(1)));
    app.select_all(true);
    assert!(app.is_ip_selected(a(1)));
    assert!(app.is_ip_selected(a(2)));
    assert!(app.is_ip_selected(a(3)));
}

#[test]
fn selection_status_per_group() {
    let mut app = small_app();
    // catalog order: eur [a3], sgp [a1, a2]
    app.set_ip_selected(a(1), true);
    let statuses = app.servers_selection_status();
    assert!(matches!(statuses[0], ServerSelectionStatus::NoneSelected));
    assert!(matches!(statuses[1], ServerSelectionStatus::SomeSelected));
    app.set_ip_selected(a(2), true);
    let statuses = app.servers_selection_status();
    assert!(matches!(statuses[1], ServerSelectionStatus::AllSelected));
}

#[test]
fn app_mode_listing() {
    let modes = AppMode::all();
    assert_eq!(modes.len(), 2);
    assert_eq!(modes[0], AppMode::Grid);
    assert_eq!(modes[1], AppMode::MapView);
}

#[test]
fn combine_loggers_holds_both_sinks() {
    let pair = CombineLoggers::new(1u32, "env".to_string());
    assert_eq!(*pair.first(), 1u32);
    assert_eq!(pair.second(), "env");
}

#[test]
fn ping_info_round_trip() {
    let info = PingInfo::new(1234);
    assert_eq!(info.get_rtt(), 1234);
    assert_eq!(info, PingInfo::new(1234));
}

#[test]
fn find_server_index_by_name() {
    let app = small_app();
    assert_eq!(app.find_server_index("eur"), Some(0));
    assert_eq!(app.find_server_index("sgp"), Some(1));
    assert_eq!(app.find_server_index("sgp2"), None);
}
