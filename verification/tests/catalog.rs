use steam_server_disable::addr::Address;
use steam_server_disable::firewall::{FirewallRequirements, MemoryFirewall};
use steam_server_disable::steam_server::{
    addr_vec_contains, addr_vec_eq, name_le, str_eq, ServerInfo, ServerState, Servers,
};

fn a(last: u8) -> Address {
    Address::new(10, 0, 0, last)
}

fn entry(name: &str, ips: Vec<Address>) -> (String, Option<String>, Vec<Address>) {
    (name.to_string(), None, ips)
}

#[test]
fn from_parsed_sorts_groups_by_name() {
    let servers = Servers::from_parsed(vec![
        entry("sgt", vec![a(3)]),
        entry("eur", vec![a(1)]),
        entry("sgp", vec![a(2)]),
    ]);
    let names: Vec<&str> = servers.get_servers().iter().map(|s| s.get_abr()).collect();
    assert_eq!(names, vec!["eur", "sgp", "sgt"]);
    assert_eq!(servers.len(), 3);
}

#[test]
fn server_info_getters() {
    let info = ServerInfo::new(
        "sgp".to_string(),
        Some("Singapore".to_string()),
        vec![a(1), a(2)],
    );
    assert_eq!(info.get_abr(), "sgp");
    assert_eq!(info.desc(), Some("Singapore"));
    assert_eq!(info.get_ipv4s(), &vec![a(1), a(2)]);
    assert_eq!(info.ipv4s_vec(), vec![a(1), a(2)]);
    assert_eq!(info.abr_string(), "sgp".to_string());

    let bare = ServerInfo::new("eur".to_string(), None, vec![]);
    assert_eq!(bare.desc(), None);
}

#[test]
fn ban_and_unban_touch_every_address() {
    let info = ServerInfo::new("sgp".to_string(), None, vec![a(1), a(2)]);
    let mut fw = MemoryFirewall::new();
    info.ban(&mut fw).unwrap();
    assert_eq!(fw.is_blocked(a(1)), Ok(true));
    assert_eq!(fw.is_blocked(a(2)), Ok(true));
    assert_eq!(fw.blocked_count(), 2);
    // banning again is idempotent
    info.ban(&mut fw).unwrap();
    assert_eq!(fw.blocked_count(), 2);
    info.unban(&mut fw).unwrap();
    assert_eq!(fw.is_blocked(a(1)), Ok(false));
    assert_eq!(fw.is_blocked(a(2)), Ok(false));
    assert_eq!(fw.blocked_count(), 0);
    // unbanning an unblocked group succeeds silently
    info.unban(&mut fw).unwrap();
}

#[test]
fn name_ordering_and_equality_helpers() {
    assert!(name_le("abc", "abd"));
    assert!(!name_le("abd", "abc"));
    assert!(name_le("ab", "abc"));
    assert!(name_le("abc", "abc"));
    assert!(str_eq("sgp", "sgp"));
    assert!(!str_eq("sgp", "sgp2"));
    assert!(!str_eq("sgp", "sgq"));
}

#[test]
fn address_vector_helpers() {
    let v = vec![a(1), a(2)];
    assert!(addr_vec_eq(&v, &vec![a(1), a(2)]));
    assert!(!addr_vec_eq(&v, &vec![a(2), a(1)]));
    assert!(!addr_vec_eq(&v, &vec![a(1)]));
    assert!(addr_vec_contains(&v, a(2)));
    assert!(!addr_vec_contains(&v, a(3)));
}

#[test]
fn server_state_equality() {
    assert_eq!(ServerState::AllDisabled, ServerState::AllDisabled);
    assert_ne!(ServerState::AllDisabled, ServerState::NoneDisabled);
    assert_eq!(
        ServerState::SomeDisabled(vec![a(1)]),
        ServerState::SomeDisabled(vec![a(1)])
    );
    assert_ne!(
        ServerState::SomeDisabled(vec![a(1)]),
        ServerState::SomeDisabled(vec![a(2)])
    );
    assert_ne!(ServerState::Unknown, ServerState::NoneDisabled);
}
