use steam_server_disable::addr::Address;
use steam_server_disable::worklist::AddressSet;

fn a(o0: u8, o1: u8, o2: u8, o3: u8) -> Address {
    Address::new(o0, o1, o2, o3)
}

#[test]
fn push_if_absent_twice_yields_single_entry() {
    let mut set = AddressSet::new();
    let addr = a(1, 2, 3, 4);
    set.push_if_absent(addr);
    set.push_if_absent(addr);
    assert_eq!(set.len(), 1);
    assert!(set.contains(addr));
    let items = set.to_vec();
    assert_eq!(items.iter().filter(|x| **x == addr).count(), 1);
}

#[test]
fn push_if_absent_keeps_distinct_addresses() {
    let mut set = AddressSet::new();
    set.push_if_absent(a(1, 0, 0, 1));
    set.push_if_absent(a(1, 0, 0, 2));
    set.push_if_absent(a(1, 0, 0, 1));
    assert_eq!(set.len(), 2);
    assert!(set.contains(a(1, 0, 0, 1)));
    assert!(set.contains(a(1, 0, 0, 2)));
}

#[test]
fn remove_absent_is_a_no_op() {
    let mut set = AddressSet::new();
    set.push_if_absent(a(1, 0, 0, 1));
    set.remove(a(9, 9, 9, 9));
    assert_eq!(set.len(), 1);
    assert!(set.contains(a(1, 0, 0, 1)));
}

#[test]
fn remove_present_drops_exactly_that_address() {
    let mut set = AddressSet::new();
    set.push_if_absent(a(1, 0, 0, 1));
    set.push_if_absent(a(1, 0, 0, 2));
    set.push_if_absent(a(1, 0, 0, 3));
    set.remove(a(1, 0, 0, 2));
    assert_eq!(set.len(), 2);
    assert!(set.contains(a(1, 0, 0, 1)));
    assert!(!set.contains(a(1, 0, 0, 2)));
    assert!(set.contains(a(1, 0, 0, 3)));
    // removal twice is idempotent
    set.remove(a(1, 0, 0, 2));
    assert_eq!(set.len(), 2);
}

#[test]
fn append_all_if_absent_deduplicates_against_set_and_batch() {
    let mut set = AddressSet::new();
    set.push_if_absent(a(1, 0, 0, 1));
    let batch = vec![a(1, 0, 0, 1), a(1, 0, 0, 2), a(1, 0, 0, 2), a(1, 0, 0, 3)];
    set.append_all_if_absent(&batch);
    assert_eq!(set.len(), 3);
    let items = set.to_vec();
    assert_eq!(items, vec![a(1, 0, 0, 1), a(1, 0, 0, 2), a(1, 0, 0, 3)]);
    // repeated application changes nothing
    set.append_all_if_absent(&batch);
    assert_eq!(set.len(), 3);
}

#[test]
fn clear_empties_the_worklist() {
    let mut set = AddressSet::new();
    set.push_if_absent(a(1, 0, 0, 1));
    set.push_if_absent(a(1, 0, 0, 2));
    set.clear();
    assert!(set.is_empty());
    assert_eq!(set.len(), 0);
    assert!(!set.contains(a(1, 0, 0, 1)));
}

#[test]
fn index_returns_worklist_order() {
    let mut set = AddressSet::new();
    set.push_if_absent(a(1, 0, 0, 1));
    set.push_if_absent(a(1, 0, 0, 2));
    assert_eq!(set.index(0), a(1, 0, 0, 1));
    assert_eq!(set.index(1), a(1, 0, 0, 2));
}
