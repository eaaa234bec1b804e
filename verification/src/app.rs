use vstd::prelude::*;

use crate::addr::Address;
use crate::firewall::FirewallRequirements;
use crate::ping::{self, PingInfo};
use crate::pinger_worker::{pinger_views, PingerMessage, PingerMessageView};
use crate::status_worker::{status_views, ServerStatusMessage, ServerStatusMessageView};
use crate::steam_server::{ServerInfo, ServerInfoView, ServerState, ServerStateView, Servers};

verus! {

/// How many probe outcomes are kept per address, most recent first;
/// older outcomes are discarded on insertion.
pub const MAX_PINGS_PER_IP: usize = 20;

/// The outcome of one probe as the reconciler records it.
pub type ProbeOutcome = Result<PingInfo, ping::Error>;

/// UI mode of the application.
#[derive(Debug, Clone, Copy, PartialEq, Eq, Structural, Hash)]
pub enum AppMode {
    Grid,
    MapView,
}

impl AppMode {
    /// Get all the `AppMode`s.
    pub fn all() -> (r: [AppMode; 2])
        ensures
            r@.len() == 2,
            r@[0] == AppMode::Grid,
            r@[1] == AppMode::MapView,
    {
        [AppMode::Grid, AppMode::MapView]
    }
}

/// How much of one group's address list is currently selected.
#[derive(Debug, Clone, Copy, PartialEq, Eq, Structural)]
pub enum ServerSelectionStatus {
    /// All addresses are selected.
    AllSelected,
    /// Some addresses are selected.
    SomeSelected,
    /// No address is selected.
    NoneSelected,
}

/// The views of the stored history entries.
pub open spec fn hist_entries_view(s: Seq<(Address, Vec<ProbeOutcome>)>) -> Seq<
    (Address, Seq<ProbeOutcome>),
> {
    s.map_values(|e: (Address, Vec<ProbeOutcome>)| (e.0, e.1@))
}

/// The position of the first history entry for `a`.
pub open spec fn hist_index(h: Seq<(Address, Seq<ProbeOutcome>)>, a: Address) -> Option<int>
    decreases h.len(),
{
    if h.len() == 0 {
        Option::None
    } else if h[0].0 == a {
        Option::Some(0int)
    } else {
        match hist_index(h.drop_first(), a) {
            Option::Some(i) => Option::Some(i + 1),
            Option::None => Option::None,
        }
    }
}

/// What `hist_index` means.
pub proof fn hist_index_ensures(h: Seq<(Address, Seq<ProbeOutcome>)>, a: Address)
    ensures
        match hist_index(h, a) {
            Option::Some(i) => 0 <= i < h.len() && h[i].0 == a && forall|j: int|
                0 <= j < i ==> h[j].0 != a,
            Option::None => forall|j: int| 0 <= j < h.len() ==> h[j].0 != a,
        },
    decreases h.len(),
{
    if h.len() > 0 && h[0].0 != a {
        hist_index_ensures(h.drop_first(), a);
        match hist_index(h.drop_first(), a) {
            Option::Some(i) => {
                assert(h[i + 1] == h.drop_first()[i]);
                assert forall|j: int| 0 <= j < i + 1 implies h[j].0 != a by {
                    if j > 0 {
                        assert(h.drop_first()[j - 1].0 != a);
                    }
                }
            },
            Option::None => {
                assert forall|j: int| 0 <= j < h.len() implies h[j].0 != a by {
                    if j > 0 {
                        assert(h.drop_first()[j - 1].0 != a);
                    }
                }
            },
        }
    }
}

/// Every address has at most one history entry.
pub open spec fn hist_keys_unique(h: Seq<(Address, Seq<ProbeOutcome>)>) -> bool {
    forall|i: int, j: int| 0 <= i < j < h.len() ==> (#[trigger] h[i]).0 != (#[trigger] h[j]).0
}

/// Every history is within the cap.
pub open spec fn hists_capped(h: Seq<(Address, Seq<ProbeOutcome>)>) -> bool {
    forall|i: int| 0 <= i < h.len() ==> (#[trigger] h[i]).1.len() <= MAX_PINGS_PER_IP
}

/// Whether any probe history is recorded for `a`.
pub open spec fn has_hist(h: Seq<(Address, Seq<ProbeOutcome>)>, a: Address) -> bool {
    hist_index(h, a) is Some
}

/// The recorded history for `a`, most recent first; empty when none.
pub open spec fn hist_of(h: Seq<(Address, Seq<ProbeOutcome>)>, a: Address) -> Seq<ProbeOutcome> {
    match hist_index(h, a) {
        Option::Some(i) => h[i].1,
        Option::None => Seq::<ProbeOutcome>::empty(),
    }
}

/// `s` cut down to the history cap.
pub open spec fn capped(s: Seq<ProbeOutcome>) -> Seq<ProbeOutcome> {
    if s.len() <= MAX_PINGS_PER_IP {
        s
    } else {
        s.take(MAX_PINGS_PER_IP as int)
    }
}

/// The history table after one probe report lands: the outcome goes to the
/// front of the address's history, which is created on first report and
/// truncated to the cap.
pub open spec fn apply_ping_report(
    h: Seq<(Address, Seq<ProbeOutcome>)>,
    a: Address,
    outcome: ProbeOutcome,
) -> Seq<(Address, Seq<ProbeOutcome>)> {
    match hist_index(h, a) {
        Option::Some(i) => h.update(i, (a, capped(seq![outcome] + h[i].1))),
        Option::None => h.push((a, seq![outcome])),
    }
}

/// Looking an address up after appending an entry for a fresh address:
/// the fresh address gets the new history, every other lookup is
/// unchanged.
proof fn lemma_hist_push(h: Seq<(Address, Seq<ProbeOutcome>)>, e: (Address, Seq<ProbeOutcome>))
    ensures
        !has_hist(h, e.0) ==> hist_of(h.push(e), e.0) == e.1 && has_hist(h.push(e), e.0),
        forall|b: Address| b != e.0 ==> hist_of(h.push(e), b) == hist_of(h, b) && has_hist(
            h.push(e),
            b,
        ) == has_hist(h, b),
    decreases h.len(),
{
    if h.len() == 0 {
        assert(h.push(e)[0] == e);
        assert forall|b: Address| b != e.0 implies hist_of(h.push(e), b) == hist_of(h, b)
            && has_hist(h.push(e), b) == has_hist(h, b) by {
            assert(hist_index(h.push(e), b) is None) by {
                assert(h.push(e).len() == 1);
                assert(h.push(e)[0].0 != b);
                assert(h.push(e).drop_first() =~= Seq::<(Address, Seq<ProbeOutcome>)>::empty());
                assert(hist_index(h.push(e).drop_first(), b) is None);
            }
        }
    } else {
        lemma_hist_push(h.drop_first(), e);
        assert(h.push(e)[0] == h[0]);
        assert(h.push(e).drop_first() =~= h.drop_first().push(e));
        hist_index_ensures(h, e.0);
        hist_index_ensures(h.drop_first(), e.0);
        if !has_hist(h, e.0) {
            assert(h[0].0 != e.0);
            assert(!has_hist(h.drop_first(), e.0));
            lemma_hist_skip_head(h.push(e), e.0);
        }
        assert forall|b: Address| b != e.0 implies hist_of(h.push(e), b) == hist_of(h, b)
            && has_hist(h.push(e), b) == has_hist(h, b) by {
            if h[0].0 == b {
                assert(hist_index(h.push(e), b) == Option::Some(0int));
                assert(hist_index(h, b) == Option::Some(0int));
            } else {
                lemma_hist_skip_head(h.push(e), b);
                lemma_hist_skip_head(h, b);
            }
        }
    }
}

/// The history cap law: after a probe report for `a` lands, `a`'s
/// recorded history is the new outcome in front of the old history, cut
/// to the cap, and no other address's history changes.
pub proof fn lemma_apply_ping_report_hist(
    h: Seq<(Address, Seq<ProbeOutcome>)>,
    a: Address,
    o: ProbeOutcome,
)
    ensures
        hist_of(apply_ping_report(h, a, o), a) == capped(seq![o] + hist_of(h, a)),
        has_hist(apply_ping_report(h, a, o), a),
        forall|b: Address| b != a ==> hist_of(apply_ping_report(h, a, o), b) == hist_of(h, b)
            && has_hist(apply_ping_report(h, a, o), b) == has_hist(h, b),
{
    hist_index_ensures(h, a);
    match hist_index(h, a) {
        Option::Some(i) => {
            let e = (a, capped(seq![o] + h[i].1));
            let g = h.update(i, e);
            hist_index_ensures(g, a);
            assert(g[i].0 == a);
            assert(hist_index(g, a) is Some) by {
                if hist_index(g, a) is None {
                    assert(g[i].0 != a);
                }
            }
            let idx = hist_index(g, a)->Some_0;
            assert(idx == i) by {
                if idx < i {
                    assert(h[idx] == g[idx]);
                    assert(g[idx].0 != a);
                }
                if idx > i {
                    assert(g[i].0 != a);
                }
            }
            assert forall|b: Address| b != a implies hist_of(g, b) == hist_of(h, b) && has_hist(
                g,
                b,
            ) == has_hist(h, b) by {
                hist_index_ensures(h, b);
                hist_index_ensures(g, b);
                match hist_index(h, b) {
                    Option::Some(j) => {
                        assert(g[j].0 == b);
                        assert(hist_index(g, b) is Some) by {
                            if hist_index(g, b) is None {
                                assert(g[j].0 != b);
                            }
                        }
                        let jg = hist_index(g, b)->Some_0;
                        assert(jg == j) by {
                            if jg < j {
                                assert(h[jg].0 != b);
                                assert(g[jg].0 == h[jg].0);
                            }
                            if jg > j {
                                assert(g[j].0 != b);
                            }
                        }
                        assert(g[j] == h[j]);
                    },
                    Option::None => {
                        assert(hist_index(g, b) is None) by {
                            if hist_index(g, b) is Some {
                                let jg = hist_index(g, b)->Some_0;
                                assert(g[jg].0 == b);
                                assert(h[jg].0 == g[jg].0);
                            }
                        }
                    },
                }
            }
        },
        Option::None => {
            lemma_hist_push(h, (a, seq![o]));
            assert(hist_of(h, a) == Seq::<ProbeOutcome>::empty());
            assert(seq![o] + Seq::<ProbeOutcome>::empty() =~= seq![o]);
        },
    }
}

/// The history table after a whole batch of reports, in receipt order.
pub open spec fn apply_ping_reports(
    h: Seq<(Address, Seq<ProbeOutcome>)>,
    rs: Seq<(Address, ProbeOutcome)>,
) -> Seq<(Address, Seq<ProbeOutcome>)>
    decreases rs.len(),
{
    if rs.len() == 0 {
        h
    } else {
        apply_ping_report(apply_ping_reports(h, rs.drop_last()), rs.last().0, rs.last().1)
    }
}

/// The history table with every entry for an address of `ips` dropped.
pub open spec fn purge_hists(
    h: Seq<(Address, Seq<ProbeOutcome>)>,
    ips: Seq<Address>,
) -> Seq<(Address, Seq<ProbeOutcome>)>
    decreases h.len(),
{
    if h.len() == 0 {
        Seq::<(Address, Seq<ProbeOutcome>)>::empty()
    } else if ips.contains(h[0].0) {
        purge_hists(h.drop_first(), ips)
    } else {
        seq![h[0]] + purge_hists(h.drop_first(), ips)
    }
}

/// Looking an address up in a history table whose first entry is for a
/// different address is looking it up in the rest of the table.
proof fn lemma_hist_skip_head(h: Seq<(Address, Seq<ProbeOutcome>)>, a: Address)
    requires
        h.len() > 0,
        h[0].0 != a,
    ensures
        has_hist(h, a) == has_hist(h.drop_first(), a),
        hist_of(h, a) == hist_of(h.drop_first(), a),
{
    hist_index_ensures(h.drop_first(), a);
    match hist_index(h.drop_first(), a) {
        Option::Some(i) => {
            assert(hist_index(h, a) == Option::Some(i + 1));
            assert(h[i + 1] == h.drop_first()[i]);
        },
        Option::None => {},
    }
}

/// A purge drops exactly the histories of the given addresses and keeps
/// every other history unchanged.
pub proof fn lemma_purge_hists(h: Seq<(Address, Seq<ProbeOutcome>)>, ips: Seq<Address>)
    ensures
        forall|a: Address| ips.contains(a) ==> !has_hist(purge_hists(h, ips), a),
        forall|a: Address| !ips.contains(a) ==> hist_of(purge_hists(h, ips), a) == hist_of(h, a)
            && has_hist(purge_hists(h, ips), a) == has_hist(h, a),
        forall|k: int| 0 <= k < purge_hists(h, ips).len() ==> h.contains(
            #[trigger] purge_hists(h, ips)[k],
        ),
        hist_keys_unique(h) ==> hist_keys_unique(purge_hists(h, ips)),
    decreases h.len(),
{
    if h.len() == 0 {
    } else {
        if hist_keys_unique(h) {
            assert(hist_keys_unique(h.drop_first())) by {
                assert forall|x: int, y: int|
                    0 <= x < y < h.drop_first().len() implies (
                #[trigger] h.drop_first()[x]).0 != (#[trigger] h.drop_first()[y]).0 by {
                    assert(h.drop_first()[x] == h[x + 1]);
                    assert(h.drop_first()[y] == h[y + 1]);
                }
            }
        }
        lemma_purge_hists(h.drop_first(), ips);
        let rest = purge_hists(h.drop_first(), ips);
        assert forall|k: int| 0 <= k < rest.len() implies h.drop_first().contains(
            #[trigger] rest[k],
        ) by {}
        assert forall|k: int|
            0 <= k < purge_hists(h, ips).len() implies h.contains(
            #[trigger] purge_hists(h, ips)[k],
        ) by {
            if ips.contains(h[0].0) {
                let j = choose|j: int|
                    0 <= j < h.drop_first().len() && h.drop_first()[j] == purge_hists(h, ips)[k];
                assert(h[j + 1] == purge_hists(h, ips)[k]);
            } else {
                if k == 0 {
                    assert(h[0] == purge_hists(h, ips)[k]);
                } else {
                    assert(rest[k - 1] == purge_hists(h, ips)[k]);
                    let j = choose|j: int|
                        0 <= j < h.drop_first().len() && h.drop_first()[j] == rest[k - 1];
                    assert(h[j + 1] == purge_hists(h, ips)[k]);
                }
            }
        }
        if ips.contains(h[0].0) {
            assert forall|a: Address| !ips.contains(a) implies hist_of(purge_hists(h, ips), a)
                == hist_of(h, a) && has_hist(purge_hists(h, ips), a) == has_hist(h, a) by {
                assert(h[0].0 != a);
                lemma_hist_skip_head(h, a);
                assert(purge_hists(h, ips) == rest);
            }
        } else {
            let p = purge_hists(h, ips);
            assert(p == seq![h[0]] + rest);
            assert(p.len() == rest.len() + 1);
            assert(p[0] == h[0]);
            assert(p.drop_first() =~= rest);
            assert forall|a: Address| ips.contains(a) implies !has_hist(p, a) by {
                assert(h[0].0 != a);
                lemma_hist_skip_head(p, a);
            }
            assert forall|a: Address| !ips.contains(a) implies hist_of(p, a) == hist_of(h, a)
                && has_hist(p, a) == has_hist(h, a) by {
                if h[0].0 == a {
                    assert(hist_index(p, a) == Option::Some(0int));
                    assert(hist_index(h, a) == Option::Some(0int));
                } else {
                    lemma_hist_skip_head(p, a);
                    lemma_hist_skip_head(h, a);
                }
            }
            if hist_keys_unique(h) {
                assert(hist_keys_unique(p)) by {
                    assert forall|x: int, y: int|
                        0 <= x < y < p.len() implies (#[trigger] p[x]).0 != (
                    #[trigger] p[y]).0 by {
                        if x == 0 {
                            assert(p[y] == rest[y - 1]);
                            assert(h.drop_first().contains(rest[y - 1]));
                            let j = choose|j: int|
                                0 <= j < h.drop_first().len() && h.drop_first()[j] == rest[y
                                    - 1];
                            assert(h[j + 1] == rest[y - 1]);
                            assert(h[0].0 != h[j + 1].0);
                        } else {
                            assert(p[x] == rest[x - 1]);
                            assert(p[y] == rest[y - 1]);
                        }
                    }
                }
            }
        }
    }
}

/// The initial selection table of a catalog: every address of every
/// group, unselected, in catalog order.
pub open spec fn init_selection(c: Seq<ServerInfoView>) -> Seq<(Address, bool)>
    decreases c.len(),
{
    if c.len() == 0 {
        Seq::<(Address, bool)>::empty()
    } else {
        init_selection(c.drop_last()) + c.last().ipv4s.map_values(|a: Address| (a, false))
    }
}

/// The (group name, address list) work items of the whole catalog.
pub open spec fn catalog_groups(c: Seq<ServerInfoView>) -> Seq<(Seq<char>, Seq<Address>)> {
    c.map_values(|s: ServerInfoView| (s.abr, s.ipv4s))
}

/// One remove-from-worklist message per address, in order.
pub open spec fn remove_msgs(ips: Seq<Address>) -> Seq<PingerMessageView> {
    Seq::new(ips.len(), |i: int| PingerMessageView::RemoveFromList(ips[i]))
}

/// The addresses of `ips` that are not in `d`, in order.
pub open spec fn addrs_not_in(ips: Seq<Address>, d: Seq<Address>) -> Seq<Address>
    decreases ips.len(),
{
    if ips.len() == 0 {
        Seq::<Address>::empty()
    } else {
        addrs_not_in(ips.drop_last(), d) + if d.contains(ips.last()) {
            Seq::<Address>::empty()
        } else {
            seq![ips.last()]
        }
    }
}

/// The first catalog index holding the given group name.
pub open spec fn find_server(c: Seq<ServerInfoView>, name: Seq<char>) -> Option<int>
    decreases c.len(),
{
    if c.len() == 0 {
        Option::None
    } else if c[0].abr == name {
        Option::Some(0int)
    } else {
        match find_server(c.drop_first(), name) {
            Option::Some(i) => Option::Some(i + 1),
            Option::None => Option::None,
        }
    }
}

/// What `find_server` means.
pub proof fn find_server_ensures(c: Seq<ServerInfoView>, name: Seq<char>)
    ensures
        match find_server(c, name) {
            Option::Some(i) => 0 <= i < c.len() && c[i].abr == name && forall|j: int|
                0 <= j < i ==> c[j].abr != name,
            Option::None => forall|j: int| 0 <= j < c.len() ==> c[j].abr != name,
        },
    decreases c.len(),
{
    if c.len() > 0 && c[0].abr != name {
        find_server_ensures(c.drop_first(), name);
        match find_server(c.drop_first(), name) {
            Option::Some(i) => {
                assert(c[i + 1] == c.drop_first()[i]);
                assert forall|j: int| 0 <= j < i + 1 implies c[j].abr != name by {
                    if j > 0 {
                        assert(c.drop_first()[j - 1].abr != name);
                    }
                }
            },
            Option::None => {
                assert forall|j: int| 0 <= j < c.len() implies c[j].abr != name by {
                    if j > 0 {
                        assert(c.drop_first()[j - 1].abr != name);
                    }
                }
            },
        }
    }
}

/// The probe-worklist adjustments a classification report triggers: a
/// fully blocked group's addresses stop being probed; a partially blocked
/// group's blocked addresses stop and the rest (re-)start; a fully
/// unblocked group's addresses (re-)start.
pub open spec fn status_adjust_pinger(s: ServerInfoView, st: ServerStateView) -> Seq<
    PingerMessageView,
> {
    match st {
        ServerStateView::AllDisabled => remove_msgs(s.ipv4s),
        ServerStateView::SomeDisabled(d) => remove_msgs(d) + seq![
            PingerMessageView::AppendToList(addrs_not_in(s.ipv4s, d)),
        ],
        ServerStateView::NoneDisabled => seq![PingerMessageView::AppendToList(s.ipv4s)],
        ServerStateView::Unknown => Seq::<PingerMessageView>::empty(),
    }
}

/// The histories a classification report marks for purging: those of the
/// addresses that stopped being probed.
pub open spec fn status_purge(s: ServerInfoView, st: ServerStateView) -> Seq<Address> {
    match st {
        ServerStateView::AllDisabled => s.ipv4s,
        ServerStateView::SomeDisabled(d) => d,
        ServerStateView::NoneDisabled => Seq::<Address>::empty(),
        ServerStateView::Unknown => Seq::<Address>::empty(),
    }
}

/// One classification report applied to the reconciler's (group states,
/// probe-worker outbox, pending purges): a report for an unknown group
/// name changes nothing; a report equal to the group's current state only
/// records it, emitting no adjustments; a changed state records it and
/// emits the worklist adjustments and purges above.
pub open spec fn apply_status_report(
    c: Seq<ServerInfoView>,
    statuses: Seq<ServerStateView>,
    pout: Seq<PingerMessageView>,
    purge: Seq<Address>,
    name: Seq<char>,
    st: ServerStateView,
) -> (Seq<ServerStateView>, Seq<PingerMessageView>, Seq<Address>) {
    match find_server(c, name) {
        Option::None => (statuses, pout, purge),
        Option::Some(i) => if statuses[i] == st {
            (statuses.update(i, st), pout, purge)
        } else {
            (
                statuses.update(i, st),
                pout + status_adjust_pinger(c[i], st),
                purge + status_purge(c[i], st),
            )
        },
    }
}

/// A whole batch of classification reports applied in receipt order, so
/// the last report for a group wins.
pub open spec fn apply_status_reports(
    c: Seq<ServerInfoView>,
    statuses: Seq<ServerStateView>,
    pout: Seq<PingerMessageView>,
    purge: Seq<Address>,
    rs: Seq<(Seq<char>, ServerStateView)>,
) -> (Seq<ServerStateView>, Seq<PingerMessageView>, Seq<Address>)
    decreases rs.len(),
{
    if rs.len() == 0 {
        (statuses, pout, purge)
    } else {
        let prev = apply_status_reports(c, statuses, pout, purge, rs.drop_last());
        apply_status_report(c, prev.0, prev.1, prev.2, rs.last().0, rs.last().1)
    }
}

/// The views of a batch of classification reports.
pub open spec fn report_views(rs: Seq<(String, ServerState)>) -> Seq<
    (Seq<char>, ServerStateView),
> {
    rs.map_values(|r: (String, ServerState)| (r.0@, r.1@))
}

/// Queue one remove-from-worklist message per address.
fn push_remove_list(out: &mut Vec<PingerMessage>, ips: &Vec<Address>)
    ensures
        pinger_views(final(out)@) == pinger_views(old(out)@) + remove_msgs(ips@),
{
    let n = ips.len();
    let mut k: usize = 0;
    while k < n
        invariant
            k <= n,
            n == ips@.len(),
            pinger_views(out@) == pinger_views(old(out)@) + remove_msgs(ips@.take(k as int)),
        decreases n - k,
    {
        let ghost prev = out@;
        out.push(PingerMessage::RemoveFromList(ips[k]));
        proof {
            assert(pinger_views(out@) =~= pinger_views(prev).push(
                PingerMessageView::RemoveFromList(ips@[k as int]),
            ));
            assert(pinger_views(out@) =~= pinger_views(old(out)@) + remove_msgs(
                ips@.take(k + 1),
            ));
        }
        k += 1;
    }
    proof {
        assert(ips@.take(n as int) =~= ips@);
        assert(remove_msgs(ips@.take(n as int)) =~= remove_msgs(ips@));
    }
}

/// Append every address of `ips`.
fn append_addrs(out: &mut Vec<Address>, ips: &Vec<Address>)
    ensures
        final(out)@ == old(out)@ + ips@,
{
    let n = ips.len();
    let mut k: usize = 0;
    while k < n
        invariant
            k <= n,
            n == ips@.len(),
            out@ == old(out)@ + ips@.take(k as int),
        decreases n - k,
    {
        out.push(ips[k]);
        proof {
            assert(out@ =~= old(out)@ + ips@.take(k + 1));
        }
        k += 1;
    }
    proof {
        assert(ips@.take(n as int) =~= ips@);
    }
}

/// The addresses of `ips` that are not in `d`, as a fresh vector.
fn addrs_not_in_vec(ips: &Vec<Address>, d: &Vec<Address>) -> (r: Vec<Address>)
    ensures
        r@ == addrs_not_in(ips@, d@),
{
    let n = ips.len();
    let mut out: Vec<Address> = Vec::new();
    let mut k: usize = 0;
    while k < n
        invariant
            k <= n,
            n == ips@.len(),
            out@ == addrs_not_in(ips@.take(k as int), d@),
        decreases n - k,
    {
        proof {
            assert(ips@.take(k + 1).drop_last() =~= ips@.take(k as int));
            assert(ips@.take(k + 1).last() == ips@[k as int]);
        }
        if !crate::steam_server::addr_vec_contains(d, ips[k]) {
            out.push(ips[k]);
            proof {
                assert(out@ =~= addrs_not_in(ips@.take(k + 1), d@));
            }
        } else {
            proof {
                assert(out@ =~= addrs_not_in(ips@.take(k + 1), d@));
            }
        }
        k += 1;
    }
    proof {
        assert(ips@.take(n as int) =~= ips@);
    }
    out
}

/// The re-classification request a mutation queues for a group.
pub open spec fn reclassify_msg(s: ServerInfoView) -> ServerStatusMessageView {
    ServerStatusMessageView::AppendToList(seq![(s.abr, s.ipv4s)])
}

/// The probe-worklist messages that enabling a group queues: its
/// addresses are removed and then re-appended, so that an address that
/// just stopped being blocked is probed again even if stale worklist
/// membership would otherwise block re-insertion.
pub open spec fn enable_pinger_msgs(s: ServerInfoView) -> Seq<PingerMessageView> {
    remove_msgs(s.ipv4s) + seq![PingerMessageView::AppendToList(s.ipv4s)]
}

/// One re-classification request per group of the catalog prefix.
pub open spec fn reclassify_upto(c: Seq<ServerInfoView>, n: int) -> Seq<ServerStatusMessageView>
    decreases n,
{
    if n <= 0 {
        Seq::<ServerStatusMessageView>::empty()
    } else {
        reclassify_upto(c, n - 1) + seq![reclassify_msg(c[n - 1])]
    }
}

/// Append requests for every group of the prefix that is not fully
/// blocked. A group still in `Unknown` is skipped: its addresses must not
/// be probed before its first classification arrives.
pub open spec fn active_append_msgs(
    c: Seq<ServerInfoView>,
    st: Seq<ServerStateView>,
    n: int,
) -> Seq<PingerMessageView>
    decreases n,
{
    if n <= 0 {
        Seq::<PingerMessageView>::empty()
    } else {
        active_append_msgs(c, st, n - 1) + if st[n - 1] is NoneDisabled || st[n - 1]
            is SomeDisabled {
            seq![PingerMessageView::AppendToList(c[n - 1].ipv4s)]
        } else {
            Seq::<PingerMessageView>::empty()
        }
    }
}

/// Every address of every group of the catalog prefix.
pub open spec fn all_ips_upto(c: Seq<ServerInfoView>, n: int) -> Seq<Address>
    decreases n,
{
    if n <= 0 {
        Seq::<Address>::empty()
    } else {
        all_ips_upto(c, n - 1) + c[n - 1].ipv4s
    }
}

/// The position of the first selection entry for `a`.
pub open spec fn sel_index(sel: Seq<(Address, bool)>, a: Address) -> Option<int>
    decreases sel.len(),
{
    if sel.len() == 0 {
        Option::None
    } else if sel[0].0 == a {
        Option::Some(0int)
    } else {
        match sel_index(sel.drop_first(), a) {
            Option::Some(i) => Option::Some(i + 1),
            Option::None => Option::None,
        }
    }
}

/// What `sel_index` means.
pub proof fn sel_index_ensures(sel: Seq<(Address, bool)>, a: Address)
    ensures
        match sel_index(sel, a) {
            Option::Some(i) => 0 <= i < sel.len() && sel[i].0 == a && forall|j: int|
                0 <= j < i ==> sel[j].0 != a,
            Option::None => forall|j: int| 0 <= j < sel.len() ==> sel[j].0 != a,
        },
    decreases sel.len(),
{
    if sel.len() > 0 && sel[0].0 != a {
        sel_index_ensures(sel.drop_first(), a);
        match sel_index(sel.drop_first(), a) {
            Option::Some(i) => {
                assert(sel[i + 1] == sel.drop_first()[i]);
                assert forall|j: int| 0 <= j < i + 1 implies sel[j].0 != a by {
                    if j > 0 {
                        assert(sel.drop_first()[j - 1].0 != a);
                    }
                }
            },
            Option::None => {
                assert forall|j: int| 0 <= j < sel.len() implies sel[j].0 != a by {
                    if j > 0 {
                        assert(sel.drop_first()[j - 1].0 != a);
                    }
                }
            },
        }
    }
}

/// Whether the selection table marks `a` as selected; unlisted addresses
/// count as unselected.
pub open spec fn sel_of(sel: Seq<(Address, bool)>, a: Address) -> bool {
    match sel_index(sel, a) {
        Option::Some(i) => sel[i].1,
        Option::None => false,
    }
}

/// The selection table with `a`'s flag set to `v`: the first entry for
/// `a` is updated, or a new entry appended.
pub open spec fn set_sel(sel: Seq<(Address, bool)>, a: Address, v: bool) -> Seq<(Address, bool)> {
    match sel_index(sel, a) {
        Option::Some(i) => sel.update(i, (a, v)),
        Option::None => sel.push((a, v)),
    }
}

/// How many addresses of `ips` are selected.
pub open spec fn count_selected(ips: Seq<Address>, sel: Seq<(Address, bool)>) -> int
    decreases ips.len(),
{
    if ips.len() == 0 {
        0int
    } else {
        count_selected(ips.drop_last(), sel) + if sel_of(sel, ips.last()) {
            1int
        } else {
            0int
        }
    }
}

/// A group's selection status: none, some, or all of its addresses.
pub open spec fn selection_status_of(s: ServerInfoView, sel: Seq<(Address, bool)>)
    -> ServerSelectionStatus {
    if count_selected(s.ipv4s, sel) == 0 {
        ServerSelectionStatus::NoneSelected
    } else if count_selected(s.ipv4s, sel) == s.ipv4s.len() {
        ServerSelectionStatus::AllSelected
    } else {
        ServerSelectionStatus::SomeSelected
    }
}

/// Whether every group of the catalog is fully selected.
pub open spec fn all_groups_selected(c: Seq<ServerInfoView>, sel: Seq<(Address, bool)>) -> bool {
    forall|i: int| 0 <= i < c.len() ==> selection_status_of(#[trigger] c[i], sel)
        is AllSelected
}

/// The selected addresses of `ips`, in order.
pub open spec fn sel_filter(ips: Seq<Address>, sel: Seq<(Address, bool)>) -> Seq<Address>
    decreases ips.len(),
{
    if ips.len() == 0 {
        Seq::<Address>::empty()
    } else {
        sel_filter(ips.drop_last(), sel) + if sel_of(sel, ips.last()) {
            seq![ips.last()]
        } else {
            Seq::<Address>::empty()
        }
    }
}

/// One push message per selected address, in order.
pub open spec fn sel_push_msgs(ips: Seq<Address>, sel: Seq<(Address, bool)>) -> Seq<
    PingerMessageView,
>
    decreases ips.len(),
{
    if ips.len() == 0 {
        Seq::<PingerMessageView>::empty()
    } else {
        sel_push_msgs(ips.drop_last(), sel) + if sel_of(sel, ips.last()) {
            seq![PingerMessageView::PushToList(ips.last())]
        } else {
            Seq::<PingerMessageView>::empty()
        }
    }
}

/// One remove message per selected address, in order.
pub open spec fn sel_remove_msgs(ips: Seq<Address>, sel: Seq<(Address, bool)>) -> Seq<
    PingerMessageView,
>
    decreases ips.len(),
{
    if ips.len() == 0 {
        Seq::<PingerMessageView>::empty()
    } else {
        sel_remove_msgs(ips.drop_last(), sel) + if sel_of(sel, ips.last()) {
            seq![PingerMessageView::RemoveFromList(ips.last())]
        } else {
            Seq::<PingerMessageView>::empty()
        }
    }
}

/// One (drop stale request, re-classify) pair per selected address.
pub open spec fn sel_ip_status_msgs(s: ServerInfoView, sel: Seq<(Address, bool)>, n: int) -> Seq<
    ServerStatusMessageView,
>
    decreases n,
{
    if n <= 0 {
        Seq::<ServerStatusMessageView>::empty()
    } else {
        sel_ip_status_msgs(s, sel, n - 1) + if sel_of(sel, s.ipv4s[n - 1]) {
            seq![ServerStatusMessageView::RemoveServer(s.abr), reclassify_msg(s)]
        } else {
            Seq::<ServerStatusMessageView>::empty()
        }
    }
}

/// Probe-worklist messages queued by enabling the selected addresses of
/// the catalog prefix, group by group.
pub open spec fn enable_selected_pinger_upto(
    c: Seq<ServerInfoView>,
    sel: Seq<(Address, bool)>,
    n: int,
) -> Seq<PingerMessageView>
    decreases n,
{
    if n <= 0 {
        Seq::<PingerMessageView>::empty()
    } else {
        enable_selected_pinger_upto(c, sel, n - 1) + (match selection_status_of(c[n - 1], sel) {
            ServerSelectionStatus::AllSelected => enable_pinger_msgs(c[n - 1]),
            ServerSelectionStatus::SomeSelected => sel_push_msgs(c[n - 1].ipv4s, sel),
            ServerSelectionStatus::NoneSelected => Seq::<PingerMessageView>::empty(),
        })
    }
}

/// Probe-worklist messages queued by disabling the selected addresses.
pub open spec fn disable_selected_pinger_upto(
    c: Seq<ServerInfoView>,
    sel: Seq<(Address, bool)>,
    n: int,
) -> Seq<PingerMessageView>
    decreases n,
{
    if n <= 0 {
        Seq::<PingerMessageView>::empty()
    } else {
        disable_selected_pinger_upto(c, sel, n - 1) + (match selection_status_of(
            c[n - 1],
            sel,
        ) {
            ServerSelectionStatus::AllSelected => remove_msgs(c[n - 1].ipv4s),
            ServerSelectionStatus::SomeSelected => sel_remove_msgs(c[n - 1].ipv4s, sel),
            ServerSelectionStatus::NoneSelected => Seq::<PingerMessageView>::empty(),
        })
    }
}

/// Re-classification requests queued by an enable or disable of the
/// selected addresses.
pub open spec fn selected_status_upto(
    c: Seq<ServerInfoView>,
    sel: Seq<(Address, bool)>,
    n: int,
) -> Seq<ServerStatusMessageView>
    decreases n,
{
    if n <= 0 {
        Seq::<ServerStatusMessageView>::empty()
    } else {
        selected_status_upto(c, sel, n - 1) + (match selection_status_of(c[n - 1], sel) {
            ServerSelectionStatus::AllSelected => seq![reclassify_msg(c[n - 1])],
            ServerSelectionStatus::SomeSelected => sel_ip_status_msgs(
                c[n - 1],
                sel,
                c[n - 1].ipv4s.len() as int,
            ),
            ServerSelectionStatus::NoneSelected => Seq::<ServerStatusMessageView>::empty(),
        })
    }
}

/// The selected addresses of the catalog prefix, group by group: the
/// addresses an enable or disable of the selection hands to the
/// firewall, and the histories a disable marks for purging.
pub open spec fn selected_addrs_upto(
    c: Seq<ServerInfoView>,
    sel: Seq<(Address, bool)>,
    n: int,
) -> Seq<Address>
    decreases n,
{
    if n <= 0 {
        Seq::<Address>::empty()
    } else {
        selected_addrs_upto(c, sel, n - 1) + (match selection_status_of(c[n - 1], sel) {
            ServerSelectionStatus::AllSelected => c[n - 1].ipv4s,
            ServerSelectionStatus::SomeSelected => sel_filter(c[n - 1].ipv4s, sel),
            ServerSelectionStatus::NoneSelected => Seq::<Address>::empty(),
        })
    }
}

/// Whether a group's name matches the filter and not the exclusion.
pub open spec fn name_matched(
    s: ServerInfoView,
    pat: Seq<char>,
    ex: Option<Seq<char>>,
) -> bool {
    crate::matcher::regex_match(pat, s.abr) && !(match ex {
        Option::Some(e) => crate::matcher::regex_match(e, s.abr),
        Option::None => false,
    })
}

/// Probe-worklist messages queued by enabling every matching group.
pub open spec fn matching_enable_pinger_upto(
    c: Seq<ServerInfoView>,
    pat: Seq<char>,
    ex: Option<Seq<char>>,
    n: int,
) -> Seq<PingerMessageView>
    decreases n,
{
    if n <= 0 {
        Seq::<PingerMessageView>::empty()
    } else {
        matching_enable_pinger_upto(c, pat, ex, n - 1) + if name_matched(c[n - 1], pat, ex) {
            enable_pinger_msgs(c[n - 1])
        } else {
            Seq::<PingerMessageView>::empty()
        }
    }
}

/// Probe-worklist messages queued by disabling every matching group.
pub open spec fn matching_disable_pinger_upto(
    c: Seq<ServerInfoView>,
    pat: Seq<char>,
    ex: Option<Seq<char>>,
    n: int,
) -> Seq<PingerMessageView>
    decreases n,
{
    if n <= 0 {
        Seq::<PingerMessageView>::empty()
    } else {
        matching_disable_pinger_upto(c, pat, ex, n - 1) + if name_matched(c[n - 1], pat, ex) {
            remove_msgs(c[n - 1].ipv4s)
        } else {
            Seq::<PingerMessageView>::empty()
        }
    }
}

/// Re-classification requests queued for every matching group.
pub open spec fn matching_status_upto(
    c: Seq<ServerInfoView>,
    pat: Seq<char>,
    ex: Option<Seq<char>>,
    n: int,
) -> Seq<ServerStatusMessageView>
    decreases n,
{
    if n <= 0 {
        Seq::<ServerStatusMessageView>::empty()
    } else {
        matching_status_upto(c, pat, ex, n - 1) + if name_matched(c[n - 1], pat, ex) {
            seq![reclassify_msg(c[n - 1])]
        } else {
            Seq::<ServerStatusMessageView>::empty()
        }
    }
}

/// The addresses of every matching group of the catalog prefix: what an
/// enable or disable of the matching groups hands to the firewall, and
/// the histories a disable marks for purging.
pub open spec fn matching_addrs_upto(
    c: Seq<ServerInfoView>,
    pat: Seq<char>,
    ex: Option<Seq<char>>,
    n: int,
) -> Seq<Address>
    decreases n,
{
    if n <= 0 {
        Seq::<Address>::empty()
    } else {
        matching_addrs_upto(c, pat, ex, n - 1) + if name_matched(c[n - 1], pat, ex) {
            c[n - 1].ipv4s
        } else {
            Seq::<Address>::empty()
        }
    }
}

/// The summed round-trip time of a history's successful probes, in
/// microseconds.
pub open spec fn rtt_sum(hst: Seq<ProbeOutcome>) -> int
    decreases hst.len(),
{
    if hst.len() == 0 {
        0int
    } else {
        rtt_sum(hst.drop_last()) + (match hst.last() {
            Result::Ok(p) => p.rtt as int,
            Result::Err(_) => 0int,
        })
    }
}

/// How many probes of a history failed.
pub open spec fn lost_count(hst: Seq<ProbeOutcome>) -> int
    decreases hst.len(),
{
    if hst.len() == 0 {
        0int
    } else {
        lost_count(hst.drop_last()) + (match hst.last() {
            Result::Ok(_) => 0int,
            Result::Err(_) => 1int,
        })
    }
}

/// Bounds on a history's sums.
pub proof fn lemma_ping_sums_bounds(hst: Seq<ProbeOutcome>)
    ensures
        0 <= rtt_sum(hst) <= hst.len() * 0xffff_ffff_ffff_ffff,
        0 <= lost_count(hst) <= hst.len(),
    decreases hst.len(),
{
    if hst.len() > 0 {
        lemma_ping_sums_bounds(hst.drop_last());
    }
}

/// The total round-trip time over the given addresses' histories.
pub open spec fn agg_rtt(
    h: Seq<(Address, Seq<ProbeOutcome>)>,
    ips: Seq<Address>,
) -> int
    decreases ips.len(),
{
    if ips.len() == 0 {
        0int
    } else {
        agg_rtt(h, ips.drop_last()) + rtt_sum(hist_of(h, ips.last()))
    }
}

/// The total sample count over the given addresses' histories.
pub open spec fn agg_count(
    h: Seq<(Address, Seq<ProbeOutcome>)>,
    ips: Seq<Address>,
) -> int
    decreases ips.len(),
{
    if ips.len() == 0 {
        0int
    } else {
        agg_count(h, ips.drop_last()) + hist_of(h, ips.last()).len()
    }
}

/// The total failed-probe count over the given addresses' histories.
pub open spec fn agg_lost(
    h: Seq<(Address, Seq<ProbeOutcome>)>,
    ips: Seq<Address>,
) -> int
    decreases ips.len(),
{
    if ips.len() == 0 {
        0int
    } else {
        agg_lost(h, ips.drop_last()) + lost_count(hist_of(h, ips.last()))
    }
}

/// A capped history table keeps every lookup within the cap.
pub proof fn lemma_hist_of_capped(h: Seq<(Address, Seq<ProbeOutcome>)>, a: Address)
    requires
        hists_capped(h),
    ensures
        hist_of(h, a).len() <= MAX_PINGS_PER_IP,
{
    hist_index_ensures(h, a);
}

/// The average round-trip time over aggregated samples, or nothing when
/// every sample was lost or there are none: the division-by-zero guard.
pub fn average_rtt_micros(total_rtt: u128, total: u128, lost: u128) -> (r: Option<u128>)
    requires
        lost <= total,
    ensures
        total == lost ==> r is None,
        total > lost ==> r == Some(((total_rtt as int) / ((total as int) - (lost as int))) as u128),
{
    if total == lost {
        None
    } else {
        Some(total_rtt / (total - lost))
    }
}

/// The loss percentage of aggregated samples, or nothing when there are
/// no samples at all ("no samples" is a different state than full loss).
pub fn loss_percent(total: u128, lost: u128) -> (r: Option<u128>)
    requires
        lost <= total,
        lost <= 0xffff_ffff_ffff_ffff,
    ensures
        total == 0 ==> r is None,
        total > 0 ==> r == Some((((lost as int) * 100) / (total as int)) as u128),
{
    if total == 0 {
        None
    } else {
        Some(lost * 100 / total)
    }
}

/// The reconciler: the session's authoritative in-memory state.
///
/// It owns the catalog, the per-group aggregate block states, the
/// per-address probe histories and the UI selection, and it coordinates
/// the two background workers by queuing control messages into two
/// outboxes which the embedding application forwards over its channels.
/// Reports from the workers are handed back in through `update`.
pub struct App {
    servers: Servers,
    ip_selection_status: Vec<(Address, bool)>,
    ping_info: Vec<(Address, Vec<ProbeOutcome>)>,
    server_status_info: Vec<ServerState>,
    pinger_outbox: Vec<PingerMessage>,
    status_outbox: Vec<ServerStatusMessage>,
    pending_history_purge: Vec<Address>,
}

impl App {
    /// The catalog's groups, in name order.
    pub closed spec fn catalog(&self) -> Seq<ServerInfoView> {
        self.servers@
    }

    /// Aggregate block state per group, parallel to the catalog.
    pub closed spec fn statuses(&self) -> Seq<ServerStateView> {
        self.server_status_info@.map_values(|s: ServerState| s@)
    }

    /// The UI selection table.
    pub closed spec fn selection(&self) -> Seq<(Address, bool)> {
        self.ip_selection_status@
    }

    /// The probe history table.
    pub closed spec fn histories(&self) -> Seq<(Address, Seq<ProbeOutcome>)> {
        hist_entries_view(self.ping_info@)
    }

    /// Control messages queued for the probe worker.
    pub closed spec fn pinger_out(&self) -> Seq<PingerMessageView> {
        pinger_views(self.pinger_outbox@)
    }

    /// Control messages queued for the status worker.
    pub closed spec fn status_out(&self) -> Seq<ServerStatusMessageView> {
        status_views(self.status_outbox@)
    }

    /// Addresses whose history must be purged once in-flight probe
    /// reports have been flushed.
    pub closed spec fn purge_list(&self) -> Seq<Address> {
        self.pending_history_purge@
    }

    /// The reconciler's invariant: one status per catalog group, one
    /// history entry per address, and every history within the cap.
    pub open spec fn wf(&self) -> bool {
        &&& self.statuses().len() == self.catalog().len()
        &&& hist_keys_unique(self.histories())
        &&& hists_capped(self.histories())
    }

    /// Build the reconciler over a catalog. Every group starts in
    /// `Unknown`, every address unselected, every history empty. The
    /// whole catalog is queued for its first classification; nothing is
    /// queued for probing yet, since no group's classification has
    /// arrived.
    pub fn new(servers: Servers) -> (r: App)
        ensures
            r.catalog() == servers@,
            r.statuses() == Seq::new(servers@.len(), |i: int| ServerStateView::Unknown),
            r.selection() == init_selection(servers@),
            r.histories() == Seq::<(Address, Seq<ProbeOutcome>)>::empty(),
            r.pinger_out() == Seq::<PingerMessageView>::empty(),
            r.status_out() == seq![
                ServerStatusMessageView::AppendToList(catalog_groups(servers@)),
            ],
            r.purge_list() == Seq::<Address>::empty(),
            r.wf(),
    {
        let n = servers.len();
        let mut statuses: Vec<ServerState> = Vec::new();
        let mut selection: Vec<(Address, bool)> = Vec::new();
        let mut groups: Vec<(String, Vec<Address>)> = Vec::new();
        let mut i: usize = 0;
        while i < n
            invariant
                i <= n,
                n == servers@.len(),
                statuses@.len() == i,
                forall|j: int| 0 <= j < i ==> statuses@[j]@ is Unknown,
                selection@ == init_selection(servers@.take(i as int)),
                crate::status_worker::group_entries_view(groups@) == catalog_groups(
                    servers@.take(i as int),
                ),
            decreases n - i,
        {
            let catalog = servers.get_servers();
            let server = &catalog[i];
            proof {
                assert(server@ == servers@[i as int]);
                assert(servers@.take(i + 1).drop_last() =~= servers@.take(i as int));
                assert(servers@.take(i + 1).last() == servers@[i as int]);
            }
            statuses.push(ServerState::Unknown);
            let ips = server.ipv4s_vec();
            let mut k: usize = 0;
            let m = ips.len();
            let ghost sel_before = selection@;
            while k < m
                invariant
                    k <= m,
                    m == ips@.len(),
                    ips@ == servers@[i as int].ipv4s,
                    selection@ == sel_before + ips@.take(k as int).map_values(
                        |a: Address| (a, false),
                    ),
                decreases m - k,
            {
                selection.push((ips[k], false));
                proof {
                    assert(selection@ =~= sel_before + ips@.take(k + 1).map_values(
                        |a: Address| (a, false),
                    ));
                }
                k += 1;
            }
            proof {
                assert(ips@.take(m as int) =~= ips@);
                assert(selection@ =~= init_selection(servers@.take(i + 1)));
            }
            let ghost prev_groups = groups@;
            groups.push((server.abr_string(), ips));
            proof {
                let gv = crate::status_worker::group_entries_view(groups@);
                let cg = catalog_groups(servers@.take(i + 1));
                assert(crate::status_worker::group_entries_view(prev_groups).len()
                    == prev_groups.len());
                assert(catalog_groups(servers@.take(i as int)).len() == i);
                assert(prev_groups.len() == i);
                assert(groups@ == prev_groups.push((groups@[i as int].0, groups@[i as int].1)));
                assert(gv.len() == i + 1);
                assert(cg.len() == i + 1);
                assert forall|j: int| 0 <= j < i + 1 implies #[trigger] gv[j] == cg[j] by {
                    assert(gv[j] == (groups@[j].0@, groups@[j].1@));
                    assert(cg[j] == (servers@.take(i + 1)[j].abr, servers@.take(i + 1)[j].ipv4s));
                    if j < i {
                        assert(groups@[j] == prev_groups[j]);
                        assert(crate::status_worker::group_entries_view(prev_groups)[j] == (
                        prev_groups[j].0@, prev_groups[j].1@));
                        assert(catalog_groups(servers@.take(i as int))[j] == (servers@.take(
                            i as int,
                        )[j].abr, servers@.take(i as int)[j].ipv4s));
                    }
                }
                assert(crate::status_worker::group_entries_view(groups@) =~= catalog_groups(
                    servers@.take(i + 1),
                ));
            }
            i += 1;
        }
        proof {
            assert(servers@.take(n as int) =~= servers@);
        }
        let mut status_outbox: Vec<ServerStatusMessage> = Vec::new();
        status_outbox.push(ServerStatusMessage::AppendToList(groups));
        let r = App {
            servers,
            ip_selection_status: selection,
            ping_info: Vec::new(),
            server_status_info: statuses,
            pinger_outbox: Vec::new(),
            status_outbox,
            pending_history_purge: Vec::new(),
        };
        proof {
            assert(r.statuses() =~= Seq::new(r.catalog().len(), |i: int| ServerStateView::Unknown));
            assert(r.histories() =~= Seq::<(Address, Seq<ProbeOutcome>)>::empty());
            assert(r.pinger_out() =~= Seq::<PingerMessageView>::empty());
            assert(r.status_out() =~= seq![
                ServerStatusMessageView::AppendToList(catalog_groups(r.catalog())),
            ]);
        }
        r
    }

    /// The catalog, for display and scope computation.
    pub fn get_servers(&self) -> (r: &Vec<ServerInfo>)
        ensures
            crate::steam_server::infos_view(r@) == self.catalog(),
    {
        self.servers.get_servers()
    }

    /// The current aggregate block state of the group at catalog
    /// position `i`.
    pub fn get_server_status(&self, i: usize) -> (r: &ServerState)
        requires
            self.wf(),
            i < self.catalog().len(),
        ensures
            r@ == self.statuses()[i as int],
    {
        &self.server_status_info[i]
    }

    /// The recorded probe history of `ip`, most recent first, or nothing
    /// when no report for `ip` has arrived since the last purge.
    pub fn ping_history(&self, ip: Address) -> (r: Option<&Vec<ProbeOutcome>>)
        ensures
            r is Some <==> has_hist(self.histories(), ip),
            r matches Some(v) ==> v@ == hist_of(self.histories(), ip),
    {
        let ghost h = self.histories();
        let n = self.ping_info.len();
        let mut i: usize = 0;
        while i < n
            invariant
                i <= n,
                n == h.len(),
                h == self.histories(),
                forall|j: int| 0 <= j < i ==> h[j].0 != ip,
            decreases n - i,
        {
            proof {
                assert(h[i as int] == (self.ping_info@[i as int].0, self.ping_info@[i as int].1@));
            }
            if self.ping_info[i].0 == ip {
                proof {
                    hist_index_ensures(h, ip);
                    assert(h[i as int].0 == ip);
                    assert(hist_index(h, ip) is Some) by {
                        if hist_index(h, ip) is None {
                            assert(h[i as int].0 != ip);
                        }
                    }
                    let idx = hist_index(h, ip)->Some_0;
                    assert(idx == i) by {
                        if idx < i {
                            assert(h[idx].0 != ip);
                        }
                        if idx > i {
                            assert(h[i as int].0 != ip);
                        }
                    }
                }
                return Some(&self.ping_info[i].1);
            }
            i += 1;
        }
        proof {
            hist_index_ensures(h, ip);
            if hist_index(h, ip) is Some {
                let idx = hist_index(h, ip)->Some_0;
                assert(h[idx].0 != ip);
            }
        }
        None
    }

    /// Record one probe report: the outcome is prepended to the
    /// address's history (created on first report), and the history is
    /// truncated to the cap of `MAX_PINGS_PER_IP` entries.
    pub fn handle_ping_report(&mut self, ip: Address, outcome: ProbeOutcome)
        requires
            old(self).wf(),
        ensures
            final(self).wf(),
            final(self).histories() == apply_ping_report(old(self).histories(), ip, outcome),
            final(self).catalog() == old(self).catalog(),
            final(self).statuses() == old(self).statuses(),
            final(self).selection() == old(self).selection(),
            final(self).pinger_out() == old(self).pinger_out(),
            final(self).status_out() == old(self).status_out(),
            final(self).purge_list() == old(self).purge_list(),
    {
        let ghost h = self.histories();
        let n = self.ping_info.len();
        let mut i: usize = 0;
        while i < n
            invariant
                i <= n,
                n == self.ping_info@.len(),
                self.histories() == h,
                h == old(self).histories(),
                h.len() == self.ping_info@.len(),
                old(self).wf(),
                hist_keys_unique(h),
                hists_capped(h),
                forall|j: int| 0 <= j < i ==> h[j].0 != ip,
                self == old(self),
            decreases n - i,
        {
            proof {
                assert(h[i as int] == (self.ping_info@[i as int].0, self.ping_info@[i as int].1@));
            }
            if self.ping_info[i].0 == ip {
                proof {
                    hist_index_ensures(h, ip);
                    assert(h[i as int].0 == ip);
                    assert(hist_index(h, ip) is Some) by {
                        if hist_index(h, ip) is None {
                            assert(h[i as int].0 != ip);
                        }
                    }
                    let idx = hist_index(h, ip)->Some_0;
                    assert(idx == i) by {
                        if idx < i {
                            assert(h[idx].0 != ip);
                        }
                        if idx > i {
                            assert(h[i as int].0 != ip);
                        }
                    }
                }
                let entry = self.ping_info.remove(i);
                let old_hist = entry.1;
                let mut new_hist: Vec<ProbeOutcome> = Vec::new();
                new_hist.push(outcome);
                let mut j: usize = 0;
                let keep = if old_hist.len() < MAX_PINGS_PER_IP {
                    old_hist.len()
                } else {
                    MAX_PINGS_PER_IP - 1
                };
                while j < keep
                    invariant
                        j <= keep,
                        keep <= old_hist@.len(),
                        keep <= MAX_PINGS_PER_IP - 1 || keep == old_hist@.len(),
                        new_hist@ == seq![outcome] + old_hist@.take(j as int),
                    decreases keep - j,
                {
                    new_hist.push(old_hist[j]);
                    proof {
                        assert(new_hist@ =~= seq![outcome] + old_hist@.take(j + 1));
                    }
                    j += 1;
                }
                proof {
                    assert(new_hist@ =~= capped(seq![outcome] + old_hist@));
                }
                self.ping_info.insert(i, (ip, new_hist));
                proof {
                    assert(self.histories() =~= apply_ping_report(h, ip, outcome));
                    assert(hist_keys_unique(self.histories())) by {
                        assert forall|p: int, q: int|
                            0 <= p < q < self.histories().len() implies (
                        #[trigger] self.histories()[p]).0 != (#[trigger] self.histories()[q]).0 by {
                            assert(h[p].0 == self.histories()[p].0);
                            assert(h[q].0 == self.histories()[q].0);
                        }
                    }
                    assert(hists_capped(self.histories())) by {
                        assert forall|p: int|
                            0 <= p < self.histories().len() implies (
                        #[trigger] self.histories()[p]).1.len() <= MAX_PINGS_PER_IP by {
                            if p == i {
                                assert(self.histories()[p].1 == capped(seq![outcome] + h[
                                    i as int].1));
                            } else {
                                assert(self.histories()[p] == h[p]);
                            }
                        }
                    }
                }
                return;
            }
            i += 1;
        }
        proof {
            hist_index_ensures(h, ip);
            if hist_index(h, ip) is Some {
                let idx = hist_index(h, ip)->Some_0;
                assert(h[idx].0 != ip);
            }
        }
        let mut first: Vec<ProbeOutcome> = Vec::new();
        first.push(outcome);
        self.ping_info.push((ip, first));
        proof {
            assert(self.histories() =~= apply_ping_report(h, ip, outcome));
            assert(hist_keys_unique(self.histories())) by {
                assert forall|p: int, q: int|
                    0 <= p < q < self.histories().len() implies (
                #[trigger] self.histories()[p]).0 != (#[trigger] self.histories()[q]).0 by {
                    if q < h.len() {
                        assert(h[p].0 == self.histories()[p].0);
                        assert(h[q].0 == self.histories()[q].0);
                    } else {
                        assert(h[p].0 == self.histories()[p].0);
                        assert(self.histories()[q].0 == ip);
                        assert(h[p].0 != ip);
                    }
                }
            }
            assert(hists_capped(self.histories())) by {
                assert forall|p: int|
                    0 <= p < self.histories().len() implies (
                #[trigger] self.histories()[p]).1.len() <= MAX_PINGS_PER_IP by {
                    if p < h.len() {
                        assert(self.histories()[p] == h[p]);
                    } else {
                        assert(self.histories()[p].1 == seq![outcome]);
                    }
                }
            }
        }
    }

    /// Record a whole drained batch of probe reports, in receipt order.
    pub fn update_ping_info(&mut self, reports: &Vec<(Address, ProbeOutcome)>)
        requires
            old(self).wf(),
        ensures
            final(self).wf(),
            final(self).histories() == apply_ping_reports(old(self).histories(), reports@),
            final(self).catalog() == old(self).catalog(),
            final(self).statuses() == old(self).statuses(),
            final(self).selection() == old(self).selection(),
            final(self).pinger_out() == old(self).pinger_out(),
            final(self).status_out() == old(self).status_out(),
            final(self).purge_list() == old(self).purge_list(),
    {
        let n = reports.len();
        let mut i: usize = 0;
        while i < n
            invariant
                i <= n,
                n == reports@.len(),
                self.wf(),
                self.histories() == apply_ping_reports(
                    old(self).histories(),
                    reports@.take(i as int),
                ),
                self.catalog() == old(self).catalog(),
                self.statuses() == old(self).statuses(),
                self.selection() == old(self).selection(),
                self.pinger_out() == old(self).pinger_out(),
                self.status_out() == old(self).status_out(),
                self.purge_list() == old(self).purge_list(),
            decreases n - i,
        {
            proof {
                assert(reports@.take(i + 1).drop_last() =~= reports@.take(i as int));
                assert(reports@.take(i + 1).last() == reports@[i as int]);
            }
            let report = reports[i];
            self.handle_ping_report(report.0, report.1);
            i += 1;
        }
        proof {
            assert(reports@.take(n as int) =~= reports@);
        }
    }

    /// Hand over the addresses whose history must be purged after the
    /// next flush of in-flight probe reports; the pending list empties.
    pub fn take_pending_purge(&mut self) -> (r: Vec<Address>)
        ensures
            r@ == old(self).purge_list(),
            final(self).purge_list() == Seq::<Address>::empty(),
            final(self).wf() == old(self).wf(),
            final(self).histories() == old(self).histories(),
            final(self).catalog() == old(self).catalog(),
            final(self).statuses() == old(self).statuses(),
            final(self).selection() == old(self).selection(),
            final(self).pinger_out() == old(self).pinger_out(),
            final(self).status_out() == old(self).status_out(),
    {
        let mut out: Vec<Address> = Vec::new();
        core::mem::swap(&mut out, &mut self.pending_history_purge);
        out
    }

    /// Hand over the control messages queued for the probe worker.
    pub fn take_pinger_messages(&mut self) -> (r: Vec<PingerMessage>)
        ensures
            pinger_views(r@) == old(self).pinger_out(),
            final(self).pinger_out() == Seq::<PingerMessageView>::empty(),
            final(self).wf() == old(self).wf(),
            final(self).histories() == old(self).histories(),
            final(self).catalog() == old(self).catalog(),
            final(self).statuses() == old(self).statuses(),
            final(self).selection() == old(self).selection(),
            final(self).status_out() == old(self).status_out(),
            final(self).purge_list() == old(self).purge_list(),
    {
        let mut out: Vec<PingerMessage> = Vec::new();
        core::mem::swap(&mut out, &mut self.pinger_outbox);
        proof {
            assert(self.pinger_out() =~= Seq::<PingerMessageView>::empty());
        }
        out
    }

    /// Hand over the control messages queued for the status worker.
    pub fn take_status_messages(&mut self) -> (r: Vec<ServerStatusMessage>)
        ensures
            status_views(r@) == old(self).status_out(),
            final(self).status_out() == Seq::<ServerStatusMessageView>::empty(),
            final(self).wf() == old(self).wf(),
            final(self).histories() == old(self).histories(),
            final(self).catalog() == old(self).catalog(),
            final(self).statuses() == old(self).statuses(),
            final(self).selection() == old(self).selection(),
            final(self).pinger_out() == old(self).pinger_out(),
            final(self).purge_list() == old(self).purge_list(),
    {
        let mut out: Vec<ServerStatusMessage> = Vec::new();
        core::mem::swap(&mut out, &mut self.status_outbox);
        proof {
            assert(self.status_out() =~= Seq::<ServerStatusMessageView>::empty());
        }
        out
    }

    /// Drop the recorded histories of the given addresses. Called only
    /// after in-flight probe reports were flushed, so that a late report
    /// cannot resurrect a purged entry.
    pub fn purge_ping_histories(&mut self, ips: &Vec<Address>)
        requires
            old(self).wf(),
        ensures
            final(self).wf(),
            final(self).histories() == purge_hists(old(self).histories(), ips@),
            final(self).catalog() == old(self).catalog(),
            final(self).statuses() == old(self).statuses(),
            final(self).selection() == old(self).selection(),
            final(self).pinger_out() == old(self).pinger_out(),
            final(self).status_out() == old(self).status_out(),
            final(self).purge_list() == old(self).purge_list(),
    {
        let ghost h = self.histories();
        let mut kept: Vec<(Address, Vec<ProbeOutcome>)> = Vec::new();
        let mut rest: Vec<(Address, Vec<ProbeOutcome>)> = Vec::new();
        core::mem::swap(&mut rest, &mut self.ping_info);
        let ghost i: int = 0;
        while rest.len() > 0
            invariant
                0 <= i <= h.len(),
                hist_entries_view(rest@) == h.skip(i),
                purge_hists(h, ips@) == hist_entries_view(kept@) + purge_hists(h.skip(i), ips@),
            decreases rest@.len(),
        {
            let ghost prev_rest = rest@;
            let ghost prev_views = hist_entries_view(prev_rest);
            proof {
                assert(prev_views.len() == prev_rest.len());
                assert(prev_views[0] == (prev_rest[0].0, prev_rest[0].1@));
                assert(h.skip(i)[0] == h[i]);
                assert(h.skip(i).drop_first() =~= h.skip(i + 1));
            }
            let e = rest.remove(0);
            proof {
                assert(rest@ =~= prev_rest.drop_first());
                assert(hist_entries_view(rest@) =~= h.skip(i + 1)) by {
                    assert forall|j: int|
                        0 <= j < rest@.len() implies #[trigger] hist_entries_view(rest@)[j]
                        == h.skip(i + 1)[j] by {
                        assert(hist_entries_view(rest@)[j] == (prev_rest[j + 1].0, prev_rest[j
                            + 1].1@));
                        assert(prev_views[j + 1] == (prev_rest[j + 1].0, prev_rest[j + 1].1@));
                        assert(h.skip(i)[j + 1] == h.skip(i + 1)[j]);
                    }
                }
                assert(e.0 == h[i].0);
            }
            if !crate::steam_server::addr_vec_contains(ips, e.0) {
                kept.push(e);
                proof {
                    assert(hist_entries_view(kept@) =~= hist_entries_view(
                        kept@.drop_last(),
                    ).push((h[i].0, h[i].1)));
                    assert(seq![h[i]] + purge_hists(h.skip(i + 1), ips@) =~= purge_hists(
                        h.skip(i),
                        ips@,
                    ));
                }
            }
            proof {
                i = i + 1;
            }
        }
        proof {
            assert(hist_entries_view(rest@).len() == rest@.len());
            assert(h.skip(i).len() == 0);
            assert(purge_hists(h.skip(i), ips@) =~= Seq::<(Address, Seq<ProbeOutcome>)>::empty());
        }
        self.ping_info = kept;
        proof {
            lemma_purge_hists(h, ips@);
            assert(self.histories() == purge_hists(h, ips@));
            assert(hist_keys_unique(h));
            assert(hist_keys_unique(self.histories()));
            assert forall|k: int|
                0 <= k < self.histories().len() implies (#[trigger] self.histories()[k]).1.len()
                <= MAX_PINGS_PER_IP by {
                assert(h.contains(self.histories()[k]));
                let j = choose|j: int| 0 <= j < h.len() && h[j] == self.histories()[k];
                assert(h[j].1.len() <= MAX_PINGS_PER_IP);
            }
        }
    }

    /// The first catalog index holding the given group name.
    pub fn find_server_index(&self, name: &str) -> (r: Option<usize>)
        ensures
            r matches Some(i) ==> find_server(self.catalog(), name@) == Option::Some(i as int),
            r is None ==> find_server(self.catalog(), name@) is None,
    {
        let servers = self.servers.get_servers();
        let ghost c = self.catalog();
        let n = servers.len();
        let mut i: usize = 0;
        while i < n
            invariant
                i <= n,
                n == servers@.len(),
                crate::steam_server::infos_view(servers@) == c,
                c.len() == n,
                c == self.catalog(),
                forall|j: int| 0 <= j < i ==> (#[trigger] c[j]).abr != name@,
            decreases n - i,
        {
            proof {
                assert(c[i as int] == servers@[i as int]@);
            }
            if crate::steam_server::str_eq(servers[i].get_abr(), name) {
                proof {
                    find_server_ensures(c, name@);
                    assert(c[i as int].abr == name@);
                    assert(find_server(c, name@) is Some) by {
                        if find_server(c, name@) is None {
                            assert(c[i as int].abr != name@);
                        }
                    }
                    let idx = find_server(c, name@)->Some_0;
                    assert(idx == i) by {
                        if idx < i {
                            assert(c[idx].abr != name@);
                        }
                        if idx > i {
                            assert(c[i as int].abr != name@);
                        }
                    }
                }
                return Some(i);
            }
            i += 1;
        }
        proof {
            find_server_ensures(c, name@);
            if find_server(c, name@) is Some {
                let idx = find_server(c, name@)->Some_0;
                assert(c[idx].abr != name@);
            }
        }
        None
    }

    /// Record one classification report. A report for a name not in the
    /// catalog is ignored. A state equal to the group's current one is
    /// recorded without any worklist adjustment; a changed state is
    /// recorded and triggers the adjustments of `status_adjust_pinger`
    /// and the purges of `status_purge`.
    pub fn handle_status_report(&mut self, server_abr: &str, status: ServerState)
        requires
            old(self).wf(),
            !(status@ is Unknown),
        ensures
            final(self).wf(),
            ({
                let t = apply_status_report(
                    old(self).catalog(),
                    old(self).statuses(),
                    old(self).pinger_out(),
                    old(self).purge_list(),
                    server_abr@,
                    status@,
                );
                final(self).statuses() == t.0 && final(self).pinger_out() == t.1
                    && final(self).purge_list() == t.2
            }),
            final(self).catalog() == old(self).catalog(),
            final(self).histories() == old(self).histories(),
            final(self).selection() == old(self).selection(),
            final(self).status_out() == old(self).status_out(),
    {
        let idx = self.find_server_index(server_abr);
        match idx {
            Option::None => {},
            Option::Some(i) => {
                proof {
                    find_server_ensures(self.catalog(), server_abr@);
                    assert(self.statuses()[i as int] == self.server_status_info@[i as int]@);
                }
                let unchanged = self.server_status_info[i] == status;
                if !unchanged {
                    let servers = self.servers.get_servers();
                    proof {
                        assert(crate::steam_server::infos_view(servers@)[i as int]
                            == servers@[i as int]@);
                    }
                    let ips = servers[i].ipv4s_vec();
                    proof {
                        assert(ips@ == self.catalog()[i as int].ipv4s);
                    }
                    match &status {
                        ServerState::AllDisabled => {
                            push_remove_list(&mut self.pinger_outbox, &ips);
                            append_addrs(&mut self.pending_history_purge, &ips);
                            proof {
                                assert(self.pinger_out() =~= old(self).pinger_out()
                                    + status_adjust_pinger(
                                    old(self).catalog()[i as int],
                                    status@,
                                ));
                            }
                        },
                        ServerState::SomeDisabled(d) => {
                            push_remove_list(&mut self.pinger_outbox, d);
                            let keep = addrs_not_in_vec(&ips, d);
                            let ghost before = self.pinger_out();
                            self.pinger_outbox.push(PingerMessage::AppendToList(keep));
                            append_addrs(&mut self.pending_history_purge, d);
                            proof {
                                assert(self.pinger_out() =~= before.push(
                                    PingerMessageView::AppendToList(
                                        addrs_not_in(
                                            old(self).catalog()[i as int].ipv4s,
                                            d@,
                                        ),
                                    ),
                                ));
                                assert(self.pinger_out() =~= old(self).pinger_out()
                                    + status_adjust_pinger(
                                    old(self).catalog()[i as int],
                                    status@,
                                ));
                            }
                        },
                        ServerState::NoneDisabled => {
                            self.pinger_outbox.push(PingerMessage::AppendToList(ips));
                            proof {
                                assert(self.pinger_out() =~= old(self).pinger_out()
                                    + status_adjust_pinger(
                                    old(self).catalog()[i as int],
                                    status@,
                                ));
                            }
                        },
                        ServerState::Unknown => {},
                    }
                    proof {
                        assert(self.purge_list() =~= old(self).purge_list() + status_purge(
                            old(self).catalog()[i as int],
                            status@,
                        ));
                    }
                }
                let ghost st_before = self.server_status_info@;
                self.server_status_info.remove(i);
                self.server_status_info.insert(i, status);
                proof {
                    assert(self.server_status_info@ =~= st_before.update(i as int, status));
                    assert(self.statuses() =~= old(self).statuses().update(
                        i as int,
                        status@,
                    ));
                }
            },
        }
    }

    /// Record a whole drained batch of classification reports, in receipt
    /// order: for a group reported more than once, the last report wins.
    pub fn update_server_status_info(&mut self, reports: Vec<(String, ServerState)>)
        requires
            old(self).wf(),
            forall|k: int| 0 <= k < reports@.len() ==> !((#[trigger] reports@[k]).1@ is Unknown),
        ensures
            final(self).wf(),
            ({
                let t = apply_status_reports(
                    old(self).catalog(),
                    old(self).statuses(),
                    old(self).pinger_out(),
                    old(self).purge_list(),
                    report_views(reports@),
                );
                final(self).statuses() == t.0 && final(self).pinger_out() == t.1
                    && final(self).purge_list() == t.2
            }),
            final(self).catalog() == old(self).catalog(),
            final(self).histories() == old(self).histories(),
            final(self).selection() == old(self).selection(),
            final(self).status_out() == old(self).status_out(),
    {
        let ghost views = report_views(reports@);
        let mut rest = reports;
        let ghost i: int = 0;
        while rest.len() > 0
            invariant
                0 <= i <= views.len(),
                report_views(rest@) == views.skip(i),
                forall|k: int| 0 <= k < rest@.len() ==> !((#[trigger] rest@[k]).1@ is Unknown),
                self.wf(),
                ({
                    let t = apply_status_reports(
                        old(self).catalog(),
                        old(self).statuses(),
                        old(self).pinger_out(),
                        old(self).purge_list(),
                        views.take(i),
                    );
                    self.statuses() == t.0 && self.pinger_out() == t.1 && self.purge_list()
                        == t.2
                }),
                self.catalog() == old(self).catalog(),
                self.histories() == old(self).histories(),
                self.selection() == old(self).selection(),
                self.status_out() == old(self).status_out(),
            decreases rest@.len(),
        {
            let ghost prev_rest = rest@;
            proof {
                assert(report_views(prev_rest).len() == prev_rest.len());
                assert(report_views(prev_rest)[0] == (prev_rest[0].0@, prev_rest[0].1@));
                assert(views.skip(i)[0] == views[i]);
                assert(views.take(i + 1).drop_last() =~= views.take(i));
                assert(views.take(i + 1).last() == views[i]);
            }
            let report = rest.remove(0);
            proof {
                assert(report == prev_rest[0]);
                assert((report.0@, report.1@) == views[i]);
                assert(rest@ =~= prev_rest.drop_first());
                assert(report_views(rest@) =~= views.skip(i + 1)) by {
                    assert forall|j: int|
                        0 <= j < rest@.len() implies #[trigger] report_views(rest@)[j]
                        == views.skip(i + 1)[j] by {
                        assert(report_views(rest@)[j] == (prev_rest[j + 1].0@, prev_rest[j
                            + 1].1@));
                        assert(report_views(prev_rest)[j + 1] == (prev_rest[j + 1].0@,
                        prev_rest[j + 1].1@));
                    }
                }
                assert forall|k: int|
                    0 <= k < rest@.len() implies !((#[trigger] rest@[k]).1@ is Unknown) by {
                    assert(rest@[k] == prev_rest[k + 1]);
                }
            }
            self.handle_status_report(report.0.as_str(), report.1);
            proof {
                i = i + 1;
            }
        }
        proof {
            assert(report_views(rest@).len() == rest@.len());
            assert(views.take(i) =~= views);
        }
    }

    /// One reconciler tick: record the drained probe reports, then the
    /// drained classification reports, each in receipt order. The caller
    /// then takes the queued worker messages, and takes and executes the
    /// pending purges once in-flight probe reports have been flushed.
    pub fn update(
        &mut self,
        ping_reports: &Vec<(Address, ProbeOutcome)>,
        status_reports: Vec<(String, ServerState)>,
    )
        requires
            old(self).wf(),
            forall|k: int|
                0 <= k < status_reports@.len() ==> !((#[trigger] status_reports@[k]).1@
                    is Unknown),
        ensures
            final(self).wf(),
            final(self).histories() == apply_ping_reports(old(self).histories(), ping_reports@),
            ({
                let t = apply_status_reports(
                    old(self).catalog(),
                    old(self).statuses(),
                    old(self).pinger_out(),
                    old(self).purge_list(),
                    report_views(status_reports@),
                );
                final(self).statuses() == t.0 && final(self).pinger_out() == t.1
                    && final(self).purge_list() == t.2
            }),
            final(self).catalog() == old(self).catalog(),
            final(self).selection() == old(self).selection(),
            final(self).status_out() == old(self).status_out(),
    {
        self.update_ping_info(ping_reports);
        self.update_server_status_info(status_reports);
    }

    /// Queue a re-classification request for the group at catalog
    /// position `i`.
    fn push_reclassify(&mut self, i: usize)
        requires
            i < old(self).catalog().len(),
        ensures
            final(self).status_out() == old(self).status_out() + seq![
                reclassify_msg(old(self).catalog()[i as int]),
            ],
            final(self).catalog() == old(self).catalog(),
            final(self).statuses() == old(self).statuses(),
            final(self).selection() == old(self).selection(),
            final(self).histories() == old(self).histories(),
            final(self).pinger_out() == old(self).pinger_out(),
            final(self).purge_list() == old(self).purge_list(),
            final(self).wf() == old(self).wf(),
    {
        let servers = self.servers.get_servers();
        proof {
            assert(crate::steam_server::infos_view(servers@)[i as int] == servers@[i as int]@);
        }
        let abr = servers[i].abr_string();
        let ips = servers[i].ipv4s_vec();
        let mut entry: Vec<(String, Vec<Address>)> = Vec::new();
        entry.push((abr, ips));
        let ghost before = self.status_out();
        self.status_outbox.push(ServerStatusMessage::AppendToList(entry));
        proof {
            assert(crate::status_worker::group_entries_view(self.status_outbox@.last()->AppendToList_0@)
                =~= seq![
                (old(self).catalog()[i as int].abr, old(self).catalog()[i as int].ipv4s),
            ]);
            assert(self.status_out() =~= before + seq![
                reclassify_msg(old(self).catalog()[i as int]),
            ]);
        }
    }

    /// Enable one group: request an unban of every address (continuing
    /// past per-address failures), queue a re-classification, and remove
    /// then re-append the addresses on the probe worklist. The first
    /// firewall failure, if any, is returned for the caller to log.
    pub fn enable_server<F: FirewallRequirements>(&mut self, firewall: &mut F, i: usize) -> (r:
        Result<(), crate::firewall::Error>)
        requires
            old(self).wf(),
            i < old(self).catalog().len(),
        ensures
            final(self).wf(),
            final(firewall).unban_log() == old(firewall).unban_log() + old(self).catalog()[
                i as int].ipv4s,
            final(firewall).ban_log() == old(firewall).ban_log(),
            final(self).pinger_out() == old(self).pinger_out() + enable_pinger_msgs(
                old(self).catalog()[i as int],
            ),
            final(self).status_out() == old(self).status_out() + seq![
                reclassify_msg(old(self).catalog()[i as int]),
            ],
            final(self).catalog() == old(self).catalog(),
            final(self).statuses() == old(self).statuses(),
            final(self).selection() == old(self).selection(),
            final(self).histories() == old(self).histories(),
            final(self).purge_list() == old(self).purge_list(),
    {
        let (ips, fw_res) = {
            let servers = self.servers.get_servers();
            proof {
                assert(crate::steam_server::infos_view(servers@)[i as int] == servers@[
                    i as int]@);
            }
            let fw_res = servers[i].unban(firewall);
            (servers[i].ipv4s_vec(), fw_res)
        };
        self.push_reclassify(i);
        push_remove_list(&mut self.pinger_outbox, &ips);
        let ghost before = self.pinger_out();
        self.pinger_outbox.push(PingerMessage::AppendToList(ips));
        proof {
            assert(self.pinger_out() =~= before.push(
                PingerMessageView::AppendToList(old(self).catalog()[i as int].ipv4s),
            ));
            assert(self.pinger_out() =~= old(self).pinger_out() + enable_pinger_msgs(
                old(self).catalog()[i as int],
            ));
        }
        fw_res
    }

    /// Disable one group: request a ban of every address (continuing
    /// past per-address failures), queue a re-classification, remove the
    /// addresses from the probe worklist, and mark their histories for
    /// purging after the next flush. The first firewall failure, if any,
    /// is returned for the caller to log.
    pub fn disable_server<F: FirewallRequirements>(&mut self, firewall: &mut F, i: usize) -> (r:
        Result<(), crate::firewall::Error>)
        requires
            old(self).wf(),
            i < old(self).catalog().len(),
        ensures
            final(self).wf(),
            final(firewall).ban_log() == old(firewall).ban_log() + old(self).catalog()[
                i as int].ipv4s,
            final(firewall).unban_log() == old(firewall).unban_log(),
            final(self).pinger_out() == old(self).pinger_out() + remove_msgs(
                old(self).catalog()[i as int].ipv4s,
            ),
            final(self).status_out() == old(self).status_out() + seq![
                reclassify_msg(old(self).catalog()[i as int]),
            ],
            final(self).purge_list() == old(self).purge_list() + old(self).catalog()[
                i as int].ipv4s,
            final(self).catalog() == old(self).catalog(),
            final(self).statuses() == old(self).statuses(),
            final(self).selection() == old(self).selection(),
            final(self).histories() == old(self).histories(),
    {
        let (ips, fw_res) = {
            let servers = self.servers.get_servers();
            proof {
                assert(crate::steam_server::infos_view(servers@)[i as int] == servers@[
                    i as int]@);
            }
            let fw_res = servers[i].ban(firewall);
            (servers[i].ipv4s_vec(), fw_res)
        };
        self.push_reclassify(i);
        push_remove_list(&mut self.pinger_outbox, &ips);
        append_addrs(&mut self.pending_history_purge, &ips);
        fw_res
    }

    /// Enable one address of the group at catalog position `i`: request
    /// its unban, queue a fresh re-classification of the group (dropping
    /// any stale pending one), and push the address onto the probe
    /// worklist. A firewall failure is returned for the caller to log.
    pub fn enable_ip<F: FirewallRequirements>(&mut self, firewall: &mut F, i: usize, ip: Address)
        -> (r: Result<(), crate::firewall::Error>)
        requires
            old(self).wf(),
            i < old(self).catalog().len(),
        ensures
            final(self).wf(),
            final(firewall).unban_log() == old(firewall).unban_log().push(ip),
            final(firewall).ban_log() == old(firewall).ban_log(),
            final(self).pinger_out() == old(self).pinger_out() + seq![
                PingerMessageView::PushToList(ip),
            ],
            final(self).status_out() == old(self).status_out() + seq![
                ServerStatusMessageView::RemoveServer(old(self).catalog()[i as int].abr),
                reclassify_msg(old(self).catalog()[i as int]),
            ],
            final(self).catalog() == old(self).catalog(),
            final(self).statuses() == old(self).statuses(),
            final(self).selection() == old(self).selection(),
            final(self).histories() == old(self).histories(),
            final(self).purge_list() == old(self).purge_list(),
    {
        let fw_res = firewall.unban_ip(ip);
        let abr = {
            let servers = self.servers.get_servers();
            proof {
                assert(crate::steam_server::infos_view(servers@)[i as int] == servers@[
                    i as int]@);
            }
            servers[i].abr_string()
        };
        let ghost before = self.status_out();
        self.status_outbox.push(ServerStatusMessage::RemoveServer(abr));
        proof {
            assert(self.status_out() =~= before.push(
                ServerStatusMessageView::RemoveServer(old(self).catalog()[i as int].abr),
            ));
        }
        self.push_reclassify(i);
        let ghost before2 = self.pinger_out();
        self.pinger_outbox.push(PingerMessage::PushToList(ip));
        proof {
            assert(self.pinger_out() =~= before2.push(PingerMessageView::PushToList(ip)));
            assert(self.status_out() =~= old(self).status_out() + seq![
                ServerStatusMessageView::RemoveServer(old(self).catalog()[i as int].abr),
                reclassify_msg(old(self).catalog()[i as int]),
            ]);
            assert(self.pinger_out() =~= old(self).pinger_out() + seq![
                PingerMessageView::PushToList(ip),
            ]);
        }
        fw_res
    }

    /// Disable one address of the group at catalog position `i`: request
    /// its ban, queue a fresh re-classification of the group, remove the
    /// address from the probe worklist, and mark its history for purging.
    /// A firewall failure is returned for the caller to log.
    pub fn disable_ip<F: FirewallRequirements>(&mut self, firewall: &mut F, i: usize, ip: Address)
        -> (r: Result<(), crate::firewall::Error>)
        requires
            old(self).wf(),
            i < old(self).catalog().len(),
        ensures
            final(self).wf(),
            final(firewall).ban_log() == old(firewall).ban_log().push(ip),
            final(firewall).unban_log() == old(firewall).unban_log(),
            final(self).pinger_out() == old(self).pinger_out() + seq![
                PingerMessageView::RemoveFromList(ip),
            ],
            final(self).status_out() == old(self).status_out() + seq![
                ServerStatusMessageView::RemoveServer(old(self).catalog()[i as int].abr),
                reclassify_msg(old(self).catalog()[i as int]),
            ],
            final(self).purge_list() == old(self).purge_list() + seq![ip],
            final(self).catalog() == old(self).catalog(),
            final(self).statuses() == old(self).statuses(),
            final(self).selection() == old(self).selection(),
            final(self).histories() == old(self).histories(),
    {
        let fw_res = firewall.ban_ip(ip);
        let abr = {
            let servers = self.servers.get_servers();
            proof {
                assert(crate::steam_server::infos_view(servers@)[i as int] == servers@[
                    i as int]@);
            }
            servers[i].abr_string()
        };
        let ghost before = self.status_out();
        self.status_outbox.push(ServerStatusMessage::RemoveServer(abr));
        proof {
            assert(self.status_out() =~= before.push(
                ServerStatusMessageView::RemoveServer(old(self).catalog()[i as int].abr),
            ));
        }
        self.push_reclassify(i);
        let ghost before2 = self.pinger_out();
        self.pinger_outbox.push(PingerMessage::RemoveFromList(ip));
        proof {
            assert(self.pinger_out() =~= before2.push(PingerMessageView::RemoveFromList(ip)));
            assert(self.status_out() =~= old(self).status_out() + seq![
                ServerStatusMessageView::RemoveServer(old(self).catalog()[i as int].abr),
                reclassify_msg(old(self).catalog()[i as int]),
            ]);
            assert(self.pinger_out() =~= old(self).pinger_out() + seq![
                PingerMessageView::RemoveFromList(ip),
            ]);
        }
        self.pending_history_purge.push(ip);
        proof {
            assert(self.purge_list() =~= old(self).purge_list() + seq![ip]);
        }
        fw_res
    }

    /// Queue an append of every not-fully-blocked group's addresses to
    /// the probe worklist, from the current group states. Groups still in
    /// `Unknown` are skipped, so nothing is probed twice once their first
    /// classification arrives.
    fn send_currently_active_ip_list_to_pinger(&mut self)
        requires
            old(self).wf(),
        ensures
            final(self).wf(),
            final(self).pinger_out() == old(self).pinger_out() + active_append_msgs(
                old(self).catalog(),
                old(self).statuses(),
                old(self).catalog().len() as int,
            ),
            final(self).catalog() == old(self).catalog(),
            final(self).statuses() == old(self).statuses(),
            final(self).selection() == old(self).selection(),
            final(self).histories() == old(self).histories(),
            final(self).status_out() == old(self).status_out(),
            final(self).purge_list() == old(self).purge_list(),
    {
        let n = self.servers.len();
        let mut i: usize = 0;
        while i < n
            invariant
                i <= n,
                n == self.catalog().len(),
                self.wf(),
                self.pinger_out() == old(self).pinger_out() + active_append_msgs(
                    old(self).catalog(),
                    old(self).statuses(),
                    i as int,
                ),
                self.catalog() == old(self).catalog(),
                self.statuses() == old(self).statuses(),
                self.selection() == old(self).selection(),
                self.histories() == old(self).histories(),
                self.status_out() == old(self).status_out(),
                self.purge_list() == old(self).purge_list(),
            decreases n - i,
        {
            proof {
                assert(self.statuses()[i as int] == self.server_status_info@[i as int]@);
            }
            let active = match &self.server_status_info[i] {
                ServerState::NoneDisabled => true,
                ServerState::SomeDisabled(_) => true,
                ServerState::AllDisabled => false,
                ServerState::Unknown => false,
            };
            if active {
                let ips = {
                    let servers = self.servers.get_servers();
                    proof {
                        assert(crate::steam_server::infos_view(servers@)[i as int] == servers@[
                            i as int]@);
                    }
                    servers[i].ipv4s_vec()
                };
                let ghost before = self.pinger_out();
                self.pinger_outbox.push(PingerMessage::AppendToList(ips));
                proof {
                    assert(self.pinger_out() =~= before.push(
                        PingerMessageView::AppendToList(old(self).catalog()[i as int].ipv4s),
                    ));
                    assert(self.pinger_out() =~= old(self).pinger_out() + active_append_msgs(
                        old(self).catalog(),
                        old(self).statuses(),
                        i + 1,
                    ));
                }
            } else {
                proof {
                    assert(self.pinger_out() =~= old(self).pinger_out() + active_append_msgs(
                        old(self).catalog(),
                        old(self).statuses(),
                        i + 1,
                    ));
                }
            }
            i += 1;
        }
    }

    /// Enable every group: request an unban of every catalog address,
    /// queue a re-classification per group, and reset the probe worklist
    /// to exactly the addresses of the groups currently known not to be
    /// fully blocked. The per-group firewall failures are returned for
    /// the caller to log.
    pub fn enable_all_servers<F: FirewallRequirements>(&mut self, firewall: &mut F) -> (errs: Vec<
        crate::firewall::Error,
    >)
        requires
            old(self).wf(),
        ensures
            final(self).wf(),
            final(firewall).unban_log() == old(firewall).unban_log() + all_ips_upto(
                old(self).catalog(),
                old(self).catalog().len() as int,
            ),
            final(firewall).ban_log() == old(firewall).ban_log(),
            final(self).status_out() == old(self).status_out() + reclassify_upto(
                old(self).catalog(),
                old(self).catalog().len() as int,
            ),
            final(self).pinger_out() == old(self).pinger_out() + seq![
                PingerMessageView::ClearList,
            ] + active_append_msgs(
                old(self).catalog(),
                old(self).statuses(),
                old(self).catalog().len() as int,
            ),
            final(self).catalog() == old(self).catalog(),
            final(self).statuses() == old(self).statuses(),
            final(self).selection() == old(self).selection(),
            final(self).histories() == old(self).histories(),
            final(self).purge_list() == old(self).purge_list(),
    {
        let n = self.servers.len();
        let mut errs: Vec<crate::firewall::Error> = Vec::new();
        let mut i: usize = 0;
        while i < n
            invariant
                i <= n,
                n == self.catalog().len(),
                self.wf(),
                firewall.unban_log() == old(firewall).unban_log() + all_ips_upto(
                    old(self).catalog(),
                    i as int,
                ),
                firewall.ban_log() == old(firewall).ban_log(),
                self.status_out() == old(self).status_out() + reclassify_upto(
                    old(self).catalog(),
                    i as int,
                ),
                self.catalog() == old(self).catalog(),
                self.statuses() == old(self).statuses(),
                self.selection() == old(self).selection(),
                self.histories() == old(self).histories(),
                self.pinger_out() == old(self).pinger_out(),
                self.purge_list() == old(self).purge_list(),
            decreases n - i,
        {
            let fw_res = {
                let servers = self.servers.get_servers();
                proof {
                    assert(crate::steam_server::infos_view(servers@)[i as int] == servers@[
                        i as int]@);
                }
                servers[i].unban(firewall)
            };
            if let Err(e) = fw_res {
                errs.push(e);
            }
            proof {
                assert(firewall.unban_log() =~= old(firewall).unban_log() + all_ips_upto(
                    old(self).catalog(),
                    i + 1,
                ));
            }
            self.push_reclassify(i);
            i += 1;
        }
        let ghost before = self.pinger_out();
        self.pinger_outbox.push(PingerMessage::ClearList);
        proof {
            assert(self.pinger_out() =~= before + seq![PingerMessageView::ClearList]);
        }
        self.send_currently_active_ip_list_to_pinger();
        errs
    }

    /// Disable every group: request a ban of every catalog address,
    /// queue a re-classification per group, clear the probe worklist,
    /// and mark every catalog address's history for purging after the
    /// next flush. The per-group firewall failures are returned for the
    /// caller to log.
    pub fn disable_all_servers<F: FirewallRequirements>(&mut self, firewall: &mut F) -> (errs:
        Vec<crate::firewall::Error>)
        requires
            old(self).wf(),
        ensures
            final(self).wf(),
            final(firewall).ban_log() == old(firewall).ban_log() + all_ips_upto(
                old(self).catalog(),
                old(self).catalog().len() as int,
            ),
            final(firewall).unban_log() == old(firewall).unban_log(),
            final(self).status_out() == old(self).status_out() + reclassify_upto(
                old(self).catalog(),
                old(self).catalog().len() as int,
            ),
            final(self).pinger_out() == old(self).pinger_out() + seq![
                PingerMessageView::ClearList,
            ],
            final(self).purge_list() == old(self).purge_list() + all_ips_upto(
                old(self).catalog(),
                old(self).catalog().len() as int,
            ),
            final(self).catalog() == old(self).catalog(),
            final(self).statuses() == old(self).statuses(),
            final(self).selection() == old(self).selection(),
            final(self).histories() == old(self).histories(),
    {
        let n = self.servers.len();
        let mut errs: Vec<crate::firewall::Error> = Vec::new();
        let mut i: usize = 0;
        while i < n
            invariant
                i <= n,
                n == self.catalog().len(),
                self.wf(),
                firewall.ban_log() == old(firewall).ban_log() + all_ips_upto(
                    old(self).catalog(),
                    i as int,
                ),
                firewall.unban_log() == old(firewall).unban_log(),
                self.status_out() == old(self).status_out() + reclassify_upto(
                    old(self).catalog(),
                    i as int,
                ),
                self.purge_list() == old(self).purge_list() + all_ips_upto(
                    old(self).catalog(),
                    i as int,
                ),
                self.catalog() == old(self).catalog(),
                self.statuses() == old(self).statuses(),
                self.selection() == old(self).selection(),
                self.histories() == old(self).histories(),
                self.pinger_out() == old(self).pinger_out(),
            decreases n - i,
        {
            let (ips, fw_res) = {
                let servers = self.servers.get_servers();
                proof {
                    assert(crate::steam_server::infos_view(servers@)[i as int] == servers@[
                        i as int]@);
                }
                let fw_res = servers[i].ban(firewall);
                (servers[i].ipv4s_vec(), fw_res)
            };
            if let Err(e) = fw_res {
                errs.push(e);
            }
            self.push_reclassify(i);
            append_addrs(&mut self.pending_history_purge, &ips);
            proof {
                assert(self.purge_list() =~= old(self).purge_list() + all_ips_upto(
                    old(self).catalog(),
                    i + 1,
                ));
                assert(firewall.ban_log() =~= old(firewall).ban_log() + all_ips_upto(
                    old(self).catalog(),
                    i + 1,
                ));
            }
            i += 1;
        }
        let ghost before = self.pinger_out();
        self.pinger_outbox.push(PingerMessage::ClearList);
        proof {
            assert(self.pinger_out() =~= before + seq![PingerMessageView::ClearList]);
        }
        errs
    }

    /// Whether the UI currently marks `ip` as selected.
    pub fn is_ip_selected(&self, ip: Address) -> (r: bool)
        ensures
            r == sel_of(self.selection(), ip),
    {
        let ghost sel = self.selection();
        let n = self.ip_selection_status.len();
        let mut i: usize = 0;
        while i < n
            invariant
                i <= n,
                n == sel.len(),
                sel == self.selection(),
                forall|j: int| 0 <= j < i ==> sel[j].0 != ip,
            decreases n - i,
        {
            if self.ip_selection_status[i].0 == ip {
                proof {
                    sel_index_ensures(sel, ip);
                    assert(sel[i as int].0 == ip);
                    assert(sel_index(sel, ip) is Some) by {
                        if sel_index(sel, ip) is None {
                            assert(sel[i as int].0 != ip);
                        }
                    }
                    let idx = sel_index(sel, ip)->Some_0;
                    assert(idx == i) by {
                        if idx < i {
                            assert(sel[idx].0 != ip);
                        }
                        if idx > i {
                            assert(sel[i as int].0 != ip);
                        }
                    }
                }
                return self.ip_selection_status[i].1;
            }
            i += 1;
        }
        proof {
            sel_index_ensures(sel, ip);
            if sel_index(sel, ip) is Some {
                let idx = sel_index(sel, ip)->Some_0;
                assert(sel[idx].0 != ip);
            }
        }
        false
    }

    /// Mark `ip` as selected or unselected for the bulk operations.
    pub fn set_ip_selected(&mut self, ip: Address, selected: bool)
        ensures
            final(self).selection() == set_sel(old(self).selection(), ip, selected),
            final(self).catalog() == old(self).catalog(),
            final(self).statuses() == old(self).statuses(),
            final(self).histories() == old(self).histories(),
            final(self).pinger_out() == old(self).pinger_out(),
            final(self).status_out() == old(self).status_out(),
            final(self).purge_list() == old(self).purge_list(),
            final(self).wf() == old(self).wf(),
    {
        let ghost sel = self.selection();
        let n = self.ip_selection_status.len();
        let mut i: usize = 0;
        while i < n
            invariant
                i <= n,
                n == sel.len(),
                sel == self.selection(),
                sel == old(self).selection(),
                self == old(self),
                forall|j: int| 0 <= j < i ==> sel[j].0 != ip,
            decreases n - i,
        {
            if self.ip_selection_status[i].0 == ip {
                proof {
                    sel_index_ensures(sel, ip);
                    assert(sel[i as int].0 == ip);
                    assert(sel_index(sel, ip) is Some) by {
                        if sel_index(sel, ip) is None {
                            assert(sel[i as int].0 != ip);
                        }
                    }
                    let idx = sel_index(sel, ip)->Some_0;
                    assert(idx == i) by {
                        if idx < i {
                            assert(sel[idx].0 != ip);
                        }
                        if idx > i {
                            assert(sel[i as int].0 != ip);
                        }
                    }
                }
                self.ip_selection_status.remove(i);
                self.ip_selection_status.insert(i, (ip, selected));
                proof {
                    assert(self.selection() =~= set_sel(sel, ip, selected));
                }
                return;
            }
            i += 1;
        }
        proof {
            sel_index_ensures(sel, ip);
            if sel_index(sel, ip) is Some {
                let idx = sel_index(sel, ip)->Some_0;
                assert(sel[idx].0 != ip);
            }
        }
        self.ip_selection_status.push((ip, selected));
    }

    /// Select or deselect every listed address at once.
    pub fn select_all(&mut self, selected: bool)
        ensures
            final(self).selection() == old(self).selection().map_values(
                |e: (Address, bool)| (e.0, selected),
            ),
            final(self).catalog() == old(self).catalog(),
            final(self).statuses() == old(self).statuses(),
            final(self).histories() == old(self).histories(),
            final(self).pinger_out() == old(self).pinger_out(),
            final(self).status_out() == old(self).status_out(),
            final(self).purge_list() == old(self).purge_list(),
            final(self).wf() == old(self).wf(),
    {
        let ghost sel = self.selection();
        let n = self.ip_selection_status.len();
        let mut out: Vec<(Address, bool)> = Vec::new();
        let mut i: usize = 0;
        while i < n
            invariant
                i <= n,
                n == sel.len(),
                sel == self.selection(),
                sel == old(self).selection(),
                self == old(self),
                out@ == sel.take(i as int).map_values(|e: (Address, bool)| (e.0, selected)),
            decreases n - i,
        {
            out.push((self.ip_selection_status[i].0, selected));
            proof {
                assert(out@ =~= sel.take(i + 1).map_values(
                    |e: (Address, bool)| (e.0, selected),
                ));
            }
            i += 1;
        }
        self.ip_selection_status = out;
        proof {
            assert(sel.take(n as int) =~= sel);
            assert(self.selection() =~= old(self).selection().map_values(
                |e: (Address, bool)| (e.0, selected),
            ));
        }
    }

    /// The selection status of every group, parallel to the catalog, so
    /// zipping the result with the catalog is possible.
    pub fn servers_selection_status(&self) -> (r: Vec<ServerSelectionStatus>)
        ensures
            r@ == Seq::new(
                self.catalog().len(),
                |i: int| selection_status_of(self.catalog()[i], self.selection()),
            ),
    {
        let ghost c = self.catalog();
        let ghost sel = self.selection();
        let n = self.servers.len();
        let mut out: Vec<ServerSelectionStatus> = Vec::new();
        let mut i: usize = 0;
        while i < n
            invariant
                i <= n,
                n == c.len(),
                c == self.catalog(),
                sel == self.selection(),
                out@.len() == i,
                forall|j: int| 0 <= j < i ==> out@[j] == selection_status_of(
                    #[trigger] c[j],
                    sel,
                ),
            decreases n - i,
        {
            let ips = {
                let servers = self.servers.get_servers();
                proof {
                    assert(crate::steam_server::infos_view(servers@)[i as int] == servers@[
                        i as int]@);
                }
                servers[i].ipv4s_vec()
            };
            let m = ips.len();
            let mut count: usize = 0;
            let mut k: usize = 0;
            while k < m
                invariant
                    k <= m,
                    m == ips@.len(),
                    sel == self.selection(),
                    count == count_selected(ips@.take(k as int), sel),
                    count <= k,
                decreases m - k,
            {
                proof {
                    assert(ips@.take(k + 1).drop_last() =~= ips@.take(k as int));
                    assert(ips@.take(k + 1).last() == ips@[k as int]);
                }
                if self.is_ip_selected(ips[k]) {
                    count += 1;
                }
                k += 1;
            }
            proof {
                assert(ips@.take(m as int) =~= ips@);
            }
            let status = if count == 0 {
                ServerSelectionStatus::NoneSelected
            } else if count == m {
                ServerSelectionStatus::AllSelected
            } else {
                ServerSelectionStatus::SomeSelected
            };
            out.push(status);
            i += 1;
        }
        proof {
            assert(out@ =~= Seq::new(
                c.len(),
                |i: int| selection_status_of(c[i], sel),
            ));
        }
        out
    }

    /// The total round-trip time, sample count, and failed-probe count of
    /// one address's recorded history; all zero when none is recorded.
    pub fn calculate_total_ping_for_ip(&self, ip: Address) -> (r: (u128, usize, usize))
        requires
            self.wf(),
        ensures
            r.0 == rtt_sum(hist_of(self.histories(), ip)),
            r.1 == hist_of(self.histories(), ip).len(),
            r.2 == lost_count(hist_of(self.histories(), ip)),
    {
        let ghost h = self.histories();
        let n = self.ping_info.len();
        let mut i: usize = 0;
        while i < n
            invariant
                i <= n,
                n == h.len(),
                h == self.histories(),
                self.wf(),
                forall|j: int| 0 <= j < i ==> h[j].0 != ip,
            decreases n - i,
        {
            proof {
                assert(h[i as int] == (self.ping_info@[i as int].0, self.ping_info@[i as int].1@));
            }
            if self.ping_info[i].0 == ip {
                proof {
                    hist_index_ensures(h, ip);
                    assert(h[i as int].0 == ip);
                    assert(hist_index(h, ip) is Some) by {
                        if hist_index(h, ip) is None {
                            assert(h[i as int].0 != ip);
                        }
                    }
                    let idx = hist_index(h, ip)->Some_0;
                    assert(idx == i) by {
                        if idx < i {
                            assert(h[idx].0 != ip);
                        }
                        if idx > i {
                            assert(h[i as int].0 != ip);
                        }
                    }
                    assert(hist_of(h, ip) == h[i as int].1);
                }
                let hist = &self.ping_info[i].1;
                let m = hist.len();
                proof {
                    assert(hist@ == h[i as int].1);
                    assert(m <= MAX_PINGS_PER_IP);
                }
                let mut total: u128 = 0;
                let mut lost: usize = 0;
                let mut k: usize = 0;
                while k < m
                    invariant
                        k <= m,
                        m == hist@.len(),
                        m <= MAX_PINGS_PER_IP,
                        total == rtt_sum(hist@.take(k as int)),
                        lost == lost_count(hist@.take(k as int)),
                        lost <= k,
                    decreases m - k,
                {
                    proof {
                        assert(hist@.take(k + 1).drop_last() =~= hist@.take(k as int));
                        assert(hist@.take(k + 1).last() == hist@[k as int]);
                        lemma_ping_sums_bounds(hist@.take(k as int));
                    }
                    match hist[k] {
                        Result::Ok(p) => {
                            total = total + (p.get_rtt() as u128);
                        },
                        Result::Err(_) => {
                            lost = lost + 1;
                        },
                    }
                    k += 1;
                }
                proof {
                    assert(hist@.take(m as int) =~= hist@);
                }
                return (total, m, lost);
            }
            i += 1;
        }
        proof {
            hist_index_ensures(h, ip);
            if hist_index(h, ip) is Some {
                let idx = hist_index(h, ip)->Some_0;
                assert(h[idx].0 != ip);
            }
            assert(hist_of(h, ip) == Seq::<ProbeOutcome>::empty());
        }
        (0, 0, 0)
    }

    /// Aggregate ping statistics over the given addresses: the summed
    /// round-trip time of their successful probes, the total sample
    /// count, and the failed-probe count. The caller derives the average
    /// and loss through `average_rtt_micros` and `loss_percent`, which
    /// treat an all-lost or empty aggregate as unavailable.
    pub fn aggregate_ping(&self, ips: &Vec<Address>) -> (r: (u128, u128, u128))
        requires
            self.wf(),
            ips@.len() <= 0x0400_0000_0000_0000,
        ensures
            r.0 == agg_rtt(self.histories(), ips@),
            r.1 == agg_count(self.histories(), ips@),
            r.2 == agg_lost(self.histories(), ips@),
            r.2 <= r.1,
    {
        let ghost h = self.histories();
        let n = ips.len();
        let mut total_rtt: u128 = 0;
        let mut total_count: u128 = 0;
        let mut total_lost: u128 = 0;
        let mut i: usize = 0;
        while i < n
            invariant
                i <= n,
                n == ips@.len(),
                n <= 0x0400_0000_0000_0000,
                h == self.histories(),
                self.wf(),
                total_rtt == agg_rtt(h, ips@.take(i as int)),
                total_count == agg_count(h, ips@.take(i as int)),
                total_lost == agg_lost(h, ips@.take(i as int)),
                total_rtt <= (i as int) * (20 * 0xffff_ffff_ffff_ffff),
                total_count <= (i as int) * 20,
                total_lost <= total_count,
            decreases n - i,
        {
            proof {
                assert(ips@.take(i + 1).drop_last() =~= ips@.take(i as int));
                assert(ips@.take(i + 1).last() == ips@[i as int]);
                lemma_hist_of_capped(h, ips@[i as int]);
                lemma_ping_sums_bounds(hist_of(h, ips@[i as int]));
            }
            let (s, c, l) = self.calculate_total_ping_for_ip(ips[i]);
            proof {
                let hist = hist_of(h, ips@[i as int]);
                assert(hist.len() <= 20);
                assert(s <= hist.len() * 0xffff_ffff_ffff_ffff);
                assert(s <= 20 * 0xffff_ffff_ffff_ffff) by (nonlinear_arith)
                    requires
                        s <= hist.len() * 0xffff_ffff_ffff_ffff,
                        hist.len() <= 20,
                ;
                assert(c <= 20);
                assert(l <= c);
                assert((i as int) * (20 * 0xffff_ffff_ffff_ffff) + (20 * 0xffff_ffff_ffff_ffff)
                    == ((i + 1) as int) * (20 * 0xffff_ffff_ffff_ffff)) by (nonlinear_arith);
                assert(((i + 1) as int) * (20 * 0xffff_ffff_ffff_ffff) <= (
                0x0400_0000_0000_0000int) * (20 * 0xffff_ffff_ffff_ffff)) by (nonlinear_arith)
                    requires
                        i + 1 <= 0x0400_0000_0000_0000,
                ;
            }
            total_rtt = total_rtt + s;
            total_count = total_count + (c as u128);
            total_lost = total_lost + (l as u128);
            i += 1;
        }
        proof {
            assert(ips@.take(n as int) =~= ips@);
        }
        (total_rtt, total_count, total_lost)
    }

    /// Enable the currently selected addresses: fully selected groups are
    /// enabled whole; partially selected groups have exactly their
    /// selected addresses enabled, and exactly the selected addresses are
    /// handed to the firewall for unbanning. When every group is fully
    /// selected the faster whole-catalog path runs, with the identical
    /// end state. The firewall failures are returned for the caller to
    /// log.
    pub fn enable_selected_ips<F: FirewallRequirements>(&mut self, firewall: &mut F) -> (errs:
        Vec<crate::firewall::Error>)
        requires
            old(self).wf(),
        ensures
            final(self).wf(),
            final(firewall).ban_log() == old(firewall).ban_log(),
            all_groups_selected(old(self).catalog(), old(self).selection()) ==> {
                &&& final(firewall).unban_log() == old(firewall).unban_log() + all_ips_upto(
                    old(self).catalog(),
                    old(self).catalog().len() as int,
                )
                &&& final(self).status_out() == old(self).status_out() + reclassify_upto(
                    old(self).catalog(),
                    old(self).catalog().len() as int,
                )
                &&& final(self).pinger_out() == old(self).pinger_out() + seq![
                    PingerMessageView::ClearList,
                ] + active_append_msgs(
                    old(self).catalog(),
                    old(self).statuses(),
                    old(self).catalog().len() as int,
                )
            },
            !all_groups_selected(old(self).catalog(), old(self).selection()) ==> {
                &&& final(firewall).unban_log() == old(firewall).unban_log()
                    + selected_addrs_upto(
                    old(self).catalog(),
                    old(self).selection(),
                    old(self).catalog().len() as int,
                )
                &&& final(self).pinger_out() == old(self).pinger_out()
                    + enable_selected_pinger_upto(
                    old(self).catalog(),
                    old(self).selection(),
                    old(self).catalog().len() as int,
                )
                &&& final(self).status_out() == old(self).status_out() + selected_status_upto(
                    old(self).catalog(),
                    old(self).selection(),
                    old(self).catalog().len() as int,
                )
            },
            final(self).catalog() == old(self).catalog(),
            final(self).statuses() == old(self).statuses(),
            final(self).selection() == old(self).selection(),
            final(self).histories() == old(self).histories(),
            final(self).purge_list() == old(self).purge_list(),
    {
        let ghost c = self.catalog();
        let ghost sel = self.selection();
        let statuses = self.servers_selection_status();
        let n = statuses.len();
        let mut all_sel = true;
        let mut k: usize = 0;
        while k < n
            invariant
                k <= n,
                n == c.len(),
                statuses@ == Seq::new(c.len(), |i: int| selection_status_of(c[i], sel)),
                all_sel == (forall|j: int|
                    0 <= j < k ==> selection_status_of(#[trigger] c[j], sel) is AllSelected),
            decreases n - k,
        {
            let is_all = match statuses[k] {
                ServerSelectionStatus::AllSelected => true,
                _ => false,
            };
            all_sel = all_sel && is_all;
            k += 1;
        }
        if all_sel {
            proof {
                assert(all_groups_selected(c, sel));
            }
            return self.enable_all_servers(firewall);
        }
        proof {
            assert(!all_groups_selected(c, sel));
        }
        let mut errs: Vec<crate::firewall::Error> = Vec::new();
        let mut i: usize = 0;
        while i < n
            invariant
                i <= n,
                n == c.len(),
                c == old(self).catalog(),
                sel == old(self).selection(),
                statuses@ == Seq::new(c.len(), |j: int| selection_status_of(c[j], sel)),
                self.wf(),
                self.catalog() == c,
                self.selection() == sel,
                self.statuses() == old(self).statuses(),
                self.histories() == old(self).histories(),
                self.purge_list() == old(self).purge_list(),
                firewall.unban_log() == old(firewall).unban_log() + selected_addrs_upto(
                    c,
                    sel,
                    i as int,
                ),
                firewall.ban_log() == old(firewall).ban_log(),
                self.pinger_out() == old(self).pinger_out() + enable_selected_pinger_upto(
                    c,
                    sel,
                    i as int,
                ),
                self.status_out() == old(self).status_out() + selected_status_upto(
                    c,
                    sel,
                    i as int,
                ),
            decreases n - i,
        {
            match statuses[i] {
                ServerSelectionStatus::AllSelected => {
                    if let Err(e) = self.enable_server(firewall, i) {
                        errs.push(e);
                    }
                    proof {
                        assert(self.pinger_out() =~= old(self).pinger_out()
                            + enable_selected_pinger_upto(c, sel, i + 1));
                        assert(self.status_out() =~= old(self).status_out()
                            + selected_status_upto(c, sel, i + 1));
                        assert(firewall.unban_log() =~= old(firewall).unban_log()
                            + selected_addrs_upto(c, sel, i + 1));
                    }
                },
                ServerSelectionStatus::SomeSelected => {
                    let ips = {
                        let servers = self.servers.get_servers();
                        proof {
                            assert(crate::steam_server::infos_view(servers@)[i as int]
                                == servers@[i as int]@);
                        }
                        servers[i].ipv4s_vec()
                    };
                    let m = ips.len();
                    let ghost pinger_base = self.pinger_out();
                    let ghost status_base = self.status_out();
                    let ghost fw_base = firewall.unban_log();
                    let mut k2: usize = 0;
                    while k2 < m
                        invariant
                            k2 <= m,
                            m == ips@.len(),
                            ips@ == c[i as int].ipv4s,
                            i < c.len(),
                            c == old(self).catalog(),
                            sel == old(self).selection(),
                            self.wf(),
                            self.catalog() == c,
                            self.selection() == sel,
                            self.statuses() == old(self).statuses(),
                            self.histories() == old(self).histories(),
                            self.purge_list() == old(self).purge_list(),
                            firewall.unban_log() == fw_base + sel_filter(
                                ips@.take(k2 as int),
                                sel,
                            ),
                            firewall.ban_log() == old(firewall).ban_log(),
                            self.pinger_out() == pinger_base + sel_push_msgs(
                                ips@.take(k2 as int),
                                sel,
                            ),
                            self.status_out() == status_base + sel_ip_status_msgs(
                                c[i as int],
                                sel,
                                k2 as int,
                            ),
                        decreases m - k2,
                    {
                        proof {
                            assert(ips@.take(k2 + 1).drop_last() =~= ips@.take(k2 as int));
                            assert(ips@.take(k2 + 1).last() == ips@[k2 as int]);
                        }
                        if self.is_ip_selected(ips[k2]) {
                            if let Err(e) = self.enable_ip(firewall, i, ips[k2]) {
                                errs.push(e);
                            }
                            proof {
                                assert(self.pinger_out() =~= pinger_base + sel_push_msgs(
                                    ips@.take(k2 + 1),
                                    sel,
                                ));
                                assert(self.status_out() =~= status_base + sel_ip_status_msgs(
                                    c[i as int],
                                    sel,
                                    k2 + 1,
                                ));
                                assert(firewall.unban_log() =~= fw_base + sel_filter(
                                    ips@.take(k2 + 1),
                                    sel,
                                ));
                            }
                        } else {
                            proof {
                                assert(self.pinger_out() =~= pinger_base + sel_push_msgs(
                                    ips@.take(k2 + 1),
                                    sel,
                                ));
                                assert(self.status_out() =~= status_base + sel_ip_status_msgs(
                                    c[i as int],
                                    sel,
                                    k2 + 1,
                                ));
                                assert(firewall.unban_log() =~= fw_base + sel_filter(
                                    ips@.take(k2 + 1),
                                    sel,
                                ));
                            }
                        }
                        k2 += 1;
                    }
                    proof {
                        assert(ips@.take(m as int) =~= ips@);
                        assert(sel_push_msgs(ips@.take(m as int), sel) == sel_push_msgs(
                            ips@,
                            sel,
                        ));
                        assert(self.pinger_out() =~= old(self).pinger_out()
                            + enable_selected_pinger_upto(c, sel, i + 1));
                        assert(self.status_out() =~= old(self).status_out()
                            + selected_status_upto(c, sel, i + 1));
                        assert(firewall.unban_log() =~= old(firewall).unban_log()
                            + selected_addrs_upto(c, sel, i + 1));
                    }
                },
                ServerSelectionStatus::NoneSelected => {
                    proof {
                        assert(self.pinger_out() =~= old(self).pinger_out()
                            + enable_selected_pinger_upto(c, sel, i + 1));
                        assert(self.status_out() =~= old(self).status_out()
                            + selected_status_upto(c, sel, i + 1));
                        assert(firewall.unban_log() =~= old(firewall).unban_log()
                            + selected_addrs_upto(c, sel, i + 1));
                    }
                },
            }
            i += 1;
        }
        errs
    }

    /// Disable the currently selected addresses: fully selected groups
    /// are disabled whole; partially selected groups have exactly their
    /// selected addresses disabled, and exactly the selected addresses
    /// are handed to the firewall for banning. When every group is fully
    /// selected the faster whole-catalog path runs, with the identical
    /// end state. The firewall failures are returned for the caller to
    /// log.
    pub fn disable_selected_ips<F: FirewallRequirements>(&mut self, firewall: &mut F) -> (errs:
        Vec<crate::firewall::Error>)
        requires
            old(self).wf(),
        ensures
            final(self).wf(),
            final(firewall).unban_log() == old(firewall).unban_log(),
            all_groups_selected(old(self).catalog(), old(self).selection()) ==> {
                &&& final(firewall).ban_log() == old(firewall).ban_log() + all_ips_upto(
                    old(self).catalog(),
                    old(self).catalog().len() as int,
                )
                &&& final(self).status_out() == old(self).status_out() + reclassify_upto(
                    old(self).catalog(),
                    old(self).catalog().len() as int,
                )
                &&& final(self).pinger_out() == old(self).pinger_out() + seq![
                    PingerMessageView::ClearList,
                ]
                &&& final(self).purge_list() == old(self).purge_list() + all_ips_upto(
                    old(self).catalog(),
                    old(self).catalog().len() as int,
                )
            },
            !all_groups_selected(old(self).catalog(), old(self).selection()) ==> {
                &&& final(firewall).ban_log() == old(firewall).ban_log() + selected_addrs_upto(
                    old(self).catalog(),
                    old(self).selection(),
                    old(self).catalog().len() as int,
                )
                &&& final(self).pinger_out() == old(self).pinger_out()
                    + disable_selected_pinger_upto(
                    old(self).catalog(),
                    old(self).selection(),
                    old(self).catalog().len() as int,
                )
                &&& final(self).status_out() == old(self).status_out() + selected_status_upto(
                    old(self).catalog(),
                    old(self).selection(),
                    old(self).catalog().len() as int,
                )
                &&& final(self).purge_list() == old(self).purge_list()
                    + selected_addrs_upto(
                    old(self).catalog(),
                    old(self).selection(),
                    old(self).catalog().len() as int,
                )
            },
            final(self).catalog() == old(self).catalog(),
            final(self).statuses() == old(self).statuses(),
            final(self).selection() == old(self).selection(),
            final(self).histories() == old(self).histories(),
    {
        let ghost c = self.catalog();
        let ghost sel = self.selection();
        let statuses = self.servers_selection_status();
        let n = statuses.len();
        let mut all_sel = true;
        let mut k: usize = 0;
        while k < n
            invariant
                k <= n,
                n == c.len(),
                statuses@ == Seq::new(c.len(), |i: int| selection_status_of(c[i], sel)),
                all_sel == (forall|j: int|
                    0 <= j < k ==> selection_status_of(#[trigger] c[j], sel) is AllSelected),
            decreases n - k,
        {
            let is_all = match statuses[k] {
                ServerSelectionStatus::AllSelected => true,
                _ => false,
            };
            all_sel = all_sel && is_all;
            k += 1;
        }
        if all_sel {
            proof {
                assert(all_groups_selected(c, sel));
            }
            return self.disable_all_servers(firewall);
        }
        proof {
            assert(!all_groups_selected(c, sel));
        }
        let mut errs: Vec<crate::firewall::Error> = Vec::new();
        let mut i: usize = 0;
        while i < n
            invariant
                i <= n,
                n == c.len(),
                c == old(self).catalog(),
                sel == old(self).selection(),
                statuses@ == Seq::new(c.len(), |j: int| selection_status_of(c[j], sel)),
                self.wf(),
                self.catalog() == c,
                self.selection() == sel,
                self.statuses() == old(self).statuses(),
                self.histories() == old(self).histories(),
                firewall.ban_log() == old(firewall).ban_log() + selected_addrs_upto(
                    c,
                    sel,
                    i as int,
                ),
                firewall.unban_log() == old(firewall).unban_log(),
                self.pinger_out() == old(self).pinger_out() + disable_selected_pinger_upto(
                    c,
                    sel,
                    i as int,
                ),
                self.status_out() == old(self).status_out() + selected_status_upto(
                    c,
                    sel,
                    i as int,
                ),
                self.purge_list() == old(self).purge_list() + selected_addrs_upto(
                    c,
                    sel,
                    i as int,
                ),
            decreases n - i,
        {
            match statuses[i] {
                ServerSelectionStatus::AllSelected => {
                    if let Err(e) = self.disable_server(firewall, i) {
                        errs.push(e);
                    }
                    proof {
                        assert(self.pinger_out() =~= old(self).pinger_out()
                            + disable_selected_pinger_upto(c, sel, i + 1));
                        assert(self.status_out() =~= old(self).status_out()
                            + selected_status_upto(c, sel, i + 1));
                        assert(self.purge_list() =~= old(self).purge_list()
                            + selected_addrs_upto(c, sel, i + 1));
                        assert(firewall.ban_log() =~= old(firewall).ban_log()
                            + selected_addrs_upto(c, sel, i + 1));
                    }
                },
                ServerSelectionStatus::SomeSelected => {
                    let ips = {
                        let servers = self.servers.get_servers();
                        proof {
                            assert(crate::steam_server::infos_view(servers@)[i as int]
                                == servers@[i as int]@);
                        }
                        servers[i].ipv4s_vec()
                    };
                    let m = ips.len();
                    let ghost pinger_base = self.pinger_out();
                    let ghost status_base = self.status_out();
                    let ghost purge_base = self.purge_list();
                    let ghost fw_base = firewall.ban_log();
                    let mut k2: usize = 0;
                    while k2 < m
                        invariant
                            k2 <= m,
                            m == ips@.len(),
                            ips@ == c[i as int].ipv4s,
                            i < c.len(),
                            c == old(self).catalog(),
                            sel == old(self).selection(),
                            self.wf(),
                            self.catalog() == c,
                            self.selection() == sel,
                            self.statuses() == old(self).statuses(),
                            self.histories() == old(self).histories(),
                            firewall.ban_log() == fw_base + sel_filter(
                                ips@.take(k2 as int),
                                sel,
                            ),
                            firewall.unban_log() == old(firewall).unban_log(),
                            self.pinger_out() == pinger_base + sel_remove_msgs(
                                ips@.take(k2 as int),
                                sel,
                            ),
                            self.status_out() == status_base + sel_ip_status_msgs(
                                c[i as int],
                                sel,
                                k2 as int,
                            ),
                            self.purge_list() == purge_base + sel_filter(
                                ips@.take(k2 as int),
                                sel,
                            ),
                        decreases m - k2,
                    {
                        proof {
                            assert(ips@.take(k2 + 1).drop_last() =~= ips@.take(k2 as int));
                            assert(ips@.take(k2 + 1).last() == ips@[k2 as int]);
                        }
                        if self.is_ip_selected(ips[k2]) {
                            if let Err(e) = self.disable_ip(firewall, i, ips[k2]) {
                                errs.push(e);
                            }
                            proof {
                                assert(self.pinger_out() =~= pinger_base + sel_remove_msgs(
                                    ips@.take(k2 + 1),
                                    sel,
                                ));
                                assert(self.status_out() =~= status_base + sel_ip_status_msgs(
                                    c[i as int],
                                    sel,
                                    k2 + 1,
                                ));
                                assert(self.purge_list() =~= purge_base + sel_filter(
                                    ips@.take(k2 + 1),
                                    sel,
                                ));
                                assert(firewall.ban_log() =~= fw_base + sel_filter(
                                    ips@.take(k2 + 1),
                                    sel,
                                ));
                            }
                        } else {
                            proof {
                                assert(self.pinger_out() =~= pinger_base + sel_remove_msgs(
                                    ips@.take(k2 + 1),
                                    sel,
                                ));
                                assert(self.status_out() =~= status_base + sel_ip_status_msgs(
                                    c[i as int],
                                    sel,
                                    k2 + 1,
                                ));
                                assert(self.purge_list() =~= purge_base + sel_filter(
                                    ips@.take(k2 + 1),
                                    sel,
                                ));
                                assert(firewall.ban_log() =~= fw_base + sel_filter(
                                    ips@.take(k2 + 1),
                                    sel,
                                ));
                            }
                        }
                        k2 += 1;
                    }
                    proof {
                        assert(ips@.take(m as int) =~= ips@);
                        assert(self.pinger_out() =~= old(self).pinger_out()
                            + disable_selected_pinger_upto(c, sel, i + 1));
                        assert(self.status_out() =~= old(self).status_out()
                            + selected_status_upto(c, sel, i + 1));
                        assert(self.purge_list() =~= old(self).purge_list()
                            + selected_addrs_upto(c, sel, i + 1));
                        assert(firewall.ban_log() =~= old(firewall).ban_log()
                            + selected_addrs_upto(c, sel, i + 1));
                    }
                },
                ServerSelectionStatus::NoneSelected => {
                    proof {
                        assert(self.pinger_out() =~= old(self).pinger_out()
                            + disable_selected_pinger_upto(c, sel, i + 1));
                        assert(self.status_out() =~= old(self).status_out()
                            + selected_status_upto(c, sel, i + 1));
                        assert(self.purge_list() =~= old(self).purge_list()
                            + selected_addrs_upto(c, sel, i + 1));
                        assert(firewall.ban_log() =~= old(firewall).ban_log()
                            + selected_addrs_upto(c, sel, i + 1));
                    }
                },
            }
            i += 1;
        }
        errs
    }

    /// Enable every group whose name matches `matcher` and does not match
    /// `exclude`: exactly the matching groups' addresses are handed to
    /// the firewall for unbanning, in catalog order; non-matching groups
    /// get no firewall calls and no messages. The firewall failures are
    /// returned for the caller to log.
    pub fn enable_matching<F: FirewallRequirements>(
        &mut self,
        firewall: &mut F,
        matcher: &crate::matcher::Matcher,
        exclude: Option<&crate::matcher::Matcher>,
    ) -> (errs: Vec<crate::firewall::Error>)
        requires
            old(self).wf(),
        ensures
            final(self).wf(),
            final(firewall).ban_log() == old(firewall).ban_log(),
            ({
                let pat = matcher.spec_pattern();
                let ex = match exclude {
                    Option::Some(e) => Option::Some(e.spec_pattern()),
                    Option::None => Option::<Seq<char>>::None,
                };
                &&& final(firewall).unban_log() == old(firewall).unban_log()
                    + matching_addrs_upto(
                    old(self).catalog(),
                    pat,
                    ex,
                    old(self).catalog().len() as int,
                )
                &&& final(self).pinger_out() == old(self).pinger_out()
                    + matching_enable_pinger_upto(
                    old(self).catalog(),
                    pat,
                    ex,
                    old(self).catalog().len() as int,
                )
                &&& final(self).status_out() == old(self).status_out() + matching_status_upto(
                    old(self).catalog(),
                    pat,
                    ex,
                    old(self).catalog().len() as int,
                )
            }),
            final(self).catalog() == old(self).catalog(),
            final(self).statuses() == old(self).statuses(),
            final(self).selection() == old(self).selection(),
            final(self).histories() == old(self).histories(),
            final(self).purge_list() == old(self).purge_list(),
    {
        let ghost c = self.catalog();
        let ghost pat = matcher.spec_pattern();
        let ghost ex = match exclude {
            Option::Some(e) => Option::Some(e.spec_pattern()),
            Option::None => Option::<Seq<char>>::None,
        };
        let n = self.servers.len();
        let mut errs: Vec<crate::firewall::Error> = Vec::new();
        let mut i: usize = 0;
        while i < n
            invariant
                i <= n,
                n == c.len(),
                c == old(self).catalog(),
                pat == matcher.spec_pattern(),
                ex == (match exclude {
                    Option::Some(e) => Option::Some(e.spec_pattern()),
                    Option::None => Option::<Seq<char>>::None,
                }),
                self.wf(),
                self.catalog() == c,
                self.statuses() == old(self).statuses(),
                self.selection() == old(self).selection(),
                self.histories() == old(self).histories(),
                self.purge_list() == old(self).purge_list(),
                firewall.unban_log() == old(firewall).unban_log() + matching_addrs_upto(
                    c,
                    pat,
                    ex,
                    i as int,
                ),
                firewall.ban_log() == old(firewall).ban_log(),
                self.pinger_out() == old(self).pinger_out() + matching_enable_pinger_upto(
                    c,
                    pat,
                    ex,
                    i as int,
                ),
                self.status_out() == old(self).status_out() + matching_status_upto(
                    c,
                    pat,
                    ex,
                    i as int,
                ),
            decreases n - i,
        {
            let matched = {
                let servers = self.servers.get_servers();
                proof {
                    assert(crate::steam_server::infos_view(servers@)[i as int] == servers@[
                        i as int]@);
                }
                let name = servers[i].get_abr();
                let m1 = matcher.is_match(name);
                let m2 = match exclude {
                    Option::Some(e) => e.is_match(name),
                    Option::None => false,
                };
                m1 && !m2
            };
            proof {
                assert(matched == name_matched(c[i as int], pat, ex));
            }
            if matched {
                if let Err(e) = self.enable_server(firewall, i) {
                    errs.push(e);
                }
                proof {
                    assert(self.pinger_out() =~= old(self).pinger_out()
                        + matching_enable_pinger_upto(c, pat, ex, i + 1));
                    assert(self.status_out() =~= old(self).status_out() + matching_status_upto(
                        c,
                        pat,
                        ex,
                        i + 1,
                    ));
                    assert(firewall.unban_log() =~= old(firewall).unban_log()
                        + matching_addrs_upto(c, pat, ex, i + 1));
                }
            } else {
                proof {
                    assert(self.pinger_out() =~= old(self).pinger_out()
                        + matching_enable_pinger_upto(c, pat, ex, i + 1));
                    assert(self.status_out() =~= old(self).status_out() + matching_status_upto(
                        c,
                        pat,
                        ex,
                        i + 1,
                    ));
                    assert(firewall.unban_log() =~= old(firewall).unban_log()
                        + matching_addrs_upto(c, pat, ex, i + 1));
                }
            }
            i += 1;
        }
        errs
    }

    /// Disable every group whose name matches `matcher` and does not
    /// match `exclude`: exactly the matching groups' addresses are
    /// handed to the firewall for banning, in catalog order;
    /// non-matching groups get no firewall calls and no messages. The
    /// firewall failures are returned for the caller to log.
    pub fn disable_matching<F: FirewallRequirements>(
        &mut self,
        firewall: &mut F,
        matcher: &crate::matcher::Matcher,
        exclude: Option<&crate::matcher::Matcher>,
    ) -> (errs: Vec<crate::firewall::Error>)
        requires
            old(self).wf(),
        ensures
            final(self).wf(),
            final(firewall).unban_log() == old(firewall).unban_log(),
            ({
                let pat = matcher.spec_pattern();
                let ex = match exclude {
                    Option::Some(e) => Option::Some(e.spec_pattern()),
                    Option::None => Option::<Seq<char>>::None,
                };
                &&& final(firewall).ban_log() == old(firewall).ban_log()
                    + matching_addrs_upto(
                    old(self).catalog(),
                    pat,
                    ex,
                    old(self).catalog().len() as int,
                )
                &&& final(self).pinger_out() == old(self).pinger_out()
                    + matching_disable_pinger_upto(
                    old(self).catalog(),
                    pat,
                    ex,
                    old(self).catalog().len() as int,
                )
                &&& final(self).status_out() == old(self).status_out() + matching_status_upto(
                    old(self).catalog(),
                    pat,
                    ex,
                    old(self).catalog().len() as int,
                )
                &&& final(self).purge_list() == old(self).purge_list() + matching_addrs_upto(
                    old(self).catalog(),
                    pat,
                    ex,
                    old(self).catalog().len() as int,
                )
            }),
            final(self).catalog() == old(self).catalog(),
            final(self).statuses() == old(self).statuses(),
            final(self).selection() == old(self).selection(),
            final(self).histories() == old(self).histories(),
    {
        let ghost c = self.catalog();
        let ghost pat = matcher.spec_pattern();
        let ghost ex = match exclude {
            Option::Some(e) => Option::Some(e.spec_pattern()),
            Option::None => Option::<Seq<char>>::None,
        };
        let n = self.servers.len();
        let mut errs: Vec<crate::firewall::Error> = Vec::new();
        let mut i: usize = 0;
        while i < n
            invariant
                i <= n,
                n == c.len(),
                c == old(self).catalog(),
                pat == matcher.spec_pattern(),
                ex == (match exclude {
                    Option::Some(e) => Option::Some(e.spec_pattern()),
                    Option::None => Option::<Seq<char>>::None,
                }),
                self.wf(),
                self.catalog() == c,
                self.statuses() == old(self).statuses(),
                self.selection() == old(self).selection(),
                self.histories() == old(self).histories(),
                firewall.ban_log() == old(firewall).ban_log() + matching_addrs_upto(
                    c,
                    pat,
                    ex,
                    i as int,
                ),
                firewall.unban_log() == old(firewall).unban_log(),
                self.pinger_out() == old(self).pinger_out() + matching_disable_pinger_upto(
                    c,
                    pat,
                    ex,
                    i as int,
                ),
                self.status_out() == old(self).status_out() + matching_status_upto(
                    c,
                    pat,
                    ex,
                    i as int,
                ),
                self.purge_list() == old(self).purge_list() + matching_addrs_upto(
                    c,
                    pat,
                    ex,
                    i as int,
                ),
            decreases n - i,
        {
            let matched = {
                let servers = self.servers.get_servers();
                proof {
                    assert(crate::steam_server::infos_view(servers@)[i as int] == servers@[
                        i as int]@);
                }
                let name = servers[i].get_abr();
                let m1 = matcher.is_match(name);
                let m2 = match exclude {
                    Option::Some(e) => e.is_match(name),
                    Option::None => false,
                };
                m1 && !m2
            };
            proof {
                assert(matched == name_matched(c[i as int], pat, ex));
            }
            if matched {
                if let Err(e) = self.disable_server(firewall, i) {
                    errs.push(e);
                }
                proof {
                    assert(self.pinger_out() =~= old(self).pinger_out()
                        + matching_disable_pinger_upto(c, pat, ex, i + 1));
                    assert(self.status_out() =~= old(self).status_out() + matching_status_upto(
                        c,
                        pat,
                        ex,
                        i + 1,
                    ));
                    assert(self.purge_list() =~= old(self).purge_list() + matching_addrs_upto(
                        c,
                        pat,
                        ex,
                        i + 1,
                    ));
                    assert(firewall.ban_log() =~= old(firewall).ban_log()
                        + matching_addrs_upto(c, pat, ex, i + 1));
                }
            } else {
                proof {
                    assert(self.pinger_out() =~= old(self).pinger_out()
                        + matching_disable_pinger_upto(c, pat, ex, i + 1));
                    assert(self.status_out() =~= old(self).status_out() + matching_status_upto(
                        c,
                        pat,
                        ex,
                        i + 1,
                    ));
                    assert(self.purge_list() =~= old(self).purge_list() + matching_addrs_upto(
                        c,
                        pat,
                        ex,
                        i + 1,
                    ));
                    assert(firewall.ban_log() =~= old(firewall).ban_log()
                        + matching_addrs_upto(c, pat, ex, i + 1));
                }
            }
            i += 1;
        }
        errs
    }
}

} // verus!
