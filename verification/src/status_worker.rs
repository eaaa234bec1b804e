use vstd::prelude::*;

use crate::addr::Address;
use crate::firewall::{self, FirewallRequirements};
use crate::steam_server::{ServerState, ServerStateView};

verus! {

/// Control messages sent from the reconciler to the status worker.
///
/// `AppendToList` may enqueue a group that is already pending:
/// classification queries the firewall afresh each time, so duplicates are
/// tolerated, and the reconciler applies reports in arrival order, so the
/// last classification of a group wins.
#[derive(Debug)]
pub enum ServerStatusMessage {
    AppendToList(Vec<(String, Vec<Address>)>),
    RemoveServer(String),
    ClearList,
    KillThread,
}

/// Spec-level shape of a `ServerStatusMessage`.
pub enum ServerStatusMessageView {
    AppendToList(Seq<(Seq<char>, Seq<Address>)>),
    RemoveServer(Seq<char>),
    ClearList,
    KillThread,
}

/// The views of a list of (group name, address list) work items.
pub open spec fn group_entries_view(s: Seq<(String, Vec<Address>)>) -> Seq<
    (Seq<char>, Seq<Address>),
> {
    s.map_values(|e: (String, Vec<Address>)| (e.0@, e.1@))
}

impl View for ServerStatusMessage {
    type V = ServerStatusMessageView;

    open spec fn view(&self) -> ServerStatusMessageView {
        match self {
            ServerStatusMessage::AppendToList(items) => ServerStatusMessageView::AppendToList(
                group_entries_view(items@),
            ),
            ServerStatusMessage::RemoveServer(name) => ServerStatusMessageView::RemoveServer(
                name@,
            ),
            ServerStatusMessage::ClearList => ServerStatusMessageView::ClearList,
            ServerStatusMessage::KillThread => ServerStatusMessageView::KillThread,
        }
    }
}

/// The views of a batch of status messages.
pub open spec fn status_views(ms: Seq<ServerStatusMessage>) -> Seq<ServerStatusMessageView> {
    ms.map_values(|m: ServerStatusMessage| m@)
}

/// The position of the first pending entry with the given group name.
pub open spec fn first_group_index(
    q: Seq<(Seq<char>, Seq<Address>)>,
    name: Seq<char>,
) -> Option<int>
    decreases q.len(),
{
    if q.len() == 0 {
        Option::None
    } else if q[0].0 == name {
        Option::Some(0int)
    } else {
        match first_group_index(q.drop_first(), name) {
            Option::Some(i) => Option::Some(i + 1),
            Option::None => Option::None,
        }
    }
}

/// What `first_group_index` means: the index it returns is in range, names
/// the group, and is the first to do so.
pub proof fn first_group_index_ensures(q: Seq<(Seq<char>, Seq<Address>)>, name: Seq<char>)
    ensures
        match first_group_index(q, name) {
            Option::Some(i) => 0 <= i < q.len() && q[i].0 == name && forall|j: int|
                0 <= j < i ==> q[j].0 != name,
            Option::None => forall|j: int| 0 <= j < q.len() ==> q[j].0 != name,
        },
    decreases q.len(),
{
    if q.len() > 0 && q[0].0 != name {
        first_group_index_ensures(q.drop_first(), name);
        match first_group_index(q.drop_first(), name) {
            Option::Some(i) => {
                assert(q[i + 1] == q.drop_first()[i]);
                assert forall|j: int| 0 <= j < i + 1 implies q[j].0 != name by {
                    if j > 0 {
                        assert(q.drop_first()[j - 1].0 != name);
                    }
                }
            },
            Option::None => {
                assert forall|j: int| 0 <= j < q.len() implies q[j].0 != name by {
                    if j > 0 {
                        assert(q.drop_first()[j - 1].0 != name);
                    }
                }
            },
        }
    }
}

/// The queue with the first entry for `name` dropped; unchanged, and no
/// error, when no entry has that name.
pub open spec fn remove_group(
    q: Seq<(Seq<char>, Seq<Address>)>,
    name: Seq<char>,
) -> Seq<(Seq<char>, Seq<Address>)> {
    match first_group_index(q, name) {
        Option::Some(i) => q.remove(i),
        Option::None => q,
    }
}

/// The pending queue after one control message is applied.
pub open spec fn apply_status_message(
    q: Seq<(Seq<char>, Seq<Address>)>,
    m: ServerStatusMessageView,
) -> Seq<(Seq<char>, Seq<Address>)> {
    match m {
        ServerStatusMessageView::AppendToList(items) => q + items,
        ServerStatusMessageView::RemoveServer(name) => remove_group(q, name),
        ServerStatusMessageView::ClearList => Seq::<(Seq<char>, Seq<Address>)>::empty(),
        ServerStatusMessageView::KillThread => q,
    }
}

/// The pending queue after a whole batch is applied, in receipt order.
pub open spec fn apply_status_messages(
    q: Seq<(Seq<char>, Seq<Address>)>,
    ms: Seq<ServerStatusMessageView>,
) -> Seq<(Seq<char>, Seq<Address>)>
    decreases ms.len(),
{
    if ms.len() == 0 {
        q
    } else {
        apply_status_message(apply_status_messages(q, ms.drop_last()), ms.last())
    }
}

/// Whether a batch carries the terminal kill signal.
pub open spec fn status_has_kill(ms: Seq<ServerStatusMessageView>) -> bool {
    exists|i: int| 0 <= i < ms.len() && ms[i] is KillThread
}

/// The addresses of `ips` whose flag in `blocked` is set, in order.
pub open spec fn blocked_subset(ips: Seq<Address>, blocked: Seq<bool>) -> Seq<Address>
    recommends
        ips.len() == blocked.len(),
    decreases ips.len(),
{
    if ips.len() == 0 {
        Seq::<Address>::empty()
    } else {
        blocked_subset(ips.drop_last(), blocked.drop_last()) + if blocked.last() {
            seq![ips.last()]
        } else {
            Seq::<Address>::empty()
        }
    }
}

/// The aggregate classification of a group from its per-address block
/// flags: every address confirmed blocked means fully blocked (an empty
/// group counts as fully blocked), none blocked means fully unblocked,
/// anything in between carries exactly the blocked addresses.
pub open spec fn classify_spec(ips: Seq<Address>, blocked: Seq<bool>) -> ServerStateView
    recommends
        ips.len() == blocked.len(),
{
    let b = blocked_subset(ips, blocked);
    if b.len() == ips.len() {
        ServerStateView::AllDisabled
    } else if b.len() == 0 {
        ServerStateView::NoneDisabled
    } else {
        ServerStateView::SomeDisabled(b)
    }
}

/// Classify a group from its addresses and their confirmed block flags.
pub fn classify(ips: &Vec<Address>, blocked: &Vec<bool>) -> (r: ServerState)
    requires
        ips@.len() == blocked@.len(),
    ensures
        r@ == classify_spec(ips@, blocked@),
{
    let n = ips.len();
    let mut blocked_list: Vec<Address> = Vec::new();
    let mut i: usize = 0;
    while i < n
        invariant
            i <= n,
            n == ips@.len(),
            n == blocked@.len(),
            blocked_list@ == blocked_subset(ips@.take(i as int), blocked@.take(i as int)),
        decreases n - i,
    {
        proof {
            assert(ips@.take(i + 1).drop_last() =~= ips@.take(i as int));
            assert(blocked@.take(i + 1).drop_last() =~= blocked@.take(i as int));
            assert(ips@.take(i + 1).last() == ips@[i as int]);
            assert(blocked@.take(i + 1).last() == blocked@[i as int]);
        }
        if blocked[i] {
            blocked_list.push(ips[i]);
            proof {
                assert(blocked_list@ =~= blocked_subset(
                    ips@.take(i + 1),
                    blocked@.take(i + 1),
                ));
            }
        } else {
            proof {
                assert(blocked_list@ =~= blocked_subset(
                    ips@.take(i + 1),
                    blocked@.take(i + 1),
                ));
            }
        }
        i += 1;
    }
    proof {
        assert(ips@.take(n as int) =~= ips@);
        assert(blocked@.take(n as int) =~= blocked@);
    }
    if blocked_list.len() == n {
        ServerState::AllDisabled
    } else if blocked_list.len() == 0 {
        ServerState::NoneDisabled
    } else {
        ServerState::SomeDisabled(blocked_list)
    }
}

/// The per-address block flags a batch of authority answers confirms:
/// only an affirmative `Ok(true)` counts as confirmed blocked.
pub open spec fn confirmed_flags(answers: Seq<Result<bool, firewall::Error>>) -> Seq<bool> {
    Seq::new(answers.len(), |i: int| answers[i] == Ok::<bool, firewall::Error>(true))
}

/// Classify a group from the authority's raw per-address answers. An
/// errored block check counts conservatively as "not confirmed blocked"
/// and is never silently skipped, so a partially blocked group whose
/// checks fail is never reported as fully blocked.
pub fn classify_results(ips: &Vec<Address>, answers: &Vec<Result<bool, firewall::Error>>) -> (r:
    ServerState)
    requires
        ips@.len() == answers@.len(),
    ensures
        r@ == classify_spec(ips@, confirmed_flags(answers@)),
{
    let n = answers.len();
    let mut flags: Vec<bool> = Vec::new();
    let mut i: usize = 0;
    while i < n
        invariant
            i <= n,
            n == answers@.len(),
            n == ips@.len(),
            flags@.len() == i,
            forall|j: int|
                0 <= j < i ==> flags@[j] == (answers@[j] == Ok::<bool, firewall::Error>(true)),
        decreases n - i,
    {
        let f = match answers[i] {
            Ok(b) => b,
            Err(_) => false,
        };
        flags.push(f);
        i += 1;
    }
    proof {
        assert(flags@ =~= confirmed_flags(answers@));
    }
    classify(ips, &flags)
}

/// Query the firewall for every address of a group and classify through
/// `classify_results`, which fixes the conservative treatment of failed
/// checks. Only queries are made: the authority's call logs are
/// unchanged.
pub fn evaluate_group<F: FirewallRequirements>(firewall: &mut F, ips: &Vec<Address>) -> (r:
    ServerState)
    ensures
        exists|flags: Seq<bool>|
            flags.len() == ips@.len() && r@ == classify_spec(ips@, flags),
        final(firewall).ban_log() == old(firewall).ban_log(),
        final(firewall).unban_log() == old(firewall).unban_log(),
{
    let n = ips.len();
    let mut answers: Vec<Result<bool, firewall::Error>> = Vec::new();
    let mut i: usize = 0;
    while i < n
        invariant
            i <= n,
            n == ips@.len(),
            answers@.len() == i,
            firewall.ban_log() == old(firewall).ban_log(),
            firewall.unban_log() == old(firewall).unban_log(),
        decreases n - i,
    {
        let answer = firewall.is_blocked(ips[i]);
        answers.push(answer);
        i += 1;
    }
    let r = classify_results(ips, &answers);
    proof {
        assert(confirmed_flags(answers@).len() == ips@.len() && r@ == classify_spec(
            ips@,
            confirmed_flags(answers@),
        ));
    }
    r
}

/// The state owned by the status worker: a FIFO queue of (group name,
/// address list) work items pending classification.
///
/// The worker's own loop (drain the control mailbox, then classify one
/// group or sleep) runs outside this crate; every decision it takes is a
/// method here.
pub struct StatusWorker {
    queue: Vec<(String, Vec<Address>)>,
}

impl View for StatusWorker {
    type V = Seq<(Seq<char>, Seq<Address>)>;

    closed spec fn view(&self) -> Seq<(Seq<char>, Seq<Address>)> {
        group_entries_view(self.queue@)
    }
}

impl StatusWorker {
    pub fn new() -> (r: StatusWorker)
        ensures
            r@ == Seq::<(Seq<char>, Seq<Address>)>::empty(),
    {
        let r = StatusWorker { queue: Vec::new() };
        proof {
            assert(r@ =~= Seq::<(Seq<char>, Seq<Address>)>::empty());
        }
        r
    }

    pub fn len(&self) -> (r: usize)
        ensures
            r == self@.len(),
    {
        self.queue.len()
    }

    /// Apply a whole drained batch of control messages, in receipt order,
    /// and report whether the batch carried the kill signal.
    ///
    /// Every message of the batch is applied even when the kill signal is
    /// present; the caller terminates its loop afterwards.
    pub fn drain(&mut self, msgs: Vec<ServerStatusMessage>) -> (kill: bool)
        ensures
            final(self)@ == apply_status_messages(old(self)@, status_views(msgs@)),
            kill == status_has_kill(status_views(msgs@)),
    {
        let ghost views = status_views(msgs@);
        let mut rest = msgs;
        let mut kill = false;
        let ghost i: int = 0;
        while rest.len() > 0
            invariant
                0 <= i <= views.len(),
                status_views(rest@) == views.skip(i),
                self@ == apply_status_messages(old(self)@, views.take(i)),
                kill == status_has_kill(views.take(i)),
            decreases rest@.len(),
        {
            let ghost prev_rest = rest@;
            proof {
                assert(status_views(prev_rest).len() == prev_rest.len());
                assert(status_views(prev_rest)[0] == prev_rest[0]@);
                assert(views.skip(i)[0] == views[i]);
                assert(views.take(i + 1).drop_last() =~= views.take(i));
                assert(views.take(i + 1).last() == views[i]);
            }
            let m = rest.remove(0);
            proof {
                assert(m@ == views[i]);
                assert(rest@ =~= prev_rest.drop_first());
                assert(status_views(rest@) =~= views.skip(i + 1)) by {
                    assert forall|j: int| 0 <= j < rest@.len() implies status_views(rest@)[j]
                        == views.skip(i + 1)[j] by {
                        assert(status_views(rest@)[j] == prev_rest[j + 1]@);
                        assert(status_views(prev_rest)[j + 1] == prev_rest[j + 1]@);
                    }
                }
            }
            let ghost prev_kill = kill;
            match m {
                ServerStatusMessage::AppendToList(mut items) => {
                    let ghost item_views = group_entries_view(items@);
                    self.queue.append(&mut items);
                    proof {
                        assert(self@ =~= apply_status_messages(old(self)@, views.take(i))
                            + item_views);
                    }
                },
                ServerStatusMessage::RemoveServer(name) => {
                    self.remove_pending(&name);
                },
                ServerStatusMessage::ClearList => {
                    self.queue.clear();
                    proof {
                        assert(self@ =~= Seq::<(Seq<char>, Seq<Address>)>::empty());
                    }
                },
                ServerStatusMessage::KillThread => {
                    kill = true;
                },
            }
            proof {
                if kill {
                    if prev_kill {
                        let j = choose|j: int| 0 <= j < i && views.take(i)[j] is KillThread;
                        assert(views.take(i + 1)[j] is KillThread);
                    } else {
                        assert(views.take(i + 1)[i] is KillThread);
                    }
                } else {
                    assert forall|j: int| 0 <= j < i + 1 implies !(#[trigger] views.take(
                        i + 1,
                    )[j] is KillThread) by {
                        if j < i {
                            assert(views.take(i)[j] == views.take(i + 1)[j]);
                        }
                    }
                }
                i = i + 1;
            }
        }
        proof {
            assert(status_views(rest@).len() == rest@.len());
            assert(views.take(i) =~= views);
        }
        kill
    }

    /// Drop the first pending entry with the given group name, if any.
    fn remove_pending(&mut self, name: &String)
        ensures
            final(self)@ == remove_group(old(self)@, name@),
    {
        let ghost q = self@;
        let n = self.queue.len();
        let mut j: usize = 0;
        while j < n
            invariant
                j <= n,
                n == self.queue@.len(),
                self@ == q,
                q == old(self)@,
                q.len() == self.queue@.len(),
                forall|k: int| 0 <= k < j ==> q[k].0 != name@,
            decreases n - j,
        {
            proof {
                assert(q[j as int] == (self.queue@[j as int].0@, self.queue@[j as int].1@));
            }
            if self.queue[j].0 == *name {
                proof {
                    first_group_index_ensures(q, name@);
                    assert(q[j as int].0 == name@);
                    let idx = first_group_index(q, name@)->Some_0;
                    assert(first_group_index(q, name@) is Some) by {
                        if first_group_index(q, name@) is None {
                            assert(q[j as int].0 != name@);
                        }
                    }
                    assert(idx == j) by {
                        if idx < j {
                            assert(q[idx].0 != name@);
                        }
                        if idx > j {
                            assert(q[j as int].0 != name@);
                        }
                    }
                }
                self.queue.remove(j);
                proof {
                    assert(self@ =~= q.remove(j as int));
                }
                return;
            }
            j += 1;
        }
        proof {
            first_group_index_ensures(q, name@);
            if first_group_index(q, name@) is Some {
                let idx = first_group_index(q, name@)->Some_0;
                assert(q[idx].0 != name@);
            }
        }
    }

    /// Pop the oldest pending work item, if any: the FIFO policy, chosen
    /// for fairness among groups.
    pub fn pop_front(&mut self) -> (r: Option<(String, Vec<Address>)>)
        ensures
            old(self)@.len() == 0 ==> r is None && final(self)@ == old(self)@,
            old(self)@.len() > 0 ==> final(self)@ == old(self)@.drop_first() && (r matches Some(
                e,
            ) && (e.0@, e.1@) == old(self)@[0]),
    {
        if self.queue.len() == 0 {
            return None;
        }
        let e = self.queue.remove(0);
        proof {
            assert(final(self)@ =~= old(self)@.drop_first());
            assert((e.0@, e.1@) == old(self)@[0]);
        }
        Some(e)
    }

    /// One classification cycle: pop the oldest pending group, query the
    /// firewall for each of its addresses, and classify. Returns the
    /// (group name, classification) report to send, or nothing when the
    /// queue was empty (the worker then sleeps its longer idle interval).
    pub fn step<F: FirewallRequirements>(&mut self, firewall: &mut F) -> (r: Option<
        (String, ServerState),
    >)
        ensures
            final(firewall).ban_log() == old(firewall).ban_log(),
            final(firewall).unban_log() == old(firewall).unban_log(),
            old(self)@.len() == 0 ==> r is None && final(self)@ == old(self)@,
            old(self)@.len() > 0 ==> final(self)@ == old(self)@.drop_first() && (r matches Some(
                rep,
            ) && rep.0@ == old(self)@[0].0 && exists|flags: Seq<bool>|
                flags.len() == old(self)@[0].1.len() && rep.1@ == classify_spec(
                    old(self)@[0].1,
                    flags,
                )),
    {
        match self.pop_front() {
            Option::Some((server, ip_list)) => {
                proof {
                    assert(server@ == old(self)@[0].0);
                    assert(ip_list@ == old(self)@[0].1);
                }
                let state = evaluate_group(firewall, &ip_list);
                proof {
                    let flags = choose|flags: Seq<bool>|
                        flags.len() == ip_list@.len() && state@ == classify_spec(
                            ip_list@,
                            flags,
                        );
                    assert(flags.len() == old(self)@[0].1.len() && state@ == classify_spec(
                        old(self)@[0].1,
                        flags,
                    ));
                }
                Option::Some((server, state))
            },
            Option::None => Option::None,
        }
    }
}

} // verus!
