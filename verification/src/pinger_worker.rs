use vstd::prelude::*;

use crate::addr::Address;
use crate::worklist::{append_absent, push_absent, remove_addr, AddressSet};

verus! {

/// Control messages sent from the reconciler to the probe worker.
#[derive(Debug)]
pub enum PingerMessage {
    PushToList(Address),
    RemoveFromList(Address),
    AppendToList(Vec<Address>),
    ClearList,
    KillThread,
}

/// Spec-level shape of a `PingerMessage`, with sequence payloads.
pub enum PingerMessageView {
    PushToList(Address),
    RemoveFromList(Address),
    AppendToList(Seq<Address>),
    ClearList,
    KillThread,
}

impl View for PingerMessage {
    type V = PingerMessageView;

    open spec fn view(&self) -> PingerMessageView {
        match self {
            PingerMessage::PushToList(a) => PingerMessageView::PushToList(*a),
            PingerMessage::RemoveFromList(a) => PingerMessageView::RemoveFromList(*a),
            PingerMessage::AppendToList(items) => PingerMessageView::AppendToList(items@),
            PingerMessage::ClearList => PingerMessageView::ClearList,
            PingerMessage::KillThread => PingerMessageView::KillThread,
        }
    }
}

/// The views of a batch of messages.
pub open spec fn pinger_views(ms: Seq<PingerMessage>) -> Seq<PingerMessageView> {
    ms.map_values(|m: PingerMessage| m@)
}

/// The worklist after one control message is applied.
pub open spec fn apply_pinger_message(s: Seq<Address>, m: PingerMessageView) -> Seq<Address> {
    match m {
        PingerMessageView::PushToList(a) => push_absent(s, a),
        PingerMessageView::RemoveFromList(a) => remove_addr(s, a),
        PingerMessageView::AppendToList(items) => append_absent(s, items),
        PingerMessageView::ClearList => Seq::<Address>::empty(),
        PingerMessageView::KillThread => s,
    }
}

/// The worklist after a whole batch is applied, in receipt order.
pub open spec fn apply_pinger_messages(
    s: Seq<Address>,
    ms: Seq<PingerMessageView>,
) -> Seq<Address>
    decreases ms.len(),
{
    if ms.len() == 0 {
        s
    } else {
        apply_pinger_message(apply_pinger_messages(s, ms.drop_last()), ms.last())
    }
}

/// Whether a batch carries the terminal kill signal.
pub open spec fn has_kill(ms: Seq<PingerMessageView>) -> bool {
    exists|i: int| 0 <= i < ms.len() && ms[i] is KillThread
}

/// The address probed from worklist `list` at round-robin cursor `index`:
/// the cursor wraps to the front when removals have left it past the end.
pub open spec fn rr_target(list: Seq<Address>, index: int) -> Address
    recommends
        list.len() > 0,
{
    if 0 <= index < list.len() {
        list[index]
    } else {
        list[0]
    }
}

/// The round-robin cursor after one probe of a non-empty worklist.
pub open spec fn rr_next(list: Seq<Address>, index: int) -> int {
    if 0 <= index < list.len() {
        index + 1
    } else {
        1
    }
}

/// The targets of `n` successive probes of the fixed worklist `list`
/// starting at cursor `index`, together with the cursor afterwards.
pub open spec fn rr_run(list: Seq<Address>, index: int, n: nat) -> (Seq<Address>, int)
    decreases n,
{
    if n == 0 {
        (Seq::<Address>::empty(), index)
    } else {
        let rest = rr_run(list, rr_next(list, index), (n - 1) as nat);
        (seq![rr_target(list, index)] + rest.0, rest.1)
    }
}

/// The state owned by the probe worker: its duplicate-free worklist of
/// probe targets and the round-robin cursor into it.
///
/// The worker's own loop (drain the control mailbox, then either probe one
/// target or sleep) runs outside this crate; every decision it takes is a
/// method here.
pub struct ProbeWorker {
    list: AddressSet,
    index: usize,
}

impl View for ProbeWorker {
    type V = Seq<Address>;

    closed spec fn view(&self) -> Seq<Address> {
        self.list@
    }
}

impl ProbeWorker {
    pub open spec fn wf(&self) -> bool {
        self@.no_duplicates()
    }

    /// The round-robin cursor.
    pub closed spec fn spec_index(&self) -> int {
        self.index as int
    }

    pub fn new() -> (r: ProbeWorker)
        ensures
            r@ == Seq::<Address>::empty(),
            r.spec_index() == 0,
            r.wf(),
    {
        ProbeWorker { list: AddressSet::new(), index: 0 }
    }

    pub fn len(&self) -> (r: usize)
        ensures
            r == self@.len(),
    {
        self.list.len()
    }

    pub fn contains(&self, a: Address) -> (r: bool)
        ensures
            r == self@.contains(a),
    {
        self.list.contains(a)
    }

    /// The worklist as a plain vector, in cursor order.
    pub fn targets(&self) -> (r: Vec<Address>)
        ensures
            r@ == self@,
    {
        self.list.to_vec()
    }

    /// Apply a whole drained batch of control messages, in receipt order,
    /// and report whether the batch carried the kill signal.
    ///
    /// Every message of the batch is applied even when the kill signal is
    /// present; the caller terminates its loop afterwards.
    pub fn drain(&mut self, msgs: &Vec<PingerMessage>) -> (kill: bool)
        requires
            old(self).wf(),
        ensures
            final(self).wf(),
            final(self)@ == apply_pinger_messages(old(self)@, pinger_views(msgs@)),
            final(self).spec_index() == old(self).spec_index(),
            kill == has_kill(pinger_views(msgs@)),
    {
        let ghost views = pinger_views(msgs@);
        let n = msgs.len();
        let mut kill = false;
        let mut i: usize = 0;
        while i < n
            invariant
                i <= n,
                n == msgs@.len(),
                views == pinger_views(msgs@),
                self.wf(),
                self@ == apply_pinger_messages(old(self)@, views.take(i as int)),
                self.spec_index() == old(self).spec_index(),
                kill == has_kill(views.take(i as int)),
            decreases n - i,
        {
            proof {
                assert(views.take(i + 1).drop_last() =~= views.take(i as int));
                assert(views.take(i + 1).last() == views[i as int]);
            }
            let ghost prev_kill = kill;
            match &msgs[i] {
                PingerMessage::PushToList(a) => {
                    self.list.push_if_absent(*a);
                },
                PingerMessage::RemoveFromList(a) => {
                    self.list.remove(*a);
                },
                PingerMessage::AppendToList(items) => {
                    self.list.append_all_if_absent(items);
                },
                PingerMessage::ClearList => {
                    self.list.clear();
                },
                PingerMessage::KillThread => {
                    kill = true;
                },
            }
            proof {
                if kill {
                    if prev_kill {
                        let j = choose|j: int|
                            0 <= j < i && views.take(i as int)[j] is KillThread;
                        assert(views.take(i + 1)[j] is KillThread);
                    } else {
                        assert(views.take(i + 1)[i as int] is KillThread);
                    }
                } else {
                    assert forall|j: int| 0 <= j < i + 1 implies !(#[trigger] views.take(
                        i + 1,
                    )[j] is KillThread) by {
                        if j < i {
                            assert(views.take(i as int)[j] == views.take(i + 1)[j]);
                        }
                    }
                }
            }
            i += 1;
        }
        proof {
            assert(views.take(n as int) =~= views);
        }
        kill
    }

    /// Choose the next probe target, wrapping the cursor when concurrent
    /// removals have shrunk the list past it, and advance the cursor.
    /// Returns nothing when the worklist is empty.
    pub fn next_target(&mut self) -> (r: Option<Address>)
        requires
            old(self).wf(),
        ensures
            final(self).wf(),
            final(self)@ == old(self)@,
            old(self)@.len() == 0 ==> r is None && final(self).spec_index() == old(
                self,
            ).spec_index(),
            old(self)@.len() > 0 ==> r == Some(rr_target(old(self)@, old(self).spec_index()))
                && final(self).spec_index() == rr_next(old(self)@, old(self).spec_index()),
    {
        if self.list.is_empty() {
            return None;
        }
        if self.index >= self.list.len() {
            self.index = 0;
        }
        let target = self.list.index(self.index);
        self.index = self.index + 1;
        Some(target)
    }
}

/// Round-robin fairness under shrinkage: when removals have left the
/// cursor at or past the end of a non-empty worklist, the next probe
/// does not fail; it wraps to the front and cycling resumes from there.
pub proof fn lemma_round_robin_resumes_after_shrink(list: Seq<Address>, index: int)
    requires
        list.len() > 0,
        index >= list.len(),
    ensures
        rr_target(list, index) == list[0],
        rr_next(list, index) == 1,
{
}

proof fn lemma_rr_run_tail(list: Seq<Address>, k: int)
    requires
        list.len() > 0,
        0 <= k <= list.len(),
    ensures
        rr_run(list, k, (list.len() - k) as nat).0 =~= list.subrange(k, list.len() as int),
        rr_run(list, k, (list.len() - k) as nat).1 == list.len() as int,
    decreases list.len() - k,
{
    if k == list.len() {
    } else {
        lemma_rr_run_tail(list, k + 1);
        assert(seq![list[k]] + list.subrange(k + 1, list.len() as int) =~= list.subrange(
            k,
            list.len() as int,
        ));
    }
}

/// Round-robin fairness: with the cursor at the front, one full round of
/// probes over an unchanged worklist visits every address exactly once,
/// in worklist order.
pub proof fn lemma_round_robin_full_cycle(list: Seq<Address>)
    requires
        list.len() > 0,
    ensures
        rr_run(list, 0, list.len()).0 == list,
        rr_run(list, 0, list.len()).1 == list.len() as int,
{
    lemma_rr_run_tail(list, 0);
    assert(list.subrange(0, list.len() as int) =~= list);
}

} // verus!
