use vstd::prelude::*;

use crate::addr::Address;

verus! {

/// `s` with `a` appended, unless `a` is already present.
pub open spec fn push_absent(s: Seq<Address>, a: Address) -> Seq<Address> {
    if s.contains(a) {
        s
    } else {
        s.push(a)
    }
}

/// `push_absent` folded over `items`, in order.
pub open spec fn append_absent(s: Seq<Address>, items: Seq<Address>) -> Seq<Address>
    decreases items.len(),
{
    if items.len() == 0 {
        s
    } else {
        push_absent(append_absent(s, items.drop_last()), items.last())
    }
}

/// The first occurrence of `a` swapped with the final element and dropped;
/// `s` unchanged when `a` is absent.
pub open spec fn remove_addr(s: Seq<Address>, a: Address) -> Seq<Address> {
    match s.index_of_first(a) {
        Some(i) => s.update(i, s.last()).drop_last(),
        None => s,
    }
}

/// A worklist of addresses with set semantics: no address appears twice.
///
/// Both background workers use this as their probe / poll target list.
/// Every insertion path checks absence first, so repeated application of
/// any operation is idempotent.
pub struct AddressSet {
    list: Vec<Address>,
}

impl View for AddressSet {
    type V = Seq<Address>;

    closed spec fn view(&self) -> Seq<Address> {
        self.list@
    }
}

impl AddressSet {
    /// The duplicate-freedom invariant.
    pub open spec fn wf(&self) -> bool {
        self@.no_duplicates()
    }

    pub fn new() -> (r: AddressSet)
        ensures
            r@ == Seq::<Address>::empty(),
            r.wf(),
    {
        AddressSet { list: Vec::new() }
    }

    pub fn len(&self) -> (r: usize)
        ensures
            r == self@.len(),
    {
        self.list.len()
    }

    pub fn is_empty(&self) -> (r: bool)
        ensures
            r == (self@.len() == 0),
    {
        self.list.is_empty()
    }

    pub fn index(&self, i: usize) -> (r: Address)
        requires
            i < self@.len(),
        ensures
            r == self@[i as int],
    {
        self.list[i]
    }

    pub fn contains(&self, a: Address) -> (r: bool)
        ensures
            r == self@.contains(a),
    {
        let n = self.list.len();
        let mut i: usize = 0;
        while i < n
            invariant
                i <= n,
                n == self@.len(),
                forall|j: int| 0 <= j < i ==> self@[j] != a,
            decreases n - i,
        {
            if self.list[i] == a {
                return true;
            }
            i += 1;
        }
        false
    }

    /// Add `a` unless it is already present.
    pub fn push_if_absent(&mut self, a: Address)
        ensures
            final(self)@ == push_absent(old(self)@, a),
            old(self).wf() ==> final(self).wf(),
    {
        if !self.contains(a) {
            self.list.push(a);
        }
    }

    /// Add every address of `items` that is not yet present, in order.
    pub fn append_all_if_absent(&mut self, items: &Vec<Address>)
        ensures
            final(self)@ == append_absent(old(self)@, items@),
            old(self).wf() ==> final(self).wf(),
    {
        let n = items.len();
        let mut i: usize = 0;
        while i < n
            invariant
                i <= n,
                n == items@.len(),
                self@ == append_absent(old(self)@, items@.take(i as int)),
                old(self).wf() ==> self.wf(),
            decreases n - i,
        {
            proof {
                assert(items@.take(i + 1).drop_last() =~= items@.take(i as int));
                assert(items@.take(i + 1).last() == items@[i as int]);
            }
            self.push_if_absent(items[i]);
            i += 1;
        }
        proof {
            assert(items@.take(n as int) =~= items@);
        }
    }

    /// Remove `a` if present (by a swap with the final element); no change,
    /// and no error, when it is absent.
    pub fn remove(&mut self, a: Address)
        ensures
            final(self)@ == remove_addr(old(self)@, a),
            old(self).wf() ==> final(self).wf(),
            old(self).wf() ==> !final(self)@.contains(a),
            old(self).wf() ==> forall|x: Address|
                x != a ==> final(self)@.contains(x) == old(self)@.contains(x),
    {
        let ghost s = self@;
        let n = self.list.len();
        let mut i: usize = 0;
        while i < n
            invariant
                i <= n,
                n == self@.len(),
                self@ == s,
                s == old(self)@,
                forall|j: int| 0 <= j < i ==> s[j] != a,
            decreases n - i,
        {
            if self.list[i] == a {
                proof {
                    assert(s.contains(a)) by {
                        assert(s[i as int] == a);
                    }
                    s.index_of_first_ensures(a);
                    let idx = s.index_of_first(a)->Some_0;
                    assert(idx == i) by {
                        if idx < i {
                            assert(s[idx] != a);
                        }
                        if idx > i {
                            assert(s[i as int] != a);
                        }
                    }
                    if s.no_duplicates() {
                        lemma_remove_addr_no_duplicates(s, a);
                    }
                }
                self.list.swap_remove(i);
                return;
            }
            i += 1;
        }
        proof {
            s.index_of_first_ensures(a);
        }
    }

    /// Empty the worklist.
    pub fn clear(&mut self)
        ensures
            final(self)@ == Seq::<Address>::empty(),
            final(self).wf(),
    {
        self.list.clear();
    }

    /// The addresses as a plain vector, in worklist order.
    pub fn to_vec(&self) -> (r: Vec<Address>)
        ensures
            r@ == self@,
    {
        let n = self.list.len();
        let mut out: Vec<Address> = Vec::new();
        let mut i: usize = 0;
        while i < n
            invariant
                i <= n,
                n == self@.len(),
                out@ == self@.take(i as int),
            decreases n - i,
        {
            out.push(self.list[i]);
            proof {
                assert(out@ =~= self@.take(i + 1));
            }
            i += 1;
        }
        proof {
            assert(self@.take(n as int) =~= self@);
        }
        out
    }
}

/// `push_absent` keeps duplicate-freedom, keeps membership of other
/// addresses, and makes `a` a member.
pub proof fn lemma_push_absent(s: Seq<Address>, a: Address)
    requires
        s.no_duplicates(),
    ensures
        push_absent(s, a).no_duplicates(),
        push_absent(s, a).contains(a),
        forall|x: Address| x != a ==> push_absent(s, a).contains(x) == s.contains(x),
{
    if !s.contains(a) {
        assert(s.push(a)[s.len() as int] == a);
        assert forall|x: Address| x != a implies push_absent(s, a).contains(x) == s.contains(
            x,
        ) by {
            if s.contains(a) {
            } else {
                let t = s.push(a);
                if t.contains(x) {
                    let i = choose|i: int| 0 <= i < t.len() && t[i] == x;
                    assert(s[i] == x);
                }
                if s.contains(x) {
                    let i = choose|i: int| 0 <= i < s.len() && s[i] == x;
                    assert(t[i] == x);
                }
            }
        }
    }
}

/// Removing an address by swap keeps duplicate-freedom and removes exactly
/// that address from the membership.
pub proof fn lemma_remove_addr_no_duplicates(s: Seq<Address>, a: Address)
    requires
        s.no_duplicates(),
    ensures
        remove_addr(s, a).no_duplicates(),
        !remove_addr(s, a).contains(a),
        forall|x: Address| x != a ==> remove_addr(s, a).contains(x) == s.contains(x),
{
    s.index_of_first_ensures(a);
    match s.index_of_first(a) {
        Some(i) => {
            let t = s.update(i, s.last()).drop_last();
            assert forall|j: int, k: int| 0 <= j < k < t.len() implies t[j] != t[k] by {
                assert(t[j] == if j == i {
                    s.last()
                } else {
                    s[j]
                });
                assert(t[k] == if k == i {
                    s.last()
                } else {
                    s[k]
                });
            }
            assert forall|j: int| 0 <= j < t.len() implies t[j] != a by {
                assert(t[j] == if j == i {
                    s.last()
                } else {
                    s[j]
                });
            }
            assert forall|x: Address| x != a implies t.contains(x) == s.contains(x) by {
                if t.contains(x) {
                    let j = choose|j: int| 0 <= j < t.len() && t[j] == x;
                    if j == i {
                        assert(s.last() == x);
                        assert(s.contains(x));
                    } else {
                        assert(s[j] == x);
                    }
                }
                if s.contains(x) {
                    let j = choose|j: int| 0 <= j < s.len() && s[j] == x;
                    if j == i {
                    } else if j == s.len() - 1 {
                        if i < s.len() - 1 {
                            assert(t[i] == x);
                        }
                    } else {
                        assert(t[j] == x);
                    }
                }
            }
        },
        None => {},
    }
}

/// Pushing the same address twice is the same as pushing it once, and on a
/// duplicate-free worklist the address then occurs exactly once.
pub proof fn lemma_push_absent_idempotent(s: Seq<Address>, a: Address)
    requires
        s.no_duplicates(),
    ensures
        push_absent(push_absent(s, a), a) == push_absent(s, a),
        push_absent(s, a).to_multiset().count(a) == 1,
{
    lemma_push_absent(s, a);
    let t = push_absent(s, a);
    t.lemma_multiset_has_no_duplicates();
    t.to_multiset_ensures();
    assert(t.to_multiset().contains(a) == t.contains(a));
}

} // verus!
