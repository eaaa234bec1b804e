use vstd::prelude::*;
use vstd::seq_lib::lemma_multiset_commutative;
use vstd::string::*;

use crate::addr::Address;
use crate::firewall::{self, FirewallRequirements};

verus! {

/// The aggregate block state of one server group.
///
/// `Unknown` is the initial state before the first classification report
/// arrives; it is never equivalent to `NoneDisabled`: a group still in
/// `Unknown` must not have its addresses probed yet.
#[derive(Debug, Clone, Eq)]
pub enum ServerState {
    /// Every address of the group is blocked.
    AllDisabled,
    /// Some addresses of the group are blocked; exactly those are carried.
    SomeDisabled(Vec<Address>),
    /// No address of the group is blocked.
    NoneDisabled,
    /// No classification has arrived yet.
    Unknown,
}

/// Spec-level shape of a `ServerState`, with a sequence payload.
pub enum ServerStateView {
    AllDisabled,
    SomeDisabled(Seq<Address>),
    NoneDisabled,
    Unknown,
}

impl View for ServerState {
    type V = ServerStateView;

    open spec fn view(&self) -> ServerStateView {
        match self {
            ServerState::AllDisabled => ServerStateView::AllDisabled,
            ServerState::SomeDisabled(ips) => ServerStateView::SomeDisabled(ips@),
            ServerState::NoneDisabled => ServerStateView::NoneDisabled,
            ServerState::Unknown => ServerStateView::Unknown,
        }
    }
}

/// Whether `v` holds `a`.
pub fn addr_vec_contains(v: &Vec<Address>, a: Address) -> (r: bool)
    ensures
        r == v@.contains(a),
{
    let n = v.len();
    let mut i: usize = 0;
    while i < n
        invariant
            i <= n,
            n == v@.len(),
            forall|j: int| 0 <= j < i ==> v@[j] != a,
        decreases n - i,
    {
        if v[i] == a {
            return true;
        }
        i += 1;
    }
    false
}

/// Element-wise equality of two address vectors.
pub fn addr_vec_eq(a: &Vec<Address>, b: &Vec<Address>) -> (r: bool)
    ensures
        r == (a@ == b@),
{
    let n = a.len();
    if n != b.len() {
        return false;
    }
    let mut i: usize = 0;
    while i < n
        invariant
            i <= n,
            n == a@.len(),
            n == b@.len(),
            forall|j: int| 0 <= j < i ==> a@[j] == b@[j],
        decreases n - i,
    {
        if a[i] != b[i] {
            return false;
        }
        i += 1;
    }
    proof {
        assert(a@ =~= b@);
    }
    true
}

impl PartialEq for ServerState {
    fn eq(&self, other: &ServerState) -> (r: bool) {
        match (self, other) {
            (ServerState::AllDisabled, ServerState::AllDisabled) => true,
            (ServerState::NoneDisabled, ServerState::NoneDisabled) => true,
            (ServerState::Unknown, ServerState::Unknown) => true,
            (ServerState::SomeDisabled(a), ServerState::SomeDisabled(b)) => addr_vec_eq(a, b),
            _ => false,
        }
    }
}

impl vstd::std_specs::cmp::PartialEqSpecImpl for ServerState {
    open spec fn obeys_eq_spec() -> bool {
        true
    }

    open spec fn eq_spec(&self, other: &ServerState) -> bool {
        self@ == other@
    }
}

/// Total lexicographic order on names, by character code.
pub open spec fn chars_le(a: Seq<char>, b: Seq<char>) -> bool
    decreases a.len(),
{
    if a.len() == 0 {
        true
    } else if b.len() == 0 {
        false
    } else if (a[0] as u32) < (b[0] as u32) {
        true
    } else if (a[0] as u32) > (b[0] as u32) {
        false
    } else {
        chars_le(a.drop_first(), b.drop_first())
    }
}

proof fn lemma_chars_le_skip(a: Seq<char>, b: Seq<char>, i: int)
    requires
        0 <= i <= a.len(),
        i <= b.len(),
        forall|j: int| 0 <= j < i ==> a[j] == b[j],
    ensures
        chars_le(a, b) == chars_le(a.skip(i), b.skip(i)),
    decreases i,
{
    if i > 0 {
        assert(a.len() > 0 && b.len() > 0);
        assert(a[0] == b[0]);
        lemma_chars_le_skip(a.drop_first(), b.drop_first(), i - 1);
        assert(a.drop_first().skip(i - 1) =~= a.skip(i));
        assert(b.drop_first().skip(i - 1) =~= b.skip(i));
    } else {
        assert(a.skip(0) =~= a);
        assert(b.skip(0) =~= b);
    }
}

/// Whether name `a` sorts at or before name `b`.
pub fn name_le(a: &str, b: &str) -> (r: bool)
    ensures
        r == chars_le(a@, b@),
{
    let an = a.unicode_len();
    let bn = b.unicode_len();
    let mut i: usize = 0;
    loop
        invariant
            i <= an,
            i <= bn,
            an == a@.len(),
            bn == b@.len(),
            forall|j: int| 0 <= j < i ==> a@[j] == b@[j],
        decreases an - i,
    {
        proof {
            lemma_chars_le_skip(a@, b@, i as int);
        }
        if i >= an {
            proof {
                assert(a@.skip(i as int).len() == 0);
            }
            return true;
        }
        if i >= bn {
            proof {
                assert(b@.skip(i as int).len() == 0);
                assert(a@.skip(i as int).len() > 0);
            }
            return false;
        }
        let ca = a.get_char(i);
        let cb = b.get_char(i);
        proof {
            assert(a@.skip(i as int)[0] == a@[i as int]);
            assert(b@.skip(i as int)[0] == b@[i as int]);
        }
        if (ca as u32) < (cb as u32) {
            return true;
        }
        if (ca as u32) > (cb as u32) {
            return false;
        }
        i += 1;
    }
}

/// Whether two names are the same string.
pub fn str_eq(a: &str, b: &str) -> (r: bool)
    ensures
        r == (a@ == b@),
{
    let an = a.unicode_len();
    let bn = b.unicode_len();
    if an != bn {
        proof {
            assert(a@.len() != b@.len());
        }
        return false;
    }
    let mut i: usize = 0;
    while i < an
        invariant
            i <= an,
            an == a@.len(),
            an == b@.len(),
            forall|j: int| 0 <= j < i ==> a@[j] == b@[j],
        decreases an - i,
    {
        let ca = a.get_char(i);
        let cb = b.get_char(i);
        if ca != cb {
            return false;
        }
        i += 1;
    }
    proof {
        assert(a@ =~= b@);
    }
    true
}

/// One named server group of the catalog.
pub struct ServerInfo {
    /// Short unique name of the group.
    abr: String,
    /// Optional human-readable description.
    desc: Option<String>,
    /// The group's addresses, fixed at catalog build time.
    ipv4s: Vec<Address>,
}

/// Spec-level shape of a `ServerInfo`.
pub struct ServerInfoView {
    pub abr: Seq<char>,
    pub desc: Option<Seq<char>>,
    pub ipv4s: Seq<Address>,
}

impl View for ServerInfo {
    type V = ServerInfoView;

    closed spec fn view(&self) -> ServerInfoView {
        ServerInfoView {
            abr: self.abr@,
            desc: match self.desc {
                Option::Some(d) => Option::Some(d@),
                Option::None => Option::None,
            },
            ipv4s: self.ipv4s@,
        }
    }
}

/// The views of a catalog vector.
pub open spec fn infos_view(s: Seq<ServerInfo>) -> Seq<ServerInfoView> {
    s.map_values(|x: ServerInfo| x@)
}

impl ServerInfo {
    pub fn new(abr: String, desc: Option<String>, ipv4s: Vec<Address>) -> (r: ServerInfo)
        ensures
            r@.abr == abr@,
            r@.desc == (match desc {
                Option::Some(d) => Option::Some(d@),
                Option::None => Option::<Seq<char>>::None,
            }),
            r@.ipv4s == ipv4s@,
    {
        ServerInfo { abr, desc, ipv4s }
    }

    /// Get the group's addresses.
    pub fn get_ipv4s(&self) -> (r: &Vec<Address>)
        ensures
            r@ == self@.ipv4s,
    {
        &self.ipv4s
    }

    /// The group's addresses as a fresh vector.
    pub fn ipv4s_vec(&self) -> (r: Vec<Address>)
        ensures
            r@ == self@.ipv4s,
    {
        let n = self.ipv4s.len();
        let mut out: Vec<Address> = Vec::new();
        let mut i: usize = 0;
        while i < n
            invariant
                i <= n,
                n == self@.ipv4s.len(),
                self@.ipv4s == self.ipv4s@,
                out@ == self@.ipv4s.take(i as int),
            decreases n - i,
        {
            out.push(self.ipv4s[i]);
            proof {
                assert(out@ =~= self@.ipv4s.take(i + 1));
            }
            i += 1;
        }
        proof {
            assert(self@.ipv4s.take(n as int) =~= self@.ipv4s);
        }
        out
    }

    /// The group's name as a fresh string.
    pub fn abr_string(&self) -> (r: String)
        ensures
            r@ == self@.abr,
    {
        self.abr.clone()
    }

    /// Get the group's name.
    pub fn get_abr(&self) -> (r: &str)
        ensures
            r@ == self@.abr,
    {
        self.abr.as_str()
    }

    /// Get the group's description, if it has one.
    pub fn desc(&self) -> (r: Option<&str>)
        ensures
            r is Some <==> self@.desc is Some,
            r matches Some(d) ==> Some(d@) == self@.desc,
    {
        match &self.desc {
            Option::Some(d) => Option::Some(d.as_str()),
            Option::None => Option::None,
        }
    }

    /// Block every address of this group. Per-address failures do not
    /// abort the batch: a ban is requested for every address, in order,
    /// and the first failure, if any, is reported afterwards.
    pub fn ban<F: FirewallRequirements>(&self, firewall: &mut F) -> (r: Result<
        (),
        crate::firewall::Error,
    >)
        ensures
            final(firewall).ban_log() == old(firewall).ban_log() + self@.ipv4s,
            final(firewall).unban_log() == old(firewall).unban_log(),
            self@.ipv4s.len() == 0 ==> r is Ok,
    {
        let mut first_err: Option<firewall::Error> = None;
        let n = self.ipv4s.len();
        let mut i: usize = 0;
        while i < n
            invariant
                i <= n,
                n == self@.ipv4s.len(),
                self@.ipv4s == self.ipv4s@,
                firewall.ban_log() == old(firewall).ban_log() + self@.ipv4s.take(i as int),
                firewall.unban_log() == old(firewall).unban_log(),
                i == 0 ==> first_err is None,
            decreases n - i,
        {
            if let Err(e) = firewall.ban_ip(self.ipv4s[i]) {
                if first_err.is_none() {
                    first_err = Some(e);
                }
            }
            proof {
                assert(firewall.ban_log() =~= old(firewall).ban_log() + self@.ipv4s.take(
                    i + 1,
                ));
            }
            i += 1;
        }
        proof {
            assert(self@.ipv4s.take(n as int) =~= self@.ipv4s);
        }
        match first_err {
            Option::Some(e) => Err(e),
            Option::None => Ok(()),
        }
    }

    /// Unblock every address of this group; same batch semantics as
    /// `ban`: an unban is requested for every address, in order.
    pub fn unban<F: FirewallRequirements>(&self, firewall: &mut F) -> (r: Result<
        (),
        crate::firewall::Error,
    >)
        ensures
            final(firewall).unban_log() == old(firewall).unban_log() + self@.ipv4s,
            final(firewall).ban_log() == old(firewall).ban_log(),
            self@.ipv4s.len() == 0 ==> r is Ok,
    {
        let mut first_err: Option<firewall::Error> = None;
        let n = self.ipv4s.len();
        let mut i: usize = 0;
        while i < n
            invariant
                i <= n,
                n == self@.ipv4s.len(),
                self@.ipv4s == self.ipv4s@,
                firewall.unban_log() == old(firewall).unban_log() + self@.ipv4s.take(i as int),
                firewall.ban_log() == old(firewall).ban_log(),
                i == 0 ==> first_err is None,
            decreases n - i,
        {
            if let Err(e) = firewall.unban_ip(self.ipv4s[i]) {
                if first_err.is_none() {
                    first_err = Some(e);
                }
            }
            proof {
                assert(firewall.unban_log() =~= old(firewall).unban_log() + self@.ipv4s.take(
                    i + 1,
                ));
            }
            i += 1;
        }
        proof {
            assert(self@.ipv4s.take(n as int) =~= self@.ipv4s);
        }
        match first_err {
            Option::Some(e) => Err(e),
            Option::None => Ok(()),
        }
    }
}

/// The view of one parsed catalog entry: name, optional description,
/// and the group's addresses.
pub open spec fn entry_view(e: (String, Option<String>, Vec<Address>)) -> ServerInfoView {
    ServerInfoView {
        abr: e.0@,
        desc: match e.1 {
            Option::Some(d) => Option::Some(d@),
            Option::None => Option::None,
        },
        ipv4s: e.2@,
    }
}

/// The views of a whole parsed entry list.
pub open spec fn entries_view(s: Seq<(String, Option<String>, Vec<Address>)>) -> Seq<
    ServerInfoView,
> {
    s.map_values(|e: (String, Option<String>, Vec<Address>)| entry_view(e))
}

/// `x` placed before the first element whose name sorts at or after it.
pub open spec fn spec_insert_sorted(s: Seq<ServerInfoView>, x: ServerInfoView) -> Seq<
    ServerInfoView,
>
    decreases s.len(),
{
    if s.len() == 0 {
        seq![x]
    } else if chars_le(x.abr, s[0].abr) {
        seq![x] + s
    } else {
        seq![s[0]] + spec_insert_sorted(s.drop_first(), x)
    }
}

/// Insertion sort by group name, in input order.
pub open spec fn spec_sort_by_name(s: Seq<ServerInfoView>) -> Seq<ServerInfoView>
    decreases s.len(),
{
    if s.len() == 0 {
        Seq::<ServerInfoView>::empty()
    } else {
        spec_insert_sorted(spec_sort_by_name(s.drop_last()), s.last())
    }
}

proof fn lemma_spec_insert_sorted_at(s: Seq<ServerInfoView>, x: ServerInfoView, pos: int)
    requires
        0 <= pos <= s.len(),
        forall|j: int| 0 <= j < pos ==> !chars_le(x.abr, s[j].abr),
        pos < s.len() ==> chars_le(x.abr, s[pos].abr),
    ensures
        spec_insert_sorted(s, x) =~= s.insert(pos, x),
    decreases s.len(),
{
    if s.len() == 0 {
    } else if pos == 0 {
        assert(seq![x] + s =~= s.insert(0, x));
    } else {
        lemma_spec_insert_sorted_at(s.drop_first(), x, pos - 1);
        assert(seq![s[0]] + s.drop_first().insert(pos - 1, x) =~= s.insert(pos, x));
    }
}

/// The name order is total: of any two names, one sorts at or before the
/// other.
pub proof fn lemma_chars_le_total(a: Seq<char>, b: Seq<char>)
    ensures
        chars_le(a, b) || chars_le(b, a),
    decreases a.len(),
{
    if a.len() > 0 && b.len() > 0 && (a[0] as u32) == (b[0] as u32) {
        lemma_chars_le_total(a.drop_first(), b.drop_first());
    }
}

/// The name order is transitive.
pub proof fn lemma_chars_le_trans(a: Seq<char>, b: Seq<char>, c: Seq<char>)
    requires
        chars_le(a, b),
        chars_le(b, c),
    ensures
        chars_le(a, c),
    decreases a.len(),
{
    if a.len() > 0 {
        if (a[0] as u32) == (b[0] as u32) && (b[0] as u32) == (c[0] as u32) {
            lemma_chars_le_trans(a.drop_first(), b.drop_first(), c.drop_first());
        }
    }
}

/// Whether the catalog sequence is ordered by group name.
pub open spec fn sorted_by_name(s: Seq<ServerInfoView>) -> bool {
    forall|i: int, j: int| 0 <= i < j < s.len() ==> chars_le(
        (#[trigger] s[i]).abr,
        (#[trigger] s[j]).abr,
    )
}

/// Every element of an insertion is the inserted one or one of the old
/// elements, and exactly one element is added.
proof fn lemma_spec_insert_sorted_elems(s: Seq<ServerInfoView>, x: ServerInfoView)
    ensures
        spec_insert_sorted(s, x).len() == s.len() + 1,
        forall|k: int|
            0 <= k < spec_insert_sorted(s, x).len() ==> #[trigger] spec_insert_sorted(s, x)[k]
                == x || s.contains(spec_insert_sorted(s, x)[k]),
    decreases s.len(),
{
    if s.len() == 0 {
    } else if chars_le(x.abr, s[0].abr) {
    } else {
        lemma_spec_insert_sorted_elems(s.drop_first(), x);
        let t = spec_insert_sorted(s, x);
        let rest = spec_insert_sorted(s.drop_first(), x);
        assert forall|k: int| 0 <= k < t.len() implies #[trigger] t[k] == x || s.contains(
            t[k],
        ) by {
            if k == 0 {
                assert(t[0] == s[0]);
            } else {
                assert(t[k] == rest[k - 1]);
                if rest[k - 1] == x {
                } else {
                    let j = choose|j: int|
                        0 <= j < s.drop_first().len() && s.drop_first()[j] == rest[k - 1];
                    assert(s[j + 1] == t[k]);
                }
            }
        }
    }
}

/// Inserting into a name-ordered sequence keeps it ordered.
proof fn lemma_spec_insert_sorted_keeps_order(s: Seq<ServerInfoView>, x: ServerInfoView)
    requires
        sorted_by_name(s),
    ensures
        sorted_by_name(spec_insert_sorted(s, x)),
    decreases s.len(),
{
    if s.len() == 0 {
    } else if chars_le(x.abr, s[0].abr) {
        let t = seq![x] + s;
        assert forall|i: int, j: int| 0 <= i < j < t.len() implies chars_le(
            (#[trigger] t[i]).abr,
            (#[trigger] t[j]).abr,
        ) by {
            if i == 0 {
                assert(t[j] == s[j - 1]);
                if j == 1 {
                } else {
                    lemma_chars_le_trans(x.abr, s[0].abr, s[j - 1].abr);
                }
            } else {
                assert(t[i] == s[i - 1]);
                assert(t[j] == s[j - 1]);
            }
        }
    } else {
        assert(sorted_by_name(s.drop_first())) by {
            assert forall|i: int, j: int|
                0 <= i < j < s.drop_first().len() implies chars_le(
                (#[trigger] s.drop_first()[i]).abr,
                (#[trigger] s.drop_first()[j]).abr,
            ) by {
                assert(s.drop_first()[i] == s[i + 1]);
                assert(s.drop_first()[j] == s[j + 1]);
            }
        }
        lemma_spec_insert_sorted_keeps_order(s.drop_first(), x);
        lemma_spec_insert_sorted_elems(s.drop_first(), x);
        lemma_chars_le_total(x.abr, s[0].abr);
        let rest = spec_insert_sorted(s.drop_first(), x);
        let t = seq![s[0]] + rest;
        assert forall|i: int, j: int| 0 <= i < j < t.len() implies chars_le(
            (#[trigger] t[i]).abr,
            (#[trigger] t[j]).abr,
        ) by {
            if i == 0 {
                assert(t[j] == rest[j - 1]);
                if rest[j - 1] == x {
                    assert(chars_le(s[0].abr, x.abr));
                } else {
                    let k = choose|k: int|
                        0 <= k < s.drop_first().len() && s.drop_first()[k] == rest[j - 1];
                    assert(s[k + 1] == rest[j - 1]);
                    assert(chars_le(s[0].abr, s[k + 1].abr));
                }
            } else {
                assert(t[i] == rest[i - 1]);
                assert(t[j] == rest[j - 1]);
            }
        }
    }
}

/// The catalog order law: the catalog built from any parsed entry list is
/// ordered by group name, so its iteration order is deterministic.
pub proof fn lemma_sort_by_name_sorted(s: Seq<ServerInfoView>)
    ensures
        sorted_by_name(spec_sort_by_name(s)),
    decreases s.len(),
{
    if s.len() > 0 {
        lemma_sort_by_name_sorted(s.drop_last());
        lemma_spec_insert_sorted_keeps_order(spec_sort_by_name(s.drop_last()), s.last());
    }
}

/// An insertion adds exactly the inserted group.
proof fn lemma_spec_insert_sorted_multiset(s: Seq<ServerInfoView>, x: ServerInfoView)
    ensures
        spec_insert_sorted(s, x).to_multiset() =~= s.to_multiset().insert(x),
    decreases s.len(),
{
    broadcast use vstd::multiset::group_multiset_axioms;

    s.to_multiset_ensures();
    if s.len() == 0 {
        assert(seq![x] =~= Seq::<ServerInfoView>::empty().push(x));
        Seq::<ServerInfoView>::empty().to_multiset_ensures();
    } else if chars_le(x.abr, s[0].abr) {
        lemma_multiset_commutative(seq![x], s);
        assert(seq![x] =~= Seq::<ServerInfoView>::empty().push(x));
        Seq::<ServerInfoView>::empty().to_multiset_ensures();
    } else {
        lemma_spec_insert_sorted_multiset(s.drop_first(), x);
        let rest = spec_insert_sorted(s.drop_first(), x);
        lemma_multiset_commutative(seq![s[0]], rest);
        lemma_multiset_commutative(seq![s[0]], s.drop_first());
        assert(seq![s[0]] + s.drop_first() =~= s);
        assert(seq![s[0]] =~= Seq::<ServerInfoView>::empty().push(s[0]));
        Seq::<ServerInfoView>::empty().to_multiset_ensures();
    }
}

/// The catalog content law: sorting keeps exactly the parsed groups, so
/// the catalog is a permutation of the entry list.
pub proof fn lemma_sort_by_name_permutes(s: Seq<ServerInfoView>)
    ensures
        spec_sort_by_name(s).to_multiset() =~= s.to_multiset(),
    decreases s.len(),
{
    broadcast use vstd::multiset::group_multiset_axioms;

    if s.len() == 0 {
        assert(s =~= Seq::<ServerInfoView>::empty());
    } else {
        lemma_sort_by_name_permutes(s.drop_last());
        lemma_spec_insert_sorted_multiset(spec_sort_by_name(s.drop_last()), s.last());
        s.drop_last().to_multiset_ensures();
        assert(s.drop_last().push(s.last()).to_multiset() =~= s.drop_last().to_multiset().insert(
            s.last(),
        ));
        assert(s.drop_last().push(s.last()) =~= s);
        assert(spec_sort_by_name(s).to_multiset() =~= spec_sort_by_name(
            s.drop_last(),
        ).to_multiset().insert(s.last()));
        assert(spec_sort_by_name(s.drop_last()).to_multiset().insert(s.last())
            =~= s.drop_last().to_multiset().insert(s.last()));
    }
}

/// The catalog: every server group of the session, sorted by name.
pub struct Servers {
    servers: Vec<ServerInfo>,
}

impl View for Servers {
    type V = Seq<ServerInfoView>;

    closed spec fn view(&self) -> Seq<ServerInfoView> {
        infos_view(self.servers@)
    }
}

impl Servers {
    /// Build the catalog from the parsed group list: each entry carries a
    /// group name, an optional description, and the group's addresses.
    /// The catalog holds the same groups, sorted by name.
    pub fn from_parsed(entries: Vec<(String, Option<String>, Vec<Address>)>) -> (r: Servers)
        ensures
            r@ == spec_sort_by_name(entries_view(entries@)),
    {
        let ghost entry_views = entries_view(entries@);
        let mut rest = entries;
        let mut servers: Vec<ServerInfo> = Vec::new();
        let ghost i: int = 0;
        while rest.len() > 0
            invariant
                0 <= i <= entry_views.len(),
                entries_view(rest@) == entry_views.skip(i),
                infos_view(servers@) == spec_sort_by_name(entry_views.take(i)),
            decreases rest@.len(),
        {
            let ghost prev_rest = rest@;
            proof {
                assert(prev_rest.len() == entry_views.len() - i) by {
                    assert(entries_view(prev_rest).len() == prev_rest.len());
                }
            }
            let e = rest.remove(0);
            let info = ServerInfo { abr: e.0, desc: e.1, ipv4s: e.2 };
            proof {
                assert(entries_view(prev_rest)[0] == entry_view(prev_rest[0]));
                assert(e == prev_rest[0]);
                assert(info@ == entry_view(e));
                assert(info@ == entry_views.skip(i)[0]);
                assert(entry_views.skip(i)[0] == entry_views[i]);
                assert(entry_views.take(i + 1).drop_last() =~= entry_views.take(i));
                assert(entry_views.take(i + 1).last() == entry_views[i]);
                assert(rest@ =~= prev_rest.drop_first());
                assert(entries_view(rest@) =~= entry_views.skip(i + 1)) by {
                    assert forall|j: int| 0 <= j < rest@.len() implies entries_view(rest@)[j]
                        == entry_views.skip(i + 1)[j] by {
                        assert(entries_view(rest@)[j] == entry_view(prev_rest[j + 1]));
                        assert(entries_view(prev_rest)[j + 1] == entry_view(prev_rest[j + 1]));
                    }
                }
            }
            Self::insert_sorted(&mut servers, info);
            proof {
                i = i + 1;
            }
        }
        proof {
            assert(entries_view(rest@).len() == rest@.len());
            assert(entry_views.take(i) =~= entry_views);
        }
        Servers { servers }
    }

    /// Insert one group before the first whose name sorts at or after it.
    fn insert_sorted(v: &mut Vec<ServerInfo>, x: ServerInfo)
        ensures
            infos_view(final(v)@) == spec_insert_sorted(infos_view(old(v)@), x@),
    {
        let n = v.len();
        let mut pos: usize = 0;
        loop
            invariant_except_break
                pos <= n,
                n == v@.len(),
                v@ == old(v)@,
                forall|j: int| 0 <= j < pos ==> !chars_le(x@.abr, infos_view(v@)[j].abr),
            ensures
                v@ == old(v)@,
                pos <= n,
                n == v@.len(),
                forall|j: int| 0 <= j < pos ==> !chars_le(x@.abr, infos_view(v@)[j].abr),
                pos < n ==> chars_le(x@.abr, infos_view(v@)[pos as int].abr),
            decreases n - pos,
        {
            if pos >= n {
                break;
            }
            if name_le(x.abr.as_str(), v[pos].abr.as_str()) {
                break;
            }
            pos += 1;
        }
        proof {
            lemma_spec_insert_sorted_at(infos_view(v@), x@, pos as int);
        }
        v.insert(pos, x);
        proof {
            assert(infos_view(v@) =~= infos_view(old(v)@).insert(pos as int, x@));
        }
    }

    /// Get the catalog's groups, in name order.
    pub fn get_servers(&self) -> (r: &Vec<ServerInfo>)
        ensures
            infos_view(r@) == self@,
    {
        &self.servers
    }

    pub fn len(&self) -> (r: usize)
        ensures
            r == self@.len(),
    {
        self.servers.len()
    }
}

} // verus!
