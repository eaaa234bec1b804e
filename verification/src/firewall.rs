use vstd::prelude::*;

use crate::addr::Address;
use crate::worklist::{push_absent, AddressSet};

verus! {

/// A failed call of the firewall authority, carrying the address it was
/// about. Such a failure is per-address data: batch operations continue
/// past it and never abort.
#[derive(Clone, Copy, PartialEq, Eq, Structural, Debug)]
pub enum Error {
    UnsuccessfulBlockCheck(Address),
    UnsuccessfulBan(Address),
    UnsuccessfulUnban(Address),
}

/// The capability this crate needs from a firewall: query, block and
/// unblock one address. All three must be idempotent; blocking an already
/// blocked address succeeds silently.
///
/// What a real firewall answers depends on the machine, so no contract
/// promises an outcome. What the contracts do fix is which addresses the
/// authority was asked to act on: every implementation keeps ghost logs
/// of the ban and unban requests it received, in order, and each call
/// appends exactly its address to the matching log.
pub trait FirewallRequirements {
    /// The addresses this authority has been asked to block, in order.
    spec fn ban_log(&self) -> Seq<Address>;

    /// The addresses this authority has been asked to unblock, in order.
    spec fn unban_log(&self) -> Seq<Address>;

    /// Checks whether `ip` is currently blocked; mutates nothing.
    fn is_blocked(&mut self, ip: Address) -> (r: Result<bool, Error>)
        ensures
            final(self).ban_log() == old(self).ban_log(),
            final(self).unban_log() == old(self).unban_log(),
    ;

    /// Blocks `ip`.
    fn ban_ip(&mut self, ip: Address) -> (r: Result<(), Error>)
        ensures
            final(self).ban_log() == old(self).ban_log().push(ip),
            final(self).unban_log() == old(self).unban_log(),
    ;

    /// Unblocks `ip` if it was blocked.
    fn unban_ip(&mut self, ip: Address) -> (r: Result<(), Error>)
        ensures
            final(self).unban_log() == old(self).unban_log().push(ip),
            final(self).ban_log() == old(self).ban_log(),
    ;
}

/// An in-memory firewall authority: a duplicate-free set of blocked
/// addresses. Every call succeeds; the view is the blocked set.
pub struct MemoryFirewall {
    banned: AddressSet,
    ban_calls: Ghost<Seq<Address>>,
    unban_calls: Ghost<Seq<Address>>,
}

impl View for MemoryFirewall {
    type V = Seq<Address>;

    closed spec fn view(&self) -> Seq<Address> {
        self.banned@
    }
}

impl MemoryFirewall {
    pub open spec fn wf(&self) -> bool {
        self@.no_duplicates()
    }

    pub fn new() -> (r: MemoryFirewall)
        ensures
            r@ == Seq::<Address>::empty(),
            r.wf(),
            r.ban_log() == Seq::<Address>::empty(),
            r.unban_log() == Seq::<Address>::empty(),
    {
        MemoryFirewall {
            banned: AddressSet::new(),
            ban_calls: Ghost(Seq::empty()),
            unban_calls: Ghost(Seq::empty()),
        }
    }

    pub fn blocked_count(&self) -> (r: usize)
        ensures
            r == self@.len(),
    {
        self.banned.len()
    }
}

impl FirewallRequirements for MemoryFirewall {
    closed spec fn ban_log(&self) -> Seq<Address> {
        self.ban_calls@
    }

    closed spec fn unban_log(&self) -> Seq<Address> {
        self.unban_calls@
    }

    fn is_blocked(&mut self, ip: Address) -> (r: Result<bool, Error>)
        ensures
            final(self)@ == old(self)@,
            r == Result::<bool, Error>::Ok(old(self)@.contains(ip)),
    {
        Ok(self.banned.contains(ip))
    }

    fn ban_ip(&mut self, ip: Address) -> (r: Result<(), Error>)
        ensures
            final(self)@ == push_absent(old(self)@, ip),
            old(self).wf() ==> final(self).wf(),
            r is Ok,
    {
        self.ban_calls = Ghost(self.ban_calls@.push(ip));
        self.banned.push_if_absent(ip);
        Ok(())
    }

    fn unban_ip(&mut self, ip: Address) -> (r: Result<(), Error>)
        ensures
            old(self).wf() ==> final(self).wf(),
            old(self).wf() ==> !final(self)@.contains(ip),
            old(self).wf() ==> forall|x: Address|
                x != ip ==> final(self)@.contains(x) == old(self)@.contains(x),
            r is Ok,
    {
        self.unban_calls = Ghost(self.unban_calls@.push(ip));
        self.banned.remove(ip);
        Ok(())
    }
}

#[verifier::external_type_specification]
#[verifier::external_body]
pub struct ExIPTables(iptables::IPTables);

/// The system firewall authority, backed by the `iptables` command: an
/// address is blocked while a drop rule for it stands in the filter
/// table's INPUT chain.
pub struct Firewall {
    ipt: iptables::IPTables,
    ban_calls: Ghost<Seq<Address>>,
    unban_calls: Ghost<Seq<Address>>,
}

impl Firewall {
    /// Relies on iptables::new: it locates the system `iptables` command
    /// and probes its version; nothing holds of the outcome here.
    #[verifier::external_body]
    fn new_handle() -> (r: Option<iptables::IPTables>) {
        iptables::new(false).ok()
    }

    pub fn new() -> (r: Option<Firewall>)
        ensures
            r matches Some(f) ==> f.ban_log() == Seq::<Address>::empty() && f.unban_log()
                == Seq::<Address>::empty(),
    {
        match Self::new_handle() {
            Option::Some(ipt) => Option::Some(
                Firewall { ipt, ban_calls: Ghost(Seq::empty()), unban_calls: Ghost(Seq::empty()) },
            ),
            Option::None => Option::None,
        }
    }

    /// Relies on iptables::IPTables::exists: it checks the drop rule for
    /// `ip` in filter/INPUT. The answer depends on the machine's firewall
    /// state, so only the error's shape is stated.
    #[verifier::external_body]
    fn exists_drop_rule(&self, ip: Address) -> (r: Result<bool, Error>)
        ensures
            r matches Err(e) ==> e == Error::UnsuccessfulBlockCheck(ip),
    {
        let rule = format!("-s {}.{}.{}.{} -j DROP", ip.o0, ip.o1, ip.o2, ip.o3);
        self.ipt.exists("filter", "INPUT", &rule).map_err(|_| Error::UnsuccessfulBlockCheck(ip))
    }

    /// Relies on iptables::IPTables::append_replace: it appends the drop
    /// rule for `ip` to filter/INPUT, replacing an existing copy, so a
    /// repeated ban succeeds silently.
    #[verifier::external_body]
    fn append_drop_rule(&self, ip: Address) -> (r: Result<(), Error>)
        ensures
            r matches Err(e) ==> e == Error::UnsuccessfulBan(ip),
    {
        let rule = format!("-s {}.{}.{}.{} -j DROP", ip.o0, ip.o1, ip.o2, ip.o3);
        self.ipt.append_replace("filter", "INPUT", &rule).map_err(|_| Error::UnsuccessfulBan(ip))
    }

    /// Relies on iptables::IPTables::delete_all: it deletes every copy of
    /// the drop rule for `ip` from filter/INPUT, succeeding silently when
    /// none stands.
    #[verifier::external_body]
    fn delete_drop_rule(&self, ip: Address) -> (r: Result<(), Error>)
        ensures
            r matches Err(e) ==> e == Error::UnsuccessfulUnban(ip),
    {
        let rule = format!("-s {}.{}.{}.{} -j DROP", ip.o0, ip.o1, ip.o2, ip.o3);
        self.ipt.delete_all("filter", "INPUT", &rule).map_err(|_| Error::UnsuccessfulUnban(ip))
    }
}

impl FirewallRequirements for Firewall {
    closed spec fn ban_log(&self) -> Seq<Address> {
        self.ban_calls@
    }

    closed spec fn unban_log(&self) -> Seq<Address> {
        self.unban_calls@
    }

    fn is_blocked(&mut self, ip: Address) -> (r: Result<bool, Error>)
        ensures
            r matches Err(e) ==> e == Error::UnsuccessfulBlockCheck(ip),
    {
        self.exists_drop_rule(ip)
    }

    fn ban_ip(&mut self, ip: Address) -> (r: Result<(), Error>)
        ensures
            r matches Err(e) ==> e == Error::UnsuccessfulBan(ip),
    {
        self.ban_calls = Ghost(self.ban_calls@.push(ip));
        self.append_drop_rule(ip)
    }

    fn unban_ip(&mut self, ip: Address) -> (r: Result<(), Error>)
        ensures
            r matches Err(e) ==> e == Error::UnsuccessfulUnban(ip),
    {
        self.unban_calls = Ghost(self.unban_calls@.push(ip));
        self.delete_drop_rule(ip)
    }
}

} // verus!
