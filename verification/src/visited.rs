use vstd::prelude::*;
use std::collections::hash_map::RandomState;

verus! {

#[verifier::external_type_specification]
#[verifier::external_body]
#[verifier::reject_recursive_types(K)]
#[verifier::reject_recursive_types(S)]
pub struct ExDashSet<K, S>(dashmap::DashSet<K, S>);

/// The set of identity keys a `dashmap::DashSet` currently holds.
pub uninterp spec fn dash_set_contents(s: dashmap::DashSet<Vec<u8>, RandomState>) -> Set<Seq<u8>>;

/// Relies on dashmap::DashSet::new: creates an empty set.
#[verifier::external_body]
fn dash_new() -> (s: dashmap::DashSet<Vec<u8>, RandomState>)
    ensures
        dash_set_contents(s) == Set::<Seq<u8>>::empty(),
{
    dashmap::DashSet::new()
}

/// Relies on dashmap::DashSet::insert: inserts the key and returns true
/// iff the key was not already in the set.
#[verifier::external_body]
fn dash_insert(s: &mut dashmap::DashSet<Vec<u8>, RandomState>, k: Vec<u8>) -> (r: bool)
    ensures
        r == !dash_set_contents(*old(s)).contains(k@),
        dash_set_contents(*final(s)) == dash_set_contents(*old(s)).insert(k@),
{
    s.insert(k)
}

/// Relies on dashmap::DashSet::remove: removes the key, returning it if it
/// was present.
#[verifier::external_body]
fn dash_remove(s: &mut dashmap::DashSet<Vec<u8>, RandomState>, k: &Vec<u8>) -> (r: bool)
    ensures
        r == dash_set_contents(*old(s)).contains(k@),
        dash_set_contents(*final(s)) == dash_set_contents(*old(s)).remove(k@),
{
    s.remove(k).is_some()
}

/// Relies on dashmap::DashSet::contains: membership test.
#[verifier::external_body]
fn dash_contains(s: &dashmap::DashSet<Vec<u8>, RandomState>, k: &Vec<u8>) -> (r: bool)
    ensures
        r == dash_set_contents(*s).contains(k@),
{
    s.contains(k)
}

/// The process-wide admission gate: a set of identity keys. A key is inserted
/// optimistically before any work on its URL starts, and removed again only
/// when that work fails, so the URL stays eligible for a later attempt.
pub struct VisitedSet {
    cells: dashmap::DashSet<Vec<u8>, RandomState>,
}

impl VisitedSet {
    /// The identities currently claimed or done.
    pub closed spec fn members(&self) -> Set<Seq<u8>> {
        dash_set_contents(self.cells)
    }

    /// An empty visited set, owned by the driver and handed to every task.
    pub fn new() -> (s: VisitedSet)
        ensures
            s.members() == Set::<Seq<u8>>::empty(),
    {
        VisitedSet { cells: dash_new() }
    }

    /// Atomic check-and-insert: returns true and records membership iff the
    /// identity was absent. This is the admission gate for starting work on a
    /// URL: of two racing claimants, at most one can see the identity absent.
    pub fn try_acquire(&mut self, identity: Vec<u8>) -> (granted: bool)
        ensures
            granted == !old(self).members().contains(identity@),
            final(self).members() == old(self).members().insert(identity@),
    {
        dash_insert(&mut self.cells, identity)
    }

    /// Unconditionally removes membership; used only on failure, so the
    /// identity becomes claimable again on a future attempt.
    pub fn release(&mut self, identity: &Vec<u8>)
        ensures
            final(self).members() == old(self).members().remove(identity@),
            !final(self).members().contains(identity@),
    {
        let _present = dash_remove(&mut self.cells, identity);
    }

    /// Membership test.
    pub fn contains(&self, identity: &Vec<u8>) -> (r: bool)
        ensures
            r == self.members().contains(identity@),
    {
        dash_contains(&self.cells, identity)
    }
}

/// A granted claim is exclusive: once `try_acquire` has granted identity `k`,
/// `k` is a member, so any further `try_acquire(k)` is refused — until a
/// matching `release(k)` makes `k` absent and claimable again.
pub proof fn lemma_claim_exclusive_until_release(before: Set<Seq<u8>>, k: Seq<u8>)
    ensures
        before.insert(k).contains(k),
        !before.insert(k).remove(k).contains(k),
{
}

} // verus!
