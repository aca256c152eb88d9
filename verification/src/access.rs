//! Access sets: the storage keys that a transaction reads and writes, as
//! predicted before it runs or as observed while it ran.

use vstd::prelude::*;
use crate::bytes::{contains_key, key_set};

verus! {

/// The keys a transaction reads and the keys it writes.
#[derive(Clone, Debug, PartialEq, Eq)]
pub struct AccessSet {
    pub reads: Vec<Vec<u8>>,
    pub writes: Vec<Vec<u8>>,
}

/// The model of an [`AccessSet`]: two sets of keys.
pub struct AccessView {
    pub reads: Set<Seq<u8>>,
    pub writes: Set<Seq<u8>>,
}

impl View for AccessSet {
    type V = AccessView;

    open spec fn view(&self) -> AccessView {
        AccessView { reads: key_set(self.reads@), writes: key_set(self.writes@) }
    }
}

/// The models of a list of access sets.
pub open spec fn access_views(sets: Seq<AccessSet>) -> Seq<AccessView> {
    sets.map_values(|s: AccessSet| s@)
}

/// Whether two sets of keys have a key in common.
pub open spec fn overlap(a: Set<Seq<u8>>, b: Set<Seq<u8>>) -> bool {
    exists|key: Seq<u8>| #[trigger] a.contains(key) && b.contains(key)
}

/// Two transactions conflict when one writes a key that the other reads or
/// writes.
pub open spec fn conflicts(a: AccessView, b: AccessView) -> bool {
    overlap(a.reads, b.writes) || overlap(a.writes, b.reads) || overlap(a.writes, b.writes)
}

/// Whether `inner` stays within `outer`: it reads nothing and writes nothing
/// that `outer` does not.
pub open spec fn within(inner: AccessView, outer: AccessView) -> bool {
    inner.reads.subset_of(outer.reads) && inner.writes.subset_of(outer.writes)
}

/// The conflict relation does not depend on the order of its arguments.
pub proof fn lemma_conflicts_symmetric(a: AccessView, b: AccessView)
    ensures
        conflicts(a, b) == conflicts(b, a),
{
    assert(overlap(a.reads, b.writes) == overlap(b.writes, a.reads)) by {
        if overlap(a.reads, b.writes) {
            let key = choose|key: Seq<u8>| #[trigger] a.reads.contains(key) && b.writes.contains(key);
            assert(b.writes.contains(key) && a.reads.contains(key));
        }
        if overlap(b.writes, a.reads) {
            let key = choose|key: Seq<u8>| #[trigger] b.writes.contains(key) && a.reads.contains(key);
            assert(a.reads.contains(key) && b.writes.contains(key));
        }
    }
    assert(overlap(a.writes, b.reads) == overlap(b.reads, a.writes)) by {
        if overlap(a.writes, b.reads) {
            let key = choose|key: Seq<u8>| #[trigger] a.writes.contains(key) && b.reads.contains(key);
            assert(b.reads.contains(key) && a.writes.contains(key));
        }
        if overlap(b.reads, a.writes) {
            let key = choose|key: Seq<u8>| #[trigger] b.reads.contains(key) && a.writes.contains(key);
            assert(a.writes.contains(key) && b.reads.contains(key));
        }
    }
    assert(overlap(a.writes, b.writes) == overlap(b.writes, a.writes)) by {
        if overlap(a.writes, b.writes) {
            let key = choose|key: Seq<u8>| #[trigger] a.writes.contains(key) && b.writes.contains(key);
            assert(b.writes.contains(key) && a.writes.contains(key));
        }
        if overlap(b.writes, a.writes) {
            let key = choose|key: Seq<u8>| #[trigger] b.writes.contains(key) && a.writes.contains(key);
            assert(a.writes.contains(key) && b.writes.contains(key));
        }
    }
}

/// Whether two lists of keys have a key in common.
pub fn intersects(xs: &Vec<Vec<u8>>, ys: &Vec<Vec<u8>>) -> (common: bool)
    ensures
        common <==> overlap(key_set(xs@), key_set(ys@)),
{
    let mut i: usize = 0;
    while i < xs.len()
        invariant
            i <= xs.len(),
            forall|j: int| 0 <= j < i ==> !key_set(ys@).contains(#[trigger] xs@[j]@),
        decreases xs.len() - i,
    {
        if contains_key(ys, xs[i].as_slice()) {
            assert(key_set(xs@).contains(xs@[i as int]@));
            return true;
        }
        i += 1;
    }
    assert forall|key: Seq<u8>| #[trigger] key_set(xs@).contains(key) implies !key_set(ys@).contains(key) by {
        let j = choose|j: int| 0 <= j < xs@.len() && #[trigger] xs@[j]@ == key;
        assert(!key_set(ys@).contains(xs@[j]@));
    }
    false
}

/// Whether every key of `xs` is a key of `ys`.
pub fn all_within(xs: &Vec<Vec<u8>>, ys: &Vec<Vec<u8>>) -> (inside: bool)
    ensures
        inside <==> key_set(xs@).subset_of(key_set(ys@)),
{
    let mut i: usize = 0;
    while i < xs.len()
        invariant
            i <= xs.len(),
            forall|j: int| 0 <= j < i ==> key_set(ys@).contains(#[trigger] xs@[j]@),
        decreases xs.len() - i,
    {
        if !contains_key(ys, xs[i].as_slice()) {
            assert(key_set(xs@).contains(xs@[i as int]@));
            return false;
        }
        i += 1;
    }
    assert forall|key: Seq<u8>| #[trigger] key_set(xs@).contains(key) implies key_set(ys@).contains(key) by {
        let j = choose|j: int| 0 <= j < xs@.len() && #[trigger] xs@[j]@ == key;
        assert(key_set(ys@).contains(xs@[j]@));
    }
    true
}

impl AccessSet {
    /// The access set with these reads and these writes.
    pub fn new(reads: Vec<Vec<u8>>, writes: Vec<Vec<u8>>) -> (set: AccessSet)
        ensures
            set.reads == reads,
            set.writes == writes,
    {
        AccessSet { reads, writes }
    }

    /// The conflict test of the scheduler.
    pub fn conflicts_with(&self, other: &AccessSet) -> (conflict: bool)
        ensures
            conflict <==> conflicts(self@, other@),
    {
        intersects(&self.reads, &other.writes) || intersects(&self.writes, &other.reads)
            || intersects(&self.writes, &other.writes)
    }

    /// Whether `actual` reads and writes only keys that this set predicts.
    pub fn covers(&self, actual: &AccessSet) -> (covered: bool)
        ensures
            covered <==> within(actual@, self@),
    {
        all_within(&actual.reads, &self.reads) && all_within(&actual.writes, &self.writes)
    }
}

} // verus!
