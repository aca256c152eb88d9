//! The conflict scheduler: it splits a batch into an ordered sequence of
//! groups whose members do not conflict with one another.

use vstd::prelude::*;
use crate::access::{access_views, conflicts, AccessSet, AccessView};

verus! {

/// The earliest group that transaction `j` can take when only the first
/// `upto` transactions are looked at: the group after the last group that
/// holds one of them in conflict with `j`, or group 0.
pub open spec fn earliest_group(estimates: Seq<AccessView>, j: int, upto: int) -> nat
    decreases j, upto,
{
    if upto <= 0 || upto > j {
        0
    } else {
        let before = earliest_group(estimates, j, upto - 1);
        if conflicts(estimates[upto - 1], estimates[j]) {
            let after = earliest_group(estimates, upto - 1, upto - 1) + 1;
            if after > before {
                after
            } else {
                before
            }
        } else {
            before
        }
    }
}

/// The group of transaction `j`: the first group that comes after every
/// group holding an earlier transaction in conflict with it.
pub open spec fn group_of(estimates: Seq<AccessView>, j: int) -> nat {
    earliest_group(estimates, j, j)
}

/// One group of the schedule: its place in the sequence and its members, by
/// their index in the batch.
#[derive(Clone, Debug, PartialEq, Eq)]
pub struct Group {
    pub index: usize,
    pub members: Vec<usize>,
}

/// Whether `groups` is the schedule of a batch with these estimates: every
/// transaction stands in the group that [`group_of`] names and nowhere else,
/// the members of a group stand in batch order, and no group is empty.
pub open spec fn is_schedule(estimates: Seq<AccessView>, groups: Seq<Group>) -> bool {
    &&& forall|g: int| 0 <= g < groups.len() ==> (#[trigger] groups[g]).index == g && groups[g].members.len() > 0
    &&& forall|g: int, p: int|
        0 <= g < groups.len() && 0 <= p < groups[g].members.len() ==> {
            &&& (#[trigger] groups[g].members[p]) < estimates.len()
            &&& group_of(estimates, groups[g].members[p] as int) == g
        }
    &&& forall|g: int, p: int, q: int|
        0 <= g < groups.len() && 0 <= p < q < groups[g].members.len() ==> (#[trigger] groups[g].members[p])
            < (#[trigger] groups[g].members[q])
    &&& forall|j: int|
        0 <= j < estimates.len() ==> {
            &&& (#[trigger] group_of(estimates, j)) < groups.len()
            &&& is_member(groups[group_of(estimates, j) as int].members@, j)
        }
}

/// Whether one of the first `upto` transactions stands in group `g`.
pub open spec fn group_in_use(estimates: Seq<AccessView>, upto: int, g: int) -> bool {
    exists|j: int| 0 <= j < upto && #[trigger] group_of(estimates, j) == g
}

/// Whether transaction `j` is among `members`.
pub open spec fn is_member(members: Seq<usize>, j: int) -> bool {
    exists|p: int| 0 <= p < members.len() && #[trigger] members[p] == j
}

/// A transaction's group index is at most its own index.
pub proof fn lemma_group_bound(estimates: Seq<AccessView>, j: int, upto: int)
    requires
        0 <= upto <= j,
    ensures
        earliest_group(estimates, j, upto) <= upto,
    decreases j, upto,
{
    if upto > 0 {
        lemma_group_bound(estimates, j, upto - 1);
        lemma_group_bound(estimates, upto - 1, upto - 1);
    }
}

/// A transaction stands in a later group than every earlier transaction it
/// conflicts with.
pub proof fn lemma_group_after_conflict(estimates: Seq<AccessView>, i: int, j: int, upto: int)
    requires
        0 <= i < upto <= j,
        conflicts(estimates[i], estimates[j]),
    ensures
        group_of(estimates, i) < earliest_group(estimates, j, upto),
    decreases upto,
{
    if i < upto - 1 {
        lemma_group_after_conflict(estimates, i, j, upto - 1);
    }
}

/// A transaction that is not in group 0 conflicts with an earlier transaction
/// of the group just before its own.
pub proof fn lemma_group_has_cause(estimates: Seq<AccessView>, j: int, upto: int) -> (i: int)
    requires
        0 <= upto <= j,
        earliest_group(estimates, j, upto) > 0,
    ensures
        0 <= i < upto,
        conflicts(estimates[i], estimates[j]),
        group_of(estimates, i) + 1 == earliest_group(estimates, j, upto),
    decreases upto,
{
    let before = earliest_group(estimates, j, upto - 1);
    if conflicts(estimates[upto - 1], estimates[j]) && group_of(estimates, upto - 1) + 1 > before {
        upto - 1
    } else {
        lemma_group_has_cause(estimates, j, upto - 1)
    }
}

/// The group of each transaction of the batch, in batch order, and the
/// number of groups.
fn assign_groups(estimates: &Vec<AccessSet>) -> (result: (Vec<usize>, usize))
    ensures
        result.0.len() == estimates.len(),
        forall|j: int|
            0 <= j < estimates.len() ==> (#[trigger] result.0[j]) == group_of(access_views(estimates@), j)
                && result.0[j] < result.1,
        forall|g: int| 0 <= g < result.1 ==> #[trigger] group_in_use(access_views(estimates@), estimates.len() as int, g),
{
    let ghost views = access_views(estimates@);
    let mut assigned: Vec<usize> = Vec::new();
    let mut count: usize = 0;
    let mut j: usize = 0;
    while j < estimates.len()
        invariant
            j <= estimates.len(),
            views == access_views(estimates@),
            assigned.len() == j,
            count <= j,
            forall|i: int| 0 <= i < j ==> (#[trigger] assigned[i]) == group_of(views, i) && assigned[i] < count,
            forall|g: int| 0 <= g < count ==> #[trigger] group_in_use(views, j as int, g),
        decreases estimates.len() - j,
    {
        let mut group: usize = 0;
        let mut i: usize = 0;
        while i < j
            invariant
                i <= j < estimates.len(),
                views == access_views(estimates@),
                assigned.len() == j,
                forall|i: int| 0 <= i < j ==> (#[trigger] assigned[i]) == group_of(views, i),
                group == earliest_group(views, j as int, i as int),
                group <= i,
            decreases j - i,
        {
            proof {
                lemma_group_bound(views, i as int, i as int);
                lemma_group_bound(views, j as int, i as int + 1);
            }
            if estimates[i].conflicts_with(&estimates[j]) && assigned[i] + 1 > group {
                group = assigned[i] + 1;
            }
            i += 1;
        }
        proof {
            if group > 0 {
                let cause = lemma_group_has_cause(views, j as int, j as int);
                assert(assigned[cause] < count);
            }
            assert(group_of(views, j as int) == group);
            assert forall|g: int| 0 <= g < count implies #[trigger] group_in_use(views, j as int + 1, g) by {
                assert(group_in_use(views, j as int, g));
                let i = choose|i: int| 0 <= i < j && #[trigger] group_of(views, i) == g;
                assert(group_of(views, i) == g);
            }
            assert(group_in_use(views, j as int + 1, group as int));
        }
        if group == count {
            count += 1;
        }
        assigned.push(group);
        j += 1;
    }
    (assigned, count)
}

/// The members of group `group`, in batch order.
fn collect_group(assigned: &Vec<usize>, group: usize) -> (members: Vec<usize>)
    ensures
        forall|p: int| 0 <= p < members.len() ==> (#[trigger] members[p]) < assigned.len() && assigned[members[p] as int] == group,
        forall|p: int, q: int| 0 <= p < q < members.len() ==> (#[trigger] members[p]) < (#[trigger] members[q]),
        forall|j: int| 0 <= j < assigned.len() && assigned[j] == group ==> is_member(members@, j),
{
    let mut members: Vec<usize> = Vec::new();
    let mut j: usize = 0;
    while j < assigned.len()
        invariant
            j <= assigned.len(),
            forall|p: int| 0 <= p < members.len() ==> (#[trigger] members[p]) < j && assigned[members[p] as int] == group,
            forall|p: int, q: int| 0 <= p < q < members.len() ==> (#[trigger] members[p]) < (#[trigger] members[q]),
            forall|i: int| 0 <= i < j && assigned[i] == group ==> is_member(members@, i),
        decreases assigned.len() - j,
    {
        if assigned[j] == group {
            let ghost before = members@;
            members.push(j);
            assert forall|i: int| 0 <= i < j + 1 && assigned[i] == group implies is_member(members@, i) by {
                if i < j {
                    let p = choose|p: int| 0 <= p < before.len() && #[trigger] before[p] == i;
                    assert(members@[p] == i);
                } else {
                    assert(members@[members.len() - 1] == i);
                }
            }
        }
        j += 1;
    }
    members
}

/// Splits a batch into groups. Transaction `j` goes into the first group
/// that comes after every group holding an earlier transaction in conflict
/// with it; a transaction without such a conflict goes into group 0.
pub fn schedule(estimates: &Vec<AccessSet>) -> (groups: Vec<Group>)
    ensures
        is_schedule(access_views(estimates@), groups@),
{
    let ghost views = access_views(estimates@);
    let (assigned, count) = assign_groups(estimates);
    let mut groups: Vec<Group> = Vec::new();
    let mut g: usize = 0;
    while g < count
        invariant
            g <= count,
            groups.len() == g,
            views == access_views(estimates@),
            assigned.len() == estimates.len(),
            forall|j: int| 0 <= j < estimates.len() ==> (#[trigger] assigned[j]) == group_of(views, j) && assigned[j] < count,
            forall|h: int| 0 <= h < count ==> #[trigger] group_in_use(views, estimates.len() as int, h),
            forall|h: int| 0 <= h < g ==> (#[trigger] groups[h]).index == h && groups[h].members.len() > 0,
            forall|h: int, p: int|
                0 <= h < g && 0 <= p < groups[h].members.len() ==> {
                    &&& (#[trigger] groups[h].members[p]) < estimates.len()
                    &&& group_of(views, groups[h].members[p] as int) == h
                },
            forall|h: int, p: int, q: int|
                0 <= h < g && 0 <= p < q < groups[h].members.len() ==> (#[trigger] groups[h].members[p])
                    < (#[trigger] groups[h].members[q]),
            forall|j: int| 0 <= j < estimates.len() && assigned[j] < g ==> is_member(groups[assigned[j] as int].members@, j),
        decreases count - g,
    {
        let members = collect_group(&assigned, g);
        proof {
            assert(group_in_use(views, estimates.len() as int, g as int));
            let j = choose|j: int| 0 <= j < estimates.len() && #[trigger] group_of(views, j) == g;
            assert(assigned[j] == g);
            assert(is_member(members@, j));
        }
        groups.push(Group { index: g, members });
        g += 1;
    }
    assert forall|j: int| 0 <= j < views.len() implies (#[trigger] group_of(views, j)) < groups.len() && is_member(
        groups[group_of(views, j) as int].members@,
        j,
    ) by {
        assert(assigned[j] == group_of(views, j));
    }
    groups
}

/// Schedule validity, within a group: no two members of a group of the
/// schedule conflict.
pub proof fn lemma_group_conflict_free(estimates: Seq<AccessView>, groups: Seq<Group>, g: int, p: int, q: int)
    requires
        is_schedule(estimates, groups),
        0 <= g < groups.len(),
        0 <= p < groups[g].members.len(),
        0 <= q < groups[g].members.len(),
        p != q,
    ensures
        !conflicts(estimates[groups[g].members[p] as int], estimates[groups[g].members[q] as int]),
{
    let a = groups[g].members[p] as int;
    let b = groups[g].members[q] as int;
    assert(group_of(estimates, a) == g && group_of(estimates, b) == g);
    crate::access::lemma_conflicts_symmetric(estimates[a], estimates[b]);
    if p < q {
        assert(groups[g].members[p] < groups[g].members[q]);
        if conflicts(estimates[a], estimates[b]) {
            lemma_group_after_conflict(estimates, a, b, b);
        }
    } else {
        assert(groups[g].members[q] < groups[g].members[p]);
        if conflicts(estimates[b], estimates[a]) {
            lemma_group_after_conflict(estimates, b, a, a);
        }
    }
}

/// Schedule validity, across groups: a transaction stands in a later group
/// than every earlier transaction of the batch that it conflicts with.
pub proof fn lemma_schedule_respects_order(estimates: Seq<AccessView>, i: int, j: int)
    requires
        0 <= i < j < estimates.len(),
        conflicts(estimates[i], estimates[j]) || conflicts(estimates[j], estimates[i]),
    ensures
        group_of(estimates, i) < group_of(estimates, j),
{
    crate::access::lemma_conflicts_symmetric(estimates[i], estimates[j]);
    lemma_group_after_conflict(estimates, i, j, j);
}

/// The schedule covers the batch: every transaction stands in one group,
/// at one place.
pub proof fn lemma_schedule_covers_once(estimates: Seq<AccessView>, groups: Seq<Group>, j: int, g: int, p: int, h: int, q: int)
    requires
        is_schedule(estimates, groups),
        0 <= j < estimates.len(),
        0 <= g < groups.len(),
        0 <= p < groups[g].members.len(),
        0 <= h < groups.len(),
        0 <= q < groups[h].members.len(),
        groups[g].members[p] == j,
        groups[h].members[q] == j,
    ensures
        is_member(groups[group_of(estimates, j) as int].members@, j),
        g == h,
        p == q,
{
    assert(group_of(estimates, groups[g].members[p] as int) == g);
    assert(group_of(estimates, groups[h].members[q] as int) == h);
    if p < q {
        assert(groups[g].members[p] < groups[g].members[q]);
    }
    if q < p {
        assert(groups[g].members[q] < groups[g].members[p]);
    }
}

/// A batch in which each transaction conflicts with the one before it is
/// scheduled one transaction to a group.
pub proof fn lemma_chain_is_sequential(estimates: Seq<AccessView>, j: int)
    requires
        0 <= j < estimates.len(),
        forall|i: int| 0 < i < estimates.len() ==> conflicts(#[trigger] estimates[i - 1], estimates[i]),
    ensures
        group_of(estimates, j) == j,
    decreases j,
{
    lemma_group_bound(estimates, j, j);
    if j > 0 {
        lemma_chain_is_sequential(estimates, j - 1);
        assert(conflicts(estimates[j - 1], estimates[j]));
        lemma_group_after_conflict(estimates, j - 1, j, j);
    }
}

} // verus!
