//! The speculative pass as a machine that is driven from outside: it says
//! which transactions to run next and on which view, takes what the runs
//! gave, validates it and commits it. Whoever drives it is free to run the
//! members of a group side by side.

use vstd::prelude::*;
use crate::access::{access_views, within, AccessSet, AccessView};
use crate::assembler::{assemble, assembled, halted_before, lemma_assembled_halts_alike, outputs_view};
use crate::bytes::key_set;
use crate::errors::Error;
use crate::output::{copy_writes, skip_output_view, write_sets, OutputView, TransactionOutput, TransactionStatus, Writes};
use crate::scheduler::{group_of, is_member, is_schedule, schedule, Group};
use crate::speculation::{committed, follows_schedule, is_commit_order, lemma_speculation, writes_estimated};
use crate::validator::{actual_access, validate, Execution};
use crate::view::{resolve, written_keys, LayeredView};

verus! {

/// Whether `execution` is what transaction `j` gave on `view`, where `view`
/// showed for every key that the run read what the write sets `prior`,
/// stacked in their order, show for it. The relation `ran` says what the
/// interpreter can give for which transaction on which view.
pub open spec fn explained<F>(
    ran: spec_fn(int, LayeredView, Result<Execution, F>) -> bool,
    j: int,
    view: LayeredView,
    execution: Execution,
    prior: Seq<Writes>,
) -> bool {
    &&& ran(j, view, Ok(execution))
    &&& forall|key: Seq<u8>| #[trigger]
        key_set(execution.reads@).contains(key) ==> resolve(view@, key) == resolve(prior, key)
}

/// Whether output `j` is what the interpreter gives for transaction `j`
/// when it reads what the transactions before it in the batch wrote.
pub open spec fn in_order<F>(
    ran: spec_fn(int, LayeredView, Result<Execution, F>) -> bool,
    outputs: Seq<OutputView>,
    j: int,
) -> bool {
    exists|view: LayeredView, execution: Execution|
        execution.output@ == outputs[j] && #[trigger] explained(ran, j, view, execution, write_sets(outputs).take(j))
}

/// Whether `outputs` is an outcome of running the batch in order: up to and
/// including the first transaction that halts the batch, each output is the
/// interpreter's for its transaction on the writes of those before it; every
/// output after that is the skip output.
pub open spec fn outcome_in_order<F>(
    ran: spec_fn(int, LayeredView, Result<Execution, F>) -> bool,
    outputs: Seq<OutputView>,
) -> bool {
    forall|j: int|
        #![trigger outputs[j]]
        0 <= j < outputs.len() ==> if halted_before(outputs, j) {
            outputs[j] == skip_output_view()
        } else {
            in_order(ran, outputs, j)
        }
}

/// Whether the members of a group are indices below `n`, in rising order.
pub open spec fn members_ok(members: Seq<usize>, n: int) -> bool {
    &&& forall|p: int| 0 <= p < members.len() ==> (#[trigger] members[p]) < n
    &&& forall|p: int, q: int| 0 <= p < q < members.len() ==> (#[trigger] members[p]) < (#[trigger] members[q])
}

/// The write sets of a list of runs, in its order.
pub open spec fn run_writes(runs: Seq<Execution>) -> Seq<Writes> {
    runs.map_values(|e: Execution| e.output@.write_set)
}

/// The runs that a list of results holds, where none of them is a fault.
pub open spec fn runs_of<F>(results: Seq<Result<Execution, F>>) -> Seq<Execution> {
    results.map_values(|r: Result<Execution, F>| r->Ok_0)
}

/// Whether one of the results is a fault.
pub open spec fn any_fault<F>(results: Seq<Result<Execution, F>>) -> bool {
    exists|p: int| 0 <= p < results.len() && (#[trigger] results[p]) is Err
}

/// Whether every run stays within the estimate of the member it is for.
pub open spec fn stay_within(runs: Seq<Execution>, members: Seq<usize>, estimates: Seq<AccessView>) -> bool {
    forall|p: int| 0 <= p < runs.len() ==> within(actual_access(#[trigger] runs[p]), estimates[members[p] as int])
}

/// The record of a pass: the transactions in the order in which their write
/// sets were committed, the place of each transaction in that order, the
/// number of write sets that were committed when its group began, and the
/// view that it ran on.
struct PassLog {
    pub order: Seq<int>,
    pub place: Seq<int>,
    pub start: Seq<int>,
    pub shown: Seq<LayeredView>,
}

/// What holds of a pass when the groups before `g` are done: each of their
/// members has a run in its slot that stays within its estimate, and has
/// the write set of that run committed at its place.
spec fn logged(
    estimates: Seq<AccessView>,
    slots: Seq<Option<Execution>>,
    layers: Seq<Writes>,
    log: PassLog,
    g: int,
) -> bool {
    &&& slots.len() == estimates.len()
    &&& log.place.len() == estimates.len()
    &&& log.start.len() == estimates.len()
    &&& log.shown.len() == estimates.len()
    &&& log.order.len() == layers.len()
    &&& forall|q: int|
        0 <= q < log.order.len() ==> {
            let i = #[trigger] log.order[q];
            &&& 0 <= i < estimates.len()
            &&& group_of(estimates, i) < g
            &&& log.place[i] == q
            &&& slots[i] is Some
            &&& layers[q] == slots[i]->0.output@.write_set
        }
    &&& forall|i: int|
        0 <= i < estimates.len() && (#[trigger] group_of(estimates, i)) < g ==> {
            &&& 0 <= log.start[i] <= log.place[i] < log.order.len()
            &&& log.order[log.place[i]] == i
            &&& slots[i] is Some
            &&& log.shown[i]@ == layers.take(log.start[i])
            &&& within(actual_access(slots[i]->0), estimates[i])
        }
    &&& forall|i: int|
        0 <= i < estimates.len() && (#[trigger] group_of(estimates, i)) >= g ==> slots[i] is None
    &&& forall|i: int, k: int|
        0 <= i < estimates.len() && 0 <= k < estimates.len() && group_of(estimates, i) < g && group_of(estimates, k)
            < g ==> ((#[trigger] log.place[i]) < (#[trigger] log.start[k]) <==> group_of(estimates, i) < group_of(
            estimates,
            k,
        ))
}

/// The position of transaction `i` among the members of its group.
spec fn position(members: Seq<usize>, i: int) -> int {
    choose|p: int| 0 <= p < members.len() && #[trigger] members[p] == i
}

/// The record of the pass once group `g` is committed on top of `log`.
spec fn log_after_group(estimates: Seq<AccessView>, members: Seq<usize>, g: int, view: LayeredView, log: PassLog) -> PassLog {
    let count = log.order.len() as int;
    PassLog {
        order: log.order + Seq::new(members.len(), |p: int| members[p] as int),
        place: Seq::new(
            log.place.len(),
            |i: int|
                if group_of(estimates, i) == g {
                    count + position(members, i)
                } else {
                    log.place[i]
                },
        ),
        start: Seq::new(
            log.start.len(),
            |i: int|
                if group_of(estimates, i) == g {
                    count
                } else {
                    log.start[i]
                },
        ),
        shown: Seq::new(
            log.shown.len(),
            |i: int|
                if group_of(estimates, i) == g {
                    view
                } else {
                    log.shown[i]
                },
        ),
    }
}

/// The members of a group of the schedule are the transactions that the
/// schedule puts there, each at one position.
proof fn lemma_members(estimates: Seq<AccessView>, groups: Seq<Group>, g: int)
    requires
        is_schedule(estimates, groups),
        0 <= g < groups.len(),
    ensures
        members_ok(groups[g].members@, estimates.len() as int),
        forall|p: int|
            0 <= p < groups[g].members.len() ==> group_of(estimates, (#[trigger] groups[g].members@[p]) as int) == g
                && position(groups[g].members@, groups[g].members@[p] as int) == p,
        forall|i: int|
            0 <= i < estimates.len() ==> (group_of(estimates, i) == g <==> is_member(groups[g].members@, i)),
        forall|i: int|
            0 <= i < estimates.len() && group_of(estimates, i) == g ==> 0 <= position(groups[g].members@, i)
                < groups[g].members.len() && groups[g].members@[position(groups[g].members@, i)] == i,
{
    let members = groups[g].members@;
    assert forall|p: int| 0 <= p < members.len() implies (#[trigger] members[p]) < estimates.len() by {
        assert(groups[g].members[p] < estimates.len());
    }
    assert forall|p: int, q: int| 0 <= p < q < members.len() implies (#[trigger] members[p]) < (#[trigger] members[q]) by {
        assert(groups[g].members[p] < groups[g].members[q]);
    }
    assert forall|p: int| 0 <= p < members.len() implies group_of(estimates, (#[trigger] members[p]) as int) == g
        && position(members, members[p] as int) == p by {
        let at = groups[g].members[p];
        let found = position(members, members[p] as int);
        assert(members[found] == members[p]);
        if found < p {
            assert(members[found] < members[p]);
        }
        if p < found {
            assert(members[p] < members[found]);
        }
    }
    assert forall|i: int| 0 <= i < estimates.len() implies (group_of(estimates, i) == g <==> is_member(members, i)) by {
        let at = group_of(estimates, i);
        assert(is_member(groups[at as int].members@, i));
        if is_member(members, i) {
            let p = choose|p: int| 0 <= p < members.len() && #[trigger] members[p] == i;
            assert(group_of(estimates, members[p] as int) == g);
        }
    }
    assert forall|i: int| 0 <= i < estimates.len() && group_of(estimates, i) == g implies 0 <= position(members, i)
        < members.len() && members[position(members, i)] == i by {
        assert(is_member(members, i));
    }
}

/// One group more is done once its members have validated runs in their
/// slots and the write sets of these runs are committed.
proof fn lemma_group_done(
    estimates: Seq<AccessView>,
    groups: Seq<Group>,
    g: int,
    before: Seq<Option<Execution>>,
    slots: Seq<Option<Execution>>,
    runs: Seq<Execution>,
    view: LayeredView,
    layers: Seq<Writes>,
    log: PassLog,
)
    requires
        is_schedule(estimates, groups),
        0 <= g < groups.len(),
        logged(estimates, before, view@, log, g),
        slots.len() == before.len(),
        runs.len() == groups[g].members.len(),
        forall|i: int| 0 <= i < before.len() && !is_member(groups[g].members@, i) ==> slots[i] == before[i],
        forall|p: int| 0 <= p < runs.len() ==> slots[groups[g].members@[p] as int] == Some(#[trigger] runs[p]),
        stay_within(runs, groups[g].members@, estimates),
        layers == view@ + run_writes(runs),
    ensures
        logged(estimates, slots, layers, log_after_group(estimates, groups[g].members@, g, view, log), g + 1),
{
    let members = groups[g].members@;
    let count = log.order.len() as int;
    let next = log_after_group(estimates, members, g, view, log);
    lemma_members(estimates, groups, g);
    assert forall|q: int| 0 <= q < next.order.len() implies {
        let i = #[trigger] next.order[q];
        &&& 0 <= i < estimates.len()
        &&& group_of(estimates, i) < g + 1
        &&& next.place[i] == q
        &&& slots[i] is Some
        &&& layers[q] == slots[i]->0.output@.write_set
    } by {
        if q < count {
            let i = log.order[q];
            assert(next.order[q] == i);
            assert(group_of(estimates, i) < g);
        } else {
            let p = q - count;
            let i = members[p] as int;
            assert(next.order[q] == i);
            assert(slots[i] == Some(runs[p]));
            assert(layers[q] == run_writes(runs)[p]);
        }
    }
    assert forall|i: int| 0 <= i < estimates.len() && (#[trigger] group_of(estimates, i)) < g + 1 implies {
        &&& 0 <= next.start[i] <= next.place[i] < next.order.len()
        &&& next.order[next.place[i]] == i
        &&& slots[i] is Some
        &&& next.shown[i]@ == layers.take(next.start[i])
        &&& within(actual_access(slots[i]->0), estimates[i])
    } by {
        if group_of(estimates, i) < g {
            assert(next.order[next.place[i]] == log.order[log.place[i]]);
            assert(layers.take(log.start[i]) =~= view@.take(log.start[i]));
        } else {
            let p = position(members, i);
            assert(slots[i] == Some(runs[p]));
            assert(next.order[count + p] == members[p] as int);
            assert(layers.take(count) =~= view@);
            assert(within(actual_access(runs[p]), estimates[members[p] as int]));
        }
    }
    assert forall|i: int| 0 <= i < estimates.len() && (#[trigger] group_of(estimates, i)) >= g + 1 implies slots[i] is None by {
        assert(!is_member(members, i));
    }
    assert forall|i: int, k: int|
        0 <= i < estimates.len() && 0 <= k < estimates.len() && group_of(estimates, i) < g + 1 && group_of(
            estimates,
            k,
        ) < g + 1 implies ((#[trigger] next.place[i]) < (#[trigger] next.start[k]) <==> group_of(estimates, i) < group_of(
        estimates,
        k,
    )) by {
        if group_of(estimates, i) < g && group_of(estimates, k) < g {
            assert(log.place[i] < log.start[k] <==> group_of(estimates, i) < group_of(estimates, k));
        }
    }
}

/// The outputs of the runs in the slots, in order.
fn take_outputs(slots: Vec<Option<Execution>>) -> (outputs: Vec<TransactionOutput>)
    requires
        forall|i: int| 0 <= i < slots.len() ==> (#[trigger] slots[i]) is Some,
    ensures
        outputs.len() == slots.len(),
        forall|i: int| 0 <= i < slots.len() ==> (#[trigger] outputs[i]) == slots[i]->0.output,
{
    let ghost all = slots@;
    let mut slots = slots;
    let mut reversed: Vec<TransactionOutput> = Vec::new();
    while slots.len() > 0
        invariant
            slots.len() + reversed.len() == all.len(),
            forall|i: int| 0 <= i < slots.len() ==> (#[trigger] slots[i]) == all[i],
            forall|i: int| 0 <= i < all.len() ==> (#[trigger] all[i]) is Some,
            forall|r: int| 0 <= r < reversed.len() ==> (#[trigger] reversed[r]) == all[all.len() - 1 - r]->0.output,
        decreases slots.len(),
    {
        match slots.pop() {
            Some(Some(execution)) => {
                reversed.push(execution.output);
            },
            _ => {
                assert(all[slots.len() as int] is Some);
            },
        }
    }
    let mut outputs: Vec<TransactionOutput> = Vec::new();
    while reversed.len() > 0
        invariant
            outputs.len() + reversed.len() == all.len(),
            forall|r: int| 0 <= r < reversed.len() ==> (#[trigger] reversed[r]) == all[all.len() - 1 - r]->0.output,
            forall|i: int| 0 <= i < outputs.len() ==> (#[trigger] outputs[i]) == all[i]->0.output,
        decreases reversed.len(),
    {
        match reversed.pop() {
            Some(output) => {
                outputs.push(output);
            },
            None => {},
        }
    }
    outputs
}

/// Whether one of the results is a fault.
fn has_fault<F>(results: &Vec<Result<Execution, F>>) -> (fault: bool)
    ensures
        fault == any_fault(results@),
{
    let mut p: usize = 0;
    while p < results.len()
        invariant
            p <= results.len(),
            forall|q: int| 0 <= q < p ==> (#[trigger] results[q]) is Ok,
        decreases results.len() - p,
    {
        if results[p].is_err() {
            return true;
        }
        p += 1;
    }
    false
}

/// A speculative pass over a scheduled batch.
///
/// The pass goes through the groups of the schedule. For each group it
/// hands out the members and the view on which each of them is to run, and
/// takes back what the runs gave. It commits the write sets of a group once
/// every run of the group is validated against its estimate, and gives up
/// on the first fault and on the first run that leaves its estimate.
pub struct SpeculativePass {
    estimates: Vec<AccessSet>,
    groups: Vec<Group>,
    next: usize,
    view: LayeredView,
    slots: Vec<Option<Execution>>,
    log: Ghost<PassLog>,
}

impl SpeculativePass {
    /// The invariant of the pass: its groups are the schedule of its
    /// estimates, and the groups before the next one are done.
    pub closed spec fn wf(&self) -> bool {
        &&& is_schedule(access_views(self.estimates@), self.groups@)
        &&& self.next <= self.groups.len()
        &&& logged(access_views(self.estimates@), self.slots@, self.view@, self.log@, self.next as int)
    }

    /// The estimates of the batch.
    pub closed spec fn estimates(&self) -> Seq<AccessView> {
        access_views(self.estimates@)
    }

    /// The schedule of the batch.
    pub closed spec fn groups(&self) -> Seq<Group> {
        self.groups@
    }

    /// The index of the group that is to run next.
    pub closed spec fn group(&self) -> int {
        self.next as int
    }

    /// Whether every group has run.
    pub open spec fn finished(&self) -> bool {
        self.group() >= self.groups().len()
    }

    /// The members of the group that is to run next.
    pub open spec fn members(&self) -> Seq<usize> {
        self.groups()[self.group()].members@
    }

    /// The view on which the next group is to run: the write sets
    /// committed so far.
    pub closed spec fn current_view(&self) -> LayeredView {
        self.view
    }

    /// The run that was taken for transaction `j`, if its group has run.
    pub closed spec fn slot(&self, j: int) -> Option<Execution> {
        self.slots[j]
    }

    /// The view that transaction `j` was to run on, if its group has run.
    pub closed spec fn shown(&self, j: int) -> LayeredView {
        self.log@.shown[j]
    }

    /// The outputs of the runs that were taken, in the order of the batch.
    pub closed spec fn outputs(&self) -> Seq<OutputView> {
        Seq::new(self.slots.len() as nat, |j: int| self.slots[j]->0.output@)
    }

    /// Schedules a batch with these estimates and starts the pass at the
    /// first group.
    pub fn new(estimates: Vec<AccessSet>) -> (pass: SpeculativePass)
        ensures
            pass.wf(),
            pass.estimates() == access_views(estimates@),
            is_schedule(pass.estimates(), pass.groups()),
            pass.group() == 0,
            pass.current_view()@ == Seq::<Writes>::empty(),
            forall|j: int| 0 <= j < estimates.len() ==> pass.slot(j) is None,
    {
        let groups = schedule(&estimates);
        let mut slots: Vec<Option<Execution>> = Vec::new();
        let mut i: usize = 0;
        while i < estimates.len()
            invariant
                i <= estimates.len(),
                slots.len() == i,
                forall|j: int| 0 <= j < i ==> (#[trigger] slots[j]) is None,
            decreases estimates.len() - i,
        {
            slots.push(None);
            i += 1;
        }
        let view = LayeredView::new();
        let ghost log = PassLog {
            order: Seq::empty(),
            place: Seq::new(estimates.len() as nat, |i: int| 0),
            start: Seq::new(estimates.len() as nat, |i: int| 0),
            shown: Seq::new(estimates.len() as nat, |i: int| view),
        };
        SpeculativePass { estimates, groups, next: 0, view, slots, log: Ghost(log) }
    }

    /// Whether every group has run.
    pub fn is_finished(&self) -> (finished: bool)
        requires
            self.wf(),
        ensures
            finished == self.finished(),
    {
        self.next >= self.groups.len()
    }

    /// The members of the group that is to run next, and the view on which
    /// each of them is to run.
    pub fn pending(&self) -> (action: (&Vec<usize>, &LayeredView))
        requires
            self.wf(),
            !self.finished(),
        ensures
            action.0@ == self.members(),
            *action.1 == self.current_view(),
            members_ok(self.members(), self.estimates().len() as int),
            forall|j: int| 0 <= j < self.estimates().len() && is_member(self.members(), j) ==> self.slot(j) is None,
    {
        proof {
            lemma_members(access_views(self.estimates@), self.groups@, self.next as int);
        }
        (&self.groups[self.next].members, &self.view)
    }

    /// Takes what the runs of the pending group gave, one result for each
    /// member and in the order of the members.
    ///
    /// A missing or surplus result and a fault end the pass with
    /// `Error::InvariantViolation`; otherwise a run that leaves the
    /// estimate of its member ends it with `Error::UnestimatedWrite`. In
    /// both cases the pass stays as it was. Otherwise the runs are kept,
    /// their write sets are committed in the order of the members, and the
    /// pass moves on to the next group.
    pub fn submit<F>(&mut self, results: Vec<Result<Execution, F>>) -> (outcome: Result<(), Error>)
        requires
            old(self).wf(),
            !old(self).finished(),
        ensures
            final(self).wf(),
            final(self).estimates() == old(self).estimates(),
            final(self).groups() == old(self).groups(),
            match outcome {
                Ok(()) => {
                    &&& results.len() == old(self).members().len()
                    &&& !any_fault(results@)
                    &&& stay_within(runs_of(results@), old(self).members(), old(self).estimates())
                    &&& final(self).group() == old(self).group() + 1
                    &&& final(self).current_view()@ == old(self).current_view()@ + run_writes(runs_of(results@))
                    &&& forall|p: int|
                        0 <= p < results.len() ==> {
                            &&& final(self).slot(old(self).members()[p] as int) == Some((#[trigger] results[p])->Ok_0)
                            &&& final(self).shown(old(self).members()[p] as int) == old(self).current_view()
                        }
                    &&& forall|j: int|
                        0 <= j < old(self).estimates().len() && !is_member(old(self).members(), j) ==> {
                            &&& final(self).slot(j) == old(self).slot(j)
                            &&& final(self).shown(j) == old(self).shown(j)
                        }
                },
                Err(Error::InvariantViolation) => {
                    &&& results.len() != old(self).members().len() || any_fault(results@)
                    &&& *final(self) == *old(self)
                },
                Err(Error::UnestimatedWrite) => {
                    &&& results.len() == old(self).members().len()
                    &&& !any_fault(results@)
                    &&& !stay_within(runs_of(results@), old(self).members(), old(self).estimates())
                    &&& *final(self) == *old(self)
                },
                Err(Error::EstimationFailed) => false,
            },
    {
        let ghost views = access_views(self.estimates@);
        let ghost members = self.groups@[self.next as int].members@;
        let ghost runs = runs_of(results@);
        proof {
            lemma_members(views, self.groups@, self.next as int);
        }
        if results.len() != self.groups[self.next].members.len() || has_fault(&results) {
            return Err(Error::InvariantViolation);
        }
        // Validate every run before anything is committed.
        let mut p: usize = 0;
        while p < results.len()
            invariant
                p <= results.len(),
                self.next < self.groups.len(),
                results.len() == self.groups[self.next as int].members.len(),
                members == self.groups@[self.next as int].members@,
                members_ok(members, self.estimates.len() as int),
                views == access_views(self.estimates@),
                runs == runs_of(results@),
                !any_fault(results@),
                *self == *old(self),
                self.wf(),
                forall|q: int| 0 <= q < p ==> within(actual_access(#[trigger] runs[q]), views[members[q] as int]),
            decreases results.len() - p,
        {
            let j = self.groups[self.next].members[p];
            assert(results[p as int] is Ok);
            let valid = match &results[p] {
                Ok(execution) => validate(&self.estimates[j], execution),
                Err(_) => false,
            };
            if !valid {
                assert(!within(actual_access(runs[p as int]), views[members[p as int] as int]));
                return Err(Error::UnestimatedWrite);
            }
            p += 1;
        }
        // Commit the write sets, in the order of the members.
        let ghost shown = self.view;
        let mut p: usize = 0;
        assert(self.view@ =~= shown@ + run_writes(runs).take(0));
        while p < results.len()
            invariant
                p <= results.len(),
                runs == runs_of(results@),
                !any_fault(results@),
                self.view@ == shown@ + run_writes(runs).take(p as int),
                self.estimates == old(self).estimates,
                self.groups == old(self).groups,
                self.next == old(self).next,
                self.slots == old(self).slots,
                self.log == old(self).log,
            decreases results.len() - p,
        {
            assert(results[p as int] is Ok);
            match &results[p] {
                Ok(execution) => {
                    self.view.commit(copy_writes(&execution.output.write_set));
                },
                Err(_) => {},
            }
            p += 1;
            assert(self.view@ =~= shown@ + run_writes(runs).take(p as int));
        }
        assert(run_writes(runs).take(results.len() as int) =~= run_writes(runs));
        // Keep the runs in the slots of their members.
        let ghost before = self.slots@;
        let ghost all = results@;
        let mut results = results;
        while results.len() > 0
            invariant
                results.len() <= all.len(),
                all.len() == members.len(),
                self.next < self.groups.len(),
                members == self.groups@[self.next as int].members@,
                members_ok(members, self.estimates.len() as int),
                !any_fault(all),
                forall|q: int| 0 <= q < results.len() ==> (#[trigger] results[q]) == all[q],
                self.slots.len() == before.len(),
                before.len() == self.estimates.len(),
                forall|i: int| 0 <= i < before.len() && !is_member(members, i) ==> (#[trigger] self.slots[i]) == before[i],
                forall|q: int|
                    results.len() <= q < all.len() ==> self.slots[members[q] as int] == Some((#[trigger] all[q])->Ok_0),
                self.view@ == shown@ + run_writes(runs),
                self.estimates == old(self).estimates,
                self.groups == old(self).groups,
                self.next == old(self).next,
                self.log == old(self).log,
            decreases results.len(),
        {
            let at = results.len() - 1;
            let j = self.groups[self.next].members[at];
            assert(all[at as int] is Ok);
            match results.pop() {
                Some(Ok(execution)) => {
                    assert(is_member(members, j as int));
                    self.slots.set(j, Some(execution));
                },
                _ => {},
            }
        }
        proof {
            assert forall|q: int| 0 <= q < runs.len() implies self.slots@[members[q] as int] == Some(#[trigger] runs[q]) by {
                assert(self.slots[members[q] as int] == Some(all[q]->Ok_0));
            }
            lemma_group_done(
                views,
                self.groups@,
                self.next as int,
                before,
                self.slots@,
                runs,
                shown,
                self.view@,
                self.log@,
            );
            self.log = Ghost(log_after_group(views, members, self.next as int, shown, self.log@));
            assert forall|j: int| 0 <= j < views.len() && !is_member(members, j) implies self.log@.shown[j]
                == old(self).log@.shown[j] by {}
        }
        self.next = self.next + 1;
        Ok(())
    }

    /// The outputs of the batch, assembled, once every group has run.
    pub fn finish(self) -> (outputs: Vec<TransactionOutput>)
        requires
            self.wf(),
            self.finished(),
        ensures
            outputs_view(outputs@) == assembled(self.outputs()),
            outputs.len() == self.estimates().len(),
    {
        proof {
            self.lemma_all_ran();
            assert forall|i: int| 0 <= i < self.slots.len() implies (#[trigger] self.slots[i]) is Some by {
                assert(self.slot(i) is Some);
            }
        }
        let ghost raw = self.outputs();
        let outputs = take_outputs(self.slots);
        assert(outputs_view(outputs@) =~= raw);
        let done = assemble(outputs);
        assert(outputs_view(done@).len() == done.len());
        done
    }

    /// Once every group has run, every transaction has a run in its slot.
    pub proof fn lemma_all_ran(&self)
        requires
            self.wf(),
            self.finished(),
        ensures
            self.outputs().len() == self.estimates().len(),
            forall|j: int| 0 <= j < self.estimates().len() ==> #[trigger] self.slot(j) is Some,
            forall|j: int| 0 <= j < self.estimates().len() ==> #[trigger] self.outputs()[j] == self.slot(j)->0.output@,
    {
        let estimates = access_views(self.estimates@);
        assert forall|j: int| 0 <= j < estimates.len() implies #[trigger] self.slot(j) is Some by {
            assert(group_of(estimates, j) < self.groups.len());
        }
    }

    /// Equivalence. Once every group has run, and where every run that
    /// was taken is what the interpreter gives for its transaction on the
    /// view it was to run on, the assembled outputs are an outcome of
    /// running the batch in order.
    pub proof fn lemma_pass_in_order<F>(&self, ran: spec_fn(int, LayeredView, Result<Execution, F>) -> bool)
        requires
            self.wf(),
            self.finished(),
            forall|j: int|
                0 <= j < self.estimates().len() && (#[trigger] self.slot(j)) is Some ==> ran(
                    j,
                    self.shown(j),
                    Ok(self.slot(j)->0),
                ),
        ensures
            outcome_in_order(ran, assembled(self.outputs())),
            assembled(self.outputs()).len() == self.estimates().len(),
    {
        self.lemma_all_ran();
        let estimates = access_views(self.estimates@);
        let slots = self.slots@;
        let layers = self.view@;
        let log = self.log@;
        let raw = self.outputs();
        let done = assembled(raw);
        let writes = write_sets(raw);
        assert forall|i: int| 0 <= i < estimates.len() implies (#[trigger] group_of(estimates, i)) < self.groups.len() by {}
        assert(writes_estimated(estimates, writes)) by {
            assert forall|i: int| 0 <= i < writes.len() implies written_keys(#[trigger] writes[i]).subset_of(
                estimates[i].writes,
            ) by {
                assert(group_of(estimates, i) < self.groups.len());
                assert(raw[i] == slots[i]->0.output@);
            }
        }
        assert(is_commit_order(log.order, log.place)) by {
            assert forall|i: int| 0 <= i < log.place.len() implies 0 <= #[trigger] log.place[i] < log.order.len()
                && log.order[log.place[i]] == i by {
                assert(group_of(estimates, i) < self.groups.len());
            }
        }
        assert(follows_schedule(estimates, log.place, log.start)) by {
            assert forall|i: int| 0 <= i < log.start.len() implies 0 <= #[trigger] log.start[i] <= log.place[i] by {
                assert(group_of(estimates, i) < self.groups.len());
            }
            assert forall|i: int, k: int| 0 <= i < estimates.len() && 0 <= k < estimates.len() implies (
            #[trigger] log.place[i] < #[trigger] log.start[k] <==> group_of(estimates, i) < group_of(estimates, k)) by {
                assert(group_of(estimates, i) < self.groups.len());
                assert(group_of(estimates, k) < self.groups.len());
            }
        }
        assert forall|j: int|
            #![trigger done[j]]
            0 <= j < done.len() implies if halted_before(done, j) {
            done[j] == skip_output_view()
        } else {
            in_order(ran, done, j)
        } by {
            lemma_assembled_halts_alike(raw, j);
            if !halted_before(done, j) {
                let execution = slots[j]->0;
                let view = log.shown[j];
                assert(group_of(estimates, j) < self.groups.len());
                assert(self.slot(j) is Some);
                assert(execution.output@ == raw[j]);
                assert forall|i: int| 0 <= i <= j implies done[i] == raw[i] by {
                    if halted_before(raw, i) {
                        let k = choose|k: int| 0 <= k < i && k < raw.len() && (#[trigger] raw[k]).status == TransactionStatus::SkipRest;
                        assert(raw[k].status == TransactionStatus::SkipRest);
                        assert(halted_before(raw, j));
                    }
                }
                assert(write_sets(done).take(j) =~= writes.take(j));
                assert(view@ =~= committed(writes, log.order, log.start[j])) by {
                    assert forall|q: int| 0 <= q < log.start[j] implies layers[q] == writes[log.order[q]] by {
                        let i = log.order[q];
                        assert(raw[i] == slots[i]->0.output@);
                    }
                }
                assert forall|key: Seq<u8>| #[trigger] key_set(execution.reads@).contains(key) implies resolve(
                    view@,
                    key,
                ) == resolve(write_sets(done).take(j), key) by {
                    assert(estimates[j].reads.contains(key));
                    lemma_speculation(estimates, writes, log.order, log.place, log.start, j, key);
                }
                assert(explained(ran, j, view, execution, write_sets(done).take(j)));
            }
        }
    }
}

} // verus!
