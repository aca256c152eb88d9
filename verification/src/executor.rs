//! The executor: the speculative pass over the groups of the schedule, and
//! the sequential pass that stands behind it.

use vstd::prelude::*;
use crate::access::{access_views, within, AccessSet};
use crate::assembler::{assembled, halted_before, outputs_view};
use crate::bytes::key_set;
use crate::errors::Error;
use crate::output::{copy_writes, skip_output_view, write_sets, OutputView, TransactionOutput, TransactionStatus, Writes};
use crate::pass::{any_fault, explained, in_order, members_ok, outcome_in_order, runs_of, SpeculativePass};
use crate::scheduler::is_member;
use crate::validator::{actual_access, Execution};
use crate::view::{resolve, LayeredView};

verus! {

/// What an interpreter can give for the transactions of a batch, as a
/// relation between the index of a transaction, a view and a result.
pub open spec fn runs<T, F, X: Fn(&T, &LayeredView) -> Result<Execution, F>>(run: X, txns: Seq<T>) -> spec_fn(
    int,
    LayeredView,
    Result<Execution, F>,
) -> bool {
    |j: int, view: LayeredView, result: Result<Execution, F>|
        0 <= j < txns.len() && run.ensures((&txns[j], &view), result)
}

/// Whether `outputs` is an outcome of running the batch in order with the
/// interpreter `run`: up to and including the first transaction that halts
/// the batch, each output is one that `run` gave for its transaction on a
/// view that showed, for every key the run read, what the transactions
/// before it wrote; every output after that is the skip output.
pub open spec fn sequential_outcome<T, F, X: Fn(&T, &LayeredView) -> Result<Execution, F>>(
    run: X,
    txns: Seq<T>,
    outputs: Seq<OutputView>,
) -> bool {
    &&& outputs.len() == txns.len()
    &&& outcome_in_order(runs(run, txns), outputs)
}

/// Whether `run` gave `fault` for `txn` on `view`.
pub open spec fn faulted<T, F, X: Fn(&T, &LayeredView) -> Result<Execution, F>>(
    run: X,
    txn: T,
    view: LayeredView,
    fault: F,
) -> bool {
    run.ensures((&txn, &view), Err(fault))
}

/// Whether the interpreter can fault on a transaction of the batch.
pub open spec fn speculative_fault<T, F, X: Fn(&T, &LayeredView) -> Result<Execution, F>>(
    run: X,
    txns: Seq<T>,
) -> bool {
    exists|j: int, view: LayeredView, fault: F| 0 <= j < txns.len() && #[trigger] faulted(run, txns[j], view, fault)
}

/// Whether `run` gave `fault` for transaction `j` after the transactions
/// before it ran in order with the outputs `outputs`, none of them halting
/// the batch.
pub open spec fn fault_after<T, F, X: Fn(&T, &LayeredView) -> Result<Execution, F>>(
    run: X,
    txns: Seq<T>,
    j: int,
    view: LayeredView,
    outputs: Seq<OutputView>,
    fault: F,
) -> bool {
    &&& 0 <= j < txns.len()
    &&& outputs.len() == j
    &&& !halted_before(outputs, j)
    &&& forall|i: int| 0 <= i < j ==> #[trigger] in_order(runs(run, txns), outputs, i)
    &&& view@ == write_sets(outputs)
    &&& faulted(run, txns[j], view, fault)
}

/// Whether running the batch in order ends with `fault`.
pub open spec fn sequential_fault<T, F, X: Fn(&T, &LayeredView) -> Result<Execution, F>>(
    run: X,
    txns: Seq<T>,
    fault: F,
) -> bool {
    exists|j: int, view: LayeredView, outputs: Seq<OutputView>| #[trigger]
        fault_after(run, txns, j, view, outputs, fault)
}

/// Skip propagation. In an outcome of running a batch in order, once
/// transaction `k` halts the batch every later transaction has the skip
/// output.
pub proof fn lemma_outcome_skips_rest<T, F, X: Fn(&T, &LayeredView) -> Result<Execution, F>>(
    run: X,
    txns: Seq<T>,
    outputs: Seq<OutputView>,
    k: int,
    j: int,
)
    requires
        sequential_outcome(run, txns, outputs),
        0 <= k < j < outputs.len(),
        outputs[k].status == TransactionStatus::SkipRest,
    ensures
        outputs[j] == skip_output_view(),
{
    assert(halted_before(outputs, j));
    let at = outputs[j];
}

/// Output `j` stays explained when the outputs up to and including it stay.
pub proof fn lemma_in_order_same_prefix<F>(
    ran: spec_fn(int, LayeredView, Result<Execution, F>) -> bool,
    a: Seq<OutputView>,
    b: Seq<OutputView>,
    j: int,
)
    requires
        0 <= j < a.len(),
        j < b.len(),
        forall|i: int| 0 <= i <= j ==> a[i] == b[i],
        in_order(ran, a, j),
    ensures
        in_order(ran, b, j),
{
    assert(write_sets(a).take(j) =~= write_sets(b).take(j));
    let (view, execution) = choose|view: LayeredView, execution: Execution|
        execution.output@ == a[j] && #[trigger] explained(ran, j, view, execution, write_sets(a).take(j));
    assert(explained(ran, j, view, execution, write_sets(b).take(j)));
}

/// Runs the batch in order, each transaction on the writes of those before
/// it, and stops running at the first transaction that halts the batch.
pub fn execute_block_sequential<T, F, X: Fn(&T, &LayeredView) -> Result<Execution, F>>(
    transactions: &Vec<T>,
    run: &X,
) -> (result: Result<Vec<TransactionOutput>, F>)
    requires
        forall|j: int, view: LayeredView| 0 <= j < transactions.len() ==> run.requires((&transactions[j], &view)),
    ensures
        match result {
            Ok(outputs) => sequential_outcome(*run, transactions@, outputs_view(outputs@)),
            Err(fault) => sequential_fault(*run, transactions@, fault),
        },
{
    let mut view = LayeredView::new();
    let mut outputs: Vec<TransactionOutput> = Vec::new();
    let mut halted = false;
    let mut j: usize = 0;
    while j < transactions.len()
        invariant
            j <= transactions.len(),
            outputs.len() == j,
            forall|j: int, view: LayeredView| 0 <= j < transactions.len() ==> run.requires((&transactions[j], &view)),
            halted == halted_before(outputs_view(outputs@), j as int),
            !halted ==> view@ == write_sets(outputs_view(outputs@)),
            forall|i: int|
                #![trigger outputs_view(outputs@)[i]]
                0 <= i < j ==> if halted_before(outputs_view(outputs@), i) {
                    outputs_view(outputs@)[i] == skip_output_view()
                } else {
                    in_order(runs(*run, transactions@), outputs_view(outputs@), i)
                },
        decreases transactions.len() - j,
    {
        let ghost before = outputs_view(outputs@);
        if halted {
            outputs.push(TransactionOutput::skip());
        } else {
            let ghost shown = view;
            match run(&transactions[j], &view) {
                Ok(execution) => {
                    view.commit(copy_writes(&execution.output.write_set));
                    halted = execution.output.halts();
                    let ghost witness = execution;
                    outputs.push(execution.output);
                    proof {
                        let after = outputs_view(outputs@);
                        assert(write_sets(after).take(j as int) =~= write_sets(before));
                        assert(view@ =~= write_sets(after));
                        assert(explained(runs(*run, transactions@), j as int, shown, witness, write_sets(after).take(j as int)));
                        assert(in_order(runs(*run, transactions@), after, j as int));
                    }
                },
                Err(fault) => {
                    proof {
                        assert forall|i: int| 0 <= i < j implies #[trigger] in_order(
                            runs(*run, transactions@),
                            before,
                            i,
                        ) by {
                            let at = before[i];
                            if halted_before(before, i) {
                                let k = choose|k: int| 0 <= k < i && k < before.len() && (#[trigger] before[k]).status == TransactionStatus::SkipRest;
                                assert(before[k].status == TransactionStatus::SkipRest);
                                assert(halted_before(before, j as int));
                            }
                        }
                        assert(fault_after(*run, transactions@, j as int, view, before, fault));
                    }
                    return Err(fault);
                },
            }
        }
        proof {
            let after = outputs_view(outputs@);
            assert(after.take(j as int) =~= before);
            assert forall|i: int| 0 <= i < j implies halted_before(after, i) == halted_before(before, i) by {
                if halted_before(after, i) {
                    let k = choose|k: int| 0 <= k < i && k < after.len() && (#[trigger] after[k]).status == TransactionStatus::SkipRest;
                    assert(before[k].status == TransactionStatus::SkipRest);
                }
                if halted_before(before, i) {
                    let k = choose|k: int| 0 <= k < i && k < before.len() && (#[trigger] before[k]).status == TransactionStatus::SkipRest;
                    assert(after[k].status == TransactionStatus::SkipRest);
                }
            }
            assert forall|i: int|
                #![trigger after[i]]
                0 <= i < j implies if halted_before(after, i) {
                after[i] == skip_output_view()
            } else {
                in_order(runs(*run, transactions@), after, i)
            } by {
                assert(after[i] == before[i]);
                if !halted_before(before, i) {
                    lemma_in_order_same_prefix(runs(*run, transactions@), before, after, i);
                }
            }
            if halted_before(before, j as int) {
                let k = choose|k: int| 0 <= k < j && k < before.len() && (#[trigger] before[k]).status == TransactionStatus::SkipRest;
                assert(after[k].status == TransactionStatus::SkipRest);
                assert(halted_before(after, j as int));
                assert(halted_before(after, j as int + 1));
            } else {
                if halted_before(after, j as int) {
                    let k = choose|k: int| 0 <= k < j && k < after.len() && (#[trigger] after[k]).status == TransactionStatus::SkipRest;
                    assert(before[k].status == TransactionStatus::SkipRest);
                }
                if halted_before(after, j as int + 1) {
                    let k = choose|k: int| 0 <= k < j + 1 && k < after.len() && (#[trigger] after[k]).status == TransactionStatus::SkipRest;
                    if k < j {
                        assert(before[k].status == TransactionStatus::SkipRest);
                    }
                }
                if after[j as int].status == TransactionStatus::SkipRest {
                    assert(halted_before(after, j as int + 1));
                }
            }
        }
        j += 1;
    }
    Ok(outputs)
}

/// Whether `estimate` gave `answer` for `txn`.
pub open spec fn estimated<T, E: Fn(&T) -> Option<AccessSet>>(estimate: E, txn: T, answer: Option<AccessSet>) -> bool {
    estimate.ensures((&txn,), answer)
}

/// Whether the estimator can fail on a transaction of the batch.
pub open spec fn estimation_fails<T, E: Fn(&T) -> Option<AccessSet>>(estimate: E, txns: Seq<T>) -> bool {
    exists|j: int| 0 <= j < txns.len() && #[trigger] estimated(estimate, txns[j], None)
}

/// Whether `execution`, a result of `run` for `txn` on `view`, leaves the
/// access set `predicted`, which `estimate` gave for `txn`.
pub open spec fn strays<T, F, E: Fn(&T) -> Option<AccessSet>, X: Fn(&T, &LayeredView) -> Result<Execution, F>>(
    estimate: E,
    run: X,
    txn: T,
    predicted: AccessSet,
    view: LayeredView,
    execution: Execution,
) -> bool {
    &&& estimate.ensures((&txn,), Some(predicted))
    &&& run.ensures((&txn, &view), Ok(execution))
    &&& !within(actual_access(execution), predicted@)
}

/// Whether a transaction of the batch can read or write a key that its
/// estimate does not name.
pub open spec fn misestimated<T, F, E: Fn(&T) -> Option<AccessSet>, X: Fn(&T, &LayeredView) -> Result<Execution, F>>(
    estimate: E,
    run: X,
    txns: Seq<T>,
) -> bool {
    exists|j: int, predicted: AccessSet, view: LayeredView, execution: Execution|
        0 <= j < txns.len() && #[trigger] strays(estimate, run, txns[j], predicted, view, execution)
}

/// Asks the estimator for every transaction of the batch, in order, and
/// stops at the first for which it has no prediction.
pub fn estimate_all<T, E: Fn(&T) -> Option<AccessSet>>(transactions: &Vec<T>, estimate: &E) -> (result: Option<
    Vec<AccessSet>,
>)
    requires
        forall|j: int| 0 <= j < transactions.len() ==> estimate.requires((&transactions[j],)),
    ensures
        match result {
            Some(estimates) => {
                &&& estimates.len() == transactions.len()
                &&& forall|j: int|
                    0 <= j < transactions.len() ==> estimated(*estimate, transactions[j], Some(#[trigger] estimates[j]))
            },
            None => estimation_fails(*estimate, transactions@),
        },
{
    let mut estimates: Vec<AccessSet> = Vec::new();
    let mut j: usize = 0;
    while j < transactions.len()
        invariant
            j <= transactions.len(),
            estimates.len() == j,
            forall|j: int| 0 <= j < transactions.len() ==> estimate.requires((&transactions[j],)),
            forall|i: int| 0 <= i < j ==> estimated(*estimate, transactions[i], Some(#[trigger] estimates[i])),
        decreases transactions.len() - j,
    {
        match estimate(&transactions[j]) {
            Some(predicted) => {
                estimates.push(predicted);
            },
            None => {
                assert(estimated(*estimate, transactions@[j as int], None));
                return None;
            },
        }
        j += 1;
    }
    Some(estimates)
}

/// Runs the members of a group on one view, in their order, and stops
/// after the first run that faults.
fn run_group<T, F, X: Fn(&T, &LayeredView) -> Result<Execution, F>>(
    transactions: &Vec<T>,
    members: &Vec<usize>,
    view: &LayeredView,
    run: &X,
) -> (results: Vec<Result<Execution, F>>)
    requires
        members_ok(members@, transactions.len() as int),
        forall|j: int, view: LayeredView| 0 <= j < transactions.len() ==> run.requires((&transactions[j], &view)),
    ensures
        results.len() <= members.len(),
        forall|p: int|
            0 <= p < results.len() ==> run.ensures((&transactions[members[p] as int], view), #[trigger] results[p]),
        results.len() < members.len() ==> any_fault(results@),
{
    let mut results: Vec<Result<Execution, F>> = Vec::new();
    let mut p: usize = 0;
    while p < members.len()
        invariant
            p <= members.len(),
            results.len() == p,
            members_ok(members@, transactions.len() as int),
            forall|j: int, view: LayeredView| 0 <= j < transactions.len() ==> run.requires((&transactions[j], &view)),
            forall|q: int|
                0 <= q < p ==> run.ensures((&transactions[members[q] as int], view), #[trigger] results[q]),
        decreases members.len() - p,
    {
        let result = run(&transactions[members[p]], view);
        let stop = result.is_err();
        results.push(result);
        if stop {
            assert(results[p as int] is Err);
            return results;
        }
        p += 1;
    }
    results
}

/// The speculative pass: schedules the batch and runs the groups of the
/// schedule one after another, the members of a group all on the write sets
/// committed before the group. Every run is validated against its estimate,
/// and the write sets of a group are committed once all its runs are
/// validated.
pub fn execute_groups<T, F, X: Fn(&T, &LayeredView) -> Result<Execution, F>>(
    transactions: &Vec<T>,
    estimates: Vec<AccessSet>,
    run: &X,
) -> (result: Result<Vec<TransactionOutput>, Error>)
    requires
        estimates.len() == transactions.len(),
        forall|j: int, view: LayeredView| 0 <= j < transactions.len() ==> run.requires((&transactions[j], &view)),
    ensures
        match result {
            Ok(outputs) => sequential_outcome(*run, transactions@, outputs_view(outputs@)),
            Err(Error::EstimationFailed) => false,
            Err(Error::UnestimatedWrite) => exists|j: int, view: LayeredView, execution: Execution|
                0 <= j < transactions.len() && #[trigger] run.ensures((&transactions[j], &view), Ok(execution))
                    && !within(actual_access(execution), estimates[j]@),
            Err(Error::InvariantViolation) => speculative_fault(*run, transactions@),
        },
{
    let ghost views = access_views(estimates@);
    let mut pass = SpeculativePass::new(estimates);
    while !pass.is_finished()
        invariant
            pass.wf(),
            pass.estimates() == views,
            views == access_views(estimates@),
            views.len() == transactions.len(),
            forall|j: int, view: LayeredView| 0 <= j < transactions.len() ==> run.requires((&transactions[j], &view)),
            forall|j: int|
                0 <= j < transactions.len() && (#[trigger] pass.slot(j)) is Some ==> run.ensures(
                    (&transactions[j], &pass.shown(j)),
                    Ok(pass.slot(j)->0),
                ),
        decreases pass.groups().len() - pass.group(),
    {
        let ghost before = pass;
        let (members, view) = pass.pending();
        let ghost shown = *view;
        let ghost group = members@;
        let results = run_group(transactions, members, view, run);
        let ghost given = results@;
        match pass.submit(results) {
            Ok(()) => {
                proof {
                    assert forall|j: int| 0 <= j < transactions.len() && (#[trigger] pass.slot(j)) is Some implies run.ensures(
                        (&transactions[j], &pass.shown(j)),
                        Ok(pass.slot(j)->0),
                    ) by {
                        if is_member(group, j) {
                            let p = choose|p: int| 0 <= p < group.len() && #[trigger] group[p] == j;
                            assert(pass.slot(group[p] as int) == Some(given[p]->Ok_0));
                            assert(given[p] is Ok);
                            assert(run.ensures((&transactions[group[p] as int], &shown), given[p]));
                        } else {
                            assert(before.slot(j) is Some);
                        }
                    }
                }
            },
            Err(error) => {
                proof {
                    if error == Error::InvariantViolation {
                        assert(any_fault(given));
                        let p = choose|p: int| 0 <= p < given.len() && (#[trigger] given[p]) is Err;
                        let j = group[p] as int;
                        assert(0 <= j < transactions.len());
                        assert(run.ensures((&transactions[j], &shown), given[p]));
                        assert(faulted(*run, transactions@[j], shown, given[p]->Err_0));
                        assert(speculative_fault(*run, transactions@));
                    }
                    if error == Error::UnestimatedWrite {
                        let made = runs_of(given);
                        let p = choose|p: int|
                            0 <= p < made.len() && !within(actual_access(#[trigger] made[p]), views[group[p] as int]);
                        let j = group[p] as int;
                        assert(given[p] is Ok);
                        assert(0 <= j < transactions.len());
                        assert(views[j] == estimates@[j]@);
                        assert(run.ensures((&transactions[j], &shown), Ok(made[p])));
                        assert(!within(actual_access(made[p]), estimates[j]@));
                    }
                }
                return Err(error);
            },
        }
    }
    proof {
        pass.lemma_pass_in_order(runs(*run, transactions@));
    }
    Ok(pass.finish())
}

} // verus!
