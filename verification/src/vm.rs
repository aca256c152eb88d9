//! The block executor: a parallel pass over the batch and, where the pass is
//! given up, a sequential pass over the same batch.

use vstd::prelude::*;
use crate::access::AccessSet;
use crate::assembler::outputs_view;
use crate::errors::{BlockError, Error};
use crate::executor::{
    estimate_all, estimated, estimation_fails, execute_block_sequential, execute_groups, misestimated,
    sequential_fault, sequential_outcome, speculative_fault, strays,
};
use crate::output::TransactionOutput;
use crate::validator::Execution;
use crate::view::LayeredView;

verus! {

/// Whether the estimator has a prediction for every transaction of the
/// batch.
pub open spec fn all_estimated<T, E: Fn(&T) -> Option<AccessSet>>(estimate: E, txns: Seq<T>) -> bool {
    exists|estimates: Seq<AccessSet>| #[trigger]
        estimates.len() == txns.len() && forall|j: int|
            0 <= j < txns.len() ==> estimated(estimate, txns[j], Some(#[trigger] estimates[j]))
}

/// What the condition that ended a parallel pass says of the batch.
pub open spec fn pass_ended_by<T, F, E: Fn(&T) -> Option<AccessSet>, X: Fn(&T, &LayeredView) -> Result<Execution, F>>(
    estimate: E,
    run: X,
    txns: Seq<T>,
    error: Error,
) -> bool {
    match error {
        Error::EstimationFailed => estimation_fails(estimate, txns),
        Error::UnestimatedWrite => misestimated(estimate, run, txns),
        Error::InvariantViolation => speculative_fault(run, txns),
    }
}

/// The parallel pass: estimates every transaction, schedules the batch, and
/// runs the groups of the schedule speculatively.
///
/// The pass ends with `Error::EstimationFailed` only where the estimator had
/// no prediction for a transaction, with `Error::UnestimatedWrite` only
/// where a run left its estimate, and with `Error::InvariantViolation` only
/// where the interpreter faulted. Where it ends with outputs, they are an
/// outcome of running the batch in order.
pub fn execute_transactions_parallel<T, F, E: Fn(&T) -> Option<AccessSet>, X: Fn(&T, &LayeredView) -> Result<
    Execution,
    F,
>>(transactions: &Vec<T>, estimate: &E, run: &X) -> (result: Result<Vec<TransactionOutput>, Error>)
    requires
        forall|j: int| 0 <= j < transactions.len() ==> estimate.requires((&transactions[j],)),
        forall|j: int, view: LayeredView| 0 <= j < transactions.len() ==> run.requires((&transactions[j], &view)),
    ensures
        match result {
            Ok(outputs) => {
                &&& sequential_outcome(*run, transactions@, outputs_view(outputs@))
                &&& all_estimated(*estimate, transactions@)
            },
            Err(error) => pass_ended_by(*estimate, *run, transactions@, error),
        },
{
    let estimates = match estimate_all(transactions, estimate) {
        Some(estimates) => estimates,
        None => {
            return Err(Error::EstimationFailed);
        },
    };
    let ghost predicted = estimates@;
    proof {
        assert(predicted.len() == transactions@.len());
        assert(all_estimated(*estimate, transactions@));
    }
    let result = execute_groups(transactions, estimates, run);
    proof {
        if result == Err::<Vec<TransactionOutput>, Error>(Error::UnestimatedWrite) {
            let (j, view, execution) = choose|j: int, view: LayeredView, execution: Execution|
                0 <= j < transactions.len() && #[trigger] run.ensures((&transactions[j], &view), Ok(execution))
                    && !crate::access::within(crate::validator::actual_access(execution), predicted[j]@);
            assert(strays(*estimate, *run, transactions@[j], predicted[j], view, execution));
        }
    }
    result
}

/// The executor of a block of transactions.
pub struct ParallelAptosVM();

impl ParallelAptosVM {
    /// Executes a batch and returns its outputs, one for each transaction
    /// and in the order of the batch, with the condition that made the
    /// executor fall back to the sequential pass, if one did.
    ///
    /// `estimate` predicts the access set of a transaction, or has no
    /// prediction. `run` interprets one transaction on a view of the writes
    /// committed so far and reports what it read; a read that the view does
    /// not answer goes to the snapshot that `run` holds.
    ///
    /// Whatever pass produced them, the outputs are an outcome of running
    /// the batch in order. A fault of the interpreter in the parallel pass
    /// ends the batch with `BlockError::InvariantViolation`; a fault in the
    /// sequential pass is handed on.
    pub fn execute_block<T, F, E: Fn(&T) -> Option<AccessSet>, X: Fn(&T, &LayeredView) -> Result<Execution, F>>(
        transactions: Vec<T>,
        estimate: E,
        run: X,
    ) -> (result: Result<(Vec<TransactionOutput>, Option<Error>), BlockError<F>>)
        requires
            forall|j: int| 0 <= j < transactions.len() ==> estimate.requires((&transactions[j],)),
            forall|j: int, view: LayeredView| 0 <= j < transactions.len() ==> run.requires((&transactions[j], &view)),
        ensures
            match result {
                Ok((outputs, diagnostic)) => {
                    &&& sequential_outcome(run, transactions@, outputs_view(outputs@))
                    &&& match diagnostic {
                        None => all_estimated(estimate, transactions@),
                        Some(error) => error != Error::InvariantViolation && pass_ended_by(
                            estimate,
                            run,
                            transactions@,
                            error,
                        ),
                    }
                },
                Err(BlockError::InvariantViolation) => speculative_fault(run, transactions@),
                Err(BlockError::Interpreter(fault)) => {
                    &&& sequential_fault(run, transactions@, fault)
                    &&& estimation_fails(estimate, transactions@) || misestimated(estimate, run, transactions@)
                },
            },
    {
        match execute_transactions_parallel(&transactions, &estimate, &run) {
            Ok(outputs) => Ok((outputs, None)),
            Err(error) => {
                if error.falls_back() {
                    match execute_block_sequential(&transactions, &run) {
                        Ok(outputs) => Ok((outputs, Some(error))),
                        Err(fault) => Err(BlockError::Interpreter(fault)),
                    }
                } else {
                    Err(BlockError::InvariantViolation)
                }
            },
        }
    }
}

} // verus!
