//! The result assembler: once a transaction halts the batch, every later
//! transaction gets the canonical skip output.

use vstd::prelude::*;
use crate::output::{skip_output_view, OutputView, TransactionOutput, TransactionStatus};

verus! {

/// The models of a list of outputs.
pub open spec fn outputs_view(outputs: Seq<TransactionOutput>) -> Seq<OutputView> {
    outputs.map_values(|o: TransactionOutput| o@)
}

/// Whether one of the outputs before position `j` halts the batch.
pub open spec fn halted_before(outputs: Seq<OutputView>, j: int) -> bool {
    exists|i: int| 0 <= i < j && i < outputs.len() && (#[trigger] outputs[i]).status == TransactionStatus::SkipRest
}

/// The outputs of the batch once the skip rule is applied: an output stays
/// as it is up to and including the first that halts the batch, and every
/// output after that one is the skip output.
pub open spec fn assembled(outputs: Seq<OutputView>) -> Seq<OutputView> {
    Seq::new(
        outputs.len(),
        |j: int|
            if halted_before(outputs, j) {
                skip_output_view()
            } else {
                outputs[j]
            },
    )
}

/// Assembling changes nothing about where the batch halts.
pub proof fn lemma_assembled_halts_alike(outputs: Seq<OutputView>, j: int)
    requires
        0 <= j <= outputs.len(),
    ensures
        halted_before(assembled(outputs), j) == halted_before(outputs, j),
    decreases j,
{
    if j > 0 {
        lemma_assembled_halts_alike(outputs, j - 1);
        let done = assembled(outputs);
        if halted_before(outputs, j) {
            if halted_before(outputs, j - 1) {
                let i = choose|i: int| 0 <= i < j - 1 && i < done.len() && (#[trigger] done[i]).status == TransactionStatus::SkipRest;
                assert(done[i].status == TransactionStatus::SkipRest);
            } else {
                let i = choose|i: int| 0 <= i < j && i < outputs.len() && (#[trigger] outputs[i]).status == TransactionStatus::SkipRest;
                assert(i == j - 1);
                assert(done[j - 1] == outputs[j - 1]);
                assert(done[j - 1].status == TransactionStatus::SkipRest);
            }
        }
        if halted_before(done, j) {
            let i = choose|i: int| 0 <= i < j && i < done.len() && (#[trigger] done[i]).status == TransactionStatus::SkipRest;
            if i < j - 1 {
                assert(halted_before(done, j - 1));
                let k = choose|k: int| 0 <= k < j - 1 && k < outputs.len() && (#[trigger] outputs[k]).status == TransactionStatus::SkipRest;
                assert(outputs[k].status == TransactionStatus::SkipRest);
            } else {
                assert(!halted_before(outputs, i) ==> done[i] == outputs[i]);
                if halted_before(outputs, i) {
                    let k = choose|k: int| 0 <= k < i && k < outputs.len() && (#[trigger] outputs[k]).status == TransactionStatus::SkipRest;
                    assert(outputs[k].status == TransactionStatus::SkipRest);
                } else {
                    assert(outputs[i].status == TransactionStatus::SkipRest);
                }
            }
        }
    }
}

/// Once transaction `k` halts the batch, every later transaction of the
/// assembled result has the skip output, whatever it produced.
pub proof fn lemma_skip_rest(outputs: Seq<OutputView>, k: int, j: int)
    requires
        0 <= k < j < outputs.len(),
        outputs[k].status == TransactionStatus::SkipRest,
    ensures
        assembled(outputs)[j] == skip_output_view(),
{
    assert(halted_before(outputs, j));
}

/// Applies the skip rule to the outputs of a batch.
pub fn assemble(outputs: Vec<TransactionOutput>) -> (result: Vec<TransactionOutput>)
    ensures
        outputs_view(result@) == assembled(outputs_view(outputs@)),
{
    let ghost raw = outputs_view(outputs@);
    let mut result = outputs;
    let mut halted = false;
    let mut j: usize = 0;
    while j < result.len()
        invariant
            j <= result.len(),
            result.len() == raw.len(),
            halted == halted_before(raw, j as int),
            forall|i: int| 0 <= i < j ==> (#[trigger] result@[i])@ == assembled(raw)[i],
            forall|i: int| j <= i < result.len() ==> (#[trigger] result@[i])@ == raw[i],
        decreases result.len() - j,
    {
        if halted {
            result.set(j, TransactionOutput::skip());
            assert(halted_before(raw, j as int + 1)) by {
                let i = choose|i: int| 0 <= i < j && i < raw.len() && (#[trigger] raw[i]).status == TransactionStatus::SkipRest;
                assert(raw[i].status == TransactionStatus::SkipRest);
            }
        } else if result[j].halts() {
            halted = true;
            assert(raw[j as int].status == TransactionStatus::SkipRest);
        } else {
            assert(!halted_before(raw, j as int + 1)) by {
                if halted_before(raw, j as int + 1) {
                    let i = choose|i: int| 0 <= i < j + 1 && i < raw.len() && (#[trigger] raw[i]).status == TransactionStatus::SkipRest;
                    assert(i == j || halted_before(raw, j as int));
                }
            }
        }
        j += 1;
    }
    assert(outputs_view(result@) =~= assembled(raw));
    result
}

} // verus!
