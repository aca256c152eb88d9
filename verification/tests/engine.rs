use parallel_executor::access::AccessSet;
use parallel_executor::assembler::assemble;
use parallel_executor::errors::{BlockError, Error};
use parallel_executor::executor::{estimate_all, execute_block_sequential, execute_groups};
use parallel_executor::output::{DiemTransactionOutput, TransactionOutput, TransactionStatus, WriteOp};
use parallel_executor::pass::SpeculativePass;
use parallel_executor::scheduler::{schedule, Group};
use parallel_executor::validator::{validate, Execution};
use parallel_executor::view::LayeredView;
use parallel_executor::vm::{execute_transactions_parallel, ParallelAptosVM};
use std::collections::HashMap;

/// A transaction of the toy machine: it adds up what it reads and writes the
/// sum, with its own tag, to every key it writes.
#[derive(Clone, Debug)]
struct Txn {
    tag: u8,
    reads: Vec<Vec<u8>>,
    writes: Vec<Vec<u8>>,
    deletes: Vec<Vec<u8>>,
    predicted: Option<AccessSet>,
    status: TransactionStatus,
    fault: Option<u32>,
}

fn key(name: &str) -> Vec<u8> {
    name.as_bytes().to_vec()
}

fn txn(tag: u8, reads: &[&str], writes: &[&str]) -> Txn {
    let reads: Vec<Vec<u8>> = reads.iter().map(|k| key(k)).collect();
    let writes: Vec<Vec<u8>> = writes.iter().map(|k| key(k)).collect();
    Txn {
        tag,
        predicted: Some(AccessSet::new(reads.clone(), writes.clone())),
        reads,
        writes,
        deletes: vec![],
        status: TransactionStatus::Keep(0),
        fault: None,
    }
}

fn base() -> HashMap<Vec<u8>, Vec<u8>> {
    let mut map = HashMap::new();
    map.insert(key("a"), vec![1]);
    map.insert(key("b"), vec![2]);
    map.insert(key("c"), vec![3]);
    map
}

fn output_for(t: &Txn, seen: &dyn Fn(&[u8]) -> Option<Vec<u8>>) -> TransactionOutput {
    let mut sum: u64 = 0;
    for k in &t.reads {
        if let Some(bytes) = seen(k) {
            sum += bytes.iter().map(|b| *b as u64).sum::<u64>();
        }
    }
    let mut write_set = Vec::new();
    for k in &t.writes {
        write_set.push((k.clone(), WriteOp::Value(vec![t.tag, (sum % 251) as u8])));
    }
    for k in &t.deletes {
        write_set.push((k.clone(), WriteOp::Deletion));
    }
    TransactionOutput::new(write_set, vec![vec![t.tag]], sum, t.status)
}

fn interpret(t: &Txn, view: &LayeredView) -> Result<Execution, u32> {
    if let Some(code) = t.fault {
        return Err(code);
    }
    let snapshot = base();
    let seen = |k: &[u8]| match view.read(k) {
        Some(WriteOp::Value(bytes)) => Some(bytes.clone()),
        Some(WriteOp::Deletion) => None,
        None => snapshot.get(k).cloned(),
    };
    Ok(Execution { output: output_for(t, &seen), reads: t.reads.clone() })
}

fn estimate(t: &Txn) -> Option<AccessSet> {
    t.predicted.clone()
}

/// The batch run in order on a plain map, with nothing of the library but
/// the output type.
fn reference(txns: &[Txn]) -> Vec<TransactionOutput> {
    let mut state = base();
    let mut outputs = Vec::new();
    let mut halted = false;
    for t in txns {
        if halted {
            outputs.push(TransactionOutput::new(vec![], vec![], 0, TransactionStatus::Retry));
            continue;
        }
        let out = {
            let seen = |k: &[u8]| state.get(k).cloned();
            output_for(t, &seen)
        };
        for (k, op) in &out.write_set {
            match op {
                WriteOp::Value(bytes) => {
                    state.insert(k.clone(), bytes.clone());
                }
                WriteOp::Deletion => {
                    state.remove(k);
                }
            }
        }
        halted = out.status == TransactionStatus::SkipRest;
        outputs.push(out);
    }
    outputs
}

fn members(groups: &[Group]) -> Vec<Vec<usize>> {
    groups.iter().map(|g| g.members.clone()).collect()
}

fn estimates_of(txns: &[Txn]) -> Vec<AccessSet> {
    txns.iter().map(|t| t.predicted.clone().unwrap()).collect()
}

#[test]
fn three_independent_transactions_share_group_zero() {
    let txns = vec![txn(1, &["a"], &["x"]), txn(2, &["b"], &["y"]), txn(3, &["c"], &["z"])];
    let groups = schedule(&estimates_of(&txns));
    assert_eq!(members(&groups), vec![vec![0, 1, 2]]);
    assert_eq!(groups[0].index, 0);
    let (outputs, diagnostic) = ParallelAptosVM::execute_block(txns.clone(), estimate, interpret).unwrap();
    assert_eq!(diagnostic, None);
    assert_eq!(outputs, reference(&txns));
    assert_eq!(outputs[0].write_set, vec![(key("x"), WriteOp::Value(vec![1, 1]))]);
    assert_eq!(outputs[1].gas_used, 2);
    assert_eq!(outputs[2].events, vec![vec![3u8]]);
}

#[test]
fn misestimated_write_falls_back_to_the_sequential_result() {
    // Transaction 0 writes K although its estimate names no write;
    // transaction 1 writes K as well.
    let mut first = txn(1, &["a"], &["k"]);
    first.predicted = Some(AccessSet::new(vec![key("a")], vec![]));
    let second = txn(2, &["b"], &["k"]);
    let txns = vec![first, second];
    let parallel = execute_transactions_parallel(&txns, &estimate, &interpret);
    assert_eq!(parallel, Err(Error::UnestimatedWrite));
    let (outputs, diagnostic) = ParallelAptosVM::execute_block(txns.clone(), estimate, interpret).unwrap();
    assert_eq!(diagnostic, Some(Error::UnestimatedWrite));
    assert_eq!(outputs, reference(&txns));
    assert_eq!(outputs, execute_block_sequential(&txns, &interpret).unwrap());
}

#[test]
fn unestimated_read_is_a_misestimation_too() {
    let mut first = txn(1, &["a", "b"], &["x"]);
    first.predicted = Some(AccessSet::new(vec![key("a")], vec![key("x")]));
    let txns = vec![first];
    assert_eq!(execute_transactions_parallel(&txns, &estimate, &interpret), Err(Error::UnestimatedWrite));
}

#[test]
fn parallel_result_equals_sequential_result() {
    let txns = vec![
        txn(1, &["a"], &["x"]),
        txn(2, &["x", "b"], &["y"]),
        txn(3, &["c"], &["z"]),
        txn(4, &["y", "z"], &["a"]),
        txn(5, &["a"], &["x"]),
        txn(6, &["b"], &["w"]),
    ];
    let groups = schedule(&estimates_of(&txns));
    assert_eq!(members(&groups), vec![vec![0, 2, 5], vec![1], vec![3], vec![4]]);
    let outputs = execute_transactions_parallel(&txns, &estimate, &interpret).unwrap();
    assert_eq!(outputs, reference(&txns));
    assert_eq!(outputs, execute_block_sequential(&txns, &interpret).unwrap());
    // 1 is read from the snapshot, so x holds [1, 1]; y then holds 1 + 1 + 2.
    assert_eq!(outputs[1].write_set, vec![(key("y"), WriteOp::Value(vec![2, 4]))]);
    assert_eq!(outputs[1].gas_used, 4);
}

#[test]
fn over_estimation_costs_parallelism_only() {
    let mut first = txn(1, &["a"], &["x"]);
    first.predicted = Some(AccessSet::new(vec![key("a"), key("q")], vec![key("x"), key("y")]));
    let second = txn(2, &["b"], &["y"]);
    let txns = vec![first, second];
    let groups = schedule(&estimates_of(&txns));
    assert_eq!(members(&groups), vec![vec![0], vec![1]]);
    let (outputs, diagnostic) = ParallelAptosVM::execute_block(txns.clone(), estimate, interpret).unwrap();
    assert_eq!(diagnostic, None);
    assert_eq!(outputs, reference(&txns));
}

#[test]
fn estimator_failure_gives_the_sequential_result() {
    let mut txns = vec![txn(1, &["a"], &["x"]), txn(2, &["x"], &["y"]), txn(3, &["y"], &["z"])];
    txns[1].predicted = None;
    assert_eq!(estimate_all(&txns, &estimate), None);
    assert_eq!(execute_transactions_parallel(&txns, &estimate, &interpret), Err(Error::EstimationFailed));
    let (outputs, diagnostic) = ParallelAptosVM::execute_block(txns.clone(), estimate, interpret).unwrap();
    assert_eq!(diagnostic, Some(Error::EstimationFailed));
    assert_eq!(outputs, execute_block_sequential(&txns, &interpret).unwrap());
    assert_eq!(outputs, reference(&txns));
}

#[test]
fn estimation_keeps_the_order_of_the_batch() {
    let txns = vec![txn(1, &["a"], &["x"]), txn(2, &["b"], &[])];
    let estimates = estimate_all(&txns, &estimate).unwrap();
    assert_eq!(estimates, vec![AccessSet::new(vec![key("a")], vec![key("x")]), AccessSet::new(vec![key("b")], vec![])]);
    assert_eq!(estimate_all(&txns, &estimate), estimate_all(&txns, &estimate));
}

#[test]
fn halting_transaction_skips_the_rest() {
    let mut txns = vec![
        txn(1, &["a"], &["x"]),
        txn(2, &["b"], &["y"]),
        txn(3, &["c"], &["z"]),
        txn(4, &["x"], &["w"]),
    ];
    txns[1].status = TransactionStatus::SkipRest;
    let (outputs, diagnostic) = ParallelAptosVM::execute_block(txns.clone(), estimate, interpret).unwrap();
    assert_eq!(diagnostic, None);
    assert_eq!(outputs.len(), 4);
    assert_eq!(outputs[0], reference(&txns)[0]);
    assert_eq!(outputs[1].status, TransactionStatus::SkipRest);
    assert_eq!(outputs[1].write_set, vec![(key("y"), WriteOp::Value(vec![2, 2]))]);
    let skip = DiemTransactionOutput::skip_output().into();
    assert_eq!(outputs[2], skip);
    assert_eq!(outputs[3], skip);
    assert_eq!(outputs, reference(&txns));
    // The sequential pass applies the same rule.
    txns[0].predicted = None;
    let (fallback, diagnostic) = ParallelAptosVM::execute_block(txns.clone(), estimate, interpret).unwrap();
    assert_eq!(diagnostic, Some(Error::EstimationFailed));
    assert_eq!(fallback, outputs);
}

#[test]
fn sequential_pass_does_not_run_what_follows_a_halt() {
    let mut txns = vec![txn(1, &["a"], &["x"]), txn(2, &["b"], &["y"])];
    txns[0].status = TransactionStatus::SkipRest;
    txns[1].fault = Some(7);
    let outputs = execute_block_sequential(&txns, &interpret).unwrap();
    assert_eq!(outputs[1], TransactionOutput::skip());
}

#[test]
fn skip_output_is_canonical() {
    let skip = DiemTransactionOutput::skip_output();
    assert_eq!(skip.get_writes(), vec![]);
    let output = skip.into();
    assert_eq!(output.write_set, vec![]);
    assert_eq!(output.events, Vec::<Vec<u8>>::new());
    assert_eq!(output.gas_used, 0);
    assert_eq!(output.status, TransactionStatus::Retry);
    assert!(!output.halts());
}

#[test]
fn wrapped_output_hands_out_its_writes() {
    let writes = vec![(key("x"), WriteOp::Value(vec![9])), (key("y"), WriteOp::Deletion)];
    let output = TransactionOutput::new(writes.clone(), vec![vec![1, 2]], 5, TransactionStatus::Keep(3));
    let wrapped = DiemTransactionOutput::new(output.clone());
    assert_eq!(wrapped.get_writes(), writes);
    assert_eq!(wrapped.into(), output);
}

#[test]
fn speculative_fault_is_an_invariant_violation() {
    let mut txns = vec![txn(1, &["a"], &["x"]), txn(2, &["b"], &["y"])];
    txns[1].fault = Some(42);
    assert_eq!(execute_transactions_parallel(&txns, &estimate, &interpret), Err(Error::InvariantViolation));
    let result = ParallelAptosVM::execute_block(txns, estimate, interpret);
    assert_eq!(result, Err(BlockError::InvariantViolation));
}

#[test]
fn fault_in_the_sequential_pass_is_handed_on() {
    let mut txns = vec![txn(1, &["a"], &["x"]), txn(2, &["b"], &["y"])];
    txns[0].predicted = None;
    txns[1].fault = Some(42);
    let result = ParallelAptosVM::execute_block(txns.clone(), estimate, interpret);
    assert_eq!(result, Err(BlockError::Interpreter(42)));
    assert_eq!(execute_block_sequential(&txns, &interpret), Err(42));
}

#[test]
fn transaction_abort_is_an_ordinary_output() {
    let mut txns = vec![txn(1, &["a"], &[]), txn(2, &["b"], &["y"])];
    txns[0].status = TransactionStatus::Keep(17);
    let (outputs, diagnostic) = ParallelAptosVM::execute_block(txns.clone(), estimate, interpret).unwrap();
    assert_eq!(diagnostic, None);
    assert_eq!(outputs[0].status, TransactionStatus::Keep(17));
    assert_eq!(outputs, reference(&txns));
}

#[test]
fn empty_batch_has_no_outputs() {
    let txns: Vec<Txn> = vec![];
    assert_eq!(schedule(&[].to_vec()), vec![]);
    assert_eq!(ParallelAptosVM::execute_block(txns, estimate, interpret), Ok((vec![], None)));
}

#[test]
fn dependency_chain_gets_one_group_each() {
    let txns = vec![txn(1, &["a"], &["x"]), txn(2, &["x"], &["y"]), txn(3, &["y"], &["z"]), txn(4, &["z"], &["w"])];
    let groups = schedule(&estimates_of(&txns));
    assert_eq!(members(&groups), vec![vec![0], vec![1], vec![2], vec![3]]);
    for (g, group) in groups.iter().enumerate() {
        assert_eq!(group.index, g);
    }
    let outputs = execute_transactions_parallel(&txns, &estimate, &interpret).unwrap();
    assert_eq!(outputs, reference(&txns));
}

#[test]
fn schedule_keeps_conflicting_transactions_apart_and_in_order() {
    let txns = vec![
        txn(1, &[], &["a"]),
        txn(2, &["a"], &["b"]),
        txn(3, &["b"], &[]),
        txn(4, &["b"], &[]),
        txn(5, &["c"], &["c"]),
        txn(6, &[], &["b"]),
        txn(7, &["a"], &[]),
    ];
    let estimates = estimates_of(&txns);
    let groups = schedule(&estimates);
    // Transaction 3 reads what 1 writes: it may not join group 0 although
    // it does not conflict with transaction 0.
    assert_eq!(members(&groups), vec![vec![0, 4], vec![1, 6], vec![2, 3], vec![5]]);
    let mut group_of = vec![usize::MAX; txns.len()];
    let mut seen = 0;
    for group in &groups {
        assert!(!group.members.is_empty());
        for pair in group.members.windows(2) {
            assert!(pair[0] < pair[1]);
        }
        for &m in &group.members {
            assert_eq!(group_of[m], usize::MAX);
            group_of[m] = group.index;
            seen += 1;
        }
        for &a in &group.members {
            for &b in &group.members {
                if a != b {
                    assert!(!estimates[a].conflicts_with(&estimates[b]));
                }
            }
        }
    }
    assert_eq!(seen, txns.len());
    for j in 0..txns.len() {
        for i in 0..j {
            if estimates[i].conflicts_with(&estimates[j]) {
                assert!(group_of[i] < group_of[j]);
            }
        }
    }
}

#[test]
fn conflict_test_looks_at_all_three_overlaps() {
    let reader = AccessSet::new(vec![key("k")], vec![]);
    let writer = AccessSet::new(vec![], vec![key("k")]);
    let other = AccessSet::new(vec![key("j")], vec![key("j")]);
    assert!(reader.conflicts_with(&writer));
    assert!(writer.conflicts_with(&reader));
    assert!(writer.conflicts_with(&writer));
    assert!(!reader.conflicts_with(&reader));
    assert!(!reader.conflicts_with(&other));
    assert!(!other.conflicts_with(&writer));
}

#[test]
fn validator_wants_both_subset_relations() {
    let estimate = AccessSet::new(vec![key("a"), key("b")], vec![key("x")]);
    let run = |reads: &[&str], writes: &[&str]| Execution {
        output: TransactionOutput::new(
            writes.iter().map(|k| (key(k), WriteOp::Deletion)).collect(),
            vec![],
            0,
            TransactionStatus::Keep(0),
        ),
        reads: reads.iter().map(|k| key(k)).collect(),
    };
    assert!(validate(&estimate, &run(&["a"], &["x"])));
    assert!(validate(&estimate, &run(&[], &[])));
    assert!(validate(&estimate, &run(&["b", "a", "a"], &["x", "x"])));
    assert!(!validate(&estimate, &run(&["a"], &["y"])));
    assert!(!validate(&estimate, &run(&["c"], &["x"])));
    assert!(!validate(&estimate, &run(&["x"], &[])));
    assert!(estimate.covers(&AccessSet::new(vec![key("b")], vec![])));
    assert!(!estimate.covers(&AccessSet::new(vec![], vec![key("a")])));
}

#[test]
fn layered_view_reads_the_newest_write() {
    let mut view = LayeredView::new();
    assert_eq!(view.depth(), 0);
    assert_eq!(view.read(b"k"), None);
    view.commit(vec![(key("k"), WriteOp::Value(vec![1])), (key("j"), WriteOp::Value(vec![5]))]);
    view.commit(vec![(key("k"), WriteOp::Value(vec![2])), (key("k"), WriteOp::Value(vec![3]))]);
    assert_eq!(view.depth(), 2);
    assert_eq!(view.read(b"k"), Some(&WriteOp::Value(vec![3])));
    assert_eq!(view.read(b"j"), Some(&WriteOp::Value(vec![5])));
    assert_eq!(view.read(b"i"), None);
    view.commit(vec![(key("j"), WriteOp::Deletion)]);
    assert_eq!(view.read(b"j"), Some(&WriteOp::Deletion));
    assert_eq!(view.read(b"k"), Some(&WriteOp::Value(vec![3])));
    view.commit(vec![]);
    assert_eq!(view.read(b"k"), Some(&WriteOp::Value(vec![3])));
}

#[test]
fn deletion_is_seen_by_later_transactions() {
    let mut remover = txn(1, &[], &[]);
    remover.deletes = vec![key("a")];
    remover.predicted = Some(AccessSet::new(vec![], vec![key("a")]));
    let reader = txn(2, &["a"], &["x"]);
    let txns = vec![remover, reader];
    let outputs = execute_transactions_parallel(&txns, &estimate, &interpret).unwrap();
    assert_eq!(outputs[1].gas_used, 0);
    assert_eq!(outputs, reference(&txns));
}

#[test]
fn assembler_replaces_everything_after_the_first_halt() {
    let out = |status| TransactionOutput::new(vec![(key("k"), WriteOp::Deletion)], vec![vec![1]], 3, status);
    let raw = vec![
        out(TransactionStatus::Keep(0)),
        out(TransactionStatus::Retry),
        out(TransactionStatus::SkipRest),
        out(TransactionStatus::SkipRest),
        out(TransactionStatus::Keep(1)),
    ];
    let done = assemble(raw.clone());
    assert_eq!(done[0], raw[0]);
    assert_eq!(done[1], raw[1]);
    assert_eq!(done[2], raw[2]);
    assert_eq!(done[3], TransactionOutput::skip());
    assert_eq!(done[4], TransactionOutput::skip());
    assert_eq!(assemble(done.clone()), done);
    assert_eq!(assemble(vec![]), vec![]);
}

#[test]
fn groups_run_against_what_earlier_groups_committed() {
    let txns = vec![txn(1, &["a"], &["x"]), txn(2, &["x"], &["y"])];
    let outputs = execute_groups(&txns, estimates_of(&txns), &interpret).unwrap();
    // x holds [1, 1] after transaction 0, so transaction 1 adds up to 2.
    assert_eq!(outputs[1].gas_used, 2);
    assert_eq!(outputs, reference(&txns));
}

#[test]
fn only_the_invariant_violation_does_not_fall_back() {
    assert!(Error::EstimationFailed.falls_back());
    assert!(Error::UnestimatedWrite.falls_back());
    assert!(!Error::InvariantViolation.falls_back());
}

fn run_members(txns: &[Txn], members: &[usize], view: &LayeredView) -> Vec<Result<Execution, u32>> {
    members.iter().map(|&j| interpret(&txns[j], view)).collect()
}

#[test]
fn pass_hands_out_the_groups_in_order() {
    let txns = vec![
        txn(1, &["a"], &["x"]),
        txn(2, &["x", "b"], &["y"]),
        txn(3, &["c"], &["z"]),
        txn(4, &["y", "z"], &["a"]),
    ];
    let mut pass = SpeculativePass::new(estimates_of(&txns));
    let mut seen: Vec<Vec<usize>> = vec![];
    let mut depths: Vec<usize> = vec![];
    while !pass.is_finished() {
        let (members, view) = pass.pending();
        seen.push(members.clone());
        depths.push(view.depth());
        let results = run_members(&txns, members, view);
        assert_eq!(pass.submit(results), Ok(()));
    }
    assert_eq!(seen, vec![vec![0, 2], vec![1], vec![3]]);
    assert_eq!(depths, vec![0, 2, 3]);
    assert_eq!(pass.finish(), reference(&txns));
}

#[test]
fn pass_commits_a_group_in_the_order_of_its_members() {
    let txns = vec![txn(1, &["a"], &["x"]), txn(2, &["b"], &["y"]), txn(3, &["x", "y"], &["z"])];
    let mut pass = SpeculativePass::new(estimates_of(&txns));
    let first = {
        let (members, view) = pass.pending();
        run_members(&txns, members, view)
    };
    assert_eq!(pass.submit(first), Ok(()));
    let (members, view) = pass.pending();
    assert_eq!(members, &vec![2]);
    assert_eq!(view.depth(), 2);
    assert_eq!(view.read(b"x"), Some(&WriteOp::Value(vec![1, 1])));
    assert_eq!(view.read(b"y"), Some(&WriteOp::Value(vec![2, 2])));
    assert_eq!(view.read(b"z"), None);
}

#[test]
fn pass_stays_as_it_was_when_a_group_is_refused() {
    let mut txns = vec![txn(1, &["a"], &["x"]), txn(2, &["b"], &["y"])];
    let mut pass = SpeculativePass::new(estimates_of(&txns));
    // One result is missing.
    let short = {
        let (members, view) = pass.pending();
        run_members(&txns, &members[..1], view)
    };
    assert_eq!(pass.submit(short), Err(Error::InvariantViolation));
    // One result too many.
    let long = {
        let (_, view) = pass.pending();
        run_members(&txns, &[0, 1, 1], view)
    };
    assert_eq!(pass.submit(long), Err(Error::InvariantViolation));
    // A fault.
    let faulty = {
        let (members, view) = pass.pending();
        let mut results = run_members(&txns, members, view);
        results[1] = Err(9);
        results
    };
    assert_eq!(pass.submit(faulty), Err(Error::InvariantViolation));
    // A run that leaves its estimate.
    txns[1].writes.push(key("q"));
    let stray = {
        let (members, view) = pass.pending();
        run_members(&txns, members, view)
    };
    assert_eq!(pass.submit(stray), Err(Error::UnestimatedWrite));
    txns[1].writes.pop();
    // A fault counts before a stray run.
    txns[0].writes.push(key("q"));
    let both = {
        let (members, view) = pass.pending();
        let mut results = run_members(&txns, members, view);
        results[1] = Err(9);
        results
    };
    assert_eq!(pass.submit(both), Err(Error::InvariantViolation));
    txns[0].writes.pop();
    assert!(!pass.is_finished());
    let good = {
        let (members, view) = pass.pending();
        assert_eq!(members, &vec![0, 1]);
        assert_eq!(view.depth(), 0);
        run_members(&txns, members, view)
    };
    assert_eq!(pass.submit(good), Ok(()));
    assert!(pass.is_finished());
    assert_eq!(pass.finish(), reference(&txns));
}

#[test]
fn pass_over_an_empty_batch_is_finished_at_once() {
    let pass = SpeculativePass::new(vec![]);
    assert!(pass.is_finished());
    assert_eq!(pass.finish(), vec![]);
}

#[test]
fn pass_applies_the_skip_rule_when_it_finishes() {
    let mut txns = vec![txn(1, &["a"], &["x"]), txn(2, &["b"], &["y"])];
    txns[0].status = TransactionStatus::SkipRest;
    let mut pass = SpeculativePass::new(estimates_of(&txns));
    let results = {
        let (members, view) = pass.pending();
        run_members(&txns, members, view)
    };
    assert_eq!(pass.submit(results), Ok(()));
    let outputs = pass.finish();
    assert_eq!(outputs[0].status, TransactionStatus::SkipRest);
    assert_eq!(outputs[1], TransactionOutput::skip());
}
