//! The validator: it holds what a transaction did while it ran against what
//! was predicted of it.

use vstd::prelude::*;
use crate::access::{all_within, within, AccessSet, AccessView};
use crate::bytes::{contains_key, key_set};
use crate::output::{writes_view, TransactionOutput, WriteOp};
use crate::view::written_keys;

verus! {

/// What one run of the interpreter on one transaction gave: the output, and
/// every key that the run read.
#[derive(Clone, Debug, PartialEq, Eq)]
pub struct Execution {
    pub output: TransactionOutput,
    pub reads: Vec<Vec<u8>>,
}

/// The keys that a run touched: those it read, and those of its write set.
pub open spec fn actual_access(execution: Execution) -> AccessView {
    AccessView { reads: key_set(execution.reads@), writes: written_keys(execution.output@.write_set) }
}

/// Whether a write set writes only keys of `keys`.
pub fn writes_within(write_set: &Vec<(Vec<u8>, WriteOp)>, keys: &Vec<Vec<u8>>) -> (inside: bool)
    ensures
        inside <==> written_keys(writes_view(write_set@)).subset_of(key_set(keys@)),
{
    let ghost writes = writes_view(write_set@);
    let mut i: usize = 0;
    while i < write_set.len()
        invariant
            i <= write_set.len(),
            writes == writes_view(write_set@),
            forall|j: int| 0 <= j < i ==> key_set(keys@).contains((#[trigger] writes[j]).0),
        decreases write_set.len() - i,
    {
        if !contains_key(keys, write_set[i].0.as_slice()) {
            assert(writes[i as int].0 == write_set@[i as int].0@);
            assert(written_keys(writes).contains(writes[i as int].0));
            return false;
        }
        assert(writes[i as int].0 == write_set@[i as int].0@);
        i += 1;
    }
    assert forall|key: Seq<u8>| #[trigger] written_keys(writes).contains(key) implies key_set(keys@).contains(key) by {
        let j = choose|j: int| 0 <= j < writes.len() && (#[trigger] writes[j]).0 == key;
        assert(key_set(keys@).contains(writes[j].0));
    }
    true
}

/// Accepts a run when it read only keys that the estimate reads and wrote
/// only keys that the estimate writes.
pub fn validate(estimate: &AccessSet, execution: &Execution) -> (valid: bool)
    ensures
        valid <==> within(actual_access(*execution), estimate@),
{
    all_within(&execution.reads, &estimate.reads) && writes_within(
        &execution.output.write_set,
        &estimate.writes,
    )
}

} // verus!
