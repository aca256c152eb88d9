//! Why speculation is sound: a transaction that ran against the writes
//! committed before its group saw, on every key of its estimate, what the
//! transactions before it in the batch leave behind.

use vstd::prelude::*;
use crate::access::{conflicts, overlap, AccessView};
use crate::output::Writes;
use crate::scheduler::{group_of, lemma_group_after_conflict};
use crate::view::{find_write, lemma_find_write_some, resolve, written_keys};

verus! {

/// The write sets of the first `count` transactions in commit order.
pub open spec fn committed(writes: Seq<Writes>, order: Seq<int>, count: int) -> Seq<Writes> {
    Seq::new(count as nat, |q: int| writes[order[q]])
}

/// Whether `order` lists every index that `place` covers once, with `place`
/// giving the position of each index.
pub open spec fn is_commit_order(order: Seq<int>, place: Seq<int>) -> bool {
    &&& forall|i: int| 0 <= i < place.len() ==> 0 <= #[trigger] place[i] < order.len() && order[place[i]] == i
    &&& forall|q: int| 0 <= q < order.len() ==> 0 <= #[trigger] order[q] < place.len() && place[order[q]] == q
}

/// Whether every transaction writes only keys that its estimate names.
pub open spec fn writes_estimated(estimates: Seq<AccessView>, writes: Seq<Writes>) -> bool {
    &&& estimates.len() == writes.len()
    &&& forall|i: int| 0 <= i < writes.len() ==> written_keys(#[trigger] writes[i]).subset_of(estimates[i].writes)
}

/// Whether the transactions that may write `key` and were committed among
/// the first `count` are exactly those among the first `j` of the batch.
pub open spec fn aligned(estimates: Seq<AccessView>, place: Seq<int>, key: Seq<u8>, count: int, j: int) -> bool {
    forall|i: int|
        0 <= i < estimates.len() && (#[trigger] estimates[i]).writes.contains(key) ==> (place[i] < count <==> i < j)
}

/// Whether the transactions that may write `key` were committed in batch
/// order.
pub open spec fn writers_in_order(estimates: Seq<AccessView>, place: Seq<int>, key: Seq<u8>) -> bool {
    forall|i: int, k: int|
        0 <= i < k < estimates.len() && (#[trigger] estimates[i]).writes.contains(key) && (
        #[trigger] estimates[k]).writes.contains(key) ==> place[i] < place[k]
}

/// A stack of the first `j` write sets of the batch shows for every key what
/// the stack of the first `j + 1` shows, unless the last of them writes it.
pub proof fn lemma_resolve_prefix(writes: Seq<Writes>, j: int, key: Seq<u8>)
    requires
        0 < j <= writes.len(),
    ensures
        resolve(writes.take(j), key) == match find_write(writes[j - 1], key) {
            Some(op) => Some(op),
            None => resolve(writes.take(j - 1), key),
        },
{
    assert(writes.take(j).last() == writes[j - 1]);
    assert(writes.take(j).drop_last() =~= writes.take(j - 1));
}

/// Where the writers of a key were committed in batch order, and those
/// committed so far are those below `j`, the committed stack and the stack of
/// the first `j` write sets of the batch show the same for that key.
pub proof fn lemma_aligned_stacks_agree(
    estimates: Seq<AccessView>,
    writes: Seq<Writes>,
    order: Seq<int>,
    place: Seq<int>,
    key: Seq<u8>,
    count: int,
    j: int,
)
    requires
        writes_estimated(estimates, writes),
        is_commit_order(order, place),
        place.len() == writes.len(),
        writers_in_order(estimates, place, key),
        0 <= count <= order.len(),
        0 <= j <= writes.len(),
        aligned(estimates, place, key, count, j),
    ensures
        resolve(committed(writes, order, count), key) == resolve(writes.take(j), key),
    decreases count + j,
{
    let stack = committed(writes, order, count);
    if j > 0 && !estimates[j - 1].writes.contains(key) {
        lemma_find_write_some(writes[j - 1], key);
        lemma_resolve_prefix(writes, j, key);
        assert(aligned(estimates, place, key, count, j - 1));
        lemma_aligned_stacks_agree(estimates, writes, order, place, key, count, j - 1);
    } else if count > 0 && !estimates[order[count - 1]].writes.contains(key) {
        let last = order[count - 1];
        lemma_find_write_some(writes[last], key);
        assert(stack.last() == writes[last]);
        assert(stack.drop_last() =~= committed(writes, order, count - 1));
        assert(aligned(estimates, place, key, count - 1, j)) by {
            assert forall|i: int| 0 <= i < estimates.len() && (#[trigger] estimates[i]).writes.contains(key) implies (
            place[i] < count - 1 <==> i < j) by {
                if place[i] == count - 1 {
                    assert(order[place[i]] == i);
                }
            }
        }
        lemma_aligned_stacks_agree(estimates, writes, order, place, key, count - 1, j);
    } else if j == 0 && count == 0 {
        assert(stack =~= Seq::<Writes>::empty());
        assert(writes.take(0) =~= Seq::<Writes>::empty());
    } else if count == 0 {
        assert(estimates[j - 1].writes.contains(key));
        assert(0 <= place[j - 1]);
    } else if j == 0 {
        let last = order[count - 1];
        assert(estimates[last].writes.contains(key));
        assert(place[last] == count - 1);
    } else {
        let last = order[count - 1];
        assert(estimates[last].writes.contains(key));
        assert(estimates[j - 1].writes.contains(key));
        assert(place[last] == count - 1);
        assert(last < j);
        assert(place[j - 1] < count);
        if last != j - 1 {
            assert(place[last] < place[j - 1]);
        }
        assert(aligned(estimates, place, key, count - 1, j - 1)) by {
            assert forall|i: int| 0 <= i < estimates.len() && (#[trigger] estimates[i]).writes.contains(key) implies (
            place[i] < count - 1 <==> i < j - 1) by {
                if place[i] == count - 1 {
                    assert(order[place[i]] == i);
                }
                if i == j - 1 {
                    assert(place[i] == count - 1);
                }
            }
        }
        lemma_aligned_stacks_agree(estimates, writes, order, place, key, count - 1, j - 1);
        lemma_resolve_prefix(writes, j, key);
        assert(stack.last() == writes[last]);
        assert(stack.drop_last() =~= committed(writes, order, count - 1));
    }
}

/// Whether the commit log follows the schedule: `start[i]` is the number of
/// write sets that were committed when the group of transaction `i` began,
/// so it counts exactly the transactions of earlier groups.
pub open spec fn follows_schedule(estimates: Seq<AccessView>, place: Seq<int>, start: Seq<int>) -> bool {
    &&& start.len() == estimates.len()
    &&& place.len() == estimates.len()
    &&& forall|i: int| 0 <= i < start.len() ==> 0 <= #[trigger] start[i] <= place[i]
    &&& forall|i: int, k: int|
        0 <= i < estimates.len() && 0 <= k < estimates.len() ==> (#[trigger] place[i] < #[trigger] start[k]
            <==> group_of(estimates, i) < group_of(estimates, k))
}

/// The speculation theorem. Let the batch be committed group by group as the
/// schedule orders it, and let every transaction write only keys of its
/// estimate. Then for every key that the estimate of transaction `j` names,
/// the write sets committed before the group of `j` show what the write sets
/// of the transactions before `j` in the batch show.
pub proof fn lemma_speculation(
    estimates: Seq<AccessView>,
    writes: Seq<Writes>,
    order: Seq<int>,
    place: Seq<int>,
    start: Seq<int>,
    j: int,
    key: Seq<u8>,
)
    requires
        writes_estimated(estimates, writes),
        is_commit_order(order, place),
        follows_schedule(estimates, place, start),
        0 <= j < writes.len(),
        estimates[j].reads.contains(key) || estimates[j].writes.contains(key),
    ensures
        resolve(committed(writes, order, start[j]), key) == resolve(writes.take(j), key),
{
    assert(writers_in_order(estimates, place, key)) by {
        assert forall|i: int, k: int|
            0 <= i < k < estimates.len() && (#[trigger] estimates[i]).writes.contains(key) && (
            #[trigger] estimates[k]).writes.contains(key) implies place[i] < place[k] by {
            assert(overlap(estimates[i].writes, estimates[k].writes));
            lemma_group_after_conflict(estimates, i, k, k);
            assert(place[i] < start[k]);
        }
    }
    assert(aligned(estimates, place, key, start[j], j)) by {
        assert forall|i: int| 0 <= i < estimates.len() && (#[trigger] estimates[i]).writes.contains(key) implies (
        place[i] < start[j] <==> i < j) by {
            if i < j {
                assert(overlap(estimates[i].writes, estimates[j].reads) || overlap(
                    estimates[i].writes,
                    estimates[j].writes,
                ));
                lemma_group_after_conflict(estimates, i, j, j);
                assert(place[i] < start[j]);
            } else if i > j {
                assert(overlap(estimates[j].reads, estimates[i].writes) || overlap(
                    estimates[j].writes,
                    estimates[i].writes,
                ));
                lemma_group_after_conflict(estimates, j, i, i);
                assert(!(place[i] < start[j]));
            } else {
                assert(!(place[j] < start[j]));
            }
        }
    }
    assert(start[j] <= place[j] < order.len());
    lemma_aligned_stacks_agree(estimates, writes, order, place, key, start[j], j);
}

/// What an interpreter gives for a transaction on a stack of write sets:
/// the write set it leaves and the keys it read.
pub struct Effect {
    pub writes: Writes,
    pub reads: Set<Seq<u8>>,
}

/// Whether an interpreter looks at nothing but what it reads: on two stacks
/// that show the same for every key it read on the first, it gives the same.
pub open spec fn reads_decide<T>(interpreter: spec_fn(T, Seq<Writes>) -> Effect) -> bool {
    forall|txn: T, a: Seq<Writes>, b: Seq<Writes>|
        (forall|key: Seq<u8>| #[trigger] interpreter(txn, a).reads.contains(key) ==> resolve(a, key) == resolve(b, key))
            ==> #[trigger] interpreter(txn, b) == #[trigger] interpreter(txn, a)
}

/// Whether `effects` is what the interpreter gives when the batch runs in
/// order, each transaction on the write sets of those before it.
pub open spec fn runs_in_order<T>(interpreter: spec_fn(T, Seq<Writes>) -> Effect, txns: Seq<T>, effects: Seq<Effect>) -> bool {
    &&& effects.len() == txns.len()
    &&& forall|j: int|
        0 <= j < txns.len() ==> #[trigger] effects[j] == interpreter(
            txns[j],
            effects.map_values(|e: Effect| e.writes).take(j),
        )
}

/// Equivalence. Let an interpreter look at nothing but what it reads, let
/// the batch be committed as the schedule orders it, let every transaction
/// have run on the write sets committed before its group, and let every one
/// have stayed within its estimate. Then the effects are those of running
/// the batch in order.
pub proof fn lemma_speculative_run_is_sequential<T>(
    interpreter: spec_fn(T, Seq<Writes>) -> Effect,
    txns: Seq<T>,
    estimates: Seq<AccessView>,
    effects: Seq<Effect>,
    order: Seq<int>,
    place: Seq<int>,
    start: Seq<int>,
)
    requires
        reads_decide(interpreter),
        effects.len() == txns.len(),
        estimates.len() == txns.len(),
        is_commit_order(order, place),
        follows_schedule(estimates, place, start),
        forall|j: int|
            0 <= j < txns.len() ==> {
                &&& #[trigger] effects[j] == interpreter(
                    txns[j],
                    committed(effects.map_values(|e: Effect| e.writes), order, start[j]),
                )
                &&& effects[j].reads.subset_of(estimates[j].reads)
                &&& written_keys(effects[j].writes).subset_of(estimates[j].writes)
            },
    ensures
        runs_in_order(interpreter, txns, effects),
{
    let writes = effects.map_values(|e: Effect| e.writes);
    assert(writes_estimated(estimates, writes)) by {
        assert forall|i: int| 0 <= i < writes.len() implies written_keys(#[trigger] writes[i]).subset_of(
            estimates[i].writes,
        ) by {
            assert(written_keys(effects[i].writes).subset_of(estimates[i].writes));
        }
    }
    assert forall|j: int| 0 <= j < txns.len() implies #[trigger] effects[j] == interpreter(txns[j], writes.take(j)) by {
        let shown = committed(writes, order, start[j]);
        assert forall|key: Seq<u8>| #[trigger] interpreter(txns[j], shown).reads.contains(key) implies resolve(
            shown,
            key,
        ) == resolve(writes.take(j), key) by {
            assert(effects[j].reads.contains(key));
            assert(estimates[j].reads.contains(key));
            lemma_speculation(estimates, writes, order, place, start, j, key);
        }
        assert(interpreter(txns[j], writes.take(j)) == interpreter(txns[j], shown));
    }
}

/// Fallback correctness. Running a batch in order has one outcome: two
/// passes that each give what the interpreter gives in order give the same,
/// whichever path each took.
pub proof fn lemma_sequential_run_is_unique<T>(
    interpreter: spec_fn(T, Seq<Writes>) -> Effect,
    txns: Seq<T>,
    a: Seq<Effect>,
    b: Seq<Effect>,
)
    requires
        runs_in_order(interpreter, txns, a),
        runs_in_order(interpreter, txns, b),
    ensures
        a == b,
{
    lemma_runs_agree(interpreter, txns, a, b, txns.len() as int);
    assert(a =~= b);
}

/// Two runs in order agree on their first `upto` effects.
proof fn lemma_runs_agree<T>(
    interpreter: spec_fn(T, Seq<Writes>) -> Effect,
    txns: Seq<T>,
    a: Seq<Effect>,
    b: Seq<Effect>,
    upto: int,
)
    requires
        runs_in_order(interpreter, txns, a),
        runs_in_order(interpreter, txns, b),
        0 <= upto <= txns.len(),
    ensures
        forall|j: int| 0 <= j < upto ==> a[j] == b[j],
    decreases upto,
{
    if upto > 0 {
        lemma_runs_agree(interpreter, txns, a, b, upto - 1);
        let j = upto - 1;
        assert(a.map_values(|e: Effect| e.writes).take(j) =~= b.map_values(|e: Effect| e.writes).take(j));
        assert(a[j] == interpreter(txns[j], a.map_values(|e: Effect| e.writes).take(j)));
        assert(b[j] == interpreter(txns[j], b.map_values(|e: Effect| e.writes).take(j)));
    }
}

} // verus!
