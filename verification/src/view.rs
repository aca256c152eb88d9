//! The layered view: the write sets committed so far, newest last, read from
//! the newest back to the oldest.

use vstd::prelude::*;
use crate::bytes::bytes_eq;
use crate::output::{writes_view, WriteOp, Writes};

verus! {

/// The keys that a write set writes.
pub open spec fn written_keys(writes: Writes) -> Set<Seq<u8>> {
    Set::new(|key: Seq<u8>| exists|i: int| 0 <= i < writes.len() && (#[trigger] writes[i]).0 == key)
}

/// The last write to `key` in a write set, if it writes the key at all.
pub open spec fn find_write(writes: Writes, key: Seq<u8>) -> Option<Option<Seq<u8>>>
    decreases writes.len(),
{
    if writes.len() == 0 {
        None
    } else if writes.last().0 == key {
        Some(writes.last().1)
    } else {
        find_write(writes.drop_last(), key)
    }
}

/// What a stack of write sets shows for `key`: the last write of the newest
/// layer that writes it, or `None` where no layer does and the read falls
/// through to the snapshot below.
pub open spec fn resolve(layers: Seq<Writes>, key: Seq<u8>) -> Option<Option<Seq<u8>>>
    decreases layers.len(),
{
    if layers.len() == 0 {
        None
    } else {
        match find_write(layers.last(), key) {
            Some(op) => Some(op),
            None => resolve(layers.drop_last(), key),
        }
    }
}

/// A write set has a write to `key` exactly when `key` is among its keys.
pub proof fn lemma_find_write_some(writes: Writes, key: Seq<u8>)
    ensures
        find_write(writes, key) is Some <==> written_keys(writes).contains(key),
    decreases writes.len(),
{
    if writes.len() > 0 {
        let rest = writes.drop_last();
        lemma_find_write_some(rest, key);
        if writes.last().0 == key {
            assert(writes[writes.len() - 1].0 == key);
        } else {
            if written_keys(writes).contains(key) {
                let i = choose|i: int| 0 <= i < writes.len() && (#[trigger] writes[i]).0 == key;
                assert(rest[i].0 == key);
            }
            if written_keys(rest).contains(key) {
                let i = choose|i: int| 0 <= i < rest.len() && (#[trigger] rest[i]).0 == key;
                assert(writes[i].0 == key);
            }
        }
    }
}

/// The last write to `key` in a write set.
pub fn search_writes<'a>(write_set: &'a Vec<(Vec<u8>, WriteOp)>, key: &[u8]) -> (found: Option<&'a WriteOp>)
    ensures
        match found {
            Some(op) => find_write(writes_view(write_set@), key@) == Some(op@),
            None => find_write(writes_view(write_set@), key@) is None,
        },
{
    let ghost all = writes_view(write_set@);
    let mut i: usize = write_set.len();
    assert(all.take(i as int) =~= all);
    while i > 0
        invariant
            i <= write_set.len(),
            all == writes_view(write_set@),
            find_write(all, key@) == find_write(all.take(i as int), key@),
        decreases i,
    {
        let ghost front = all.take(i as int);
        i -= 1;
        assert(front.last() == all[i as int]);
        assert(front.drop_last() =~= all.take(i as int));
        if bytes_eq(write_set[i].0.as_slice(), key) {
            return Some(&write_set[i].1);
        }
    }
    None
}

/// The write sets that were committed so far, oldest first.
#[derive(Clone, Debug, PartialEq, Eq)]
pub struct LayeredView {
    layers: Vec<Vec<(Vec<u8>, WriteOp)>>,
}

impl View for LayeredView {
    type V = Seq<Writes>;

    closed spec fn view(&self) -> Seq<Writes> {
        self.layers@.map_values(|layer: Vec<(Vec<u8>, WriteOp)>| writes_view(layer@))
    }
}

impl LayeredView {
    /// The view of a batch of which nothing is committed yet.
    pub fn new() -> (view: LayeredView)
        ensures
            view@ == Seq::<Writes>::empty(),
    {
        let view = LayeredView { layers: Vec::new() };
        assert(view@ =~= Seq::<Writes>::empty());
        view
    }

    /// The number of committed write sets.
    pub fn depth(&self) -> (layers: usize)
        ensures
            layers == self@.len(),
    {
        self.layers.len()
    }

    /// Puts a write set on top of the committed ones.
    pub fn commit(&mut self, write_set: Vec<(Vec<u8>, WriteOp)>)
        ensures
            final(self)@ == old(self)@.push(writes_view(write_set@)),
    {
        self.layers.push(write_set);
        assert(self@ =~= old(self)@.push(writes_view(write_set@)));
    }

    /// Reads `key`: the newest committed write to it, or `None` where no
    /// committed write set touches the key and the snapshot below decides.
    pub fn read(&self, key: &[u8]) -> (found: Option<&WriteOp>)
        ensures
            match found {
                Some(op) => resolve(self@, key@) == Some(op@),
                None => resolve(self@, key@) is None,
            },
    {
        let ghost all = self@;
        let mut i: usize = self.layers.len();
        assert(all.take(i as int) =~= all);
        while i > 0
            invariant
                i <= self.layers.len(),
                all == self@,
                resolve(all, key@) == resolve(all.take(i as int), key@),
            decreases i,
        {
            let ghost front = all.take(i as int);
            i -= 1;
            assert(front.last() == all[i as int]);
            assert(front.drop_last() =~= all.take(i as int));
            match search_writes(&self.layers[i], key) {
                Some(op) => {
                    return Some(op);
                },
                None => {},
            }
        }
        None
    }
}

} // verus!
