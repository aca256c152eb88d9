//! The state of one account: an ordered map from access paths to the blobs
//! stored under them.

use vstd::prelude::*;

verus! {

/// Whether `a` and `b` agree on their first `i` bytes and `a` is smaller
/// right after: it ends there and `b` does not, or its next byte is smaller.
pub open spec fn splits_at(a: Seq<u8>, b: Seq<u8>, i: int) -> bool {
    &&& 0 <= i <= a.len()
    &&& i < b.len()
    &&& forall|j: int| 0 <= j < i ==> a[j] == b[j]
    &&& i < a.len() ==> a[i] < b[i]
}

/// The order of the keys: byte strings compared byte by byte, a proper
/// prefix before the strings it begins.
pub open spec fn lex_lt(a: Seq<u8>, b: Seq<u8>) -> bool {
    exists|i: int| #[trigger] splits_at(a, b, i)
}

/// No key is smaller than itself.
pub proof fn lemma_lex_irreflexive(a: Seq<u8>)
    ensures
        !lex_lt(a, a),
{
    if lex_lt(a, a) {
        let i = choose|i: int| #[trigger] splits_at(a, a, i);
        assert(splits_at(a, a, i));
    }
}

/// The order of the keys is transitive.
pub proof fn lemma_lex_transitive(a: Seq<u8>, b: Seq<u8>, c: Seq<u8>)
    requires
        lex_lt(a, b),
        lex_lt(b, c),
    ensures
        lex_lt(a, c),
{
    let i = choose|i: int| #[trigger] splits_at(a, b, i);
    let k = choose|k: int| #[trigger] splits_at(b, c, k);
    if i <= k {
        assert(splits_at(a, c, i));
    } else {
        assert(splits_at(a, c, k));
    }
}

/// How two keys compare.
#[derive(Clone, Copy, Debug, PartialEq, Eq, Structural)]
pub enum KeyOrder {
    Before,
    Same,
    After,
}

/// Compares two keys.
pub fn compare_keys(a: &[u8], b: &[u8]) -> (order: KeyOrder)
    ensures
        match order {
            KeyOrder::Before => lex_lt(a@, b@),
            KeyOrder::Same => a@ == b@,
            KeyOrder::After => lex_lt(b@, a@),
        },
{
    let mut i: usize = 0;
    while i < a.len() && i < b.len()
        invariant
            i <= a.len(),
            i <= b.len(),
            forall|j: int| 0 <= j < i ==> a@[j] == b@[j],
        decreases a.len() - i,
    {
        if a[i] < b[i] {
            assert(splits_at(a@, b@, i as int));
            return KeyOrder::Before;
        }
        if b[i] < a[i] {
            assert(splits_at(b@, a@, i as int));
            return KeyOrder::After;
        }
        i += 1;
    }
    if i < b.len() {
        assert(splits_at(a@, b@, i as int));
        KeyOrder::Before
    } else if i < a.len() {
        assert(splits_at(b@, a@, i as int));
        KeyOrder::After
    } else {
        assert(a@ =~= b@);
        KeyOrder::Same
    }
}

/// Whether the keys of `entries` rise strictly.
pub open spec fn keys_rise(entries: Seq<(Vec<u8>, Vec<u8>)>) -> bool {
    forall|i: int, j: int| 0 <= i < j < entries.len() ==> lex_lt((#[trigger] entries[i]).0@, (#[trigger] entries[j]).0@)
}

/// Whether `entries` holds the key `key`.
pub open spec fn has_key(entries: Seq<(Vec<u8>, Vec<u8>)>, key: Seq<u8>) -> bool {
    exists|i: int| 0 <= i < entries.len() && (#[trigger] entries[i]).0@ == key
}

/// A place at which `entries` holds `key`.
pub open spec fn index_of(entries: Seq<(Vec<u8>, Vec<u8>)>, key: Seq<u8>) -> int {
    choose|i: int| 0 <= i < entries.len() && (#[trigger] entries[i]).0@ == key
}

/// The map that a list of entries stands for.
pub open spec fn entries_map(entries: Seq<(Vec<u8>, Vec<u8>)>) -> Map<Seq<u8>, Seq<u8>> {
    Map::new(|key: Seq<u8>| has_key(entries, key), |key: Seq<u8>| entries[index_of(entries, key)].1@)
}

/// The pairs of key and blob of a list of entries.
pub open spec fn entries_view(entries: Seq<(Vec<u8>, Vec<u8>)>) -> Seq<(Seq<u8>, Seq<u8>)> {
    entries.map_values(|e: (Vec<u8>, Vec<u8>)| (e.0@, e.1@))
}

/// Whether `items` lists `map`: every entry of the map once, by rising key.
pub open spec fn is_listing(map: Map<Seq<u8>, Seq<u8>>, items: Seq<(Seq<u8>, Seq<u8>)>) -> bool {
    &&& forall|i: int, j: int| 0 <= i < j < items.len() ==> lex_lt((#[trigger] items[i]).0, (#[trigger] items[j]).0)
    &&& forall|i: int| 0 <= i < items.len() ==> map.contains_key((#[trigger] items[i]).0) && map[items[i].0] == items[i].1
    &&& forall|key: Seq<u8>| #[trigger] map.contains_key(key) ==> exists|i: int| 0 <= i < items.len() && (#[trigger] items[i]).0 == key
}

/// In a list with rising keys a key stands at one place only.
pub proof fn lemma_one_place(entries: Seq<(Vec<u8>, Vec<u8>)>, i: int)
    requires
        keys_rise(entries),
        0 <= i < entries.len(),
    ensures
        has_key(entries, entries[i].0@),
        index_of(entries, entries[i].0@) == i,
        entries_map(entries).contains_key(entries[i].0@),
        entries_map(entries)[entries[i].0@] == entries[i].1@,
{
    let key = entries[i].0@;
    assert(has_key(entries, key));
    let at = index_of(entries, key);
    lemma_lex_irreflexive(key);
    if at < i {
        assert(lex_lt(entries[at].0@, entries[i].0@));
    }
    if i < at {
        assert(lex_lt(entries[i].0@, entries[at].0@));
    }
}

/// A list of entries with rising keys lists the map it stands for.
pub proof fn lemma_entries_list_map(entries: Seq<(Vec<u8>, Vec<u8>)>)
    requires
        keys_rise(entries),
    ensures
        is_listing(entries_map(entries), entries_view(entries)),
{
    let map = entries_map(entries);
    let items = entries_view(entries);
    assert forall|i: int, j: int| 0 <= i < j < items.len() implies lex_lt((#[trigger] items[i]).0, (#[trigger] items[j]).0) by {
        assert(lex_lt(entries[i].0@, entries[j].0@));
    }
    assert forall|i: int| 0 <= i < items.len() implies map.contains_key((#[trigger] items[i]).0) && map[items[i].0]
        == items[i].1 by {
        lemma_one_place(entries, i);
    }
    assert forall|key: Seq<u8>| #[trigger] map.contains_key(key) implies exists|i: int|
        0 <= i < items.len() && (#[trigger] items[i]).0 == key by {
        let at = index_of(entries, key);
        assert(items[at].0 == key);
    }
}

/// The blobs of one account, by access path.
#[derive(Clone, Debug, PartialEq, Eq)]
pub struct AccountState {
    entries: Vec<(Vec<u8>, Vec<u8>)>,
}

impl View for AccountState {
    type V = Map<Seq<u8>, Seq<u8>>;

    closed spec fn view(&self) -> Map<Seq<u8>, Seq<u8>> {
        entries_map(self.entries@)
    }
}

impl Default for AccountState {
    fn default() -> (state: AccountState)
        ensures
            state.wf(),
            state@ == Map::<Seq<u8>, Seq<u8>>::empty(),
    {
        AccountState::new()
    }
}

impl AccountState {
    /// The invariant of the type: the keys of the entries rise strictly, so
    /// that no key stands twice and the entries are walked by rising key.
    pub closed spec fn wf(&self) -> bool {
        keys_rise(self.entries@)
    }

    /// The entries of the state by rising key.
    pub closed spec fn listing(&self) -> Seq<(Seq<u8>, Seq<u8>)> {
        entries_view(self.entries@)
    }

    /// The state of an account that holds nothing.
    pub fn new() -> (state: AccountState)
        ensures
            state.wf(),
            state@ == Map::<Seq<u8>, Seq<u8>>::empty(),
            state.listing() == Seq::<(Seq<u8>, Seq<u8>)>::empty(),
    {
        let state = AccountState { entries: Vec::new() };
        assert(state@ =~= Map::<Seq<u8>, Seq<u8>>::empty());
        assert(state.listing() =~= Seq::<(Seq<u8>, Seq<u8>)>::empty());
        state
    }

    /// The place of `key` among the entries: the first entry whose key is
    /// not smaller, and whether that key is `key` itself.
    fn locate(&self, key: &[u8]) -> (place: (usize, bool))
        requires
            self.wf(),
        ensures
            place.0 <= self.entries.len(),
            forall|i: int| 0 <= i < place.0 ==> lex_lt((#[trigger] self.entries[i]).0@, key@),
            place.1 ==> place.0 < self.entries.len() && self.entries[place.0 as int].0@ == key@,
            !place.1 ==> forall|i: int| place.0 <= i < self.entries.len() ==> lex_lt(key@, (#[trigger] self.entries[i]).0@),
            place.1 <==> has_key(self.entries@, key@),
    {
        let mut i: usize = 0;
        while i < self.entries.len()
            invariant
                i <= self.entries.len(),
                keys_rise(self.entries@),
                forall|j: int| 0 <= j < i ==> lex_lt((#[trigger] self.entries[j]).0@, key@),
            decreases self.entries.len() - i,
        {
            match compare_keys(self.entries[i].0.as_slice(), key) {
                KeyOrder::Before => {},
                KeyOrder::Same => {
                    assert(has_key(self.entries@, key@));
                    return (i, true);
                },
                KeyOrder::After => {
                    proof {
                        assert forall|j: int| i <= j < self.entries.len() implies lex_lt(
                            key@,
                            (#[trigger] self.entries[j]).0@,
                        ) by {
                            if i < j {
                                assert(lex_lt(self.entries[i as int].0@, self.entries[j].0@));
                                lemma_lex_transitive(key@, self.entries[i as int].0@, self.entries[j].0@);
                            }
                        }
                        self.lemma_absent(key@, i as int);
                    }
                    return (i, false);
                },
            }
            i += 1;
        }
        proof {
            self.lemma_absent(key@, i as int);
        }
        (i, false)
    }

    /// A key that is greater than the entries before `at` and smaller than
    /// those from `at` on is not among the entries.
    proof fn lemma_absent(&self, key: Seq<u8>, at: int)
        requires
            0 <= at <= self.entries.len(),
            forall|i: int| 0 <= i < at ==> lex_lt((#[trigger] self.entries[i]).0@, key),
            forall|i: int| at <= i < self.entries.len() ==> lex_lt(key, (#[trigger] self.entries[i]).0@),
        ensures
            !has_key(self.entries@, key),
    {
        lemma_lex_irreflexive(key);
        if has_key(self.entries@, key) {
            let i = index_of(self.entries@, key);
            if i < at {
                assert(lex_lt(self.entries[i].0@, key));
            } else {
                assert(lex_lt(key, self.entries[i].0@));
            }
        }
    }

    /// The blob stored under `key`.
    pub fn get(&self, key: &[u8]) -> (found: Option<&Vec<u8>>)
        requires
            self.wf(),
        ensures
            match found {
                Some(blob) => self@.contains_key(key@) && self@[key@] == blob@,
                None => !self@.contains_key(key@),
            },
    {
        let (at, present) = self.locate(key);
        if present {
            proof {
                lemma_one_place(self.entries@, at as int);
            }
            Some(&self.entries[at].1)
        } else {
            None
        }
    }

    /// Whether a blob is stored under `key`.
    pub fn contains_key(&self, key: &[u8]) -> (present: bool)
        requires
            self.wf(),
        ensures
            present == self@.contains_key(key@),
    {
        self.locate(key).1
    }

    /// Stores `value` under `key` and returns the blob that was stored
    /// there before.
    pub fn insert(&mut self, key: Vec<u8>, value: Vec<u8>) -> (previous: Option<Vec<u8>>)
        requires
            old(self).wf(),
        ensures
            final(self).wf(),
            final(self)@ == old(self)@.insert(key@, value@),
            match previous {
                Some(blob) => old(self)@.contains_key(key@) && old(self)@[key@] == blob@,
                None => !old(self)@.contains_key(key@),
            },
    {
        let (at, present) = self.locate(key.as_slice());
        let ghost before = self.entries@;
        let ghost key_view = key@;
        let ghost value_view = value@;
        let previous = if present {
            proof {
                lemma_one_place(before, at as int);
            }
            let (_, blob) = self.entries.remove(at);
            Some(blob)
        } else {
            None
        };
        let ghost without = self.entries@;
        assert(keys_rise(without));
        assert(forall|i: int| 0 <= i < at ==> lex_lt((#[trigger] without[i]).0@, key_view));
        assert forall|i: int| at <= i < without.len() implies lex_lt(key_view, (#[trigger] without[i]).0@) by {
            if present {
                assert(without[i] == before[i + 1]);
                assert(lex_lt(before[at as int].0@, before[i + 1].0@));
            } else {
                assert(without[i] == before[i]);
            }
        }
        self.entries.insert(at, (key, value));
        proof {
            let after = self.entries@;
            assert forall|i: int, j: int| 0 <= i < j < after.len() implies lex_lt(
                (#[trigger] after[i]).0@,
                (#[trigger] after[j]).0@,
            ) by {
                if j < at {
                    assert(after[i] == without[i] && after[j] == without[j]);
                } else if j == at {
                    assert(after[i] == without[i]);
                } else if i < at {
                    assert(after[i] == without[i] && after[j] == without[j - 1]);
                } else if i == at {
                    assert(after[j] == without[j - 1]);
                } else {
                    assert(after[i] == without[i - 1] && after[j] == without[j - 1]);
                }
            }
            lemma_one_place(after, at as int);
            assert forall|k: Seq<u8>| k != key_view implies (has_key(after, k) <==> has_key(before, k)) && (has_key(
                after,
                k,
            ) ==> entries_map(after)[k] == entries_map(before)[k]) by {
                if has_key(before, k) {
                    let b = index_of(before, k);
                    lemma_one_place(before, b);
                    let a = if b < at { b } else if present { b } else { b + 1 };
                    assert(after[a] == before[b]);
                    lemma_one_place(after, a);
                }
                if has_key(after, k) {
                    let a = index_of(after, k);
                    lemma_one_place(after, a);
                    let b = if a < at { a } else if present { a } else { a - 1 };
                    assert(after[a] == before[b]);
                    lemma_one_place(before, b);
                }
            }
            assert(entries_map(after) =~= entries_map(before).insert(key_view, value_view));
        }
        previous
    }

    /// Takes away what is stored under `key` and returns it.
    pub fn remove(&mut self, key: &[u8]) -> (previous: Option<Vec<u8>>)
        requires
            old(self).wf(),
        ensures
            final(self).wf(),
            final(self)@ == old(self)@.remove(key@),
            match previous {
                Some(blob) => old(self)@.contains_key(key@) && old(self)@[key@] == blob@,
                None => !old(self)@.contains_key(key@),
            },
    {
        let (at, present) = self.locate(key);
        let ghost before = self.entries@;
        if present {
            proof {
                lemma_one_place(before, at as int);
            }
            let (_, blob) = self.entries.remove(at);
            proof {
                let after = self.entries@;
                assert(keys_rise(after));
                lemma_lex_irreflexive(key@);
                assert forall|k: Seq<u8>| k != key@ implies (has_key(after, k) <==> has_key(before, k)) && (has_key(
                    after,
                    k,
                ) ==> entries_map(after)[k] == entries_map(before)[k]) by {
                    if has_key(before, k) {
                        let b = index_of(before, k);
                        lemma_one_place(before, b);
                        let a = if b < at { b } else { b - 1 };
                        assert(after[a] == before[b]);
                        lemma_one_place(after, a);
                    }
                    if has_key(after, k) {
                        let a = index_of(after, k);
                        lemma_one_place(after, a);
                        let b = if a < at { a } else { a + 1 };
                        assert(after[a] == before[b]);
                        lemma_one_place(before, b);
                    }
                }
                assert(!has_key(after, key@)) by {
                    if has_key(after, key@) {
                        let a = index_of(after, key@);
                        let b = if a < at { a } else { a + 1 };
                        assert(after[a] == before[b]);
                        if b < at {
                            assert(lex_lt(before[b].0@, before[at as int].0@));
                        } else {
                            assert(lex_lt(before[at as int].0@, before[b].0@));
                        }
                    }
                }
                assert(entries_map(after) =~= entries_map(before).remove(key@));
            }
            Some(blob)
        } else {
            assert(self@ =~= old(self)@.remove(key@));
            None
        }
    }

    /// The entries of the state, by rising key.
    pub fn iter(&self) -> (items: Vec<(&Vec<u8>, &Vec<u8>)>)
        requires
            self.wf(),
        ensures
            items@.map_values(|item: (&Vec<u8>, &Vec<u8>)| (item.0@, item.1@)) == self.listing(),
            is_listing(self@, self.listing()),
    {
        proof {
            lemma_entries_list_map(self.entries@);
        }
        let mut items: Vec<(&Vec<u8>, &Vec<u8>)> = Vec::with_capacity(self.entries.len());
        let mut i: usize = 0;
        while i < self.entries.len()
            invariant
                i <= self.entries.len(),
                items.len() == i,
                forall|j: int| 0 <= j < i ==> (#[trigger] items[j]).0@ == self.entries[j].0@ && items[j].1@ == self.entries[j].1@,
            decreases self.entries.len() - i,
        {
            items.push((&self.entries[i].0, &self.entries[i].1));
            i += 1;
        }
        assert(items@.map_values(|item: (&Vec<u8>, &Vec<u8>)| (item.0@, item.1@)) =~= self.listing());
        items
    }
}

} // verus!
