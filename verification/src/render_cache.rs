use std::collections::HashMap;
use std::collections::VecDeque;
use vstd::prelude::*;

verus! {

broadcast use vstd::std_specs::hash::group_hash_axioms;

/// The capacity of the cache that a renderer keeps unless it is told
/// otherwise.
pub const DEFAULT_CAPACITY: usize = 100;

/// The entries of a cache, least recently used first: a key and the text
/// that was rendered for it.
pub type Entries = Seq<(u64, Seq<char>)>;

/// No key occurs twice.
pub open spec fn distinct_keys(entries: Entries) -> bool {
    forall|i: int, j: int|
        0 <= i < entries.len() && 0 <= j < entries.len() && i != j ==> (#[trigger] entries[i]).0
            != (#[trigger] entries[j]).0
}

/// Some entry has the key.
pub open spec fn holds_key(entries: Entries, key: u64) -> bool {
    exists|i: int| 0 <= i < entries.len() && (#[trigger] entries[i]).0 == key
}

/// Where the first entry with the key stands.
pub open spec fn find_key(entries: Entries, key: u64) -> Option<int>
    decreases entries.len(),
{
    if entries.len() == 0 {
        None
    } else {
        match find_key(entries.drop_last(), key) {
            Some(i) => Some(i),
            None => if entries.last().0 == key {
                Some(entries.len() - 1)
            } else {
                None
            },
        }
    }
}

/// What a lookup of the key returns.
pub open spec fn looked_up(entries: Entries, key: u64) -> Option<Seq<char>> {
    match find_key(entries, key) {
        Some(i) => Some(entries[i].1),
        None => None,
    }
}

/// The entries after a lookup of the key: a hit becomes the most recently
/// used entry, a miss changes nothing.
pub open spec fn touched(entries: Entries, key: u64) -> Entries {
    match find_key(entries, key) {
        Some(i) => entries.remove(i).push(entries[i]),
        None => entries,
    }
}

/// The entries after the value has been stored under the key in a cache of
/// the given capacity. A key that is held gets the new value; a new key
/// pushes out the least recently used entry where the cache is full.
/// Either way the entry becomes the most recently used.
pub open spec fn stored(entries: Entries, capacity: nat, key: u64, value: Seq<char>) -> Entries {
    match find_key(entries, key) {
        Some(i) => entries.remove(i).push((key, value)),
        None => if entries.len() >= capacity && entries.len() > 0 {
            entries.drop_first().push((key, value))
        } else {
            entries.push((key, value))
        },
    }
}

/// `find_key` finds the first entry with the key.
pub proof fn lemma_find_key(entries: Entries, key: u64)
    ensures
        match find_key(entries, key) {
            Some(i) => 0 <= i < entries.len() && entries[i].0 == key && forall|j: int|
                0 <= j < i ==> (#[trigger] entries[j]).0 != key,
            None => forall|j: int| 0 <= j < entries.len() ==> (#[trigger] entries[j]).0 != key,
        },
    decreases entries.len(),
{
    if entries.len() > 0 {
        lemma_find_key(entries.drop_last(), key);
        match find_key(entries.drop_last(), key) {
            Some(i) => {
                assert forall|j: int| 0 <= j < i implies (#[trigger] entries[j]).0 != key by {
                    assert(entries.drop_last()[j] == entries[j]);
                }
            },
            None => {
                assert forall|j: int| 0 <= j < entries.len() - 1 implies (#[trigger] entries[j]).0
                    != key by {
                    assert(entries.drop_last()[j] == entries[j]);
                }
            },
        }
    }
}

/// A bounded cache of rendered images with least-recently-used eviction.
pub struct RenderCache {
    map: HashMap<u64, String>,
    order: VecDeque<u64>,
    capacity: usize,
}

impl View for RenderCache {
    type V = Entries;

    closed spec fn view(&self) -> Entries {
        Seq::new(self.order@.len(), |i: int| (self.order@[i], self.map@[self.order@[i]]@))
    }
}

impl RenderCache {
    /// The recency list names each key of the map once and nothing else.
    pub closed spec fn wf(&self) -> bool {
        &&& forall|i: int, j: int|
            0 <= i < self.order@.len() && 0 <= j < self.order@.len() && i != j
                ==> #[trigger] self.order@[i] != #[trigger] self.order@[j]
        &&& forall|i: int|
            0 <= i < self.order@.len() ==> self.map@.contains_key(#[trigger] self.order@[i])
        &&& forall|k: u64| #[trigger]
            self.map@.contains_key(k) ==> exists|i: int|
                0 <= i < self.order@.len() && #[trigger] self.order@[i] == k
        &&& self.order@.len() <= self.capacity || self.order@.len() <= 1
    }

    /// The number of entries above which a new key pushes out the least
    /// recently used one.
    pub closed spec fn spec_capacity(&self) -> nat {
        self.capacity as nat
    }

    /// A well-formed cache holds no key twice and no more entries than its
    /// capacity, or one where the capacity is zero.
    pub proof fn lemma_wf(&self)
        requires
            self.wf(),
        ensures
            distinct_keys(self@),
            self@.len() <= self.spec_capacity() || self@.len() <= 1,
    {
    }

    /// An empty cache.
    pub fn new(capacity: usize) -> (cache: RenderCache)
        ensures
            cache.wf(),
            cache@ == Seq::<(u64, Seq<char>)>::empty(),
            cache.spec_capacity() == capacity,
    {
        let cache = RenderCache {
            map: HashMap::new(),
            order: VecDeque::new(),
            capacity,
        };
        cache
    }

    /// The capacity that the cache was made with.
    pub fn capacity(&self) -> (c: usize)
        ensures
            c == self.spec_capacity(),
    {
        self.capacity
    }

    /// The number of entries.
    pub fn len(&self) -> (n: usize)
        ensures
            n == self@.len(),
    {
        self.order.len()
    }

    /// Where the key stands in the recency list.
    fn position(&self, key: u64) -> (r: Option<usize>)
        requires
            self.wf(),
        ensures
            match r {
                Some(i) => find_key(self@, key) == Some(i as int),
                None => find_key(self@, key).is_none(),
            },
    {
        let n: usize = self.order.len();
        let mut i: usize = 0;
        while i < n
            invariant
                i <= n,
                n == self.order@.len(),
                forall|j: int| 0 <= j < i ==> #[trigger] self.order@[j] != key,
            decreases n - i,
        {
            if self.order[i] == key {
                proof {
                    lemma_find_key(self@, key);
                    assert(self@[i as int].0 == key);
                }
                return Some(i);
            }
            i += 1;
        }
        proof {
            lemma_find_key(self@, key);
        }
        None
    }

    /// Looks the key up. A hit returns the stored text and makes the entry
    /// the most recently used.
    pub fn get(&mut self, key: u64) -> (r: Option<String>)
        requires
            old(self).wf(),
        ensures
            final(self).wf(),
            final(self).spec_capacity() == old(self).spec_capacity(),
            final(self)@ == touched(old(self)@, key),
            match r {
                Some(text) => looked_up(old(self)@, key) == Some(text@),
                None => looked_up(old(self)@, key).is_none(),
            },
    {
        match self.position(key) {
            None => None,
            Some(i) => {
                let ghost before = *self;
                proof {
                    lemma_find_key(before@, key);
                }
                let text = match self.map.get(&key) {
                    Some(text) => text.clone(),
                    None => String::new(),
                };
                let gone = self.order.remove(i);
                self.order.push_back(key);
                proof {
                    assert forall|k: u64| #[trigger]
                        self.map@.contains_key(k) implies exists|j: int|
                        0 <= j < self.order@.len() && #[trigger] self.order@[j] == k by {
                        let j = choose|j: int|
                            0 <= j < before.order@.len() && #[trigger] before.order@[j] == k;
                        if j < i {
                            assert(self.order@[j] == k);
                        } else if j == i {
                            assert(self.order@[self.order@.len() - 1] == k);
                        } else {
                            assert(self.order@[j - 1] == k);
                        }
                    }
                }
                Some(text)
            },
        }
    }

    /// Stores the text under the key and makes the entry the most recently
    /// used. Where the key is new and the cache is full, the least recently
    /// used entry leaves first.
    pub fn insert(&mut self, key: u64, value: String)
        requires
            old(self).wf(),
        ensures
            final(self).wf(),
            final(self).spec_capacity() == old(self).spec_capacity(),
            final(self)@ == stored(old(self)@, old(self).spec_capacity(), key, value@),
    {
        let ghost before = *self;
        match self.position(key) {
            Some(i) => {
                proof {
                    lemma_find_key(before@, key);
                }
                let gone = self.order.remove(i);
                self.order.push_back(key);
                let previous = self.map.insert(key, value);
                proof {
                    assert forall|k: u64| #[trigger]
                        self.map@.contains_key(k) implies exists|j: int|
                        0 <= j < self.order@.len() && #[trigger] self.order@[j] == k by {
                        if k == key {
                            assert(self.order@[self.order@.len() - 1] == k);
                        } else {
                            let j = choose|j: int|
                                0 <= j < before.order@.len() && #[trigger] before.order@[j] == k;
                            if j < i {
                                assert(self.order@[j] == k);
                            } else {
                                assert(self.order@[j - 1] == k);
                            }
                        }
                    }
                }
            },
            None => {
                proof {
                    lemma_find_key(before@, key);
                    assert forall|j: int| 0 <= j < before.order@.len() implies #[trigger] before.order@[j]
                        != key by {
                        assert(before@[j].0 == before.order@[j]);
                    }
                }
                if self.order.len() >= self.capacity {
                    match self.order.pop_front() {
                        Some(least_used) => {
                            let gone = self.map.remove(&least_used);
                        },
                        None => {},
                    }
                }
                self.order.push_back(key);
                let previous = self.map.insert(key, value);
                proof {
                    assert forall|k: u64| #[trigger]
                        self.map@.contains_key(k) implies exists|j: int|
                        0 <= j < self.order@.len() && #[trigger] self.order@[j] == k by {
                        if k == key {
                            assert(self.order@[self.order@.len() - 1] == k);
                        } else {
                            let j = choose|j: int|
                                0 <= j < before.order@.len() && #[trigger] before.order@[j] == k;
                            if before.order@.len() >= before.capacity && before.order@.len() > 0 {
                                assert(self.order@[j - 1] == k);
                            } else {
                                assert(self.order@[j] == k);
                            }
                        }
                    }
                }
            },
        }
    }
}

/// The entries after each of the items has been stored, in order.
pub open spec fn stored_all(entries: Entries, capacity: nat, items: Entries) -> Entries
    decreases items.len(),
{
    if items.len() == 0 {
        entries
    } else {
        stored(
            stored_all(entries, capacity, items.drop_last()),
            capacity,
            items.last().0,
            items.last().1,
        )
    }
}

/// Storing keeps the keys distinct and the size within the capacity (one
/// entry at least is always kept).
pub proof fn lemma_stored_keeps_shape(entries: Entries, capacity: nat, key: u64, value: Seq<char>)
    requires
        distinct_keys(entries),
    ensures
        distinct_keys(stored(entries, capacity, key, value)),
        stored(entries, capacity, key, value).len() <= entries.len() + 1,
        entries.len() <= capacity || entries.len() <= 1 ==> stored(
            entries,
            capacity,
            key,
            value,
        ).len() <= capacity || stored(entries, capacity, key, value).len() <= 1,
{
    lemma_find_key(entries, key);
}

/// Coherence: a lookup straight after a store under the same key returns
/// exactly what was stored.
pub proof fn lemma_get_after_put(entries: Entries, capacity: nat, key: u64, value: Seq<char>)
    requires
        distinct_keys(entries),
    ensures
        looked_up(stored(entries, capacity, key, value), key) == Some(value),
{
    let after = stored(entries, capacity, key, value);
    lemma_find_key(entries, key);
    lemma_find_key(after, key);
}

/// A store under one key leaves what a lookup of any other key that stays
/// in the cache returns.
pub proof fn lemma_put_keeps_others(
    entries: Entries,
    capacity: nat,
    key: u64,
    value: Seq<char>,
    other: u64,
)
    requires
        distinct_keys(entries),
        other != key,
        holds_key(stored(entries, capacity, key, value), other),
    ensures
        looked_up(stored(entries, capacity, key, value), other) == looked_up(entries, other),
{
    let after = stored(entries, capacity, key, value);
    lemma_stored_keeps_shape(entries, capacity, key, value);
    lemma_find_key(entries, key);
    lemma_find_key(entries, other);
    lemma_find_key(after, other);
}

/// Eviction: a new key stored in a full cache pushes out the least
/// recently used entry and no other.
pub proof fn lemma_put_evicts_least_recent(
    entries: Entries,
    capacity: nat,
    key: u64,
    value: Seq<char>,
)
    requires
        distinct_keys(entries),
        !holds_key(entries, key),
        entries.len() >= capacity,
        entries.len() > 0,
    ensures
        stored(entries, capacity, key, value) == entries.drop_first().push((key, value)),
        !holds_key(stored(entries, capacity, key, value), entries[0].0),
        forall|j: int|
            1 <= j < entries.len() ==> looked_up(
                stored(entries, capacity, key, value),
                (#[trigger] entries[j]).0,
            ) == Some(entries[j].1),
{
    let after = stored(entries, capacity, key, value);
    lemma_find_key(entries, key);
    assert forall|j: int| 0 <= j < after.len() implies (#[trigger] after[j]).0
        != entries[0].0 by {
    }
    assert forall|j: int| 1 <= j < entries.len() implies looked_up(
        after,
        (#[trigger] entries[j]).0,
    ) == Some(entries[j].1) by {
        let other = entries[j].0;
        assert(after[j - 1] == entries[j]);
        lemma_put_keeps_others(entries, capacity, key, value, other);
        lemma_find_key(entries, other);
    }
}

/// Filling an empty cache with items of distinct keys keeps them all while
/// they fit, and afterwards the most recent `capacity` of them: after
/// `capacity + 1` items the first is gone and all the others remain.
pub proof fn lemma_fill(capacity: nat, items: Entries)
    requires
        capacity >= 1,
        distinct_keys(items),
    ensures
        stored_all(Seq::empty(), capacity, items) == if items.len() <= capacity {
            items
        } else {
            items.skip(items.len() - capacity)
        },
    decreases items.len(),
{
    if items.len() > 0 {
        let init = items.drop_last();
        let last = items.last();
        assert forall|i: int, j: int|
            0 <= i < init.len() && 0 <= j < init.len() && i != j implies (#[trigger] init[i]).0
            != (#[trigger] init[j]).0 by {
        }
        lemma_fill(capacity, init);
        let held = stored_all(Seq::empty(), capacity, init);
        lemma_find_key(held, last.0);
    }
}

} // verus!
