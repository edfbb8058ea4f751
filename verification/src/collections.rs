//! Sets and maps that are kept in vectors.

use crate::net::SocketAddr;
use crate::types::{Destination, NextHop};
use vstd::prelude::*;

verus! {

/// A value by which the members of a set or the entries of a map are found.
pub trait Key: Copy {
    /// Whether two keys are the same.
    fn same(&self, other: &Self) -> (r: bool)
        ensures
            r == (*self == *other),
    ;
}

impl Key for u32 {
    fn same(&self, other: &u32) -> (r: bool) {
        *self == *other
    }
}

impl Key for Destination {
    fn same(&self, other: &Destination) -> (r: bool) {
        *self == *other
    }
}

impl Key for NextHop {
    fn same(&self, other: &NextHop) -> (r: bool) {
        *self == *other
    }
}

impl Key for SocketAddr {
    fn same(&self, other: &SocketAddr) -> (r: bool) {
        *self == *other
    }
}

impl Key for Option<SocketAddr> {
    fn same(&self, other: &Option<SocketAddr>) -> (r: bool) {
        match (*self, *other) {
            (None, None) => true,
            (Some(a), Some(b)) => a == b,
            _ => false,
        }
    }
}

/// A set.
#[derive(Debug)]
pub struct VecSet<K> {
    items: Vec<K>,
}

impl<K> View for VecSet<K> {
    type V = Set<K>;

    closed spec fn view(&self) -> Set<K> {
        self.items@.to_set()
    }
}

impl<K> VecSet<K> {
    /// No member is kept twice.
    pub closed spec fn wf(&self) -> bool {
        self.items@.no_duplicates()
    }

    /// Whether the set has members.
    pub open spec fn has_members(&self) -> bool {
        exists|k: K| self@.contains(k)
    }
}

impl<K: Key> VecSet<K> {
    /// The set without members.
    pub fn new() -> (set: Self)
        ensures
            set.wf(),
            set@ == Set::<K>::empty(),
    {
        let items: Vec<K> = Vec::new();
        assert(items@.to_set() =~= Set::<K>::empty());
        VecSet { items }
    }

    /// Where a member is kept.
    fn find(&self, key: &K) -> (r: Option<usize>)
        ensures
            match r {
                Some(i) => i < self.items@.len() && self.items@[i as int] == *key,
                None => !self@.contains(*key),
            },
    {
        for i in 0..self.items.len()
            invariant
                forall|j: int| 0 <= j < i ==> self.items@[j] != *key,
        {
            if self.items[i].same(key) {
                return Some(i);
            }
        }
        None
    }

    /// Whether `key` is in the set.
    pub fn contains(&self, key: &K) -> (r: bool)
        requires
            self.wf(),
        ensures
            r == self@.contains(*key),
    {
        match self.find(key) {
            Some(i) => {
                assert(self.items@.to_set().contains(self.items@[i as int]));
                true
            },
            None => false,
        }
    }

    /// Adds a member, and tells whether it was not there before.
    pub fn insert(&mut self, key: K) -> (new: bool)
        requires
            old(self).wf(),
        ensures
            final(self).wf(),
            final(self)@ == old(self)@.insert(key),
            new == !old(self)@.contains(key),
    {
        if self.contains(&key) {
            assert(self@.insert(key) =~= self@);
            false
        } else {
            let ghost before = self.items@;
            assert(!before.contains(key)) by {
                if before.contains(key) {
                    assert(before.to_set().contains(key));
                }
            }
            assert(before.push(key).no_duplicates());
            self.items.push(key);
            proof {
                before.lemma_push_to_set_commute(key);
            }
            true
        }
    }

    /// Takes a member out, and tells whether it was there.
    pub fn remove(&mut self, key: &K) -> (found: bool)
        requires
            old(self).wf(),
        ensures
            final(self).wf(),
            final(self)@ == old(self)@.remove(*key),
            found == old(self)@.contains(*key),
    {
        match self.find(key) {
            Some(i) => {
                let ghost before = self.items@;
                proof {
                    lemma_swap_removed(before, i as int);
                    assert(before.to_set().contains(*key));
                }
                self.items.swap_remove(i);
                true
            },
            None => {
                assert(self@.remove(*key) =~= self@);
                false
            },
        }
    }

    /// The number of members.
    pub fn len(&self) -> (len: usize)
        requires
            self.wf(),
        ensures
            self@.finite(),
            len == self@.len(),
    {
        proof {
            self.items@.unique_seq_to_set();
            vstd::seq_lib::seq_to_set_is_finite(self.items@);
        }
        self.items.len()
    }

    /// Whether there are no members.
    pub fn is_empty(&self) -> (r: bool)
        requires
            self.wf(),
        ensures
            r == !self.has_members(),
    {
        proof {
            if self.items@.len() > 0 {
                assert(self@.contains(self.items@[0]));
            }
        }
        self.items.len() == 0
    }

    /// Whether there is a member other than `key`.
    pub fn has_other(&self, key: &K) -> (r: bool)
        requires
            self.wf(),
        ensures
            r == exists|k: K| self@.contains(k) && k != *key,
    {
        for i in 0..self.items.len()
            invariant
                forall|j: int| 0 <= j < i ==> self.items@[j] == *key,
        {
            if !self.items[i].same(key) {
                proof {
                    let other = self.items@[i as int];
                    assert(self@.contains(other) && other != *key);
                }
                return true;
            }
        }
        false
    }

    /// The members, each once.
    pub fn to_vec(&self) -> (items: Vec<K>)
        requires
            self.wf(),
        ensures
            items@.no_duplicates(),
            items@.to_set() == self@,
    {
        let mut items: Vec<K> = Vec::new();
        for i in 0..self.items.len()
            invariant
                items@ == self.items@.take(i as int),
        {
            items.push(self.items[i]);
            assert(self.items@.take(i + 1) =~= self.items@.take(i as int).push(
                self.items@[i as int],
            ));
        }
        assert(self.items@.take(self.items@.len() as int) =~= self.items@);
        items
    }
}

/// What is left of a sequence without repetitions when the last item takes the
/// place of another.
proof fn lemma_swap_removed<T>(s: Seq<T>, i: int)
    requires
        s.no_duplicates(),
        0 <= i < s.len(),
    ensures
        s.update(i, s.last()).drop_last().no_duplicates(),
        s.update(i, s.last()).drop_last().to_set() == s.to_set().remove(s[i]),
{
    let t = s.update(i, s.last()).drop_last();
    assert forall|x: T| t.to_set().contains(x) == s.to_set().remove(s[i]).contains(x) by {
        if t.contains(x) {
            let j = choose|j: int| 0 <= j < t.len() && t[j] == x;
            if j == i {
                assert(s[s.len() - 1] == x);
            } else {
                assert(s[j] == x);
            }
        }
        if s.contains(x) && x != s[i] {
            let j = choose|j: int| 0 <= j < s.len() && s[j] == x;
            if j == s.len() - 1 {
                assert(t[i] == x);
            } else {
                assert(t[j] == x);
            }
        }
    }
    assert(t.to_set() =~= s.to_set().remove(s[i]));
}

/// What the first items of a sequence without repetitions are.
pub(crate) proof fn lemma_take_next<T>(s: Seq<T>, i: int)
    requires
        s.no_duplicates(),
        0 <= i < s.len(),
    ensures
        !s.take(i).contains(s[i]),
        forall|x: T|
            #![trigger s.take(i + 1).contains(x)]
            #![trigger s.take(i).contains(x)]
            s.take(i + 1).contains(x) == (s.take(i).contains(x) || x == s[i]),
{
    lemma_take_more(s, i);
}

/// What the first items of a sequence are.
pub(crate) proof fn lemma_take_more<T>(s: Seq<T>, i: int)
    requires
        0 <= i < s.len(),
    ensures
        forall|x: T|
            #![trigger s.take(i + 1).contains(x)]
            #![trigger s.take(i).contains(x)]
            s.take(i + 1).contains(x) == (s.take(i).contains(x) || x == s[i]),
{
    assert(s.take(i + 1) =~= s.take(i).push(s[i]));
    lemma_push_contains(s.take(i), s[i]);
}

/// What a sequence holds after an item was put at its end.
pub(crate) proof fn lemma_push_contains<T>(s: Seq<T>, item: T)
    ensures
        forall|x: T|
            #![trigger s.push(item).contains(x)]
            #![trigger s.contains(x)]
            s.push(item).contains(x) == (s.contains(x) || x == item),
        s.no_duplicates() && !s.contains(item) ==> s.push(item).no_duplicates(),
{
    assert forall|x: T|
        #![trigger s.push(item).contains(x)]
        #![trigger s.contains(x)]
        s.push(item).contains(x) == (s.contains(x) || x == item) by {
        if s.contains(x) {
            let j = choose|j: int| 0 <= j < s.len() && s[j] == x;
            assert(s.push(item)[j] == x);
        }
        if x == item {
            assert(s.push(item)[s.len() as int] == x);
        }
    }
}

/// Whether one of the entries has a key.
spec fn has_entry<K, V>(entries: Seq<(K, V)>, key: K) -> bool {
    exists|i: int| 0 <= i < entries.len() && #[trigger] entries[i].0 == key
}

/// Where the entry with a key is.
spec fn entry_index<K, V>(entries: Seq<(K, V)>, key: K) -> int {
    choose|i: int| 0 <= i < entries.len() && #[trigger] entries[i].0 == key
}

/// No two entries have the same key.
spec fn distinct_keys<K, V>(entries: Seq<(K, V)>) -> bool {
    forall|i: int, j: int|
        0 <= i < entries.len() && 0 <= j < entries.len() && i != j ==> #[trigger] entries[i].0
            != #[trigger] entries[j].0
}

/// The map that entries are.
spec fn entries_map<K, V>(entries: Seq<(K, V)>) -> Map<K, V> {
    Map::new(|k: K| has_entry(entries, k), |k: K| entries[entry_index(entries, k)].1)
}

/// A map.
#[derive(Debug)]
pub struct VecMap<K, V> {
    entries: Vec<(K, V)>,
}

impl<K, V> View for VecMap<K, V> {
    type V = Map<K, V>;

    closed spec fn view(&self) -> Map<K, V> {
        entries_map(self.entries@)
    }
}

impl<K, V> VecMap<K, V> {
    /// No key is kept twice.
    pub closed spec fn wf(&self) -> bool {
        distinct_keys(self.entries@)
    }

    /// Whether the map has entries.
    pub open spec fn has_entries(&self) -> bool {
        exists|k: K| self@.contains_key(k)
    }

    /// The keys, each once.
    pub closed spec fn key_seq(&self) -> Seq<K> {
        self.entries@.map_values(|e: (K, V)| e.0)
    }
}

/// What an entry says is what the map has for its key.
proof fn lemma_entry<K, V>(entries: Seq<(K, V)>, i: int)
    requires
        distinct_keys(entries),
        0 <= i < entries.len(),
    ensures
        entries_map(entries).contains_key(entries[i].0),
        entries_map(entries)[entries[i].0] == entries[i].1,
{
    let j = entry_index(entries, entries[i].0);
    assert(entries[i].0 == entries[i].0);
    assert(0 <= j < entries.len() && entries[j].0 == entries[i].0);
}

/// What is left of a map when the last entry takes the place of another.
proof fn lemma_entry_removed<K, V>(entries: Seq<(K, V)>, i: int)
    requires
        distinct_keys(entries),
        0 <= i < entries.len(),
    ensures
        distinct_keys(entries.update(i, entries.last()).drop_last()),
        entries_map(entries.update(i, entries.last()).drop_last()) == entries_map(entries).remove(
            entries[i].0,
        ),
{
    let after = entries.update(i, entries.last()).drop_last();
    let key = entries[i].0;
    let removed = entries_map(entries).remove(key);
    assert(distinct_keys(after));
    let left = entries_map(after);
    assert forall|k: K|
        #![trigger left.dom().contains(k)]
        #![trigger left[k]]
        #![trigger removed.dom().contains(k)]
        left.dom().contains(k) == removed.dom().contains(k) && (removed.dom().contains(k)
            ==> left[k] == removed[k]) by {
        if has_entry(after, k) {
            let j = entry_index(after, k);
            let origin = if j == i {
                entries.len() - 1
            } else {
                j
            };
            assert(entries[origin] == after[j]);
            lemma_entry(entries, origin);
            lemma_entry(after, j);
        }
        if removed.contains_key(k) {
            let j = entry_index(entries, k);
            let place = if j == entries.len() - 1 {
                i
            } else {
                j
            };
            assert(after[place] == entries[j]);
            lemma_entry(after, place);
        }
    }
    assert(left =~= removed);
}

/// What an entry with a new key adds to a map.
proof fn lemma_entry_added<K, V>(entries: Seq<(K, V)>, key: K, value: V)
    requires
        distinct_keys(entries),
        !has_entry(entries, key),
    ensures
        distinct_keys(entries.push((key, value))),
        entries_map(entries.push((key, value))) == entries_map(entries).insert(key, value),
{
    let after = entries.push((key, value));
    let goal = entries_map(entries).insert(key, value);
    assert(distinct_keys(after)) by {
        assert forall|i: int, j: int|
            0 <= i < after.len() && 0 <= j < after.len() && i != j implies #[trigger] after[i].0
            != #[trigger] after[j].0 by {
            if i < entries.len() {
                assert(entries[i] == after[i]);
            }
            if j < entries.len() {
                assert(entries[j] == after[j]);
            }
        }
    }
    let grown = entries_map(after);
    assert forall|k: K|
        #![trigger grown.dom().contains(k)]
        #![trigger grown[k]]
        #![trigger goal.dom().contains(k)]
        grown.dom().contains(k) == goal.dom().contains(k) && (goal.dom().contains(k) ==> grown[k]
            == goal[k]) by {
        if has_entry(after, k) {
            let j = entry_index(after, k);
            lemma_entry(after, j);
            if j < entries.len() {
                assert(entries[j] == after[j]);
                lemma_entry(entries, j);
            }
        }
        if goal.contains_key(k) {
            if k == key {
                lemma_entry(after, entries.len() as int);
            } else {
                let j = entry_index(entries, k);
                assert(after[j] == entries[j]);
                lemma_entry(after, j);
            }
        }
    }
    assert(grown =~= goal);
}

impl<K: Key, V> VecMap<K, V> {
    /// The map without entries.
    pub fn new() -> (map: Self)
        ensures
            map.wf(),
            map@ == Map::<K, V>::empty(),
    {
        let map = VecMap { entries: Vec::new() };
        assert(map@ =~= Map::<K, V>::empty());
        map
    }

    /// Where an entry is kept.
    fn find(&self, key: &K) -> (r: Option<usize>)
        ensures
            match r {
                Some(i) => i < self.entries@.len() && self.entries@[i as int].0 == *key,
                None => !has_entry(self.entries@, *key),
            },
    {
        for i in 0..self.entries.len()
            invariant
                forall|j: int| 0 <= j < i ==> (#[trigger] self.entries@[j]).0 != *key,
        {
            if self.entries[i].0.same(key) {
                return Some(i);
            }
        }
        None
    }

    /// Whether there is an entry for `key`.
    pub fn contains_key(&self, key: &K) -> (r: bool)
        requires
            self.wf(),
        ensures
            r == self@.contains_key(*key),
    {
        match self.find(key) {
            Some(i) => {
                proof {
                    lemma_entry(self.entries@, i as int);
                }
                true
            },
            None => false,
        }
    }

    /// The value for `key`.
    pub fn get(&self, key: &K) -> (r: Option<&V>)
        requires
            self.wf(),
        ensures
            match r {
                Some(value) => self@.contains_key(*key) && self@[*key] == *value,
                None => !self@.contains_key(*key),
            },
    {
        match self.find(key) {
            Some(i) => {
                proof {
                    lemma_entry(self.entries@, i as int);
                }
                Some(&self.entries[i].1)
            },
            None => None,
        }
    }

    /// Takes the entry for `key` out and returns its value.
    pub fn remove(&mut self, key: &K) -> (r: Option<V>)
        requires
            old(self).wf(),
        ensures
            final(self).wf(),
            final(self)@ == old(self)@.remove(*key),
            match r {
                Some(value) => old(self)@.contains_key(*key) && old(self)@[*key] == value,
                None => !old(self)@.contains_key(*key),
            },
    {
        match self.find(key) {
            Some(i) => {
                proof {
                    lemma_entry(self.entries@, i as int);
                    lemma_entry_removed(self.entries@, i as int);
                }
                let (_, value) = self.entries.swap_remove(i);
                Some(value)
            },
            None => {
                assert(self@.remove(*key) =~= self@);
                None
            },
        }
    }

    /// Sets the value for `key`.
    pub fn insert(&mut self, key: K, value: V)
        requires
            old(self).wf(),
        ensures
            final(self).wf(),
            final(self)@ == old(self)@.insert(key, value),
    {
        let ghost before = self@;
        self.remove(&key);
        proof {
            assert(!self@.contains_key(key));
            lemma_entry_added(self.entries@, key, value);
            assert(before.remove(key).insert(key, value) =~= before.insert(key, value));
        }
        self.entries.push((key, value));
    }

    /// The number of entries.
    pub fn len(&self) -> (len: usize)
        requires
            self.wf(),
        ensures
            len == self.key_seq().len(),
            self.key_seq().no_duplicates(),
            self.key_seq().to_set() == self@.dom(),
    {
        proof {
            lemma_keys(self.entries@);
        }
        self.entries.len()
    }

    /// Whether there are no entries.
    pub fn is_empty(&self) -> (r: bool)
        requires
            self.wf(),
        ensures
            r == !self.has_entries(),
    {
        proof {
            if self.entries@.len() > 0 {
                lemma_entry(self.entries@, 0);
                assert(self@.contains_key(self.entries@[0].0));
            }
        }
        self.entries.len() == 0
    }

    /// The entry at a position in the sequence of keys.
    pub fn entry(&self, i: usize) -> (r: (K, &V))
        requires
            self.wf(),
            i < self.key_seq().len(),
        ensures
            r.0 == self.key_seq()[i as int],
            self@.contains_key(r.0),
            *r.1 == self@[r.0],
    {
        proof {
            lemma_entry(self.entries@, i as int);
        }
        (self.entries[i].0, &self.entries[i].1)
    }

    /// The keys, each once.
    pub fn keys(&self) -> (keys: Vec<K>)
        requires
            self.wf(),
        ensures
            keys@ == self.key_seq(),
            keys@.no_duplicates(),
            keys@.to_set() == self@.dom(),
    {
        let mut keys: Vec<K> = Vec::new();
        for i in 0..self.entries.len()
            invariant
                keys@ == self.key_seq().take(i as int),
        {
            keys.push(self.entries[i].0);
            assert(self.key_seq().take(i + 1) =~= self.key_seq().take(i as int).push(
                self.key_seq()[i as int],
            ));
        }
        proof {
            assert(self.key_seq().take(self.entries@.len() as int) =~= self.key_seq());
            lemma_keys(self.entries@);
        }
        keys
    }
}

proof fn lemma_keys<K, V>(entries: Seq<(K, V)>)
    requires
        distinct_keys(entries),
    ensures
        entries.map_values(|e: (K, V)| e.0).no_duplicates(),
        entries.map_values(|e: (K, V)| e.0).to_set() == entries_map(entries).dom(),
{
    let keys = entries.map_values(|e: (K, V)| e.0);
    assert forall|k: K| keys.to_set().contains(k) == entries_map(entries).dom().contains(k) by {
        if keys.contains(k) {
            let i = choose|i: int| 0 <= i < keys.len() && keys[i] == k;
            assert(entries[i].0 == k);
        }
        if has_entry(entries, k) {
            let i = entry_index(entries, k);
            assert(keys[i] == k);
        }
    }
    assert(keys.to_set() =~= entries_map(entries).dom());
}

} // verus!
