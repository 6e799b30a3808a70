//! A map that keeps its keys in order.

use vstd::prelude::*;

verus! {

/// How one key stands to another.
#[derive(Debug, Clone, Copy, PartialEq, Eq, Structural)]
pub enum Order {
    /// The first key comes before the second.
    Before,
    /// The keys are equal.
    Same,
    /// The first key comes after the second.
    After,
}

/// A key with a strict total order.
pub trait Key: Sized {
    /// What the key stands for.
    type Value;

    /// The value of this key.
    spec fn value(&self) -> Self::Value;

    /// Whether `a` comes before `b`.
    spec fn before(a: Self::Value, b: Self::Value) -> bool;

    proof fn lemma_irreflexive(a: Self::Value)
        ensures
            !Self::before(a, a),
    ;

    proof fn lemma_transitive(a: Self::Value, b: Self::Value, c: Self::Value)
        requires
            Self::before(a, b),
            Self::before(b, c),
        ensures
            Self::before(a, c),
    ;

    /// Tells how this key stands to `other`.
    fn order(&self, other: &Self) -> (r: Order)
        ensures
            match r {
                Order::Before => Self::before(self.value(), other.value()),
                Order::Same => self.value() == other.value(),
                Order::After => Self::before(other.value(), self.value()),
            },
    ;

    /// Gives another key with the same value.
    fn duplicate(&self) -> (r: Self)
        ensures
            r.value() == self.value(),
    ;
}

/// Whether the keys of `entries` come in strictly ascending order.
pub open spec fn ascending<K: Key, V>(entries: Seq<(K, V)>) -> bool {
    forall|i: int, j: int|
        0 <= i < j < entries.len() ==> K::before(
            (#[trigger] entries[i]).0.value(),
            (#[trigger] entries[j]).0.value(),
        )
}

/// Whether `key` is the key at the position `i` of `entries`.
pub open spec fn key_at<K: Key, V>(entries: Seq<(K, V)>, key: K::Value, i: int) -> bool {
    0 <= i < entries.len() && entries[i].0.value() == key
}

/// The map that `entries` lists.
pub open spec fn listed<K: Key, V>(entries: Seq<(K, V)>) -> Map<K::Value, V> {
    Map::new(
        |key: K::Value| exists|i: int| key_at(entries, key, i),
        |key: K::Value| entries[choose|i: int| key_at(entries, key, i)].1,
    )
}

/// A map whose keys are in order.
///
/// Each key occurs once. The entries come in the order of their keys.
#[verifier::reject_recursive_types(K)]
#[verifier::reject_recursive_types(V)]
#[derive(Debug)]
pub struct SortedMap<K: Key, V> {
    entries: Vec<(K, V)>,
}

impl<K: Key, V> View for SortedMap<K, V> {
    type V = Map<K::Value, V>;

    closed spec fn view(&self) -> Map<K::Value, V> {
        listed(self.entries@)
    }
}

/// In an ascending list, the position of a key determines its value in the map.
proof fn lemma_listed_at<K: Key, V>(entries: Seq<(K, V)>, i: int)
    requires
        ascending(entries),
        0 <= i < entries.len(),
    ensures
        listed(entries).contains_key(entries[i].0.value()),
        listed(entries)[entries[i].0.value()] == entries[i].1,
{
    let key = entries[i].0.value();
    assert(key_at(entries, key, i));
    let j = choose|j: int| key_at(entries, key, j);
    assert(key_at(entries, key, j));
    if i != j {
        K::lemma_irreflexive(key);
        if i < j {
            assert(K::before(entries[i].0.value(), entries[j].0.value()));
        } else {
            assert(K::before(entries[j].0.value(), entries[i].0.value()));
        }
        assert(false);
    }
}

/// A key between two neighbours of an ascending list is not in the list.
proof fn lemma_absent_between<K: Key, V>(entries: Seq<(K, V)>, key: K::Value, at: int)
    requires
        ascending(entries),
        0 <= at <= entries.len(),
        at > 0 ==> K::before(entries[at - 1].0.value(), key),
        at < entries.len() ==> K::before(key, entries[at].0.value()),
    ensures
        !listed(entries).contains_key(key),
        forall|i: int| 0 <= i < at ==> K::before((#[trigger] entries[i]).0.value(), key),
        forall|i: int| at <= i < entries.len() ==> K::before(key, (#[trigger] entries[i]).0.value()),
{
    assert forall|i: int| 0 <= i < at implies K::before((#[trigger] entries[i]).0.value(), key) by {
        if i < at - 1 {
            K::lemma_transitive(entries[i].0.value(), entries[at - 1].0.value(), key);
        }
    }
    assert forall|i: int| at <= i < entries.len() implies K::before(
        key,
        (#[trigger] entries[i]).0.value(),
    ) by {
        if i > at {
            K::lemma_transitive(key, entries[at].0.value(), entries[i].0.value());
        }
    }
    if listed(entries).contains_key(key) {
        let i = choose|i: int| key_at(entries, key, i);
        assert(key_at(entries, key, i));
        K::lemma_irreflexive(key);
        if i < at {
            assert(K::before(entries[i].0.value(), key));
        } else {
            assert(K::before(key, entries[i].0.value()));
        }
        assert(false);
    }
}

impl<K: Key, V> SortedMap<K, V> {
    #[verifier::type_invariant]
    spec fn well_formed(self) -> bool {
        ascending(self.entries@)
    }

    /// The entries in the order of their keys.
    pub closed spec fn sequence(&self) -> Seq<(K, V)> {
        self.entries@
    }

    /// Creates a map without entries.
    pub fn new() -> (r: Self)
        ensures
            r@ == Map::<K::Value, V>::empty(),
    {
        let r = SortedMap { entries: Vec::new() };
        assert(r@ =~= Map::<K::Value, V>::empty()) by {
            assert(forall|key: K::Value, i: int| !key_at(r.entries@, key, i));
        }
        r
    }

    /// Finds the position of `key`, or the position where `key` belongs.
    fn find(&self, key: &K) -> (r: (bool, usize))
        ensures
            r.1 <= self.entries.len(),
            r.0 ==> r.1 < self.entries.len() && self.entries[r.1 as int].0.value() == key.value()
                && self@.contains_key(key.value()) && self@[key.value()] == self.entries[r.1 as int].1,
            !r.0 ==> !self@.contains_key(key.value()) && (forall|i: int|
                0 <= i < r.1 ==> K::before((#[trigger] self.entries[i]).0.value(), key.value()))
                && (forall|i: int|
                r.1 <= i < self.entries.len() ==> K::before(
                    key.value(),
                    (#[trigger] self.entries[i]).0.value(),
                )),
    {
        proof {
            use_type_invariant(self);
        }
        let mut low: usize = 0;
        let mut high: usize = self.entries.len();
        while low < high
            invariant
                low <= high <= self.entries.len(),
                ascending(self.entries@),
                low > 0 ==> K::before(self.entries[low - 1].0.value(), key.value()),
                high < self.entries.len() ==> K::before(
                    key.value(),
                    self.entries[high as int].0.value(),
                ),
            decreases high - low,
        {
            let middle: usize = low + (high - low) / 2;
            match self.entries[middle].0.order(key) {
                Order::Before => {
                    low = middle + 1;
                },
                Order::Same => {
                    proof {
                        lemma_listed_at(self.entries@, middle as int);
                    }
                    return (true, middle);
                },
                Order::After => {
                    high = middle;
                },
            }
        }
        proof {
            lemma_absent_between(self.entries@, key.value(), low as int);
        }
        (false, low)
    }

    /// Tells if the map has an entry for `key`.
    pub fn contains_key(&self, key: &K) -> (r: bool)
        ensures
            r == self@.contains_key(key.value()),
    {
        self.find(key).0
    }

    /// Gives the value for `key`.
    pub fn get(&self, key: &K) -> (r: Option<&V>)
        ensures
            match r {
                Some(v) => self@.contains_key(key.value()) && *v == self@[key.value()],
                None => !self@.contains_key(key.value()),
            },
    {
        let (found, at) = self.find(key);
        if found {
            Some(&self.entries[at].1)
        } else {
            None
        }
    }

    /// Sets the value for `key`.
    ///
    /// # Returns
    ///
    /// The previous value for `key`.
    pub fn insert(&mut self, key: K, value: V) -> (r: Option<V>)
        ensures
            final(self)@ == old(self)@.insert(key.value(), value),
            match r {
                Some(v) => old(self)@.contains_key(key.value()) && v == old(self)@[key.value()],
                None => !old(self)@.contains_key(key.value()),
            },
    {
        proof {
            use_type_invariant(&*self);
        }
        let (found, at) = self.find(&key);
        let ghost before = self.entries@;
        let ghost k = key.value();
        let mut entries: Vec<(K, V)> = Vec::new();
        std::mem::swap(&mut entries, &mut self.entries);
        let mut previous: Option<V> = None;
        if found {
            let (_, v) = entries.remove(at);
            previous = Some(v);
        }
        entries.insert(at, (key, value));
        proof {
            let after = entries@;
            if found {
                assert(after =~= before.update(at as int, (key, value)));
                assert(ascending(after)) by {
                    assert forall|i: int, j: int| 0 <= i < j < after.len() implies K::before(
                        (#[trigger] after[i]).0.value(),
                        (#[trigger] after[j]).0.value(),
                    ) by {
                        assert(K::before(before[i].0.value(), before[j].0.value()));
                    }
                }
            } else {
                assert(after =~= before.insert(at as int, (key, value)));
                assert(ascending(after)) by {
                    assert forall|i: int, j: int| 0 <= i < j < after.len() implies K::before(
                        (#[trigger] after[i]).0.value(),
                        (#[trigger] after[j]).0.value(),
                    ) by {
                        let i0 = if i < at { i } else { i - 1 };
                        let j0 = if j < at { j } else { j - 1 };
                        if i == at {
                            assert(K::before(k, before[j0].0.value()));
                        } else if j == at {
                            assert(K::before(before[i0].0.value(), k));
                        } else {
                            assert(K::before(before[i0].0.value(), before[j0].0.value()));
                        }
                    }
                }
            }
            lemma_insert_lists(before, after, k, value, at as int, found);
        }
        self.entries = entries;
        previous
    }

    /// Removes the entry for `key`.
    ///
    /// # Returns
    ///
    /// The value that the map had for `key`.
    pub fn remove(&mut self, key: &K) -> (r: Option<V>)
        ensures
            final(self)@ == old(self)@.remove(key.value()),
            match r {
                Some(v) => old(self)@.contains_key(key.value()) && v == old(self)@[key.value()],
                None => !old(self)@.contains_key(key.value()),
            },
    {
        proof {
            use_type_invariant(&*self);
        }
        let (found, at) = self.find(key);
        if !found {
            assert(self@ =~= self@.remove(key.value()));
            return None;
        }
        let ghost before = self.entries@;
        let ghost k = key.value();
        let mut entries: Vec<(K, V)> = Vec::new();
        std::mem::swap(&mut entries, &mut self.entries);
        let (_, v) = entries.remove(at);
        proof {
            let after = entries@;
            assert(after =~= before.remove(at as int));
            assert(ascending(after)) by {
                assert forall|i: int, j: int| 0 <= i < j < after.len() implies K::before(
                    (#[trigger] after[i]).0.value(),
                    (#[trigger] after[j]).0.value(),
                ) by {
                    let i0 = if i < at { i } else { i + 1 };
                    let j0 = if j < at { j } else { j + 1 };
                    assert(K::before(before[i0].0.value(), before[j0].0.value()));
                }
            }
            lemma_remove_lists(before, after, k, at as int);
        }
        self.entries = entries;
        Some(v)
    }

    /// Gives the number of entries.
    pub fn len(&self) -> (r: usize)
        ensures
            r == self.sequence().len(),
            r == self@.dom().len(),
            self@.dom().finite(),
    {
        proof {
            use_type_invariant(self);
            lemma_listed_len(self.entries@);
        }
        self.entries.len()
    }

    /// Gives the entry at the position `i` in the order of the keys.
    pub fn entry(&self, i: usize) -> (r: (&K, &V))
        requires
            i < self.sequence().len(),
        ensures
            *r.0 == self.sequence()[i as int].0,
            *r.1 == self.sequence()[i as int].1,
    {
        let e = &self.entries[i];
        (&e.0, &e.1)
    }

    /// The entries come in the order of their keys, and they are the entries of the map.
    pub fn reveal_order(&self)
        ensures
            ascending(self.sequence()),
            self@ == listed(self.sequence()),
            forall|i: int|
                0 <= i < self.sequence().len() ==> self@.contains_key(
                    (#[trigger] self.sequence()[i]).0.value(),
                ) && self@[self.sequence()[i].0.value()] == self.sequence()[i].1,
    {
        proof {
            use_type_invariant(self);
            assert forall|i: int| 0 <= i < self.sequence().len() implies self@.contains_key(
                (#[trigger] self.sequence()[i]).0.value(),
            ) && self@[self.sequence()[i].0.value()] == self.sequence()[i].1 by {
                lemma_listed_at(self.entries@, i);
            }
        }
    }
}

proof fn lemma_insert_lists<K: Key, V>(
    before: Seq<(K, V)>,
    after: Seq<(K, V)>,
    k: K::Value,
    value: V,
    at: int,
    found: bool,
)
    requires
        ascending(before),
        ascending(after),
        0 <= at < after.len(),
        after[at].0.value() == k,
        after[at].1 == value,
        found ==> after.len() == before.len() && before[at].0.value() == k && (forall|i: int|
            0 <= i < after.len() && i != at ==> #[trigger] after[i] == before[i]),
        !found ==> after.len() == before.len() + 1 && (forall|i: int|
            0 <= i < at ==> #[trigger] after[i] == before[i]) && (forall|i: int|
            at < i < after.len() ==> #[trigger] after[i] == before[i - 1]),
    ensures
        listed(after) == listed(before).insert(k, value),
{
    let old_map = listed(before);
    let new_map = listed(after);
    let wanted = old_map.insert(k, value);
    assert forall|x: K::Value| wanted.contains_key(x) implies #[trigger] new_map.contains_key(x)
        && new_map[x] == wanted[x] by {
        if x == k {
            lemma_listed_at(after, at);
        } else {
            let i = choose|i: int| key_at(before, x, i);
            assert(key_at(before, x, i));
            let j = if found || i < at { i } else { i + 1 };
            assert(after[j] == before[i]);
            lemma_listed_at(after, j);
            lemma_listed_at(before, i);
        }
    }
    assert forall|x: K::Value| #[trigger] new_map.contains_key(x) implies wanted.contains_key(x) by {
        let j = choose|j: int| key_at(after, x, j);
        assert(key_at(after, x, j));
        if j != at {
            let i = if found || j < at { j } else { j - 1 };
            assert(after[j] == before[i]);
            assert(key_at(before, x, i));
        }
    }
    assert(new_map =~= wanted);
}

proof fn lemma_remove_lists<K: Key, V>(
    before: Seq<(K, V)>,
    after: Seq<(K, V)>,
    k: K::Value,
    at: int,
)
    requires
        ascending(before),
        ascending(after),
        0 <= at < before.len(),
        before[at].0.value() == k,
        after =~= before.remove(at),
    ensures
        listed(after) == listed(before).remove(k),
{
    let old_map = listed(before);
    let new_map = listed(after);
    let wanted = old_map.remove(k);
    assert forall|x: K::Value| wanted.contains_key(x) implies #[trigger] new_map.contains_key(x)
        && new_map[x] == wanted[x] by {
        let i = choose|i: int| key_at(before, x, i);
        assert(key_at(before, x, i));
        let j = if i < at { i } else { i - 1 };
        assert(after[j] == before[i]);
        lemma_listed_at(after, j);
        lemma_listed_at(before, i);
    }
    assert forall|x: K::Value| #[trigger] new_map.contains_key(x) implies wanted.contains_key(x) by {
        let j = choose|j: int| key_at(after, x, j);
        assert(key_at(after, x, j));
        let i = if j < at { j } else { j + 1 };
        assert(after[j] == before[i]);
        assert(key_at(before, x, i));
        lemma_listed_at(before, i);
        if x == k {
            K::lemma_irreflexive(k);
            if i < at {
                assert(K::before(before[i].0.value(), before[at].0.value()));
            } else {
                assert(K::before(before[at].0.value(), before[i].0.value()));
            }
        }
    }
    assert(new_map =~= wanted);
}

/// The map that an ascending list gives has as many keys as the list has entries.
proof fn lemma_listed_len<K: Key, V>(entries: Seq<(K, V)>)
    requires
        ascending(entries),
    ensures
        listed(entries).dom().finite(),
        listed(entries).dom().len() == entries.len(),
{
    let keys = Seq::new(entries.len(), |i: int| entries[i].0.value());
    assert forall|i: int, j: int|
        0 <= i < keys.len() && 0 <= j < keys.len() && i != j implies keys[i] != keys[j] by {
        K::lemma_irreflexive(keys[i]);
        if i < j {
            assert(K::before(entries[i].0.value(), entries[j].0.value()));
        } else {
            assert(K::before(entries[j].0.value(), entries[i].0.value()));
        }
    }
    keys.unique_seq_to_set();
    assert forall|key: K::Value| keys.to_set().contains(key) <==> listed(entries).dom().contains(
        key,
    ) by {
        if keys.contains(key) {
            let i = choose|i: int| 0 <= i < keys.len() && keys[i] == key;
            assert(key_at(entries, key, i));
        }
        if listed(entries).dom().contains(key) {
            let i = choose|i: int| key_at(entries, key, i);
            assert(key_at(entries, key, i));
            assert(keys[i] == key);
        }
    }
    assert(keys.to_set() =~= listed(entries).dom());
}

impl Key for u64 {
    type Value = u64;

    open spec fn value(&self) -> u64 {
        *self
    }

    open spec fn before(a: u64, b: u64) -> bool {
        a < b
    }

    proof fn lemma_irreflexive(a: u64) {
    }

    proof fn lemma_transitive(a: u64, b: u64, c: u64) {
    }

    fn order(&self, other: &Self) -> (r: Order) {
        if *self < *other {
            Order::Before
        } else if *self == *other {
            Order::Same
        } else {
            Order::After
        }
    }

    fn duplicate(&self) -> (r: Self) {
        *self
    }
}

} // verus!
