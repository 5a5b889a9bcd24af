//! A map keyed by strings, kept in key order.

use vstd::prelude::*;

use crate::text::{
    lemma_seq_lt_irreflexive, lemma_seq_lt_total, lemma_seq_lt_transitive, seq_lt, str_eq, str_lt,
};

verus! {

/// A map keyed by strings, kept in key order (the order of `String`'s `Ord`)
/// with each key once, as a `BTreeMap<String, V>` keeps it.
pub struct StrMap<V> {
    entries: Vec<(String, V)>,
}

impl<V> StrMap<V> {
    #[verifier::type_invariant]
    spec fn sorted(self) -> bool {
        forall|i: int, j: int|
            0 <= i < j < self.entries@.len() ==> seq_lt(
                #[trigger] self.entries@[i].0@,
                #[trigger] self.entries@[j].0@,
            )
    }

    /// The keys, in increasing order.
    pub closed spec fn keys(self) -> Seq<Seq<char>> {
        self.entries@.map_values(|e: (String, V)| e.0@)
    }

    /// The entries, in key order.
    pub closed spec fn values(self) -> Seq<V> {
        self.entries@.map_values(|e: (String, V)| e.1)
    }

    pub open spec fn has_key(self, k: Seq<char>) -> bool {
        self.keys().contains(k)
    }

    /// The table as a map from key to entry.
    pub open spec fn as_map(self) -> Map<Seq<char>, V> {
        Map::new(
            |k: Seq<char>| self.has_key(k),
            |k: Seq<char>| self.values()[self.keys().index_of(k)],
        )
    }

    /// Every map the operations below hand out or leave behind is well
    /// formed: its keys strictly increasing.
    pub closed spec fn well_formed(self) -> bool {
        self.sorted()
    }

    /// What a well-formed map's keys and entries are: strictly increasing
    /// keys, each once, one entry per key, and the entry at each position is
    /// the one the map gives for that position's key.
    pub proof fn lemma_well_formed(self)
        requires
            self.well_formed(),
        ensures
            self.keys().len() == self.values().len(),
            forall|i: int, j: int|
                0 <= i < j < self.keys().len() ==> seq_lt(
                    #[trigger] self.keys()[i],
                    #[trigger] self.keys()[j],
                ),
            self.keys().no_duplicates(),
            forall|i: int| 0 <= i < self.keys().len() ==> #[trigger] self.as_map()[self.keys()[i]] == self.values()[i],
            self.as_map().dom() == self.keys().to_set(),
            self.as_map().dom().finite(),
            self.as_map().dom().len() == self.keys().len(),
    {
        self.lemma_keys_sorted();
        assert forall|i: int| 0 <= i < self.keys().len() implies #[trigger] self.as_map()[self.keys()[i]]
            == self.values()[i] by {
            self.keys().index_of_first_ensures(self.keys()[i]);
            let j = self.keys().index_of(self.keys()[i]);
            assert(j == i);
        }
        assert(self.as_map().dom() =~= self.keys().to_set());
        self.keys().unique_seq_to_set();
    }

    /// Keys are strictly increasing, so each occurs once.
    proof fn lemma_keys_sorted(self)
        requires
            self.sorted(),
        ensures
            self.keys().len() == self.values().len(),
            forall|i: int, j: int|
                0 <= i < j < self.keys().len() ==> seq_lt(
                    #[trigger] self.keys()[i],
                    #[trigger] self.keys()[j],
                ),
            self.keys().no_duplicates(),
    {
        assert forall|i: int, j: int| 0 <= i < j < self.keys().len() implies seq_lt(
            #[trigger] self.keys()[i],
            #[trigger] self.keys()[j],
        ) by {
            assert(self.keys()[i] == self.entries@[i].0@);
            assert(self.keys()[j] == self.entries@[j].0@);
        }
        assert forall|i: int, j: int|
            0 <= i < self.keys().len() && 0 <= j < self.keys().len() && i != j implies self.keys()[i]
            != self.keys()[j] by {
            if i < j {
                assert(seq_lt(self.keys()[i], self.keys()[j]));
                lemma_seq_lt_irreflexive(self.keys()[i]);
            } else {
                assert(seq_lt(self.keys()[j], self.keys()[i]));
                lemma_seq_lt_irreflexive(self.keys()[j]);
            }
        }
    }

    /// Two well-formed maps with the same keys list them in the same order:
    /// the order is the keys' own, not the order they were inserted in.
    pub proof fn lemma_keys_determined(self, other: StrMap<V>)
        requires
            self.well_formed(),
            other.well_formed(),
            self.as_map().dom() == other.as_map().dom(),
        ensures
            self.keys() == other.keys(),
    {
        self.lemma_well_formed();
        other.lemma_well_formed();
        self.lemma_prefix_agrees(other, self.keys().len() as int);
        assert(self.keys() =~= other.keys());
    }

    proof fn lemma_prefix_agrees(self, other: StrMap<V>, n: int)
        requires
            self.well_formed(),
            other.well_formed(),
            self.as_map().dom() == other.as_map().dom(),
            0 <= n <= self.keys().len(),
        ensures
            self.keys().len() == other.keys().len(),
            forall|k: int| 0 <= k < n ==> #[trigger] self.keys()[k] == other.keys()[k],
        decreases n,
    {
        self.lemma_well_formed();
        other.lemma_well_formed();
        if n > 0 {
            self.lemma_prefix_agrees(other, n - 1);
            let i = n - 1;
            let x = self.keys()[i];
            let y = other.keys()[i];
            if x != y {
                lemma_seq_lt_total(x, y);
                if seq_lt(x, y) {
                    assert(self.keys().to_set().contains(x));
                    assert(other.keys().to_set().contains(x));
                    let j = choose|j: int| 0 <= j < other.keys().len() && other.keys()[j] == x;
                    if j < i {
                        assert(self.keys()[j] == other.keys()[j]);
                        assert(seq_lt(self.keys()[j], self.keys()[i]));
                        lemma_seq_lt_irreflexive(x);
                    } else {
                        assert(j != i);
                        assert(seq_lt(other.keys()[i], other.keys()[j]));
                        lemma_seq_lt_transitive(x, y, x);
                        lemma_seq_lt_irreflexive(x);
                    }
                } else {
                    assert(other.keys().to_set().contains(y));
                    assert(self.keys().to_set().contains(y));
                    let j = choose|j: int| 0 <= j < self.keys().len() && self.keys()[j] == y;
                    if j < i {
                        assert(self.keys()[j] == other.keys()[j]);
                        assert(seq_lt(other.keys()[j], other.keys()[i]));
                        lemma_seq_lt_irreflexive(y);
                    } else {
                        assert(j != i);
                        assert(seq_lt(self.keys()[i], self.keys()[j]));
                        lemma_seq_lt_transitive(y, x, y);
                        lemma_seq_lt_irreflexive(y);
                    }
                }
            }
        }
    }

    pub fn new() -> (res: StrMap<V>)
        ensures
            res.keys().len() == 0,
            res.values().len() == 0,
            res.well_formed(),
    {
        let r = StrMap { entries: Vec::new() };
        assert(r.keys() =~= Seq::<Seq<char>>::empty());
        assert(r.values() =~= Seq::<V>::empty());
        r
    }

    pub fn len(&self) -> (n: usize)
        ensures
            n == self.keys().len(),
            n == self.values().len(),
            self.well_formed(),
    {
        proof {
            use_type_invariant(self);
        }
        self.entries.len()
    }

    pub fn is_empty(&self) -> (res: bool)
        ensures
            res == (self.keys().len() == 0),
            self.well_formed(),
    {
        proof {
            use_type_invariant(self);
        }
        self.entries.len() == 0
    }

    /// The key and entry at position `i` in key order.
    pub fn entry_at(&self, i: usize) -> (res: (&String, &V))
        requires
            i < self.keys().len(),
        ensures
            res.0@ == self.keys()[i as int],
            *res.1 == self.values()[i as int],
            self.as_map().dom().contains(res.0@),
            self.as_map()[res.0@] == *res.1,
            forall|j: int| 0 <= j < i ==> #[trigger] seq_lt(self.keys()[j], res.0@),
            self.well_formed(),
    {
        proof {
            use_type_invariant(self);
            self.lemma_keys_sorted();
            self.keys().index_of_first_ensures(self.keys()[i as int]);
        }
        let e = &self.entries[i];
        (&e.0, &e.1)
    }

    /// Where `k` is, or where it would go.
    fn find(&self, k: &str) -> (res: (usize, bool))
        ensures
            res.0 <= self.keys().len(),
            res.1 ==> res.0 < self.keys().len() && self.keys()[res.0 as int] == k@,
            forall|i: int| 0 <= i < res.0 ==> seq_lt(#[trigger] self.keys()[i], k@),
            !res.1 ==> forall|i: int|
                res.0 <= i < self.keys().len() ==> seq_lt(k@, #[trigger] self.keys()[i]),
    {
        proof {
            use_type_invariant(self);
            self.lemma_keys_sorted();
        }
        let mut i: usize = 0;
        while i < self.entries.len()
            invariant
                i <= self.entries@.len(),
                self.keys().len() == self.entries@.len(),
                forall|a: int, b: int|
                    0 <= a < b < self.keys().len() ==> seq_lt(
                        #[trigger] self.keys()[a],
                        #[trigger] self.keys()[b],
                    ),
                forall|j: int| 0 <= j < i ==> seq_lt(#[trigger] self.keys()[j], k@),
            decreases self.entries@.len() - i,
        {
            assert(self.keys()[i as int] == self.entries@[i as int].0@);
            if !str_lt(self.entries[i].0.as_str(), k) {
                let eq = str_eq(self.entries[i].0.as_str(), k);
                proof {
                    if !eq {
                        lemma_seq_lt_total(self.keys()[i as int], k@);
                        assert forall|j: int| i <= j < self.keys().len() implies seq_lt(
                            k@,
                            #[trigger] self.keys()[j],
                        ) by {
                            if j > i {
                                assert(seq_lt(self.keys()[i as int], self.keys()[j]));
                                lemma_seq_lt_transitive(k@, self.keys()[i as int], self.keys()[j]);
                            }
                        }
                    }
                }
                return (i, eq);
            }
            i = i + 1;
        }
        (i, false)
    }

    /// Whether `k` has an entry.
    pub fn contains_key(&self, k: &str) -> (res: bool)
        ensures
            res == self.has_key(k@),
            self.well_formed(),
    {
        proof {
            use_type_invariant(self);
        }
        let (i, found) = self.find(k);
        proof {
            if !found && self.has_key(k@) {
                let j = choose|j: int| 0 <= j < self.keys().len() && self.keys()[j] == k@;
                lemma_seq_lt_irreflexive(k@);
                if j < i {
                    assert(seq_lt(self.keys()[j], k@));
                } else {
                    assert(seq_lt(k@, self.keys()[j]));
                }
            }
        }
        found
    }

    /// The entry for `k`, if any.
    pub fn get(&self, k: &str) -> (res: Option<&V>)
        ensures
            res is Some <==> self.has_key(k@),
            res matches Some(e) ==> *e == self.as_map()[k@],
            self.well_formed(),
    {
        let (i, found) = self.find(k);
        proof {
            use_type_invariant(self);
            self.lemma_keys_sorted();
            if !found && self.has_key(k@) {
                let j = choose|j: int| 0 <= j < self.keys().len() && self.keys()[j] == k@;
                lemma_seq_lt_irreflexive(k@);
                if j < i {
                    assert(seq_lt(self.keys()[j], k@));
                } else {
                    assert(seq_lt(k@, self.keys()[j]));
                }
            }
            if found {
                self.keys().index_of_first_ensures(k@);
                assert(self.keys().index_of(k@) == i);
            }
        }
        if found {
            Some(&self.entries[i].1)
        } else {
            None
        }
    }

    /// Sets the entry for `k`, returning the one it replaces.
    pub fn insert(&mut self, k: String, v: V) -> (res: Option<V>)
        ensures
            final(self).as_map() == old(self).as_map().insert(k@, v),
            res is Some <==> old(self).has_key(k@),
            res matches Some(o) ==> o == old(self).as_map()[k@],
            final(self).well_formed(),
    {
        proof {
            use_type_invariant(&*self);
            self.lemma_keys_sorted();
        }
        let (i, found) = self.find(k.as_str());
        let ghost old_keys = self.keys();
        let ghost old_values = self.values();
        if found {
            let ghost kk = k@;
            let mut entries = Vec::new();
            std::mem::swap(&mut entries, &mut self.entries);
            let old_entry = entries.remove(i);
            entries.insert(i, (k, v));
            proof {
                assert forall|a: int, b: int| 0 <= a < b < entries@.len() implies seq_lt(
                    #[trigger] entries@[a].0@,
                    #[trigger] entries@[b].0@,
                ) by {
                    assert(entries@[a].0@ == old_keys[a]);
                    assert(entries@[b].0@ == old_keys[b]);
                }
            }
            self.entries = entries;
            proof {
                assert(self.keys() =~= old_keys);
                assert(self.values() =~= old_values.update(i as int, v));
                old_keys.index_of_first_ensures(kk);
                assert(old_keys.index_of(kk) == i);
                assert(old_entry.1 == old_values[i as int]);
                assert forall|q: Seq<char>| #[trigger] self.has_key(q) implies self.as_map()[q]
                    == old(self).as_map().insert(kk, v)[q] by {
                    let j = self.keys().index_of(q);
                    self.keys().index_of_first_ensures(q);
                    old_keys.index_of_first_ensures(q);
                }
                assert(self.as_map() =~= old(self).as_map().insert(kk, v));
            }
            proof {
                use_type_invariant(&*self);
            }
            Some(old_entry.1)
        } else {
            let ghost kk = k@;
            let mut entries = Vec::new();
            std::mem::swap(&mut entries, &mut self.entries);
            entries.insert(i, (k, v));
            proof {
                assert forall|a: int, b: int| 0 <= a < b < entries@.len() implies seq_lt(
                    #[trigger] entries@[a].0@,
                    #[trigger] entries@[b].0@,
                ) by {
                    let oa = if a < i { a } else if a == i { -1 } else { a - 1 };
                    let ob = if b < i { b } else if b == i { -1 } else { b - 1 };
                    assert(old_keys.len() == entries@.len() - 1);
                    if a != i && b != i {
                        assert(entries@[a].0@ == old_keys[oa]);
                        assert(entries@[b].0@ == old_keys[ob]);
                    } else if a == i {
                        assert(entries@[b].0@ == old_keys[ob]);
                    } else {
                        assert(entries@[a].0@ == old_keys[oa]);
                    }
                }
            }
            self.entries = entries;
            proof {
                assert(self.keys() =~= old_keys.insert(i as int, kk));
                assert(self.values() =~= old_values.insert(i as int, v));
                assert(!old_keys.contains(kk)) by {
                    if old_keys.contains(kk) {
                        let j = choose|j: int| 0 <= j < old_keys.len() && old_keys[j] == kk;
                        lemma_seq_lt_irreflexive(kk);
                        if j < i {
                            assert(seq_lt(old_keys[j], kk));
                        } else {
                            assert(seq_lt(kk, old_keys[j]));
                        }
                    }
                }
                assert forall|q: Seq<char>| #[trigger] self.has_key(q) implies self.as_map()[q]
                    == old(self).as_map().insert(kk, v)[q] by {
                    self.keys().index_of_first_ensures(q);
                    let j = self.keys().index_of(q);
                    if q != kk {
                        assert(j != i);
                        let oj = if j < i { j } else { j - 1 };
                        assert(old_keys[oj] == q);
                        old_keys.index_of_first_ensures(q);
                        assert(old_keys.index_of(q) == oj);
                    }
                }
                assert forall|q: Seq<char>|
                    old(self).as_map().insert(kk, v).dom().contains(q) implies self.has_key(q) by {
                    if q != kk {
                        assert(old_keys.contains(q));
                        let j = choose|j: int| 0 <= j < old_keys.len() && old_keys[j] == q;
                        let nj = if j < i { j } else { j + 1 };
                        assert(self.keys()[nj] == q);
                    } else {
                        assert(self.keys()[i as int] == kk);
                    }
                }
                assert(self.as_map() =~= old(self).as_map().insert(kk, v));
                use_type_invariant(&*self);
            }
            None
        }
    }
}


} // verus!

verus! {

/// After an insert, the key reads back the inserted value, and every other
/// key reads back what it held before.
pub proof fn law_read_after_write<V>(before: StrMap<V>, after: StrMap<V>, k: Seq<char>, v: V, q: Seq<char>)
    requires
        after.as_map() == before.as_map().insert(k, v),
    ensures
        after.as_map().dom().contains(k),
        after.as_map()[k] == v,
        q != k ==> (after.as_map().dom().contains(q) == before.as_map().dom().contains(q)),
        q != k && before.as_map().dom().contains(q) ==> after.as_map()[q] == before.as_map()[q],
{
}

} // verus!

