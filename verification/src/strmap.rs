//! An ordered map from strings to values: the entries are kept in ascending
//! key order, so iteration visits keys as a `BTreeMap<String, V>` does.
use vstd::prelude::*;

use crate::text::{
    chars_of, lemma_str_lt_irreflexive, lemma_str_lt_total, lemma_str_lt_transitive, str_less,
    str_lt,
};

verus! {

/// Entries in strictly ascending key order.
#[derive(Debug)]
pub struct StrMap<V> {
    entries: Vec<(String, V)>,
}

/// Keys in strictly ascending order.
pub open spec fn ascending(keys: Seq<Seq<char>>) -> bool {
    forall|i: int, j: int| 0 <= i < j < keys.len() ==> str_lt(#[trigger] keys[i], #[trigger] keys[j])
}

/// The map that a list of distinct keys and their values describe.
pub open spec fn map_of<W>(keys: Seq<Seq<char>>, vals: Seq<W>) -> Map<Seq<char>, W> {
    Map::new(
        |k: Seq<char>| keys.contains(k),
        |k: Seq<char>| vals[choose|i: int| 0 <= i < keys.len() && keys[i] == k],
    )
}

/// Whether `a` sorts before `b` as strings.
pub fn string_less(a: &String, b: &String) -> (r: bool)
    ensures
        r == str_lt(a@, b@),
{
    let x = chars_of(a.as_str());
    let y = chars_of(b.as_str());
    str_less(&x, &y)
}

proof fn lemma_ascending_distinct(keys: Seq<Seq<char>>, i: int, j: int)
    requires
        ascending(keys),
        0 <= i < keys.len(),
        0 <= j < keys.len(),
        keys[i] == keys[j],
    ensures
        i == j,
{
    if i < j {
        assert(str_lt(keys[i], keys[j]));
        lemma_str_lt_irreflexive(keys[i]);
    } else if j < i {
        assert(str_lt(keys[j], keys[i]));
        lemma_str_lt_irreflexive(keys[i]);
    }
}

/// In a map described by ascending keys, each key maps to the value beside it.
pub proof fn lemma_map_of_at<W>(keys: Seq<Seq<char>>, vals: Seq<W>, i: int)
    requires
        ascending(keys),
        0 <= i < keys.len(),
    ensures
        map_of(keys, vals).contains_key(keys[i]),
        map_of(keys, vals)[keys[i]] == vals[i],
{
    assert(keys.contains(keys[i]));
    let j = choose|j: int| 0 <= j < keys.len() && keys[j] == keys[i];
    lemma_ascending_distinct(keys, i, j);
}

/// `i` is the first position whose value is `v`.
pub open spec fn first_with_value<W>(vals: Seq<W>, v: W, i: int) -> bool {
    &&& 0 <= i < vals.len()
    &&& vals[i] == v
    &&& forall|j: int| 0 <= j < i ==> vals[j] != v
}

/// The first key, in key order, whose value is `v`.
pub open spec fn first_key_with<W>(keys: Seq<Seq<char>>, vals: Seq<W>, v: W) -> Option<Seq<char>> {
    if exists|i: int| first_with_value(vals, v, i) {
        Some(keys[choose|i: int| first_with_value(vals, v, i)])
    } else {
        None
    }
}

/// The key that `first_key_with` picks is the least key whose value is `v`.
pub proof fn lemma_first_key_is_least<W>(keys: Seq<Seq<char>>, vals: Seq<W>, v: W)
    requires
        ascending(keys),
        keys.len() == vals.len(),
    ensures
        match first_key_with(keys, vals, v) {
            Some(k) => map_of(keys, vals).contains_key(k) && map_of(keys, vals)[k] == v && (
            forall|k2: Seq<char>|
                #![trigger map_of(keys, vals)[k2]]
                map_of(keys, vals).contains_key(k2) && map_of(keys, vals)[k2] == v ==> k2 == k
                    || str_lt(k, k2)),
            None => forall|k2: Seq<char>|
                #![trigger map_of(keys, vals)[k2]]
                map_of(keys, vals).contains_key(k2) ==> map_of(keys, vals)[k2] != v,
        },
{
    if exists|i: int| first_with_value(vals, v, i) {
        let i = choose|i: int| first_with_value(vals, v, i);
        lemma_map_of_at(keys, vals, i);
        assert forall|k2: Seq<char>|
            #![trigger map_of(keys, vals)[k2]]
            map_of(keys, vals).contains_key(k2) && map_of(keys, vals)[k2] == v implies k2
            == keys[i] || str_lt(keys[i], k2) by {
            let j = choose|j: int| 0 <= j < keys.len() && keys[j] == k2;
            lemma_map_of_at(keys, vals, j);
            if j < i {
                assert(vals[j] != v);
            } else if j > i {
                assert(str_lt(keys[i], keys[j]));
            }
        }
    } else {
        assert forall|k2: Seq<char>|
            #![trigger map_of(keys, vals)[k2]]
            map_of(keys, vals).contains_key(k2) implies map_of(keys, vals)[k2] != v by {
            let j = choose|j: int| 0 <= j < keys.len() && keys[j] == k2;
            lemma_map_of_at(keys, vals, j);
            if vals[j] == v {
                let m = least_index(vals, v, j);
                assert(first_with_value(vals, v, m));
            }
        }
    }
}

/// The first position at or before `j` whose value is `v`, given that `j` has it.
proof fn least_index<W>(vals: Seq<W>, v: W, j: int) -> (r: int)
    requires
        0 <= j < vals.len(),
        vals[j] == v,
    ensures
        first_with_value(vals, v, r),
    decreases j,
{
    if exists|k: int| 0 <= k < j && vals[k] == v {
        let k = choose|k: int| 0 <= k < j && vals[k] == v;
        least_index(vals, v, k)
    } else {
        j
    }
}

impl<V> StrMap<V> {
    #[verifier::type_invariant]
    spec fn sorted(self) -> bool {
        ascending(self.keys())
    }

    /// The keys, in ascending order.
    pub closed spec fn keys(self) -> Seq<Seq<char>> {
        self.entries@.map_values(|e: (String, V)| e.0@)
    }

    /// The values themselves, in the order of their keys.
    pub closed spec fn values(self) -> Seq<V> {
        self.entries@.map_values(|e: (String, V)| e.1)
    }
}

impl<V: DeepView> StrMap<V> {
    /// The values, in the order of their keys.
    pub closed spec fn vals(self) -> Seq<V::V> {
        self.entries@.map_values(|e: (String, V)| e.1.deep_view())
    }

    /// An empty map.
    pub fn new() -> (r: Self)
        ensures
            r@ == Map::<Seq<char>, V::V>::empty(),
            r.keys() == Seq::<Seq<char>>::empty(),
    {
        let r = StrMap { entries: Vec::new() };
        assert(r.keys() =~= Seq::<Seq<char>>::empty());
        assert(r@ =~= Map::<Seq<char>, V::V>::empty());
        r
    }

    /// The number of entries.
    pub fn len(&self) -> (r: usize)
        ensures
            r == self.keys().len(),
    {
        self.entries.len()
    }

    /// The keys are listed in ascending order, once each, and each stands beside
    /// its value.
    pub fn key_order(&self)
        ensures
            ascending(self.keys()),
            self.keys().len() == self.vals().len(),
            self.values().len() == self.keys().len(),
            forall|i: int|
                0 <= i < self.values().len() ==> #[trigger] self.vals()[i]
                    == self.values()[i].deep_view(),
            self@ == map_of(self.keys(), self.vals()),
    {
        proof {
            use_type_invariant(self);
        }
    }

    /// Index of `key` among the entries, if it is present.
    fn position(&self, key: &str) -> (r: Option<usize>)
        ensures
            match r {
                Some(i) => i < self.keys().len() && self.keys()[i as int] == key@,
                None => !self.keys().contains(key@),
            },
    {
        let mut i: usize = 0;
        while i < self.entries.len()
            invariant
                i <= self.entries@.len(),
                forall|j: int| 0 <= j < i ==> self.keys()[j] != key@,
            decreases self.entries.len() - i,
        {
            if crate::text::str_eq(self.entries[i].0.as_str(), key) {
                return Some(i);
            }
            i = i + 1;
        }
        None
    }

    /// The value stored under `key`.
    pub fn get(&self, key: &str) -> (r: Option<&V>)
        ensures
            match r {
                Some(v) => self@.contains_key(key@) && self@[key@] == v.deep_view(),
                None => !self@.contains_key(key@),
            },
    {
        proof {
            use_type_invariant(self);
        }
        match self.position(key) {
            Some(i) => {
                proof {
                    lemma_map_of_at(self.keys(), self.vals(), i as int);
                }
                Some(&self.entries[i].1)
            },
            None => None,
        }
    }

    /// Whether `key` is present.
    pub fn contains_key(&self, key: &str) -> (r: bool)
        ensures
            r == self@.contains_key(key@),
    {
        match self.position(key) {
            Some(_) => true,
            None => false,
        }
    }

    /// The key and value of the entry at `i` in ascending key order.
    pub fn entry(&self, i: usize) -> (r: (&String, &V))
        requires
            i < self.keys().len(),
        ensures
            r.0@ == self.keys()[i as int],
            r.1.deep_view() == self.vals()[i as int],
            *r.1 == self.values()[i as int],
    {
        (&self.entries[i].0, &self.entries[i].1)
    }

    /// Stores `value` under `key`, replacing what was there.
    pub fn insert(&mut self, key: String, value: V)
        ensures
            final(self)@ == old(self)@.insert(key@, value.deep_view()),
    {
        proof {
            use_type_invariant(&*self);
        }
        let ghost old_keys = self.keys();
        let ghost old_vals = self.vals();
        let ghost old_view = self@;
        let mut i: usize = 0;
        while i < self.entries.len() && string_less(&self.entries[i].0, &key)
            invariant
                i <= self.entries@.len(),
                old_keys == self.keys(),
                forall|j: int| 0 <= j < i ==> str_lt(#[trigger] old_keys[j], key@),
            decreases self.entries.len() - i,
        {
            i = i + 1;
        }
        let ghost k = key@;
        let ghost dv = value.deep_view();
        let mut entries: Vec<(String, V)> = Vec::new();
        std::mem::swap(&mut entries, &mut self.entries);
        assert(entries@.map_values(|e: (String, V)| e.0@) == old_keys);
        assert(entries@.map_values(|e: (String, V)| e.1.deep_view()) == old_vals);
        if i < entries.len() && entries[i].0 == key {
            entries.set(i, (key, value));
            let ghost new_keys = entries@.map_values(|e: (String, V)| e.0@);
            let ghost new_vals = entries@.map_values(|e: (String, V)| e.1.deep_view());
            assert(new_keys =~= old_keys);
            assert(new_vals =~= old_vals.update(i as int, dv));
            self.entries = entries;
            proof {
                assert(self.keys() == new_keys);
                assert(self.vals() == new_vals);
                assert forall|kk: Seq<char>| #[trigger]
                    self@.contains_key(kk) == old_view.insert(k, dv).contains_key(kk) by {
                    if kk == k {
                        assert(new_keys[i as int] == k);
                        assert(new_keys.contains(k));
                    }
                }
                assert forall|kk: Seq<char>| #[trigger] self@.contains_key(kk) implies self@[kk]
                    == old_view.insert(k, dv)[kk] by {
                    let j = choose|j: int| 0 <= j < new_keys.len() && new_keys[j] == kk;
                    lemma_map_of_at(new_keys, new_vals, j);
                    if j != i {
                        lemma_map_of_at(old_keys, old_vals, j);
                        if kk == k {
                            lemma_ascending_distinct(old_keys, i as int, j);
                        }
                    }
                }
                assert(self@ =~= old_view.insert(k, dv));
            }
        } else {
            proof {
                if i < old_keys.len() {
                    lemma_str_lt_total(old_keys[i as int], k);
                    assert(str_lt(k, old_keys[i as int]));
                    assert forall|j: int| i <= j < old_keys.len() implies str_lt(
                        k,
                        #[trigger] old_keys[j],
                    ) by {
                        if j > i {
                            lemma_str_lt_transitive(k, old_keys[i as int], old_keys[j]);
                        }
                    }
                }
                assert forall|j: int| 0 <= j < old_keys.len() implies old_keys[j] != k by {
                    if j < i {
                        lemma_str_lt_irreflexive(k);
                    } else {
                        lemma_str_lt_irreflexive(k);
                    }
                }
            }
            entries.insert(i, (key, value));
            let ghost new_keys = entries@.map_values(|e: (String, V)| e.0@);
            let ghost new_vals = entries@.map_values(|e: (String, V)| e.1.deep_view());
            assert(new_keys =~= old_keys.insert(i as int, k));
            assert(new_vals =~= old_vals.insert(i as int, dv));
            proof {
                assert forall|a: int, b: int| 0 <= a < b < new_keys.len() implies str_lt(
                    #[trigger] new_keys[a],
                    #[trigger] new_keys[b],
                ) by {
                    if b < i {
                    } else if b == i {
                    } else if a < i {
                        lemma_str_lt_transitive(new_keys[a], k, new_keys[b]);
                    } else if a == i {
                    } else {
                    }
                }
            }
            self.entries = entries;
            proof {
                assert(self.keys() == new_keys);
                assert(self.vals() == new_vals);
                assert forall|kk: Seq<char>| #[trigger]
                    self@.contains_key(kk) == old_view.insert(k, dv).contains_key(kk) by {
                    if kk == k {
                        assert(new_keys[i as int] == k);
                        assert(new_keys.contains(k));
                    } else if old_keys.contains(kk) {
                        let j = choose|j: int| 0 <= j < old_keys.len() && old_keys[j] == kk;
                        if j < i {
                            assert(new_keys[j] == kk);
                        } else {
                            assert(new_keys[j + 1] == kk);
                        }
                    }
                }
                assert forall|kk: Seq<char>| #[trigger] self@.contains_key(kk) implies self@[kk]
                    == old_view.insert(k, dv)[kk] by {
                    let j = choose|j: int| 0 <= j < new_keys.len() && new_keys[j] == kk;
                    lemma_map_of_at(new_keys, new_vals, j);
                    if j < i {
                        lemma_map_of_at(old_keys, old_vals, j);
                    } else if j > i {
                        lemma_map_of_at(old_keys, old_vals, j - 1);
                    }
                }
                assert(self@ =~= old_view.insert(k, dv));
            }
        }
    }
}

impl StrMap<String> {
    /// The first key, in ascending order, under which `value` is stored.
    pub fn first_key_with_value(&self, value: &str) -> (r: Option<&String>)
        ensures
            match first_key_with(self.keys(), self.vals(), value@) {
                Some(k) => r matches Some(s) && s@ == k,
                None => r is None,
            },
    {
        let ghost vals = self.vals();
        let mut i: usize = 0;
        while i < self.entries.len()
            invariant
                i <= self.entries@.len(),
                vals == self.vals(),
                forall|j: int| 0 <= j < i ==> vals[j] != value@,
            decreases self.entries.len() - i,
        {
            if crate::text::str_eq(self.entries[i].1.as_str(), value) {
                assert(first_with_value(vals, value@, i as int));
                let ghost c = choose|c: int| first_with_value(vals, value@, c);
                assert(c == i) by {
                    if c < i {
                        assert(vals[c] != value@);
                    } else if c > i {
                        assert(vals[i as int] != value@);
                    }
                }
                return Some(&self.entries[i].0);
            }
            assert(vals[i as int] == self.entries@[i as int].1@);
            i = i + 1;
        }
        None
    }
}

/// An entry of an activity map is live at `now` while it has no deadline or
/// its deadline lies after `now`.
pub open spec fn live_at(deadline: Option<u64>, now: u64) -> bool {
    match deadline {
        Some(d) => d > now,
        None => true,
    }
}

impl StrMap<Option<u64>> {
    /// Keeps only the entries that are live at `now`.
    pub fn retain_live(&mut self, now: u64)
        ensures
            final(self)@ == old(self)@.restrict(
                old(self)@.dom().filter(|k: Seq<char>| live_at(old(self)@[k], now)),
            ),
    {
        proof {
            use_type_invariant(&*self);
        }
        let ghost old_keys = self.keys();
        let ghost old_vals = self.vals();
        let ghost old_view = self@;
        let mut entries: Vec<(String, Option<u64>)> = Vec::new();
        std::mem::swap(&mut entries, &mut self.entries);
        assert(entries@.map_values(|e: (String, Option<u64>)| e.0@) == old_keys);
        assert(entries@.map_values(|e: (String, Option<u64>)| e.1.deep_view()) == old_vals);
        let mut kept: Vec<(String, Option<u64>)> = Vec::new();
        let ghost mut idx: Seq<int> = Seq::empty();
        let mut i: usize = 0;
        while i < entries.len()
            invariant
                i <= entries@.len(),
                entries@.map_values(|e: (String, Option<u64>)| e.0@) == old_keys,
                entries@.map_values(|e: (String, Option<u64>)| e.1.deep_view()) == old_vals,
                ascending(old_keys),
                idx.len() == kept@.len(),
                forall|a: int| 0 <= a < idx.len() ==> 0 <= #[trigger] idx[a] < i,
                forall|a: int, b: int| 0 <= a < b < idx.len() ==> #[trigger] idx[a] < #[trigger] idx[b],
                forall|a: int|
                    0 <= a < idx.len() ==> #[trigger] kept@[a] == entries@[idx[a]] && live_at(
                        entries@[idx[a]].1,
                        now,
                    ),
                forall|j: int|
                    0 <= j < i && live_at(#[trigger] entries@[j].1, now) ==> exists|a: int|
                        0 <= a < idx.len() && idx[a] == j,
            decreases entries.len() - i,
        {
            let live = match entries[i].1 {
                Some(d) => d > now,
                None => true,
            };
            let ghost old_idx = idx;
            let ghost old_kept = kept@;
            if live {
                let key = entries[i].0.clone();
                let value = entries[i].1;
                kept.push((key, value));
                proof {
                    idx = idx.push(i as int);
                    assert(kept@[idx.len() - 1] == entries@[i as int]);
                    assert(live_at(entries@[i as int].1, now));
                    assert(entries@[idx[idx.len() - 1]] == entries@[i as int]);
                    assert forall|a: int| 0 <= a < old_idx.len() implies idx[a] == old_idx[a]
                        && kept@[a] == old_kept[a] by {}
                }
            }
            proof {
                assert forall|a: int| 0 <= a < idx.len() implies #[trigger] kept@[a]
                    == entries@[idx[a]] && live_at(entries@[idx[a]].1, now) by {
                    if a < old_idx.len() {
                        assert(old_kept[a] == entries@[old_idx[a]]);
                    }
                }
                assert forall|j: int|
                    0 <= j < i + 1 && live_at(#[trigger] entries@[j].1, now) implies exists|a: int|
                    0 <= a < idx.len() && idx[a] == j by {
                    if j < i {
                        let a = choose|a: int| 0 <= a < old_idx.len() && old_idx[a] == j;
                        assert(idx[a] == j);
                    } else {
                        assert(idx[idx.len() - 1] == j);
                    }
                }
            }
            i = i + 1;
        }
        let ghost new_keys = kept@.map_values(|e: (String, Option<u64>)| e.0@);
        let ghost new_vals = kept@.map_values(|e: (String, Option<u64>)| e.1.deep_view());
        proof {
            assert forall|a: int, b: int| 0 <= a < b < new_keys.len() implies str_lt(
                #[trigger] new_keys[a],
                #[trigger] new_keys[b],
            ) by {
                assert(idx[a] < idx[b]);
                assert(new_keys[a] == old_keys[idx[a]]);
                assert(new_keys[b] == old_keys[idx[b]]);
            }
        }
        self.entries = kept;
        proof {
            assert(self.keys() == new_keys);
            assert(self.vals() == new_vals);
            let live_keys = old_view.dom().filter(|k: Seq<char>| live_at(old_view[k], now));
            assert forall|kk: Seq<char>| #[trigger]
                self@.contains_key(kk) == old_view.restrict(live_keys).contains_key(kk) by {
                if self@.contains_key(kk) {
                    let a = choose|a: int| 0 <= a < new_keys.len() && new_keys[a] == kk;
                    lemma_map_of_at(old_keys, old_vals, idx[a]);
                    assert(old_vals[idx[a]] == entries@[idx[a]].1);
                }
                if old_view.contains_key(kk) && live_at(old_view[kk], now) {
                    let j = choose|j: int| 0 <= j < old_keys.len() && old_keys[j] == kk;
                    lemma_map_of_at(old_keys, old_vals, j);
                    assert(old_vals[j] == entries@[j].1);
                    assert(live_at(entries@[j].1, now));
                    let a = choose|a: int| 0 <= a < idx.len() && idx[a] == j;
                    assert(new_keys[a] == kk);
                    assert(new_keys.contains(kk));
                }
            }
            assert forall|kk: Seq<char>| #[trigger] self@.contains_key(kk) implies self@[kk]
                == old_view.restrict(live_keys)[kk] by {
                let a = choose|a: int| 0 <= a < new_keys.len() && new_keys[a] == kk;
                lemma_map_of_at(new_keys, new_vals, a);
                lemma_map_of_at(old_keys, old_vals, idx[a]);
            }
            assert(self@ =~= old_view.restrict(live_keys));
        }
    }
}

impl<V: DeepView> StrMap<V> {
    /// The keys, in ascending order.
    pub fn key_list(&self) -> (r: Vec<String>)
        ensures
            r@.len() == self.keys().len(),
            forall|i: int| 0 <= i < r@.len() ==> #[trigger] r@[i]@ == self.keys()[i],
            forall|i: int, j: int|
                0 <= i < j < r@.len() ==> str_lt(#[trigger] r@[i]@, #[trigger] r@[j]@),
            forall|k: Seq<char>|
                #![trigger self@.contains_key(k)]
                self@.contains_key(k) <==> exists|i: int| 0 <= i < r@.len() && r@[i]@ == k,
    {
        proof {
            use_type_invariant(self);
        }
        let mut r: Vec<String> = Vec::new();
        let mut i: usize = 0;
        while i < self.entries.len()
            invariant
                i <= self.entries@.len(),
                r@.len() == i,
                forall|j: int| 0 <= j < i ==> #[trigger] r@[j]@ == self.keys()[j],
            decreases self.entries.len() - i,
        {
            r.push(self.entries[i].0.clone());
            i = i + 1;
        }
        assert forall|k: Seq<char>| #[trigger] self@.contains_key(k) <==> exists|i: int|
            0 <= i < r@.len() && r@[i]@ == k by {
            if self@.contains_key(k) {
                let i = choose|i: int| 0 <= i < self.keys().len() && self.keys()[i] == k;
                assert(r@[i]@ == k);
            }
            if exists|i: int| 0 <= i < r@.len() && r@[i]@ == k {
                let i = choose|i: int| 0 <= i < r@.len() && r@[i]@ == k;
                assert(self.keys()[i] == k);
                assert(self.keys().contains(k));
            }
        }
        r
    }
}

impl<V: Clone> Clone for StrMap<V> {
    /// A copy with the same keys in the same order; each value is cloned.
    fn clone(&self) -> (r: Self)
        ensures
            r.keys() == self.keys(),
            r.values().len() == self.values().len(),
            forall|i: int|
                0 <= i < self.values().len() ==> cloned::<V>(
                    self.values()[i],
                    #[trigger] r.values()[i],
                ),
    {
        proof {
            use_type_invariant(self);
        }
        let mut entries: Vec<(String, V)> = Vec::new();
        let mut i: usize = 0;
        while i < self.entries.len()
            invariant
                i <= self.entries@.len(),
                entries@.len() == i,
                entries@.map_values(|e: (String, V)| e.0@) == self.keys().take(i as int),
                forall|j: int|
                    0 <= j < i ==> cloned::<V>(self.entries@[j].1, #[trigger] entries@[j].1),
            decreases self.entries.len() - i,
        {
            let key = self.entries[i].0.clone();
            assert(key@ == self.keys()[i as int]);
            let value = self.entries[i].1.clone();
            assert(cloned::<V>(self.entries@[i as int].1, value));
            let ghost before = entries@;
            entries.push((key, value));
            assert forall|j: int| 0 <= j < i + 1 implies cloned::<V>(
                self.entries@[j].1,
                #[trigger] entries@[j].1,
            ) by {
                if j < i {
                    assert(entries@[j] == before[j]);
                }
            }
            assert(entries@[i as int].0@ == self.keys()[i as int]);
            assert forall|j: int| 0 <= j < i implies entries@[j].0@ == self.keys()[j] by {
                assert(entries@[j] == before[j]);
                assert(before.map_values(|e: (String, V)| e.0@)[j] == self.keys().take(
                    i as int,
                )[j]);
            }
            i = i + 1;
            assert(entries@.map_values(|e: (String, V)| e.0@) =~= self.keys().take(i as int));
        }
        assert(self.keys().take(self.entries@.len() as int) =~= self.keys());
        let r = StrMap { entries };
        assert forall|i: int| 0 <= i < self.values().len() implies cloned::<V>(
            self.values()[i],
            #[trigger] r.values()[i],
        ) by {
            assert(self.values()[i] == self.entries@[i].1);
            assert(r.values()[i] == r.entries@[i].1);
        }
        r
    }
}

impl<V: DeepView> View for StrMap<V> {
    type V = Map<Seq<char>, V::V>;

    closed spec fn view(&self) -> Map<Seq<char>, V::V> {
        map_of(self.keys(), self.vals())
    }
}

} // verus!
