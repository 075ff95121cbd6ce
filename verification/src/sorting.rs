//! Stable sorting by a string key, as `sort` and `sort_by` on strings do.
use vstd::prelude::*;

use crate::model::{Device, DeviceView};
use crate::text::{
    chars_of, lemma_str_lt_asymmetric, lemma_str_lt_total, lemma_str_lt_transitive, str_less, str_lt,
};

verus! {

/// `x` placed into `s` after every element whose key is not greater than its
/// own; into a sorted `s` this keeps `s` sorted and equal keys in arrival order.
pub open spec fn insert_by_key<T>(s: Seq<T>, x: T, key: spec_fn(T) -> Seq<char>) -> Seq<T>
    decreases s.len(),
{
    if s.len() == 0 || !str_lt(key(x), key(s.last())) {
        s.push(x)
    } else {
        insert_by_key(s.drop_last(), x, key).push(s.last())
    }
}

/// The stable sort of `s` by `key`.
pub open spec fn sort_by_key<T>(s: Seq<T>, key: spec_fn(T) -> Seq<char>) -> Seq<T>
    decreases s.len(),
{
    if s.len() == 0 {
        s
    } else {
        insert_by_key(sort_by_key(s.drop_last(), key), s.last(), key)
    }
}

/// Whether `a` sorts strictly before `b`.
fn chars_before(a: &Vec<char>, b: &str) -> (r: bool)
    ensures
        r == str_lt(a@, b@),
{
    let bc = chars_of(b);
    str_less(a, &bc)
}

pub open spec fn string_views(v: Seq<String>) -> Seq<Seq<char>> {
    v.map_values(|s: String| s@)
}

pub open spec fn device_views(v: Seq<Device>) -> Seq<DeviceView> {
    v.map_values(|d: Device| d@)
}

pub open spec fn identity_key() -> spec_fn(Seq<char>) -> Seq<char> {
    |s: Seq<char>| s
}

pub open spec fn id_key() -> spec_fn(DeviceView) -> Seq<char> {
    |d: DeviceView| d.id
}

/// Inserting at the first position after which every key is greater.
proof fn lemma_insert_by_key_at<T>(s: Seq<T>, x: T, key: spec_fn(T) -> Seq<char>, p: int)
    requires
        0 <= p <= s.len(),
        forall|j: int| p <= j < s.len() ==> str_lt(key(x), key(#[trigger] s[j])),
        p == 0 || !str_lt(key(x), key(s[p - 1])),
    ensures
        insert_by_key(s, x, key) == s.take(p).push(x) + s.skip(p),
    decreases s.len(),
{
    if p == s.len() {
        assert(s.take(p).push(x) + s.skip(p) =~= s.push(x));
    } else {
        assert(str_lt(key(x), key(s[s.len() - 1])));
        let t = s.drop_last();
        assert forall|j: int| p <= j < t.len() implies str_lt(key(x), key(#[trigger] t[j])) by {
            assert(t[j] == s[j]);
        }
        lemma_insert_by_key_at(t, x, key, p);
        assert(t.take(p).push(x) + t.skip(p) + seq![s.last()] =~= s.take(p).push(x) + s.skip(p));
    }
}

/// No element's key sorts before the key of an element ahead of it.
pub open spec fn sorted_by_key<T>(s: Seq<T>, key: spec_fn(T) -> Seq<char>) -> bool {
    forall|i: int, j: int|
        #![trigger s[i], s[j]]
        0 <= i < j < s.len() ==> !str_lt(key(s[j]), key(s[i]))
}

/// Where `insert_by_key` places `x`: after the last element whose key is not
/// greater than its own.
spec fn insert_pos<T>(s: Seq<T>, x: T, key: spec_fn(T) -> Seq<char>) -> int
    decreases s.len(),
{
    if s.len() == 0 || !str_lt(key(x), key(s.last())) {
        s.len() as int
    } else {
        insert_pos(s.drop_last(), x, key)
    }
}

proof fn lemma_insert_pos<T>(s: Seq<T>, x: T, key: spec_fn(T) -> Seq<char>)
    ensures
        0 <= insert_pos(s, x, key) <= s.len(),
        forall|j: int|
            insert_pos(s, x, key) <= j < s.len() ==> str_lt(key(x), key(#[trigger] s[j])),
        insert_pos(s, x, key) == 0 || !str_lt(key(x), key(s[insert_pos(s, x, key) - 1])),
    decreases s.len(),
{
    if s.len() > 0 && str_lt(key(x), key(s.last())) {
        let t = s.drop_last();
        lemma_insert_pos(t, x, key);
        let p = insert_pos(t, x, key);
        assert forall|j: int| p <= j < s.len() implies str_lt(key(x), key(#[trigger] s[j])) by {
            if j < t.len() {
                assert(t[j] == s[j]);
            }
        }
        if p > 0 {
            assert(t[p - 1] == s[p - 1]);
        }
    }
}

/// Inserting into a sorted sequence keeps it sorted and adds exactly `x`.
proof fn lemma_insert_sorted<T>(s: Seq<T>, x: T, key: spec_fn(T) -> Seq<char>)
    requires
        sorted_by_key(s, key),
    ensures
        sorted_by_key(insert_by_key(s, x, key), key),
        insert_by_key(s, x, key).to_multiset() == s.to_multiset().insert(x),
{
    let p = insert_pos(s, x, key);
    lemma_insert_pos(s, x, key);
    lemma_insert_by_key_at(s, x, key, p);
    let r = insert_by_key(s, x, key);
    assert(r =~= s.insert(p, x));
    vstd::seq_lib::to_multiset_insert(s, p, x);
    assert forall|i: int| 0 <= i < p implies !str_lt(key(x), key(#[trigger] s[i])) by {
        if str_lt(key(x), key(s[i])) {
            lemma_str_lt_total(key(x), key(s[p - 1]));
            if key(x) != key(s[p - 1]) {
                lemma_str_lt_transitive(key(s[p - 1]), key(x), key(s[i]));
            }
            if i < p - 1 {
                assert(!str_lt(key(s[p - 1]), key(s[i])));
            }
        }
    }
    assert forall|i: int, j: int| 0 <= i < j < r.len() implies !str_lt(
        key(#[trigger] r[j]),
        key(#[trigger] r[i]),
    ) by {
        if j < p {
            assert(r[i] == s[i] && r[j] == s[j]);
        } else if j == p {
            assert(r[i] == s[i] && r[j] == x);
        } else if i < p {
            assert(r[i] == s[i] && r[j] == s[j - 1]);
        } else if i == p {
            assert(r[i] == x && r[j] == s[j - 1]);
            assert(str_lt(key(x), key(s[j - 1])));
            lemma_str_lt_asymmetric(key(x), key(s[j - 1]));
        } else {
            assert(r[i] == s[i - 1] && r[j] == s[j - 1]);
        }
    }
}

/// The stable sort orders the keys ascending and keeps every element, each as
/// often as it occurs.
pub proof fn lemma_sort_by_key_orders<T>(s: Seq<T>, key: spec_fn(T) -> Seq<char>)
    ensures
        sorted_by_key(sort_by_key(s, key), key),
        sort_by_key(s, key).to_multiset() == s.to_multiset(),
    decreases s.len(),
{
    if s.len() == 0 {
        assert(sort_by_key(s, key) == s);
    } else {
        let t = s.drop_last();
        lemma_sort_by_key_orders(t, key);
        lemma_insert_sorted(sort_by_key(t, key), s.last(), key);
        assert(t.push(s.last()) =~= s);
        vstd::seq_lib::to_multiset_build(t, s.last());
    }
}

/// The strings in ascending order.
pub fn sort_strings(v: Vec<String>) -> (r: Vec<String>)
    ensures
        string_views(r@) == sort_by_key(string_views(v@), identity_key()),
{
    let ghost given = string_views(v@);
    let mut rest = v;
    let mut r: Vec<String> = Vec::new();
    let mut done: usize = 0;
    assert(given.take(0) =~= Seq::<Seq<char>>::empty());
    assert(string_views(rest@) =~= given.skip(0));
    let total = rest.len();
    assert(given.len() == total);
    while rest.len() > 0
        invariant
            done + rest@.len() == given.len(),
            given.len() <= usize::MAX,
            string_views(rest@) == given.skip(done as int),
            string_views(r@) == sort_by_key(given.take(done as int), identity_key()),
        decreases rest@.len(),
    {
        let ghost before = rest@;
        let x = rest.remove(0);
        assert(x == before[0]);
        assert(string_views(before)[0] == before[0]@);
        assert(x@ == given[done as int]);
        let xc = chars_of(x.as_str());
        let mut p = r.len();
        while p > 0 && chars_before(&xc, r[p - 1].as_str())
            invariant
                p <= r@.len(),
                xc@ == x@,
                forall|j: int| p <= j < r@.len() ==> str_lt(x@, (#[trigger] r@[j])@),
            decreases p,
        {
            p = p - 1;
        }
        let ghost sorted = string_views(r@);
        proof {
            assert forall|j: int| p <= j < sorted.len() implies str_lt(
                identity_key()(x@),
                identity_key()(#[trigger] sorted[j]),
            ) by {
                assert(sorted[j] == r@[j]@);
            }
            if p > 0 {
                assert(sorted[p - 1] == r@[p - 1]@);
            }
            lemma_insert_by_key_at(sorted, x@, identity_key(), p as int);
            assert(given.take(done + 1).drop_last() =~= given.take(done as int));
        }
        r.insert(p, x);
        assert(string_views(r@) =~= sorted.take(p as int).push(given[done as int])
            + sorted.skip(p as int));
        assert(string_views(rest@) =~= string_views(before).drop_first());
        assert(given.skip(done as int).drop_first() =~= given.skip(done + 1));
        done = done + 1;
    }
    assert(given.take(done as int) =~= given);
    r
}

/// The devices in ascending order of id, devices of equal id in their order.
pub fn sort_devices(v: Vec<Device>) -> (r: Vec<Device>)
    ensures
        device_views(r@) == sort_by_key(device_views(v@), id_key()),
{
    let ghost given = device_views(v@);
    let mut rest = v;
    let mut r: Vec<Device> = Vec::new();
    let mut done: usize = 0;
    assert(given.take(0) =~= Seq::<DeviceView>::empty());
    assert(device_views(rest@) =~= given.skip(0));
    let total = rest.len();
    assert(given.len() == total);
    while rest.len() > 0
        invariant
            done + rest@.len() == given.len(),
            given.len() <= usize::MAX,
            device_views(rest@) == given.skip(done as int),
            device_views(r@) == sort_by_key(given.take(done as int), id_key()),
        decreases rest@.len(),
    {
        let ghost before = rest@;
        let x = rest.remove(0);
        assert(x == before[0]);
        assert(device_views(before)[0] == before[0]@);
        assert(x@ == given[done as int]);
        let xc = chars_of(x.id.as_str());
        let mut p = r.len();
        while p > 0 && chars_before(&xc, r[p - 1].id.as_str())
            invariant
                p <= r@.len(),
                xc@ == x.id@,
                forall|j: int| p <= j < r@.len() ==> str_lt(x.id@, (#[trigger] r@[j]).id@),
            decreases p,
        {
            p = p - 1;
        }
        let ghost sorted = device_views(r@);
        proof {
            assert forall|j: int| p <= j < sorted.len() implies str_lt(
                id_key()(x@),
                id_key()(#[trigger] sorted[j]),
            ) by {
                assert(sorted[j] == r@[j]@);
            }
            if p > 0 {
                assert(sorted[p - 1] == r@[p - 1]@);
            }
            lemma_insert_by_key_at(sorted, x@, id_key(), p as int);
            assert(given.take(done + 1).drop_last() =~= given.take(done as int));
        }
        r.insert(p, x);
        assert(device_views(r@) =~= sorted.take(p as int).push(given[done as int])
            + sorted.skip(p as int));
        assert(device_views(rest@) =~= device_views(before).drop_first());
        assert(given.skip(done as int).drop_first() =~= given.skip(done + 1));
        done = done + 1;
    }
    assert(given.take(done as int) =~= given);
    r
}

} // verus!
