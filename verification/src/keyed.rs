//! Maps from texts, kept as lists with ascending keys.

use vstd::prelude::*;
use vstd::string::*;

use crate::text::{
    ascending, before, comes_before, lemma_ascending_insert, lemma_before_total,
    lemma_before_transitive, same,
};

verus! {

/// The keys of a list.
pub open spec fn keys<V>(v: Seq<(String, V)>) -> Seq<Seq<char>> {
    v.map_values(|e: (String, V)| e.0@)
}

/// The map that a list stands for.
pub open spec fn entries<V>(v: Seq<(String, V)>) -> Map<Seq<char>, V> {
    Map::new(|k: Seq<char>| keys(v).contains(k), |k: Seq<char>| v[keys(v).index_of(k)].1)
}

proof fn lemma_place<V>(v: Seq<(String, V)>, i: int)
    requires
        ascending(keys(v)),
        0 <= i < v.len(),
    ensures
        keys(v).index_of(v[i].0@) == i,
        entries(v).contains_key(v[i].0@),
        entries(v)[v[i].0@] == v[i].1,
{
    let k = keys(v);
    assert(k[i] == v[i].0@);
    let j = k.index_of(v[i].0@);
    lemma_before_total(k[i], k[i]);
    if j < i {
        assert(before(k[j], k[i]));
    } else if i < j {
        assert(before(k[i], k[j]));
    }
}

/// Where a key stands, or would stand.
fn key_place<V>(v: &Vec<(String, V)>, key: &str) -> (at: usize)
    requires
        ascending(keys(v@)),
    ensures
        at <= v@.len(),
        forall|j: int| 0 <= j < at ==> before(#[trigger] v@[j].0@, key@),
        forall|j: int| at <= j < v@.len() ==> !before(#[trigger] v@[j].0@, key@),
{
    let mut lo: usize = 0;
    let mut hi: usize = v.len();
    while lo < hi
        invariant
            lo <= hi <= v.len(),
            ascending(keys(v@)),
            forall|j: int| 0 <= j < lo ==> before(#[trigger] v@[j].0@, key@),
            forall|j: int| hi <= j < v@.len() ==> !before(#[trigger] v@[j].0@, key@),
        decreases hi - lo,
    {
        let mid: usize = lo + (hi - lo) / 2;
        let ghost list = keys(v@);
        if comes_before(v[mid].0.as_str(), key) {
            assert forall|j: int| 0 <= j < mid + 1 implies before(#[trigger] v@[j].0@, key@) by {
                if j < mid {
                    assert(before(list[j], list[mid as int]));
                    lemma_before_transitive(v@[j].0@, v@[mid as int].0@, key@);
                }
            }
            lo = mid + 1;
        } else {
            assert forall|j: int| mid <= j < v@.len() implies !before(
                #[trigger] v@[j].0@,
                key@,
            ) by {
                if j > mid && before(v@[j].0@, key@) {
                    assert(before(list[mid as int], list[j]));
                    lemma_before_transitive(v@[mid as int].0@, v@[j].0@, key@);
                }
            }
            hi = mid;
        }
    }
    lo
}

/// Whether a key stands at its place.
fn is_key<V>(v: &Vec<(String, V)>, at: usize, key: &str) -> (r: bool)
    requires
        ascending(keys(v@)),
        at <= v@.len(),
        forall|j: int| 0 <= j < at ==> before(#[trigger] v@[j].0@, key@),
        forall|j: int| at <= j < v@.len() ==> !before(#[trigger] v@[j].0@, key@),
    ensures
        r == entries(v@).contains_key(key@),
        r ==> at < v@.len() && v@[at as int].0@ == key@,
        !r && at < v@.len() ==> v@[at as int].0@ != key@,
{
    let ghost list = keys(v@);
    if at < v.len() && same(v[at].0.as_str(), key) {
        assert(list[at as int] == key@);
        true
    } else {
        proof {
            if list.contains(key@) {
                let k = list.index_of(key@);
                assert(v@[k].0@ == key@);
                lemma_before_total(key@, key@);
                if at < k {
                    assert(before(list[at as int], list[k]));
                    assert(!before(v@[at as int].0@, key@));
                }
            }
        }
        false
    }
}

/// The value of a key.
pub fn lookup<'a, V>(v: &'a Vec<(String, V)>, key: &str) -> (r: Option<&'a V>)
    requires
        ascending(keys(v@)),
    ensures
        match r {
            Some(value) => entries(v@).contains_key(key@) && entries(v@)[key@] == *value,
            None => !entries(v@).contains_key(key@),
        },
{
    let at = key_place(v, key);
    if is_key(v, at, key) {
        proof {
            lemma_place(v@, at as int);
        }
        Some(&v[at].1)
    } else {
        None
    }
}

/// Takes a key and its value out.
pub fn take_out<V>(v: &mut Vec<(String, V)>, key: &str) -> (r: Option<V>)
    requires
        ascending(keys(old(v)@)),
    ensures
        ascending(keys(final(v)@)),
        entries(final(v)@) == entries(old(v)@).remove(key@),
        match r {
            Some(value) => entries(old(v)@).contains_key(key@) && entries(old(v)@)[key@] == value,
            None => !entries(old(v)@).contains_key(key@),
        },
{
    let ghost was = v@;
    let at = key_place(v, key);
    if is_key(v, at, key) {
        let (_, value) = v.remove(at);
        proof {
            lemma_place(was, at as int);
            let i = at as int;
            let now = v@;
            assert forall|p: int, q: int| 0 <= p < q < now.len() implies before(
                #[trigger] keys(now)[p],
                #[trigger] keys(now)[q],
            ) by {
                let p2 = if p < i { p } else { p + 1 };
                let q2 = if q < i { q } else { q + 1 };
                assert(keys(now)[p] == keys(was)[p2]);
                assert(keys(now)[q] == keys(was)[q2]);
            }
            assert forall|k: Seq<char>| #[trigger] entries(now).contains_key(k) == entries(
                was,
            ).remove(key@).contains_key(k) by {
                if keys(now).contains(k) {
                    let p = keys(now).index_of(k);
                    let p2 = if p < i { p } else { p + 1 };
                    assert(keys(was)[p2] == k);
                    lemma_place(was, p2);
                }
                if keys(was).contains(k) && k != key@ {
                    let p2 = keys(was).index_of(k);
                    let p = if p2 < i { p2 } else { p2 - 1 };
                    assert(keys(now)[p] == k);
                }
            }
            assert forall|k: Seq<char>| #[trigger] entries(now).contains_key(k) implies entries(
                now,
            )[k] == entries(was)[k] by {
                let p = keys(now).index_of(k);
                let p2 = if p < i { p } else { p + 1 };
                assert(was[p2].0@ == k);
                lemma_place(was, p2);
            }
            assert(entries(now) =~= entries(was).remove(key@));
        }
        Some(value)
    } else {
        proof {
            assert(entries(was) =~= entries(was).remove(key@));
        }
        None
    }
}

/// Puts a value under a key.
pub fn put<V>(v: &mut Vec<(String, V)>, key: &str, value: V)
    requires
        ascending(keys(old(v)@)),
    ensures
        ascending(keys(final(v)@)),
        entries(final(v)@) == entries(old(v)@).insert(key@, value),
{
    let ghost whole = v@;
    let _ = take_out(v, key);
    let ghost was = v@;
    let at = key_place(v, key);
    let there = is_key(v, at, key);
    assert(!there);
    v.insert(at, (key.to_owned(), value));
    proof {
        let i = at as int;
        let now = v@;
        assert(keys(now) =~= keys(was).insert(i, key@));
        assert forall|j: int| 0 <= j < i implies before(#[trigger] keys(was)[j], key@) by {
            assert(before(was[j].0@, key@));
        }
        lemma_ascending_insert(keys(was), i, key@);
        assert forall|k: Seq<char>| #[trigger] entries(now).contains_key(k) == entries(was).insert(
            key@,
            value,
        ).contains_key(k) by {
            assert(keys(now).to_set().contains(k) == keys(was).to_set().insert(key@).contains(k));
        }
        assert forall|k: Seq<char>| #[trigger] entries(now).contains_key(k) implies entries(now)[k]
            == entries(was).insert(key@, value)[k] by {
            let p = keys(now).index_of(k);
            assert(now[p].0@ == k);
            if k == key@ {
                lemma_place(now, i);
            } else {
                let p2 = if p < i { p } else { p - 1 };
                assert(was[p2].0@ == k);
                lemma_place(was, p2);
            }
        }
        assert(entries(now) =~= entries(whole).insert(key@, value));
    }
}

/// A list stands for the empty map exactly when it is empty.
pub proof fn lemma_empty<V>(v: Seq<(String, V)>)
    ensures
        (v.len() == 0) == (entries(v) == Map::<Seq<char>, V>::empty()),
{
    if v.len() == 0 {
        assert(entries(v) =~= Map::empty());
    } else {
        assert(keys(v)[0] == v[0].0@);
        assert(entries(v).contains_key(v[0].0@));
    }
}

/// What a list holds for a key is the value that stands beside it, and it holds nothing for a key
/// that it does not list.
pub proof fn law_a_key_holds_the_value_beside_it<V>(v: Seq<(String, V)>, i: int, key: Seq<char>)
    requires
        ascending(keys(v)),
        0 <= i < v.len(),
    ensures
        entries(v).contains_key(v[i].0@),
        entries(v)[v[i].0@] == v[i].1,
        (forall|j: int| 0 <= j < v.len() ==> (#[trigger] v[j]).0@ != key) ==> !entries(
            v,
        ).contains_key(key),
{
    lemma_place(v, i);
    assert(keys(v)[i] == v[i].0@);
    if keys(v).contains(key) {
        let j = choose|j: int| 0 <= j < keys(v).len() && keys(v)[j] == key;
        assert(v[j].0@ == key);
    }
}

} // verus!
