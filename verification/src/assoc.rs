//! Association lists keyed by text: a vector of `(key, value)` pairs with
//! distinct keys, read as a finite map.

use vstd::prelude::*;
use crate::text::text_eq;

verus! {

/// The keys of `v`, in order.
pub open spec fn keys_of<V>(v: Seq<(String, V)>) -> Seq<Seq<char>> {
    v.map_values(|p: (String, V)| p.0@)
}

/// No two entries of `v` share a key.
pub open spec fn keys_unique<V>(v: Seq<(String, V)>) -> bool {
    forall|i: int, j: int|
        0 <= i < v.len() && 0 <= j < v.len() && i != j ==> #[trigger] v[i].0@ != #[trigger] v[j].0@
}

/// The map that `v` describes: each key to its value; a later entry for a
/// key would take precedence.
pub open spec fn as_map<V>(v: Seq<(String, V)>) -> Map<Seq<char>, V>
    decreases v.len(),
{
    if v.len() == 0 {
        Map::empty()
    } else {
        as_map(v.drop_last()).insert(v.last().0@, v.last().1)
    }
}

pub proof fn lemma_as_map_domain<V>(v: Seq<(String, V)>)
    ensures
        as_map(v).dom() == keys_of(v).to_set(),
    decreases v.len(),
{
    if v.len() > 0 {
        lemma_as_map_domain(v.drop_last());
        assert(keys_of(v) =~= keys_of(v.drop_last()).push(v.last().0@));
        keys_of(v.drop_last()).lemma_push_to_set_commute(v.last().0@);
        assert(as_map(v).dom() =~= as_map(v.drop_last()).dom().insert(v.last().0@));
    } else {
        assert(keys_of(v).to_set() =~= Set::<Seq<char>>::empty());
        assert(as_map(v).dom() =~= Set::<Seq<char>>::empty());
    }
}

pub proof fn lemma_as_map_at<V>(v: Seq<(String, V)>, i: int)
    requires
        keys_unique(v),
        0 <= i < v.len(),
    ensures
        as_map(v).contains_key(v[i].0@),
        as_map(v)[v[i].0@] == v[i].1,
    decreases v.len(),
{
    let d = v.drop_last();
    if i < v.len() - 1 {
        assert(keys_unique(d)) by {
            assert forall|a: int, b: int| 0 <= a < d.len() && 0 <= b < d.len() && a != b implies #[trigger] d[a].0@ != #[trigger] d[b].0@ by {
                assert(d[a] == v[a]);
                assert(d[b] == v[b]);
            }
        }
        lemma_as_map_at(d, i);
        assert(d[i] == v[i]);
        assert(v[i].0@ != v[v.len() - 1].0@);
    }
}

pub proof fn lemma_as_map_update<V>(v: Seq<(String, V)>, i: int, k: String, x: V)
    requires
        keys_unique(v),
        0 <= i < v.len(),
        v[i].0@ == k@,
    ensures
        keys_unique(v.update(i, (k, x))),
        as_map(v.update(i, (k, x))) == as_map(v).insert(k@, x),
    decreases v.len(),
{
    let u = v.update(i, (k, x));
    assert(keys_unique(u)) by {
        assert forall|a: int, b: int| 0 <= a < u.len() && 0 <= b < u.len() && a != b implies #[trigger] u[a].0@ != #[trigger] u[b].0@ by {
            assert(u[a].0@ == v[a].0@);
            assert(u[b].0@ == v[b].0@);
        }
    }
    let d = v.drop_last();
    if i == v.len() - 1 {
        assert(u.drop_last() =~= d);
        assert(as_map(u) =~= as_map(v).insert(k@, x));
    } else {
        assert(keys_unique(d)) by {
            assert forall|a: int, b: int| 0 <= a < d.len() && 0 <= b < d.len() && a != b implies #[trigger] d[a].0@ != #[trigger] d[b].0@ by {
                assert(d[a] == v[a]);
                assert(d[b] == v[b]);
            }
        }
        lemma_as_map_update(d, i, k, x);
        assert(u.drop_last() =~= d.update(i, (k, x)));
        assert(u.last() == v.last());
        assert(v.last().0@ != k@) by {
            assert(v[v.len() - 1].0@ != v[i].0@);
        }
        assert(as_map(u) =~= as_map(v).insert(k@, x));
    }
}

/// The position of the entry with key `key`, if there is one.
pub fn find_key<V>(v: &Vec<(String, V)>, key: &String) -> (r: Option<usize>)
    ensures
        match r {
            Some(i) => i < v@.len() && v@[i as int].0@ == key@,
            None => !keys_of(v@).contains(key@),
        },
{
    let mut i: usize = 0;
    while i < v.len()
        invariant
            i <= v@.len(),
            forall|k: int| 0 <= k < i ==> v@[k].0@ != key@,
        decreases v@.len() - i,
    {
        if v[i].0.eq(key) {
            return Some(i);
        }
        i = i + 1;
    }
    proof {
        if keys_of(v@).contains(key@) {
            let k = choose|k: int| 0 <= k < keys_of(v@).len() && keys_of(v@)[k] == key@;
            assert(v@[k].0@ == key@);
        }
    }
    None
}

/// Sets the value of `key` to `val`, replacing an existing entry in place or
/// appending a new one.
pub fn put<V>(v: &mut Vec<(String, V)>, key: String, val: V)
    requires
        keys_unique(old(v)@),
    ensures
        keys_unique(final(v)@),
        as_map(final(v)@) == as_map(old(v)@).insert(key@, val),
        keys_of(old(v)@).contains(key@) ==> final(v)@.len() == old(v)@.len(),
        !keys_of(old(v)@).contains(key@) ==> final(v)@ == old(v)@.push((key, val)),
{
    match find_key(v, &key) {
        Some(i) => {
            proof {
                lemma_as_map_update(v@, i as int, key, val);
                assert(keys_of(v@)[i as int] == key@);
            }
            v.set(i, (key, val));
        },
        None => {
            let ghost before = v@;
            let ghost k = key@;
            v.push((key, val));
            proof {
                assert(v@.drop_last() =~= before);
                assert forall|a: int, b: int| 0 <= a < v@.len() && 0 <= b < v@.len() && a != b implies #[trigger] v@[a].0@ != #[trigger] v@[b].0@ by {
                    if a == v@.len() - 1 {
                        assert(keys_of(before)[b] == before[b].0@);
                    } else if b == v@.len() - 1 {
                        assert(keys_of(before)[a] == before[a].0@);
                    } else {
                        assert(v@[a] == before[a]);
                        assert(v@[b] == before[b]);
                    }
                }
            }
        },
    }
}

/// Past the last entry for `key`, `v` adds nothing on `key` to the map of
/// its first `i` entries.
pub proof fn lemma_as_map_tail<V>(v: Seq<(String, V)>, i: int, key: Seq<char>)
    requires
        0 <= i <= v.len(),
        forall|k: int| i <= k < v.len() ==> #[trigger] v[k].0@ != key,
    ensures
        as_map(v).contains_key(key) == as_map(v.take(i)).contains_key(key),
        as_map(v).contains_key(key) ==> as_map(v)[key] == as_map(v.take(i))[key],
    decreases v.len() - i,
{
    if i < v.len() {
        lemma_as_map_tail(v.drop_last(), i, key);
        assert(v.drop_last().take(i) =~= v.take(i));
        assert(v.last().0@ != key) by {
            assert(v[v.len() - 1].0@ != key);
        }
    } else {
        assert(v.take(i) =~= v);
    }
}

/// The value of `key` in the map that `v` describes: that of its last entry.
pub fn lookup<'a, V>(v: &'a Vec<(String, V)>, key: &str) -> (r: Option<&'a V>)
    ensures
        match r {
            Some(x) => as_map(v@).contains_key(key@) && as_map(v@)[key@] == *x,
            None => !as_map(v@).contains_key(key@),
        },
{
    let mut i: usize = v.len();
    while i > 0
        invariant
            i <= v@.len(),
            forall|k: int| i <= k < v@.len() ==> #[trigger] v@[k].0@ != key@,
        decreases i,
    {
        let j = i - 1;
        if text_eq(v[j].0.as_str(), key) {
            proof {
                lemma_as_map_tail(v@, j + 1, key@);
                assert(v@.take(j + 1).drop_last() =~= v@.take(j as int));
                assert(v@.take(j + 1).last() == v@[j as int]);
            }
            return Some(&v[j].1);
        }
        i = j;
    }
    proof {
        lemma_as_map_tail(v@, 0, key@);
        assert(v@.take(0) =~= Seq::<(String, V)>::empty());
    }
    None
}

} // verus!
