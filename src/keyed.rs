//! Association lists keyed by principal: a `Vec` of (key, value) pairs whose
//! keys are distinct, viewed as a finite map.
use vstd::prelude::*;
use crate::principal::Principal;

verus! {

/// No key occurs twice.
pub open spec fn unique_keys<V>(s: Seq<(Principal, V)>) -> bool {
    forall|i: int, j: int|
        0 <= i < s.len() && 0 <= j < s.len() && i != j ==> #[trigger] s[i].0@ != #[trigger] s[j].0@
}

pub open spec fn has_key<V>(s: Seq<(Principal, V)>, k: Seq<u8>) -> bool {
    exists|i: int| 0 <= i < s.len() && #[trigger] s[i].0@ == k
}

/// The position of a key that occurs.
pub open spec fn index_of<V>(s: Seq<(Principal, V)>, k: Seq<u8>) -> int {
    choose|i: int| 0 <= i < s.len() && #[trigger] s[i].0@ == k
}

/// The pairs as a map from key bytes to the value's view.
pub open spec fn as_map<V: View>(s: Seq<(Principal, V)>) -> Map<Seq<u8>, V::V> {
    Map::new(|k: Seq<u8>| has_key(s, k), |k: Seq<u8>| s[index_of(s, k)].1@)
}

/// Where keys are distinct, the map holds each pair's value under its key.
pub proof fn lemma_as_map_at<V: View>(s: Seq<(Principal, V)>, i: int)
    requires
        unique_keys(s),
        0 <= i < s.len(),
    ensures
        as_map(s).contains_key(s[i].0@),
        as_map(s)[s[i].0@] == s[i].1@,
{
    let k = s[i].0@;
    assert(has_key(s, k));
    let j = index_of(s, k);
    assert(s[j].0@ == k);
}

/// No pairs make the empty map.
pub proof fn lemma_as_map_empty<V: View>(s: Seq<(Principal, V)>)
    requires
        s.len() == 0,
    ensures
        unique_keys(s),
        as_map(s) == Map::<Seq<u8>, V::V>::empty(),
{
    assert(as_map(s) =~= Map::<Seq<u8>, V::V>::empty());
}

/// One pair makes a map of one key.
pub proof fn lemma_as_map_single<V: View>(s: Seq<(Principal, V)>)
    requires
        s.len() == 1,
    ensures
        unique_keys(s),
        as_map(s) == Map::<Seq<u8>, V::V>::empty().insert(s[0].0@, s[0].1@),
{
    lemma_as_map_at(s, 0);
    assert(as_map(s) =~= Map::<Seq<u8>, V::V>::empty().insert(s[0].0@, s[0].1@));
}

/// The position of `k`, if it occurs.
pub fn find<V>(s: &Vec<(Principal, V)>, k: &Principal) -> (r: Option<usize>)
    ensures
        r is None <==> !has_key(s@, k@),
        r matches Some(i) ==> i < s@.len() && s@[i as int].0@ == k@,
{
    let mut i: usize = 0;
    while i < s.len()
        invariant
            i <= s@.len(),
            forall|j: int| 0 <= j < i ==> #[trigger] s@[j].0@ != k@,
        decreases s@.len() - i,
    {
        if s[i].0.same(k) {
            return Some(i);
        }
        i = i + 1;
    }
    None
}

/// Sets the value under `k`: replaces it where `k` occurs, else appends the pair.
pub fn put<V: View>(s: &mut Vec<(Principal, V)>, k: Principal, v: V)
    requires
        unique_keys(old(s)@),
    ensures
        unique_keys(final(s)@),
        as_map(final(s)@) == as_map(old(s)@).insert(k@, v@),
{
    let ghost kv = k@;
    let ghost vv = v@;
    let ghost o = s@;
    match find(s, &k) {
        Some(i) => {
            s.set(i, (k, v));
            proof {
                assert(unique_keys(s@)) by {
                    assert forall|a: int, b: int|
                        0 <= a < s@.len() && 0 <= b < s@.len() && a != b implies #[trigger] s@[a].0@
                        != #[trigger] s@[b].0@ by {
                        if a != i && b != i {
                            assert(s@[a] == o[a] && s@[b] == o[b]);
                        } else if a == i {
                            assert(s@[b] == o[b]);
                        } else {
                            assert(s@[a] == o[a]);
                        }
                    }
                }
                lemma_map_after_set(o, s@, i as int);
            }
        },
        None => {
            s.push((k, v));
            proof {
                assert(unique_keys(s@)) by {
                    assert forall|a: int, b: int|
                        0 <= a < s@.len() && 0 <= b < s@.len() && a != b implies #[trigger] s@[a].0@
                        != #[trigger] s@[b].0@ by {
                        if a < o.len() && b < o.len() {
                            assert(s@[a] == o[a] && s@[b] == o[b]);
                        } else if a < o.len() {
                            assert(s@[a] == o[a]);
                        } else {
                            assert(s@[b] == o[b]);
                        }
                    }
                }
                let n = o.len() as int;
                assert forall|key: Seq<u8>| #[trigger]
                    as_map(s@).contains_key(key) == as_map(o).insert(kv, vv).contains_key(key) by {
                    if has_key(o, key) {
                        let j = index_of(o, key);
                        assert(s@[j] == o[j]);
                    }
                    if has_key(s@, key) && key != kv {
                        let j = index_of(s@, key);
                        assert(j != n);
                        assert(s@[j] == o[j]);
                    }
                    if key == kv {
                        assert(s@[n].0@ == kv);
                    }
                }
                assert forall|key: Seq<u8>| #[trigger] as_map(s@).contains_key(key) implies as_map(
                    s@,
                )[key] == as_map(o).insert(kv, vv)[key] by {
                    if key == kv {
                        lemma_as_map_at(s@, n);
                    } else {
                        let j = index_of(o, key);
                        assert(s@[j] == o[j]);
                        lemma_as_map_at(s@, j);
                        lemma_as_map_at(o, j);
                    }
                }
                assert(as_map(s@) =~= as_map(o).insert(kv, vv));
            }
        },
    }
}

/// Rewriting the value of one pair updates the map at its key only.
proof fn lemma_map_after_set<V: View>(o: Seq<(Principal, V)>, s: Seq<(Principal, V)>, i: int)
    requires
        unique_keys(o),
        unique_keys(s),
        o.len() == s.len(),
        0 <= i < s.len(),
        o[i].0@ == s[i].0@,
        forall|j: int| 0 <= j < s.len() && j != i ==> s[j] == o[j],
    ensures
        as_map(s) == as_map(o).insert(s[i].0@, s[i].1@),
{
    let kv = s[i].0@;
    assert forall|key: Seq<u8>| #[trigger]
        as_map(s).contains_key(key) == as_map(o).insert(kv, s[i].1@).contains_key(key) by {
        if has_key(o, key) {
            let j = index_of(o, key);
            if j != i {
                assert(s[j] == o[j]);
            }
        }
        if has_key(s, key) {
            let j = index_of(s, key);
            if j != i {
                assert(s[j] == o[j]);
            }
        }
    }
    assert forall|key: Seq<u8>| #[trigger] as_map(s).contains_key(key) implies as_map(s)[key]
        == as_map(o).insert(kv, s[i].1@)[key] by {
        let j = index_of(s, key);
        lemma_as_map_at(s, j);
        if j != i {
            assert(s[j] == o[j]);
            lemma_as_map_at(o, j);
        }
    }
    assert(as_map(s) =~= as_map(o).insert(kv, s[i].1@));
}

/// Removes the pair under `k`, if any.
pub fn remove_key<V: View>(s: &mut Vec<(Principal, V)>, k: &Principal)
    requires
        unique_keys(old(s)@),
    ensures
        unique_keys(final(s)@),
        as_map(final(s)@) == as_map(old(s)@).remove(k@),
{
    let ghost o = s@;
    match find(s, k) {
        None => {
            proof {
                assert(as_map(o) =~= as_map(o).remove(k@));
            }
        },
        Some(i) => {
            s.remove(i);
            proof {
                let ii = i as int;
                assert(s@ == o.remove(ii));
                assert forall|j: int| 0 <= j < s@.len() implies #[trigger] s@[j] == (if j < ii {
                    o[j]
                } else {
                    o[j + 1]
                }) by {}
                assert(unique_keys(s@)) by {
                    assert forall|a: int, b: int|
                        0 <= a < s@.len() && 0 <= b < s@.len() && a != b implies #[trigger] s@[a].0@
                        != #[trigger] s@[b].0@ by {
                        let a1 = if a < ii { a } else { a + 1 };
                        let b1 = if b < ii { b } else { b + 1 };
                        assert(s@[a] == o[a1] && s@[b] == o[b1]);
                    }
                }
                assert forall|key: Seq<u8>| #[trigger]
                    as_map(s@).contains_key(key) == as_map(o).remove(k@).contains_key(key) by {
                    if has_key(o, key) && key != k@ {
                        let j = index_of(o, key);
                        assert(j != ii);
                        let j1 = if j < ii { j } else { j - 1 };
                        assert(s@[j1] == o[j]);
                    }
                    if has_key(s@, key) {
                        let j = index_of(s@, key);
                        let j1 = if j < ii { j } else { j + 1 };
                        assert(s@[j] == o[j1]);
                    }
                }
                assert forall|key: Seq<u8>| #[trigger] as_map(s@).contains_key(key) implies as_map(
                    s@,
                )[key] == as_map(o).remove(k@)[key] by {
                    let j = index_of(s@, key);
                    let j1 = if j < ii { j } else { j + 1 };
                    assert(s@[j] == o[j1]);
                    lemma_as_map_at(s@, j);
                    lemma_as_map_at(o, j1);
                }
                assert(as_map(s@) =~= as_map(o).remove(k@));
            }
        },
    }
}

} // verus!
