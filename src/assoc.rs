//! Sequences of key/value pairs with pairwise distinct keys, read as maps.
use vstd::prelude::*;

verus! {

pub open spec fn has_key<K, V>(s: Seq<(K, V)>, k: K) -> bool {
    exists|i: int| 0 <= i < s.len() && s[i].0 == k
}

pub open spec fn keys_unique<K, V>(s: Seq<(K, V)>) -> bool {
    forall|i: int, j: int|
        0 <= i < s.len() && 0 <= j < s.len() && #[trigger] s[i].0 == #[trigger] s[j].0 ==> i == j
}

/// The map that a sequence of pairs denotes.
pub open spec fn to_map<K, V>(s: Seq<(K, V)>) -> Map<K, V> {
    Map::new(
        |k: K| has_key(s, k),
        |k: K| s[choose|i: int| 0 <= i < s.len() && s[i].0 == k].1,
    )
}

pub proof fn lemma_to_map_index<K, V>(s: Seq<(K, V)>, i: int)
    requires
        keys_unique(s),
        0 <= i < s.len(),
    ensures
        to_map(s).contains_key(s[i].0),
        to_map(s)[s[i].0] == s[i].1,
{
    assert(has_key(s, s[i].0));
    let j = choose|j: int| 0 <= j < s.len() && s[j].0 == s[i].0;
    assert(s[j].0 == s[i].0);
}

pub proof fn lemma_to_map_push<K, V>(s: Seq<(K, V)>, k: K, v: V)
    requires
        keys_unique(s),
        !has_key(s, k),
    ensures
        keys_unique(s.push((k, v))),
        to_map(s.push((k, v))) == to_map(s).insert(k, v),
{
    let t = s.push((k, v));
    assert(keys_unique(t)) by {
        assert forall|i: int, j: int|
            0 <= i < t.len() && 0 <= j < t.len() && #[trigger] t[i].0 == #[trigger] t[j].0 implies i
            == j by {
            if i < s.len() && j < s.len() {
                assert(s[i].0 == s[j].0);
            } else if i < s.len() {
                assert(s[i].0 == k);
            } else if j < s.len() {
                assert(s[j].0 == k);
            }
        }
    }
    assert forall|x: K| #[trigger] to_map(t).contains_key(x) == to_map(s).insert(k, v).contains_key(x) by {
        if has_key(t, x) && x != k {
            let i = choose|i: int| 0 <= i < t.len() && t[i].0 == x;
            assert(s[i].0 == x);
        }
        if has_key(s, x) {
            let i = choose|i: int| 0 <= i < s.len() && s[i].0 == x;
            assert(t[i].0 == x);
        }
        if x == k {
            assert(t[s.len() as int].0 == x);
        }
    }
    assert forall|x: K| #[trigger] to_map(t).contains_key(x) implies to_map(t)[x] == to_map(s).insert(k, v)[x] by {
        let i = choose|i: int| 0 <= i < t.len() && t[i].0 == x;
        lemma_to_map_index(t, i);
        if i < s.len() {
            lemma_to_map_index(s, i);
        }
    }
    assert(to_map(t) =~= to_map(s).insert(k, v));
}

pub proof fn lemma_to_map_update<K, V>(s: Seq<(K, V)>, i: int, v: V)
    requires
        keys_unique(s),
        0 <= i < s.len(),
    ensures
        keys_unique(s.update(i, (s[i].0, v))),
        to_map(s.update(i, (s[i].0, v))) == to_map(s).insert(s[i].0, v),
{
    let k = s[i].0;
    let t = s.update(i, (k, v));
    assert(keys_unique(t)) by {
        assert forall|a: int, b: int|
            0 <= a < t.len() && 0 <= b < t.len() && #[trigger] t[a].0 == #[trigger] t[b].0 implies a
            == b by {
            assert(t[a].0 == s[a].0);
            assert(t[b].0 == s[b].0);
        }
    }
    lemma_to_map_index(s, i);
    assert forall|x: K| #[trigger] to_map(t).contains_key(x) == to_map(s).insert(k, v).contains_key(x) by {
        if has_key(t, x) {
            let j = choose|j: int| 0 <= j < t.len() && t[j].0 == x;
            assert(s[j].0 == x);
        }
        if has_key(s, x) {
            let j = choose|j: int| 0 <= j < s.len() && s[j].0 == x;
            assert(t[j].0 == x);
        }
    }
    assert forall|x: K| #[trigger] to_map(t).contains_key(x) implies to_map(t)[x] == to_map(s).insert(k, v)[x] by {
        let j = choose|j: int| 0 <= j < t.len() && t[j].0 == x;
        lemma_to_map_index(t, j);
        if j != i {
            assert(s[j].0 == x);
            lemma_to_map_index(s, j);
        }
    }
    assert(to_map(t) =~= to_map(s).insert(k, v));
}

/// Removing the pair at `i` removes its key from the map.
pub proof fn lemma_to_map_remove<K, V>(s: Seq<(K, V)>, i: int)
    requires
        keys_unique(s),
        0 <= i < s.len(),
    ensures
        keys_unique(s.remove(i)),
        to_map(s.remove(i)) == to_map(s).remove(s[i].0),
{
    let k = s[i].0;
    let t = s.remove(i);
    assert forall|j: int| 0 <= j < t.len() implies #[trigger] t[j] == s[if j < i { j } else { j + 1 }] by {}
    assert(keys_unique(t)) by {
        assert forall|a: int, b: int|
            0 <= a < t.len() && 0 <= b < t.len() && #[trigger] t[a].0 == #[trigger] t[b].0 implies a
            == b by {
            let a1 = if a < i { a } else { a + 1 };
            let b1 = if b < i { b } else { b + 1 };
            assert(s[a1].0 == s[b1].0);
        }
    }
    assert forall|x: K| #[trigger] to_map(t).contains_key(x) == to_map(s).remove(k).contains_key(x) by {
        if has_key(t, x) {
            let j = choose|j: int| 0 <= j < t.len() && t[j].0 == x;
            let j1 = if j < i { j } else { j + 1 };
            assert(s[j1].0 == x);
            assert(j1 != i);
        }
        if has_key(s, x) && x != k {
            let j = choose|j: int| 0 <= j < s.len() && s[j].0 == x;
            assert(j != i);
            let j1 = if j < i { j } else { j - 1 };
            assert(t[j1].0 == x);
        }
    }
    assert forall|x: K| #[trigger] to_map(t).contains_key(x) implies to_map(t)[x] == to_map(s).remove(k)[x] by {
        let j = choose|j: int| 0 <= j < t.len() && t[j].0 == x;
        lemma_to_map_index(t, j);
        let j1 = if j < i { j } else { j + 1 };
        lemma_to_map_index(s, j1);
    }
    assert(to_map(t) =~= to_map(s).remove(k));
}

/// A prefix one longer adds one pair to the map.
pub proof fn lemma_to_map_take<K, V>(s: Seq<(K, V)>, i: int)
    requires
        keys_unique(s),
        0 <= i < s.len(),
    ensures
        keys_unique(s.take(i)),
        !has_key(s.take(i), s[i].0),
        s.take(i + 1) == s.take(i).push(s[i]),
{
    let p = s.take(i);
    assert(keys_unique(p)) by {
        assert forall|a: int, b: int|
            0 <= a < p.len() && 0 <= b < p.len() && #[trigger] p[a].0 == #[trigger] p[b].0 implies a
            == b by {
            assert(s[a].0 == s[b].0);
        }
    }
    if has_key(p, s[i].0) {
        let j = choose|j: int| 0 <= j < p.len() && p[j].0 == s[i].0;
        assert(s[j].0 == s[i].0);
    }
    assert(s.take(i + 1) =~= s.take(i).push(s[i]));
}

} // verus!
