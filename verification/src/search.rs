//! First-occurrence search over key sequences, shared by every by-key lookup.

use vstd::prelude::*;

verus! {

/// The position of the first `key` in `keys`, or `None` when absent.
pub open spec fn first_index<K>(keys: Seq<K>, key: K) -> Option<int> {
    if exists|i: int| 0 <= i < keys.len() && keys[i] == key {
        Some(
            choose|i: int|
                0 <= i < keys.len() && keys[i] == key && forall|j: int| 0 <= j < i ==> keys[j] != key,
        )
    } else {
        None
    }
}

/// If `i` holds `key` and no earlier position does, `i` is the first index.
pub proof fn lemma_first_index_is<K>(keys: Seq<K>, key: K, i: int)
    requires
        0 <= i < keys.len(),
        keys[i] == key,
        forall|j: int| 0 <= j < i ==> keys[j] != key,
    ensures
        first_index(keys, key) == Some(i),
{
    let c = choose|c: int|
        0 <= c < keys.len() && keys[c] == key && forall|j: int| 0 <= j < c ==> keys[j] != key;
    assert(0 <= c < keys.len() && keys[c] == key && forall|j: int| 0 <= j < c ==> keys[j] != key);
    if c < i {
        assert(keys[c] != key);
    }
    if i < c {
        assert(keys[i] != key);
    }
}

/// If no position holds `key`, there is no first index.
pub proof fn lemma_first_index_none<K>(keys: Seq<K>, key: K)
    requires
        forall|j: int| 0 <= j < keys.len() ==> keys[j] != key,
    ensures
        first_index(keys, key) == None::<int>,
{
}

/// The first index, when present, is in range and holds the key.
pub proof fn lemma_first_index_props<K>(keys: Seq<K>, key: K)
    ensures
        first_index(keys, key) matches Some(i) ==> 0 <= i < keys.len() && keys[i] == key && forall|
            j: int,
        | 0 <= j < i ==> keys[j] != key,
        first_index(keys, key) is None ==> forall|j: int| 0 <= j < keys.len() ==> keys[j] != key,
{
    if exists|i: int| 0 <= i < keys.len() && keys[i] == key {
        let i = choose|i: int| 0 <= i < keys.len() && keys[i] == key;
        lemma_has_first(keys, key, i);
    }
}

proof fn lemma_has_first<K>(keys: Seq<K>, key: K, i: int)
    requires
        0 <= i < keys.len(),
        keys[i] == key,
    ensures
        exists|c: int| 0 <= c < keys.len() && keys[c] == key && forall|j: int| 0 <= j < c ==> keys[j] != key,
    decreases i,
{
    if exists|j: int| 0 <= j < i && keys[j] == key {
        let j = choose|j: int| 0 <= j < i && keys[j] == key;
        lemma_has_first(keys, key, j);
    } else {
        assert(forall|j: int| 0 <= j < i ==> keys[j] != key);
    }
}

/// The first position `i < n` satisfying `p`, or `None`.
pub open spec fn first_where(n: int, p: spec_fn(int) -> bool) -> Option<int> {
    if exists|i: int| 0 <= i < n && #[trigger] p(i) {
        Some(choose|i: int| 0 <= i < n && #[trigger] p(i) && forall|j: int| 0 <= j < i ==> !#[trigger] p(j))
    } else {
        None
    }
}

/// If `i` satisfies `p` and no earlier position does, `i` is the first.
pub proof fn lemma_first_where_is(n: int, p: spec_fn(int) -> bool, i: int)
    requires
        0 <= i < n,
        p(i),
        forall|j: int| 0 <= j < i ==> !#[trigger] p(j),
    ensures
        first_where(n, p) == Some(i),
{
    let c = choose|c: int| 0 <= c < n && #[trigger] p(c) && forall|j: int| 0 <= j < c ==> !#[trigger] p(j);
    assert(0 <= c < n && p(c) && forall|j: int| 0 <= j < c ==> !#[trigger] p(j));
    if c < i {
        assert(!p(c));
    }
    if i < c {
        assert(!p(i));
    }
}

/// If no position below `n` satisfies `p`, there is no first one.
pub proof fn lemma_first_where_none(n: int, p: spec_fn(int) -> bool)
    requires
        forall|j: int| 0 <= j < n ==> !#[trigger] p(j),
    ensures
        first_where(n, p) == None::<int>,
{
}


/// `s` is in ascending order.
pub open spec fn ascending_u32(s: Seq<u32>) -> bool {
    forall|i: int, j: int| 0 <= i < j < s.len() ==> s[i] <= s[j]
}

/// A copy of `v` in ascending order, by insertion.
pub fn sorted_u32(v: &Vec<u32>) -> (r: Vec<u32>)
    ensures
        ascending_u32(r@),
        r@.to_multiset() == v@.to_multiset(),
{
    let mut out: Vec<u32> = Vec::new();
    assert(out@ =~= v@.take(0));
    let mut i: usize = 0;
    while i < v.len()
        invariant
            i <= v@.len(),
            ascending_u32(out@),
            out@.to_multiset() == v@.take(i as int).to_multiset(),
        decreases v@.len() - i,
    {
        let n = v[i];
        let mut pos: usize = 0;
        while pos < out.len() && out[pos] <= n
            invariant
                pos <= out@.len(),
                forall|k: int| 0 <= k < pos ==> out@[k] <= n,
            decreases out@.len() - pos,
        {
            pos = pos + 1;
        }
        let ghost before = out@;
        out.insert(pos, n);
        proof {
            assert(v@.take(i + 1) =~= v@.take(i as int).push(n));
            vstd::seq_lib::to_multiset_insert(before, pos as int, n);
            vstd::seq_lib::to_multiset_build(v@.take(i as int), n);
            assert(out@ == before.insert(pos as int, n));
            assert forall|a: int, b: int| 0 <= a < b < out@.len() implies out@[a] <= out@[b] by {
                if b < pos {
                } else if b == pos {
                } else if a < pos {
                    assert(out@[b] == before[b - 1]);
                    if pos < before.len() {
                        assert(before[pos as int] > n);
                        assert(before[pos as int] <= before[b - 1]);
                    }
                } else if a == pos {
                    assert(out@[b] == before[b - 1]);
                    assert(before[pos as int] > n);
                    if b - 1 > pos {
                        assert(before[pos as int] <= before[b - 1]);
                    }
                } else {
                    assert(out@[a] == before[a - 1]);
                    assert(out@[b] == before[b - 1]);
                }
            }
        }
        i = i + 1;
    }
    proof {
        assert(v@.take(v@.len() as int) =~= v@);
    }
    out
}
} // verus!
