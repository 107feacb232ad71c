//! Keyed stores held as sequences of entries with distinct keys, and the map
//! each of them stands for.

use vstd::prelude::*;

verus! {

/// An entry of a keyed store: the key it is found under and the value it holds.
pub trait Keyed {
    type K;

    type V;

    spec fn key(self) -> Self::K;

    spec fn val(self) -> Self::V;
}

/// No two entries share a key.
pub open spec fn unique<E: Keyed>(s: Seq<E>) -> bool {
    forall|i: int, j: int|
        0 <= i < s.len() && 0 <= j < s.len() && i != j ==> #[trigger] s[i].key() != #[trigger] s[j].key()
}

/// Some entry is found under `k`.
pub open spec fn has_key<E: Keyed>(s: Seq<E>, k: E::K) -> bool {
    exists|i: int| 0 <= i < s.len() && #[trigger] s[i].key() == k
}

/// The map from each key to the value of its entry.
pub open spec fn as_map<E: Keyed>(s: Seq<E>) -> Map<E::K, E::V> {
    Map::new(
        |k: E::K| has_key(s, k),
        |k: E::K| s[choose|i: int| 0 <= i < s.len() && #[trigger] s[i].key() == k].val(),
    )
}

pub proof fn lemma_index<E: Keyed>(s: Seq<E>, i: int)
    requires
        unique(s),
        0 <= i < s.len(),
    ensures
        as_map(s).contains_key(s[i].key()),
        as_map(s)[s[i].key()] == s[i].val(),
{
    let k = s[i].key();
    assert(has_key(s, k));
    let j = choose|j: int| 0 <= j < s.len() && #[trigger] s[j].key() == k;
    assert(j == i);
}

pub proof fn lemma_update<E: Keyed>(s: Seq<E>, i: int, e: E)
    requires
        unique(s),
        0 <= i < s.len(),
        e.key() == s[i].key(),
    ensures
        unique(s.update(i, e)),
        as_map(s.update(i, e)) == as_map(s).insert(e.key(), e.val()),
{
    let t = s.update(i, e);
    assert forall|a: int, b: int|
        0 <= a < t.len() && 0 <= b < t.len() && a != b implies #[trigger] t[a].key() != #[trigger] t[b].key() by {
        assert(s[a].key() != s[b].key());
    }
    let m1 = as_map(t);
    let m2 = as_map(s).insert(e.key(), e.val());
    assert forall|k: E::K| #[trigger] m1.contains_key(k) == m2.contains_key(k) by {
        if has_key(t, k) {
            let j = choose|j: int| 0 <= j < t.len() && #[trigger] t[j].key() == k;
            if j != i {
                assert(s[j].key() == k);
            }
        }
        if has_key(s, k) {
            let j = choose|j: int| 0 <= j < s.len() && #[trigger] s[j].key() == k;
            assert(t[j].key() == k);
        }
        if k == e.key() {
            assert(t[i].key() == k);
        }
    }
    assert forall|k: E::K| #[trigger] m1.contains_key(k) implies m1[k] == m2[k] by {
        let j = choose|j: int| 0 <= j < t.len() && #[trigger] t[j].key() == k;
        lemma_index(t, j);
        if j != i {
            assert(s[j].key() == k);
            lemma_index(s, j);
        }
    }
    assert(m1 =~= m2);
}

pub proof fn lemma_push<E: Keyed>(s: Seq<E>, e: E)
    requires
        unique(s),
        !as_map(s).contains_key(e.key()),
    ensures
        unique(s.push(e)),
        as_map(s.push(e)) == as_map(s).insert(e.key(), e.val()),
{
    let t = s.push(e);
    assert forall|a: int, b: int|
        0 <= a < t.len() && 0 <= b < t.len() && a != b implies #[trigger] t[a].key() != #[trigger] t[b].key() by {
        if a < s.len() && b < s.len() {
            assert(s[a].key() != s[b].key());
        } else if a < s.len() {
            assert(s[a].key() == t[a].key());
            if s[a].key() == e.key() {
                assert(has_key(s, e.key()));
            }
        } else if b < s.len() {
            assert(s[b].key() == t[b].key());
            if s[b].key() == e.key() {
                assert(has_key(s, e.key()));
            }
        }
    }
    let m1 = as_map(t);
    let m2 = as_map(s).insert(e.key(), e.val());
    assert forall|k: E::K| #[trigger] m1.contains_key(k) == m2.contains_key(k) by {
        if has_key(t, k) {
            let j = choose|j: int| 0 <= j < t.len() && #[trigger] t[j].key() == k;
            if j < s.len() {
                assert(s[j].key() == k);
            }
        }
        if has_key(s, k) {
            let j = choose|j: int| 0 <= j < s.len() && #[trigger] s[j].key() == k;
            assert(t[j].key() == k);
        }
        if k == e.key() {
            assert(t[s.len() as int].key() == k);
        }
    }
    assert forall|k: E::K| #[trigger] m1.contains_key(k) implies m1[k] == m2[k] by {
        let j = choose|j: int| 0 <= j < t.len() && #[trigger] t[j].key() == k;
        lemma_index(t, j);
        if j < s.len() {
            assert(s[j].key() == k);
            lemma_index(s, j);
        }
    }
    assert(m1 =~= m2);
}

pub proof fn lemma_remove<E: Keyed>(s: Seq<E>, i: int)
    requires
        unique(s),
        0 <= i < s.len(),
    ensures
        unique(s.remove(i)),
        as_map(s.remove(i)) == as_map(s).remove(s[i].key()),
{
    let t = s.remove(i);
    let ki = s[i].key();
    assert forall|a: int| 0 <= a < t.len() implies #[trigger] t[a] == (if a < i { s[a] } else { s[a + 1] }) by {}
    assert forall|a: int, b: int|
        0 <= a < t.len() && 0 <= b < t.len() && a != b implies #[trigger] t[a].key() != #[trigger] t[b].key() by {
        let sa = if a < i { a } else { a + 1 };
        let sb = if b < i { b } else { b + 1 };
        assert(t[a] == s[sa]);
        assert(t[b] == s[sb]);
        assert(s[sa].key() != s[sb].key());
    }
    let m1 = as_map(t);
    let m2 = as_map(s).remove(ki);
    assert forall|k: E::K| #[trigger] m1.contains_key(k) == m2.contains_key(k) by {
        if has_key(t, k) {
            let j = choose|j: int| 0 <= j < t.len() && #[trigger] t[j].key() == k;
            let sj = if j < i { j } else { j + 1 };
            assert(t[j] == s[sj]);
            assert(s[sj].key() == k);
            assert(s[sj].key() != ki);
        }
        if has_key(s, k) && k != ki {
            let j = choose|j: int| 0 <= j < s.len() && #[trigger] s[j].key() == k;
            assert(j != i);
            let tj = if j < i { j } else { j - 1 };
            assert(t[tj] == s[j]);
            assert(t[tj].key() == k);
        }
    }
    assert forall|k: E::K| #[trigger] m1.contains_key(k) implies m1[k] == m2[k] by {
        let j = choose|j: int| 0 <= j < t.len() && #[trigger] t[j].key() == k;
        lemma_index(t, j);
        let sj = if j < i { j } else { j + 1 };
        assert(t[j] == s[sj]);
        lemma_index(s, sj);
    }
    assert(m1 =~= m2);
}

} // verus!

verus! {

/// The sum of `f` over the entries.
pub open spec fn seq_sum<E>(s: Seq<E>, f: spec_fn(E) -> int) -> int
    decreases s.len(),
{
    if s.len() == 0 {
        0
    } else {
        seq_sum(s.drop_last(), f) + f(s.last())
    }
}

pub proof fn lemma_sum_push<E>(s: Seq<E>, e: E, f: spec_fn(E) -> int)
    ensures
        seq_sum(s.push(e), f) == seq_sum(s, f) + f(e),
{
    assert(s.push(e).drop_last() =~= s);
}

pub proof fn lemma_sum_update<E>(s: Seq<E>, i: int, e: E, f: spec_fn(E) -> int)
    requires
        0 <= i < s.len(),
    ensures
        seq_sum(s.update(i, e), f) == seq_sum(s, f) - f(s[i]) + f(e),
    decreases s.len(),
{
    let t = s.update(i, e);
    if i == s.len() - 1 {
        assert(t.drop_last() =~= s.drop_last());
    } else {
        assert(t.drop_last() =~= s.drop_last().update(i, e));
        lemma_sum_update(s.drop_last(), i, e, f);
    }
}

pub proof fn lemma_sum_remove<E>(s: Seq<E>, i: int, f: spec_fn(E) -> int)
    requires
        0 <= i < s.len(),
    ensures
        seq_sum(s.remove(i), f) == seq_sum(s, f) - f(s[i]),
    decreases s.len(),
{
    let t = s.remove(i);
    if i == s.len() - 1 {
        assert(t =~= s.drop_last());
    } else {
        assert(t.drop_last() =~= s.drop_last().remove(i));
        lemma_sum_remove(s.drop_last(), i, f);
    }
}

/// Where `f` is never negative, one entry's part is at most the whole.
pub proof fn lemma_sum_part<E>(s: Seq<E>, i: int, f: spec_fn(E) -> int)
    requires
        0 <= i < s.len(),
        forall|e: E| #[trigger] f(e) >= 0,
    ensures
        f(s[i]) <= seq_sum(s, f),
        seq_sum(s, f) >= 0,
    decreases s.len(),
{
    lemma_sum_nonneg(s.drop_last(), f);
    if i < s.len() - 1 {
        lemma_sum_part(s.drop_last(), i, f);
    }
}

pub proof fn lemma_sum_nonneg<E>(s: Seq<E>, f: spec_fn(E) -> int)
    requires
        forall|e: E| #[trigger] f(e) >= 0,
    ensures
        seq_sum(s, f) >= 0,
    decreases s.len(),
{
    if s.len() > 0 {
        lemma_sum_nonneg(s.drop_last(), f);
    }
}

} // verus!

verus! {

/// The sum of `f` over the values of a finite map.
pub open spec fn map_sum<K, V>(m: Map<K, V>, f: spec_fn(V) -> int) -> int
    decreases m.dom().len(),
    when m.dom().finite()
{
    if m.dom().len() == 0 {
        0
    } else {
        let k = m.dom().choose();
        f(m[k]) + map_sum(m.remove(k), f)
    }
}

pub proof fn lemma_map_sum_remove<K, V>(m: Map<K, V>, f: spec_fn(V) -> int, k: K)
    requires
        m.dom().finite(),
        m.contains_key(k),
    ensures
        map_sum(m, f) == f(m[k]) + map_sum(m.remove(k), f),
    decreases m.dom().len(),
{
    let c = m.dom().choose();
    assert(m.dom().contains(c));
    if c != k {
        lemma_map_sum_remove(m.remove(c), f, k);
        lemma_map_sum_remove(m.remove(k), f, c);
        assert(m.remove(c).remove(k) =~= m.remove(k).remove(c));
    }
}

pub proof fn lemma_as_map_sum<E: Keyed>(s: Seq<E>, f: spec_fn(E::V) -> int, g: spec_fn(E) -> int)
    requires
        unique(s),
        forall|e: E| #[trigger] g(e) == f(e.val()),
    ensures
        as_map(s).dom().finite(),
        as_map(s).dom().len() == s.len(),
        seq_sum(s, g) == map_sum(as_map(s), f),
    decreases s.len(),
{
    if s.len() == 0 {
        assert(as_map(s).dom() =~= Set::<E::K>::empty());
    } else {
        let t = s.drop_last();
        let e = s.last();
        assert(unique(t)) by {
            assert forall|a: int, b: int|
                0 <= a < t.len() && 0 <= b < t.len() && a != b implies #[trigger] t[a].key()
                != #[trigger] t[b].key() by {
                assert(t[a] == s[a] && t[b] == s[b]);
            }
        }
        lemma_as_map_sum(t, f, g);
        assert(!as_map(t).contains_key(e.key())) by {
            if as_map(t).contains_key(e.key()) {
                let j = choose|j: int| 0 <= j < t.len() && #[trigger] t[j].key() == e.key();
                assert(s[j].key() == s[s.len() - 1].key());
            }
        }
        assert(t.push(e) =~= s);
        lemma_push(t, e);
        let m = as_map(s);
        assert(m.remove(e.key()) =~= as_map(t));
        lemma_map_sum_remove(m, f, e.key());
    }
}

} // verus!
