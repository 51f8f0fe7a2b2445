//! Sums of a weight over the entries of a finite map or of a sequence.
use vstd::prelude::*;

verus! {

/// Sum of `w` over the values of `m`.
pub open spec fn map_sum<K, V>(m: Map<K, V>, w: spec_fn(V) -> int) -> int
    decreases m.dom().len(),
{
    if m.dom().finite() && m.dom().len() > 0 {
        let k = m.dom().choose();
        w(m[k]) + map_sum(m.remove(k), w)
    } else {
        0
    }
}

/// Removing an entry takes its weight off the sum.
pub proof fn lemma_map_sum_remove<K, V>(m: Map<K, V>, w: spec_fn(V) -> int, k: K)
    requires
        m.dom().finite(),
        m.dom().contains(k),
        forall|v: V| #[trigger] w(v) >= 0,
    ensures
        map_sum(m, w) == w(m[k]) + map_sum(m.remove(k), w),
        map_sum(m.remove(k), w) >= 0,
    decreases m.dom().len(),
{
    let c = m.dom().choose();
    assert(m.dom().len() > 0);
    if c != k {
        lemma_map_sum_remove(m.remove(c), w, k);
        lemma_map_sum_remove(m.remove(k), w, c);
        assert(m.remove(c).remove(k) =~= m.remove(k).remove(c));
    } else {
        if m.remove(k).dom().len() > 0 {
            let c2 = m.remove(k).dom().choose();
            lemma_map_sum_remove(m.remove(k), w, c2);
        }
    }
}

/// Inserting an entry adds its weight to the sum, less that of the entry it replaces.
pub proof fn lemma_map_sum_insert<K, V>(m: Map<K, V>, w: spec_fn(V) -> int, k: K, v: V)
    requires
        m.dom().finite(),
        forall|x: V| #[trigger] w(x) >= 0,
    ensures
        m.dom().contains(k) ==> map_sum(m.insert(k, v), w) == map_sum(m, w) - w(m[k]) + w(v),
        !m.dom().contains(k) ==> map_sum(m.insert(k, v), w) == map_sum(m, w) + w(v),
{
    lemma_map_sum_remove(m.insert(k, v), w, k);
    if m.dom().contains(k) {
        lemma_map_sum_remove(m, w, k);
        assert(m.insert(k, v).remove(k) =~= m.remove(k));
    } else {
        assert(m.insert(k, v).remove(k) =~= m);
    }
}

/// Sum of `w` over the elements of `s`.
pub open spec fn seq_sum<A>(s: Seq<A>, w: spec_fn(A) -> int) -> int
    decreases s.len(),
{
    if s.len() == 0 {
        0
    } else {
        w(s[0]) + seq_sum(s.drop_first(), w)
    }
}

/// With nonnegative weights, a sequence sums to at least any of its suffixes.
pub proof fn lemma_seq_sum_suffix<A>(s: Seq<A>, w: spec_fn(A) -> int, i: int)
    requires
        0 <= i <= s.len(),
        forall|x: A| #[trigger] w(x) >= 0,
    ensures
        seq_sum(s, w) >= seq_sum(s.subrange(i, s.len() as int), w) >= 0,
    decreases s.len(),
{
    if s.len() > 0 {
        lemma_seq_sum_suffix(s.drop_first(), w, if i > 0 { i - 1 } else { 0 });
        if i > 0 {
            assert(s.drop_first().subrange(i - 1, s.len() - 1) =~= s.subrange(i, s.len() as int));
        } else {
            assert(s.subrange(0, s.len() as int) =~= s);
        }
    } else {
        assert(s.subrange(i, s.len() as int) =~= s);
    }
}

} // verus!
