//! Occurrence counts and permutations of sequences.
use vstd::prelude::*;

verus! {

/// How often `x` occurs in `s`.
pub open spec fn occ<A>(s: Seq<A>, x: A) -> nat
    decreases s.len(),
{
    if s.len() == 0 {
        0
    } else {
        occ(s.drop_last(), x) + if s.last() == x { 1nat } else { 0nat }
    }
}

/// Whether `t` holds the elements of `s`, each as often, in any order.
pub open spec fn is_permutation<A>(s: Seq<A>, t: Seq<A>) -> bool {
    forall|x: A| #[trigger] occ(s, x) == occ(t, x)
}

/// Removing the element at `k` lowers its count by one.
pub proof fn lemma_occ_remove<A>(s: Seq<A>, k: int, x: A)
    requires
        0 <= k < s.len(),
    ensures
        occ(s.remove(k), x) + (if s[k] == x { 1nat } else { 0nat }) == occ(s, x),
    decreases s.len(),
{
    if k == s.len() - 1 {
        assert(s.remove(k) =~= s.drop_last());
    } else {
        lemma_occ_remove(s.drop_last(), k, x);
        assert(s.remove(k).drop_last() =~= s.drop_last().remove(k));
        assert(s.remove(k).last() == s.last());
    }
}

/// Counting one more element.
pub proof fn lemma_occ_push<A>(s: Seq<A>, y: A, x: A)
    ensures
        occ(s.push(y), x) == occ(s, x) + if y == x { 1nat } else { 0nat },
{
    assert(s.push(y).drop_last() =~= s);
}

/// An element occurs at most as often as the sequence is long.
pub proof fn lemma_occ_le_len<A>(s: Seq<A>, x: A)
    ensures
        occ(s, x) <= s.len(),
    decreases s.len(),
{
    if s.len() > 0 {
        lemma_occ_le_len(s.drop_last(), x);
    }
}

/// An element that occurs has a position.
pub proof fn lemma_occ_index<A>(s: Seq<A>, x: A) -> (k: int)
    requires
        occ(s, x) > 0,
    ensures
        0 <= k < s.len(),
        s[k] == x,
    decreases s.len(),
{
    if s.last() == x {
        s.len() - 1
    } else {
        lemma_occ_index(s.drop_last(), x)
    }
}

/// An element at a position occurs.
pub proof fn lemma_index_occ<A>(s: Seq<A>, k: int)
    requires
        0 <= k < s.len(),
    ensures
        occ(s, s[k]) > 0,
{
    lemma_occ_remove(s, k, s[k]);
}

/// Permutations have the same length.
pub proof fn lemma_permutation_len<A>(s: Seq<A>, t: Seq<A>)
    requires
        is_permutation(s, t),
    ensures
        s.len() == t.len(),
    decreases s.len(),
{
    if s.len() == 0 {
        if t.len() > 0 {
            lemma_index_occ(t, 0);
            assert(occ(s, t[0]) == occ(t, t[0]));
        }
    } else {
        let x = s.last();
        assert(occ(s, x) == occ(t, x));
        let k = lemma_occ_index(t, x);
        let t2 = t.remove(k);
        assert forall|y: A| #[trigger] occ(s.drop_last(), y) == occ(t2, y) by {
            lemma_occ_remove(t, k, y);
            assert(occ(s, y) == occ(t, y));
        }
        lemma_permutation_len(s.drop_last(), t2);
    }
}

/// Mapping both sides of a permutation gives a permutation.
pub proof fn lemma_permutation_map<A, B>(s: Seq<A>, t: Seq<A>, f: spec_fn(A) -> B)
    requires
        is_permutation(s, t),
    ensures
        is_permutation(s.map_values(f), t.map_values(f)),
    decreases s.len(),
{
    lemma_permutation_len(s, t);
    if s.len() == 0 {
        assert(s.map_values(f) =~= t.map_values(f));
    } else {
        let x = s.last();
        assert(occ(s, x) == occ(t, x));
        let k = lemma_occ_index(t, x);
        let t2 = t.remove(k);
        assert forall|y: A| #[trigger] occ(s.drop_last(), y) == occ(t2, y) by {
            lemma_occ_remove(t, k, y);
            assert(occ(s, y) == occ(t, y));
        }
        lemma_permutation_map(s.drop_last(), t2, f);
        assert(s.map_values(f).drop_last() =~= s.drop_last().map_values(f));
        assert(t2.map_values(f) =~= t.map_values(f).remove(k));
        assert forall|y: B| #[trigger] occ(s.map_values(f), y) == occ(t.map_values(f), y) by {
            lemma_occ_remove(t.map_values(f), k, y);
            assert(occ(s.drop_last().map_values(f), y) == occ(t2.map_values(f), y));
        }
    }
}

/// Removing the last element of one side and the same element of the other
/// keeps a permutation.
pub proof fn lemma_permutation_remove<A>(s: Seq<A>, t: Seq<A>, k: int)
    requires
        is_permutation(s, t),
        s.len() > 0,
        0 <= k < t.len(),
        t[k] == s.last(),
    ensures
        is_permutation(s.drop_last(), t.remove(k)),
{
    assert forall|y: A| #[trigger] occ(s.drop_last(), y) == occ(t.remove(k), y) by {
        lemma_occ_remove(t, k, y);
        assert(occ(s, y) == occ(t, y));
    }
}

} // verus!
