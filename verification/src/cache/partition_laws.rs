//! Laws of sector partitioning: the canonical member order is a total
//! preorder, sorting yields its unique sorted arrangement, and so the sector
//! map does not depend on the order in which members are offered.
use vstd::prelude::*;
use crate::cache::sector::{
    bucket_of, in_bucket, insert_sorted, member_proofs, proof_order, sector_map_spec, sectors_below,
    sort_proofs, MemberModel, ProofModel, RecordModel, SectorPartitionStrategy,
};
use crate::order::{
    lemma_list_order_basics, lemma_list_order_trans, lemma_text_order_basics, lemma_text_order_trans,
    list_order, text_order,
};
use crate::paths::components;
use crate::perm::{
    is_permutation, lemma_index_occ, lemma_occ_index, lemma_permutation_len, lemma_permutation_map,
    lemma_permutation_remove, occ,
};

verus! {

/// Whether `s` is sorted by the canonical member order.
pub open spec fn is_sorted(s: Seq<ProofModel>) -> bool {
    forall|i: int, j: int| 0 <= i < j < s.len() ==> proof_order(#[trigger] s[i], #[trigger] s[j]) <= 0
}

/// Whether no two distinct proofs among those of `s` tie in the canonical
/// order (equal member key, path components and content key).
pub open spec fn tie_free(s: Seq<ProofModel>) -> bool {
    forall|y: ProofModel, z: ProofModel|
        occ(s, y) > 0 && occ(s, z) > 0 && #[trigger] proof_order(y, z) == 0 ==> y == z
}

/// The member order is `-1`, `0` or `1`, and swapping the sides negates it.
pub proof fn lemma_proof_order_antisymmetric(p: ProofModel, q: ProofModel)
    ensures
        -1 <= proof_order(p, q) <= 1,
        proof_order(q, p) == -proof_order(p, q),
{
    lemma_text_order_basics(p.member_key, q.member_key);
    lemma_list_order_basics(components(p.relative_path), components(q.relative_path));
    lemma_text_order_basics(p.blob, q.blob);
}

/// The member order is transitive.
pub proof fn lemma_proof_order_transitive(p: ProofModel, q: ProofModel, r: ProofModel)
    requires
        proof_order(p, q) <= 0,
        proof_order(q, r) <= 0,
    ensures
        proof_order(p, r) <= 0,
{
    let (pk, qk, rk) = (p.member_key, q.member_key, r.member_key);
    lemma_text_order_basics(pk, qk);
    lemma_text_order_basics(qk, rk);
    lemma_text_order_basics(pk, rk);
    lemma_text_order_trans(pk, qk, rk);
    if text_order(pk, rk) == 0 {
        assert(pk == rk);
        let (pc, qc, rc) = (components(p.relative_path), components(q.relative_path), components(r.relative_path));
        lemma_list_order_basics(pc, qc);
        lemma_list_order_basics(qc, rc);
        lemma_list_order_basics(pc, rc);
        lemma_list_order_trans(pc, qc, rc);
        if list_order(pc, rc) == 0 {
            assert(pc == rc);
            lemma_text_order_basics(p.blob, q.blob);
            lemma_text_order_basics(q.blob, r.blob);
            lemma_text_order_trans(p.blob, q.blob, r.blob);
        }
    }
}

/// Inserting into a sorted list keeps it sorted and adds exactly `x`.
pub proof fn lemma_insert_sorted(s: Seq<ProofModel>, x: ProofModel)
    requires
        is_sorted(s),
    ensures
        is_sorted(insert_sorted(s, x)),
        is_permutation(insert_sorted(s, x), s.push(x)),
    decreases s.len(),
{
    let r = insert_sorted(s, x);
    if s.len() == 0 {
        assert(r =~= s.push(x));
    } else if proof_order(s.last(), x) > 0 {
        let dl = s.drop_last();
        let last = s.last();
        assert(is_sorted(dl));
        lemma_insert_sorted(dl, x);
        let r2 = insert_sorted(dl, x);
        assert(r == r2.push(last));
        assert forall|i: int, j: int| 0 <= i < j < r.len() implies proof_order(#[trigger] r[i], #[trigger] r[j]) <= 0 by {
            if j == r.len() - 1 {
                let y = r2[i];
                lemma_index_occ(r2, i);
                assert(dl.push(x).drop_last() =~= dl);
                assert(occ(r2, y) == occ(dl.push(x), y));
                if y == x {
                    lemma_proof_order_antisymmetric(last, x);
                } else {
                    assert(occ(dl, y) > 0);
                    let k = lemma_occ_index(dl, y);
                    assert(s[k] == y);
                    assert(proof_order(s[k], s[s.len() - 1]) <= 0);
                }
            } else {
                assert(r[i] == r2[i] && r[j] == r2[j]);
            }
        }
        assert forall|y: ProofModel| #[trigger] occ(r, y) == occ(s.push(x), y) by {
            assert(r.drop_last() =~= r2);
            assert(s.push(x).drop_last() =~= s);
            assert(occ(r2, y) == occ(dl.push(x), y));
            assert(dl.push(x).drop_last() =~= dl);
            assert(occ(dl.push(x), y) == occ(dl, y) + if x == y { 1nat } else { 0nat });
            assert(occ(s, y) == occ(dl, y) + if last == y { 1nat } else { 0nat });
            assert(occ(r, y) == occ(r2, y) + if last == y { 1nat } else { 0nat });
            assert(occ(s.push(x), y) == occ(s, y) + if x == y { 1nat } else { 0nat });
        }
    } else {
        assert forall|i: int, j: int| 0 <= i < j < r.len() implies proof_order(#[trigger] r[i], #[trigger] r[j]) <= 0 by {
            if j == r.len() - 1 {
                if i < s.len() - 1 {
                    assert(proof_order(s[i], s[s.len() - 1]) <= 0);
                    lemma_proof_order_transitive(s[i], s.last(), x);
                }
            } else {
                assert(r[i] == s[i] && r[j] == s[j]);
            }
        }
    }
}

/// Sorting yields a sorted permutation.
pub proof fn lemma_sort_proofs(s: Seq<ProofModel>)
    ensures
        is_sorted(sort_proofs(s)),
        is_permutation(sort_proofs(s), s),
    decreases s.len(),
{
    if s.len() > 0 {
        let dl = s.drop_last();
        lemma_sort_proofs(dl);
        let sd = sort_proofs(dl);
        lemma_insert_sorted(sd, s.last());
        assert forall|y: ProofModel| #[trigger] occ(sort_proofs(s), y) == occ(s, y) by {
            assert(occ(insert_sorted(sd, s.last()), y) == occ(sd.push(s.last()), y));
            assert(sd.push(s.last()).drop_last() == sd);
            assert(occ(sd, y) == occ(dl, y));
        }
    }
}

/// Two sorted arrangements of the same tie-free proofs are equal.
pub proof fn lemma_sorted_unique(a: Seq<ProofModel>, b: Seq<ProofModel>)
    requires
        is_sorted(a),
        is_sorted(b),
        is_permutation(a, b),
        tie_free(a),
    ensures
        a == b,
    decreases a.len(),
{
    lemma_permutation_len(a, b);
    if a.len() == 0 {
        assert(a =~= b);
    } else {
        let n = a.len() - 1;
        let x = a.last();
        let y = b.last();
        lemma_index_occ(a, n);
        lemma_index_occ(b, n);
        assert(occ(a, x) == occ(b, x));
        assert(occ(a, y) == occ(b, y));
        let k = lemma_occ_index(b, x);
        let k2 = lemma_occ_index(a, y);
        if k < n {
            assert(proof_order(b[k], b[n]) <= 0);
        } else {
            lemma_proof_order_antisymmetric(x, x);
        }
        if k2 < n {
            assert(proof_order(a[k2], a[n]) <= 0);
        } else {
            lemma_proof_order_antisymmetric(y, y);
        }
        lemma_proof_order_antisymmetric(x, y);
        assert(proof_order(x, y) == 0);
        assert(x == y);
        lemma_permutation_remove(a, b, n);
        assert(b.remove(n) =~= b.drop_last());
        let (ad, bd) = (a.drop_last(), b.drop_last());
        assert(is_sorted(ad));
        assert(is_sorted(bd));
        assert forall|u: ProofModel, v: ProofModel|
            occ(ad, u) > 0 && occ(ad, v) > 0 && #[trigger] proof_order(u, v) == 0 implies u == v by {
            assert(occ(a, u) >= occ(ad, u));
            assert(occ(a, v) >= occ(ad, v));
        }
        lemma_sorted_unique(ad, bd);
        assert(a =~= ad.push(x));
        assert(b =~= bd.push(y));
    }
}

/// How often a proof occurs among those of bucket `b`.
pub proof fn lemma_in_bucket_occ(key: Seq<char>, s: Seq<ProofModel>, count: u16, b: int, x: ProofModel)
    ensures
        occ(in_bucket(key, s, count, b), x)
            == if bucket_of(key, x.member_key, count) == b { occ(s, x) } else { 0 },
    decreases s.len(),
{
    if s.len() > 0 {
        lemma_in_bucket_occ(key, s.drop_last(), count, b, x);
        let rest = in_bucket(key, s.drop_last(), count, b);
        if bucket_of(key, s.last().member_key, count) == b {
            assert(rest.push(s.last()).drop_last() == rest);
        }
    }
}

/// The sectors depend on the proofs only up to permutation.
pub proof fn lemma_sectors_below_permutation(
    key: Seq<char>,
    s: Seq<ProofModel>,
    t: Seq<ProofModel>,
    count: u16,
    b: nat,
)
    requires
        is_permutation(s, t),
        tie_free(s),
    ensures
        sectors_below(key, s, count, b) == sectors_below(key, t, count, b),
    decreases b,
{
    if b > 0 {
        lemma_sectors_below_permutation(key, s, t, count, (b - 1) as nat);
        let g1 = in_bucket(key, s, count, b - 1);
        let g2 = in_bucket(key, t, count, b - 1);
        assert forall|y: ProofModel| #[trigger] occ(g1, y) == occ(g2, y) by {
            lemma_in_bucket_occ(key, s, count, b - 1, y);
            lemma_in_bucket_occ(key, t, count, b - 1, y);
            assert(occ(s, y) == occ(t, y));
        }
        lemma_permutation_len(g1, g2);
        lemma_sort_proofs(g1);
        lemma_sort_proofs(g2);
        let (s1, s2) = (sort_proofs(g1), sort_proofs(g2));
        assert forall|y: ProofModel| #[trigger] occ(s1, y) == occ(s2, y) by {
            assert(occ(s1, y) == occ(g1, y));
            assert(occ(s2, y) == occ(g2, y));
            assert(occ(g1, y) == occ(g2, y));
        }
        assert forall|u: ProofModel, v: ProofModel|
            occ(s1, u) > 0 && occ(s1, v) > 0 && #[trigger] proof_order(u, v) == 0 implies u == v by {
            assert(occ(s1, u) == occ(g1, u));
            assert(occ(s1, v) == occ(g1, v));
            lemma_in_bucket_occ(key, s, count, b - 1, u);
            lemma_in_bucket_occ(key, s, count, b - 1, v);
        }
        lemma_sorted_unique(s1, s2);
    }
}

/// The sector map does not depend on the order in which members are given:
/// any permutation of the members yields the same map, provided no two
/// distinct members yield proofs that tie in the canonical order.
pub proof fn lemma_sector_map_ignores_member_order(
    root: Seq<char>,
    root_is_file: bool,
    m1: Seq<MemberModel>,
    m2: Seq<MemberModel>,
    strategy: SectorPartitionStrategy,
)
    requires
        is_permutation(m1, m2),
        tie_free(member_proofs(root, root_is_file, m1)),
    ensures
        sector_map_spec(root, root_is_file, m1, strategy) == sector_map_spec(root, root_is_file, m2, strategy),
{
    let f = |m: MemberModel| crate::cache::sector::proof_of(root, root_is_file, m);
    lemma_permutation_map(m1, m2, f);
    lemma_permutation_len(m1, m2);
    let p1 = member_proofs(root, root_is_file, m1);
    let p2 = member_proofs(root, root_is_file, m2);
    assert(p1 == m1.map_values(f));
    assert(p2 == m2.map_values(f));
    let key = crate::cache::corpus_key(root);
    let count = crate::cache::sector::bucket_count_spec(strategy);
    lemma_sectors_below_permutation(key, p1, p2, count, count as nat);
}

/// Whether a sector holds members in the canonical order and its membership
/// summary counts them and names the keys of its first and last member.
pub open spec fn summary_names_ends(r: RecordModel) -> bool {
    &&& r.proofs.len() > 0
    &&& is_sorted(r.proofs)
    &&& r.membership.member_count == r.proofs.len()
    &&& r.membership.first_member_key == Some(r.proofs[0].member_key)
    &&& r.membership.last_member_key == Some(r.proofs[r.proofs.len() - 1].member_key)
}

/// Every sector of the buckets below `b` summarizes its ends.
proof fn lemma_sectors_below_summaries(key: Seq<char>, proofs: Seq<ProofModel>, count: u16, b: nat)
    ensures
        forall|k: int| 0 <= k < sectors_below(key, proofs, count, b).len()
            ==> summary_names_ends(#[trigger] sectors_below(key, proofs, count, b)[k]),
    decreases b,
{
    if b > 0 {
        lemma_sectors_below_summaries(key, proofs, count, (b - 1) as nat);
        let group = in_bucket(key, proofs, count, b - 1);
        let prev = sectors_below(key, proofs, count, (b - 1) as nat);
        let cur = sectors_below(key, proofs, count, b);
        if group.len() > 0 {
            lemma_sort_proofs(group);
            lemma_permutation_len(sort_proofs(group), group);
            let rec = crate::cache::sector::record_of(key, count, (b - 1) as u16, sort_proofs(group));
            assert(cur == prev.push(rec));
            assert(summary_names_ends(rec));
            assert forall|k: int| 0 <= k < cur.len() implies summary_names_ends(#[trigger] cur[k]) by {
                if k < prev.len() {
                    assert(cur[k] == prev[k]);
                }
            }
        }
    }
}

/// In every sector of a sector map the membership summary counts the
/// sector's members, which are non-empty and in the canonical order, and
/// names the member key of its first member as the first key and that of its
/// last member as the last key; so a sector of two members whose keys differ
/// has different first and last keys.
pub proof fn lemma_sector_summaries_name_first_and_last(
    root: Seq<char>,
    root_is_file: bool,
    members: Seq<MemberModel>,
    strategy: SectorPartitionStrategy,
)
    ensures
        forall|k: int| 0 <= k < sector_map_spec(root, root_is_file, members, strategy).sectors.len()
            ==> summary_names_ends(#[trigger] sector_map_spec(root, root_is_file, members, strategy).sectors[k]),
{
    let m = sector_map_spec(root, root_is_file, members, strategy);
    let proofs = members.map_values(|x: MemberModel| crate::cache::sector::proof_of(root, root_is_file, x));
    let count = crate::cache::sector::bucket_count_spec(strategy);
    lemma_sectors_below_summaries(m.corpus_key, proofs, count, count as nat);
}

} // verus!
