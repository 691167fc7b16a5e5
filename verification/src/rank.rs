//! Stable ordering of display lists by a total preorder.
use vstd::prelude::*;

verus! {

broadcast use {vstd::seq_lib::group_to_multiset_ensures, vstd::multiset::group_multiset_axioms};

/// A total preorder, named by `K`: `ranks_before(a, b)` when `a` may be
/// listed before `b`.
pub trait RankOrder<K>: Sized {
    spec fn ranks_before(&self, other: &Self) -> bool;

    proof fn lemma_rank_total(a: &Self, b: &Self)
        ensures
            a.ranks_before(b) || b.ranks_before(a),
    ;

    proof fn lemma_rank_transitive(a: &Self, b: &Self, c: &Self)
        requires
            a.ranks_before(b),
            b.ranks_before(c),
        ensures
            a.ranks_before(c),
    ;

    fn ranks_before_exec(&self, other: &Self) -> (r: bool)
        ensures
            r == self.ranks_before(other),
    ;
}

/// Every element may be listed before every later one.
pub open spec fn ranked<K, T: RankOrder<K>>(s: Seq<T>) -> bool {
    forall|i: int, j: int| 0 <= i < j < s.len() ==> #[trigger] s[i].ranks_before(&s[j])
}

/// `r` lists `v` in the order `p`: `r[i]` is `v[p[i]]`, each position of
/// `v` taken once.
pub open spec fn arranges<T>(p: Seq<int>, r: Seq<T>, v: Seq<T>) -> bool {
    &&& p.len() == r.len()
    &&& r.len() == v.len()
    &&& forall|i: int| 0 <= i < p.len() ==> 0 <= #[trigger] p[i] < v.len()
    &&& forall|i: int, j: int| 0 <= i < j < p.len() ==> #[trigger] p[i] != #[trigger] p[j]
    &&& forall|i: int| 0 <= i < p.len() ==> #[trigger] r[i] == v[p[i]]
}

/// `r` lists, in the order `p`, what `f` gives of `v`'s elements.
pub open spec fn arranges_by<T, V>(p: Seq<int>, r: Seq<T>, v: Seq<V>, f: spec_fn(T) -> V) -> bool {
    &&& p.len() == r.len()
    &&& r.len() == v.len()
    &&& forall|i: int| 0 <= i < p.len() ==> 0 <= #[trigger] p[i] < v.len()
    &&& forall|i: int, j: int| 0 <= i < j < p.len() ==> #[trigger] p[i] != #[trigger] p[j]
    &&& forall|i: int| 0 <= i < p.len() ==> f(#[trigger] r[i]) == v[p[i]]
}

/// Elements of equal rank keep the order they came in.
pub open spec fn stable_under<K, T: RankOrder<K>>(p: Seq<int>, r: Seq<T>) -> bool {
    forall|i: int, j: int|
        0 <= i < j < r.len() && #[trigger] r[j].ranks_before(&r[i]) ==> #[trigger] p[i] < p[j]
}

/// `r` is `v` in rank order, elements of equal rank in the order they
/// came in.
pub open spec fn stably_ranked<K, T: RankOrder<K>>(r: Seq<T>, v: Seq<T>) -> bool {
    &&& ranked::<K, T>(r)
    &&& r.to_multiset() == v.to_multiset()
    &&& exists|p: Seq<int>| #[trigger] arranges(p, r, v) && stable_under::<K, T>(p, r)
}

/// `r` lists, in rank order, elements whose images under `f` are `v`,
/// elements of equal rank in the order their images came in.
pub open spec fn stably_ranked_by<K, T: RankOrder<K>, V>(r: Seq<T>, v: Seq<V>, f: spec_fn(T) -> V) -> bool {
    &&& ranked::<K, T>(r)
    &&& r.map_values(f).to_multiset() == v.to_multiset()
    &&& exists|p: Seq<int>| #[trigger] arranges_by(p, r, v, f) && stable_under::<K, T>(p, r)
}

/// The elements of `v` in rank order; elements of equal rank keep their
/// order.
pub fn sort_ranked<K, T: RankOrder<K>>(v: Vec<T>) -> (r: Vec<T>)
    ensures
        stably_ranked::<K, T>(r@, v@),
{
    let ghost orig = v@;
    let ghost n = v@.len();
    let mut rest = v;
    let mut out: Vec<T> = Vec::new();
    let ghost mut perm: Seq<int> = Seq::empty();
    while rest.len() > 0
        invariant
            ranked::<K, T>(out@),
            rest@.to_multiset().add(out@.to_multiset()) == orig.to_multiset(),
            n == orig.len(),
            rest@ == orig.take(rest@.len() as int),
            rest@.len() + out@.len() == n,
            perm.len() == out@.len(),
            forall|i: int| 0 <= i < perm.len() ==> rest@.len() <= #[trigger] perm[i] < n,
            forall|i: int, j: int| 0 <= i < j < perm.len() ==> #[trigger] perm[i] != #[trigger] perm[j],
            forall|i: int| 0 <= i < perm.len() ==> #[trigger] out@[i] == orig[perm[i]],
            stable_under::<K, T>(perm, out@),
        decreases rest@.len(),
    {
        let ghost before_rest = rest@;
        let x = rest.pop().unwrap();
        assert(before_rest =~= rest@.push(x));
        let ghost k = rest@.len() as int;
        assert(x == orig[k]) by {
            assert(before_rest == orig.take(k + 1));
        }
        assert(rest@ =~= orig.take(k));
        let mut p: usize = 0;
        while p < out.len() && !x.ranks_before_exec(&out[p])
            invariant
                p <= out@.len(),
                forall|q: int| 0 <= q < p ==> !x.ranks_before(#[trigger] &out@[q]),
            decreases out@.len() - p,
        {
            p = p + 1;
        }
        let ghost old_out = out@;
        let ghost old_perm = perm;
        out.insert(p, x);
        proof {
            perm = old_perm.insert(p as int, k);
            assert forall|i: int, j: int| 0 <= i < j < out@.len() implies #[trigger] out@[i].ranks_before(
                &out@[j],
            ) by {
                if j < p {
                    assert(out@[i] == old_out[i] && out@[j] == old_out[j]);
                } else if j == p {
                    assert(out@[i] == old_out[i]);
                    assert(!x.ranks_before(&old_out[i]));
                    <T as RankOrder<K>>::lemma_rank_total(&old_out[i], &x);
                } else if i == p {
                    assert(out@[j] == old_out[j - 1]);
                    assert(x.ranks_before(&old_out[p as int]));
                    if j - 1 > p {
                        assert(old_out[p as int].ranks_before(&old_out[j - 1]));
                        <T as RankOrder<K>>::lemma_rank_transitive(&x, &old_out[p as int], &old_out[j - 1]);
                    }
                } else if i < p {
                    assert(out@[i] == old_out[i] && out@[j] == old_out[j - 1]);
                } else {
                    assert(out@[i] == old_out[i - 1] && out@[j] == old_out[j - 1]);
                }
            }
            assert(rest@.to_multiset().add(out@.to_multiset()) =~= orig.to_multiset());
            assert forall|i: int| 0 <= i < perm.len() implies rest@.len() <= #[trigger] perm[i] < n by {
                if i < p {
                    assert(perm[i] == old_perm[i]);
                } else if i > p {
                    assert(perm[i] == old_perm[i - 1]);
                }
            }
            assert forall|i: int, j: int| 0 <= i < j < perm.len() implies #[trigger] perm[i]
                != #[trigger] perm[j] by {
                if j < p {
                    assert(perm[i] == old_perm[i] && perm[j] == old_perm[j]);
                } else if j == p {
                    assert(perm[i] == old_perm[i]);
                } else if i == p {
                    assert(perm[j] == old_perm[j - 1]);
                } else if i < p {
                    assert(perm[i] == old_perm[i] && perm[j] == old_perm[j - 1]);
                } else {
                    assert(perm[i] == old_perm[i - 1] && perm[j] == old_perm[j - 1]);
                }
            }
            assert forall|i: int| 0 <= i < perm.len() implies #[trigger] out@[i] == orig[perm[i]] by {
                if i < p {
                    assert(perm[i] == old_perm[i] && out@[i] == old_out[i]);
                } else if i > p {
                    assert(perm[i] == old_perm[i - 1] && out@[i] == old_out[i - 1]);
                }
            }
            assert forall|i: int, j: int|
                0 <= i < j < out@.len() && #[trigger] out@[j].ranks_before(&out@[i]) implies #[trigger] perm[i]
                < perm[j] by {
                if j < p {
                    assert(out@[i] == old_out[i] && out@[j] == old_out[j]);
                    assert(perm[i] == old_perm[i] && perm[j] == old_perm[j]);
                } else if j == p {
                    assert(out@[i] == old_out[i]);
                    assert(!x.ranks_before(&old_out[i]));
                } else if i == p {
                    assert(perm[j] == old_perm[j - 1]);
                } else if i < p {
                    assert(out@[i] == old_out[i] && out@[j] == old_out[j - 1]);
                    assert(perm[i] == old_perm[i] && perm[j] == old_perm[j - 1]);
                } else {
                    assert(out@[i] == old_out[i - 1] && out@[j] == old_out[j - 1]);
                    assert(perm[i] == old_perm[i - 1] && perm[j] == old_perm[j - 1]);
                }
            }
        }
    }
    assert(rest@.to_multiset() =~= vstd::multiset::Multiset::empty());
    assert(out@.to_multiset() =~= orig.to_multiset());
    assert(arranges(perm, out@, orig));
    out
}

/// Sequences with the same elements keep the same elements under a map.
pub proof fn lemma_multiset_map<A, B>(a: Seq<A>, b: Seq<A>, f: spec_fn(A) -> B)
    requires
        a.to_multiset() == b.to_multiset(),
    ensures
        a.map_values(f).to_multiset() == b.map_values(f).to_multiset(),
    decreases a.len(),
{
    assert(a.to_multiset().len() == a.len());
    assert(b.to_multiset().len() == b.len());
    if a.len() == 0 {
        assert(b.len() == 0);
        assert(a.map_values(f) =~= b.map_values(f));
    } else {
        let x = a.last();
        assert(a =~= a.drop_last().push(x));
        assert(a.to_multiset().count(x) > 0);
        assert(b.contains(x));
        let i = choose|i: int| 0 <= i < b.len() && b[i] == x;
        assert(b.remove(i).to_multiset() == b.to_multiset().remove(x));
        assert(a.drop_last().to_multiset() =~= b.remove(i).to_multiset());
        lemma_multiset_map(a.drop_last(), b.remove(i), f);
        assert(a.map_values(f) =~= a.drop_last().map_values(f).push(f(x)));
        assert(b.map_values(f).remove(i) =~= b.remove(i).map_values(f));
        assert(b.map_values(f)[i] == f(x));
        assert(b.map_values(f).remove(i).to_multiset() == b.map_values(f).to_multiset().remove(f(x)));
        assert(b.map_values(f).to_multiset().count(f(x)) > 0) by {
            assert(b.map_values(f).contains(f(x)));
        }
        assert(a.map_values(f).to_multiset() =~= b.map_values(f).to_multiset());
    }
}

/// Every element of a sequence is an element of any sequence with the same
/// elements.
pub proof fn lemma_same_elements_contains<A>(a: Seq<A>, b: Seq<A>, i: int)
    requires
        a.to_multiset() == b.to_multiset(),
        0 <= i < a.len(),
    ensures
        b.contains(a[i]),
{
    assert(a.contains(a[i]));
    assert(a.to_multiset().count(a[i]) > 0);
}

} // verus!
