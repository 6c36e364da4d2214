use vstd::prelude::*;

use vstd::arithmetic::div_mod::lemma_fundamental_div_mod;
use vstd::arithmetic::mul::lemma_mul_inequality;
use vstd::arithmetic::mul::lemma_mul_strict_inequality;
use vstd::seq_lib::lemma_multiset_commutative;

verus! {

// The reducer works on order-preserving integer keys: for non-negative
// IEEE-754 single-precision values — and relative errors are non-negative by
// construction — the bit pattern read as an unsigned integer orders exactly
// as the values do, so rank selection over the keys selects the same element
// as selection over the values would.

/// Positions below `k` hold keys at most the key at `k`, and positions above
/// hold keys at least it: the key at `k` is a `k`-th smallest key.
pub open spec fn partitioned_at(s: Seq<u32>, k: int) -> bool {
    &&& forall|i: int| 0 <= i < k ==> s[i] <= s[k]
    &&& forall|j: int| k < j < s.len() ==> s[k] <= s[j]
}

/// Swapping two positions leaves a sequence's multiset of values unchanged.
proof fn lemma_swap_multiset(s: Seq<u32>, i: int, j: int)
    requires
        0 <= i < s.len(),
        0 <= j < s.len(),
    ensures
        s.update(i, s[j]).update(j, s[i]).to_multiset() == s.to_multiset(),
{
    broadcast use vstd::seq_lib::group_to_multiset_ensures;
    broadcast use vstd::multiset::group_multiset_axioms;

    let t = s.update(i, s[j]);
    if i == j {
        assert(t.update(j, s[i]) =~= s);
    } else {
        assert(s.contains(s[i]));
        assert(t.contains(t[j]));
        assert(t.update(j, s[i]).to_multiset() =~= s.to_multiset());
    }
}

/// A multiset-preserving rewrite that only touches `lo..hi` permutes the
/// values of `lo..hi` among themselves.
proof fn lemma_segment_multiset(s1: Seq<u32>, s2: Seq<u32>, lo: int, hi: int)
    requires
        s1.len() == s2.len(),
        0 <= lo <= hi <= s1.len(),
        s1.to_multiset() == s2.to_multiset(),
        forall|m: int| 0 <= m < s1.len() && !(lo <= m < hi) ==> s1[m] == s2[m],
    ensures
        s1.subrange(lo, hi).to_multiset() == s2.subrange(lo, hi).to_multiset(),
{
    broadcast use vstd::multiset::group_multiset_axioms;

    let a1 = s1.subrange(0, lo);
    let b1 = s1.subrange(lo, hi);
    let c1 = s1.subrange(hi, s1.len() as int);
    let a2 = s2.subrange(0, lo);
    let b2 = s2.subrange(lo, hi);
    let c2 = s2.subrange(hi, s2.len() as int);
    assert(a1 =~= a2);
    assert(c1 =~= c2);
    assert(s1 =~= a1 + b1 + c1);
    assert(s2 =~= a2 + b2 + c2);
    lemma_multiset_commutative(a1 + b1, c1);
    lemma_multiset_commutative(a1, b1);
    lemma_multiset_commutative(a2 + b2, c2);
    lemma_multiset_commutative(a2, b2);
    assert forall|e: u32| b1.to_multiset().count(e) == b2.to_multiset().count(e) by {
        assert(s1.to_multiset().count(e) == a1.to_multiset().count(e) + b1.to_multiset().count(e)
            + c1.to_multiset().count(e));
        assert(s2.to_multiset().count(e) == a2.to_multiset().count(e) + b2.to_multiset().count(e)
            + c2.to_multiset().count(e));
    }
    assert(b1.to_multiset() =~= b2.to_multiset());
}

/// The ascending order on keys, as a single shared function value.
pub open spec fn key_le_fn() -> spec_fn(u32, u32) -> bool {
    |x: u32, y: u32| x <= y
}

/// The keys of `s` in ascending order.
pub open spec fn sorted_keys(s: Seq<u32>) -> Seq<u32> {
    s.sort_by(key_le_fn())
}

/// `sorted_keys` holds the same keys, ascending.
pub proof fn lemma_sorted_keys(s: Seq<u32>)
    ensures
        sorted_keys(s).to_multiset() == s.to_multiset(),
        vstd::relations::sorted_by(sorted_keys(s), key_le_fn()),
        sorted_keys(s).len() == s.len(),
{
    broadcast use vstd::seq_lib::group_to_multiset_ensures;

    let r = key_le_fn();
    assert forall|x: u32, y: u32| #[trigger] r(x, y) || #[trigger] r(y, x) by {}
    assert(vstd::relations::total_ordering(r));
    s.lemma_sort_by_ensures(r);
    assert(sorted_keys(s).to_multiset().len() == s.to_multiset().len());
}

/// A sorted sequence is partitioned at every rank.
proof fn lemma_sorted_partitioned(s: Seq<u32>, k: int)
    requires
        0 <= k < s.len(),
    ensures
        partitioned_at(sorted_keys(s), k),
{
    lemma_sorted_keys(s);
    let t = sorted_keys(s);
    let r = key_le_fn();
    assert forall|i: int| 0 <= i < k implies t[i] <= t[k] by {
        assert(r(t[i], t[k]));
    }
    assert forall|j: int| k < j < t.len() implies t[k] <= t[j] by {
        assert(r(t[k], t[j]));
    }
}

/// A filter keeps everything when every element satisfies the predicate.
proof fn lemma_filter_all_true(s: Seq<u32>, pred: spec_fn(u32) -> bool)
    requires
        forall|i: int| 0 <= i < s.len() ==> pred(s[i]),
    ensures
        s.filter(pred).len() == s.len(),
    decreases s.len(),
{
    reveal(Seq::filter);
    if s.len() > 0 {
        assert(forall|i: int| 0 <= i < s.drop_last().len() ==> pred(s.drop_last()[i]));
        lemma_filter_all_true(s.drop_last(), pred);
        assert(pred(s.last()));
    }
}

/// How many elements a filter keeps depends only on the multiset of values.
proof fn lemma_filter_len_perm(s1: Seq<u32>, s2: Seq<u32>, pred: spec_fn(u32) -> bool)
    requires
        s1.to_multiset() == s2.to_multiset(),
    ensures
        s1.filter(pred).len() == s2.filter(pred).len(),
    decreases s1.len(),
{
    broadcast use vstd::seq_lib::group_to_multiset_ensures;
    broadcast use vstd::multiset::group_multiset_axioms;

    if s1.len() == 0 {
        vstd::seq_lib::to_multiset_len::<u32>(s1);
        vstd::seq_lib::to_multiset_len::<u32>(s2);
        assert(s2.len() == 0);
        reveal(Seq::filter);
    } else {
        let x = s1.last();
        assert(s1.contains(x)) by {
            assert(s1[s1.len() - 1] == x);
        }
        assert(s1.to_multiset().count(x) > 0);
        assert(s2.to_multiset().count(x) > 0);
        assert(s2.contains(x));
        let j = choose|j: int| 0 <= j < s2.len() && s2[j] == x;
        let s1p = s1.drop_last();
        let s2p = s2.remove(j);
        assert(s1.remove(s1.len() - 1) =~= s1p);
        assert(s1p.to_multiset() == s1.to_multiset().remove(x)) by {
            assert(s1.remove(s1.len() - 1).to_multiset() == s1.to_multiset().remove(
                s1[s1.len() - 1],
            ));
        }
        assert(s2p.to_multiset() == s2.to_multiset().remove(x));
        lemma_filter_len_perm(s1p, s2p, pred);
        assert(s1p.push(x) =~= s1);
        s1p.lemma_filter_len_push(pred, x);
        let a = s2.subrange(0, j);
        let b = s2.subrange(j + 1, s2.len() as int);
        assert(s2 =~= (a + seq![x]) + b);
        assert(s2p =~= a + b);
        Seq::<u32>::filter_distributes_over_add(a + seq![x], b, pred);
        Seq::<u32>::filter_distributes_over_add(a, seq![x], pred);
        Seq::<u32>::filter_distributes_over_add(a, b, pred);
        assert(seq![x] =~= Seq::<u32>::empty().push(x));
        Seq::<u32>::empty().lemma_filter_len_push(pred, x);
        assert(Seq::<u32>::empty().filter(pred).len() == 0) by {
            reveal(Seq::filter);
        }
    }
}

/// One direction of rank uniqueness: with the same keys and both partitioned
/// at `k`, the key `s1` holds at `k` is at most the key `s2` holds there.
proof fn lemma_rank_value_le(s1: Seq<u32>, s2: Seq<u32>, k: int)
    requires
        s1.to_multiset() == s2.to_multiset(),
        0 <= k < s1.len(),
        k < s2.len(),
        partitioned_at(s1, k),
        partitioned_at(s2, k),
    ensures
        s1[k] <= s2[k],
{
    if s1[k] > s2[k] {
        let x = s2[k];
        let pred = |e: u32| e <= x;
        let a2 = s2.subrange(0, k + 1);
        let b2 = s2.subrange(k + 1, s2.len() as int);
        assert(s2 =~= a2 + b2);
        Seq::<u32>::filter_distributes_over_add(a2, b2, pred);
        assert(forall|i: int| 0 <= i < a2.len() ==> pred(a2[i]));
        lemma_filter_all_true(a2, pred);
        let a1 = s1.subrange(0, k);
        let b1 = s1.subrange(k, s1.len() as int);
        assert(s1 =~= a1 + b1);
        Seq::<u32>::filter_distributes_over_add(a1, b1, pred);
        assert(forall|i: int| 0 <= i < b1.len() ==> !pred(b1[i]));
        b1.lemma_all_neg_filter_empty(pred);
        a1.lemma_filter_len(pred);
        lemma_filter_len_perm(s1, s2, pred);
        assert(false);
    }
}

/// Rank uniqueness: any two arrangements of the same keys that are both
/// partitioned at `k` hold the same key at `k` — the selected key is a
/// function of the buffer's contents alone, not of how selection reordered
/// them.
pub proof fn lemma_rank_value_unique(s1: Seq<u32>, s2: Seq<u32>, k: int)
    requires
        s1.to_multiset() == s2.to_multiset(),
        0 <= k < s1.len(),
        partitioned_at(s1, k),
        partitioned_at(s2, k),
    ensures
        s1[k] == s2[k],
{
    broadcast use vstd::seq_lib::group_to_multiset_ensures;

    vstd::seq_lib::to_multiset_len::<u32>(s1);
    vstd::seq_lib::to_multiset_len::<u32>(s2);
    assert(s1.len() == s2.len());
    lemma_rank_value_le(s1, s2, k);
    lemma_rank_value_le(s2, s1, k);
}

/// Every value of a sequence occurs in any sequence with the same multiset.
proof fn lemma_perm_contains(s1: Seq<u32>, s2: Seq<u32>)
    requires
        s1.to_multiset() == s2.to_multiset(),
    ensures
        forall|j: int| 0 <= j < s2.len() ==> s1.contains(#[trigger] s2[j]),
{
    broadcast use vstd::seq_lib::group_to_multiset_ensures;

    assert forall|j: int| 0 <= j < s2.len() implies s1.contains(s2[j]) by {
        assert(s2.contains(s2[j]));
        assert(s2.to_multiset().count(s2[j]) > 0);
        assert(s1.to_multiset().count(s2[j]) > 0);
    }
}

fn swap_keys(v: &mut Vec<u32>, i: usize, j: usize)
    requires
        i < old(v)@.len(),
        j < old(v)@.len(),
    ensures
        final(v)@ == old(v)@.update(i as int, old(v)@[j as int]).update(
            j as int,
            old(v)@[i as int],
        ),
        final(v)@.to_multiset() == old(v)@.to_multiset(),
        final(v)@.len() == old(v)@.len(),
{
    let a = v[i];
    let b = v[j];
    v.set(i, b);
    v.set(j, a);
    proof {
        lemma_swap_multiset(old(v)@, i as int, j as int);
    }
}

/// One partitioning pass over `lo..hi` around a pivot drawn from the middle:
/// afterwards the segment's values are a permutation of what they were,
/// nothing outside the segment moved, and the returned position `p` splits
/// the segment with everything left of it at most `v[p]` and everything
/// right of it at least `v[p]`.
fn partition(v: &mut Vec<u32>, lo: usize, hi: usize) -> (p: usize)
    requires
        lo < hi,
        hi <= old(v)@.len(),
    ensures
        lo <= p < hi,
        final(v)@.len() == old(v)@.len(),
        final(v)@.to_multiset() == old(v)@.to_multiset(),
        forall|m: int| 0 <= m < final(v)@.len() && !(lo <= m < hi) ==> final(v)@[m] == old(
            v,
        )@[m],
        forall|i: int| lo <= i < p ==> final(v)@[i] <= final(v)@[p as int],
        forall|j: int| p < j < hi ==> final(v)@[p as int] <= final(v)@[j],
{
    let mid = lo + (hi - lo) / 2;
    swap_keys(v, mid, hi - 1);
    let pivot = v[hi - 1];
    let mut store = lo;
    let mut idx = lo;
    while idx < hi - 1
        invariant
            lo <= store <= idx <= hi - 1 < v@.len(),
            v@.len() == old(v)@.len(),
            v@.to_multiset() == old(v)@.to_multiset(),
            forall|m: int| 0 <= m < v@.len() && !(lo <= m < hi) ==> v@[m] == old(v)@[m],
            pivot == v@[hi - 1],
            forall|i: int| lo <= i < store ==> v@[i] <= pivot,
            forall|i: int| store <= i < idx ==> v@[i] > pivot,
        decreases hi - 1 - idx,
    {
        if v[idx] <= pivot {
            swap_keys(v, idx, store);
            store += 1;
        }
        idx += 1;
    }
    swap_keys(v, store, hi - 1);
    store
}

/// Partial selection over `lo..hi`, recursing into whichever side of the
/// pivot still contains rank `k`.
fn select_range(v: &mut Vec<u32>, lo: usize, hi: usize, k: usize)
    requires
        lo <= k < hi,
        hi <= old(v)@.len(),
    ensures
        final(v)@.len() == old(v)@.len(),
        final(v)@.to_multiset() == old(v)@.to_multiset(),
        forall|m: int| 0 <= m < final(v)@.len() && !(lo <= m < hi) ==> final(v)@[m] == old(
            v,
        )@[m],
        forall|i: int| lo <= i < k ==> final(v)@[i] <= final(v)@[k as int],
        forall|j: int| k < j < hi ==> final(v)@[k as int] <= final(v)@[j],
    decreases hi - lo,
{
    let p = partition(v, lo, hi);
    if k < p {
        let ghost v1 = v@;
        select_range(v, lo, p, k);
        proof {
            lemma_segment_multiset(v1, v@, lo as int, p as int);
            lemma_perm_contains(v1.subrange(lo as int, p as int), v@.subrange(lo as int, p as int));
            assert forall|j: int| k < j < hi implies v@[k as int] <= v@[j] by {
                let seg_new = v@.subrange(lo as int, p as int);
                let seg_old = v1.subrange(lo as int, p as int);
                assert(seg_new[k - lo] == v@[k as int]);
                assert(seg_old.contains(v@[k as int]));
                let m = choose|m: int| 0 <= m < seg_old.len() && seg_old[m] == v@[k as int];
                assert(v1[lo + m] == v@[k as int]);
                assert(v1[lo + m] <= v1[p as int]);
                if j >= p {
                    assert(v@[j] == v1[j]);
                }
            }
        }
    } else if k > p {
        let ghost v1 = v@;
        select_range(v, p + 1, hi, k);
        proof {
            lemma_segment_multiset(v1, v@, p + 1, hi as int);
            lemma_perm_contains(
                v1.subrange(p + 1, hi as int),
                v@.subrange(p + 1, hi as int),
            );
            assert forall|i: int| lo <= i < k implies v@[i] <= v@[k as int] by {
                let seg_new = v@.subrange(p + 1, hi as int);
                let seg_old = v1.subrange(p + 1, hi as int);
                assert(seg_new[k - (p + 1)] == v@[k as int]);
                assert(seg_old.contains(v@[k as int]));
                let m = choose|m: int| 0 <= m < seg_old.len() && seg_old[m] == v@[k as int];
                assert(v1[p + 1 + m] == v@[k as int]);
                assert(v1[p as int] <= v1[p + 1 + m]);
                if i <= p {
                    assert(v@[i] == v1[i]);
                }
            }
        }
    }
}

/// Partially selects the `k`-th smallest key, in O(len) average time rather
/// than by a full sort: afterwards the buffer holds a permutation of its old
/// keys, partitioned at `k`, so position `k` holds the `k`-th order
/// statistic of the original contents.
pub fn select_rank(v: &mut Vec<u32>, k: usize)
    requires
        k < old(v)@.len(),
    ensures
        final(v)@.len() == old(v)@.len(),
        final(v)@.to_multiset() == old(v)@.to_multiset(),
        partitioned_at(final(v)@, k as int),
        final(v)@[k as int] == sorted_keys(old(v)@)[k as int],
{
    let n = v.len();
    select_range(v, 0, n, k);
    proof {
        lemma_sorted_keys(old(v)@);
        lemma_sorted_partitioned(old(v)@, k as int);
        lemma_rank_value_unique(v@, sorted_keys(old(v)@), k as int);
    }
}

/// The smallest key at or after position `from`: after a selection at rank
/// `k`, `min_from(v, k + 1)` is the minimum of the higher-ranked keys.
pub fn min_from(v: &Vec<u32>, from: usize) -> (r: u32)
    requires
        from < v@.len(),
    ensures
        forall|i: int| from <= i < v@.len() ==> r <= v@[i],
        exists|i: int| from <= i < v@.len() && r == v@[i],
{
    let mut r = v[from];
    let n = v.len();
    for i in (from + 1)..n
        invariant
            from < i <= n == v@.len(),
            forall|j: int| from <= j < i ==> r <= v@[j],
            exists|j: int| from <= j < i && r == v@[j],
    {
        if v[i] < r {
            r = v[i];
        }
    }
    r
}

/// The largest key in the buffer (the maximum error of a run).
pub fn max_value(v: &Vec<u32>) -> (r: u32)
    requires
        v@.len() > 0,
    ensures
        forall|i: int| 0 <= i < v@.len() ==> v@[i] <= r,
        exists|i: int| 0 <= i < v@.len() && r == v@[i],
{
    let mut r = v[0];
    let n = v.len();
    for i in 1..n
        invariant
            0 < i <= n == v@.len(),
            forall|j: int| 0 <= j < i ==> v@[j] <= r,
            exists|j: int| 0 <= j < i && r == v@[j],
    {
        if v[i] > r {
            r = v[i];
        }
    }
    r
}

/// The two order statistics a percentile interpolates between.
///
/// For a buffer of length `len` and a percentile `p = p_num / p_den`, the
/// selected rank is `⌊len · p⌋` and the fractional part of `len · p` is
/// `frac_num / frac_den`.  When the fraction is zero the percentile is
/// `lower` itself; otherwise it is `lower · frac + upper · (1 − frac)` — the
/// interpolation deliberately weights the *lower* neighbour by the
/// fractional part, preserving the reducer's established output.
#[derive(Clone, Copy, PartialEq, Eq, Structural, Debug)]
pub struct RankPoints {
    /// The selected rank, `⌊len · p⌋`.
    pub rank: usize,
    /// The key at the selected rank.
    pub lower: u32,
    /// The smallest key above the selected rank; `lower` itself when the
    /// selected rank is the last position.
    pub upper: u32,
    /// Numerator of the fractional part of `len · p`.
    pub frac_num: usize,
    /// Denominator of the fractional part of `len · p`.
    pub frac_den: usize,
}

/// Computes the interpolation points of the `p_num / p_den` percentile by
/// partial selection, reordering the buffer (but never changing its multiset
/// of keys) in the process: `lower` is the key at rank `⌊len · p⌋` and
/// `upper` the smallest key above that rank.
pub fn percentile_points(v: &mut Vec<u32>, p_num: usize, p_den: usize) -> (r: RankPoints)
    requires
        old(v)@.len() >= 1,
        0 < p_den,
        p_num < p_den,
        old(v)@.len() * p_num <= usize::MAX,
    ensures
        final(v)@.len() == old(v)@.len(),
        final(v)@.to_multiset() == old(v)@.to_multiset(),
        r.rank == old(v)@.len() * p_num / (p_den as int),
        r.frac_num == (old(v)@.len() * p_num) % (p_den as int),
        r.frac_den == p_den,
        r.rank < final(v)@.len(),
        partitioned_at(final(v)@, r.rank as int),
        r.lower == final(v)@[r.rank as int],
        r.lower == sorted_keys(old(v)@)[r.rank as int],
        r.rank + 1 == final(v)@.len() ==> r.upper == r.lower,
        r.rank + 1 < final(v)@.len() ==> r.upper == sorted_keys(old(v)@)[r.rank + 1],
        r.rank + 1 < final(v)@.len() ==> (forall|j: int|
            r.rank < j < final(v)@.len() ==> r.upper <= final(v)@[j]) && (exists|j: int|
            r.rank < j < final(v)@.len() && r.upper == final(v)@[j]),
{
    let n = v.len();
    let t = n * p_num;
    let k = t / p_den;
    let rem = t % p_den;
    proof {
        lemma_fundamental_div_mod(t as int, p_den as int);
        assert(t as int == p_den as int * (t as int / p_den as int) + (t as int % p_den as int));
        if k >= n {
            assert(k as int == t as int / p_den as int);
            lemma_mul_inequality(n as int, k as int, p_den as int);
            assert((n as int) * (p_den as int) <= (k as int) * (p_den as int));
            lemma_mul_strict_inequality(p_num as int, p_den as int, n as int);
            assert((p_num as int) * (n as int) < (p_den as int) * (n as int));
            assert(t as int >= (p_den as int) * (k as int));
            assert(false) by (nonlinear_arith)
                requires
                    t as int == (n as int) * (p_num as int),
                    (n as int) * (p_den as int) <= (k as int) * (p_den as int),
                    (p_num as int) * (n as int) < (p_den as int) * (n as int),
                    t as int >= (p_den as int) * (k as int),
            ;
        }
    }
    select_rank(v, k);
    let lower = v[k];
    let upper = if k + 1 < n {
        min_from(v, k + 1)
    } else {
        lower
    };
    proof {
        if k + 1 < n {
            // Moving the minimum of the tail to position k + 1 partitions the
            // keys at rank k + 1, so that minimum is the sorted value there.
            let j0 = choose|j: int| k + 1 <= j < v@.len() && upper == v@[j];
            let w = v@.update(k + 1, upper).update(j0, v@[k + 1]);
            lemma_swap_multiset(v@, k + 1, j0);
            assert forall|i: int| 0 <= i < k + 1 implies #[trigger] w[i] <= w[k + 1] by {
                assert(w[i] == v@[i]);
                assert(v@[k as int] <= upper);
            }
            assert forall|j: int| k + 1 < j < w.len() implies w[k + 1] <= #[trigger] w[j] by {
                if j != j0 {
                    assert(w[j] == v@[j]);
                }
            }
            assert(partitioned_at(w, k + 1));
            lemma_sorted_keys(old(v)@);
            lemma_sorted_partitioned(old(v)@, k + 1);
            lemma_rank_value_unique(w, sorted_keys(old(v)@), k + 1);
        }
    }
    RankPoints { rank: k, lower, upper, frac_num: rem, frac_den: p_den }
}

} // verus!
