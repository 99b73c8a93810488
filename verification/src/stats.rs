//! Order statistics and means over token samples.

use vstd::prelude::*;
use vstd::relations::*;

use crate::wide::{
    wide_from_u128, wide_lt, wide_mul_small, wide_mul_u128, wide_pad, wide_sub, wide_value,
};

verus! {

/// The ascending order on token counts.
pub open spec fn ascending() -> spec_fn(u64, u64) -> bool {
    |a: u64, b: u64| a <= b
}

/// The samples in ascending order.
pub open spec fn sorted_samples(s: Seq<u64>) -> Seq<u64> {
    s.sort_by(ascending())
}

/// The sum of the samples.
pub open spec fn sum_of(s: Seq<u64>) -> nat
    decreases s.len(),
{
    if s.len() == 0 {
        0
    } else {
        sum_of(s.drop_last()) + s.last() as nat
    }
}

/// The integer mean of the samples, rounded down; zero for no samples.
pub open spec fn average_of(s: Seq<u64>) -> u64 {
    if s.len() == 0 {
        0
    } else {
        (sum_of(s) / s.len()) as u64
    }
}

/// The rank, counted from zero, that the `pct`-th percentile picks among `len` sorted samples:
/// `ceil(len * pct / 100) - 1`, kept within `0 ..= len - 1`.
pub open spec fn percentile_index(len: int, pct: int) -> int {
    let c = (len * pct + 99) / 100;
    let i = if c == 0 {
        0
    } else {
        c - 1
    };
    if i > len - 1 {
        len - 1
    } else {
        i
    }
}

/// The `pct`-th percentile of the samples (nearest rank); zero for no samples.
pub open spec fn percentile_of(s: Seq<u64>, pct: int) -> u64 {
    if s.len() == 0 {
        0
    } else {
        sorted_samples(s)[percentile_index(s.len() as int, pct)]
    }
}

/// The ascending order is a total order.
pub proof fn lemma_ascending_total()
    ensures
        total_ordering(ascending()),
{
    assert(reflexive(ascending()));
    assert(antisymmetric(ascending()));
    assert(transitive(ascending()));
    assert(strongly_connected(ascending()));
}

/// The sorted samples are sorted and hold the same samples.
pub proof fn lemma_sorted_samples(s: Seq<u64>)
    ensures
        sorted_by(sorted_samples(s), ascending()),
        sorted_samples(s).to_multiset() == s.to_multiset(),
        sorted_samples(s).len() == s.len(),
{
    broadcast use vstd::seq_lib::group_to_multiset_ensures;

    lemma_ascending_total();
    s.lemma_sort_by_ensures(ascending());
    s.to_multiset_ensures();
    sorted_samples(s).to_multiset_ensures();
}

/// Sorting depends only on which samples there are, not on their order.
pub proof fn lemma_sorted_samples_of_permutation(s: Seq<u64>, t: Seq<u64>)
    requires
        s.to_multiset() == t.to_multiset(),
    ensures
        sorted_samples(s) == sorted_samples(t),
{
    lemma_sorted_samples(s);
    lemma_sorted_samples(t);
    lemma_ascending_total();
    vstd::seq_lib::lemma_sorted_unique(sorted_samples(s), sorted_samples(t), ascending());
}

/// The sum after removing one sample.
pub proof fn lemma_sum_remove(s: Seq<u64>, i: int)
    requires
        0 <= i < s.len(),
    ensures
        sum_of(s) == sum_of(s.remove(i)) + s[i] as nat,
    decreases s.len(),
{
    if i == s.len() - 1 {
        assert(s.remove(i) =~= s.drop_last());
    } else {
        lemma_sum_remove(s.drop_last(), i);
        assert(s.remove(i).drop_last() =~= s.drop_last().remove(i));
        assert(s.remove(i).last() == s.last());
    }
}

/// The sum depends only on which samples there are, not on their order.
pub proof fn lemma_sum_of_permutation(s: Seq<u64>, t: Seq<u64>)
    requires
        s.to_multiset() == t.to_multiset(),
    ensures
        sum_of(s) == sum_of(t),
    decreases s.len(),
{
    broadcast use vstd::seq_lib::group_to_multiset_ensures;
    broadcast use vstd::multiset::group_multiset_axioms;

    s.to_multiset_ensures();
    t.to_multiset_ensures();
    if s.len() == 0 {
        assert(t.to_multiset().len() == 0);
    } else {
        let x = s.last();
        assert(s.drop_last().push(x) =~= s);
        assert(s.to_multiset().count(x) > 0);
        assert(t.to_multiset().count(x) > 0);
        let k = choose|k: int| 0 <= k < t.len() && t[k] == x;
        t.to_multiset_ensures();
        assert(t.remove(k).to_multiset() =~= t.to_multiset().remove(x));
        s.drop_last().to_multiset_ensures();
        assert(s.drop_last().to_multiset() =~= s.to_multiset().remove(x));
        lemma_sum_of_permutation(s.drop_last(), t.remove(k));
        lemma_sum_remove(t, k);
    }
}

/// The sum of the squares of the samples.
pub open spec fn sum_of_squares(s: Seq<u64>) -> nat
    decreases s.len(),
{
    if s.len() == 0 {
        0
    } else {
        sum_of_squares(s.drop_last()) + (s.last() as nat) * (s.last() as nat)
    }
}

/// The count of the samples times the sum of their squares, less the square of their sum:
/// `n²` times their population variance.
pub open spec fn spread(s: Seq<u64>) -> int {
    s.len() * sum_of_squares(s) - sum_of(s) * sum_of(s)
}

/// The count of the samples times the amount by which `e` exceeds their mean.
pub open spec fn excess(s: Seq<u64>, e: u64) -> int {
    s.len() * e - sum_of(s)
}

/// The z-score of `e` against the samples exceeds `milli / 1000`.
///
/// The z-score is `(e - mean) / std_dev` with the population standard deviation. With `n`
/// samples, `mean = sum / n` and `std_dev = √spread / n`, so the z-score is
/// `excess / √spread`. It exists only where the spread is positive; there it exceeds
/// `milli / 1000` exactly when the excess is positive and `(1000 · excess)²` exceeds
/// `milli² · spread`.
pub open spec fn z_score_exceeds(s: Seq<u64>, e: u64, milli: u64) -> bool {
    &&& spread(s) > 0
    &&& excess(s, e) > 0
    &&& 1_000_000 * (excess(s, e) * excess(s, e)) > (milli * milli) * spread(s)
}

/// A prefix's squares sum to no more than the whole's.
pub proof fn lemma_sum_of_squares_prefix_bounded(s: Seq<u64>, k: int)
    requires
        0 <= k <= s.len(),
    ensures
        sum_of_squares(s.take(k)) <= sum_of_squares(s),
    decreases s.len(),
{
    if k == s.len() {
        assert(s.take(k) =~= s);
    } else {
        lemma_sum_of_squares_prefix_bounded(s.drop_last(), k);
        assert(s.drop_last().take(k) =~= s.take(k));
    }
}

/// The sum of squares after removing one sample.
pub proof fn lemma_sum_of_squares_remove(s: Seq<u64>, i: int)
    requires
        0 <= i < s.len(),
    ensures
        sum_of_squares(s) == sum_of_squares(s.remove(i)) + (s[i] as nat) * (s[i] as nat),
    decreases s.len(),
{
    if i == s.len() - 1 {
        assert(s.remove(i) =~= s.drop_last());
    } else {
        lemma_sum_of_squares_remove(s.drop_last(), i);
        assert(s.remove(i).drop_last() =~= s.drop_last().remove(i));
        assert(s.remove(i).last() == s.last());
    }
}

/// The sum of squares depends only on which samples there are, not on their order.
pub proof fn lemma_sum_of_squares_of_permutation(s: Seq<u64>, t: Seq<u64>)
    requires
        s.to_multiset() == t.to_multiset(),
    ensures
        sum_of_squares(s) == sum_of_squares(t),
    decreases s.len(),
{
    broadcast use vstd::seq_lib::group_to_multiset_ensures;
    broadcast use vstd::multiset::group_multiset_axioms;

    s.to_multiset_ensures();
    t.to_multiset_ensures();
    if s.len() == 0 {
        assert(t.to_multiset().len() == 0);
    } else {
        let x = s.last();
        assert(s.drop_last().push(x) =~= s);
        assert(s.to_multiset().count(x) > 0);
        assert(t.to_multiset().count(x) > 0);
        let k = choose|k: int| 0 <= k < t.len() && t[k] == x;
        assert(t.remove(k).to_multiset() =~= t.to_multiset().remove(x));
        s.drop_last().to_multiset_ensures();
        assert(s.drop_last().to_multiset() =~= s.to_multiset().remove(x));
        lemma_sum_of_squares_of_permutation(s.drop_last(), t.remove(k));
        lemma_sum_of_squares_remove(t, k);
    }
}

/// A larger estimate has a larger z-score: once it exceeds a bound, it stays above it.
pub proof fn lemma_z_score_monotone(s: Seq<u64>, e1: u64, e2: u64, milli: u64)
    requires
        e1 <= e2,
        z_score_exceeds(s, e1, milli),
    ensures
        z_score_exceeds(s, e2, milli),
{
    let x1 = excess(s, e1);
    let x2 = excess(s, e2);
    assert(s.len() * e1 <= s.len() * e2) by (nonlinear_arith)
        requires
            e1 <= e2,
    ;
    assert(x1 * x1 <= x2 * x2) by (nonlinear_arith)
        requires
            0 < x1 <= x2,
    ;
}

/// The squares of the samples sum to no more than the square of their sum.
pub proof fn lemma_sum_of_squares_bounded(s: Seq<u64>)
    ensures
        sum_of_squares(s) <= sum_of(s) * sum_of(s),
    decreases s.len(),
{
    if s.len() > 0 {
        let r = s.drop_last();
        lemma_sum_of_squares_bounded(r);
        let q = sum_of_squares(r);
        let a = sum_of(r);
        let x = s.last() as nat;
        assert(q + x * x <= (a + x) * (a + x)) by (nonlinear_arith)
            requires
                q <= a * a,
        ;
    }
}

/// Whether the z-score of `e` against the samples exceeds `milli / 1000`.
pub fn anomaly_test(samples: &[u64], e: u64, milli: u64) -> (b: bool)
    requires
        sum_of(samples@) <= u64::MAX,
    ensures
        b == z_score_exceeds(samples@, e, milli),
{
    let ghost sv = samples@;
    let len = samples.len();
    let mut s: u64 = 0;
    let mut q: u128 = 0;
    let mut i: usize = 0;
    proof {
        lemma_sum_of_squares_bounded(sv);
        assert(sum_of(sv) * sum_of(sv) <= 0xffff_ffff_ffff_ffffu128 * 0xffff_ffff_ffff_ffffu128)
            by (nonlinear_arith)
            requires
                sum_of(sv) <= 0xffff_ffff_ffff_ffffu64,
        ;
        assert(sv.take(0) =~= Seq::<u64>::empty());
    }
    while i < len
        invariant
            len == sv.len(),
            sv == samples@,
            i <= len,
            sum_of(sv) <= u64::MAX,
            sum_of_squares(sv) <= 0xffff_ffff_ffff_ffffu128 * 0xffff_ffff_ffff_ffffu128,
            s == sum_of(sv.take(i as int)),
            q == sum_of_squares(sv.take(i as int)),
        decreases len - i,
    {
        proof {
            assert(sv.take(i + 1).drop_last() =~= sv.take(i as int));
            lemma_sum_prefix_bounded(sv, i + 1);
            lemma_sum_of_squares_prefix_bounded(sv, i + 1);
        }
        let x: u64 = samples[i];
        s = s + x;
        q = q + (x as u128) * (x as u128);
        i = i + 1;
    }
    proof {
        assert(sv.take(len as int) =~= sv);
    }
    let n: u64 = len as u64;
    let s_wide: u128 = s as u128;
    // n² times the variance: n · Σx² − (Σx)².
    let n_q = wide_mul_small(&wide_from_u128(q), n);
    let s_sq = wide_pad(&wide_from_u128(s_wide * s_wide), 3);
    if !wide_lt(&s_sq, &n_q) {
        return false;
    }
    let d = wide_sub(&n_q, &s_sq);
    // n times the amount by which the estimate exceeds the mean.
    proof {
        assert((n as u128) * (e as u128) <= 0xffff_ffff_ffff_ffffu128 * 0xffff_ffff_ffff_ffffu128)
            by (nonlinear_arith)
            requires
                n <= 0xffff_ffff_ffff_ffffu64,
                e <= 0xffff_ffff_ffff_ffffu64,
        ;
        assert((milli as u128) * (milli as u128) <= 0xffff_ffff_ffff_ffffu128
            * 0xffff_ffff_ffff_ffffu128) by (nonlinear_arith)
            requires
                milli <= 0xffff_ffff_ffff_ffffu64,
        ;
    }
    let n_e: u128 = (n as u128) * (e as u128);
    if n_e <= s_wide {
        return false;
    }
    let x: u128 = n_e - s_wide;
    let lhs = wide_mul_small(&wide_mul_u128(&wide_from_u128(x), x), 1_000_000);
    let rhs = wide_mul_u128(&d, (milli as u128) * (milli as u128));
    proof {
        assert(spread(sv) == wide_value(d@));
        assert(excess(sv, e) == x);
        assert(wide_value(lhs@) == 1_000_000 * (x * x)) by (nonlinear_arith)
            requires
                wide_value(lhs@) == (x * x) * 1_000_000,
        ;
    }
    wide_lt(&rhs, &lhs)
}

/// Samples in ascending order.
pub fn sort_ascending(v: &[u64]) -> (r: Vec<u64>)
    ensures
        r@ == sorted_samples(v@),
{
    broadcast use vstd::seq_lib::group_to_multiset_ensures;

    let mut r: Vec<u64> = Vec::new();
    let n = v.len();
    for i in 0..n
        invariant
            n == v@.len(),
            sorted_by(r@, ascending()),
            r@.to_multiset() == v@.take(i as int).to_multiset(),
    {
        let x = v[i];
        let mut j: usize = 0;
        while j < r.len() && r[j] <= x
            invariant
                j <= r.len(),
                forall|k: int| 0 <= k < j ==> r@[k] <= x,
            decreases r.len() - j,
        {
            j = j + 1;
        }
        let ghost old_r = r@;
        r.insert(j, x);
        proof {
            assert(r@ == old_r.insert(j as int, x));
            assert forall|a: int, b: int| 0 <= a < b < r@.len() implies #[trigger] (ascending())(
                r@[a],
                r@[b],
            ) by {
                if b < j {
                    assert((ascending())(old_r[a], old_r[b]));
                } else if a < j && b == j {
                } else if a < j {
                    assert((ascending())(old_r[a], old_r[b - 1]));
                } else if a == j {
                    if b - 1 > j {
                        assert((ascending())(old_r[j as int], old_r[b - 1]));
                    }
                } else {
                    assert((ascending())(old_r[a - 1], old_r[b - 1]));
                }
            }
            assert(v@.take(i + 1) =~= v@.take(i as int).push(x));
            vstd::seq_lib::to_multiset_insert(old_r, j as int, x);
            vstd::seq_lib::to_multiset_build(v@.take(i as int), x);
        }
    }
    proof {
        assert(v@.take(n as int) =~= v@);
        lemma_sorted_samples(v@);
        lemma_ascending_total();
        vstd::seq_lib::lemma_sorted_unique(r@, sorted_samples(v@), ascending());
    }
    r
}

/// The integer mean of the samples, rounded down; zero for no samples.
pub fn average(samples: &[u64]) -> (avg: u64)
    requires
        sum_of(samples@) <= u64::MAX,
    ensures
        avg == average_of(samples@),
{
    if samples.len() == 0 {
        return 0;
    }
    let mut total: u64 = 0;
    let mut i: usize = 0;
    while i < samples.len()
        invariant
            i <= samples@.len(),
            total == sum_of(samples@.take(i as int)),
            sum_of(samples@) <= u64::MAX,
        decreases samples@.len() - i,
    {
        proof {
            assert(samples@.take(i + 1).drop_last() =~= samples@.take(i as int));
            lemma_sum_prefix_bounded(samples@, i + 1);
        }
        total = total + samples[i];
        i = i + 1;
    }
    proof {
        assert(samples@.take(i as int) =~= samples@);
    }
    total / (samples.len() as u64)
}

/// Whether the samples sum to a value a `u64` holds.
pub fn sum_of_fits(samples: &[u64]) -> (fits: bool)
    ensures
        fits == (sum_of(samples@) <= u64::MAX),
{
    let mut total: u64 = 0;
    let mut i: usize = 0;
    while i < samples.len()
        invariant
            i <= samples@.len(),
            total == sum_of(samples@.take(i as int)),
        decreases samples@.len() - i,
    {
        proof {
            assert(samples@.take(i + 1).drop_last() =~= samples@.take(i as int));
        }
        match total.checked_add(samples[i]) {
            Some(t) => {
                total = t;
            },
            None => {
                proof {
                    lemma_sum_prefix_bounded(samples@, i + 1);
                }
                return false;
            },
        }
        i = i + 1;
    }
    proof {
        assert(samples@.take(i as int) =~= samples@);
    }
    true
}

/// A prefix sums to no more than the whole.
pub proof fn lemma_sum_prefix_bounded(s: Seq<u64>, k: int)
    requires
        0 <= k <= s.len(),
    ensures
        sum_of(s.take(k)) <= sum_of(s),
    decreases s.len(),
{
    if k == s.len() {
        assert(s.take(k) =~= s);
    } else {
        lemma_sum_prefix_bounded(s.drop_last(), k);
        assert(s.drop_last().take(k) =~= s.take(k));
    }
}

/// The `pct`-th percentile of the samples in any order (nearest rank); zero for no samples.
pub fn percentile(sorted_or_any: &[u64], pct: u8) -> (p: u64)
    ensures
        p == percentile_of(sorted_or_any@, pct as int),
{
    if sorted_or_any.len() == 0 {
        return 0;
    }
    let v = sort_ascending(sorted_or_any);
    let len = v.len();
    proof {
        lemma_sorted_samples(sorted_or_any@);
        assert((len as int) * (pct as int) <= (len as int) * 255) by (nonlinear_arith)
            requires
                pct <= 255,
        ;
    }
    let wide: u128 = (len as u128) * (pct as u128) + 99;
    let c: u128 = wide / 100;
    let i: u128 = if c == 0 {
        0
    } else {
        c - 1
    };
    let idx: usize = if i > (len - 1) as u128 {
        len - 1
    } else {
        i as usize
    };
    v[idx]
}


/// The percentile rank lies within the samples and grows with the percentage.
pub proof fn lemma_percentile_index(len: int, p1: int, p2: int)
    requires
        len > 0,
        0 <= p1 <= p2,
    ensures
        0 <= percentile_index(len, p1) < len,
        percentile_index(len, p1) <= percentile_index(len, p2),
        p2 >= 100 ==> percentile_index(len, p2) == len - 1,
{
    assert(len * p1 <= len * p2) by (nonlinear_arith)
        requires
            len > 0,
            p1 <= p2,
    ;
    assert(len * p1 >= 0) by (nonlinear_arith)
        requires
            len > 0,
            p1 >= 0,
    ;
    assert((len * p1 + 99) / 100 <= (len * p2 + 99) / 100) by (nonlinear_arith)
        requires
            len * p1 <= len * p2,
    ;
    if p2 >= 100 {
        assert(len * p2 >= len * 100) by (nonlinear_arith)
            requires
                len > 0,
                p2 >= 100,
        ;
    }
}

/// A percentile of some samples is one of them.
pub proof fn law_percentile_is_a_sample(s: Seq<u64>, pct: int)
    requires
        s.len() > 0,
        pct >= 0,
    ensures
        s.contains(percentile_of(s, pct)),
{
    broadcast use vstd::seq_lib::group_to_multiset_ensures;

    lemma_sorted_samples(s);
    lemma_percentile_index(s.len() as int, pct, pct);
    let t = sorted_samples(s);
    let k = percentile_index(s.len() as int, pct);
    assert(t.contains(t[k]));
    assert(t.to_multiset().count(t[k]) > 0);
}

/// A higher percentage never gives a lower percentile.
pub proof fn law_percentile_monotone(s: Seq<u64>, p1: int, p2: int)
    requires
        0 <= p1 <= p2,
    ensures
        percentile_of(s, p1) <= percentile_of(s, p2),
{
    if s.len() > 0 {
        lemma_sorted_samples(s);
        lemma_percentile_index(s.len() as int, p1, p2);
        let t = sorted_samples(s);
        let a = percentile_index(s.len() as int, p1);
        let b = percentile_index(s.len() as int, p2);
        if a < b {
            assert((ascending())(t[a], t[b]));
        }
    }
}

/// The 100th percentile is the largest sample, the 0th the smallest.
pub proof fn law_percentile_extremes(s: Seq<u64>, i: int)
    requires
        0 <= i < s.len(),
    ensures
        s[i] <= percentile_of(s, 100),
        percentile_of(s, 0) <= s[i],
{
    broadcast use vstd::seq_lib::group_to_multiset_ensures;

    lemma_sorted_samples(s);
    lemma_percentile_index(s.len() as int, 0, 100);
    let t = sorted_samples(s);
    assert(s.contains(s[i]));
    assert(s.to_multiset().count(s[i]) > 0);
    assert(t.to_multiset().count(s[i]) > 0);
    let k = choose|k: int| 0 <= k < t.len() && t[k] == s[i];
    let last = t.len() - 1;
    if k < last {
        assert((ascending())(t[k], t[last]));
    }
    if percentile_index(s.len() as int, 0) < k {
        assert((ascending())(t[percentile_index(s.len() as int, 0)], t[k]));
    } else {
        assert(percentile_index(s.len() as int, 0) == 0);
    }
}

/// Bounds on a sum from bounds on its terms.
pub proof fn lemma_sum_bounds(s: Seq<u64>, lo: u64, hi: u64)
    requires
        forall|i: int| 0 <= i < s.len() ==> lo <= #[trigger] s[i] <= hi,
    ensures
        s.len() * lo <= sum_of(s) <= s.len() * hi,
    decreases s.len(),
{
    if s.len() > 0 {
        lemma_sum_bounds(s.drop_last(), lo, hi);
        assert(s.len() * lo == (s.len() - 1) * lo + lo) by (nonlinear_arith);
        assert(s.len() * hi == (s.len() - 1) * hi + hi) by (nonlinear_arith);
    }
}

/// The mean lies between the smallest and the largest sample.
pub proof fn law_average_between(s: Seq<u64>, lo: u64, hi: u64)
    requires
        s.len() > 0,
        forall|i: int| 0 <= i < s.len() ==> lo <= #[trigger] s[i] <= hi,
    ensures
        lo <= average_of(s) <= hi,
{
    lemma_sum_bounds(s, lo, hi);
    let n = s.len() as int;
    let t = sum_of(s) as int;
    assert(lo <= t / n <= hi) by (nonlinear_arith)
        requires
            n > 0,
            n * lo <= t <= n * hi,
    ;
}

/// The mean and the percentiles depend only on which samples there are, not on their order.
pub proof fn law_statistics_ignore_order(s: Seq<u64>, t: Seq<u64>, pct: int)
    requires
        s.to_multiset() == t.to_multiset(),
    ensures
        s.len() == t.len(),
        average_of(s) == average_of(t),
        percentile_of(s, pct) == percentile_of(t, pct),
{
    broadcast use vstd::seq_lib::group_to_multiset_ensures;

    s.to_multiset_ensures();
    t.to_multiset_ensures();
    lemma_sum_of_permutation(s, t);
    lemma_sorted_samples_of_permutation(s, t);
}

} // verus!
