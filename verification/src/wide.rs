//! Natural numbers of any width, held as little-endian 64-bit limbs.

use vstd::prelude::*;

verus! {

/// The base of one limb: 2^64.
pub open spec fn limb_base() -> nat {
    0x1_0000_0000_0000_0000nat
}

/// The weight of the limb at position `i`.
pub open spec fn limb_pow(i: nat) -> nat
    decreases i,
{
    if i == 0 {
        1
    } else {
        limb_base() * limb_pow((i - 1) as nat)
    }
}

/// The number that little-endian limbs stand for.
pub open spec fn wide_value(s: Seq<u64>) -> nat
    decreases s.len(),
{
    if s.len() == 0 {
        0
    } else {
        s[0] as nat + limb_base() * wide_value(s.drop_first())
    }
}

/// Limb weights are positive.
pub proof fn lemma_limb_pow_positive(i: nat)
    ensures
        limb_pow(i) >= 1,
    decreases i,
{
    if i > 0 {
        lemma_limb_pow_positive((i - 1) as nat);
        assert(limb_base() * limb_pow((i - 1) as nat) >= 1) by (nonlinear_arith)
            requires
                limb_pow((i - 1) as nat) >= 1,
        ;
    }
}

/// A limb added at the top counts with the weight of its position.
pub proof fn lemma_wide_push(s: Seq<u64>, d: u64)
    ensures
        wide_value(s.push(d)) == wide_value(s) + d * limb_pow(s.len()),
    decreases s.len(),
{
    if s.len() == 0 {
        assert(s.push(d).drop_first() =~= Seq::<u64>::empty());
        assert(wide_value(Seq::<u64>::empty()) == 0);
        assert(s.push(d)[0] == d);
        assert(limb_pow(0) == 1);
    } else {
        let r = s.drop_first();
        assert(s.push(d).drop_first() =~= r.push(d));
        assert(s.push(d)[0] == s[0]);
        lemma_wide_push(r, d);
        let b = limb_base();
        let vr = wide_value(r);
        let p = limb_pow(r.len());
        assert(limb_pow(s.len()) == b * p);
        assert(b * (vr + d * p) == b * vr + d * (b * p)) by (nonlinear_arith);
    }
}

/// Limbs stand for less than the weight of the next position.
pub proof fn lemma_wide_bound(s: Seq<u64>)
    ensures
        wide_value(s) < limb_pow(s.len()),
    decreases s.len(),
{
    if s.len() > 0 {
        let r = s.drop_first();
        lemma_wide_bound(r);
        let b = limb_base();
        let vr = wide_value(r);
        let p = limb_pow(r.len());
        let x = s[0] as nat;
        assert(x + b * vr < b * p) by (nonlinear_arith)
            requires
                x < b,
                vr + 1 <= p,
        ;
    }
}

/// The limbs below position `i + 1` are those below `i` and the one at `i`.
proof fn lemma_take_push(s: Seq<u64>, i: int)
    requires
        0 <= i < s.len(),
    ensures
        wide_value(s.take(i + 1)) == wide_value(s.take(i)) + s[i] * limb_pow(i as nat),
{
    assert(s.take(i + 1) =~= s.take(i).push(s[i]));
    lemma_wide_push(s.take(i), s[i]);
}

/// The limbs of a `u128`.
pub fn wide_from_u128(x: u128) -> (r: Vec<u64>)
    ensures
        r@.len() == 2,
        wide_value(r@) == x,
{
    let lo: u64 = (x % 0x1_0000_0000_0000_0000u128) as u64;
    let hi: u64 = (x / 0x1_0000_0000_0000_0000u128) as u64;
    let mut r: Vec<u64> = Vec::new();
    r.push(lo);
    r.push(hi);
    proof {
        let tail = r@.drop_first();
        assert(tail =~= seq![hi]);
        assert(tail.drop_first() =~= Seq::<u64>::empty());
        assert(wide_value(tail.drop_first()) == 0);
        assert(wide_value(tail) == hi);
        assert(x == lo + limb_base() * hi);
    }
    r
}

/// The same number with `n` limbs.
pub fn wide_pad(a: &Vec<u64>, n: usize) -> (r: Vec<u64>)
    requires
        a@.len() <= n,
    ensures
        r@.len() == n,
        wide_value(r@) == wide_value(a@),
{
    let mut r = a.clone();
    proof {
        assert(r@ =~= a@);
    }
    while r.len() < n
        invariant
            r@.len() <= n,
            wide_value(r@) == wide_value(a@),
        decreases n - r@.len(),
    {
        proof {
            lemma_wide_push(r@, 0);
        }
        r.push(0);
    }
    r
}

/// The number times `2^64`.
pub fn wide_shift(a: &Vec<u64>) -> (r: Vec<u64>)
    ensures
        r@.len() == a@.len() + 1,
        wide_value(r@) == limb_base() * wide_value(a@),
{
    let mut r = a.clone();
    proof {
        assert(r@ =~= a@);
    }
    r.insert(0, 0);
    proof {
        assert(r@.drop_first() =~= a@);
    }
    r
}

/// The number times a limb.
pub fn wide_mul_small(a: &Vec<u64>, k: u64) -> (r: Vec<u64>)
    ensures
        r@.len() == a@.len() + 1,
        wide_value(r@) == wide_value(a@) * k,
{
    let n = a.len();
    let mut r: Vec<u64> = Vec::new();
    let mut carry: u128 = 0;
    let mut i: usize = 0;
    proof {
        assert(a@.take(0) =~= Seq::<u64>::empty());
        assert(wide_value(r@) == 0);
    }
    while i < n
        invariant
            n == a@.len(),
            i <= n,
            r@.len() == i,
            carry < limb_base(),
            wide_value(r@) + carry * limb_pow(i as nat) == wide_value(a@.take(i as int)) * k,
        decreases n - i,
    {
        let ai: u128 = a[i] as u128;
        proof {
            assert(ai * (k as u128) + carry <= 0xffff_ffff_ffff_ffffu128 * 0xffff_ffff_ffff_ffffu128
                + 0xffff_ffff_ffff_ffffu128) by (nonlinear_arith)
                requires
                    ai <= 0xffff_ffff_ffff_ffffu128,
                    k <= 0xffff_ffff_ffff_ffffu64,
                    carry <= 0xffff_ffff_ffff_ffffu128,
            ;
        }
        let p: u128 = ai * (k as u128) + carry;
        let limb: u64 = (p % 0x1_0000_0000_0000_0000u128) as u64;
        let next: u128 = p / 0x1_0000_0000_0000_0000u128;
        proof {
            let old_r = r@;
            lemma_wide_push(old_r, limb);
            lemma_take_push(a@, i as int);
            let w = limb_pow(i as nat);
            let b = limb_base();
            assert(p == limb + b * next);
            assert(limb_pow((i + 1) as nat) == b * w);
            let va = wide_value(a@.take(i as int));
            assert(wide_value(old_r) + limb * w + next * (b * w) == va * k + (a[i as int] * w) * k)
                by (nonlinear_arith)
                requires
                    wide_value(old_r) + carry * w == va * k,
                    p == limb + b * next,
                    p == ai * k + carry,
                    ai == a[i as int],
            ;
            assert((va + a[i as int] * w) * k == va * k + (a[i as int] * w) * k) by (nonlinear_arith);
        }
        r.push(limb);
        carry = next;
        i = i + 1;
    }
    proof {
        assert(a@.take(n as int) =~= a@);
        lemma_wide_push(r@, carry as u64);
    }
    r.push(carry as u64);
    r
}

/// The sum of two numbers with the same number of limbs.
pub fn wide_add(a: &Vec<u64>, b: &Vec<u64>) -> (r: Vec<u64>)
    requires
        a@.len() == b@.len(),
    ensures
        r@.len() == a@.len() + 1,
        wide_value(r@) == wide_value(a@) + wide_value(b@),
{
    let n = a.len();
    let mut r: Vec<u64> = Vec::new();
    let mut carry: u128 = 0;
    let mut i: usize = 0;
    proof {
        assert(a@.take(0) =~= Seq::<u64>::empty());
        assert(b@.take(0) =~= Seq::<u64>::empty());
        assert(wide_value(r@) == 0);
    }
    while i < n
        invariant
            n == a@.len(),
            n == b@.len(),
            i <= n,
            r@.len() == i,
            carry <= 1,
            wide_value(r@) + carry * limb_pow(i as nat) == wide_value(a@.take(i as int))
                + wide_value(b@.take(i as int)),
        decreases n - i,
    {
        let p: u128 = a[i] as u128 + b[i] as u128 + carry;
        let limb: u64 = (p % 0x1_0000_0000_0000_0000u128) as u64;
        let next: u128 = p / 0x1_0000_0000_0000_0000u128;
        proof {
            let old_r = r@;
            lemma_wide_push(old_r, limb);
            lemma_take_push(a@, i as int);
            lemma_take_push(b@, i as int);
            let w = limb_pow(i as nat);
            let base = limb_base();
            assert(p == limb + base * next);
            assert(limb_pow((i + 1) as nat) == base * w);
            assert(limb * w + next * (base * w) == p * w) by (nonlinear_arith)
                requires
                    p == limb + base * next,
            ;
            assert(p * w == a[i as int] * w + b[i as int] * w + carry * w) by (nonlinear_arith)
                requires
                    p == a[i as int] + b[i as int] + carry,
            ;
        }
        r.push(limb);
        carry = next;
        i = i + 1;
    }
    proof {
        assert(a@.take(n as int) =~= a@);
        assert(b@.take(n as int) =~= b@);
        lemma_wide_push(r@, carry as u64);
    }
    r.push(carry as u64);
    r
}

/// The difference of two numbers with the same number of limbs, the first no smaller.
pub fn wide_sub(a: &Vec<u64>, b: &Vec<u64>) -> (r: Vec<u64>)
    requires
        a@.len() == b@.len(),
        wide_value(a@) >= wide_value(b@),
    ensures
        r@.len() == a@.len(),
        wide_value(r@) == wide_value(a@) - wide_value(b@),
{
    let n = a.len();
    let mut r: Vec<u64> = Vec::new();
    let mut borrow: u64 = 0;
    let mut i: usize = 0;
    proof {
        assert(a@.take(0) =~= Seq::<u64>::empty());
        assert(b@.take(0) =~= Seq::<u64>::empty());
        assert(wide_value(r@) == 0);
    }
    while i < n
        invariant
            n == a@.len(),
            n == b@.len(),
            i <= n,
            r@.len() == i,
            borrow <= 1,
            wide_value(r@) + wide_value(b@.take(i as int)) == wide_value(a@.take(i as int))
                + borrow * limb_pow(i as nat),
        decreases n - i,
    {
        let ai = a[i];
        let bi = b[i];
        let limb: u64;
        let next: u64;
        if (ai as u128) >= (bi as u128) + (borrow as u128) {
            limb = ai - bi - borrow;
            next = 0;
        } else {
            limb = ((ai as u128) + 0x1_0000_0000_0000_0000u128 - (bi as u128) - (borrow as u128)) as u64;
            next = 1;
        }
        proof {
            let old_r = r@;
            lemma_wide_push(old_r, limb);
            lemma_take_push(a@, i as int);
            lemma_take_push(b@, i as int);
            let w = limb_pow(i as nat);
            let base = limb_base();
            assert(limb_pow((i + 1) as nat) == base * w);
            assert(limb + bi == ai + next * base - borrow);
            assert(limb * w + bi * w == ai * w + next * (base * w) - borrow * w) by (nonlinear_arith)
                requires
                    limb + bi == ai + next * base - borrow,
            ;
        }
        r.push(limb);
        borrow = next;
        i = i + 1;
    }
    proof {
        assert(a@.take(n as int) =~= a@);
        assert(b@.take(n as int) =~= b@);
        lemma_wide_bound(r@);
        if borrow == 1 {
            assert(wide_value(r@) + wide_value(b@) == wide_value(a@) + limb_pow(n as nat));
        }
    }
    r
}

/// The limbs at and above position `i` agree.
pub open spec fn same_from(a: Seq<u64>, b: Seq<u64>, i: int) -> bool {
    forall|j: int| i <= j < a.len() ==> a[j] == b[j]
}

/// Numbers whose limbs agree from position `i` up differ as their lower limbs do.
proof fn lemma_same_from(a: Seq<u64>, b: Seq<u64>, i: int)
    requires
        a.len() == b.len(),
        0 <= i <= a.len(),
        same_from(a, b, i),
    ensures
        wide_value(a) - wide_value(b) == wide_value(a.take(i)) - wide_value(b.take(i)),
    decreases a.len() - i,
{
    if i < a.len() {
        lemma_take_push(a, i);
        lemma_take_push(b, i);
        lemma_same_from(a, b, i + 1);
    } else {
        assert(a.take(i) =~= a);
        assert(b.take(i) =~= b);
    }
}

/// Whether the first of two numbers with the same number of limbs is the smaller.
pub fn wide_lt(a: &Vec<u64>, b: &Vec<u64>) -> (lt: bool)
    requires
        a@.len() == b@.len(),
    ensures
        lt == (wide_value(a@) < wide_value(b@)),
{
    let n = a.len();
    let mut i: usize = n;
    while i > 0
        invariant
            n == a@.len(),
            n == b@.len(),
            i <= n,
            same_from(a@, b@, i as int),
        decreases i,
    {
        let k = i - 1;
        if a[k] != b[k] {
            proof {
                lemma_same_from(a@, b@, k + 1);
                lemma_take_push(a@, k as int);
                lemma_take_push(b@, k as int);
                lemma_wide_bound(a@.take(k as int));
                lemma_wide_bound(b@.take(k as int));
                let w = limb_pow(k as nat);
                let va = wide_value(a@.take(k as int));
                let vb = wide_value(b@.take(k as int));
                if a[k as int] < b[k as int] {
                    assert(va + a[k as int] * w < vb + b[k as int] * w) by (nonlinear_arith)
                        requires
                            va < w,
                            a[k as int] + 1 <= b[k as int],
                            vb >= 0,
                    ;
                } else {
                    assert(vb + b[k as int] * w < va + a[k as int] * w) by (nonlinear_arith)
                        requires
                            vb < w,
                            b[k as int] + 1 <= a[k as int],
                            va >= 0,
                    ;
                }
            }
            return a[k] < b[k];
        }
        i = k;
    }
    proof {
        lemma_same_from(a@, b@, 0);
        assert(a@.take(0) =~= Seq::<u64>::empty());
        assert(b@.take(0) =~= Seq::<u64>::empty());
    }
    false
}

/// The number times a `u128`.
pub fn wide_mul_u128(a: &Vec<u64>, k: u128) -> (r: Vec<u64>)
    requires
        a@.len() + 3 <= usize::MAX,
    ensures
        r@.len() == a@.len() + 3,
        wide_value(r@) == wide_value(a@) * k,
{
    let lo: u64 = (k % 0x1_0000_0000_0000_0000u128) as u64;
    let hi: u64 = (k / 0x1_0000_0000_0000_0000u128) as u64;
    let low_part = wide_mul_small(a, lo);
    let high_part = wide_shift(&wide_mul_small(a, hi));
    let n = a.len() + 2;
    let low_padded = wide_pad(&low_part, n);
    let r = wide_add(&low_padded, &high_part);
    proof {
        let v = wide_value(a@);
        assert(k == lo + limb_base() * hi);
        assert(v * lo + limb_base() * (v * hi) == v * k) by (nonlinear_arith)
            requires
                k == lo + limb_base() * hi,
        ;
    }
    r
}

} // verus!
