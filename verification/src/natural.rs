//! Natural numbers of any size, as little-endian limbs of 32 bits: enough
//! to place pedal events with exact fractions however the divisions of the
//! measures vary.

use vstd::prelude::*;

verus! {

/// The base of a limb.
pub open spec fn limb_base() -> int {
    0x1_0000_0000
}

/// The weight of limb `i`: `limb_base()` to the power `i`.
pub open spec fn limb_weight(i: nat) -> int
    decreases i,
{
    if i == 0 {
        1
    } else {
        limb_base() * limb_weight((i - 1) as nat)
    }
}

/// Limb `i` of `s`, 0 beyond its end.
pub open spec fn limb(s: Seq<u32>, i: int) -> int {
    if 0 <= i < s.len() {
        s[i] as int
    } else {
        0
    }
}

/// The value of the limbs of `s` below `i`.
pub open spec fn value_below(s: Seq<u32>, i: nat) -> int
    decreases i,
{
    if i == 0 {
        0
    } else {
        value_below(s, (i - 1) as nat) + limb(s, i - 1) * limb_weight((i - 1) as nat)
    }
}

/// The number that the limbs `s` stand for.
pub open spec fn value(s: Seq<u32>) -> int {
    value_below(s, s.len())
}

proof fn lemma_weight_positive(i: nat)
    ensures
        limb_weight(i) > 0,
    decreases i,
{
    if i > 0 {
        lemma_weight_positive((i - 1) as nat);
        assert(limb_base() * limb_weight((i - 1) as nat) > 0) by (nonlinear_arith)
            requires
                limb_weight((i - 1) as nat) > 0,
        ;
    }
}

/// The limbs below `i` stand for a number in `[0, limb_weight(i))`.
pub proof fn lemma_value_below_bounds(s: Seq<u32>, i: nat)
    ensures
        0 <= value_below(s, i) < limb_weight(i),
    decreases i,
{
    if i > 0 {
        let j = (i - 1) as nat;
        lemma_value_below_bounds(s, j);
        lemma_weight_positive(j);
        let w = limb_weight(j);
        let l = limb(s, j as int);
        assert(0 <= l < limb_base());
        assert(0 <= value_below(s, j) + l * w < limb_base() * w) by (nonlinear_arith)
            requires
                0 <= value_below(s, j) < w,
                0 <= l < limb_base(),
                w > 0,
        ;
    }
}

/// Limbs past the end add nothing.
proof fn lemma_value_below_past_end(s: Seq<u32>, i: nat)
    requires
        i >= s.len(),
    ensures
        value_below(s, i) == value(s),
    decreases i,
{
    if i > s.len() {
        lemma_value_below_past_end(s, (i - 1) as nat);
    }
}

/// Sequences that agree below `i` have the same value below `i`.
proof fn lemma_value_below_agree(s: Seq<u32>, t: Seq<u32>, i: nat)
    requires
        forall|j: int| 0 <= j < i ==> limb(s, j) == limb(t, j),
    ensures
        value_below(s, i) == value_below(t, i),
    decreases i,
{
    if i > 0 {
        lemma_value_below_agree(s, t, (i - 1) as nat);
    }
}

/// Pushing a limb adds it at the weight of its place.
proof fn lemma_value_push(s: Seq<u32>, x: u32)
    ensures
        value(s.push(x)) == value(s) + x * limb_weight(s.len()),
{
    lemma_value_below_agree(s.push(x), s, s.len());
}

/// The limbs of `x`.
pub fn nat_from_u128(x: u128) -> (r: Vec<u32>)
    ensures
        value(r@) == x,
{
    let mut r: Vec<u32> = Vec::new();
    let mut rest: u128 = x;
    while rest > 0
        invariant
            value(r@) + limb_weight(r.len() as nat) * rest == x,
        decreases rest,
    {
        let low = (rest % 0x1_0000_0000) as u32;
        let high = rest / 0x1_0000_0000;
        proof {
            lemma_value_push(r@, low);
            let w = limb_weight(r.len() as nat);
            assert(w * rest == low * w + (limb_base() * w) * high) by (nonlinear_arith)
                requires
                    rest == high * limb_base() + low,
            ;
        }
        r.push(low);
        rest = high;
    }
    r
}

/// `a` times the small factor `m`.
pub fn nat_mul_small(a: &Vec<u32>, m: u64) -> (r: Vec<u32>)
    ensures
        value(r@) == value(a@) * m,
{
    let mut r: Vec<u32> = Vec::new();
    let mut carry: u64 = 0;
    let mut i: usize = 0;
    while i < a.len()
        invariant
            i <= a.len(),
            r.len() == i,
            value(r@) + carry * limb_weight(i as nat) == value_below(a@, i as nat) * m,
        decreases a.len() - i,
    {
        let ai = a[i];
        assert(ai as int * m as int + carry as int <= 0xFFFF_FFFF * 0xFFFF_FFFF_FFFF_FFFF + 0xFFFF_FFFF_FFFF_FFFF) by (nonlinear_arith)
            requires
                ai <= 0xFFFF_FFFF,
                m <= 0xFFFF_FFFF_FFFF_FFFF,
                carry <= 0xFFFF_FFFF_FFFF_FFFF,
        ;
        let t: u128 = ai as u128 * m as u128 + carry as u128;
        let low = (t % 0x1_0000_0000) as u32;
        let high = (t / 0x1_0000_0000) as u64;
        proof {
            lemma_value_push(r@, low);
            let w = limb_weight(i as nat);
            assert(limb(a@, i as int) == ai);
            assert(value(r@) + low * w + high * (limb_base() * w)
                == (value_below(a@, i as nat) + ai * w) * m) by (nonlinear_arith)
                requires
                    value(r@) + carry * w == value_below(a@, i as nat) * m,
                    t == ai * m + carry,
                    t == high * limb_base() + low,
            ;
        }
        r.push(low);
        carry = high;
        i = i + 1;
    }
    proof {
        lemma_value_below_past_end(a@, a.len() as nat);
    }
    let c0 = (carry % 0x1_0000_0000) as u32;
    let c1 = (carry / 0x1_0000_0000) as u32;
    proof {
        let n = r.len() as nat;
        lemma_value_push(r@, c0);
        lemma_value_push(r@.push(c0), c1);
        let w = limb_weight(n);
        assert(c0 * w + c1 * (limb_base() * w) == carry * w) by (nonlinear_arith)
            requires
                carry == c1 * limb_base() + c0,
        ;
    }
    r.push(c0);
    r.push(c1);
    r
}

/// `a - b` where `a` is at least `b`, and whether `a` is less than `b`
/// (the difference is then of no use).
pub fn nat_sub(a: &Vec<u32>, b: &Vec<u32>) -> (r: (Vec<u32>, bool))
    ensures
        r.1 == (value(a@) < value(b@)),
        !r.1 ==> value(r.0@) == value(a@) - value(b@),
{
    let n: usize = if a.len() >= b.len() { a.len() } else { b.len() };
    let mut r: Vec<u32> = Vec::new();
    let mut borrow: u64 = 0;
    let mut i: usize = 0;
    while i < n
        invariant
            i <= n,
            n >= a.len(),
            n >= b.len(),
            r.len() == i,
            borrow <= 1,
            value(r@) + value_below(b@, i as nat) == value_below(a@, i as nat) + borrow * limb_weight(i as nat),
        decreases n - i,
    {
        let ai: u64 = if i < a.len() { a[i] as u64 } else { 0 };
        let bi: u64 = if i < b.len() { b[i] as u64 } else { 0 };
        assert(ai == limb(a@, i as int) && bi == limb(b@, i as int));
        let ghost old_borrow = borrow;
        let need = bi + borrow;
        let d: u64;
        if ai >= need {
            d = ai - need;
            borrow = 0;
        } else {
            d = ai + 0x1_0000_0000 - need;
            borrow = 1;
        }
        proof {
            lemma_value_push(r@, d as u32);
            let w = limb_weight(i as nat);
            let vr = value(r@);
            let vb = value_below(b@, i as nat);
            let va = value_below(a@, i as nat);
            assert(vr + d * w + (vb + bi * w) == va + ai * w + borrow * (limb_base() * w)) by (nonlinear_arith)
                requires
                    vr + vb == va + old_borrow * w,
                    d + bi + old_borrow == ai + borrow * limb_base(),
            ;
        }
        r.push(d as u32);
        i = i + 1;
    }
    proof {
        lemma_value_below_past_end(a@, n as nat);
        lemma_value_below_past_end(b@, n as nat);
        lemma_value_below_bounds(r@, n as nat);
        lemma_value_below_bounds(a@, n as nat);
    }
    (r, borrow == 1)
}

} // verus!
