//! Fixed-point scalar arithmetic.
//!
//! A real number `x` is represented by the integer `x * SCALE`, rounded
//! toward zero. Products and quotients are computed on magnitudes with the
//! sign applied afterwards, so their mathematical definitions (`fmul`,
//! `fdiv`) only ever divide non-negative integers.

use vstd::prelude::*;
use vstd::arithmetic::div_mod::{lemma_div_is_ordered, lemma_div_pos_is_pos};

verus! {

/// Number of fixed-point units per whole unit: values are in thousandths.
pub const SCALE: i64 = 1000;

/// Magnitude of an integer.
pub open spec fn abs_int(a: int) -> int {
    if a < 0 {
        -a
    } else {
        a
    }
}

/// Fixed-point product: `(a/SCALE) * (b/SCALE)` scaled back, rounded toward zero.
pub open spec fn fmul(a: int, b: int) -> int {
    if (a < 0) == (b < 0) {
        abs_int(a) * abs_int(b) / 1000
    } else {
        -(abs_int(a) * abs_int(b) / 1000)
    }
}

/// Fixed-point quotient: `(a/SCALE) / (b/SCALE)` scaled back, rounded toward zero.
pub open spec fn fdiv(a: int, b: int) -> int {
    if (a < 0) == (b < 0) {
        abs_int(a) * 1000 / abs_int(b)
    } else {
        -(abs_int(a) * 1000 / abs_int(b))
    }
}

/// `r` is the integer square root of `n`, rounded down.
pub open spec fn is_sqrt_of(n: int, r: int) -> bool {
    &&& 0 <= r
    &&& r * r <= n
    &&& n < (r + 1) * (r + 1)
}

/// The integer square root, rounded down (for non-negative arguments).
pub open spec fn sqrt_floor(n: int) -> int {
    choose|r: int| is_sqrt_of(n, r)
}

/// Fixed-point square root: `sqrt(x/SCALE)` scaled, rounded down.
pub open spec fn fsqrt(x: int) -> int {
    sqrt_floor(x * 1000)
}

/// Two integer square roots of the same number coincide.
proof fn lemma_sqrt_unique(n: int, a: int, b: int)
    by (nonlinear_arith)
    requires
        0 <= a,
        a * a <= n,
        n < (a + 1) * (a + 1),
        0 <= b,
        b * b <= n,
        n < (b + 1) * (b + 1),
    ensures
        a == b,
{
}

/// Every non-negative integer has an integer square root.
pub proof fn lemma_sqrt_exists(n: int)
    requires
        0 <= n,
    ensures
        is_sqrt_of(n, sqrt_floor(n)),
    decreases n,
{
    if n == 0 {
        assert(is_sqrt_of(0, 0)) by (nonlinear_arith);
    } else {
        lemma_sqrt_exists(n - 1);
        let p: int = sqrt_floor(n - 1);
        if (p + 1) * (p + 1) <= n {
            assert(is_sqrt_of(n, p + 1)) by (nonlinear_arith)
                requires
                    0 <= p,
                    p * p <= n - 1,
                    n - 1 < (p + 1) * (p + 1),
                    (p + 1) * (p + 1) <= n;
        } else {
            assert(is_sqrt_of(n, p));
        }
    }
    let w: int = choose|r: int| is_sqrt_of(n, r);
    assert(is_sqrt_of(n, w));
}

/// `sqrt_floor` agrees with any witness of `is_sqrt_of`.
pub proof fn lemma_sqrt_floor_agrees(n: int, r: int)
    requires
        is_sqrt_of(n, r),
    ensures
        sqrt_floor(n) == r,
{
    assert(is_sqrt_of(n, sqrt_floor(n)));
    lemma_sqrt_unique(n, r, sqrt_floor(n));
}

/// Bound on a fixed-point product from bounds on its factors.
pub proof fn lemma_fmul_bound(a: int, b: int, ba: int, bb: int)
    by (nonlinear_arith)
    requires
        abs_int(a) <= ba,
        abs_int(b) <= bb,
    ensures
        abs_int(fmul(a, b)) <= ba * bb / 1000,
        abs_int(fmul(a, b)) * 1000 <= ba * bb,
{
}

/// Bound on a fixed-point quotient from a bound on the dividend.
pub proof fn lemma_fdiv_bound(a: int, b: int, ba: int)
    by (nonlinear_arith)
    requires
        abs_int(a) <= ba,
        b != 0,
    ensures
        abs_int(fdiv(a, b)) <= ba * 1000,
{
}

/// A fixed-point square is never negative.
pub proof fn lemma_fmul_self_nonneg(a: int)
    by (nonlinear_arith)
    ensures
        fmul(a, a) >= 0,
{
}

/// Multiplying by the fixed-point one is the identity.
pub proof fn lemma_fmul_one(a: int)
    by (nonlinear_arith)
    ensures
        fmul(a, 1000) == a,
        fmul(1000, a) == a,
{
}

/// Multiplying by zero gives zero.
pub proof fn lemma_fmul_zero(a: int)
    by (nonlinear_arith)
    ensures
        fmul(a, 0) == 0,
        fmul(0, a) == 0,
{
}

/// Negating one factor negates a fixed-point product.
pub proof fn lemma_fmul_neg_left(a: int, b: int)
    by (nonlinear_arith)
    ensures
        fmul(-a, b) == -fmul(a, b),
        fmul(a, -b) == -fmul(a, b),
{
}

/// Dividing by the fixed-point one is the identity.
pub proof fn lemma_fdiv_one(a: int)
    by (nonlinear_arith)
    ensures
        fdiv(a, 1000) == a,
{
}

/// A positive value divided by itself is the fixed-point one.
pub proof fn lemma_fdiv_self(a: int)
    by (nonlinear_arith)
    requires
        1 <= a,
    ensures
        fdiv(a, a) == 1000,
        fdiv(-a, a) == -1000,
{
}

/// Fixed-point division by a positive value is monotone in the dividend.
pub proof fn lemma_fdiv_mono(n1: int, n2: int, b: int)
    requires
        n1 <= n2,
        1 <= b,
    ensures
        fdiv(n1, b) <= fdiv(n2, b),
{
    if 0 <= n1 {
        lemma_div_is_ordered(n1 * 1000, n2 * 1000, b);
    } else if n2 < 0 {
        lemma_div_is_ordered((-n2) * 1000, (-n1) * 1000, b);
    } else {
        lemma_div_pos_is_pos((-n1) * 1000, b);
        lemma_div_pos_is_pos(n2 * 1000, b);
    }
}

/// Magnitude of an `i64`, as a `u64` (total: handles `i64::MIN`).
pub fn mag64(a: i64) -> (r: u64)
    ensures
        r as int == abs_int(a as int),
{
    if a >= 0 {
        a as u64
    } else {
        (-(a as i128)) as u64
    }
}

/// Fixed-point multiplication on machine integers.
pub fn fixed_mul(a: i64, b: i64) -> (r: i64)
    requires
        abs_int(fmul(a as int, b as int)) <= i64::MAX as int,
    ensures
        r as int == fmul(a as int, b as int),
{
    let ma: u128 = mag64(a) as u128;
    let mb: u128 = mag64(b) as u128;
    assert(ma * mb <= 0x40000000000000000000000000000000int) by (nonlinear_arith)
        requires
            ma <= 0x8000000000000000u128,
            mb <= 0x8000000000000000u128;
    let p: u128 = (ma * mb) / 1000;
    if (a < 0) != (b < 0) {
        -(p as i64)
    } else {
        p as i64
    }
}

/// Fixed-point division on machine integers.
pub fn fixed_div(a: i64, b: i64) -> (r: i64)
    requires
        b != 0,
        abs_int(fdiv(a as int, b as int)) <= i64::MAX as int,
    ensures
        r as int == fdiv(a as int, b as int),
{
    let ma: u128 = mag64(a) as u128;
    let mb: u128 = mag64(b) as u128;
    let q: u128 = (ma * 1000) / mb;
    if (a < 0) != (b < 0) {
        -(q as i64)
    } else {
        q as i64
    }
}

/// Integer square root by bisection.
pub fn isqrt(n: u128) -> (r: u64)
    requires
        n < 0x100000000000000000000int,
    ensures
        is_sqrt_of(n as int, r as int),
{
    let mut lo: u64 = 0;
    let mut hi: u64 = 0x10000000000u64;
    assert((0x10000000000int) * (0x10000000000int) == 0x100000000000000000000int) by (nonlinear_arith);
    while lo + 1 < hi
        invariant
            lo < hi,
            hi <= 0x10000000000u64,
            (lo as int) * (lo as int) <= n as int,
            (n as int) < (hi as int) * (hi as int),
        decreases hi - lo,
    {
        let mid: u64 = lo + (hi - lo) / 2;
        assert((mid as int) * (mid as int) < 0x100000000000000000000int) by (nonlinear_arith)
            requires
                mid < 0x10000000000u64;
        let sq: u128 = (mid as u128) * (mid as u128);
        if sq <= n {
            lo = mid;
        } else {
            hi = mid;
        }
    }
    lo
}

/// Fixed-point square root on machine integers.
pub fn fixed_sqrt(x: i64) -> (r: i64)
    requires
        0 <= x,
    ensures
        r as int == fsqrt(x as int),
        is_sqrt_of(x * 1000, r as int),
        0 <= r,
{
    let n: u128 = (x as u128) * 1000;
    assert(n == x * 1000);
    let s: u64 = isqrt(n);
    assert(s as int <= 0x10000000000int) by (nonlinear_arith)
        requires
            is_sqrt_of(n as int, s as int),
            n < 0x100000000000000000000int;
    proof {
        lemma_sqrt_floor_agrees(n as int, s as int);
    }
    s as i64
}

/// Division of a non-negative integer by a positive one, rounded down.
pub fn div_nonneg(a: i64, b: i64) -> (r: i64)
    requires
        0 <= a,
        1 <= b,
    ensures
        r as int == a as int / b as int,
{
    ((a as u64) / (b as u64)) as i64
}

} // verus!
