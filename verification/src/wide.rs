//! Unsigned 256-bit integers, enough for exact sums of squares of byte counts.
use vstd::prelude::*;

verus! {

/// `2^64`.
pub open spec fn b64() -> int {
    0x1_0000_0000_0000_0000
}

/// `2^128`.
pub open spec fn b128() -> int {
    b64() * b64()
}

/// `2^128` is one past the largest `u128`.
pub proof fn lemma_b128()
    ensures
        b128() == u128::MAX as int + 1,
        b128() == 0x1_0000_0000_0000_0000 * 0x1_0000_0000_0000_0000,
{
    assert(0x1_0000_0000_0000_0000 * 0x1_0000_0000_0000_0000 == u128::MAX as int + 1)
        by (nonlinear_arith);
}

/// An unsigned integer below `2^256`, as two 128-bit halves.
#[derive(Clone, Copy, Debug)]
pub struct U256 {
    pub hi: u128,
    pub lo: u128,
}

impl U256 {
    /// The number held.
    pub open spec fn val(self) -> int {
        self.hi as int * b128() + self.lo as int
    }
}

/// The product of two 128-bit numbers, exactly.
pub fn mul_wide(a: u128, b: u128) -> (r: U256)
    ensures
        r.val() == a as int * b as int,
{
    let m: u128 = 0x1_0000_0000_0000_0000;
    let a0 = a % m;
    let a1 = a / m;
    let b0 = b % m;
    let b1 = b / m;
    assert(a1 < m) by (nonlinear_arith)
        requires
            a1 == a / m,
            m == 0x1_0000_0000_0000_0000u128,
    ;
    assert(b1 < m) by (nonlinear_arith)
        requires
            b1 == b / m,
            m == 0x1_0000_0000_0000_0000u128,
    ;
    assert(a0 * b0 < b128() && a0 * b1 < b128() && a1 * b0 < b128() && a1 * b1 < b128())
        by (nonlinear_arith)
        requires
            a0 < m,
            a1 < m,
            b0 < m,
            b1 < m,
            m == 0x1_0000_0000_0000_0000u128,
            b128() == m * m,
    ;
    let p00 = a0 * b0;
    let p01 = a0 * b1;
    let p10 = a1 * b0;
    let p11 = a1 * b1;
    let c1: u128;
    let mid: u128;
    if p01 > u128::MAX - p10 {
        c1 = 1;
        mid = p01 - (u128::MAX - p10) - 1;
    } else {
        c1 = 0;
        mid = p01 + p10;
    }
    assert(p01 + p10 == c1 * b128() + mid);
    let mid_lo = mid % m;
    let mid_hi = mid / m;
    assert(mid_hi < m && mid == mid_hi * m + mid_lo) by (nonlinear_arith)
        requires
            mid_hi == mid / m,
            mid_lo == mid % m,
            m == 0x1_0000_0000_0000_0000u128,
    ;
    assert(mid_lo * m < b128()) by (nonlinear_arith)
        requires
            mid_lo < m,
            m == 0x1_0000_0000_0000_0000u128,
            b128() == m * m,
    ;
    let t = mid_lo * m;
    let c2: u128;
    let lo: u128;
    if p00 > u128::MAX - t {
        c2 = 1;
        lo = p00 - (u128::MAX - t) - 1;
    } else {
        c2 = 0;
        lo = p00 + t;
    }
    assert(p00 + t == c2 * b128() + lo);
    assert(a == a1 * m + a0 && b == b1 * m + b0) by (nonlinear_arith)
        requires
            a0 == a % m,
            a1 == a / m,
            b0 == b % m,
            b1 == b / m,
            m == 0x1_0000_0000_0000_0000u128,
    ;
    let ghost h: int = p11 + mid_hi + c1 * m + c2;
    assert(a * b == h * b128() + lo) by (nonlinear_arith)
        requires
            a == a1 * m + a0,
            b == b1 * m + b0,
            p00 == a0 * b0,
            p01 == a0 * b1,
            p10 == a1 * b0,
            p11 == a1 * b1,
            p01 + p10 == c1 * b128() + mid,
            mid == mid_hi * m + mid_lo,
            t == mid_lo * m,
            p00 + t == c2 * b128() + lo,
            h == p11 + mid_hi + c1 * m + c2,
            m == 0x1_0000_0000_0000_0000u128,
            b128() == m * m,
    ;
    assert(h < b128()) by (nonlinear_arith)
        requires
            a * b == h * b128() + lo,
            a <= u128::MAX,
            b <= u128::MAX,
            lo >= 0,
            b128() == m * m,
            u128::MAX == b128() - 1,
    ;
    let hi = p11 + mid_hi + c1 * m + c2;
    U256 { hi, lo }
}

/// Whether `x <= y`.
pub fn le_wide(x: U256, y: U256) -> (r: bool)
    ensures
        r == (x.val() <= y.val()),
{
    proof {
        lemma_b128();
    }
    x.hi < y.hi || (x.hi == y.hi && x.lo <= y.lo)
}

/// `x - y` for `y <= x`.
pub fn sub_wide(x: U256, y: U256) -> (r: U256)
    requires
        y.val() <= x.val(),
    ensures
        r.val() == x.val() - y.val(),
{
    proof {
        lemma_b128();
    }
    if x.lo >= y.lo {
        U256 { hi: x.hi - y.hi, lo: x.lo - y.lo }
    } else {
        U256 { hi: x.hi - y.hi - 1, lo: x.lo + (u128::MAX - y.lo) + 1 }
    }
}

/// A 128-bit number as a wide one.
pub fn from_u128(a: u128) -> (r: U256)
    ensures
        r.val() == a,
{
    U256 { hi: 0, lo: a }
}

/// `x * k` when the product stays below `2^256`.
pub fn mul_small(x: U256, k: u128) -> (r: U256)
    requires
        x.val() * k < b128() * b128(),
    ensures
        r.val() == x.val() * k,
{
    let low = mul_wide(x.lo, k);
    assert(x.hi * k + low.hi < b128()) by (nonlinear_arith)
        requires
            x.val() * k < b128() * b128(),
            x.val() == x.hi * b128() + x.lo,
            low.val() == x.lo * k,
            low.val() == low.hi * b128() + low.lo,
            low.lo >= 0,
            b128() == 0x1_0000_0000_0000_0000 * 0x1_0000_0000_0000_0000,
    ;
    assert(x.val() * k == (x.hi * k + low.hi) * b128() + low.lo) by (nonlinear_arith)
        requires
            x.val() == x.hi * b128() + x.lo,
            low.val() == x.lo * k,
            low.val() == low.hi * b128() + low.lo,
    ;
    U256 { hi: x.hi * k + low.hi, lo: low.lo }
}

} // verus!
