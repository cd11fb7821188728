//! Products of two 128-bit naturals, held exactly in 256 bits.

use vstd::prelude::*;

verus! {

/// 2^64, the weight of the upper half of a 128-bit word.
pub open spec fn half_weight() -> int {
    0x1_0000_0000_0000_0000
}

/// 2^128, the weight of the upper word of a [`Wide`].
pub open spec fn word_weight() -> int {
    0x1_0000_0000_0000_0000_0000_0000_0000_0000int
}

/// A natural number below 2^256, as two 128-bit words.
#[derive(Clone, Copy, Debug)]
pub struct Wide {
    pub hi: u128,
    pub lo: u128,
}

impl Wide {
    /// The number that the two words stand for.
    pub open spec fn value(self) -> int {
        self.hi * word_weight() + self.lo
    }
}

/// Schoolbook expansion of a product of two numbers split at 2^64.
proof fn lemma_split_product(a1: int, a0: int, b1: int, b0: int, w: int)
    ensures
        (a1 * w + a0) * (b1 * w + b0) == (a1 * b1) * (w * w) + (a0 * b1) * w + (a1 * b0) * w
            + a0 * b0,
{
    let x = a1 * w;
    let y = b1 * w;
    assert((x + a0) * (y + b0) == x * y + x * b0 + a0 * y + a0 * b0) by (nonlinear_arith);
    assert(x * y == (a1 * b1) * (w * w)) by (nonlinear_arith)
        requires
            x == a1 * w,
            y == b1 * w,
    ;
    assert(x * b0 == (a1 * b0) * w) by (nonlinear_arith)
        requires
            x == a1 * w,
    ;
    assert(a0 * y == (a0 * b1) * w) by (nonlinear_arith)
        requires
            y == b1 * w,
    ;
}

/// A product of two numbers below 2^64 is at most (2^64 - 1)^2.
proof fn lemma_half_product_bound(x: int, y: int)
    by (nonlinear_arith)
    requires
        0 <= x < 0x1_0000_0000_0000_0000,
        0 <= y < 0x1_0000_0000_0000_0000,
    ensures
        0 <= x * y <= 0xffff_ffff_ffff_ffff * 0xffff_ffff_ffff_ffff,
{
}

/// The exact product of two 128-bit naturals.
pub fn wide_mul(a: u128, b: u128) -> (r: Wide)
    ensures
        r.value() == a * b,
{
    let w: u128 = 0x1_0000_0000_0000_0000;
    let a1: u128 = a / w;
    let a0: u128 = a % w;
    let b1: u128 = b / w;
    let b0: u128 = b % w;
    proof {
        lemma_half_product_bound(a0 as int, b0 as int);
        lemma_half_product_bound(a0 as int, b1 as int);
        lemma_half_product_bound(a1 as int, b0 as int);
        lemma_half_product_bound(a1 as int, b1 as int);
        lemma_split_product(a1 as int, a0 as int, b1 as int, b0 as int, half_weight());
    }
    let p00: u128 = a0 * b0;
    let p01: u128 = a0 * b1;
    let p10: u128 = a1 * b0;
    let p11: u128 = a1 * b1;
    let mid: u128 = p00 / w + p01 % w + p10 % w;
    let lo: u128 = p00 % w + (mid % w) * w;
    let hi: u128 = p11 + p01 / w + p10 / w + mid / w;
    Wide { hi, lo }
}

/// Whether `a * b < c * d`, decided without overflow.
pub fn product_less(a: u128, b: u128, c: u128, d: u128) -> (r: bool)
    ensures
        r == (a * b < c * d),
{
    let left = wide_mul(a, b);
    let right = wide_mul(c, d);
    left.hi < right.hi || (left.hi == right.hi && left.lo < right.lo)
}

} // verus!
