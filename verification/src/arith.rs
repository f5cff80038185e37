//! Exact integer helpers: squares, integer square roots and comparison of
//! products that do not fit in a machine word.

use vstd::prelude::*;

verus! {

/// The square of a number.
pub open spec fn square(n: int) -> int {
    n * n
}

/// `r` is the integer square root of `n`, rounded down.
pub open spec fn is_floor_root(r: int, n: int) -> bool {
    0 <= r && r * r <= n < (r + 1) * (r + 1)
}

/// `r` is the integer square root of `n`, rounded up.
pub open spec fn is_ceil_root(r: int, n: int) -> bool {
    0 <= r && (r == 0 || (r - 1) * (r - 1) < n) && n <= r * r
}

/// Squaring is monotone on the non-negative integers, strictly so.
pub proof fn lemma_square_monotone(a: int, b: int)
    requires
        0 <= a,
        0 <= b,
    ensures
        a <= b <==> a * a <= b * b,
        a < b <==> a * a < b * b,
{
    assert(a <= b ==> a * a <= b * b) by (nonlinear_arith)
        requires
            0 <= a,
            0 <= b,
    ;
    assert(a < b ==> a * a < b * b) by (nonlinear_arith)
        requires
            0 <= a,
            0 <= b,
    ;
    assert(b <= a ==> b * b <= a * a) by (nonlinear_arith)
        requires
            0 <= a,
            0 <= b,
    ;
    assert(b < a ==> b * b < a * a) by (nonlinear_arith)
        requires
            0 <= a,
            0 <= b,
    ;
}

/// Squares `num`.
pub fn sq(num: i64) -> (r: i64)
    requires
        square(num as int) <= i64::MAX,
    ensures
        r == square(num as int),
{
    assert(num * num >= 0) by (nonlinear_arith);
    num * num
}

/// The integer square root of `n`, rounded down.
pub fn isqrt(n: u128) -> (r: u64)
    ensures
        is_floor_root(r as int, n as int),
{
    let mut lo: u128 = 0;
    let mut hi: u128 = 0x1_0000_0000_0000_0000;
    assert(0x1_0000_0000_0000_0000int * 0x1_0000_0000_0000_0000int > u128::MAX) by (nonlinear_arith);
    while hi - lo > 1
        invariant
            lo < hi <= 0x1_0000_0000_0000_0000,
            lo * lo <= n < hi * hi,
        decreases hi - lo,
    {
        let mid: u128 = lo + (hi - lo) / 2;
        assert(mid * mid <= 0xffff_ffff_ffff_ffff * 0xffff_ffff_ffff_ffff) by (nonlinear_arith)
            requires
                0 <= mid <= 0xffff_ffff_ffff_ffff,
        ;
        assert(0xffff_ffff_ffff_ffffint * 0xffff_ffff_ffff_ffffint <= u128::MAX) by (nonlinear_arith);
        if mid * mid <= n {
            lo = mid;
        } else {
            hi = mid;
        }
    }
    lo as u64
}

/// The integer square root of `n`, rounded up.
pub fn isqrt_ceil(n: u128) -> (r: u128)
    ensures
        is_ceil_root(r as int, n as int),
        r <= 0x1_0000_0000_0000_0000,
{
    let f: u64 = isqrt(n);
    let f: u128 = f as u128;
    assert(f * f <= 0xffff_ffff_ffff_ffff * 0xffff_ffff_ffff_ffff) by (nonlinear_arith)
        requires
            0 <= f <= 0xffff_ffff_ffff_ffff,
    ;
    assert(0xffff_ffff_ffff_ffffint * 0xffff_ffff_ffff_ffffint <= u128::MAX) by (nonlinear_arith);
    if f * f == n {
        assert(f > 0 ==> (f - 1) * (f - 1) < f * f) by (nonlinear_arith);
        f
    } else {
        f + 1
    }
}

/// The two words of a product: `hi * 2^128 + lo`.
pub open spec fn wide(hi: int, lo: int) -> int {
    hi * 0x1_0000_0000_0000_0000_0000_0000_0000_0000 + lo
}

/// Multiplies two 128-bit numbers into a 256-bit result, given as its upper
/// and lower word.
pub fn mul_wide(x: u128, y: u128) -> (r: (u128, u128))
    ensures
        wide(r.0 as int, r.1 as int) == x * y,
{
    let b: u128 = 0x1_0000_0000_0000_0000;
    let xl: u128 = x % b;
    let xh: u128 = x / b;
    let yl: u128 = y % b;
    let yh: u128 = y / b;
    proof {
        assert(0xffff_ffff_ffff_ffffint * 0xffff_ffff_ffff_ffffint
            == 0xffff_ffff_ffff_fffe_0000_0000_0000_0001) by (nonlinear_arith);
        lemma_half_product(xl as int, yl as int);
        lemma_half_product(xl as int, yh as int);
        lemma_half_product(xh as int, yl as int);
        lemma_half_product(xh as int, yh as int);
    }
    let low: u128 = xl * yl;
    let cross_a: u128 = xl * yh;
    let cross_b: u128 = xh * yl;
    let high: u128 = xh * yh;
    let mid: u128 = low / b + cross_a % b + cross_b % b;
    let lo: u128 = (mid % b) * b + low % b;
    let hi: u128 = high + cross_a / b + cross_b / b + mid / b;
    proof {
        lemma_split_product(xh as int, xl as int, yh as int, yl as int, b as int);
        assert(0x1_0000_0000_0000_0000int * 0x1_0000_0000_0000_0000int
            == 0x1_0000_0000_0000_0000_0000_0000_0000_0000) by (nonlinear_arith);
        assert(b * b == 0x1_0000_0000_0000_0000_0000_0000_0000_0000);
        assert(x * y == high * 0x1_0000_0000_0000_0000_0000_0000_0000_0000 + (cross_a + cross_b) * b + low);
    }
    (hi, lo)
}

/// The product of two 64-bit halves fits in 128 bits.
proof fn lemma_half_product(a: int, c: int)
    requires
        0 <= a <= 0xffff_ffff_ffff_ffff,
        0 <= c <= 0xffff_ffff_ffff_ffff,
    ensures
        0 <= a * c <= 0xffff_ffff_ffff_ffff * 0xffff_ffff_ffff_ffff,
{
    assert(0 <= a * c <= 0xffff_ffff_ffff_ffff * 0xffff_ffff_ffff_ffff) by (nonlinear_arith)
        requires
            0 <= a <= 0xffff_ffff_ffff_ffff,
            0 <= c <= 0xffff_ffff_ffff_ffff,
    ;
}

/// Schoolbook multiplication of two two-digit numbers in base `b`.
proof fn lemma_split_product(xh: int, xl: int, yh: int, yl: int, b: int)
    ensures
        (xh * b + xl) * (yh * b + yl) == (xh * yh) * (b * b) + (xl * yh + xh * yl) * b + xl * yl,
{
    let x = xh * b + xl;
    let y = yh * b + yl;
    assert(x * y == (xh * b) * y + xl * y) by (nonlinear_arith)
        requires
            x == xh * b + xl,
    ;
    assert((xh * b) * y == (xh * b) * (yh * b) + (xh * b) * yl) by (nonlinear_arith)
        requires
            y == yh * b + yl,
    ;
    assert(xl * y == xl * (yh * b) + xl * yl) by (nonlinear_arith)
        requires
            y == yh * b + yl,
    ;
    assert((xh * b) * (yh * b) == (xh * yh) * (b * b)) by (nonlinear_arith);
    assert((xh * b) * yl == (xh * yl) * b) by (nonlinear_arith);
    assert(xl * (yh * b) == (xl * yh) * b) by (nonlinear_arith);
    assert((xl * yh + xh * yl) * b == (xl * yh) * b + (xh * yl) * b) by (nonlinear_arith);
}

/// Decides `a * b <= c * d` without overflow.
pub fn product_le(a: u128, b: u128, c: u128, d: u128) -> (r: bool)
    ensures
        r == (a * b <= c * d),
{
    let (h1, l1) = mul_wide(a, b);
    let (h2, l2) = mul_wide(c, d);
    h1 < h2 || (h1 == h2 && l1 <= l2)
}

} // verus!
