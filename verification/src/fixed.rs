//! Fixed-point scalar arithmetic.
//!
//! Every geometric quantity in this crate is a binary fixed-point number:
//! an `i64` counting steps of `1 / SCALE` of a world unit. Multiplication
//! and division rescale by `SCALE` and round toward zero, the rounding of
//! hardware signed division. Square roots are exact integer square roots
//! of the rescaled operand.

use vstd::arithmetic::div_mod::{
    lemma_div_is_ordered, lemma_div_nonincreasing, lemma_div_pos_is_pos,
};
use vstd::prelude::*;

verus! {

/// Number of fixed-point steps in one world unit.
pub const SCALE: i64 = 65536;

/// Magnitude of an integer.
pub open spec fn absi(x: int) -> int {
    if x >= 0 {
        x
    } else {
        -x
    }
}

/// Round-toward-zero division: the result of a hardware signed division,
/// written over the Euclidean `/` of specifications.
pub open spec fn tdiv(x: int, d: int) -> int {
    if x == 0 {
        0
    } else if x > 0 && d > 0 {
        x / d
    } else if x < 0 && d < 0 {
        (x * -1) / (d * -1)
    } else if x < 0 {
        ((x * -1) / d) * -1
    } else {
        (x / (d * -1)) * -1
    }
}

/// Fixed-point product: the mathematical product, rescaled and truncated.
pub open spec fn fmul_s(a: int, b: int) -> int {
    tdiv(a * b, SCALE as int)
}

/// Fixed-point quotient: the dividend is raised by `SCALE` before dividing.
pub open spec fn fdiv_s(a: int, b: int) -> int {
    tdiv(a * SCALE, b)
}

/// The integer square root: the unique `r >= 0` with `r * r <= x < (r + 1) * (r + 1)`.
pub open spec fn sqrt_floor(x: int) -> int {
    choose|r: int| 0 <= r && #[trigger] (r * r) <= x && x < (r + 1) * (r + 1)
}

/// Fixed-point square root of a non-negative fixed-point value.
pub open spec fn fsqrt_s(x: int) -> int {
    sqrt_floor(x * SCALE)
}

/// Clamping to a closed interval.
pub open spec fn clamp_s(x: int, lo: int, hi: int) -> int {
    if x < lo {
        lo
    } else if x > hi {
        hi
    } else {
        x
    }
}

/// Truncating division keeps the sign of the dividend and divides magnitudes.
pub proof fn lemma_tdiv(x: int, d: int)
    requires
        d != 0,
    ensures
        absi(tdiv(x, d)) == absi(x) / absi(d),
        x >= 0 && d > 0 ==> tdiv(x, d) >= 0,
        x <= 0 && d > 0 ==> tdiv(x, d) <= 0,
        absi(tdiv(x, d)) <= absi(x),
{
    if x == 0 {
        assert(absi(0int) / absi(d) == 0) by {
            lemma_div_pos_is_pos(0, absi(d));
            lemma_div_nonincreasing(0, absi(d));
        }
    } else if x > 0 && d > 0 {
        lemma_div_pos_is_pos(x, d);
    } else if x < 0 && d < 0 {
        lemma_div_pos_is_pos(-x, -d);
    } else if x < 0 {
        lemma_div_pos_is_pos(-x, d);
    } else {
        lemma_div_pos_is_pos(x, -d);
    }
    lemma_div_nonincreasing(absi(x), absi(d));
}

/// Truncating division is odd in its dividend.
pub proof fn lemma_tdiv_neg(x: int, d: int)
    requires
        d > 0,
    ensures
        tdiv(-x, d) == -tdiv(x, d),
{
    assert(-x * -1 == x && x * -1 == -x) by (nonlinear_arith);
    assert((-tdiv(x, d)) * -1 == tdiv(x, d)) by (nonlinear_arith);
}

/// On an exact multiple, truncating division is exact division.
pub proof fn lemma_tdiv_exact(x: int, d: int)
    requires
        d > 0,
        x % d == 0,
    ensures
        tdiv(x, d) == x / d,
        x == d * (x / d),
{
    vstd::arithmetic::div_mod::lemma_fundamental_div_mod(x, d);
    if x < 0 {
        let q = x / d;
        assert(-x == d * (-q)) by (nonlinear_arith)
            requires
                x == d * q,
        ;
        vstd::arithmetic::div_mod::lemma_div_multiples_vanish(-q, d);
        assert((-x) / d == -q);
        assert(((-x) / d) * -1 == q) by (nonlinear_arith)
            requires
                (-x) / d == -q,
        ;
        assert(x * -1 == -x) by (nonlinear_arith);
    }
}

/// Truncating division by a positive divisor is monotone.
pub proof fn lemma_tdiv_le(x: int, y: int, d: int)
    requires
        d > 0,
        x <= y,
    ensures
        tdiv(x, d) <= tdiv(y, d),
{
    lemma_tdiv(x, d);
    lemma_tdiv(y, d);
    if x >= 0 {
        lemma_div_is_ordered(x, y, d);
    } else if y <= 0 {
        lemma_div_is_ordered(-y, -x, d);
    } else {
        lemma_div_pos_is_pos(y, d);
        lemma_div_pos_is_pos(-x, d);
    }
}

/// Dividing a bounded magnitude by a positive divisor keeps it bounded.
pub proof fn lemma_tdiv_bound(x: int, d: int, b: int)
    requires
        d != 0,
        absi(x) <= b,
    ensures
        absi(tdiv(x, d)) <= b,
        -b <= tdiv(x, d) <= b,
{
    lemma_tdiv(x, d);
    lemma_div_is_ordered(absi(x), b, absi(d));
    lemma_div_nonincreasing(b, absi(d));
}

/// Multiplying by a factor in `[0, 1]` keeps a non-negative value between
/// zero and itself.
pub proof fn lemma_fmul_unit(a: int, b: int)
    requires
        0 <= a <= 65536,
        0 <= b,
    ensures
        0 <= fmul_s(a, b) <= b,
        fmul_s(a, b) == (a * b) / 65536,
{
    assert(0 <= a * b <= 65536 * b) by (nonlinear_arith)
        requires
            0 <= a <= 65536,
            0 <= b,
    ;
    lemma_div_is_ordered(0, a * b, 65536);
    vstd::arithmetic::div_mod::lemma_multiply_divide_le(a * b, 65536, b);
}

/// A magnitude bound for both factors bounds the magnitude of the product.
pub proof fn lemma_abs_mul(a: int, b: int, ab: int, bb: int)
    requires
        absi(a) <= ab,
        absi(b) <= bb,
    ensures
        absi(a * b) == absi(a) * absi(b),
        absi(a * b) <= ab * bb,
{
    assert(absi(a * b) == absi(a) * absi(b)) by (nonlinear_arith);
    assert(absi(a) * absi(b) <= ab * bb) by (nonlinear_arith)
        requires
            0 <= absi(a) <= ab,
            0 <= absi(b) <= bb,
    ;
}

/// The integer square root is unique, so `sqrt_floor` is the value any
/// witness exhibits.
pub proof fn lemma_sqrt_floor_is(x: int, r: int)
    requires
        0 <= r,
        r * r <= x,
        x < (r + 1) * (r + 1),
    ensures
        sqrt_floor(x) == r,
{
    assert(0 <= r && #[trigger] (r * r) <= x && x < (r + 1) * (r + 1));
    let s = sqrt_floor(x);
    assert(0 <= s && s * s <= x && x < (s + 1) * (s + 1));
    if s < r {
        assert((s + 1) * (s + 1) <= r * r) by (nonlinear_arith)
            requires
                0 <= s,
                s < r,
        ;
    }
    if r < s {
        assert((r + 1) * (r + 1) <= s * s) by (nonlinear_arith)
            requires
                0 <= r,
                r < s,
        ;
    }
}

/// Basic bounds of the integer square root.
pub proof fn lemma_sqrt_floor_bounds(x: int)
    requires
        0 <= x,
    ensures
        0 <= sqrt_floor(x),
        sqrt_floor(x) * sqrt_floor(x) <= x,
        x < (sqrt_floor(x) + 1) * (sqrt_floor(x) + 1),
        sqrt_floor(x) <= x,
{
    let r = choose|r: int| 0 <= r && #[trigger] (r * r) <= x && x < (r + 1) * (r + 1);
    assert(exists|r: int| 0 <= r && #[trigger] (r * r) <= x && x < (r + 1) * (r + 1)) by {
        lemma_sqrt_exists(x);
    }
    let s = sqrt_floor(x);
    assert(0 <= s && s * s <= x && x < (s + 1) * (s + 1));
    assert(s <= x) by (nonlinear_arith)
        requires
            0 <= s,
            s * s <= x,
    ;
}

/// Every non-negative integer has an integer square root.
proof fn lemma_sqrt_exists(x: int)
    requires
        0 <= x,
    ensures
        exists|r: int| 0 <= r && #[trigger] (r * r) <= x && x < (r + 1) * (r + 1),
    decreases x,
{
    if x == 0 {
        assert(0 <= 0 && #[trigger] (0int * 0int) <= x && x < (0int + 1) * (0int + 1));
    } else {
        lemma_sqrt_exists(x - 1);
        let r = choose|r: int| 0 <= r && #[trigger] (r * r) <= x - 1 && x - 1 < (r + 1) * (r + 1);
        if (r + 1) * (r + 1) <= x {
            assert(x < (r + 2) * (r + 2)) by (nonlinear_arith)
                requires
                    0 <= r,
                    x - 1 < (r + 1) * (r + 1),
            ;
            assert(0 <= r + 1 && #[trigger] ((r + 1) * (r + 1)) <= x && x < ((r + 1) + 1) * ((r
                + 1) + 1));
        } else {
            assert(0 <= r && #[trigger] (r * r) <= x && x < (r + 1) * (r + 1));
        }
    }
}

/// Hardware signed division on `i128`, with its exact value.
pub fn div_i128(x: i128, d: i128) -> (r: i128)
    requires
        d != 0,
        !(x == i128::MIN && d == -1),
    ensures
        r as int == tdiv(x as int, d as int),
{
    proof {
        lemma_tdiv(x as int, d as int);
        if x == i128::MIN && d < -1 {
            lemma_div_is_ordered(absi(d as int), absi(x as int), absi(d as int));
            assert(absi(x as int) / absi(d as int) < absi(x as int)) by {
                vstd::arithmetic::div_mod::lemma_div_decreases(absi(x as int), absi(d as int));
            }
        }
    }
    x.checked_div(d).unwrap()
}

/// Fixed-point multiplication, exact up to the final truncation.
pub fn fmul(a: i64, b: i64) -> (r: i64)
    requires
        absi(a as int) * absi(b as int) <= 0x1000_0000_0000_0000_0000,
    ensures
        r as int == fmul_s(a as int, b as int),
{
    proof {
        lemma_abs_mul(a as int, b as int, absi(a as int), absi(b as int));
        lemma_tdiv_bound(a as int * b as int, SCALE as int, 0x1000_0000_0000_0000_0000);
    }
    let p: i128 = (a as i128) * (b as i128);
    let q = div_i128(p, SCALE as i128);
    q as i64
}

/// Fixed-point division, exact up to the final truncation.
pub fn fdiv(a: i64, b: i64) -> (r: i64)
    requires
        b != 0,
        absi(a as int) <= 0x2000_0000_0000,
    ensures
        r as int == fdiv_s(a as int, b as int),
{
    proof {
        lemma_abs_mul(a as int, SCALE as int, 0x2000_0000_0000, SCALE as int);
        lemma_tdiv_bound(a as int * SCALE as int, b as int, 0x2000_0000_0000 * SCALE as int);
    }
    let p: i128 = (a as i128) * (SCALE as i128);
    let q = div_i128(p, b as i128);
    q as i64
}

/// Integer square root of a `u128`.
pub fn isqrt(x: u128) -> (r: u128)
    ensures
        r as int == sqrt_floor(x as int),
        r as int * r as int <= x as int,
        (x as int) < (r as int + 1) * (r as int + 1),
{
    let mut lo: u128 = 0;
    let mut hi: u128 = 0x1_0000_0000_0000_0000;
    proof {
        assert((hi as int) * (hi as int) > x as int) by (nonlinear_arith)
            requires
                hi as int == 0x1_0000_0000_0000_0000,
                x as int <= 0xffff_ffff_ffff_ffff_ffff_ffff_ffff_ffff,
        ;
    }
    while lo + 1 < hi
        invariant
            lo < hi <= 0x1_0000_0000_0000_0000,
            lo as int * lo as int <= x as int,
            (x as int) < hi as int * hi as int,
        decreases hi - lo,
    {
        let mid = lo + (hi - lo) / 2;
        proof {
            assert(mid as int * mid as int <= u128::MAX as int) by (nonlinear_arith)
                requires
                    mid as int <= 0xffff_ffff_ffff_ffff,
            ;
        }
        if mid * mid <= x {
            lo = mid;
        } else {
            hi = mid;
        }
    }
    proof {
        lemma_sqrt_floor_is(x as int, lo as int);
    }
    lo
}

/// Fixed-point square root of a non-negative value.
pub fn fsqrt128(x: i128) -> (r: i128)
    requires
        0 <= x,
        x as int * SCALE as int <= u128::MAX as int,
    ensures
        r as int == fsqrt_s(x as int),
        0 <= r,
{
    let p: u128 = (x as u128) * (SCALE as u128);
    let r = isqrt(p);
    proof {
        lemma_sqrt_floor_bounds(p as int);
        assert((r as int) < 0x1_0000_0000_0000_0000) by (nonlinear_arith)
            requires
                0 <= r as int,
                r as int * r as int <= p as int,
                p as int <= 0xffff_ffff_ffff_ffff_ffff_ffff_ffff_ffff,
        ;
    }
    r as i128
}

/// Fixed-point square root on `i64` values.
pub fn fsqrt(x: i64) -> (r: i64)
    requires
        0 <= x,
    ensures
        r as int == fsqrt_s(x as int),
        0 <= r,
        r as int * r as int <= x as int * SCALE as int,
        (x as int * SCALE as int) < (r as int + 1) * (r as int + 1),
{
    let p = fsqrt128(x as i128);
    proof {
        let xs = x as int * SCALE as int;
        lemma_sqrt_floor_bounds(xs);
        let s = sqrt_floor(xs);
        assert(s * s <= xs ==> s < 0x1_0000_0000_0000) by (nonlinear_arith)
            requires
                0 <= s,
                xs < 0x1_0000_0000_0000_0000_0000_0000,
                s * s <= xs,
        ;
    }
    p as i64
}

/// Clamp a value to a closed interval, as the image write step does.
pub fn clamp(x: i64, min: i64, max: i64) -> (r: i64)
    ensures
        r as int == clamp_s(x as int, min as int, max as int),
{
    if x < min {
        min
    } else if x > max {
        max
    } else {
        x
    }
}

} // verus!
