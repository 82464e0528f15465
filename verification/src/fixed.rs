//! Fixed-point scalars for the simulation.
//!
//! Every length, coordinate and velocity in the engine is an `i64` counting
//! thousandths of a world unit.  All arithmetic rounds toward zero, and every
//! stored quantity is clamped to the coordinate range `[-LIMIT, LIMIT]`.

use vstd::prelude::*;

verus! {

/// Fixed-point steps per world unit.
pub const SCALE: i64 = 1000;

/// Greatest magnitude a stored coordinate, velocity or penetration may take.
pub const LIMIT: i64 = 1_000_000_000_000;

/// Clamp a mathematical integer into the coordinate range.
pub open spec fn clip(x: int) -> int {
    if x < -(LIMIT as int) {
        -(LIMIT as int)
    } else if x > LIMIT as int {
        LIMIT as int
    } else {
        x
    }
}

/// Whether a value lies within the coordinate range.
pub open spec fn in_range(x: int) -> bool {
    -(LIMIT as int) <= x <= LIMIT as int
}

/// Magnitude of an integer.
pub open spec fn iabs(x: int) -> int {
    if x < 0 {
        -x
    } else {
        x
    }
}

/// Round-toward-zero division, for a positive divisor.
pub open spec fn div_t(a: int, b: int) -> int
    recommends
        b > 0,
{
    if a >= 0 {
        a / b
    } else {
        -((-a) / b)
    }
}

/// The sign of a quantity, counting zero as positive.
pub open spec fn sign(x: int) -> int {
    if x < 0 {
        -1
    } else {
        1
    }
}

proof fn lemma_mul_sign_abs(a: int, b: int)
    ensures
        a * b == if (a < 0) != (b < 0) {
            -(iabs(a) * iabs(b))
        } else {
            iabs(a) * iabs(b)
        },
{
    assert(a * b == if (a < 0) != (b < 0) {
        -(iabs(a) * iabs(b))
    } else {
        iabs(a) * iabs(b)
    }) by (nonlinear_arith);
}

/// Quotient of nonnegative values never exceeds the dividend.
pub proof fn lemma_div_shrinks(m: int, d: int)
    requires
        m >= 0,
        d > 0,
    ensures
        0 <= m / d <= m,
{
    vstd::arithmetic::div_mod::lemma_div_pos_is_pos(m, d);
    vstd::arithmetic::div_mod::lemma_div_nonincreasing(m, d);
}

/// Clamp a value into the coordinate range.
pub fn clip64(x: i64) -> (r: i64)
    ensures
        r == clip(x as int),
{
    if x > LIMIT {
        LIMIT
    } else if x < -LIMIT {
        -LIMIT
    } else {
        x
    }
}

/// Clamp a wide intermediate into the coordinate range.
pub fn clip128(x: i128) -> (r: i64)
    ensures
        r == clip(x as int),
{
    if x > LIMIT as i128 {
        LIMIT
    } else if x < -(LIMIT as i128) {
        -LIMIT
    } else {
        x as i64
    }
}

/// Clamped sum.
pub fn cadd(a: i64, b: i64) -> (r: i64)
    ensures
        r == clip(a + b),
{
    clip128(a as i128 + b as i128)
}

/// Clamped difference.
pub fn csub(a: i64, b: i64) -> (r: i64)
    ensures
        r == clip(a - b),
{
    clip128(a as i128 - b as i128)
}

/// `a * b / d`, rounded toward zero and clamped into the coordinate range.
pub fn mul_div_clip(a: i64, b: i64, d: i64) -> (r: i64)
    requires
        d > 0,
    ensures
        r == clip(div_t(a * b, d as int)),
{
    let neg: bool = (a < 0) != (b < 0);
    let ma: u128 = if a < 0 {
        (-(a as i128)) as u128
    } else {
        a as u128
    };
    let mb: u128 = if b < 0 {
        (-(b as i128)) as u128
    } else {
        b as u128
    };
    proof {
        lemma_mul_sign_abs(a as int, b as int);
        assert(ma * mb <= 0x8000_0000_0000_0000u128 * 0x8000_0000_0000_0000u128)
            by (nonlinear_arith)
            requires ma <= 0x8000_0000_0000_0000u128 && mb <= 0x8000_0000_0000_0000u128;
        lemma_div_shrinks((ma * mb) as int, d as int);
    }
    let m: u128 = ma * mb;
    let q: u128 = m / (d as u128);
    if q > LIMIT as u128 {
        if neg {
            -LIMIT
        } else {
            LIMIT
        }
    } else {
        if neg {
            -(q as i64)
        } else {
            q as i64
        }
    }
}

/// `a * b / d`, rounded toward zero, exact when the product is small enough.
pub fn mul_div_t(a: i64, b: i64, d: i64) -> (r: i64)
    requires
        d > 0,
        iabs(a as int) * iabs(b as int) <= i64::MAX as int,
    ensures
        r == div_t(a * b, d as int),
        iabs(r as int) <= iabs(a as int) * iabs(b as int),
{
    let neg: bool = (a < 0) != (b < 0);
    let ma: u128 = if a < 0 {
        (-(a as i128)) as u128
    } else {
        a as u128
    };
    let mb: u128 = if b < 0 {
        (-(b as i128)) as u128
    } else {
        b as u128
    };
    proof {
        lemma_mul_sign_abs(a as int, b as int);
        assert(ma * mb <= 0x8000_0000_0000_0000u128 * 0x8000_0000_0000_0000u128)
            by (nonlinear_arith)
            requires ma <= 0x8000_0000_0000_0000u128 && mb <= 0x8000_0000_0000_0000u128;
        lemma_div_shrinks((ma * mb) as int, d as int);
    }
    let m: u128 = ma * mb;
    let q: u128 = m / (d as u128);
    if neg {
        -(q as i64)
    } else {
        q as i64
    }
}

/// Halving `w` through the impulse's two truncating divisions (first by the
/// doubled inverse mass, then by the scale) loses at most a few thousandths.
pub proof fn lemma_half_truncated(w: int, im: int)
    requires
        w >= 0,
        1 <= im,
    ensures
        ({
            let q1 = (1000 * w) / (2 * im);
            let q2 = (q1 * im) / 1000;
            &&& 0 <= 2 * q2 <= w
            &&& w - 2 * q2 <= 2 * (im / 1000) + 4
        }),
{
    let q1 = (1000 * w) / (2 * im);
    let r1 = (1000 * w) % (2 * im);
    vstd::arithmetic::div_mod::lemma_div_pos_is_pos(1000 * w, 2 * im);
    vstd::arithmetic::div_mod::lemma_fundamental_div_mod(1000 * w, 2 * im);
    vstd::arithmetic::div_mod::lemma_mod_division_less_than_divisor(1000 * w, 2 * im);
    let p = q1 * im;
    assert(2 * p == 1000 * w - r1) by (nonlinear_arith)
        requires
            1000 * w == 2 * im * q1 + r1,
            p == q1 * im,
    ;
    assert(p >= 0) by (nonlinear_arith)
        requires
            q1 >= 0,
            im >= 1,
            p == q1 * im,
    ;
    let q2 = p / 1000;
    let r2 = p % 1000;
    vstd::arithmetic::div_mod::lemma_div_pos_is_pos(p, 1000);
    vstd::arithmetic::div_mod::lemma_fundamental_div_mod(p, 1000);
    vstd::arithmetic::div_mod::lemma_mod_division_less_than_divisor(p, 1000);
    assert(1000 * (w - 2 * q2) == r1 + 2 * r2) by (nonlinear_arith)
        requires
            2 * p == 1000 * w - r1,
            p == 1000 * q2 + r2,
    ;
    assert(w - 2 * q2 >= 0) by (nonlinear_arith)
        requires
            1000 * (w - 2 * q2) == r1 + 2 * r2,
            r1 >= 0,
            r2 >= 0,
    ;
    let k = im / 1000;
    vstd::arithmetic::div_mod::lemma_div_pos_is_pos(im, 1000);
    vstd::arithmetic::div_mod::lemma_fundamental_div_mod(im, 1000);
    vstd::arithmetic::div_mod::lemma_mod_division_less_than_divisor(im, 1000);
    assert(w - 2 * q2 <= 2 * k + 4) by (nonlinear_arith)
        requires
            1000 * (w - 2 * q2) == r1 + 2 * r2,
            r1 < 2 * im,
            r2 < 1000,
            im <= 1000 * k + 999,
            k >= 0,
    ;
}

} // verus!
