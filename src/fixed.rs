use vstd::prelude::*;
use crate::scalar::Scalar;

verus! {

/// Raw units per whole unit of a [`Fixed`].
pub const SCALE: i128 = 1_000_000_000_000;

/// Largest magnitude of a raw [`Fixed`] value; results saturate at it.
pub const LIMIT: i128 = 9_223_372_036_854_775_807;

/// A decimal fixed-point scalar: `raw / 10^12`, with saturating arithmetic
/// that stays within `[-LIMIT, LIMIT]`.
#[derive(Clone, Copy, Debug, PartialEq, Eq, Structural)]
pub struct Fixed {
    pub raw: i64,
}

/// `v` clamped to `[-LIMIT, LIMIT]`.
pub open spec fn sat(v: int) -> i64 {
    if v > LIMIT {
        LIMIT as i64
    } else if v < -LIMIT {
        -LIMIT as i64
    } else {
        v as i64
    }
}

/// Division rounding toward zero.
pub open spec fn tdiv(a: int, b: int) -> int {
    let q = (if a >= 0 { a } else { -a }) / (if b >= 0 { b } else { -b });
    if (a >= 0) == (b >= 0) { q } else { -q }
}

proof fn lemma_product_bounds(a: int, b: int)
    requires
        -0x8000_0000_0000_0000 <= a <= 0x7fff_ffff_ffff_ffff,
        -0x8000_0000_0000_0000 <= b <= 0x8000_0000_0000_0000,
    ensures
        -0x4000_0000_0000_0000_0000_0000_0000_0000 <= a * b <= 0x4000_0000_0000_0000_0000_0000_0000_0000,
{
    let m: int = 0x8000_0000_0000_0000;
    assert(-m * m <= a * b <= m * m) by (nonlinear_arith)
        requires -m <= a <= m, -m <= b <= m;
}

fn clamp(v: i128) -> (r: i64)
    ensures
        r == sat(v as int),
{
    if v > LIMIT {
        LIMIT as i64
    } else if v < -LIMIT {
        -LIMIT as i64
    } else {
        v as i64
    }
}

fn trunc_div(a: i128, b: i128) -> (r: i128)
    requires
        b != 0,
        a > i128::MIN,
        b > i128::MIN,
    ensures
        r == tdiv(a as int, b as int),
{
    let ma: i128 = if a >= 0 { a } else { -a };
    let mb: i128 = if b >= 0 { b } else { -b };
    let q: i128 = ma / mb;
    proof {
        assert(0 <= q <= ma) by (nonlinear_arith)
            requires ma >= 0, mb >= 1, q == ma / mb;
    }
    if (a >= 0) == (b >= 0) { q } else { -q }
}

impl Scalar for Fixed {
    open spec fn zero_spec() -> Fixed {
        Fixed { raw: 0 }
    }

    open spec fn ratio_spec(n: int, d: int) -> Fixed {
        Fixed { raw: sat(tdiv(n * SCALE, d)) }
    }

    open spec fn pos_spec(a: Fixed) -> bool {
        a.raw > 0
    }

    open spec fn plus_spec(a: Fixed, b: Fixed) -> Fixed {
        Fixed { raw: sat(a.raw + b.raw) }
    }

    open spec fn minus_spec(a: Fixed, b: Fixed) -> Fixed {
        Fixed { raw: sat(a.raw - b.raw) }
    }

    open spec fn times_spec(a: Fixed, b: Fixed) -> Fixed {
        Fixed { raw: sat(tdiv(a.raw * b.raw, SCALE as int)) }
    }

    open spec fn over_spec(a: Fixed, b: Fixed) -> Fixed {
        if b.raw == 0 {
            Fixed { raw: 0 }
        } else {
            Fixed { raw: sat(tdiv(a.raw * SCALE, b.raw as int)) }
        }
    }

    open spec fn square_spec(a: Fixed) -> Fixed {
        Self::times_spec(a, a)
    }

    fn zero() -> (r: Fixed) {
        Fixed { raw: 0 }
    }

    fn ratio(n: i64, d: i64) -> (r: Fixed) {
        proof {
            lemma_product_bounds(n as int, SCALE as int);
        }
        let p: i128 = n as i128 * SCALE;
        Fixed { raw: clamp(trunc_div(p, d as i128)) }
    }

    fn is_pos(&self) -> (r: bool) {
        self.raw > 0
    }

    fn plus(self, b: Fixed) -> (r: Fixed) {
        Fixed { raw: clamp(self.raw as i128 + b.raw as i128) }
    }

    fn minus(self, b: Fixed) -> (r: Fixed) {
        Fixed { raw: clamp(self.raw as i128 - b.raw as i128) }
    }

    fn times(self, b: Fixed) -> (r: Fixed) {
        proof {
            lemma_product_bounds(self.raw as int, b.raw as int);
        }
        let p: i128 = self.raw as i128 * b.raw as i128;
        Fixed { raw: clamp(trunc_div(p, SCALE)) }
    }

    fn over(self, b: Fixed) -> (r: Fixed) {
        if b.raw == 0 {
            Fixed { raw: 0 }
        } else {
            proof {
                lemma_product_bounds(self.raw as int, SCALE as int);
            }
            let p: i128 = self.raw as i128 * SCALE;
            Fixed { raw: clamp(trunc_div(p, b.raw as i128)) }
        }
    }

    fn square(self) -> (r: Fixed) {
        self.times(self)
    }

    proof fn lemma_zero_not_pos() {
    }

    proof fn lemma_minus_self(a: Fixed) {
    }

    proof fn lemma_square_minus_swap(a: Fixed, b: Fixed) {
        let d = a.raw - b.raw;
        assert(sat(-d) == -sat(d));
        let s = sat(d);
        assert((-s) * (-s) == s * s) by (nonlinear_arith);
    }

    proof fn lemma_square_zero() {
    }

    proof fn lemma_plus_zero() {
    }

    proof fn lemma_zero_over(b: Fixed) {
    }

    proof fn lemma_ratio_pos(n: int, d: int) {
        assert(n * SCALE >= d * SCALE) by (nonlinear_arith)
            requires n >= d, d > 0;
        assert(n * SCALE / d >= SCALE) by (nonlinear_arith)
            requires n * SCALE >= d * SCALE, d > 0;
    }
}

} // verus!
