//! Decimal fixed-point numbers: the scalar type of the whole engine.
//!
//! A [`Fixed`] stores a count of billionths in an `i64`, so the representable
//! values are the multiples of `1e-9` between roughly `-9.22e9` and `9.22e9`.
//! Every operation is total: results that do not fit are clamped to the nearest
//! representable value, and quotients and products are rounded toward zero so
//! that `(-a) * b == -(a * b)` holds exactly.
//!
//! All contracts are stated over the raw count, which is also the view of a
//! `Fixed`.
use vstd::prelude::*;

verus! {

/// Number of raw units in the value one.
pub const SCALE: i64 = 1_000_000_000;

/// Smallest raw count.
pub const RAW_MIN: i64 = -0x8000_0000_0000_0000;

/// Largest raw count.
pub const RAW_MAX: i64 = 0x7fff_ffff_ffff_ffff;

/// Exclusive upper bound of the square root of any scaled radicand.
pub const ROOT_LIMIT: u128 = 0x8000_0000_0000;

/// The nearest raw count to `x`.
pub open spec fn clamp(x: int) -> int {
    if x < RAW_MIN {
        RAW_MIN as int
    } else if x > RAW_MAX {
        RAW_MAX as int
    } else {
        x
    }
}

/// `n / d` rounded toward zero, for `d != 0`.
pub open spec fn quot_toward_zero(n: int, d: int) -> int
    recommends
        d != 0,
{
    if n >= 0 {
        if d > 0 {
            n / d
        } else {
            -(n / (-d))
        }
    } else {
        if d > 0 {
            -((-n) / d)
        } else {
            (-n) / (-d)
        }
    }
}

/// `r` is the integer square root of `n`.
pub open spec fn is_floor_root(r: int, n: int) -> bool {
    0 <= r && r * r <= n && n < (r + 1) * (r + 1)
}

/// The integer square root of `n` (zero for negative `n`).
pub open spec fn floor_root(n: int) -> int {
    if n <= 0 {
        0
    } else {
        choose|r: int| is_floor_root(r, n)
    }
}

/// Raw sum.
pub open spec fn fx_add(a: int, b: int) -> int {
    clamp(a + b)
}

/// Raw difference.
pub open spec fn fx_sub(a: int, b: int) -> int {
    clamp(a - b)
}

/// Raw product of two raw counts.
pub open spec fn fx_mul(a: int, b: int) -> int {
    clamp(quot_toward_zero(a * b, SCALE as int))
}

/// Raw quotient of two raw counts. Division by zero saturates in the
/// direction of the dividend, and `0 / 0` is `0`.
pub open spec fn fx_div(a: int, b: int) -> int {
    if b == 0 {
        if a > 0 {
            RAW_MAX as int
        } else if a < 0 {
            RAW_MIN as int
        } else {
            0
        }
    } else {
        clamp(quot_toward_zero(a * SCALE, b))
    }
}

/// Raw square root of a raw count, rounded down; zero for negative input.
pub open spec fn fx_sqrt(a: int) -> int {
    floor_root(a * SCALE)
}

/// Raw half, rounded toward negative infinity.
pub open spec fn fx_half_floor(a: int) -> int {
    a / 2
}

/// Raw half, rounded toward positive infinity.
pub open spec fn fx_half_ceil(a: int) -> int {
    (a + 1) / 2
}

/// Raw count of the whole number `n`.
pub open spec fn fx_from_int(n: int) -> int {
    clamp(n * SCALE)
}

/// Two integer square roots of the same number are equal.
pub proof fn lemma_floor_root_unique(r1: int, r2: int, n: int)
    requires
        is_floor_root(r1, n),
        is_floor_root(r2, n),
    ensures
        r1 == r2,
{
    if r1 < r2 {
        assert((r1 + 1) * (r1 + 1) <= r2 * r2) by (nonlinear_arith)
            requires
                0 <= r1,
                r1 + 1 <= r2,
        ;
    } else if r2 < r1 {
        assert((r2 + 1) * (r2 + 1) <= r1 * r1) by (nonlinear_arith)
            requires
                0 <= r2,
                r2 + 1 <= r1,
        ;
    }
}

/// Any number satisfying the defining inequalities is the integer square root.
pub proof fn lemma_floor_root_is(r: int, n: int)
    requires
        is_floor_root(r, n),
    ensures
        floor_root(n) == r,
{
    if n <= 0 {
        assert(r * r >= 0) by (nonlinear_arith);
        assert(n == 0);
        if r > 0 {
            assert(r * r > 0) by (nonlinear_arith)
                requires
                    r > 0,
            ;
        }
    } else {
        let c = choose|c: int| is_floor_root(c, n);
        assert(is_floor_root(c, n));
        lemma_floor_root_unique(c, r, n);
    }
}

/// A fixed-point number with nine decimal places.
#[derive(Clone, Copy, Debug, PartialEq, Eq, Structural)]
pub struct Fixed {
    /// The value, counted in billionths.
    pub raw: i64,
}

impl View for Fixed {
    type V = int;

    open spec fn view(&self) -> int {
        self.raw as int
    }
}

/// Narrows a wide intermediate result to the raw range.
fn saturate(wide: i128) -> (r: Fixed)
    ensures
        r@ == clamp(wide as int),
{
    if wide > RAW_MAX as i128 {
        Fixed { raw: RAW_MAX }
    } else if wide < RAW_MIN as i128 {
        Fixed { raw: RAW_MIN }
    } else {
        Fixed { raw: wide as i64 }
    }
}

/// Integer square root by bisection.
fn floor_root_u128(n: u128) -> (r: u128)
    requires
        n < ROOT_LIMIT * ROOT_LIMIT,
    ensures
        is_floor_root(r as int, n as int),
        r < ROOT_LIMIT,
{
    let mut lo: u128 = 0;
    let mut hi: u128 = ROOT_LIMIT;
    while hi - lo > 1
        invariant
            lo < hi <= ROOT_LIMIT,
            lo * lo <= n,
            n < hi * hi,
        decreases hi - lo,
    {
        let mid: u128 = lo + (hi - lo) / 2;
        assert(mid * mid < ROOT_LIMIT * ROOT_LIMIT) by (nonlinear_arith)
            requires
                0 <= mid < ROOT_LIMIT,
        ;
        if mid * mid <= n {
            lo = mid;
        } else {
            hi = mid;
        }
    }
    assert(hi == lo + 1);
    lo
}

impl Fixed {
    /// The number with raw count `raw`, which is taken to be in range.
    pub open spec fn of(raw: int) -> Fixed {
        Fixed { raw: raw as i64 }
    }

    /// Saturating sum.
    pub open spec fn spec_add(self, rhs: Fixed) -> Fixed {
        Fixed::of(fx_add(self@, rhs@))
    }

    /// Saturating difference.
    pub open spec fn spec_sub(self, rhs: Fixed) -> Fixed {
        Fixed::of(fx_sub(self@, rhs@))
    }

    /// Saturating product, rounded toward zero.
    pub open spec fn spec_mul(self, rhs: Fixed) -> Fixed {
        Fixed::of(fx_mul(self@, rhs@))
    }

    /// Saturating quotient, rounded toward zero.
    pub open spec fn spec_div(self, rhs: Fixed) -> Fixed {
        Fixed::of(fx_div(self@, rhs@))
    }

    /// Square root, rounded down; zero for negative input.
    pub open spec fn spec_sqrt(self) -> Fixed {
        Fixed::of(fx_sqrt(self@))
    }

    /// The number with the given raw count of billionths.
    pub fn from_raw(raw: i64) -> (r: Fixed)
        ensures
            r@ == raw,
    {
        Fixed { raw }
    }

    /// The whole number `n`, clamped to the representable range.
    pub fn from_int(n: i64) -> (r: Fixed)
        ensures
            r@ == fx_from_int(n as int),
    {
        assert(-0x8000_0000_0000_0000 * 1_000_000_000 <= (n as int) * (SCALE as int)
            <= 0x8000_0000_0000_0000 * 1_000_000_000) by (nonlinear_arith)
            requires
                -0x8000_0000_0000_0000 <= n <= 0x7fff_ffff_ffff_ffff,
                SCALE == 1_000_000_000,
        ;
        saturate(n as i128 * SCALE as i128)
    }

    /// Zero.
    pub fn zero() -> (r: Fixed)
        ensures
            r@ == 0,
    {
        Fixed { raw: 0 }
    }

    /// One.
    pub fn one() -> (r: Fixed)
        ensures
            r@ == SCALE,
    {
        Fixed { raw: SCALE }
    }

    /// The raw count of billionths.
    pub fn raw(self) -> (r: i64)
        ensures
            r == self@,
    {
        self.raw
    }

    /// Saturating sum.
    #[verifier::when_used_as_spec(spec_add)]
    pub fn add(self, rhs: Fixed) -> (r: Fixed)
        ensures
            r == self.spec_add(rhs),
            r@ == fx_add(self@, rhs@),
    {
        saturate(self.raw as i128 + rhs.raw as i128)
    }

    /// Saturating difference.
    #[verifier::when_used_as_spec(spec_sub)]
    pub fn sub(self, rhs: Fixed) -> (r: Fixed)
        ensures
            r == self.spec_sub(rhs),
            r@ == fx_sub(self@, rhs@),
    {
        saturate(self.raw as i128 - rhs.raw as i128)
    }

    /// Saturating product, rounded toward zero.
    #[verifier::when_used_as_spec(spec_mul)]
    pub fn mul(self, rhs: Fixed) -> (r: Fixed)
        ensures
            r == self.spec_mul(rhs),
            r@ == fx_mul(self@, rhs@),
    {
        let a: i128 = self.raw as i128;
        let b: i128 = rhs.raw as i128;
        assert(-0x4000_0000_0000_0000_0000_0000_0000_0000 <= a * b
            <= 0x4000_0000_0000_0000_0000_0000_0000_0000) by (nonlinear_arith)
            requires
                -0x8000_0000_0000_0000 <= a <= 0x8000_0000_0000_0000,
                -0x8000_0000_0000_0000 <= b <= 0x8000_0000_0000_0000,
        ;
        let p: i128 = a * b;
        let q: i128 = if p >= 0 {
            p / (SCALE as i128)
        } else {
            -((-p) / (SCALE as i128))
        };
        saturate(q)
    }

    /// Saturating quotient, rounded toward zero. Division by zero saturates in
    /// the direction of the dividend; `0 / 0` is `0`.
    #[verifier::when_used_as_spec(spec_div)]
    pub fn div(self, rhs: Fixed) -> (r: Fixed)
        ensures
            r == self.spec_div(rhs),
            r@ == fx_div(self@, rhs@),
    {
        if rhs.raw == 0 {
            if self.raw > 0 {
                Fixed { raw: RAW_MAX }
            } else if self.raw < 0 {
                Fixed { raw: RAW_MIN }
            } else {
                Fixed { raw: 0 }
            }
        } else {
            let a: i128 = self.raw as i128;
            let b: i128 = rhs.raw as i128;
            assert(-0x8000_0000_0000_0000 * 1_000_000_000 <= a * (SCALE as int)
                <= 0x8000_0000_0000_0000 * 1_000_000_000) by (nonlinear_arith)
                requires
                    -0x8000_0000_0000_0000 <= a <= 0x7fff_ffff_ffff_ffff,
                    SCALE == 1_000_000_000,
            ;
            let n: i128 = a * (SCALE as i128);
            let q: i128 = if n >= 0 {
                if b > 0 {
                    n / b
                } else {
                    let m: i128 = n / (-b);
                    -m
                }
            } else {
                if b > 0 {
                    let m: i128 = (-n) / b;
                    -m
                } else {
                    (-n) / (-b)
                }
            };
            saturate(q)
        }
    }

    /// Square root, rounded down; zero for negative input.
    #[verifier::when_used_as_spec(spec_sqrt)]
    pub fn sqrt(self) -> (r: Fixed)
        ensures
            r == self.spec_sqrt(),
            r@ == fx_sqrt(self@),
    {
        if self.raw <= 0 {
            assert(self@ * SCALE <= 0) by (nonlinear_arith)
                requires
                    self@ <= 0,
                    SCALE > 0,
            ;
            Fixed { raw: 0 }
        } else {
            let a: u128 = self.raw as u128;
            assert(0 < a * (SCALE as int) < ROOT_LIMIT * ROOT_LIMIT) by (nonlinear_arith)
                requires
                    0 < a <= 0x7fff_ffff_ffff_ffff,
                    SCALE == 1_000_000_000,
                    ROOT_LIMIT == 0x8000_0000_0000,
            ;
            let n: u128 = a * (SCALE as u128);
            let root: u128 = floor_root_u128(n);
            proof {
                lemma_floor_root_is(root as int, n as int);
            }
            Fixed { raw: root as i64 }
        }
    }

    /// Half, rounded toward negative infinity.
    pub fn half_floor(self) -> (r: Fixed)
        ensures
            r@ == fx_half_floor(self@),
    {
        let a: i64 = self.raw;
        if a >= 0 {
            Fixed { raw: a / 2 }
        } else {
            let m: i128 = (-(a as i128) + 1) / 2;
            Fixed { raw: (-m) as i64 }
        }
    }

    /// Half, rounded toward positive infinity.
    pub fn half_ceil(self) -> (r: Fixed)
        ensures
            r@ == fx_half_ceil(self@),
    {
        let a: i64 = self.raw;
        if a >= 0 {
            let m: i128 = (a as i128 + 1) / 2;
            Fixed { raw: m as i64 }
        } else {
            let m: i128 = (-(a as i128)) / 2;
            Fixed { raw: (-m) as i64 }
        }
    }

    /// `self < rhs`.
    pub fn lt(self, rhs: Fixed) -> (r: bool)
        ensures
            r == (self@ < rhs@),
    {
        self.raw < rhs.raw
    }

    /// `self <= rhs`.
    pub fn le(self, rhs: Fixed) -> (r: bool)
        ensures
            r == (self@ <= rhs@),
    {
        self.raw <= rhs.raw
    }

    /// `self > rhs`.
    pub fn gt(self, rhs: Fixed) -> (r: bool)
        ensures
            r == (self@ > rhs@),
    {
        self.raw > rhs.raw
    }
}

} // verus!
