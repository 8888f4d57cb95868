//! Construction parameters: the target false-positive rate, the single
//! construction-time error, and the sizing math that derives the bit-array
//! length `m` and the probe-round count `k` from the expected load.
//!
//! The classical real-valued formulas are
//! `m = ceil(-(n * ln(p)) / ln(2)^2)` and `k = ceil(-ln(p) / ln(2))`.
//! With the rate given as an exact rational `p = num / den`, the identity
//! `-ln(p) / ln(2) = log2(den / num)` lets `k` be computed exactly in
//! integer arithmetic, and `m` via a fixed-point binary logarithm: the
//! integer part of `log2(den / num)` by a doubling search, fifty-seven
//! fractional bits by the classical squaring method, and a final scaling by
//! `1 / ln(2)` in Q57 fixed point. The two Q57 truncations bias the value
//! under the final ceiling down by less than
//! `n * (log2(den / num) + 3) / 2^57`, so the computed `m` can fall below
//! the real-valued formula only when the formula's argument lies within
//! that distance under an integer — far beyond the precision of any
//! double-precision evaluation of the same formula.

use vstd::arithmetic::div_mod::lemma_div_is_ordered;
use vstd::arithmetic::div_mod::lemma_fundamental_div_mod;
use vstd::arithmetic::div_mod::lemma_hoist_over_denominator;
use vstd::arithmetic::div_mod::lemma_mod_bound;
use vstd::arithmetic::div_mod::lemma_div_by_multiple;
use vstd::arithmetic::div_mod::lemma_div_denominator;
use vstd::arithmetic::div_mod::lemma_multiply_divide_lt;
use vstd::arithmetic::power2::lemma_pow2_unfold;
use vstd::arithmetic::power2::lemma2_to64;
use vstd::arithmetic::power2::lemma2_to64_rest;
use vstd::arithmetic::power2::pow2;
use vstd::prelude::*;

verus! {

/// `floor(2^57 / ln(2))`: the Q57 fixed-point reciprocal of `ln(2)`.
pub const INV_LN2_Q57: u64 = 207914267153817536;

/// The sole error of the crate: the construction inputs were rejected.
///
/// It is raised exactly when the expected item count is zero or the target
/// false-positive rate lies outside the open interval `(0, 1)`.
#[derive(Clone, Copy, Debug, PartialEq, Eq, Structural)]
pub enum BloomError {
    InvalidParameter,
}

/// A target false-positive rate, as the exact rational `num / den`.
///
/// A rate is valid when it lies strictly between 0 and 1, written with a
/// positive denominator: `0 < num < den`. One percent is `FpRate::new(1, 100)`.
#[derive(Clone, Copy, Debug, PartialEq, Eq, Structural)]
pub struct FpRate {
    pub num: i64,
    pub den: i64,
}

impl FpRate {
    /// The rate `num / den`, not yet validated; construction of a filter
    /// rejects an invalid rate.
    pub fn new(num: i64, den: i64) -> (r: FpRate)
        ensures
            r.num == num,
            r.den == den,
    {
        FpRate { num, den }
    }

    /// The rate lies strictly between 0 and 1, with a positive denominator.
    pub open spec fn spec_valid(self) -> bool {
        0 < self.num < self.den
    }

    /// Whether the rate lies strictly between 0 and 1.
    pub fn is_valid(&self) -> (r: bool)
        ensures
            r == self.spec_valid(),
    {
        0 < self.num && self.num < self.den
    }
}

/// `ceil(log2(den / num))` for `0 < num < den`: the least `k >= 1` with
/// `num * 2^k >= den`. By `-ln(p) / ln(2) = log2(den / num)` this is exactly
/// the classical probe-round count `ceil(-ln(p) / ln(2))`.
pub open spec fn spec_optimal_k(num: int, den: int) -> int
    recommends
        0 < num < den,
    decreases den - num when 0 < num < den
{
    if 2 * num >= den {
        1
    } else {
        1 + spec_optimal_k(2 * num, den)
    }
}

/// `spec_optimal_k` is exactly `ceil(log2(den / num))`: with `k` the chosen
/// round count, `2^k` reaches `den / num` and `2^(k-1)` falls short of it.
pub proof fn lemma_optimal_k_characterization(num: int, den: int)
    requires
        0 < num < den,
    ensures
        1 <= spec_optimal_k(num, den),
        num * pow2(spec_optimal_k(num, den) as nat) >= den,
        num * pow2((spec_optimal_k(num, den) - 1) as nat) < den,
    decreases den - num,
{
    let k = spec_optimal_k(num, den);
    assert(pow2(0) == 1 && pow2(1) == 2) by {
        lemma2_to64();
    }
    if 2 * num >= den {
        assert(num * pow2(1) == 2 * num);
        assert(num * pow2(0) == num);
    } else {
        lemma_optimal_k_characterization(2 * num, den);
        let k1 = spec_optimal_k(2 * num, den);
        lemma_pow2_unfold(k as nat);
        assert(num * pow2(k as nat) == 2 * num * pow2(k1 as nat)) by (nonlinear_arith)
            requires
                k >= 1,
                k1 == k - 1,
                pow2(k as nat) == 2 * pow2(k1 as nat),
        ;
        lemma_pow2_unfold(k1 as nat);
        assert(num * pow2(k1 as nat) == 2 * num * pow2((k1 - 1) as nat)) by (nonlinear_arith)
            requires
                k1 >= 1,
                pow2(k1 as nat) == 2 * pow2((k1 - 1) as nat),
        ;
        assert(2 * num * pow2((k1 - 1) as nat) < den);
        assert(num * pow2((k - 1) as nat) == num * pow2(k1 as nat));
    }
}

/// The optimal number of probe rounds for the rate: `ceil(-ln(p) / ln(2))`,
/// computed exactly as `ceil(log2(den / num))`.
pub fn optimal_k(rate: &FpRate) -> (k: u32)
    requires
        rate.spec_valid(),
    ensures
        k as int == spec_optimal_k(rate.num as int, rate.den as int),
        1 <= k <= 63,
{
    let den: u64 = rate.den as u64;
    let mut cur: u64 = rate.num as u64;
    let mut k: u32 = 1;
    proof {
        assert(pow2(0) == 1) by {
            lemma2_to64();
        }
    }
    while 2 * cur < den
        invariant
            0 < cur < den < 0x8000000000000000u64,
            1 <= k <= 63,
            cur as int >= pow2((k - 1) as nat),
            spec_optimal_k(rate.num as int, rate.den as int) == (k - 1)
                + spec_optimal_k(cur as int, den as int),
        decreases den - cur,
    {
        proof {
            lemma2_to64_rest();
            lemma_pow2_unfold(k as nat);
            assert(spec_optimal_k(cur as int, den as int) == 1 + spec_optimal_k(
                2 * cur as int,
                den as int,
            ));
        }
        cur = 2 * cur;
        k = k + 1;
    }
    proof {
        assert(spec_optimal_k(cur as int, den as int) == 1);
    }
    k
}

/// `floor(log2(den / num))` for `0 < num <= den`, by a doubling search.
pub open spec fn spec_log2_floor(num: int, den: int) -> int
    recommends
        0 < num <= den,
    decreases den - num when 0 < num <= den
{
    if 2 * num > den {
        0
    } else {
        1 + spec_log2_floor(2 * num, den)
    }
}

/// The numerator after the doubling search: `num * 2^spec_log2_floor(num, den)`.
pub open spec fn spec_log2_scaled(num: int, den: int) -> int
    recommends
        0 < num <= den,
    decreases den - num when 0 < num <= den
{
    if 2 * num > den {
        num
    } else {
        spec_log2_scaled(2 * num, den)
    }
}

/// `n` fractional bits of `log2(x / 2^62)` for `x` in `[2^62, 2^63)`, by the
/// classical squaring method, collected left to right into `acc`.
pub open spec fn spec_log2_frac(x: int, n: nat, acc: int) -> int
    decreases n,
{
    if n == 0 {
        acc
    } else {
        let y = (x * x) / 0x4000000000000000;
        if y >= 0x8000000000000000 {
            spec_log2_frac(y / 2, (n - 1) as nat, 2 * acc + 1)
        } else {
            spec_log2_frac(y, (n - 1) as nat, 2 * acc)
        }
    }
}

/// The Q57 fixed-point binary logarithm of `den / num >= 1`: the integer
/// part from the doubling search, fifty-seven fractional bits from
/// squaring. Truncation keeps it within two units below
/// `log2(den / num) * 2^57`.
pub open spec fn spec_log2_q57(num: int, den: int) -> int
    recommends
        0 < num <= den,
{
    spec_log2_floor(num, den) * 0x200000000000000 + spec_log2_frac(
        den * 0x4000000000000000 / spec_log2_scaled(num, den),
        57,
        0,
    )
}

/// The bit-array length for `n` expected items at rate `num / den`: the Q57
/// fixed-point evaluation of `ceil(n * log2(den / num) / ln(2))`, which by
/// the identity `ln(den / num) = ln(2) * log2(den / num)` evaluates the
/// classical `ceil(-(n * ln(p)) / ln(2)^2)`, clamped into `[1, usize::MAX]`.
/// The Q57 truncations of the logarithm and of `1 / ln(2)` bias the value
/// under the ceiling down by less than `n * (log2(den / num) + 3) / 2^57`,
/// the only deviation from the real-valued formula.
pub open spec fn spec_bitmap_size(n: int, num: int, den: int) -> int
    recommends
        1 <= n,
        0 < num < den,
{
    let raw = (n * spec_log2_q57(num, den) * (INV_LN2_Q57 as int)
        + 0x3ffffffffffffffffffffffffffff) / 0x40000000000000000000000000000;
    if raw < 1 {
        1
    } else if raw > usize::MAX as int {
        usize::MAX as int
    } else {
        raw
    }
}

/// The optimal bit-array length for the expected load: the fixed-point
/// evaluation of `ceil(-(items_count * ln(p)) / ln(2)^2)`.
pub fn bitmap_size(items_count: usize, rate: &FpRate) -> (m: usize)
    requires
        items_count >= 1,
        rate.spec_valid(),
    ensures
        m as int == spec_bitmap_size(items_count as int, rate.num as int, rate.den as int),
        m >= 1,
{
    let den: u64 = rate.den as u64;
    let mut cur: u64 = rate.num as u64;
    let mut e: u32 = 0;
    proof {
        assert(pow2(0) == 1) by {
            lemma2_to64();
        }
    }
    while 2 * cur <= den
        invariant
            0 < cur <= den < 0x8000000000000000u64,
            e <= 62,
            cur as int >= pow2(e as nat),
            spec_log2_floor(rate.num as int, rate.den as int) == e + spec_log2_floor(
                cur as int,
                den as int,
            ),
            spec_log2_scaled(rate.num as int, rate.den as int) == spec_log2_scaled(
                cur as int,
                den as int,
            ),
        decreases den - cur,
    {
        proof {
            lemma2_to64_rest();
            lemma_pow2_unfold((e + 1) as nat);
            assert(spec_log2_floor(cur as int, den as int) == 1 + spec_log2_floor(
                2 * cur as int,
                den as int,
            ));
            assert(spec_log2_scaled(cur as int, den as int) == spec_log2_scaled(
                2 * cur as int,
                den as int,
            ));
        }
        cur = 2 * cur;
        e = e + 1;
    }
    proof {
        assert(spec_log2_floor(cur as int, den as int) == 0);
        assert(spec_log2_scaled(cur as int, den as int) == cur as int);
    }
    let x_first_wide: u128 = (den as u128) * 0x4000000000000000u128 / (cur as u128);
    proof {
        assert((den as int) * 0x4000000000000000 < (cur as int) * 0x8000000000000000);
        lemma_multiply_divide_lt(
            (den as int) * 0x4000000000000000,
            cur as int,
            0x8000000000000000,
        );
        lemma_div_is_ordered(
            (cur as int) * 0x4000000000000000,
            (den as int) * 0x4000000000000000,
            cur as int,
        );
        lemma_div_by_multiple(0x4000000000000000, cur as int);
    }
    let mut x: u64 = x_first_wide as u64;
    let ghost x_first: int = x as int;
    let mut frac: u64 = 0;
    let mut i: u32 = 0;
    proof {
        assert(pow2(0) == 1) by {
            lemma2_to64();
        }
    }
    while i < 57
        invariant
            0x4000000000000000u64 <= x < 0x8000000000000000u64,
            i <= 57,
            (frac as int) < pow2(i as nat),
            spec_log2_frac(x_first, 57, 0) == spec_log2_frac(
                x as int,
                (57 - i) as nat,
                frac as int,
            ),
        decreases 57 - i,
    {
        proof {
            lemma2_to64();
            lemma2_to64_rest();
            lemma_pow2_unfold((i + 1) as nat);
        }
        proof {
            assert((x as u128) * (x as u128) < 0x40000000000000000000000000000000u128)
                by (nonlinear_arith)
                requires
                    x < 0x8000000000000000u64,
            ;
            assert((x as u128) * (x as u128) >= 0x10000000000000000000000000000000u128)
                by (nonlinear_arith)
                requires
                    x >= 0x4000000000000000u64,
            ;
        }
        let sq: u128 = (x as u128) * (x as u128);
        let y_wide: u128 = sq / 0x4000000000000000u128;
        proof {
            lemma_multiply_divide_lt(sq as int, 0x4000000000000000, 0x10000000000000000);
            lemma_div_is_ordered(
                0x10000000000000000000000000000000,
                sq as int,
                0x4000000000000000,
            );
            lemma_div_by_multiple(0x4000000000000000, 0x4000000000000000);
            assert(0x4000000000000000 * 0x4000000000000000
                == 0x10000000000000000000000000000000);
        }
        let y: u64 = y_wide as u64;
        let x_next: u64 = if y >= 0x8000000000000000u64 {
            y / 2
        } else {
            y
        };
        let frac_next: u64 = if y >= 0x8000000000000000u64 {
            2 * frac + 1
        } else {
            2 * frac
        };
        proof {
            assert(y as int == (x as int * x as int) / 0x4000000000000000);
            assert(spec_log2_frac(x as int, (57 - i) as nat, frac as int) == spec_log2_frac(
                x_next as int,
                (57 - (i + 1)) as nat,
                frac_next as int,
            ));
        }
        x = x_next;
        frac = frac_next;
        i = i + 1;
    }
    proof {
        lemma2_to64();
        lemma2_to64_rest();
        assert(spec_log2_frac(x as int, 0, frac as int) == frac as int);
    }
    let lf: u64 = (e as u64) * 0x200000000000000 + (frac as u64);
    proof {
        assert(lf as int == spec_log2_q57(rate.num as int, rate.den as int));
        assert((items_count as u128) * (lf as u128) < 0x80000000000000000000000000000000u128)
            by (nonlinear_arith)
            requires
                items_count <= 0xffffffffffffffffu128,
                lf < 0x8000000000000000u64,
        ;
    }
    let t1: u128 = (items_count as u128) * (lf as u128);
    let q: u128 = t1 / 0x10000000000000000u128;
    let r: u128 = t1 % 0x10000000000000000u128;
    proof {
        lemma_mod_bound(t1 as int, 0x10000000000000000);
        lemma_multiply_divide_lt(t1 as int, 0x10000000000000000, 0x8000000000000000);
        assert(r * (INV_LN2_Q57 as u128) < 0x4000000000000000000000000000000u128)
            by (nonlinear_arith)
            requires
                r < 0x10000000000000000u128,
                INV_LN2_Q57 as u128 == 207914267153817536u128,
        ;
        assert(q * (INV_LN2_Q57 as u128) < 0x2000000000000000000000000000000u128)
            by (nonlinear_arith)
            requires
                q < 0x8000000000000000u128,
                INV_LN2_Q57 as u128 == 207914267153817536u128,
        ;
    }
    let inner: u128 = (r * (INV_LN2_Q57 as u128) + 0xffffffffffffffffu128)
        / 0x10000000000000000u128;
    let mid: u128 = q * (INV_LN2_Q57 as u128) + inner;
    let raw: u128 = (mid + 0x3ffffffffffffu128) / 0x4000000000000u128;
    proof {
        let c: int = INV_LN2_Q57 as int;
        let d64: int = 0x10000000000000000;
        let d50: int = 0x4000000000000;
        let a: int = (t1 as int) * c;
        assert(t1 as int == d64 * (q as int) + (r as int)) by {
            lemma_fundamental_div_mod(t1 as int, d64);
        }
        assert(a == (r as int) * c + ((q as int) * c) * d64) by (nonlinear_arith)
            requires
                a == (t1 as int) * c,
                t1 as int == d64 * (q as int) + (r as int),
                d64 == 0x10000000000000000,
        ;
        lemma_hoist_over_denominator(
            (r as int) * c + 0xffffffffffffffff,
            (q as int) * c,
            0x10000000000000000 as nat,
        );
        assert(mid as int == (a + 0xffffffffffffffff) / d64);
        if a == 0 {
            assert(mid == 0);
            assert(raw == 0);
        } else {
            lemma_hoist_over_denominator(a - 1, 1, 0x10000000000000000 as nat);
            assert(mid as int == (a - 1) / d64 + 1);
            lemma_hoist_over_denominator((mid as int) - 1, 1, 0x4000000000000 as nat);
            assert(raw as int == ((a - 1) / d64) / d50 + 1);
            lemma_div_denominator(a - 1, d64, d50);
            lemma_hoist_over_denominator(a - 1, 1, 0x40000000000000000000000000000 as nat);
            assert(raw as int == (a + 0x3ffffffffffffffffffffffffffff)
                / 0x40000000000000000000000000000);
        }
    }
    if raw == 0 {
        1
    } else if raw > (usize::MAX as u128) {
        usize::MAX
    } else {
        raw as usize
    }
}

} // verus!
