//! The number model of the dynamic value tree.
//!
//! The engine stores every number as a double-precision float.  This library
//! feeds the engine nothing but integers, so a number node carries the exact
//! integer the double holds.  Integers of magnitude at most 2^53 are exact;
//! a wider 64-bit integer is rounded to the nearest representable double
//! (ties to even), which is the documented precision boundary of the codec.

use vstd::prelude::*;
use vstd::arithmetic::div_mod::{lemma_div_denominator, lemma_fundamental_div_mod};
use vstd::arithmetic::mul::lemma_mul_inequality;

verus! {

/// Largest magnitude at which every integer is exactly representable as a
/// double: 2^53.
pub const EXACT_BOUND: u64 = 9007199254740992;

/// The spacing of representable doubles around magnitude `m`: the smallest
/// power of two `g` with `m / g < 2^53`.
pub open spec fn dbl_granule(m: nat) -> nat
    decreases m,
{
    if m < EXACT_BOUND { 1 } else { 2 * dbl_granule(m / 2) }
}

/// `m` rounded to the nearest multiple of `g`, ties to the even multiple.
pub open spec fn round_half_even(m: nat, g: nat) -> nat {
    let q = m / g;
    let r = m % g;
    if 2 * r < g {
        q * g
    } else if 2 * r > g {
        (q + 1) * g
    } else if q % 2 == 0 {
        q * g
    } else {
        (q + 1) * g
    }
}

/// The integer value of the double nearest to `v` (ties to even).
pub open spec fn nearest_double(v: int) -> int {
    if v >= 0 {
        round_half_even(v as nat, dbl_granule(v as nat)) as int
    } else {
        -(round_half_even((-v) as nat, dbl_granule((-v) as nat)) as int)
    }
}

/// Integers within the exact range pass through rounding unchanged, so every
/// integer of magnitude at most 2^53 survives the trip through a double.
pub proof fn lemma_nearest_double_exact(v: int)
    requires
        -(EXACT_BOUND as int) <= v <= EXACT_BOUND as int,
    ensures
        nearest_double(v) == v,
{
    if v >= 0 {
        lemma_round_exact(v as nat);
    } else {
        lemma_round_exact((-v) as nat);
    }
}

proof fn lemma_round_exact(m: nat)
    requires
        m <= EXACT_BOUND as nat,
    ensures
        round_half_even(m, dbl_granule(m)) == m,
{
    if m < EXACT_BOUND {
        assert(dbl_granule(m) == 1);
        assert(m % 1 == 0) by (nonlinear_arith);
        assert(m / 1 == m) by (nonlinear_arith);
    } else {
        assert(m == EXACT_BOUND);
        assert(m / 2 < EXACT_BOUND) by (nonlinear_arith)
            requires m == EXACT_BOUND as nat;
        assert(dbl_granule(m / 2) == 1);
        assert(dbl_granule(m) == 2);
        assert(m % 2 == 0 && m / 2 == (EXACT_BOUND as nat) / 2) by (nonlinear_arith)
            requires m == EXACT_BOUND as nat;
        assert((m / 2) * 2 == m) by (nonlinear_arith)
            requires m % 2 == 0;
    }
}

/// Rounds a magnitude to the nearest double, exactly as `round_half_even` at
/// the double's granule says.
fn round_u64(m: u64) -> (r: u128)
    ensures
        r as nat == round_half_even(m as nat, dbl_granule(m as nat)),
        r <= 0x2_0000_0000_0000_0000u128,
{
    if m < EXACT_BOUND {
        proof {
            assert(m as nat % 1 == 0) by (nonlinear_arith);
            assert(m as nat / 1 == m as nat) by (nonlinear_arith);
        }
        return m as u128;
    }
    let mut g: u64 = 1;
    while m / g >= EXACT_BOUND
        invariant
            1 <= g,
            g <= 4096,
            m >= EXACT_BOUND,
            dbl_granule(m as nat) == g * dbl_granule((m / g) as nat),
        decreases EXACT_BOUND - g,
    {
        proof {
            lemma_fundamental_div_mod(m as int, g as int);
            lemma_mul_inequality(EXACT_BOUND as int, (m / g) as int, g as int);
            assert(g as int * EXACT_BOUND as int <= m as int);
            assert(g <= 2047) by (nonlinear_arith)
                requires
                    g as int * EXACT_BOUND as int <= m as int,
                    m <= u64::MAX,
                    1 <= g;
            assert(2 * g <= 4096);
            lemma_div_denominator(m as int, g as int, 2);
            let ghost d: nat = dbl_granule((m as int / (g as int * 2)) as nat);
            assert(((m / g) / 2) as int == m as int / (g as int * 2));
            assert(dbl_granule((m / g) as nat) == 2 * d);
            assert(g as nat * (2 * d) == (g as nat * 2) * d) by (nonlinear_arith);
            assert(dbl_granule(m as nat) == (g as nat * 2) * d);
        }
        g = g * 2;
    }
    proof {
        assert(dbl_granule((m / g) as nat) == 1);
        assert(g * 1 == g) by (nonlinear_arith);
    }
    let q: u64 = m / g;
    let r: u64 = m % g;
    proof {
        lemma_fundamental_div_mod(m as int, g as int);
        assert(q < EXACT_BOUND);
        assert(r < g) by (nonlinear_arith)
            requires r == m as int % g as int, g >= 1;
        assert((q as int + 1) * g as int <= EXACT_BOUND as int * 4096) by (nonlinear_arith)
            requires q as int + 1 <= EXACT_BOUND as int, g <= 4096;
        assert(q as int * g as int <= (q as int + 1) * g as int) by (nonlinear_arith)
            requires g >= 1;
    }
    let rounded: u128 = if 2 * r < g {
        (q as u128) * (g as u128)
    } else if 2 * r > g {
        (q as u128 + 1) * (g as u128)
    } else if q % 2 == 0 {
        (q as u128) * (g as u128)
    } else {
        (q as u128 + 1) * (g as u128)
    };
    proof {
        assert(EXACT_BOUND as int * 4096 == 0x2_0000_0000_0000_0000) by (nonlinear_arith);
    }
    rounded
}

/// The double the engine would store for an unsigned 64-bit integer.
pub fn number_from_u64(v: u64) -> (r: i128)
    ensures
        r == nearest_double(v as int),
        0 <= r <= 0x2_0000_0000_0000_0000i128,
{
    round_u64(v) as i128
}

/// The double the engine would store for a signed 64-bit integer.
pub fn number_from_i64(v: i64) -> (r: i128)
    ensures
        r == nearest_double(v as int),
        -0x2_0000_0000_0000_0000i128 <= r <= 0x2_0000_0000_0000_0000i128,
{
    if v >= 0 {
        round_u64(v as u64) as i128
    } else {
        let neg: i128 = -(v as i128);
        assert(0 <= neg <= 0x8000_0000_0000_0000i128);
        let m: u64 = neg as u64;
        -(round_u64(m) as i128)
    }
}

} // verus!
