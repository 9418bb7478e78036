//! Integer arithmetic over IEEE-754 single-precision bit patterns.
//!
//! Replay streams store times, speeds and coordinates as 32-bit float bit
//! patterns.  The crate never computes in floating point: every consumer
//! works on scaled integers, and the functions here turn a bit pattern into
//! the floor of its magnitude times a scale, entirely with integer
//! operations.

use vstd::prelude::*;
use vstd::arithmetic::power2::{
    pow2, lemma2_to64, lemma2_to64_rest, lemma_pow2_adds, lemma_pow2_pos,
    lemma_pow2_strictly_increases,
};
use vstd::arithmetic::div_mod::{
    lemma_basic_div, lemma_div_multiples_vanish, lemma_div_denominator,
    lemma_fundamental_div_mod, lemma_div_is_ordered, lemma_mod_multiples_basic,
};
use vstd::arithmetic::mul::{lemma_mul_inequality, lemma_mul_strict_inequality};
use vstd::bits::{lemma_u64_shl_is_mul, lemma_u64_shr_is_div};

verus! {

/// The exponent field of an IEEE-754 single-precision bit pattern.
pub open spec fn f32_exp(bits: u32) -> u32 {
    (bits >> 23u32) & 0xFF
}

/// The fraction field of an IEEE-754 single-precision bit pattern.
pub open spec fn f32_frac(bits: u32) -> u32 {
    bits & 0x7FFFFF
}

/// Whether the sign bit of the pattern is set.
pub open spec fn f32_is_neg(bits: u32) -> bool {
    (bits >> 31u32) == 1
}

/// Whether the pattern encodes a NaN.
pub open spec fn f32_is_nan(bits: u32) -> bool {
    f32_exp(bits) == 0xFF && f32_frac(bits) != 0
}

/// Whether the pattern encodes an infinity.
pub open spec fn f32_is_inf(bits: u32) -> bool {
    f32_exp(bits) == 0xFF && f32_frac(bits) == 0
}

/// `floor(|value| * scale)` of a finite single-precision pattern.
///
/// A normal pattern has value `(frac + 2^23) * 2^(exp - 150)`, a subnormal
/// one `frac * 2^-149`; both are stated here as an exact integer floor.
pub open spec fn spec_f32_mag_scaled(bits: u32, scale: nat) -> int
    recommends
        f32_exp(bits) < 0xFF,
{
    if f32_exp(bits) == 0 {
        (f32_frac(bits) * scale) as int / pow2(149) as int
    } else {
        ((f32_frac(bits) + 0x800000) * scale * pow2(f32_exp(bits) as nat)) as int / pow2(
            150,
        ) as int
    }
}

/// Computes `floor(|value| * scale)` of a finite pattern, clamped to `u64`.
pub fn f32_mag_scaled(bits: u32, scale: u64) -> (r: u64)
    requires
        f32_exp(bits) < 0xFF,
        1 <= scale <= 0xFFFF_FFFF,
    ensures
        r == if spec_f32_mag_scaled(bits, scale as nat) <= u64::MAX {
            spec_f32_mag_scaled(bits, scale as nat)
        } else {
            u64::MAX as int
        },
{
    let e: u32 = (bits >> 23u32) & 0xFF;
    let f: u64 = (bits & 0x7FFFFF) as u64;
    proof {
        assert((bits & 0x7FFFFF) < 0x800000) by (bit_vector);
        lemma2_to64();
        lemma2_to64_rest();
    }
    if e == 0 {
        proof {
            let prod = (f32_frac(bits) * scale) as int;
            assert(f32_frac(bits) * scale <= 0x7FFFFF * 0xFFFF_FFFF) by (nonlinear_arith)
                requires
                    f32_frac(bits) <= 0x7FFFFF && 0 <= scale <= 0xFFFF_FFFF,
            ;
            assert(pow2(149) > 0x7FFFFF * 0xFFFF_FFFF) by {
                lemma_pow2_strictly_increases(55, 149);
                assert(pow2(55) == 0x80_0000_0000_0000);
            }
            lemma_basic_div(prod, pow2(149) as int);
        }
        return 0;
    }
    let m: u64 = f + 0x800000;
    proof {
        assert(m * scale <= 0xFFFFFF * 0xFFFF_FFFF) by (nonlinear_arith)
            requires
                m <= 0xFFFFFF && 0 <= scale <= 0xFFFF_FFFF,
        ;
        assert(m * scale >= 1) by (nonlinear_arith)
            requires
                m >= 1 && scale >= 1,
        ;
    }
    let t: u64 = m * scale;
    if e >= 150 {
        let sh: u32 = e - 150;
        proof {
            lemma_pow2_adds(150, sh as nat);
            // spec value == t * pow2(sh), exactly
            assert((m * scale * pow2(e as nat)) as int / pow2(150) as int == t * pow2(
                sh as nat,
            )) by {
                assert(m * scale * (pow2(150) * pow2(sh as nat)) == pow2(150) * ((m * scale)
                    * pow2(sh as nat))) by (nonlinear_arith);
                lemma_pow2_pos(150);
                lemma_div_multiples_vanish((t * pow2(sh as nat)) as int, pow2(150) as int);
            }
        }
        if sh >= 64 {
            proof {
                if sh > 64 {
                    lemma_pow2_strictly_increases(64, sh as nat);
                }
                assert(t * pow2(sh as nat) >= pow2(64)) by (nonlinear_arith)
                    requires
                        t >= 1 && pow2(sh as nat) >= pow2(64),
                ;
            }
            return u64::MAX;
        }
        let limit: u64 = u64::MAX >> sh;
        proof {
            lemma_u64_shr_is_div(u64::MAX, sh as u64);
            lemma_pow2_pos(sh as nat);
        }
        if t > limit {
            proof {
                // t * pow2(sh) > u64::MAX
                let p = pow2(sh as nat) as int;
                lemma_fundamental_div_mod(u64::MAX as int, p);
                assert(t >= u64::MAX as int / p + 1);
                lemma_mul_inequality(u64::MAX as int / p + 1, t as int, p);
                assert((u64::MAX as int / p + 1) * p == (u64::MAX as int / p) * p + p)
                    by (nonlinear_arith);
                assert(t * p == p * t) by (nonlinear_arith);
                assert((u64::MAX as int / p) * p == p * (u64::MAX as int / p))
                    by (nonlinear_arith);
            }
            return u64::MAX;
        }
        proof {
            let p = pow2(sh as nat) as int;
            lemma_fundamental_div_mod(u64::MAX as int, p);
            lemma_mul_inequality(t as int, u64::MAX as int / p, p);
            assert((u64::MAX as int / p) * p <= u64::MAX as int) by {
                assert(u64::MAX as int % p >= 0);
                assert((u64::MAX as int / p) * p == p * (u64::MAX as int / p))
                    by (nonlinear_arith);
            }
            assert(t * p == p * t) by (nonlinear_arith);
            assert((u64::MAX as int / p) * p == p * (u64::MAX as int / p)) by (nonlinear_arith);
            lemma_u64_shl_is_mul(t, sh as u64);
        }
        t << sh
    } else {
        let sh: u32 = 150 - e;
        proof {
            // spec value == t / pow2(sh)
            lemma_pow2_adds(e as nat, sh as nat);
            lemma_pow2_pos(e as nat);
            lemma_pow2_pos(sh as nat);
            assert((m * scale * pow2(e as nat)) as int / pow2(150) as int == t as int / pow2(
                sh as nat,
            ) as int) by {
                lemma_div_denominator(
                    (t * pow2(e as nat)) as int,
                    pow2(e as nat) as int,
                    pow2(sh as nat) as int,
                );
                assert(t * pow2(e as nat) == pow2(e as nat) * t) by (nonlinear_arith);
                lemma_div_multiples_vanish(t as int, pow2(e as nat) as int);
                assert(m * scale * pow2(e as nat) == t * pow2(e as nat)) by (nonlinear_arith)
                    requires
                        t == m * scale,
                ;
            }
        }
        if sh >= 64 {
            proof {
                lemma_pow2_strictly_increases(56, sh as nat);
                assert(pow2(56) == 0x100_0000_0000_0000);
                lemma_basic_div(t as int, pow2(sh as nat) as int);
            }
            0
        } else {
            proof {
                lemma_u64_shr_is_div(t, sh as u64);
                lemma_div_is_ordered(0, t as int, pow2(sh as nat) as int);
                lemma_fundamental_div_mod(t as int, pow2(sh as nat) as int);
                lemma_pow2_pos(sh as nat);
                assert(t as int / pow2(sh as nat) as int <= t) by {
                    let p = pow2(sh as nat) as int;
                    let q = t as int / p;
                    assert(q * p == p * q) by (nonlinear_arith);
                    if q > t {
                        lemma_mul_strict_inequality(t as int, q, p);
                        assert(t * p == p * t) by (nonlinear_arith);
                        assert(t as int * 1 <= t * p) by (nonlinear_arith)
                            requires
                                p >= 1,
                        ;
                    }
                }
            }
            t >> sh
        }
    }
}

/// `spec_f32_mag_scaled` at scale 1000, as milliseconds, clamped to `u32`;
/// negative values and NaN give 0, positive infinity gives `u32::MAX`.
pub open spec fn spec_ms_from_f32_bits(bits: u32) -> u32 {
    if f32_is_nan(bits) {
        0
    } else if f32_is_neg(bits) {
        0
    } else if f32_is_inf(bits) {
        u32::MAX
    } else if spec_f32_mag_scaled(bits, 1000) <= u32::MAX {
        spec_f32_mag_scaled(bits, 1000) as u32
    } else {
        u32::MAX
    }
}

/// Turns a float bit pattern holding seconds into whole milliseconds.
pub fn ms_from_f32_bits(bits: u32) -> (r: u32)
    ensures
        r == spec_ms_from_f32_bits(bits),
{
    let e: u32 = (bits >> 23u32) & 0xFF;
    let f: u32 = bits & 0x7FFFFF;
    let neg: bool = (bits >> 31u32) == 1;
    if e == 0xFF {
        if f != 0 {
            0
        } else if neg {
            0
        } else {
            u32::MAX
        }
    } else if neg {
        0
    } else {
        proof {
            assert((bits >> 23u32) & 0xFF <= 0xFF) by (bit_vector);
        }
        let m: u64 = f32_mag_scaled(bits, 1000);
        if m > 0xFFFF_FFFF {
            u32::MAX
        } else {
            m as u32
        }
    }
}

/// `spec_f32_mag_scaled` at scale 1, clamped to `u32`; negative values and
/// NaN give 0, positive infinity gives `u32::MAX`.
pub open spec fn spec_speed_from_f32_bits(bits: u32) -> u32 {
    if f32_is_nan(bits) {
        0
    } else if f32_is_neg(bits) {
        0
    } else if f32_is_inf(bits) {
        u32::MAX
    } else if spec_f32_mag_scaled(bits, 1) <= u32::MAX {
        spec_f32_mag_scaled(bits, 1) as u32
    } else {
        u32::MAX
    }
}

/// Turns a float bit pattern holding a speed into whole units per second.
pub fn speed_from_f32_bits(bits: u32) -> (r: u32)
    ensures
        r == spec_speed_from_f32_bits(bits),
{
    let e: u32 = (bits >> 23u32) & 0xFF;
    let f: u32 = bits & 0x7FFFFF;
    let neg: bool = (bits >> 31u32) == 1;
    if e == 0xFF {
        if f != 0 {
            0
        } else if neg {
            0
        } else {
            u32::MAX
        }
    } else if neg {
        0
    } else {
        proof {
            assert((bits >> 23u32) & 0xFF <= 0xFF) by (bit_vector);
        }
        let m: u64 = f32_mag_scaled(bits, 1);
        if m > 0xFFFF_FFFF {
            u32::MAX
        } else {
            m as u32
        }
    }
}

/// The value of the pattern truncated toward zero and saturated to `i32`,
/// with NaN going to 0: the behaviour of Rust's `f32 as i32` cast.
pub open spec fn spec_i32_from_f32_bits(bits: u32) -> i32 {
    if f32_is_nan(bits) {
        0
    } else if f32_is_inf(bits) {
        if f32_is_neg(bits) {
            i32::MIN
        } else {
            i32::MAX
        }
    } else if f32_is_neg(bits) {
        if spec_f32_mag_scaled(bits, 1) >= 0x8000_0000 {
            i32::MIN
        } else {
            (-spec_f32_mag_scaled(bits, 1)) as i32
        }
    } else {
        if spec_f32_mag_scaled(bits, 1) >= 0x8000_0000 {
            i32::MAX
        } else {
            spec_f32_mag_scaled(bits, 1) as i32
        }
    }
}

/// Truncates the value of a float bit pattern to an `i32`.
pub fn i32_from_f32_bits(bits: u32) -> (r: i32)
    ensures
        r == spec_i32_from_f32_bits(bits),
{
    let e: u32 = (bits >> 23u32) & 0xFF;
    let f: u32 = bits & 0x7FFFFF;
    let neg: bool = (bits >> 31u32) == 1;
    if e == 0xFF {
        if f != 0 {
            0
        } else if neg {
            i32::MIN
        } else {
            i32::MAX
        }
    } else {
        proof {
            assert((bits >> 23u32) & 0xFF <= 0xFF) by (bit_vector);
        }
        let m: u64 = f32_mag_scaled(bits, 1);
        if neg {
            if m >= 0x8000_0000 {
                i32::MIN
            } else {
                -(m as i32)
            }
        } else {
            if m >= 0x8000_0000 {
                i32::MAX
            } else {
                m as i32
            }
        }
    }
}

/// The integer square root: the unique `r` with `r * r <= n < (r+1) * (r+1)`.
pub open spec fn spec_isqrt(n: nat) -> nat {
    choose|r: nat| (#[trigger] (r * r)) <= n < (r + 1) * (r + 1)
}

/// Any `r` with `r * r <= n < (r+1) * (r+1)` is `spec_isqrt(n)`.
pub proof fn lemma_isqrt_unique(n: nat, r: nat)
    requires
        r * r <= n < (r + 1) * (r + 1),
    ensures
        r == spec_isqrt(n),
{
    assert(exists|q: nat| (#[trigger] (q * q)) <= n < (q + 1) * (q + 1)) by {
        assert(r * r <= n < (r + 1) * (r + 1));
    }
    let q = spec_isqrt(n);
    assert(q * q <= n < (q + 1) * (q + 1));
    if q < r {
        assert((q + 1) * (q + 1) <= r * r) by (nonlinear_arith)
            requires
                q < r,
        ;
    }
    if r < q {
        assert((r + 1) * (r + 1) <= q * q) by (nonlinear_arith)
            requires
                r < q,
        ;
    }
}

/// Computes the integer square root of `n`.
pub fn isqrt(n: u64) -> (r: u64)
    ensures
        r * r <= n < (r + 1) * (r + 1),
        r == spec_isqrt(n as nat),
{
    let mut r: u64 = 0;
    let mut idx: u32 = 0;
    proof {
        lemma2_to64();
        lemma2_to64_rest();
    }
    while idx < 32
        invariant
            idx <= 32,
            r as int % pow2((32 - idx) as nat) as int == 0,
            r + pow2((32 - idx) as nat) <= 0x1_0000_0000,
            r * r <= n,
            (r + pow2((32 - idx) as nat)) * (r + pow2((32 - idx) as nat)) > n,
        decreases 32 - idx,
    {
        let bit: u32 = 31 - idx;
        let ghost p: int = pow2(bit as nat) as int;
        proof {
            lemma2_to64();
            lemma_pow2_pos(bit as nat);
            lemma_pow2_adds(bit as nat, 1);
            assert(pow2((32 - idx) as nat) == pow2(bit as nat) * pow2(1));
            assert(pow2(bit as nat) * 2 == 2 * pow2(bit as nat)) by (nonlinear_arith);
            assert(pow2((32 - idx) as nat) as int == 2 * p);
            lemma_pow2_strictly_increases(bit as nat, 32);
            lemma_u64_shl_is_mul(1, bit as u64);
            assert(1 * pow2(bit as nat) == pow2(bit as nat)) by (nonlinear_arith);
        }
        let step: u64 = 1u64 << bit;
        let c: u64 = r + step;
        proof {
            assert(c * c < 0x1_0000_0000 * 0x1_0000_0000) by (nonlinear_arith)
                requires
                    c < 0x1_0000_0000,
            ;
            // r is a multiple of 2p, so both r and r + p are multiples of p
            let k = r as int / (2 * p);
            lemma_fundamental_div_mod(r as int, 2 * p);
            assert(r as int == (2 * p) * k + r as int % (2 * p));
            assert(r as int + p == (2 * k + 1) * p) by (nonlinear_arith)
                requires
                    r as int == (2 * p) * k,
            ;
            assert(r as int == (2 * k) * p) by (nonlinear_arith)
                requires
                    r as int == (2 * p) * k,
            ;
            lemma_mod_multiples_basic(2 * k + 1, p);
            lemma_mod_multiples_basic(2 * k, p);
        }
        if c * c <= n {
            r = c;
        }
        idx = idx + 1;
    }
    proof {
        lemma2_to64();
        lemma_isqrt_unique(n as nat, r as nat);
    }
    r
}

} // verus!
