//! Core WebAssembly values, and the conversion of floating-point bit
//! patterns to integers that reading them as `i32` performs.

use vstd::prelude::*;
use vstd::arithmetic::power2::{lemma2_to64, lemma_pow2_pos, lemma_pow2_unfold, pow2};

verus! {

/// `significand * 2^scale`, rounded toward zero.
pub open spec fn spec_scaled_magnitude(significand: nat, scale: int) -> nat {
    if scale >= 0 {
        significand * pow2(scale as nat)
    } else {
        significand / pow2((-scale) as nat)
    }
}

/// A magnitude with a sign, clamped to `lo..=hi`.
pub open spec fn spec_clamp(negative: bool, magnitude: nat, lo: int, hi: int) -> int {
    if negative {
        if magnitude >= -lo {
            lo
        } else {
            -(magnitude as int)
        }
    } else {
        if magnitude >= hi {
            hi
        } else {
            magnitude as int
        }
    }
}

/// An IEEE 754 binary number given by its sign, biased exponent field and
/// fraction field, rounded toward zero and clamped to `lo..=hi`: NaN gives 0
/// and the infinities give the bounds.
pub open spec fn spec_float_to_int(
    negative: bool,
    exponent: nat,
    exponent_all_ones: nat,
    fraction: nat,
    fraction_bits: nat,
    bias: nat,
    lo: int,
    hi: int,
) -> int {
    if exponent == exponent_all_ones {
        if fraction != 0 {
            0
        } else if negative {
            lo
        } else {
            hi
        }
    } else {
        let significand = if exponent == 0 {
            fraction
        } else {
            fraction + pow2(fraction_bits)
        };
        let scale = (if exponent == 0 {
            1
        } else {
            exponent
        }) - bias - fraction_bits;
        spec_clamp(negative, spec_scaled_magnitude(significand, scale), lo, hi)
    }
}

/// The single-precision number with bit pattern `bits`, rounded toward zero
/// and clamped to `lo..=hi`.
pub open spec fn spec_f32_bits_to_int(bits: u32, lo: int, hi: int) -> int {
    spec_float_to_int(
        bits / 0x8000_0000 == 1,
        ((bits / 0x80_0000) % 0x100) as nat,
        0xff,
        (bits % 0x80_0000) as nat,
        23,
        127,
        lo,
        hi,
    )
}

/// The double-precision number with bit pattern `bits`, rounded toward zero
/// and clamped to `lo..=hi`.
pub open spec fn spec_f64_bits_to_int(bits: u64, lo: int, hi: int) -> int {
    spec_float_to_int(
        bits / 0x8000_0000_0000_0000 == 1,
        ((bits / 0x10_0000_0000_0000) % 0x800) as nat,
        0x7ff,
        (bits % 0x10_0000_0000_0000) as nat,
        52,
        1023,
        lo,
        hi,
    )
}

/// The single-precision number with bit pattern `bits`, as an `i32`.
pub open spec fn spec_f32_bits_to_i32(bits: u32) -> i32 {
    spec_f32_bits_to_int(bits, i32::MIN as int, i32::MAX as int) as i32
}

/// The double-precision number with bit pattern `bits`, as an `i32`.
pub open spec fn spec_f64_bits_to_i32(bits: u64) -> i32 {
    spec_f64_bits_to_int(bits, i32::MIN as int, i32::MAX as int) as i32
}

/// `significand * 2^scale` rounded toward zero, or `None` when that is at
/// least 2^32.
fn scaled_magnitude(significand: u64, scale: i32) -> (r: Option<u64>)
    requires
        -2000 <= scale <= 2000,
    ensures
        match r {
            Some(m) => m == spec_scaled_magnitude(significand as nat, scale as int) && m
                < 0x1_0000_0000,
            None => spec_scaled_magnitude(significand as nat, scale as int) >= 0x1_0000_0000,
        },
{
    proof {
        lemma2_to64();
    }
    if scale >= 0 {
        let mut m: u64 = significand;
        let mut k: i32 = 0;
        assert(significand * pow2(0) == significand);
        while k < scale
            invariant
                0 <= k <= scale,
                m == significand * pow2(k as nat),
            decreases scale - k,
        {
            if m >= 0x1_0000_0000 {
                proof {
                    lemma_pow2_monotone(k as nat, scale as nat);
                    assert(significand * pow2(k as nat) <= significand * pow2(scale as nat))
                        by (nonlinear_arith)
                        requires
                            pow2(k as nat) <= pow2(scale as nat),
                    ;
                }
                return None;
            }
            proof {
                lemma_pow2_unfold((k + 1) as nat);
                assert(significand * pow2((k + 1) as nat) == (significand * pow2(k as nat)) * 2)
                    by (nonlinear_arith)
                    requires
                        pow2((k + 1) as nat) == 2 * pow2(k as nat),
                ;
            }
            m = m * 2;
            k = k + 1;
        }
        if m >= 0x1_0000_0000 {
            None
        } else {
            Some(m)
        }
    } else {
        let n: i32 = -scale;
        let mut m: u64 = significand;
        let mut k: i32 = 0;
        assert(significand as nat / pow2(0) == significand);
        while k < n && m > 0
            invariant
                0 <= k <= n,
                n == -scale,
                m == significand as nat / pow2(k as nat),
            decreases n - k,
        {
            proof {
                lemma_pow2_pos(k as nat);
                lemma_pow2_unfold((k + 1) as nat);
                vstd::arithmetic::div_mod::lemma_div_denominator(
                    significand as int,
                    pow2(k as nat) as int,
                    2,
                );
                assert(pow2(k as nat) * 2 == pow2((k + 1) as nat));
            }
            m = m / 2;
            k = k + 1;
        }
        proof {
            if m == 0 && k < n {
                // Once the quotient is zero it stays zero.
                lemma_pow2_pos(k as nat);
                lemma_pow2_monotone(k as nat, n as nat);
                vstd::arithmetic::div_mod::lemma_fundamental_div_mod(
                    significand as int,
                    pow2(k as nat) as int,
                );
                assert(significand < pow2(k as nat));
                vstd::arithmetic::div_mod::lemma_basic_div(significand as int, pow2(n as nat) as int);
            }
        }
        if m >= 0x1_0000_0000 {
            None
        } else {
            Some(m)
        }
    }
}

/// Powers of two grow with the exponent.
proof fn lemma_pow2_monotone(a: nat, b: nat)
    requires
        a <= b,
    ensures
        pow2(a) <= pow2(b),
{
    if a < b {
        vstd::arithmetic::power2::lemma_pow2_strictly_increases(a, b);
    }
}

/// The magnitude with its sign, clamped to `lo..=hi`; `None` stands for a
/// magnitude of at least 2^32.
fn clamp_magnitude(negative: bool, magnitude: Option<u64>, lo: i64, hi: i64) -> (r: i64)
    requires
        magnitude matches Some(m) ==> m < 0x1_0000_0000,
        -0x1_0000_0000 < lo <= 0 <= hi < 0x1_0000_0000,
    ensures
        lo <= r <= hi,
        forall|mag: nat|
            (match magnitude {
                Some(m) => mag == m,
                None => mag >= 0x1_0000_0000,
            }) ==> r == spec_clamp(negative, mag, lo as int, hi as int),
{
    match magnitude {
        None => if negative {
            lo
        } else {
            hi
        },
        Some(m) => if negative {
            if m as i64 >= -lo {
                lo
            } else {
                -(m as i64)
            }
        } else {
            if m as i64 >= hi {
                hi
            } else {
                m as i64
            }
        },
    }
}

/// Rounds the single-precision number with bit pattern `bits` toward zero
/// and clamps it to `lo..=hi`; NaN gives 0.
pub fn f32_bits_to_int(bits: u32, lo: i64, hi: i64) -> (r: i64)
    requires
        -0x1_0000_0000 < lo <= 0 <= hi < 0x1_0000_0000,
    ensures
        r == spec_f32_bits_to_int(bits, lo as int, hi as int),
        lo <= r <= hi,
{
    proof {
        lemma2_to64();
    }
    let negative: bool = bits / 0x8000_0000 == 1;
    let exponent: u32 = (bits / 0x80_0000) % 0x100;
    let fraction: u32 = bits % 0x80_0000;
    if exponent == 0xff {
        return if fraction != 0 {
            0
        } else if negative {
            lo
        } else {
            hi
        };
    }
    let significand: u64 = if exponent == 0 {
        fraction as u64
    } else {
        fraction as u64 + 0x80_0000
    };
    let biased: i32 = if exponent == 0 {
        1
    } else {
        exponent as i32
    };
    let scale: i32 = biased - 127 - 23;
    clamp_magnitude(negative, scaled_magnitude(significand, scale), lo, hi)
}

/// Rounds the double-precision number with bit pattern `bits` toward zero
/// and clamps it to `lo..=hi`; NaN gives 0.
pub fn f64_bits_to_int(bits: u64, lo: i64, hi: i64) -> (r: i64)
    requires
        -0x1_0000_0000 < lo <= 0 <= hi < 0x1_0000_0000,
    ensures
        r == spec_f64_bits_to_int(bits, lo as int, hi as int),
        lo <= r <= hi,
{
    proof {
        lemma2_to64();
        vstd::arithmetic::power2::lemma2_to64_rest();
    }
    let negative: bool = bits / 0x8000_0000_0000_0000 == 1;
    let exponent: u64 = (bits / 0x10_0000_0000_0000) % 0x800;
    let fraction: u64 = bits % 0x10_0000_0000_0000;
    if exponent == 0x7ff {
        return if fraction != 0 {
            0
        } else if negative {
            lo
        } else {
            hi
        };
    }
    let significand: u64 = if exponent == 0 {
        fraction
    } else {
        fraction + 0x10_0000_0000_0000
    };
    let biased: i32 = if exponent == 0 {
        1
    } else {
        exponent as i32
    };
    let scale: i32 = biased - 1023 - 52;
    clamp_magnitude(negative, scaled_magnitude(significand, scale), lo, hi)
}

/// Rounds the single-precision number with bit pattern `bits` toward zero
/// and clamps it to the range of `i32`; NaN gives 0.
pub fn f32_bits_to_i32(bits: u32) -> (r: i32)
    ensures
        r == spec_f32_bits_to_i32(bits),
{
    let v: i64 = f32_bits_to_int(bits, i32::MIN as i64, i32::MAX as i64);
    v as i32
}

/// Rounds the double-precision number with bit pattern `bits` toward zero
/// and clamps it to the range of `i32`; NaN gives 0.
pub fn f64_bits_to_i32(bits: u64) -> (r: i32)
    ensures
        r == spec_f64_bits_to_i32(bits),
{
    let v: i64 = f64_bits_to_int(bits, i32::MIN as i64, i32::MAX as i64);
    v as i32
}

/// The double-precision number with bit pattern `bits` is below zero: its
/// sign bit is set and it is neither NaN nor a zero.
pub open spec fn spec_f64_is_negative(bits: u64) -> bool {
    let exponent = (bits / 0x10_0000_0000_0000) % 0x800;
    let fraction = bits % 0x10_0000_0000_0000;
    &&& bits / 0x8000_0000_0000_0000 == 1
    &&& !(exponent == 0x7ff && fraction != 0)
    &&& !(exponent == 0 && fraction == 0)
}

/// The double-precision number with bit pattern `bits` is below zero.
pub fn f64_is_negative(bits: u64) -> (r: bool)
    ensures
        r == spec_f64_is_negative(bits),
{
    let exponent: u64 = (bits / 0x10_0000_0000_0000) % 0x800;
    let fraction: u64 = bits % 0x10_0000_0000_0000;
    bits / 0x8000_0000_0000_0000 == 1 && !(exponent == 0x7ff && fraction != 0) && !(exponent == 0
        && fraction == 0)
}

/// The position of the highest set bit of `m`.
pub open spec fn spec_log2(m: nat) -> nat
    decreases m,
{
    if m <= 1 {
        0
    } else {
        1 + spec_log2(m / 2)
    }
}

/// `2^log2(m) <= m < 2^(log2(m) + 1)`.
proof fn lemma_log2(m: nat)
    requires
        m >= 1,
    ensures
        pow2(spec_log2(m)) <= m < pow2(spec_log2(m) + 1),
    decreases m,
{
    if m <= 1 {
        lemma2_to64();
    } else {
        lemma_log2(m / 2);
        let l = spec_log2(m / 2);
        lemma_pow2_unfold(l + 1);
        lemma_pow2_unfold(l + 2);
    }
}

/// The exponent `e` with `2^e <= m < 2^(e + 1)` is `log2(m)`.
proof fn lemma_log2_unique(m: nat, e: nat)
    requires
        pow2(e) <= m < pow2(e + 1),
    ensures
        spec_log2(m) == e,
{
    lemma_pow2_pos(e);
    lemma_log2(m);
    let l = spec_log2(m);
    if l < e {
        lemma_pow2_monotone(l + 1, e);
    } else if l > e {
        lemma_pow2_monotone(e + 1, l);
    }
}

/// The bit pattern of the double-precision number equal to the integer `x`
/// (every integer below 2^53 in magnitude is one).
pub open spec fn spec_f64_bits_of_int(x: int) -> u64 {
    if x == 0 {
        0
    } else {
        let m: nat = if x < 0 {
            (-x) as nat
        } else {
            x as nat
        };
        let e = spec_log2(m);
        let sign: int = if x < 0 {
            0x8000_0000_0000_0000
        } else {
            0
        };
        (sign + (e + 1023) * 0x10_0000_0000_0000 + (m - pow2(e)) * pow2((52 - e) as nat)) as u64
    }
}

/// The bit pattern of the double-precision number equal to `x`.
pub fn f64_bits_of_int(x: i64) -> (r: u64)
    requires
        -0x1_0000_0000 < x < 0x1_0000_0000,
    ensures
        r == spec_f64_bits_of_int(x as int),
{
    proof {
        lemma2_to64();
        vstd::arithmetic::power2::lemma2_to64_rest();
    }
    if x == 0 {
        return 0;
    }
    let negative: bool = x < 0;
    let m: u64 = if negative {
        (-x) as u64
    } else {
        x as u64
    };
    // The highest set bit of `m`.
    let mut e: u64 = 0;
    let mut p: u64 = 1;
    while p <= m / 2
        invariant
            1 <= m < 0x1_0000_0000,
            p == pow2(e as nat),
            1 <= p <= m,
            e < 32,
        decreases m - p,
    {
        proof {
            lemma2_to64();
            lemma_pow2_unfold((e + 1) as nat);
            if e + 1 >= 32 {
                lemma_pow2_monotone(32, (e + 1) as nat);
            }
        }
        p = p * 2;
        e = e + 1;
    }
    proof {
        lemma_pow2_unfold((e + 1) as nat);
        lemma_log2_unique(m as nat, e as nat);
    }
    // The fraction is what lies below that bit, moved up to 52 bits.
    let mut q: u64 = 1;
    let mut k: u64 = 0;
    while k < 52 - e
        invariant
            e < 32,
            k <= 52 - e,
            q == pow2(k as nat),
        decreases 52 - e - k,
    {
        proof {
            vstd::arithmetic::power2::lemma2_to64_rest();
            lemma_pow2_unfold((k + 1) as nat);
            lemma_pow2_monotone((k + 1) as nat, 52);
        }
        q = q * 2;
        k = k + 1;
    }
    proof {
        vstd::arithmetic::power2::lemma_pow2_adds(e as nat, (52 - e) as nat);
        assert((m - p) * q < 0x10_0000_0000_0000) by (nonlinear_arith)
            requires
                m - p < p,
                p * q == 0x10_0000_0000_0000,
                q > 0,
        ;
    }
    let fraction: u64 = (m - p) * q;
    let sign: u64 = if negative {
        0x8000_0000_0000_0000
    } else {
        0
    };
    sign + (e + 1023) * 0x10_0000_0000_0000 + fraction
}

/// Converting an integer below 2^32 in magnitude to a double and back, with
/// bounds that hold it, gives the integer; the double is below zero exactly
/// when the integer is.
pub proof fn lemma_f64_bits_of_int(x: int, lo: int, hi: int)
    requires
        -0x1_0000_0000 < x < 0x1_0000_0000,
        lo <= x <= hi,
    ensures
        spec_f64_bits_to_int(spec_f64_bits_of_int(x), lo, hi) == x,
        spec_f64_is_negative(spec_f64_bits_of_int(x)) == (x < 0),
{
    lemma2_to64();
    vstd::arithmetic::power2::lemma2_to64_rest();
    if x == 0 {
        lemma_pow2_pos(1074);
        assert(0nat / pow2(1074) == 0) by (nonlinear_arith)
            requires
                pow2(1074) > 0,
        ;
    } else {
        let m: nat = if x < 0 {
            (-x) as nat
        } else {
            x as nat
        };
        lemma_log2(m);
        let e = spec_log2(m);
        if e >= 32 {
            lemma_pow2_monotone(32, e);
        }
        assert(e < 32);
        let s: int = if x < 0 {
            1
        } else {
            0
        };
        let p = pow2(e);
        let q = pow2((52 - e) as nat);
        vstd::arithmetic::power2::lemma_pow2_adds(e, (52 - e) as nat);
        lemma_pow2_pos((52 - e) as nat);
        let f: int = (m - p) * q;
        assert(0 <= f < 0x10_0000_0000_0000) by (nonlinear_arith)
            requires
                0 <= m - p < p,
                p * q == 0x10_0000_0000_0000,
                q > 0,
                f == (m - p) * q,
        ;
        let big: int = s * 0x8000_0000_0000_0000 + (e + 1023) * 0x10_0000_0000_0000 + f;
        let bits = spec_f64_bits_of_int(x);
        assert(bits == big);
        vstd::arithmetic::div_mod::lemma_fundamental_div_mod_converse(
            big,
            0x8000_0000_0000_0000,
            s,
            (e + 1023) * 0x10_0000_0000_0000 + f,
        );
        vstd::arithmetic::div_mod::lemma_fundamental_div_mod_converse(
            big,
            0x10_0000_0000_0000,
            s * 0x800 + e + 1023,
            f,
        );
        vstd::arithmetic::div_mod::lemma_fundamental_div_mod_converse(
            s * 0x800 + e + 1023,
            0x800,
            s,
            (e + 1023) as int,
        );
        assert(f + pow2(52) == m * q) by (nonlinear_arith)
            requires
                f == (m - p) * q,
                pow2(52) == p * q,
        ;
        vstd::arithmetic::div_mod::lemma_div_by_multiple(m as int, q as int);
        assert(spec_scaled_magnitude((f + pow2(52)) as nat, e - 52) == m);
    }
}

/// Possible runtime values that a WebAssembly module can either consume or
/// produce.
#[derive(Debug, Clone, Copy, PartialEq, Eq)]
pub enum Val {
    /// A 32-bit integer
    I32(i32),
    /// A 64-bit integer
    I64(i64),
    /// A 32-bit float, stored as its raw bits.
    F32(u32),
    /// A 64-bit float, stored as its raw bits.
    F64(u64),
}

impl Val {
    /// The value as an `i32`: a 64-bit integer is truncated to its low 32
    /// bits, a float is rounded toward zero and clamped (NaN gives 0).
    pub fn i32(&self) -> (r: Option<i32>)
        ensures
            r == Some(
                match *self {
                    Val::I32(i) => i,
                    Val::I64(i) => i as i32,
                    Val::F32(bits) => spec_f32_bits_to_i32(bits),
                    Val::F64(bits) => spec_f64_bits_to_i32(bits),
                },
            ),
    {
        match self {
            Val::I32(i) => Some(*i),
            Val::I64(i) => Some(#[verifier::truncate] (*i as i32)),
            Val::F32(bits) => Some(f32_bits_to_i32(*bits)),
            Val::F64(bits) => Some(f64_bits_to_i32(*bits)),
        }
    }
}

impl From<i32> for Val {
    fn from(value: i32) -> (r: Val) {
        Val::I32(value)
    }
}

impl vstd::std_specs::convert::FromSpecImpl<i32> for Val {
    open spec fn obeys_from_spec() -> bool {
        true
    }

    open spec fn from_spec(value: i32) -> Val {
        Val::I32(value)
    }
}

} // verus!
