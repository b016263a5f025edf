//! Double-precision values as their IEEE-754 bit patterns: ordering,
//! and exact conversion from integers in the exactly-representable
//! range. No floating-point arithmetic runs here; everything is
//! decided on the bits.

use vstd::prelude::*;

use vstd::arithmetic::power2::{
    lemma2_to64,
    lemma2_to64_rest,
    lemma_pow2_adds,
    lemma_pow2_pos,
    lemma_pow2_strictly_increases,
    pow2,
};

verus! {

/// The biased exponent field of `bits`.
pub open spec fn exp_field(bits: u64) -> u64 {
    (bits / 0x10000000000000) as u64 % 2048
}

/// The fraction field of `bits`.
pub open spec fn frac_field(bits: u64) -> u64 {
    bits % 0x10000000000000
}

/// The sign bit of `bits`.
pub open spec fn sign_field(bits: u64) -> u64 {
    bits / 0x8000000000000000
}

/// The magnitude bits, sign stripped.
pub open spec fn mag_field(bits: u64) -> u64 {
    bits % 0x8000000000000000
}

/// True when `bits` encodes a NaN.
pub open spec fn f64_is_nan(bits: u64) -> bool {
    exp_field(bits) == 2047 && frac_field(bits) != 0
}

/// True when `bits` encodes a zero of either sign.
pub open spec fn f64_is_zero(bits: u64) -> bool {
    mag_field(bits) == 0
}

/// Order key of a non-NaN pattern: numeric order of the encoded
/// values is the integer order of these keys, with the two zeros
/// mapping to the same key.
pub open spec fn order_key(bits: u64) -> int {
    if sign_field(bits) == 0 {
        0x8000000000000000 + mag_field(bits)
    } else {
        0x8000000000000000 - mag_field(bits)
    }
}

/// Strict order on encoded values: false when either side is NaN.
pub open spec fn f64_lt(a: u64, b: u64) -> bool {
    !f64_is_nan(a) && !f64_is_nan(b) && order_key(a) < order_key(b)
}

/// Decides `a < b` on the bits. IEEE-754 doubles outside NaN order
/// exactly by sign and magnitude bits, the two zeros comparing equal.
pub fn f64_bits_lt(a: u64, b: u64) -> (r: bool)
    ensures
        r == f64_lt(a, b),
{
    if is_nan_exec(a) || is_nan_exec(b) {
        return false;
    }
    let ka = key_exec(a);
    let kb = key_exec(b);
    ka < kb
}

/// Decides `a > b` on the bits.
pub fn f64_bits_gt(a: u64, b: u64) -> (r: bool)
    ensures
        r == f64_lt(b, a),
{
    f64_bits_lt(b, a)
}

fn is_nan_exec(bits: u64) -> (r: bool)
    ensures
        r == f64_is_nan(bits),
{
    let e = (bits / 0x10000000000000) % 2048;
    let f = bits % 0x10000000000000;
    e == 2047 && f != 0
}

fn key_exec(bits: u64) -> (r: u64)
    ensures
        r as int == order_key(bits),
{
    let sign = bits / 0x8000000000000000;
    let mag = bits % 0x8000000000000000;
    if sign == 0 {
        0x8000000000000000 + mag
    } else {
        0x8000000000000000 - mag
    }
}

/// Bits of `1.0`.
pub const F64_ONE_BITS: u64 = 0x3FF0000000000000;

/// Bits of `0.0`.
pub const F64_ZERO_BITS: u64 = 0;

/// Floor of the base-two logarithm.
pub open spec fn log2f(m: nat) -> nat
    decreases m,
{
    if m < 2 {
        0
    } else {
        1 + log2f(m / 2)
    }
}

proof fn lemma_log2f_bounds(m: nat)
    requires
        m >= 1,
    ensures
        pow2(log2f(m)) <= m < pow2(log2f(m) + 1),
    decreases m,
{
    vstd::arithmetic::power2::lemma_pow2_unfold(log2f(m) + 1);
    if m >= 2 {
        lemma_log2f_bounds(m / 2);
        vstd::arithmetic::power2::lemma_pow2_unfold(log2f(m));
    } else {
        lemma2_to64();
            lemma2_to64_rest();
    }
}

/// Bits of the double exactly equal to the integer `v`, defined for
/// the exactly-representable range.
pub open spec fn exact_f64_bits(v: int) -> u64 {
    if v == 0 {
        0
    } else {
        let m = if v < 0 {
            (-v) as nat
        } else {
            v as nat
        };
        let sign: nat = if v < 0 {
            0x8000000000000000
        } else {
            0
        };
        if m == 0x20000000000000 {
            (sign + 0x4340000000000000) as u64
        } else {
            let k = log2f(m);
            (sign + (1023 + k) * 0x10000000000000 + (m * pow2((52 - k) as nat)
                - 0x10000000000000)) as u64
        }
    }
}

fn pow2_exec(k: u64) -> (r: u64)
    requires
        k <= 52,
    ensures
        r as nat == pow2(k as nat),
{
    let mut r: u64 = 1;
    let mut j: u64 = 0;
    proof {
        lemma2_to64();
            lemma2_to64_rest();
    }
    while j < k
        invariant
            j <= k <= 52,
            r as nat == pow2(j as nat),
        decreases k - j,
    {
        proof {
            lemma2_to64();
            lemma2_to64_rest();
            if j + 1 < 52 {
                lemma_pow2_strictly_increases((j + 1) as nat, 52);
            }
            vstd::arithmetic::power2::lemma_pow2_unfold((j + 1) as nat);
        }
        r = r * 2;
        j = j + 1;
    }
    r
}

proof fn lemma_log2f_le52(m: nat)
    requires
        1 <= m < 0x20000000000000,
    ensures
        log2f(m) <= 52,
{
    lemma_log2f_bounds(m);
    lemma2_to64();
            lemma2_to64_rest();
    if log2f(m) > 52 {
        if log2f(m) > 53 {
            lemma_pow2_strictly_increases(53, log2f(m));
        }
        assert(pow2(53nat) <= pow2(log2f(m)));
        assert(false);
    }
}

/// Converts an integer in the exactly-representable range to the bits
/// of the double with the same value.
pub fn int_to_f64_bits(v: i64) -> (r: u64)
    requires
        -0x20000000000000 <= v <= 0x20000000000000,
    ensures
        r == exact_f64_bits(v as int),
{
    if v == 0 {
        return 0;
    }
    let neg = v < 0;
    let m: u64 = if neg {
        (-(v as i128)) as u64
    } else {
        v as u64
    };
    let sign: u64 = if neg {
        0x8000000000000000
    } else {
        0
    };
    if m == 0x20000000000000 {
        return sign + 0x4340000000000000;
    }
    proof {
        lemma_log2f_le52(m as nat);
        lemma2_to64();
            lemma2_to64_rest();
        assert(pow2(0nat) == 1);
        assert(m as nat / 1 == m as nat);
        assert(m as nat / pow2(0) == m as nat);
    }
    let mut k: u64 = 0;
    let mut t: u64 = m;
    while t >= 2
        invariant
            t >= 1,
            1 <= m < 0x20000000000000,
            log2f(m as nat) <= 52,
            k as nat <= log2f(m as nat),
            log2f(m as nat) == k as nat + log2f(t as nat),
            t as nat == m as nat / pow2(k as nat),
        decreases t,
    {
        proof {
            lemma_pow2_adds(k as nat, 1);
            lemma_pow2_pos(k as nat);
            vstd::arithmetic::power2::lemma_pow2_unfold(1);
            lemma2_to64();
            lemma2_to64_rest();
            vstd::arithmetic::div_mod::lemma_div_denominator(
                m as int,
                pow2(k as nat) as int,
                2,
            );
            assert(log2f(t as nat) >= 1);
        }
        t = t / 2;
        k = k + 1;
    }
    proof {
        assert(log2f(t as nat) == 0);
        assert(log2f(m as nat) == k as nat);
        lemma_log2f_bounds(m as nat);
        assert(k <= 52);
    }
    let p = pow2_exec(52 - k);
    proof {
        lemma2_to64();
            lemma2_to64_rest();
        lemma_pow2_adds((k + 1) as nat, (52 - k) as nat);
        lemma_pow2_pos((52 - k) as nat);
        assert((m as nat) * (p as nat) < pow2(53nat)) by (nonlinear_arith)
            requires
                (m as nat) < pow2((k + 1) as nat),
                p as nat == pow2((52 - k) as nat),
                p as nat >= 1,
                pow2((k + 1) as nat) * pow2((52 - k) as nat) == pow2(53nat),
        ;
        lemma_pow2_adds(k as nat, (52 - k) as nat);
        assert((m as nat) * (p as nat) >= pow2(52nat)) by (nonlinear_arith)
            requires
                (m as nat) >= pow2(k as nat),
                p as nat == pow2((52 - k) as nat),
                pow2(k as nat) * pow2((52 - k) as nat) == pow2(52nat),
        ;
    }
    let scaled = m * p;
    sign + (1023 + k) * 0x10000000000000 + (scaled - 0x10000000000000)
}

/// Bits of the double a single-precision pattern widens to: the value
/// is preserved exactly; NaN payloads shift into the wider fraction.
pub open spec fn f32_widen(bits: u32) -> u64 {
    let sign: nat = (bits as nat) / 0x80000000;
    let e: nat = ((bits as nat) / 0x800000) % 256;
    let f: nat = (bits as nat) % 0x800000;
    if e == 255 {
        (sign * 0x8000000000000000 + 2047 * 0x10000000000000 + f * 0x20000000) as u64
    } else if e == 0 && f == 0 {
        (sign * 0x8000000000000000) as u64
    } else if e == 0 {
        let k = log2f(f);
        (sign * 0x8000000000000000 + (874 + k) * 0x10000000000000 + (f * pow2((52 - k) as nat)
            - 0x10000000000000)) as u64
    } else {
        (sign * 0x8000000000000000 + (e + 896) * 0x10000000000000 + f * 0x20000000) as u64
    }
}

/// Widens a single-precision bit pattern to the double-precision
/// pattern of the same value.
pub fn widen_f32_bits(bits: u32) -> (r: u64)
    ensures
        r == f32_widen(bits),
{
    let sign: u64 = (bits / 0x80000000) as u64;
    let e: u64 = ((bits / 0x800000) % 256) as u64;
    let f: u64 = (bits % 0x800000) as u64;
    if e == 255 {
        sign * 0x8000000000000000 + 2047 * 0x10000000000000 + f * 0x20000000
    } else if e == 0 && f == 0 {
        sign * 0x8000000000000000
    } else if e == 0 {
        proof {
            lemma2_to64();
            lemma2_to64_rest();
            lemma_log2f_le52(f as nat);
            assert(log2f(f as nat) <= 22) by {
                lemma_log2f_bounds(f as nat);
                if log2f(f as nat) > 22 {
                    if log2f(f as nat) > 23 {
                        lemma_pow2_strictly_increases(23, log2f(f as nat));
                    }
                    assert(pow2(23nat) <= pow2(log2f(f as nat)));
                    assert(false);
                }
            }
        }
        let mut k: u64 = 0;
        let mut t: u64 = f;
        proof {
            lemma2_to64();
            lemma2_to64_rest();
            assert(pow2(0nat) == 1);
            assert(f as nat / 1 == f as nat);
        }
        while t >= 2
            invariant
                t >= 1,
                1 <= f < 0x800000,
                log2f(f as nat) <= 22,
                k as nat <= log2f(f as nat),
                log2f(f as nat) == k as nat + log2f(t as nat),
                t as nat == f as nat / pow2(k as nat),
            decreases t,
        {
            proof {
                lemma_pow2_adds(k as nat, 1);
                lemma_pow2_pos(k as nat);
                vstd::arithmetic::power2::lemma_pow2_unfold(1);
                lemma2_to64();
                lemma2_to64_rest();
                vstd::arithmetic::div_mod::lemma_div_denominator(
                    f as int,
                    pow2(k as nat) as int,
                    2,
                );
                assert(log2f(t as nat) >= 1);
            }
            t = t / 2;
            k = k + 1;
        }
        proof {
            assert(log2f(t as nat) == 0);
            assert(log2f(f as nat) == k as nat);
            lemma_log2f_bounds(f as nat);
        }
        let p = pow2_exec(52 - k);
        proof {
            lemma2_to64();
            lemma2_to64_rest();
            lemma_pow2_adds((k + 1) as nat, (52 - k) as nat);
            lemma_pow2_pos((52 - k) as nat);
            assert((f as nat) * (p as nat) < pow2(53nat)) by (nonlinear_arith)
                requires
                    (f as nat) < pow2((k + 1) as nat),
                    p as nat == pow2((52 - k) as nat),
                    p as nat >= 1,
                    pow2((k + 1) as nat) * pow2((52 - k) as nat) == pow2(53nat),
            ;
            lemma_pow2_adds(k as nat, (52 - k) as nat);
            assert((f as nat) * (p as nat) >= pow2(52nat)) by (nonlinear_arith)
                requires
                    (f as nat) >= pow2(k as nat),
                    p as nat == pow2((52 - k) as nat),
                    pow2(k as nat) * pow2((52 - k) as nat) == pow2(52nat),
            ;
        }
        let scaled = f * p;
        sign * 0x8000000000000000 + (874 + k) * 0x10000000000000 + (scaled - 0x10000000000000)
    } else {
        sign * 0x8000000000000000 + (e + 896) * 0x10000000000000 + f * 0x20000000
    }
}

} // verus!
