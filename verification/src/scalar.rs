//! Exact arithmetic on IEEE-754 bit patterns.
//!
//! Levels in the library are carried as the bit patterns of single-precision floats. When a
//! level is scaled to a DMX value, the product of the float and an integer factor is rounded to
//! single precision and then converted to an unsigned integer, exactly as
//! `(x * (k as f32)) as u64` does; this module computes that result with integers only.

use vstd::prelude::*;
use vstd::arithmetic::power2::{pow2, lemma_pow2_unfold, lemma_pow2_pos, lemma_pow2_adds, lemma_pow2_strictly_increases, lemma2_to64};
use vstd::arithmetic::div_mod::{lemma_div_denominator, lemma_multiply_divide_lt, lemma_fundamental_div_mod, lemma_fundamental_div_mod_converse};

verus! {

/// The sign bit of an `f32` bit pattern is set.
pub open spec fn f32_is_negative(bits: u32) -> bool {
    bits >= 0x8000_0000
}

/// The biased exponent field of an `f32` bit pattern.
pub open spec fn f32_exponent_field(bits: u32) -> nat {
    ((bits % 0x8000_0000) / 0x80_0000) as nat
}

/// The fraction field of an `f32` bit pattern.
pub open spec fn f32_fraction(bits: u32) -> nat {
    (bits % 0x80_0000) as nat
}

/// The bit pattern is a NaN.
pub open spec fn f32_is_nan(bits: u32) -> bool {
    f32_exponent_field(bits) == 255 && f32_fraction(bits) != 0
}

/// The bit pattern is an infinity.
pub open spec fn f32_is_infinite(bits: u32) -> bool {
    f32_exponent_field(bits) == 255 && f32_fraction(bits) == 0
}

/// The significand `m` of a finite `f32`, whose magnitude is `m * 2^e` with `e` its exponent.
pub open spec fn f32_significand(bits: u32) -> nat {
    if f32_exponent_field(bits) == 0 {
        f32_fraction(bits)
    } else {
        f32_fraction(bits) + 0x80_0000
    }
}

/// The exponent `e` of a finite `f32`, whose magnitude is `m * 2^e` with `m` its significand.
pub open spec fn f32_exponent(bits: u32) -> int {
    if f32_exponent_field(bits) == 0 {
        -149
    } else {
        f32_exponent_field(bits) - 150
    }
}

/// The number of binary digits of `n`.
pub open spec fn bit_len(n: nat) -> nat
    decreases n,
{
    if n == 0 {
        0
    } else {
        1 + bit_len(n / 2)
    }
}

/// `n` rounded to 24 significant binary digits, ties to even: the precision of an `f32`.
pub open spec fn round_to_f32_precision(n: nat) -> nat {
    if bit_len(n) <= 24 {
        n
    } else {
        let r = (bit_len(n) - 24) as nat;
        let q = n / pow2(r);
        let rem = n % pow2(r);
        let half = pow2((r - 1) as nat);
        let up = rem > half || (rem == half && q % 2 == 1);
        (if up { q + 1 } else { q }) * pow2(r)
    }
}

/// `m * 2^e`, rounded toward zero.
pub open spec fn scale_by_pow2(m: nat, e: int) -> nat {
    if e >= 0 {
        m * pow2(e as nat)
    } else {
        m / pow2((-e) as nat)
    }
}

/// `v`, saturated to the range of `u64`.
pub open spec fn saturate_u64(v: nat) -> u64 {
    if v > u64::MAX { u64::MAX } else { v as u64 }
}

/// `(x * (k as f32)) as u64` for the `f32` with bit pattern `bits` and an integer `k` (of
/// magnitude below 2^128): `k` is rounded to single precision, the product is rounded to single
/// precision, then truncated toward zero and saturated; NaN and negative products give 0.
pub open spec fn f32_times_int_to_u64(bits: u32, k: int) -> u64 {
    if f32_is_nan(bits) || k == 0 {
        0
    } else if f32_is_negative(bits) != (k < 0) {
        0
    } else if f32_is_infinite(bits) {
        u64::MAX
    } else {
        let factor = round_to_f32_precision((if k < 0 { -k } else { k }) as nat);
        let magnitude = f32_significand(bits) * factor;
        saturate_u64(scale_by_pow2(round_to_f32_precision(magnitude), f32_exponent(bits)))
    }
}

/// Doubling a positive number adds one binary digit.
proof fn lemma_bit_len_shift(n: nat, t: nat)
    requires
        n > 0,
    ensures
        bit_len(n * pow2(t)) == bit_len(n) + t,
    decreases t,
{
    if t == 0 {
        lemma2_to64();
        assert(n * pow2(0) == n) by (nonlinear_arith)
            requires
                pow2(0) == 1,
        ;
    } else {
        lemma_bit_len_shift(n, (t - 1) as nat);
        lemma_pow2_unfold(t);
        lemma_pow2_pos((t - 1) as nat);
        let m = n * pow2((t - 1) as nat);
        assert(n * pow2(t) == 2 * m) by (nonlinear_arith)
            requires
                pow2(t) == 2 * pow2((t - 1) as nat),
                m == n * pow2((t - 1) as nat),
        ;
        assert(m > 0) by (nonlinear_arith)
            requires
                n > 0,
                pow2((t - 1) as nat) > 0,
                m == n * pow2((t - 1) as nat),
        ;
        assert((2 * m) / 2 == m);
    }
}

/// A number of at most 24 binary digits, scaled by a power of two, is held exactly at single
/// precision.
proof fn lemma_round_shift(n: nat, t: nat)
    requires
        n < pow2(24),
    ensures
        round_to_f32_precision(n * pow2(t)) == n * pow2(t),
{
    if n == 0 {
        assert(0 * pow2(t) == 0);
        return;
    }
    let big = n * pow2(t);
    lemma_bit_len_shift(n, t);
    lemma_bit_len_bounds(n);
    if bit_len(n) > 24 {
        lemma_pow2_strictly_increases(24, (bit_len(n) - 1) as nat);
        if bit_len(n) - 1 > 24 {
        } else {
            assert(bit_len(n) - 1 == 24);
        }
    }
    assert(bit_len(n) <= 24);
    if bit_len(big) > 24 {
        let r = (bit_len(big) - 24) as nat;
        assert(r <= t);
        let d = (t - r) as nat;
        lemma_pow2_adds(d, r);
        lemma_pow2_pos(r);
        let q = n * pow2(d);
        assert(big == q * pow2(r)) by (nonlinear_arith)
            requires
                big == n * pow2(t),
                pow2(t) == pow2(d) * pow2(r),
                q == n * pow2(d),
        ;
        lemma_fundamental_div_mod_converse(big as int, pow2(r) as int, q as int, 0);
        lemma_pow2_pos((r - 1) as nat);
    }
}

/// A number of at most 24 binary digits is held exactly at single precision.
proof fn lemma_round_small(n: nat)
    requires
        n <= pow2(24),
    ensures
        round_to_f32_precision(n) == n,
{
    lemma2_to64();
    if n == pow2(24) {
        lemma_round_shift(1, 24);
        assert(1 * pow2(24) == pow2(24));
    } else {
        lemma_round_shift(n, 0);
        lemma2_to64();
        assert(n * pow2(0) == n);
    }
}

/// `pow2(e)` as a `u64`.
fn pow2_u64(e: u64) -> (r: u64)
    requires
        e < 64,
    ensures
        r == pow2(e as nat),
{
    let mut r: u64 = 1;
    let mut i: u64 = 0;
    proof {
        lemma2_to64();
    }
    while i < e
        invariant
            i <= e < 64,
            r == pow2(i as nat),
        decreases e - i,
    {
        proof {
            lemma_pow2_unfold((i + 1) as nat);
            lemma_pow2_strictly_increases((i + 1) as nat, 64);
            lemma2_to64();
        }
        r = r * 2;
        i = i + 1;
    }
    r
}

/// `n < 2^bit_len(n)`, and `2^(bit_len(n) - 1) <= n` when `n > 0`.
proof fn lemma_bit_len_bounds(n: nat)
    ensures
        n < pow2(bit_len(n)),
        n > 0 ==> pow2((bit_len(n) - 1) as nat) <= n,
    decreases n,
{
    if n == 0 {
        lemma2_to64();
    } else {
        lemma_bit_len_bounds(n / 2);
        lemma_pow2_unfold(bit_len(n));
        if n / 2 > 0 {
            lemma_pow2_unfold((bit_len(n) - 1) as nat);
        } else {
            lemma2_to64();
        }
    }
}

/// The number of binary digits of `n`.
fn bit_length(n: u64) -> (r: u64)
    ensures
        r == bit_len(n as nat),
        r <= 64,
{
    proof {
        lemma_bit_len_bounds(n as nat);
        lemma2_to64();
        if bit_len(n as nat) > 65 {
            lemma_pow2_strictly_increases(64, (bit_len(n as nat) - 1) as nat);
        }
    }
    let mut t = n;
    let mut b: u64 = 0;
    while t > 0
        invariant
            bit_len(n as nat) == b + bit_len(t as nat),
            b + bit_len(t as nat) <= 64,
        decreases t,
    {
        t = t / 2;
        b = b + 1;
    }
    b
}


/// `n` rounded to the precision of an `f32`.
fn round_precision(n: u64) -> (r: u64)
    requires
        n < 0x1_0000_0000_0000,
    ensures
        r == round_to_f32_precision(n as nat),
        r <= 0x1_0000_0000_0000,
{
    let b = bit_length(n);
    if b <= 24 {
        return n;
    }
    proof {
        lemma_bit_len_bounds(n as nat);
        lemma2_to64();
        if b > 49 {
            lemma_pow2_strictly_increases(48, (b - 1) as nat);
        }
        assert(pow2(48) == 0x1_0000_0000_0000) by {
            lemma_pow2_adds(32, 16);
        }
    }
    let r = b - 24;
    assert(r <= 24);
    let p = pow2_u64(r);
    let q = n / p;
    let rem = n % p;
    let half = p / 2;
    proof {
        lemma_pow2_unfold(r as nat);
        lemma_pow2_pos(r as nat);
        lemma_pow2_adds(24, r as nat);
        assert(pow2(24) == 0x100_0000) by { lemma2_to64(); }
        assert((n as nat) < pow2(24) * pow2(r as nat));
        lemma_multiply_divide_lt(n as int, pow2(r as nat) as int, pow2(24) as int);
        assert(pow2(r as nat) <= pow2(24)) by {
            if r < 24 {
                lemma_pow2_strictly_increases(r as nat, 24);
            }
        }
    }
    let up = rem > half || (rem == half && q % 2 == 1);
    let q2 = if up { q + 1 } else { q };
    assert(q2 <= 0x100_0000);
    assert(q2 * p <= 0x100_0000 * 0x100_0000) by (nonlinear_arith)
        requires
            q2 <= 0x100_0000,
            p <= 0x100_0000,
    ;
    q2 * p
}

/// `v * 2^e` rounded toward zero, saturated to `u64`.
fn scale_pow2(v: u64, e: i64) -> (r: u64)
    requires
        -200 <= e <= 200,
    ensures
        r == saturate_u64(scale_by_pow2(v as nat, e as int)),
{
    if e >= 0 {
        let mut cur = v;
        let mut i: i64 = 0;
        proof {
            lemma2_to64();
            assert(v as nat * pow2(0) == v as nat) by (nonlinear_arith)
                requires
                    pow2(0) == 1,
            ;
        }
        while i < e
            invariant
                0 <= i <= e,
                cur as nat == v as nat * pow2(i as nat),
            decreases e - i,
        {
            if cur > u64::MAX / 2 {
                proof {
                    let rest = (e - i) as nat;
                    lemma_pow2_adds(i as nat, rest);
                    lemma_pow2_strictly_increases(0, rest);
                    lemma2_to64();
                    assert(v as nat * pow2(e as nat) == cur as nat * pow2(rest)) by (nonlinear_arith)
                        requires
                            cur as nat == v as nat * pow2(i as nat),
                            pow2(e as nat) == pow2(i as nat) * pow2(rest),
                    ;
                    assert(cur as nat * pow2(rest) >= cur as nat * 2) by (nonlinear_arith)
                        requires
                            pow2(rest) >= 2,
                    ;
                }
                return u64::MAX;
            }
            proof {
                lemma_pow2_unfold((i + 1) as nat);
                assert(v as nat * pow2((i + 1) as nat) == 2 * (v as nat * pow2(i as nat))) by (nonlinear_arith)
                    requires
                        pow2((i + 1) as nat) == 2 * pow2(i as nat),
                ;
            }
            cur = cur * 2;
            i = i + 1;
        }
        cur
    } else {
        let mut cur = v;
        let mut i: i64 = 0;
        let n = -e;
        proof {
            lemma2_to64();
            assert(v as nat / pow2(0) == v as nat) by (nonlinear_arith)
                requires
                    pow2(0) == 1,
            ;
        }
        while i < n
            invariant
                0 <= i <= n,
                n == -e,
                cur as nat == v as nat / pow2(i as nat),
            decreases n - i,
        {
            proof {
                lemma_pow2_pos(i as nat);
                lemma_pow2_unfold((i + 1) as nat);
                lemma_div_denominator(v as int, pow2(i as nat) as int, 2);
            }
            cur = cur / 2;
            i = i + 1;
        }
        cur
    }
}

/// `(x * (k as f32)) as u64` for the `f32` `x` with bit pattern `bits`.
pub fn f32_times_int(bits: u32, k: i64) -> (r: u64)
    requires
        -0x100_0000 <= k <= 0x100_0000,
    ensures
        r == f32_times_int_to_u64(bits, k as int),
{
    let field = (bits % 0x8000_0000) / 0x80_0000;
    let fraction = bits % 0x80_0000;
    if (field == 255 && fraction != 0) || k == 0 {
        return 0;
    }
    let negative = bits >= 0x8000_0000;
    if negative != (k < 0) {
        return 0;
    }
    if field == 255 {
        return u64::MAX;
    }
    let m: u64 = if field == 0 { fraction as u64 } else { fraction as u64 + 0x80_0000 };
    let magnitude: u64 = if k < 0 { (-k) as u64 } else { k as u64 };
    proof {
        lemma2_to64();
        lemma_round_small(magnitude as nat);
    }
    assert(m * magnitude <= 0xFF_FFFF * 0x100_0000) by (nonlinear_arith)
        requires
            m <= 0xFF_FFFF,
            magnitude <= 0x100_0000,
    ;
    let product = m * magnitude;
    let rounded = round_precision(product);
    let exponent: i64 = if field == 0 { -149 } else { field as i64 - 150 };
    scale_pow2(rounded, exponent)
}


/// Byte `j` of `v`, counting from the least significant.
pub open spec fn byte_of(v: u64, j: nat) -> u8 {
    ((v as nat / pow2(8 * j)) % 256) as u8
}

/// The `n` least significant bytes of `v`, least significant first.
pub fn low_bytes_le(v: u64, n: u8) -> (r: Vec<u8>)
    requires
        n <= 8,
    ensures
        r@.len() == n,
        forall|j: int| 0 <= j < n ==> #[trigger] r@[j] == byte_of(v, j as nat),
{
    let mut r: Vec<u8> = Vec::new();
    let mut t: u64 = v;
    let mut j: u8 = 0;
    proof {
        lemma2_to64();
        assert(v as nat / pow2(0) == v as nat) by (nonlinear_arith)
            requires
                pow2(0) == 1,
        ;
    }
    while j < n
        invariant
            j <= n <= 8,
            r@.len() == j,
            t as nat == v as nat / pow2(8 * j as nat),
            forall|i: int| 0 <= i < j ==> #[trigger] r@[i] == byte_of(v, i as nat),
        decreases n - j,
    {
        r.push((t % 256) as u8);
        proof {
            lemma_pow2_pos(8 * j as nat);
            lemma_pow2_adds(8 * j as nat, 8);
            lemma2_to64();
            lemma_div_denominator(v as int, pow2(8 * j as nat) as int, 256);
            assert(8 * (j + 1) as nat == 8 * j as nat + 8);
        }
        t = t / 256;
        j = j + 1;
    }
    r
}

} // verus!
