//! The numbers that float bits stand for, and the laws that `==` and `partial_cmp`
//! on `F32Bits` and `F64Bits` agree with them.
//!
//! An IEEE 754 float is a sign bit, an exponent field `e` and a fraction `f` of
//! `k` bits. Its magnitude is `f * 2^(1 - bias - k)` when `e` is 0 and
//! `(2^k + f) * 2^(e - bias - k)` otherwise. Scaled by `2^(bias + k - 1)`, so that the
//! smallest subnormal is 1, this is the whole number `f` or `(2^k + f) * 2^(e - 1)`.
//! With `e` at its largest and `f` zero (an infinity) the same formula gives a
//! number above every finite magnitude, which is how infinities order.
use vstd::prelude::*;

use core::cmp::Ordering;
use vstd::arithmetic::div_mod::{lemma_div_is_ordered, lemma_fundamental_div_mod};
use vstd::arithmetic::mul::lemma_mul_strict_inequality;
use vstd::arithmetic::power2::{lemma_pow2_adds, lemma_pow2_pos, pow2};
use vstd::std_specs::cmp::{PartialEqSpec, PartialOrdSpec};

use crate::types::{F32Bits, F64Bits};

verus! {

/// The scaled magnitude of the bits below the sign, `m`, where `p` is `2^k` for a
/// fraction of `k` bits: the fraction when the exponent field is 0, and
/// `(p + fraction) * 2^(exponent - 1)` otherwise.
pub open spec fn scaled_magnitude(m: nat, p: nat) -> nat {
    let e = m / p;
    let f = m % p;
    if e == 0 {
        f
    } else {
        (p + f) * pow2((e - 1) as nat)
    }
}

/// A magnitude with a sign.
pub open spec fn signed(negative: bool, magnitude: nat) -> int {
    if negative {
        -magnitude
    } else {
        magnitude as int
    }
}

/// More bits below the sign stand for a larger magnitude.
proof fn lemma_magnitude_increases(m1: nat, m2: nat, p: nat)
    requires
        p > 0,
        m1 < m2,
    ensures
        scaled_magnitude(m1, p) < scaled_magnitude(m2, p),
{
    let (e1, f1) = (m1 / p, m1 % p);
    let (e2, f2) = (m2 / p, m2 % p);
    lemma_fundamental_div_mod(m1 as int, p as int);
    lemma_fundamental_div_mod(m2 as int, p as int);
    lemma_div_is_ordered(m1 as int, m2 as int, p as int);
    if e1 == e2 {
        assert(f1 < f2) by (nonlinear_arith)
            requires
                m1 == p * e1 + f1,
                m2 == p * e2 + f2,
                e1 == e2,
                m1 < m2,
        ;
        if e1 > 0 {
            let q = pow2((e1 - 1) as nat);
            lemma_pow2_pos((e1 - 1) as nat);
            lemma_mul_strict_inequality((p + f1) as int, (p + f2) as int, q as int);
        }
    } else {
        assert(e1 < e2);
        let q2 = pow2((e2 - 1) as nat);
        lemma_pow2_pos((e2 - 1) as nat);
        assert(p * 1 <= (p + f2) * q2) by (nonlinear_arith)
            requires
                q2 >= 1,
                f2 >= 0,
                p > 0,
        ;
        if e1 > 0 {
            let q1 = pow2((e1 - 1) as nat);
            lemma_pow2_pos((e1 - 1) as nat);
            lemma_pow2_adds((e1 - 1) as nat, 1);
            lemma_pow2_adds((e1 - 1) as nat + 1, (e2 - 1 - e1) as nat);
            assert(pow2(1) == 2) by {
                vstd::arithmetic::power2::lemma2_to64();
            }
            let r = pow2((e2 - 1 - e1) as nat);
            lemma_pow2_pos((e2 - 1 - e1) as nat);
            assert(q2 == q1 * 2 * r);
            assert((p + f1) * q1 < (p + f2) * q2) by (nonlinear_arith)
                requires
                    f1 < p,
                    f2 >= 0,
                    q1 >= 1,
                    r >= 1,
                    q2 == q1 * 2 * r,
            ;
        }
    }
}

/// Two signed magnitudes are equal exactly when signs and bits agree or both are
/// zero; a negative one is below a positive one unless both are zero; among
/// positive ones more bits is more, among negative ones it is less.
proof fn lemma_signed_compare(ma: nat, mb: nat, na: bool, nb: bool, p: nat)
    requires
        p > 0,
    ensures
        (signed(na, scaled_magnitude(ma, p)) == signed(nb, scaled_magnitude(mb, p))) <==> ((
        na == nb && ma == mb) || (ma == 0 && mb == 0)),
        signed(na, scaled_magnitude(ma, p)) != signed(nb, scaled_magnitude(mb, p)) ==> ((signed(
            na,
            scaled_magnitude(ma, p),
        ) < signed(nb, scaled_magnitude(mb, p))) <==> (if na != nb {
            na
        } else if !na {
            ma < mb
        } else {
            ma > mb
        })),
{
    assert(scaled_magnitude(0, p) == 0) by {
        assert(0nat / p == 0 && 0nat % p == 0) by (nonlinear_arith)
            requires
                p > 0,
        ;
    }
    if ma < mb {
        lemma_magnitude_increases(ma, mb, p);
    }
    if mb < ma {
        lemma_magnitude_increases(mb, ma, p);
    }
    if 0 < ma {
        lemma_magnitude_increases(0, ma, p);
    }
    if 0 < mb {
        lemma_magnitude_increases(0, mb, p);
    }
}

// ---------------------------------------------------------------------------
// 4-byte floats
// ---------------------------------------------------------------------------

/// Whether 4-byte float bits have the sign bit set.
pub open spec fn f32_negative(b: u32) -> bool {
    b >= 0x8000_0000u32
}

/// The bits of a 4-byte float below the sign, as a number.
pub open spec fn f32_magnitude_bits(b: u32) -> nat {
    (b % 0x8000_0000u32) as nat
}

/// Whether 4-byte float bits are a NaN: the exponent field is 255 and the fraction
/// is not 0.
pub open spec fn f32_not_a_number(b: u32) -> bool {
    f32_magnitude_bits(b) / 0x80_0000 == 255 && f32_magnitude_bits(b) % 0x80_0000 != 0
}

/// The number that 4-byte float bits stand for, scaled by `2^149`.
pub open spec fn f32_value(b: u32) -> int {
    signed(f32_negative(b), scaled_magnitude(f32_magnitude_bits(b), 0x80_0000))
}

proof fn lemma_f32_fields(a: u32, b: u32)
    ensures
        (a & 0x7fff_ffffu32) == f32_magnitude_bits(a),
        ((a & 0x8000_0000u32) != 0u32) == f32_negative(a),
        ((a & 0x7f80_0000u32) == 0x7f80_0000u32 && (a & 0x007f_ffffu32) != 0u32)
            == f32_not_a_number(a),
        (a == b) == (f32_negative(a) == f32_negative(b) && f32_magnitude_bits(a)
            == f32_magnitude_bits(b)),
{
    assert((a & 0x7fff_ffffu32) == a % 0x8000_0000u32) by (bit_vector);
    assert(((a & 0x8000_0000u32) != 0u32) == (a >= 0x8000_0000u32)) by (bit_vector);
    assert(((a & 0x7f80_0000u32) == 0x7f80_0000u32) == ((a % 0x8000_0000u32) / 0x80_0000u32
        == 255u32)) by (bit_vector);
    assert((a & 0x007f_ffffu32) == (a % 0x8000_0000u32) % 0x80_0000u32) by (bit_vector);
    assert((a == b) == ((a >= 0x8000_0000u32) == (b >= 0x8000_0000u32) && a % 0x8000_0000u32
        == b % 0x8000_0000u32)) by (bit_vector);
}

/// Two 4-byte floats are `==` exactly when neither is a NaN and they stand for the
/// same number: so `0.0 == -0.0`, a NaN equals nothing, and floats of opposite
/// sign are equal only when both are zeros.
pub proof fn lemma_f32_eq(a: F32Bits, b: F32Bits)
    ensures
        a.eq_spec(&b) <==> (!f32_not_a_number(a.bits) && !f32_not_a_number(b.bits) && f32_value(
            a.bits,
        ) == f32_value(b.bits)),
{
    lemma_f32_fields(a.bits, b.bits);
    lemma_f32_fields(b.bits, a.bits);
    lemma_signed_compare(
        f32_magnitude_bits(a.bits),
        f32_magnitude_bits(b.bits),
        f32_negative(a.bits),
        f32_negative(b.bits),
        0x80_0000,
    );
}

/// `partial_cmp` on 4-byte floats orders them as the numbers they stand for: no
/// order when either is a NaN, and otherwise `Less`, `Equal` or `Greater` exactly as
/// the first number is below, equal to or above the second.
pub proof fn lemma_f32_order(a: F32Bits, b: F32Bits)
    ensures
        (a.partial_cmp_spec(&b) is None) <==> (f32_not_a_number(a.bits) || f32_not_a_number(
            b.bits,
        )),
        !f32_not_a_number(a.bits) && !f32_not_a_number(b.bits) ==> {
            &&& (a.partial_cmp_spec(&b) == Some(Ordering::Less)) <==> f32_value(a.bits)
                < f32_value(b.bits)
            &&& (a.partial_cmp_spec(&b) == Some(Ordering::Equal)) <==> f32_value(a.bits)
                == f32_value(b.bits)
            &&& (a.partial_cmp_spec(&b) == Some(Ordering::Greater)) <==> f32_value(a.bits)
                > f32_value(b.bits)
        },
{
    lemma_f32_fields(a.bits, b.bits);
    lemma_f32_fields(b.bits, a.bits);
    lemma_f32_eq(a, b);
    lemma_signed_compare(
        f32_magnitude_bits(a.bits),
        f32_magnitude_bits(b.bits),
        f32_negative(a.bits),
        f32_negative(b.bits),
        0x80_0000,
    );
}

// ---------------------------------------------------------------------------
// 8-byte floats
// ---------------------------------------------------------------------------

/// Whether 8-byte float bits have the sign bit set.
pub open spec fn f64_negative(b: u64) -> bool {
    b >= 0x8000_0000_0000_0000u64
}

/// The bits of an 8-byte float below the sign, as a number.
pub open spec fn f64_magnitude_bits(b: u64) -> nat {
    (b % 0x8000_0000_0000_0000u64) as nat
}

/// Whether 8-byte float bits are a NaN: the exponent field is 2047 and the
/// fraction is not 0.
pub open spec fn f64_not_a_number(b: u64) -> bool {
    f64_magnitude_bits(b) / 0x10_0000_0000_0000 == 2047 && f64_magnitude_bits(b)
        % 0x10_0000_0000_0000 != 0
}

/// The number that 8-byte float bits stand for, scaled by `2^1074`.
pub open spec fn f64_value(b: u64) -> int {
    signed(f64_negative(b), scaled_magnitude(f64_magnitude_bits(b), 0x10_0000_0000_0000))
}

proof fn lemma_f64_fields(a: u64, b: u64)
    ensures
        (a & 0x7fff_ffff_ffff_ffffu64) == f64_magnitude_bits(a),
        ((a & 0x8000_0000_0000_0000u64) != 0u64) == f64_negative(a),
        ((a & 0x7ff0_0000_0000_0000u64) == 0x7ff0_0000_0000_0000u64 && (a
            & 0x000f_ffff_ffff_ffffu64) != 0u64) == f64_not_a_number(a),
        (a == b) == (f64_negative(a) == f64_negative(b) && f64_magnitude_bits(a)
            == f64_magnitude_bits(b)),
{
    assert((a & 0x7fff_ffff_ffff_ffffu64) == a % 0x8000_0000_0000_0000u64) by (bit_vector);
    assert(((a & 0x8000_0000_0000_0000u64) != 0u64) == (a >= 0x8000_0000_0000_0000u64))
        by (bit_vector);
    assert(((a & 0x7ff0_0000_0000_0000u64) == 0x7ff0_0000_0000_0000u64) == ((a
        % 0x8000_0000_0000_0000u64) / 0x10_0000_0000_0000u64 == 2047u64)) by (bit_vector);
    assert((a & 0x000f_ffff_ffff_ffffu64) == (a % 0x8000_0000_0000_0000u64)
        % 0x10_0000_0000_0000u64) by (bit_vector);
    assert((a == b) == ((a >= 0x8000_0000_0000_0000u64) == (b >= 0x8000_0000_0000_0000u64) && a
        % 0x8000_0000_0000_0000u64 == b % 0x8000_0000_0000_0000u64)) by (bit_vector);
}

/// Two 8-byte floats are `==` exactly when neither is a NaN and they stand for the
/// same number: so `0.0 == -0.0`, a NaN equals nothing, and floats of opposite
/// sign are equal only when both are zeros.
pub proof fn lemma_f64_eq(a: F64Bits, b: F64Bits)
    ensures
        a.eq_spec(&b) <==> (!f64_not_a_number(a.bits) && !f64_not_a_number(b.bits) && f64_value(
            a.bits,
        ) == f64_value(b.bits)),
{
    lemma_f64_fields(a.bits, b.bits);
    lemma_f64_fields(b.bits, a.bits);
    lemma_signed_compare(
        f64_magnitude_bits(a.bits),
        f64_magnitude_bits(b.bits),
        f64_negative(a.bits),
        f64_negative(b.bits),
        0x10_0000_0000_0000,
    );
}

/// `partial_cmp` on 8-byte floats orders them as the numbers they stand for: no
/// order when either is a NaN, and otherwise `Less`, `Equal` or `Greater` exactly as
/// the first number is below, equal to or above the second.
pub proof fn lemma_f64_order(a: F64Bits, b: F64Bits)
    ensures
        (a.partial_cmp_spec(&b) is None) <==> (f64_not_a_number(a.bits) || f64_not_a_number(
            b.bits,
        )),
        !f64_not_a_number(a.bits) && !f64_not_a_number(b.bits) ==> {
            &&& (a.partial_cmp_spec(&b) == Some(Ordering::Less)) <==> f64_value(a.bits)
                < f64_value(b.bits)
            &&& (a.partial_cmp_spec(&b) == Some(Ordering::Equal)) <==> f64_value(a.bits)
                == f64_value(b.bits)
            &&& (a.partial_cmp_spec(&b) == Some(Ordering::Greater)) <==> f64_value(a.bits)
                > f64_value(b.bits)
        },
{
    lemma_f64_fields(a.bits, b.bits);
    lemma_f64_fields(b.bits, a.bits);
    lemma_f64_eq(a, b);
    lemma_signed_compare(
        f64_magnitude_bits(a.bits),
        f64_magnitude_bits(b.bits),
        f64_negative(a.bits),
        f64_negative(b.bits),
        0x10_0000_0000_0000,
    );
}

} // verus!
