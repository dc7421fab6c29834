//! The field GF(2^8) of the recovery scheme, reduced by `x^8 + x^4 + x^3 + x + 1`
//! (0x11B): the shift-and-add multiplication is the field multiplication, and
//! `a^254` is the inverse of `a`.

use vstd::prelude::*;
use crate::gf256::{xtm, xtpm, comb, gmulp, lemma_xtpm_chain, lemma_gmulp_assoc, lemma_gmulp_comm, lemma_gmulp_zero_one};
use crate::identity::recovery::shamir::{gf_mul_steps, gf_mul_spec, gf_pow_steps, gf_inv_spec};

verus! {

/// Multiplication by `x` in this field.
pub open spec fn xt(a: u8) -> u8 {
    xtm(0x1Bu8, a)
}

/// Multiplication in this field.
pub open spec fn gmul(a: u8, b: u8) -> u8 {
    gmulp(0x1Bu8, a, b)
}

proof fn lemma_shift_steps_bv(a: u8, a1: u8, a2: u8, a3: u8, a4: u8, a5: u8, a6: u8, a7: u8,
    b: u8, b1: u8, b2: u8, b3: u8, b4: u8, b5: u8, b6: u8, b7: u8,
    c1: u8, c2: u8, c3: u8, c4: u8, c5: u8, c6: u8, c7: u8, c8: u8)
    by (bit_vector)
    requires
        b1 == b >> 1u8, b2 == b1 >> 1u8, b3 == b2 >> 1u8, b4 == b3 >> 1u8,
        b5 == b4 >> 1u8, b6 == b5 >> 1u8, b7 == b6 >> 1u8,
        c1 == (if b & 1u8 != 0 { 0u8 ^ a } else { 0u8 }),
        c2 == (if b1 & 1u8 != 0 { c1 ^ a1 } else { c1 }),
        c3 == (if b2 & 1u8 != 0 { c2 ^ a2 } else { c2 }),
        c4 == (if b3 & 1u8 != 0 { c3 ^ a3 } else { c3 }),
        c5 == (if b4 & 1u8 != 0 { c4 ^ a4 } else { c4 }),
        c6 == (if b5 & 1u8 != 0 { c5 ^ a5 } else { c5 }),
        c7 == (if b6 & 1u8 != 0 { c6 ^ a6 } else { c6 }),
        c8 == (if b7 & 1u8 != 0 { c7 ^ a7 } else { c7 }),
    ensures
        c8 == comb(b, a, a1, a2, a3, a4, a5, a6, a7),
{
}

/// The shift-and-add multiplication computes `gmul`.
pub proof fn lemma_gf_mul_is_gmul(a: u8, b: u8)
    ensures
        gf_mul_spec(a, b) == gmul(a, b),
{
    let a1 = xt(a);
    let a2 = xt(a1);
    let a3 = xt(a2);
    let a4 = xt(a3);
    let a5 = xt(a4);
    let a6 = xt(a5);
    let a7 = xt(a6);
    let b1 = b >> 1u8;
    let b2 = b1 >> 1u8;
    let b3 = b2 >> 1u8;
    let b4 = b3 >> 1u8;
    let b5 = b4 >> 1u8;
    let b6 = b5 >> 1u8;
    let b7 = b6 >> 1u8;
    let c1 = if b & 1u8 != 0 { 0u8 ^ a } else { 0u8 };
    let c2 = if b1 & 1u8 != 0 { c1 ^ a1 } else { c1 };
    let c3 = if b2 & 1u8 != 0 { c2 ^ a2 } else { c2 };
    let c4 = if b3 & 1u8 != 0 { c3 ^ a3 } else { c3 };
    let c5 = if b4 & 1u8 != 0 { c4 ^ a4 } else { c4 };
    let c6 = if b5 & 1u8 != 0 { c5 ^ a5 } else { c5 };
    let c7 = if b6 & 1u8 != 0 { c6 ^ a6 } else { c6 };
    let c8 = if b7 & 1u8 != 0 { c7 ^ a7 } else { c7 };
    assert(gf_mul_steps(a7, b7, c7, 1) == gf_mul_steps(xt(a7), b7 >> 1u8, c8, 0));
    assert(gf_mul_steps(a6, b6, c6, 2) == gf_mul_steps(a7, b7, c7, 1));
    assert(gf_mul_steps(a5, b5, c5, 3) == gf_mul_steps(a6, b6, c6, 2));
    assert(gf_mul_steps(a4, b4, c4, 4) == gf_mul_steps(a5, b5, c5, 3));
    assert(gf_mul_steps(a3, b3, c3, 5) == gf_mul_steps(a4, b4, c4, 4));
    assert(gf_mul_steps(a2, b2, c2, 6) == gf_mul_steps(a3, b3, c3, 5));
    assert(gf_mul_steps(a1, b1, c1, 7) == gf_mul_steps(a2, b2, c2, 6));
    assert(gf_mul_steps(a, b, 0, 8) == gf_mul_steps(a1, b1, c1, 7));
    assert(gf_mul_steps(a, b, 0, 8) == c8);
    lemma_shift_steps_bv(a, a1, a2, a3, a4, a5, a6, a7, b, b1, b2, b3, b4, b5, b6, b7, c1, c2, c3, c4, c5, c6, c7, c8);
    lemma_xtpm_chain(0x1Bu8, a);
}

/// `a^255 = 1` for every nonzero `a`, along the square-and-multiply chain that
/// computes `a^254`.
#[verifier::rlimit(100)]
proof fn lemma_pow255_bv(
    a: u8,
    m0_1: u8, m0_2: u8, m0_3: u8, m0_4: u8, m0_5: u8, m0_6: u8, m0_7: u8, r0: u8,
    m1_1: u8, m1_2: u8, m1_3: u8, m1_4: u8, m1_5: u8, m1_6: u8, m1_7: u8, r1: u8,
    m2_1: u8, m2_2: u8, m2_3: u8, m2_4: u8, m2_5: u8, m2_6: u8, m2_7: u8, r2: u8,
    m3_1: u8, m3_2: u8, m3_3: u8, m3_4: u8, m3_5: u8, m3_6: u8, m3_7: u8, r3: u8,
    m4_1: u8, m4_2: u8, m4_3: u8, m4_4: u8, m4_5: u8, m4_6: u8, m4_7: u8, r4: u8,
    m5_1: u8, m5_2: u8, m5_3: u8, m5_4: u8, m5_5: u8, m5_6: u8, m5_7: u8, r5: u8,
    m6_1: u8, m6_2: u8, m6_3: u8, m6_4: u8, m6_5: u8, m6_6: u8, m6_7: u8, r6: u8,
    m7_1: u8, m7_2: u8, m7_3: u8, m7_4: u8, m7_5: u8, m7_6: u8, m7_7: u8, r7: u8,
    m8_1: u8, m8_2: u8, m8_3: u8, m8_4: u8, m8_5: u8, m8_6: u8, m8_7: u8, r8: u8,
    m9_1: u8, m9_2: u8, m9_3: u8, m9_4: u8, m9_5: u8, m9_6: u8, m9_7: u8, r9: u8,
    m10_1: u8, m10_2: u8, m10_3: u8, m10_4: u8, m10_5: u8, m10_6: u8, m10_7: u8, r10: u8,
    m11_1: u8, m11_2: u8, m11_3: u8, m11_4: u8, m11_5: u8, m11_6: u8, m11_7: u8, r11: u8,
    m12_1: u8, m12_2: u8, m12_3: u8, m12_4: u8, m12_5: u8, m12_6: u8, m12_7: u8, r12: u8,
    m13_1: u8, m13_2: u8, m13_3: u8, m13_4: u8, m13_5: u8, m13_6: u8, m13_7: u8, r13: u8,
    m14_1: u8, m14_2: u8, m14_3: u8, m14_4: u8, m14_5: u8, m14_6: u8, m14_7: u8, r14: u8,
)
    by (bit_vector)
    requires
        a != 0,
        m0_1 == xt(a), m0_2 == xt(m0_1), m0_3 == xt(m0_2), m0_4 == xt(m0_3), m0_5 == xt(m0_4), m0_6 == xt(m0_5), m0_7 == xt(m0_6),
        r0 == comb(a, a, m0_1, m0_2, m0_3, m0_4, m0_5, m0_6, m0_7),
        m1_1 == xt(1u8), m1_2 == xt(m1_1), m1_3 == xt(m1_2), m1_4 == xt(m1_3), m1_5 == xt(m1_4), m1_6 == xt(m1_5), m1_7 == xt(m1_6),
        r1 == comb(r0, 1u8, m1_1, m1_2, m1_3, m1_4, m1_5, m1_6, m1_7),
        m2_1 == xt(r0), m2_2 == xt(m2_1), m2_3 == xt(m2_2), m2_4 == xt(m2_3), m2_5 == xt(m2_4), m2_6 == xt(m2_5), m2_7 == xt(m2_6),
        r2 == comb(r0, r0, m2_1, m2_2, m2_3, m2_4, m2_5, m2_6, m2_7),
        m3_1 == xt(r1), m3_2 == xt(m3_1), m3_3 == xt(m3_2), m3_4 == xt(m3_3), m3_5 == xt(m3_4), m3_6 == xt(m3_5), m3_7 == xt(m3_6),
        r3 == comb(r2, r1, m3_1, m3_2, m3_3, m3_4, m3_5, m3_6, m3_7),
        m4_1 == xt(r2), m4_2 == xt(m4_1), m4_3 == xt(m4_2), m4_4 == xt(m4_3), m4_5 == xt(m4_4), m4_6 == xt(m4_5), m4_7 == xt(m4_6),
        r4 == comb(r2, r2, m4_1, m4_2, m4_3, m4_4, m4_5, m4_6, m4_7),
        m5_1 == xt(r3), m5_2 == xt(m5_1), m5_3 == xt(m5_2), m5_4 == xt(m5_3), m5_5 == xt(m5_4), m5_6 == xt(m5_5), m5_7 == xt(m5_6),
        r5 == comb(r4, r3, m5_1, m5_2, m5_3, m5_4, m5_5, m5_6, m5_7),
        m6_1 == xt(r4), m6_2 == xt(m6_1), m6_3 == xt(m6_2), m6_4 == xt(m6_3), m6_5 == xt(m6_4), m6_6 == xt(m6_5), m6_7 == xt(m6_6),
        r6 == comb(r4, r4, m6_1, m6_2, m6_3, m6_4, m6_5, m6_6, m6_7),
        m7_1 == xt(r5), m7_2 == xt(m7_1), m7_3 == xt(m7_2), m7_4 == xt(m7_3), m7_5 == xt(m7_4), m7_6 == xt(m7_5), m7_7 == xt(m7_6),
        r7 == comb(r6, r5, m7_1, m7_2, m7_3, m7_4, m7_5, m7_6, m7_7),
        m8_1 == xt(r6), m8_2 == xt(m8_1), m8_3 == xt(m8_2), m8_4 == xt(m8_3), m8_5 == xt(m8_4), m8_6 == xt(m8_5), m8_7 == xt(m8_6),
        r8 == comb(r6, r6, m8_1, m8_2, m8_3, m8_4, m8_5, m8_6, m8_7),
        m9_1 == xt(r7), m9_2 == xt(m9_1), m9_3 == xt(m9_2), m9_4 == xt(m9_3), m9_5 == xt(m9_4), m9_6 == xt(m9_5), m9_7 == xt(m9_6),
        r9 == comb(r8, r7, m9_1, m9_2, m9_3, m9_4, m9_5, m9_6, m9_7),
        m10_1 == xt(r8), m10_2 == xt(m10_1), m10_3 == xt(m10_2), m10_4 == xt(m10_3), m10_5 == xt(m10_4), m10_6 == xt(m10_5), m10_7 == xt(m10_6),
        r10 == comb(r8, r8, m10_1, m10_2, m10_3, m10_4, m10_5, m10_6, m10_7),
        m11_1 == xt(r9), m11_2 == xt(m11_1), m11_3 == xt(m11_2), m11_4 == xt(m11_3), m11_5 == xt(m11_4), m11_6 == xt(m11_5), m11_7 == xt(m11_6),
        r11 == comb(r10, r9, m11_1, m11_2, m11_3, m11_4, m11_5, m11_6, m11_7),
        m12_1 == xt(r10), m12_2 == xt(m12_1), m12_3 == xt(m12_2), m12_4 == xt(m12_3), m12_5 == xt(m12_4), m12_6 == xt(m12_5), m12_7 == xt(m12_6),
        r12 == comb(r10, r10, m12_1, m12_2, m12_3, m12_4, m12_5, m12_6, m12_7),
        m13_1 == xt(r11), m13_2 == xt(m13_1), m13_3 == xt(m13_2), m13_4 == xt(m13_3), m13_5 == xt(m13_4), m13_6 == xt(m13_5), m13_7 == xt(m13_6),
        r13 == comb(r12, r11, m13_1, m13_2, m13_3, m13_4, m13_5, m13_6, m13_7),
        m14_1 == xt(a), m14_2 == xt(m14_1), m14_3 == xt(m14_2), m14_4 == xt(m14_3), m14_5 == xt(m14_4), m14_6 == xt(m14_5), m14_7 == xt(m14_6),
        r14 == comb(r13, a, m14_1, m14_2, m14_3, m14_4, m14_5, m14_6, m14_7),
    ensures
        r14 == 1,
{}

/// `a * a^254 == 1` for every nonzero `a`: `a^254`, as the square-and-multiply
/// inverse computes it, is the inverse of `a`.
pub proof fn lemma_gmul_inverse(a: u8)
    requires
        a != 0,
    ensures
        gmul(a, gf_inv_spec(a)) == 1,
{
    assert(254u32 & 1 == 0 && 127u32 & 1 != 0 && 63u32 & 1 != 0 && 31u32 & 1 != 0 && 15u32 & 1 != 0
        && 7u32 & 1 != 0 && 3u32 & 1 != 0 && 1u32 & 1 != 0) by (bit_vector);
    let r0 = gmul(a, a);
    let r1 = gmul(1u8, r0);
    let r2 = gmul(r0, r0);
    let r3 = gmul(r1, r2);
    let r4 = gmul(r2, r2);
    let r5 = gmul(r3, r4);
    let r6 = gmul(r4, r4);
    let r7 = gmul(r5, r6);
    let r8 = gmul(r6, r6);
    let r9 = gmul(r7, r8);
    let r10 = gmul(r8, r8);
    let r11 = gmul(r9, r10);
    let r12 = gmul(r10, r10);
    let r13 = gmul(r11, r12);
    let r14 = gmul(a, r13);
    lemma_pow255_bv(
        a,
        xtpm(0x1Bu8, a, 1), xtpm(0x1Bu8, a, 2), xtpm(0x1Bu8, a, 3), xtpm(0x1Bu8, a, 4), xtpm(0x1Bu8, a, 5), xtpm(0x1Bu8, a, 6), xtpm(0x1Bu8, a, 7), r0,
        xtpm(0x1Bu8, 1u8, 1), xtpm(0x1Bu8, 1u8, 2), xtpm(0x1Bu8, 1u8, 3), xtpm(0x1Bu8, 1u8, 4), xtpm(0x1Bu8, 1u8, 5), xtpm(0x1Bu8, 1u8, 6), xtpm(0x1Bu8, 1u8, 7), r1,
        xtpm(0x1Bu8, r0, 1), xtpm(0x1Bu8, r0, 2), xtpm(0x1Bu8, r0, 3), xtpm(0x1Bu8, r0, 4), xtpm(0x1Bu8, r0, 5), xtpm(0x1Bu8, r0, 6), xtpm(0x1Bu8, r0, 7), r2,
        xtpm(0x1Bu8, r1, 1), xtpm(0x1Bu8, r1, 2), xtpm(0x1Bu8, r1, 3), xtpm(0x1Bu8, r1, 4), xtpm(0x1Bu8, r1, 5), xtpm(0x1Bu8, r1, 6), xtpm(0x1Bu8, r1, 7), r3,
        xtpm(0x1Bu8, r2, 1), xtpm(0x1Bu8, r2, 2), xtpm(0x1Bu8, r2, 3), xtpm(0x1Bu8, r2, 4), xtpm(0x1Bu8, r2, 5), xtpm(0x1Bu8, r2, 6), xtpm(0x1Bu8, r2, 7), r4,
        xtpm(0x1Bu8, r3, 1), xtpm(0x1Bu8, r3, 2), xtpm(0x1Bu8, r3, 3), xtpm(0x1Bu8, r3, 4), xtpm(0x1Bu8, r3, 5), xtpm(0x1Bu8, r3, 6), xtpm(0x1Bu8, r3, 7), r5,
        xtpm(0x1Bu8, r4, 1), xtpm(0x1Bu8, r4, 2), xtpm(0x1Bu8, r4, 3), xtpm(0x1Bu8, r4, 4), xtpm(0x1Bu8, r4, 5), xtpm(0x1Bu8, r4, 6), xtpm(0x1Bu8, r4, 7), r6,
        xtpm(0x1Bu8, r5, 1), xtpm(0x1Bu8, r5, 2), xtpm(0x1Bu8, r5, 3), xtpm(0x1Bu8, r5, 4), xtpm(0x1Bu8, r5, 5), xtpm(0x1Bu8, r5, 6), xtpm(0x1Bu8, r5, 7), r7,
        xtpm(0x1Bu8, r6, 1), xtpm(0x1Bu8, r6, 2), xtpm(0x1Bu8, r6, 3), xtpm(0x1Bu8, r6, 4), xtpm(0x1Bu8, r6, 5), xtpm(0x1Bu8, r6, 6), xtpm(0x1Bu8, r6, 7), r8,
        xtpm(0x1Bu8, r7, 1), xtpm(0x1Bu8, r7, 2), xtpm(0x1Bu8, r7, 3), xtpm(0x1Bu8, r7, 4), xtpm(0x1Bu8, r7, 5), xtpm(0x1Bu8, r7, 6), xtpm(0x1Bu8, r7, 7), r9,
        xtpm(0x1Bu8, r8, 1), xtpm(0x1Bu8, r8, 2), xtpm(0x1Bu8, r8, 3), xtpm(0x1Bu8, r8, 4), xtpm(0x1Bu8, r8, 5), xtpm(0x1Bu8, r8, 6), xtpm(0x1Bu8, r8, 7), r10,
        xtpm(0x1Bu8, r9, 1), xtpm(0x1Bu8, r9, 2), xtpm(0x1Bu8, r9, 3), xtpm(0x1Bu8, r9, 4), xtpm(0x1Bu8, r9, 5), xtpm(0x1Bu8, r9, 6), xtpm(0x1Bu8, r9, 7), r11,
        xtpm(0x1Bu8, r10, 1), xtpm(0x1Bu8, r10, 2), xtpm(0x1Bu8, r10, 3), xtpm(0x1Bu8, r10, 4), xtpm(0x1Bu8, r10, 5), xtpm(0x1Bu8, r10, 6), xtpm(0x1Bu8, r10, 7), r12,
        xtpm(0x1Bu8, r11, 1), xtpm(0x1Bu8, r11, 2), xtpm(0x1Bu8, r11, 3), xtpm(0x1Bu8, r11, 4), xtpm(0x1Bu8, r11, 5), xtpm(0x1Bu8, r11, 6), xtpm(0x1Bu8, r11, 7), r13,
        xtpm(0x1Bu8, a, 1), xtpm(0x1Bu8, a, 2), xtpm(0x1Bu8, a, 3), xtpm(0x1Bu8, a, 4), xtpm(0x1Bu8, a, 5), xtpm(0x1Bu8, a, 6), xtpm(0x1Bu8, a, 7), r14,
    );


    lemma_gf_mul_is_gmul(a, a);
    lemma_gf_mul_is_gmul(1, r0);
    lemma_gf_mul_is_gmul(r0, r0);
    lemma_gf_mul_is_gmul(r1, r2);
    lemma_gf_mul_is_gmul(r2, r2);
    lemma_gf_mul_is_gmul(r3, r4);
    lemma_gf_mul_is_gmul(r4, r4);
    lemma_gf_mul_is_gmul(r5, r6);
    lemma_gf_mul_is_gmul(r6, r6);
    lemma_gf_mul_is_gmul(r7, r8);
    lemma_gf_mul_is_gmul(r8, r8);
    lemma_gf_mul_is_gmul(r9, r10);
    lemma_gf_mul_is_gmul(r10, r10);
    lemma_gf_mul_is_gmul(r11, r12);
    lemma_gf_mul_is_gmul(r12, r12);
    assert(gf_pow_steps(r13, gf_mul_spec(r12, r12), 0) == r13);
    assert(gf_pow_steps(r11, r12, 1) == r13);
    assert(gf_pow_steps(r9, r10, 3) == r13);
    assert(gf_pow_steps(r7, r8, 7) == r13);
    assert(gf_pow_steps(r5, r6, 15) == r13);
    assert(gf_pow_steps(r3, r4, 31) == r13);
    assert(gf_pow_steps(r1, r2, 63) == r13);
    assert(gf_pow_steps(1, r0, 127) == r13);
    assert(gf_pow_steps(1, a, 254) == r13);
}

/// A product of two nonzero elements is nonzero.
pub proof fn lemma_gmul_nonzero(a: u8, b: u8)
    requires
        a != 0,
        b != 0,
    ensures
        gmul(a, b) != 0,
{
    let ia = gf_inv_spec(a);
    lemma_gmul_inverse(a);
    lemma_gmulp_assoc(0x1Bu8, ia, a, b);
    lemma_gmulp_comm(0x1Bu8, ia, a);
    lemma_gmulp_zero_one(0x1Bu8, b);
    lemma_gmulp_zero_one(0x1Bu8, ia);
}

} // verus!
