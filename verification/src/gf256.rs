//! Arithmetic in GF(2^8) = GF(2)[x] / (x^8 + r(x)), for a reduction byte `r`:
//! multiplication as the sum of the shifted copies picked out by the bits of one
//! factor, and the ring laws it obeys whatever the reduction.

use vstd::prelude::*;

verus! {

/// `a * x`, reduced with the low byte `r` of the modulus.
pub open spec fn xtm(r: u8, a: u8) -> u8 {
    if a & 0x80u8 != 0 { ((a << 1u8) ^ r) as u8 } else { (a << 1u8) as u8 }
}

/// `a * x^i`.
pub open spec fn xtpm(r: u8, a: u8, i: nat) -> u8
    decreases i,
{
    if i == 0 { a } else { xtm(r, xtpm(r, a, (i - 1) as nat)) }
}

/// `a` when the bits `m` of `b` are set, else zero.
pub open spec fn sel(b: u8, m: u8, a: u8) -> u8 {
    if b & m != 0 { a } else { 0u8 }
}

/// The sum of the `a_i` picked out by the bits of `b`.
pub open spec fn comb(b: u8, a0: u8, a1: u8, a2: u8, a3: u8, a4: u8, a5: u8, a6: u8, a7: u8) -> u8 {
    sel(b, 1u8, a0) ^ sel(b, 2u8, a1) ^ sel(b, 4u8, a2) ^ sel(b, 8u8, a3)
    ^ sel(b, 16u8, a4) ^ sel(b, 32u8, a5) ^ sel(b, 64u8, a6) ^ sel(b, 128u8, a7)
}

/// Multiplication modulo `x^8 + r(x)`: the sum of `a * x^i` over the bits `i` of `b`.
pub open spec fn gmulp(r: u8, a: u8, b: u8) -> u8 {
    comb(b, xtpm(r, a, 0), xtpm(r, a, 1), xtpm(r, a, 2), xtpm(r, a, 3), xtpm(r, a, 4), xtpm(r, a, 5),
        xtpm(r, a, 6), xtpm(r, a, 7))
}

/// Addition (exclusive or) facts used in rearranging sums.
pub proof fn lemma_xor(a: u8, b: u8, c: u8, d: u8)
    by (bit_vector)
    ensures
        a ^ 0u8 == a,
        0u8 ^ a == a,
        a ^ a == 0u8,
        a ^ b == b ^ a,
        (a ^ b) ^ c == a ^ (b ^ c),
        (a ^ b == 0u8) == (a == b),
        a ^ (b ^ c) == ((c ^ d) ^ b) ^ (a ^ d),
        (a ^ b) ^ (c ^ d) == (a ^ c) ^ (b ^ d),
{
}

/// The picked sum is linear in the selector and in the picked values.
pub proof fn lemma_comb_linear_bv(b: u8, c: u8, x0: u8, x1: u8, x2: u8, x3: u8, x4: u8, x5: u8, x6: u8, x7: u8,
    y0: u8, y1: u8, y2: u8, y3: u8, y4: u8, y5: u8, y6: u8, y7: u8)
    by (bit_vector)
    ensures
        comb(b ^ c, x0, x1, x2, x3, x4, x5, x6, x7)
            == comb(b, x0, x1, x2, x3, x4, x5, x6, x7) ^ comb(c, x0, x1, x2, x3, x4, x5, x6, x7),
        comb(b, x0 ^ y0, x1 ^ y1, x2 ^ y2, x3 ^ y3, x4 ^ y4, x5 ^ y5, x6 ^ y6, x7 ^ y7)
            == comb(b, x0, x1, x2, x3, x4, x5, x6, x7) ^ comb(b, y0, y1, y2, y3, y4, y5, y6, y7),
        comb(0u8, x0, x1, x2, x3, x4, x5, x6, x7) == 0,
        comb(b, 0u8, 0u8, 0u8, 0u8, 0u8, 0u8, 0u8, 0u8) == 0,
        comb(1u8, x0, x1, x2, x3, x4, x5, x6, x7) == x0,
        comb(b, 1u8, 2u8, 4u8, 8u8, 16u8, 32u8, 64u8, 128u8) == b,
{
}

/// The first eight multiples by powers of `x`, each the previous one times `x`.
pub proof fn lemma_xtpm_chain(r: u8, a: u8)
    ensures
        xtpm(r, a, 0) == a,
        xtpm(r, a, 1) == xtm(r, a),
        xtpm(r, a, 2) == xtm(r, xtpm(r, a, 1)),
        xtpm(r, a, 3) == xtm(r, xtpm(r, a, 2)),
        xtpm(r, a, 4) == xtm(r, xtpm(r, a, 3)),
        xtpm(r, a, 5) == xtm(r, xtpm(r, a, 4)),
        xtpm(r, a, 6) == xtm(r, xtpm(r, a, 5)),
        xtpm(r, a, 7) == xtm(r, xtpm(r, a, 6)),
        xtpm(r, a, 8) == xtm(r, xtpm(r, a, 7)),
{
    reveal_with_fuel(xtpm, 2);
}

/// Multiplication by `x` is linear, sends zero to zero, and doubles the small powers.
proof fn lemma_xtm_bv(r: u8, a: u8, b: u8)
    by (bit_vector)
    ensures
        xtm(r, a ^ b) == xtm(r, a) ^ xtm(r, b),
        xtm(r, 0u8) == 0u8,
        xtm(r, 1u8) == 2u8,
        xtm(r, 2u8) == 4u8,
        xtm(r, 4u8) == 8u8,
        xtm(r, 8u8) == 16u8,
        xtm(r, 16u8) == 32u8,
        xtm(r, 32u8) == 64u8,
        xtm(r, 64u8) == 128u8,
{
}

proof fn lemma_xtpm_linear(r: u8, a: u8, b: u8, i: nat)
    ensures
        xtpm(r, a ^ b, i) == xtpm(r, a, i) ^ xtpm(r, b, i),
        xtpm(r, 0, i) == 0,
    decreases i,
{
    if i > 0 {
        lemma_xtpm_linear(r, a, b, (i - 1) as nat);
        lemma_xtm_bv(r, xtpm(r, a, (i - 1) as nat), xtpm(r, b, (i - 1) as nat));
    }
}

#[verifier::rlimit(100)]
proof fn lemma_xt_mul_bv(r: u8, y: u8, y1: u8, y2: u8, y3: u8, y4: u8, y5: u8, y6: u8, y7: u8,
    z1: u8, z2: u8, z3: u8, z4: u8, z5: u8, z6: u8, z7: u8, c: u8)
    by (bit_vector)
    requires
        y1 == xtm(r, y), y2 == xtm(r, y1), y3 == xtm(r, y2), y4 == xtm(r, y3), y5 == xtm(r, y4),
        y6 == xtm(r, y5), y7 == xtm(r, y6),
        z1 == xtm(r, y1), z2 == xtm(r, z1), z3 == xtm(r, z2), z4 == xtm(r, z3), z5 == xtm(r, z4),
        z6 == xtm(r, z5), z7 == xtm(r, z6),
    ensures
        comb(c, y1, z1, z2, z3, z4, z5, z6, z7) == xtm(r, comb(c, y, y1, y2, y3, y4, y5, y6, y7)),
{
}

proof fn lemma_xtpm_shift(r: u8, y: u8, i: nat)
    ensures
        xtpm(r, xtm(r, y), i) == xtpm(r, y, i + 1),
    decreases i,
{
    reveal_with_fuel(xtpm, 2);
    if i > 0 {
        lemma_xtpm_shift(r, y, (i - 1) as nat);
    }
}

/// Multiplying by `x` before or after a product gives the same.
pub proof fn lemma_gmulp_xt(r: u8, y: u8, c: u8)
    ensures
        gmulp(r, xtm(r, y), c) == xtm(r, gmulp(r, y, c)),
{
    lemma_xtpm_shift(r, y, 0);
    lemma_xtpm_shift(r, y, 1);
    lemma_xtpm_shift(r, y, 2);
    lemma_xtpm_shift(r, y, 3);
    lemma_xtpm_shift(r, y, 4);
    lemma_xtpm_shift(r, y, 5);
    lemma_xtpm_shift(r, y, 6);
    lemma_xtpm_shift(r, y, 7);
    lemma_xtpm_chain(r, y);
    lemma_xt_mul_bv(r, y, xtpm(r, y, 1), xtpm(r, y, 2), xtpm(r, y, 3), xtpm(r, y, 4), xtpm(r, y, 5), xtpm(r, y, 6),
        xtpm(r, y, 7), xtpm(r, y, 2), xtpm(r, y, 3), xtpm(r, y, 4), xtpm(r, y, 5), xtpm(r, y, 6), xtpm(r, y, 7),
        xtpm(r, y, 8), c);
}

proof fn lemma_gmulp_xtp(r: u8, y: u8, i: nat, c: u8)
    ensures
        gmulp(r, xtpm(r, y, i), c) == xtpm(r, gmulp(r, y, c), i),
    decreases i,
{
    if i > 0 {
        lemma_gmulp_xtp(r, y, (i - 1) as nat, c);
        lemma_gmulp_xt(r, xtpm(r, y, (i - 1) as nat), c);
    }
}

/// Multiplication distributes over addition on the right.
pub proof fn lemma_gmulp_distrib(r: u8, a: u8, b: u8, c: u8)
    ensures
        gmulp(r, a, b ^ c) == gmulp(r, a, b) ^ gmulp(r, a, c),
{
    lemma_comb_linear_bv(b, c, xtpm(r, a, 0), xtpm(r, a, 1), xtpm(r, a, 2), xtpm(r, a, 3), xtpm(r, a, 4),
        xtpm(r, a, 5), xtpm(r, a, 6), xtpm(r, a, 7), 0, 0, 0, 0, 0, 0, 0, 0);
}

/// Multiplication distributes over addition on the left.
pub proof fn lemma_gmulp_distrib_left(r: u8, a: u8, b: u8, c: u8)
    ensures
        gmulp(r, a ^ b, c) == gmulp(r, a, c) ^ gmulp(r, b, c),
{
    lemma_xtpm_linear(r, a, b, 0);
    lemma_xtpm_linear(r, a, b, 1);
    lemma_xtpm_linear(r, a, b, 2);
    lemma_xtpm_linear(r, a, b, 3);
    lemma_xtpm_linear(r, a, b, 4);
    lemma_xtpm_linear(r, a, b, 5);
    lemma_xtpm_linear(r, a, b, 6);
    lemma_xtpm_linear(r, a, b, 7);
    lemma_comb_linear_bv(c, 0, xtpm(r, a, 0), xtpm(r, a, 1), xtpm(r, a, 2), xtpm(r, a, 3), xtpm(r, a, 4),
        xtpm(r, a, 5), xtpm(r, a, 6), xtpm(r, a, 7), xtpm(r, b, 0), xtpm(r, b, 1), xtpm(r, b, 2), xtpm(r, b, 3),
        xtpm(r, b, 4), xtpm(r, b, 5), xtpm(r, b, 6), xtpm(r, b, 7));
}

/// Zero times anything is zero; one times anything is itself.
proof fn lemma_gmulp_left_units(r: u8, a: u8)
    ensures
        gmulp(r, 0, a) == 0,
        gmulp(r, 1, a) == a,
{
    lemma_xtpm_linear(r, 0, 0, 0);
    lemma_xtpm_linear(r, 0, 0, 1);
    lemma_xtpm_linear(r, 0, 0, 2);
    lemma_xtpm_linear(r, 0, 0, 3);
    lemma_xtpm_linear(r, 0, 0, 4);
    lemma_xtpm_linear(r, 0, 0, 5);
    lemma_xtpm_linear(r, 0, 0, 6);
    lemma_xtpm_linear(r, 0, 0, 7);
    lemma_xtpm_chain(r, 1);
    lemma_xtm_bv(r, 0, 0);
    lemma_comb_linear_bv(a, 0, 0, 0, 0, 0, 0, 0, 0, 0, 0, 0, 0, 0, 0, 0, 0, 0);
}

proof fn lemma_gmulp_sel(r: u8, b: u8, m: u8, y: u8, c: u8)
    ensures
        gmulp(r, sel(b, m, y), c) == sel(b, m, gmulp(r, y, c)),
{
    lemma_gmulp_left_units(r, c);
}

/// Multiplication commutes.
pub proof fn lemma_gmulp_comm(r: u8, a: u8, b: u8)
    ensures
        gmulp(r, a, b) == gmulp(r, b, a),
{
    lemma_comb_linear_bv(a, 0, 0, 0, 0, 0, 0, 0, 0, 0, 0, 0, 0, 0, 0, 0, 0, 0);
    lemma_xtpm_chain(r, 1);
    lemma_xtm_bv(r, 0, 0);
    let s0 = sel(a, 1u8, 1u8);
    let s1 = sel(a, 2u8, 2u8);
    let s2 = sel(a, 4u8, 4u8);
    let s3 = sel(a, 8u8, 8u8);
    let s4 = sel(a, 16u8, 16u8);
    let s5 = sel(a, 32u8, 32u8);
    let s6 = sel(a, 64u8, 64u8);
    let s7 = sel(a, 128u8, 128u8);
    let t1 = s0 ^ s1;
    let t2 = t1 ^ s2;
    let t3 = t2 ^ s3;
    let t4 = t3 ^ s4;
    let t5 = t4 ^ s5;
    let t6 = t5 ^ s6;
    let t7 = t6 ^ s7;
    assert(a == t7);
    lemma_gmulp_distrib_left(r, t6, s7, b);
    lemma_gmulp_distrib_left(r, t5, s6, b);
    lemma_gmulp_distrib_left(r, t4, s5, b);
    lemma_gmulp_distrib_left(r, t3, s4, b);
    lemma_gmulp_distrib_left(r, t2, s3, b);
    lemma_gmulp_distrib_left(r, t1, s2, b);
    lemma_gmulp_distrib_left(r, s0, s1, b);
    lemma_gmulp_sel(r, a, 1u8, 1u8, b);
    lemma_gmulp_sel(r, a, 2u8, 2u8, b);
    lemma_gmulp_sel(r, a, 4u8, 4u8, b);
    lemma_gmulp_sel(r, a, 8u8, 8u8, b);
    lemma_gmulp_sel(r, a, 16u8, 16u8, b);
    lemma_gmulp_sel(r, a, 32u8, 32u8, b);
    lemma_gmulp_sel(r, a, 64u8, 64u8, b);
    lemma_gmulp_sel(r, a, 128u8, 128u8, b);
    lemma_gmulp_left_units(r, b);
    lemma_gmulp_xtp(r, 1, 1, b);
    lemma_gmulp_xtp(r, 1, 2, b);
    lemma_gmulp_xtp(r, 1, 3, b);
    lemma_gmulp_xtp(r, 1, 4, b);
    lemma_gmulp_xtp(r, 1, 5, b);
    lemma_gmulp_xtp(r, 1, 6, b);
    lemma_gmulp_xtp(r, 1, 7, b);
}

/// Zero and one on either side.
pub proof fn lemma_gmulp_zero_one(r: u8, a: u8)
    ensures
        gmulp(r, a, 0) == 0,
        gmulp(r, 0, a) == 0,
        gmulp(r, a, 1) == a,
        gmulp(r, 1, a) == a,
{
    lemma_gmulp_left_units(r, a);
    lemma_gmulp_comm(r, a, 0);
    lemma_gmulp_comm(r, a, 1);
}

/// `(a * b) * c == (a * c) * b`.
proof fn lemma_gmulp_swap(r: u8, a: u8, b: u8, c: u8)
    ensures
        gmulp(r, gmulp(r, a, b), c) == gmulp(r, gmulp(r, a, c), b),
{
    let s0 = sel(b, 1u8, xtpm(r, a, 0));
    let s1 = sel(b, 2u8, xtpm(r, a, 1));
    let s2 = sel(b, 4u8, xtpm(r, a, 2));
    let s3 = sel(b, 8u8, xtpm(r, a, 3));
    let s4 = sel(b, 16u8, xtpm(r, a, 4));
    let s5 = sel(b, 32u8, xtpm(r, a, 5));
    let s6 = sel(b, 64u8, xtpm(r, a, 6));
    let s7 = sel(b, 128u8, xtpm(r, a, 7));
    let t1 = s0 ^ s1;
    let t2 = t1 ^ s2;
    let t3 = t2 ^ s3;
    let t4 = t3 ^ s4;
    let t5 = t4 ^ s5;
    let t6 = t5 ^ s6;
    let t7 = t6 ^ s7;
    assert(gmulp(r, a, b) == t7);
    lemma_gmulp_distrib_left(r, t6, s7, c);
    lemma_gmulp_distrib_left(r, t5, s6, c);
    lemma_gmulp_distrib_left(r, t4, s5, c);
    lemma_gmulp_distrib_left(r, t3, s4, c);
    lemma_gmulp_distrib_left(r, t2, s3, c);
    lemma_gmulp_distrib_left(r, t1, s2, c);
    lemma_gmulp_distrib_left(r, s0, s1, c);
    lemma_gmulp_sel(r, b, 1u8, xtpm(r, a, 0), c);
    lemma_gmulp_sel(r, b, 2u8, xtpm(r, a, 1), c);
    lemma_gmulp_sel(r, b, 4u8, xtpm(r, a, 2), c);
    lemma_gmulp_sel(r, b, 8u8, xtpm(r, a, 3), c);
    lemma_gmulp_sel(r, b, 16u8, xtpm(r, a, 4), c);
    lemma_gmulp_sel(r, b, 32u8, xtpm(r, a, 5), c);
    lemma_gmulp_sel(r, b, 64u8, xtpm(r, a, 6), c);
    lemma_gmulp_sel(r, b, 128u8, xtpm(r, a, 7), c);
    lemma_gmulp_xtp(r, a, 0, c);
    lemma_gmulp_xtp(r, a, 1, c);
    lemma_gmulp_xtp(r, a, 2, c);
    lemma_gmulp_xtp(r, a, 3, c);
    lemma_gmulp_xtp(r, a, 4, c);
    lemma_gmulp_xtp(r, a, 5, c);
    lemma_gmulp_xtp(r, a, 6, c);
    lemma_gmulp_xtp(r, a, 7, c);
}

/// Multiplication is associative.
pub proof fn lemma_gmulp_assoc(r: u8, a: u8, b: u8, c: u8)
    ensures
        gmulp(r, gmulp(r, a, b), c) == gmulp(r, a, gmulp(r, b, c)),
{
    lemma_gmulp_comm(r, a, gmulp(r, b, c));
    lemma_gmulp_swap(r, b, c, a);
    lemma_gmulp_comm(r, b, a);
}

} // verus!
