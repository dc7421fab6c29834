//! Polynomials over the recovery field, and why Lagrange interpolation at zero
//! gives back the constant term: a polynomial with fewer coefficients than it
//! has distinct roots vanishes everywhere.

use vstd::prelude::*;
use crate::identity::recovery::shamir::gf_inv_spec;
use crate::gf256::{lemma_gmulp_comm, lemma_gmulp_assoc, lemma_gmulp_distrib, lemma_gmulp_distrib_left,
    lemma_gmulp_zero_one, lemma_xor};
use crate::identity::recovery::field::{gmul, lemma_gmul_inverse, lemma_gmul_nonzero};

verus! {

/// The value at `x` of the polynomial whose coefficient of `x^i` is `p[i]` (Horner's rule).
pub open spec fn peval(p: Seq<u8>, x: u8) -> u8
    decreases p.len(),
{
    if p.len() == 0 { 0 } else { p[0] ^ gmul(x, peval(p.drop_first(), x)) }
}

/// Pairwise distinct points.
pub open spec fn distinct(xs: Seq<u8>) -> bool {
    forall|i: int, j: int| 0 <= i < j < xs.len() ==> xs[i] != xs[j]
}

/// The quotient of `r` by `x - a`: `r(z) == (z - a) * synth(r, a)(z) + r(a)`.
pub open spec fn synth(r: Seq<u8>, a: u8) -> Seq<u8>
    decreases r.len(),
{
    if r.len() <= 1 { Seq::empty() } else { seq![peval(r.drop_first(), a)] + synth(r.drop_first(), a) }
}

/// Coefficient `i` of `p`, zero past its end.
pub open spec fn coef(p: Seq<u8>, i: int) -> u8 {
    if 0 <= i < p.len() { p[i] } else { 0 }
}

/// The sum of two polynomials.
pub open spec fn padd(p: Seq<u8>, q: Seq<u8>) -> Seq<u8> {
    Seq::new(if p.len() >= q.len() { p.len() } else { q.len() }, |i: int| coef(p, i) ^ coef(q, i))
}

/// A polynomial times a constant.
pub open spec fn pscale(c: u8, p: Seq<u8>) -> Seq<u8> {
    p.map_values(|v: u8| gmul(c, v))
}

/// `p(x) * ((x - a) * f)`.
pub open spec fn mlin(p: Seq<u8>, a: u8, f: u8) -> Seq<u8> {
    padd(pscale(gmul(a, f), p), seq![0u8] + pscale(f, p))
}

/// The Lagrange basis polynomial of point `j`, from factor `m` on, times `acc`.
pub open spec fn bpoly(xs: Seq<u8>, j: int, acc: Seq<u8>, m: int) -> Seq<u8>
    decreases xs.len() - m,
{
    if m >= xs.len() {
        acc
    } else if m == j {
        bpoly(xs, j, acc, m + 1)
    } else {
        bpoly(xs, j, mlin(acc, xs[m], gf_inv_spec(xs[m] ^ xs[j])), m + 1)
    }
}

/// The value at `x` of the Lagrange basis of point `j`, from factor `m` on, times `acc`.
pub open spec fn bval(xs: Seq<u8>, j: int, acc: u8, m: int, x: u8) -> u8
    decreases xs.len() - m,
{
    if m >= xs.len() {
        acc
    } else if m == j {
        bval(xs, j, acc, m + 1, x)
    } else {
        bval(xs, j, gmul(acc, gmul(x ^ xs[m], gf_inv_spec(xs[m] ^ xs[j]))), m + 1, x)
    }
}

/// The interpolating polynomial through `(xs[i], ys[i])`, from point `j` on, plus `acc`.
pub open spec fn qpoly(xs: Seq<u8>, ys: Seq<u8>, acc: Seq<u8>, j: int) -> Seq<u8>
    decreases xs.len() - j,
{
    if j >= xs.len() {
        acc
    } else {
        qpoly(xs, ys, padd(acc, pscale(ys[j], bpoly(xs, j, seq![1u8], 0))), j + 1)
    }
}

/// The value at `x` of the interpolating polynomial, from point `j` on, plus `acc`.
pub open spec fn qval(xs: Seq<u8>, ys: Seq<u8>, acc: u8, j: int, x: u8) -> u8
    decreases xs.len() - j,
{
    if j >= xs.len() {
        acc
    } else {
        qval(xs, ys, acc ^ gmul(ys[j], bval(xs, j, 1, 0, x)), j + 1, x)
    }
}

/// Synthetic division: `r(z) == (z - a) * synth(r, a)(z) + r(a)`, and the quotient
/// has one coefficient fewer.
pub proof fn lemma_synth(r: Seq<u8>, a: u8, z: u8)
    ensures
        synth(r, a).len() == if r.len() == 0 { 0 } else { r.len() - 1 },
        peval(r, z) == gmul(z ^ a, peval(synth(r, a), z)) ^ peval(r, a),
    decreases r.len(),
{
    lemma_gmulp_zero_one(0x1Bu8, z ^ a);
    lemma_gmulp_zero_one(0x1Bu8, z);
    lemma_gmulp_zero_one(0x1Bu8, a);
    let e = Seq::<u8>::empty();
    assert(peval(e, z) == 0 && peval(e, a) == 0);
    if r.len() == 0 {
        lemma_xor(0, 0, 0, 0);
        assert(synth(r, a) == e);
        assert(peval(r, z) == 0 && peval(r, a) == 0);
    } else if r.len() == 1 {
        assert(r.drop_first() =~= e);
        assert(synth(r, a) == e);
        lemma_xor(r[0], 0, 0, 0);
        assert(peval(r, z) == r[0] ^ gmul(z, 0));
        assert(peval(r, a) == r[0] ^ gmul(a, 0));
    } else {
        let rt = r.drop_first();
        let dt = synth(rt, a);
        lemma_synth(rt, a, z);
        let ra = peval(rt, a);
        let dz = peval(dt, z);
        let d = synth(r, a);
        let w = gmul(z, gmul(z ^ a, dz));
        let pz = gmul(z, ra);
        let qa = gmul(a, ra);
        assert(peval(rt, z) == gmul(z ^ a, dz) ^ ra);
        assert(peval(r, z) == r[0] ^ (w ^ pz)) by {
            lemma_gmulp_distrib(0x1Bu8, z, gmul(z ^ a, dz), ra);
        }
        assert(peval(r, a) == r[0] ^ qa);
        assert(d.drop_first() =~= dt);
        assert(peval(d, z) == ra ^ gmul(z, dz));
        assert(gmul(z ^ a, peval(d, z)) == (pz ^ qa) ^ w) by {
            lemma_gmulp_distrib(0x1Bu8, z ^ a, ra, gmul(z, dz));
            lemma_gmulp_distrib_left(0x1Bu8, z, a, ra);
            lemma_gmulp_assoc(0x1Bu8, z ^ a, z, dz);
            lemma_gmulp_assoc(0x1Bu8, z, z ^ a, dz);
            lemma_gmulp_comm(0x1Bu8, z ^ a, z);
        }
        lemma_xor(r[0], w, pz, qa);
    }
}

/// A polynomial with at most as many coefficients as it has distinct roots is zero
/// everywhere.
pub proof fn lemma_roots_vanish(r: Seq<u8>, xs: Seq<u8>, z: u8)
    requires
        r.len() <= xs.len(),
        distinct(xs),
        forall|i: int| 0 <= i < xs.len() ==> #[trigger] peval(r, xs[i]) == 0,
    ensures
        peval(r, z) == 0,
    decreases xs.len(),
{
    if r.len() > 0 {
        let n = xs.len();
        let a = xs[n - 1];
        let d = synth(r, a);
        let ys = xs.drop_last();
        lemma_synth(r, a, z);
        assert(peval(r, a) == 0) by {
            assert(peval(r, xs[n - 1]) == 0);
        }
        assert forall|i: int| 0 <= i < ys.len() implies #[trigger] peval(d, ys[i]) == 0 by {
            let x = ys[i];
            assert(x == xs[i]);
            lemma_synth(r, a, x);
            assert(peval(r, xs[i]) == 0);
            lemma_xor(gmul(x ^ a, peval(d, x)), 0, 0, 0);
            assert(x != a);
            lemma_xor(x, a, 0, 0);
            if peval(d, x) != 0 {
                lemma_gmul_nonzero(x ^ a, peval(d, x));
            }
        }
        assert(distinct(ys)) by {
            assert forall|i: int, j: int| 0 <= i < j < ys.len() implies ys[i] != ys[j] by {
                assert(ys[i] == xs[i] && ys[j] == xs[j]);
            }
        }
        lemma_roots_vanish(d, ys, z);
        lemma_gmulp_zero_one(0x1Bu8, z ^ a);
        lemma_xor(0, 0, 0, 0);
    }
}

/// The sum of two polynomials evaluates to the sum of their values.
pub proof fn lemma_padd(p: Seq<u8>, q: Seq<u8>, x: u8)
    ensures
        peval(padd(p, q), x) == peval(p, x) ^ peval(q, x),
    decreases p.len() + q.len(),
{
    let s = padd(p, q);
    lemma_gmulp_zero_one(0x1Bu8, x);
    if s.len() == 0 {
        lemma_xor(0, 0, 0, 0);
    } else {
        let pt = if p.len() == 0 { p } else { p.drop_first() };
        let qt = if q.len() == 0 { q } else { q.drop_first() };
        assert(s.drop_first() =~= padd(pt, qt));
        lemma_padd(pt, qt, x);
        let ph = coef(p, 0);
        let qh = coef(q, 0);
        assert(peval(p, x) == ph ^ gmul(x, peval(pt, x))) by {
            if p.len() == 0 {
                lemma_xor(0, 0, 0, 0);
            }
        }
        assert(peval(q, x) == qh ^ gmul(x, peval(qt, x))) by {
            if q.len() == 0 {
                lemma_xor(0, 0, 0, 0);
            }
        }
        lemma_gmulp_distrib(0x1Bu8, x, peval(pt, x), peval(qt, x));
        lemma_xor(ph, qh, gmul(x, peval(pt, x)), gmul(x, peval(qt, x)));
    }
}

/// A scaled polynomial evaluates to the scaled value.
pub proof fn lemma_pscale(c: u8, p: Seq<u8>, x: u8)
    ensures
        peval(pscale(c, p), x) == gmul(c, peval(p, x)),
        pscale(c, p).len() == p.len(),
    decreases p.len(),
{
    lemma_gmulp_zero_one(0x1Bu8, c);
    if p.len() > 0 {
        let pt = p.drop_first();
        assert(pscale(c, p).drop_first() =~= pscale(c, pt));
        lemma_pscale(c, pt, x);
        lemma_gmulp_distrib(0x1Bu8, c, p[0], gmul(x, peval(pt, x)));
        lemma_gmulp_assoc(0x1Bu8, c, x, peval(pt, x));
        lemma_gmulp_assoc(0x1Bu8, x, c, peval(pt, x));
        lemma_gmulp_comm(0x1Bu8, c, x);
    }
}

/// Multiplying by a scaled linear factor: `mlin(p, a, f)(x) == p(x) * ((x - a) * f)`,
/// with one coefficient more.
pub proof fn lemma_mlin(p: Seq<u8>, a: u8, f: u8, x: u8)
    ensures
        peval(mlin(p, a, f), x) == gmul(peval(p, x), gmul(x ^ a, f)),
        mlin(p, a, f).len() == p.len() + 1,
{
    let pv = peval(p, x);
    let s = seq![0u8] + pscale(f, p);
    lemma_padd(pscale(gmul(a, f), p), s, x);
    lemma_pscale(gmul(a, f), p, x);
    lemma_pscale(f, p, x);
    assert(s.drop_first() =~= pscale(f, p));
    assert(peval(s, x) == 0u8 ^ gmul(x, gmul(f, pv)));
    lemma_xor(gmul(x, gmul(f, pv)), 0, 0, 0);
    lemma_gmulp_distrib_left(0x1Bu8, x, a, f);
    lemma_gmulp_distrib(0x1Bu8, pv, gmul(x, f), gmul(a, f));
    lemma_gmulp_comm(0x1Bu8, pv, gmul(a, f));
    lemma_gmulp_comm(0x1Bu8, pv, gmul(x, f));
    lemma_gmulp_assoc(0x1Bu8, x, f, pv);
    lemma_xor(gmul(gmul(a, f), pv), gmul(x, gmul(f, pv)), 0, 0);
}

/// How many of the positions `m..n` differ from `j`.
pub open spec fn others(n: int, j: int, m: int) -> int
    decreases n - m,
{
    if m >= n { 0 } else if m == j { others(n, j, m + 1) } else { 1 + others(n, j, m + 1) }
}

/// The basis polynomial evaluates to the basis value, with one coefficient per factor.
pub proof fn lemma_bpoly(xs: Seq<u8>, j: int, acc: Seq<u8>, m: int, x: u8)
    requires
        0 <= m,
    ensures
        peval(bpoly(xs, j, acc, m), x) == bval(xs, j, peval(acc, x), m, x),
        bpoly(xs, j, acc, m).len() == acc.len() + others(xs.len() as int, j, m),
    decreases xs.len() - m,
{
    if m < xs.len() {
        if m == j {
            lemma_bpoly(xs, j, acc, m + 1, x);
        } else {
            let f = gf_inv_spec(xs[m] ^ xs[j]);
            lemma_mlin(acc, xs[m], f, x);
            lemma_bpoly(xs, j, mlin(acc, xs[m], f), m + 1, x);
        }
    }
}

/// Once the running product is zero it stays zero.
proof fn lemma_bval_zero(xs: Seq<u8>, j: int, m: int, x: u8)
    ensures
        bval(xs, j, 0, m, x) == 0,
    decreases xs.len() - m,
{
    if m < xs.len() {
        lemma_gmulp_zero_one(0x1Bu8, gmul(x ^ xs[m], gf_inv_spec(xs[m] ^ xs[j])));
        lemma_bval_zero(xs, j, m + 1, x);
    }
}

/// The basis of point `j` vanishes at every other point.
proof fn lemma_bval_other(xs: Seq<u8>, j: int, acc: u8, m: int, w: int)
    requires
        0 <= m <= w < xs.len(),
        w != j,
    ensures
        bval(xs, j, acc, m, xs[w]) == 0,
    decreases xs.len() - m,
{
    let x = xs[w];
    if m == w {
        let f = gf_inv_spec(xs[m] ^ xs[j]);
        lemma_xor(x, 0, 0, 0);
        lemma_gmulp_zero_one(0x1Bu8, f);
        lemma_gmulp_zero_one(0x1Bu8, acc);
        lemma_bval_zero(xs, j, m + 1, x);
    } else if m == j {
        lemma_bval_other(xs, j, acc, m + 1, w);
    } else {
        lemma_bval_other(xs, j, gmul(acc, gmul(x ^ xs[m], gf_inv_spec(xs[m] ^ xs[j]))), m + 1, w);
    }
}

/// The basis of point `j` is one at that point.
proof fn lemma_bval_self(xs: Seq<u8>, j: int, acc: u8, m: int)
    requires
        distinct(xs),
        0 <= j < xs.len(),
        0 <= m,
    ensures
        bval(xs, j, acc, m, xs[j]) == acc,
    decreases xs.len() - m,
{
    if m < xs.len() {
        if m == j {
            lemma_bval_self(xs, j, acc, m + 1);
        } else {
            let d = xs[m] ^ xs[j];
            assert(xs[m] != xs[j]);
            lemma_xor(xs[m], xs[j], 0, 0);
            lemma_xor(xs[j], xs[m], 0, 0);
            lemma_gmul_inverse(d);
            lemma_gmulp_zero_one(0x1Bu8, acc);
            lemma_bval_self(xs, j, acc, m + 1);
        }
    }
}

/// The interpolating polynomial evaluates to the interpolated value, with no more
/// coefficients than points.
pub proof fn lemma_qpoly(xs: Seq<u8>, ys: Seq<u8>, acc: Seq<u8>, j: int, x: u8)
    requires
        0 <= j,
        acc.len() <= xs.len(),
    ensures
        peval(qpoly(xs, ys, acc, j), x) == qval(xs, ys, peval(acc, x), j, x),
        qpoly(xs, ys, acc, j).len() <= xs.len(),
    decreases xs.len() - j,
{
    if j < xs.len() {
        let b = bpoly(xs, j, seq![1u8], 0);
        lemma_bpoly(xs, j, seq![1u8], 0, x);
        lemma_others(xs.len() as int, j, 0);
        assert(seq![1u8].drop_first() =~= Seq::<u8>::empty());
        lemma_gmulp_zero_one(0x1Bu8, x);
        lemma_xor(1, 0, 0, 0);
        assert(peval(Seq::<u8>::empty(), x) == 0);
        assert(peval(seq![1u8], x) == 1);
        lemma_pscale(ys[j], b, x);
        lemma_padd(acc, pscale(ys[j], b), x);
        lemma_qpoly(xs, ys, padd(acc, pscale(ys[j], b)), j + 1, x);
    }
}

proof fn lemma_others(n: int, j: int, m: int)
    requires
        0 <= m <= n,
    ensures
        others(n, j, m) == if m <= j < n { n - m - 1 } else { n - m },
    decreases n - m,
{
    if m < n {
        lemma_others(n, j, m + 1);
    }
}

/// At point `i` the interpolated value from `j` on adds `ys[i]` exactly when `i` is
/// still ahead.
proof fn lemma_qval_at(xs: Seq<u8>, ys: Seq<u8>, acc: u8, j: int, i: int)
    requires
        distinct(xs),
        0 <= j,
        0 <= i < xs.len(),
    ensures
        qval(xs, ys, acc, j, xs[i]) == acc ^ (if j <= i { ys[i] } else { 0u8 }),
    decreases xs.len() - j,
{
    if j < xs.len() {
        let term = gmul(ys[j], bval(xs, j, 1, 0, xs[i]));
        lemma_gmulp_zero_one(0x1Bu8, ys[j]);
        if j == i {
            lemma_bval_self(xs, j, 1, 0);
            assert(term == ys[i]);
        } else {
            lemma_bval_other(xs, j, 1, 0, i);
            assert(term == 0);
        }
        lemma_qval_at(xs, ys, acc ^ term, j + 1, i);
        lemma_xor(acc ^ term, 0, 0, 0);
        lemma_xor(acc, term, 0, 0);
        lemma_xor(acc, ys[i], 0, 0);
    } else {
        lemma_xor(acc, 0, 0, 0);
    }
}

/// Lagrange interpolation at zero through the values of a polynomial at as many
/// distinct points as it has coefficients gives back its constant term.
pub proof fn lemma_interpolate_at_zero(xs: Seq<u8>, p: Seq<u8>)
    requires
        distinct(xs),
        p.len() <= xs.len(),
    ensures
        qval(xs, xs.map_values(|x: u8| peval(p, x)), 0, 0, 0) == peval(p, 0),
{
    let ys = xs.map_values(|x: u8| peval(p, x));
    let e = Seq::<u8>::empty();
    let q = qpoly(xs, ys, e, 0);
    let r = padd(p, q);
    lemma_qpoly(xs, ys, e, 0, 0);
    assert forall|i: int| 0 <= i < xs.len() implies #[trigger] peval(r, xs[i]) == 0 by {
        lemma_qpoly(xs, ys, e, 0, xs[i]);
        lemma_qval_at(xs, ys, 0, 0, i);
        lemma_xor(ys[i], 0, 0, 0);
        lemma_xor(0, ys[i], 0, 0);
        lemma_padd(p, q, xs[i]);
        lemma_xor(ys[i], ys[i], 0, 0);
    }
    lemma_roots_vanish(r, xs, 0);
    lemma_padd(p, q, 0);
    lemma_xor(peval(p, 0), peval(q, 0), 0, 0);
}

} // verus!
