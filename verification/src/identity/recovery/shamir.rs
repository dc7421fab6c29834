//! Shamir secret sharing of a 32-byte seed over GF(2^8) with the Rijndael polynomial 0x11B.

use vstd::prelude::*;
use crate::gf256::{lemma_gmulp_distrib, lemma_gmulp_assoc, lemma_gmulp_comm, lemma_gmulp_zero_one, lemma_xor};
use crate::identity::recovery::field::{gmul, lemma_gf_mul_is_gmul};
use crate::identity::recovery::polynomial::{peval, distinct, bval, qval, lemma_interpolate_at_zero};

verus! {

#[derive(Debug, Clone, Copy, PartialEq, Eq)]
pub struct GuardianShare {
    pub guardian_index: u8,
    pub threshold: u8,
    pub total_shares: u8,
    pub epoch: u64,
    pub share_data: [u8; 32],
}

/// One step of shift-and-add multiplication modulo x^8 + x^4 + x^3 + x + 1.
pub open spec fn gf_mul_steps(a: u8, b: u8, acc: u8, k: nat) -> u8
    decreases k,
{
    if k == 0 {
        acc
    } else {
        let acc2 = if b & 1u8 != 0 { acc ^ a } else { acc };
        let a2 = if a & 0x80u8 != 0 { ((a << 1u8) ^ 0x1Bu8) as u8 } else { (a << 1u8) as u8 };
        gf_mul_steps(a2, b >> 1u8, acc2, (k - 1) as nat)
    }
}

/// Multiplication in GF(2^8).
pub open spec fn gf_mul_spec(a: u8, b: u8) -> u8 {
    gf_mul_steps(a, b, 0, 8)
}

/// Exponentiation by squaring: `acc * base^exp`.
pub open spec fn gf_pow_steps(acc: u8, base: u8, exp: u32) -> u8
    decreases exp,
{
    if exp == 0 {
        acc
    } else {
        let acc2 = if exp & 1 != 0 { gf_mul_spec(acc, base) } else { acc };
        gf_pow_steps(acc2, gf_mul_spec(base, base), exp / 2)
    }
}

/// Inverse in GF(2^8) as `a^254`; zero maps to zero.
pub open spec fn gf_inv_spec(a: u8) -> u8 {
    if a == 0 { 0 } else { gf_pow_steps(1, a, 254) }
}

fn gf_mul(a: u8, b: u8) -> (r: u8)
    ensures
        r == gf_mul_spec(a, b),
{
    let mut res: u8 = 0;
    let mut x = a;
    let mut y = b;
    let mut k: usize = 0;
    while k < 8
        invariant
            k <= 8,
            gf_mul_spec(a, b) == gf_mul_steps(x, y, res, (8 - k) as nat),
        decreases 8 - k,
    {
        if (y & 1) != 0 {
            res = res ^ x;
        }
        let hi = x & 0x80;
        x = x << 1;
        if hi != 0 {
            x = x ^ 0x1B;
        }
        y = y >> 1;
        k = k + 1;
    }
    res
}

fn gf_inv(a: u8) -> (r: u8)
    ensures
        r == gf_inv_spec(a),
{
    if a == 0 {
        return 0;
    }
    let mut res: u8 = 1;
    let mut base = a;
    let mut exp: u32 = 254;
    while exp > 0
        invariant
            gf_pow_steps(1, a, 254) == gf_pow_steps(res, base, exp),
        decreases exp,
    {
        if (exp & 1) != 0 {
            res = gf_mul(res, base);
        }
        base = gf_mul(base, base);
        exp = exp / 2;
    }
    res
}

fn gf_div(a: u8, b: u8) -> (r: Result<u8, String>)
    ensures
        b == 0 ==> (r matches Err(e) && e@ == "DivisionByZeroInGF"@),
        b != 0 ==> r == Ok::<u8, String>(gf_mul_spec(a, gf_inv_spec(b))),
{
    if b == 0 {
        return Err("DivisionByZeroInGF".to_owned());
    }
    Ok(gf_mul(a, gf_inv(b)))
}

/// `secret + c0*x + c1*x^2 + ...` evaluated from coefficient `k` on, with running power `x_pow`.
pub open spec fn poly_eval(y: u8, coeffs: Seq<u8>, x: u8, x_pow: u8, k: int) -> u8
    decreases coeffs.len() - k,
{
    if k >= coeffs.len() {
        y
    } else {
        poly_eval(y ^ gf_mul_spec(coeffs[k], x_pow), coeffs, x, gf_mul_spec(x_pow, x), k + 1)
    }
}

/// The share byte at point `x` for a secret byte and its random coefficients.
pub open spec fn share_byte(secret_byte: u8, coeffs: Seq<u8>, x: u8) -> u8 {
    poly_eval(secret_byte, coeffs, x, x, 0)
}

/// Whether `split_secret` rejects its parameters, and with which message.
pub open spec fn split_error(threshold: u8, total_shares: u8, coeffs: Seq<Vec<u8>>) -> Option<Seq<char>> {
    if threshold == 0 || threshold > total_shares {
        Some("InvalidThreshold"@)
    } else if coeffs.len() != 32 {
        Some("InvalidRandomCoeffsCount"@)
    } else if exists|i: int| 0 <= i < 32 && #[trigger] coeffs[i]@.len() != threshold - 1 {
        Some("InvalidDegreeForCoeffs"@)
    } else {
        None
    }
}

/// Splits a 32-byte secret into `total_shares` shares, any `threshold` of which
/// reconstruct it; `random_coefficients[b]` are the `threshold - 1` higher
/// coefficients of the polynomial for byte `b`.
pub fn split_secret(
    secret: &[u8; 32],
    threshold: u8,
    total_shares: u8,
    epoch: u64,
    random_coefficients: &[Vec<u8>],
) -> (r: Result<Vec<GuardianShare>, String>)
    ensures
        match split_error(threshold, total_shares, random_coefficients@) {
            Some(m) => r matches Err(e) && e@ == m,
            None => r matches Ok(shares) && shares@.len() == total_shares
                && forall|s: int| 0 <= s < total_shares ==> {
                    let sh = #[trigger] shares@[s];
                    &&& sh.guardian_index == s + 1
                    &&& sh.threshold == threshold
                    &&& sh.total_shares == total_shares
                    &&& sh.epoch == epoch
                    &&& forall|b: int| 0 <= b < 32 ==> #[trigger] sh.share_data@[b]
                        == share_byte(secret@[b], random_coefficients@[b]@, (s + 1) as u8)
                },
        },
{
    if threshold == 0 || threshold > total_shares {
        return Err("InvalidThreshold".to_owned());
    }
    if total_shares == 0 {
        return Err("InvalidTotalShares".to_owned());
    }
    if random_coefficients.len() != 32 {
        return Err("InvalidRandomCoeffsCount".to_owned());
    }
    let mut c: usize = 0;
    while c < 32
        invariant
            c <= 32,
            random_coefficients@.len() == 32,
            threshold >= 1,
            threshold <= total_shares,
            forall|i: int| 0 <= i < c ==> #[trigger] random_coefficients@[i]@.len() == threshold - 1,
        decreases 32 - c,
    {
        if random_coefficients[c].len() != (threshold - 1) as usize {
            assert(random_coefficients@[c as int]@.len() != threshold - 1);
            assert(exists|i: int| 0 <= i < 32 && #[trigger] random_coefficients@[i]@.len() != threshold - 1);
            return Err("InvalidDegreeForCoeffs".to_owned());
        }
        c = c + 1;
    }
    let mut shares: Vec<GuardianShare> = Vec::new();
    let mut sidx: usize = 1;
    while sidx <= total_shares as usize
        invariant
            1 <= sidx <= total_shares as int + 1,
            shares@.len() == sidx - 1,
            random_coefficients@.len() == 32,
            forall|s: int| 0 <= s < shares@.len() ==> {
                let sh = #[trigger] shares@[s];
                &&& sh.guardian_index == s + 1
                &&& sh.threshold == threshold
                &&& sh.total_shares == total_shares
                &&& sh.epoch == epoch
                &&& forall|b: int| 0 <= b < 32 ==> #[trigger] sh.share_data@[b]
                    == share_byte(secret@[b], random_coefficients@[b]@, (s + 1) as u8)
            },
        decreases total_shares as int + 1 - sidx,
    {
        let share_idx = sidx as u8;
        let mut share_data = [0u8; 32];
        let mut byte_idx: usize = 0;
        while byte_idx < 32
            invariant
                byte_idx <= 32,
                random_coefficients@.len() == 32,
                forall|b: int| 0 <= b < byte_idx ==> #[trigger] share_data@[b]
                    == share_byte(secret@[b], random_coefficients@[b]@, share_idx),
            decreases 32 - byte_idx,
        {
            let coeffs = &random_coefficients[byte_idx];
            let mut y = secret[byte_idx];
            let mut x_pow = share_idx;
            let mut k: usize = 0;
            while k < coeffs.len()
                invariant
                    k <= coeffs@.len(),
                    byte_idx < 32,
                    share_byte(secret@[byte_idx as int], coeffs@, share_idx)
                        == poly_eval(y, coeffs@, share_idx, x_pow, k as int),
                decreases coeffs.len() - k,
            {
                y = y ^ gf_mul(coeffs[k], x_pow);
                x_pow = gf_mul(x_pow, share_idx);
                k = k + 1;
            }
            share_data[byte_idx] = y;
            byte_idx = byte_idx + 1;
        }
        shares.push(GuardianShare { guardian_index: share_idx, threshold, total_shares, epoch, share_data });
        sidx = sidx + 1;
    }
    Ok(shares)
}

/// Positions of the shares `combine_shares` uses among the first `n`: each guardian
/// index the first time it appears, until `t` have been taken.
pub open spec fn used_positions(shares: Seq<GuardianShare>, n: int, t: nat) -> Seq<int>
    decreases n,
{
    if n <= 0 {
        Seq::empty()
    } else {
        let prev = used_positions(shares, n - 1, t);
        if prev.len() >= t || exists|i: int| 0 <= i < prev.len()
            && #[trigger] shares[prev[i]].guardian_index == shares[n - 1].guardian_index {
            prev
        } else {
            prev.push(n - 1)
        }
    }
}

/// Lagrange basis at zero for point `j` among `xs`, from factor `m` on.
pub open spec fn basis_from(xs: Seq<u8>, j: int, acc: u8, m: int) -> u8
    decreases xs.len() - m,
{
    if m >= xs.len() {
        acc
    } else if m == j {
        basis_from(xs, j, acc, m + 1)
    } else {
        basis_from(xs, j, gf_mul_spec(acc, gf_mul_spec(xs[m], gf_inv_spec(xs[m] ^ xs[j]))), m + 1)
    }
}

/// The interpolated value at zero from point `j` on.
pub open spec fn interpolate_from(xs: Seq<u8>, ys: Seq<u8>, acc: u8, j: int) -> u8
    decreases xs.len() - j,
{
    if j >= xs.len() {
        acc
    } else {
        interpolate_from(xs, ys, acc ^ gf_mul_spec(ys[j], basis_from(xs, j, 1, 0)), j + 1)
    }
}

/// The secret byte `b` recovered from the chosen shares.
pub open spec fn recovered_byte(used: Seq<GuardianShare>, b: int) -> u8 {
    interpolate_from(used.map_values(|s: GuardianShare| s.guardian_index),
        used.map_values(|s: GuardianShare| s.share_data@[b]), 0, 0)
}

/// What `combine_shares` yields: the recovered secret bytes, or the error message.
pub open spec fn combine_outcome(shares: Seq<GuardianShare>, t: u8) -> Result<Seq<u8>, Seq<char>> {
    if shares.len() < t {
        Err("InsufficientSharesForQuorum"@)
    } else {
        let pos = used_positions(shares, shares.len() as int, t as nat);
        let used = pos.map_values(|p: int| shares[p]);
        if pos.len() < t {
            Err("DuplicateSharesFound"@)
        } else {
            Ok(Seq::new(32, |b: int| recovered_byte(used, b)))
        }
    }
}

/// Agreement of a secret-or-message result with its specification.
pub open spec fn outcome_matches(r: Result<[u8; 32], String>, o: Result<Seq<u8>, Seq<char>>) -> bool {
    match (r, o) {
        (Ok(a), Ok(b)) => a@ == b,
        (Err(e), Err(m)) => e@ == m,
        _ => false,
    }
}

/// Reconstructs a secret from at least `expected_threshold` shares with distinct
/// guardian indices by Lagrange interpolation at zero.
pub fn combine_shares(shares: &[GuardianShare], expected_threshold: u8) -> (r: Result<[u8; 32], String>)
    ensures
        outcome_matches(r, combine_outcome(shares@, expected_threshold)),
{
    if shares.len() < expected_threshold as usize {
        return Err("InsufficientSharesForQuorum".to_owned());
    }
    let t = expected_threshold as usize;
    let mut used: Vec<GuardianShare> = Vec::new();
    let ghost mut pos: Seq<int> = Seq::empty();
    let mut i: usize = 0;
    while i < shares.len()
        invariant
            i <= shares@.len(),
            pos == used_positions(shares@, i as int, t as nat),
            used@ == pos.map_values(|p: int| shares@[p]),
            used@.len() <= t,
            forall|a: int, c: int| 0 <= a < c < used@.len() ==> (#[trigger] used@[a]).guardian_index != (#[trigger] used@[c]).guardian_index,
            forall|k: int| 0 <= k < pos.len() ==> 0 <= #[trigger] pos[k] < i,
        decreases shares.len() - i,
    {
        let ghost prev = pos;
        if used.len() < t {
            let mut seen = false;
            let mut j: usize = 0;
            while j < used.len()
                invariant
                    j <= used@.len(),
                    i < shares@.len(),
                    seen == exists|q: int| 0 <= q < j && #[trigger] used@[q].guardian_index == shares@[i as int].guardian_index,
                decreases used.len() - j,
            {
                if used[j].guardian_index == shares[i].guardian_index {
                    seen = true;
                }
                j = j + 1;
            }
            proof {
                if seen {
                    let q = choose|q: int| 0 <= q < used@.len() && #[trigger] used@[q].guardian_index == shares@[i as int].guardian_index;
                    assert(shares@[prev[q]].guardian_index == shares@[i as int].guardian_index);
                } else {
                    assert forall|q: int| 0 <= q < prev.len() implies #[trigger] shares@[prev[q]].guardian_index != shares@[i as int].guardian_index by {
                        assert(used@[q] == shares@[prev[q]]);
                    }
                }
            }
            if !seen {
                used.push(shares[i]);
                proof {
                    pos = prev.push(i as int);
                    assert(used@ =~= pos.map_values(|p: int| shares@[p]));
                }
            }
        }
        i = i + 1;
    }
    if used.len() < t {
        return Err("DuplicateSharesFound".to_owned());
    }
    let ghost xs = used@.map_values(|s: GuardianShare| s.guardian_index);
    let mut secret = [0u8; 32];
    let mut byte_idx: usize = 0;
    while byte_idx < 32
        invariant
            byte_idx <= 32,
            used@.len() == t,
            xs == used@.map_values(|s: GuardianShare| s.guardian_index),
            forall|a: int, c: int| 0 <= a < c < used@.len() ==> (#[trigger] used@[a]).guardian_index != (#[trigger] used@[c]).guardian_index,
            forall|b: int| 0 <= b < byte_idx ==> #[trigger] secret@[b] == recovered_byte(used@, b),
        decreases 32 - byte_idx,
    {
        let ghost ys = used@.map_values(|s: GuardianShare| s.share_data@[byte_idx as int]);
        let mut secret_byte: u8 = 0;
        let mut j: usize = 0;
        while j < t
            invariant
                j <= t,
                used@.len() == t,
                byte_idx < 32,
                xs == used@.map_values(|s: GuardianShare| s.guardian_index),
                ys == used@.map_values(|s: GuardianShare| s.share_data@[byte_idx as int]),
                forall|a: int, c: int| 0 <= a < c < used@.len() ==> (#[trigger] used@[a]).guardian_index != (#[trigger] used@[c]).guardian_index,
                recovered_byte(used@, byte_idx as int) == interpolate_from(xs, ys, secret_byte, j as int),
            decreases t - j,
        {
            let xj = used[j].guardian_index;
            let yj = used[j].share_data[byte_idx];
            let mut basis: u8 = 1;
            let mut m: usize = 0;
            while m < t
                invariant
                    m <= t,
                    j < t,
                    used@.len() == t,
                    xs == used@.map_values(|s: GuardianShare| s.guardian_index),
                    xj == xs[j as int],
                    forall|a: int, c: int| 0 <= a < c < used@.len() ==> (#[trigger] used@[a]).guardian_index != (#[trigger] used@[c]).guardian_index,
                    basis_from(xs, j as int, 1, 0) == basis_from(xs, j as int, basis, m as int),
                decreases t - m,
            {
                if m != j {
                    let xm = used[m].guardian_index;
                    let den = xm ^ xj;
                    proof {
                        assert(xm != xj) by {
                            if m < j {
                                assert(used@[m as int].guardian_index != used@[j as int].guardian_index);
                            } else {
                                assert(used@[j as int].guardian_index != used@[m as int].guardian_index);
                            }
                        }
                        assert(xm != xj ==> xm ^ xj != 0u8) by (bit_vector);
                    }
                    let factor = gf_div(xm, den)?;
                    basis = gf_mul(basis, factor);
                }
                m = m + 1;
            }
            secret_byte = secret_byte ^ gf_mul(yj, basis);
            j = j + 1;
        }
        secret[byte_idx] = secret_byte;
        byte_idx = byte_idx + 1;
    }
    proof {
        let pos = used_positions(shares@, shares@.len() as int, expected_threshold as nat);
        assert(secret@ =~= Seq::new(32, |b: int| recovered_byte(pos.map_values(|p: int| shares@[p]), b)));
    }
    Ok(secret)
}


/// The running sum of `poly_eval` is the constant term plus the running power times
/// the rest of the polynomial.
proof fn lemma_poly_eval_horner(y: u8, coeffs: Seq<u8>, x: u8, x_pow: u8, k: int)
    requires
        0 <= k <= coeffs.len(),
    ensures
        poly_eval(y, coeffs, x, x_pow, k) == y ^ gmul(x_pow, peval(coeffs.skip(k), x)),
    decreases coeffs.len() - k,
{
    if k == coeffs.len() {
        assert(coeffs.skip(k) =~= Seq::<u8>::empty());
        lemma_gmulp_zero_one(0x1Bu8, x_pow);
        lemma_xor(y, 0, 0, 0);
    } else {
        let c = coeffs[k];
        let rest = peval(coeffs.skip(k + 1), x);
        lemma_gf_mul_is_gmul(c, x_pow);
        lemma_gf_mul_is_gmul(x_pow, x);
        lemma_poly_eval_horner(y ^ gmul(c, x_pow), coeffs, x, gmul(x_pow, x), k + 1);
        assert(coeffs.skip(k).drop_first() =~= coeffs.skip(k + 1));
        assert(peval(coeffs.skip(k), x) == c ^ gmul(x, rest));
        lemma_gmulp_distrib(0x1Bu8, x_pow, c, gmul(x, rest));
        lemma_gmulp_assoc(0x1Bu8, x_pow, x, rest);
        lemma_gmulp_comm(0x1Bu8, c, x_pow);
        lemma_xor(y, gmul(x_pow, c), gmul(x_pow, gmul(x, rest)), 0);
    }
}

/// A share byte is the value at the share's index of the polynomial whose constant
/// term is the secret byte and whose higher coefficients are the random ones.
pub proof fn lemma_share_byte_is_peval(secret_byte: u8, coeffs: Seq<u8>, x: u8)
    ensures
        share_byte(secret_byte, coeffs, x) == peval(seq![secret_byte] + coeffs, x),
{
    lemma_poly_eval_horner(secret_byte, coeffs, x, x, 0);
    assert(coeffs.skip(0) =~= coeffs);
    assert((seq![secret_byte] + coeffs).drop_first() =~= coeffs);
}

proof fn lemma_basis_from_is_bval(xs: Seq<u8>, j: int, acc: u8, m: int)
    ensures
        basis_from(xs, j, acc, m) == bval(xs, j, acc, m, 0),
    decreases xs.len() - m,
{
    if m < xs.len() && m != j {
        let f = gf_inv_spec(xs[m] ^ xs[j]);
        lemma_gf_mul_is_gmul(xs[m], f);
        lemma_gf_mul_is_gmul(acc, gmul(xs[m], f));
        lemma_xor(xs[m], 0, 0, 0);
        lemma_basis_from_is_bval(xs, j, gmul(acc, gmul(xs[m], f)), m + 1);
    } else if m < xs.len() {
        lemma_basis_from_is_bval(xs, j, acc, m + 1);
    }
}

proof fn lemma_interpolate_from_is_qval(xs: Seq<u8>, ys: Seq<u8>, acc: u8, j: int)
    ensures
        interpolate_from(xs, ys, acc, j) == qval(xs, ys, acc, j, 0),
    decreases xs.len() - j,
{
    if j < xs.len() {
        lemma_basis_from_is_bval(xs, j, 1, 0);
        lemma_gf_mul_is_gmul(ys[j], basis_from(xs, j, 1, 0));
        lemma_interpolate_from_is_qval(xs, ys, acc ^ gmul(ys[j], bval(xs, j, 1, 0, 0)), j + 1);
    }
}

/// The positions `combine_shares` uses are at most `t`, lie among the first `n`, and
/// carry pairwise distinct guardian indices.
proof fn lemma_used_positions(shares: Seq<GuardianShare>, n: int, t: nat)
    requires
        n <= shares.len(),
    ensures
        used_positions(shares, n, t).len() <= t,
        forall|k: int| 0 <= k < used_positions(shares, n, t).len()
            ==> 0 <= #[trigger] used_positions(shares, n, t)[k] < n,
        forall|a: int, c: int| 0 <= a < c < used_positions(shares, n, t).len()
            ==> shares[#[trigger] used_positions(shares, n, t)[a]].guardian_index
                != shares[#[trigger] used_positions(shares, n, t)[c]].guardian_index,
    decreases n,
{
    if n > 0 {
        lemma_used_positions(shares, n - 1, t);
    }
}

/// When the guardian indices of the first `n` shares are pairwise distinct, the
/// first `min(n, t)` of them are used.
proof fn lemma_used_positions_distinct(shares: Seq<GuardianShare>, n: int, t: nat)
    requires
        0 <= n <= shares.len(),
        forall|a: int, c: int| 0 <= a < c < shares.len() ==> shares[a].guardian_index != shares[c].guardian_index,
    ensures
        used_positions(shares, n, t) == Seq::new(if n <= t { n as nat } else { t }, |i: int| i),
    decreases n,
{
    if n > 0 {
        lemma_used_positions_distinct(shares, n - 1, t);
        let prev = used_positions(shares, n - 1, t);
        if prev.len() < t {
            assert forall|i: int| 0 <= i < prev.len() implies #[trigger] shares[prev[i]].guardian_index
                != shares[n - 1].guardian_index by {
                assert(prev[i] == i);
            }
            assert(prev.push(n - 1) =~= Seq::new(n as nat, |i: int| i));
        }
    } else {
        assert(used_positions(shares, n, t) =~= Seq::new(0, |i: int| i));
    }
}

/// Whether some used share has guardian index `g`.
pub open spec fn index_among(shares: Seq<GuardianShare>, pos: Seq<int>, g: u8) -> bool {
    exists|k: int| 0 <= k < pos.len() && #[trigger] shares[pos[k]].guardian_index == g
}

/// While fewer than `t` shares are in use, every guardian index seen so far is
/// among the used ones.
proof fn lemma_used_covers(shares: Seq<GuardianShare>, n: int, t: nat)
    requires
        0 <= n <= shares.len(),
    ensures
        used_positions(shares, n, t).len() < t ==> forall|q: int| 0 <= q < n
            ==> #[trigger] index_among(shares, used_positions(shares, n, t), shares[q].guardian_index),
    decreases n,
{
    if n > 0 {
        lemma_used_covers(shares, n - 1, t);
        let prev = used_positions(shares, n - 1, t);
        let cur = used_positions(shares, n, t);
        if cur.len() < t {
            assert forall|q: int| 0 <= q < n implies #[trigger] index_among(shares, cur, shares[q].guardian_index) by {
                if cur == prev {
                    if q < n - 1 {
                        assert(index_among(shares, prev, shares[q].guardian_index));
                    } else {
                        let k = choose|i: int| 0 <= i < prev.len()
                            && #[trigger] shares[prev[i]].guardian_index == shares[n - 1].guardian_index;
                        assert(shares[cur[k]].guardian_index == shares[q].guardian_index);
                    }
                } else {
                    assert(cur == prev.push(n - 1));
                    if q < n - 1 {
                        assert(index_among(shares, prev, shares[q].guardian_index));
                        let k = choose|k: int| 0 <= k < prev.len()
                            && #[trigger] shares[prev[k]].guardian_index == shares[q].guardian_index;
                        assert(cur[k] == prev[k]);
                        assert(shares[cur[k]].guardian_index == shares[q].guardian_index);
                    } else {
                        assert(cur[prev.len() as int] == n - 1);
                        assert(shares[cur[prev.len() as int]].guardian_index == shares[q].guardian_index);
                    }
                }
            }
        }
    }
}

/// Any quorum reconstructs: when the shares are made from one secret (as by
/// `split_secret`) and `picks` names `t` of them with pairwise distinct guardian
/// indices, combining with threshold `t` gives back the secret, whatever other
/// shares, repeats included, the list holds and in whatever order.
pub proof fn lemma_combine_any_quorum(shares: Seq<GuardianShare>, t: u8, secret: Seq<u8>, coeffs: Seq<Seq<u8>>,
    picks: Seq<int>)
    requires
        secret.len() == 32,
        coeffs.len() == 32,
        forall|b: int| 0 <= b < 32 ==> #[trigger] coeffs[b].len() + 1 == t,
        forall|i: int, b: int| 0 <= i < shares.len() && 0 <= b < 32 ==> #[trigger] shares[i].share_data@[b]
            == share_byte(secret[b], coeffs[b], shares[i].guardian_index),
        picks.len() == t,
        forall|a: int| 0 <= a < picks.len() ==> 0 <= #[trigger] picks[a] < shares.len(),
        forall|a: int, c: int| 0 <= a < c < picks.len()
            ==> shares[#[trigger] picks[a]].guardian_index != shares[#[trigger] picks[c]].guardian_index,
    ensures
        combine_outcome(shares, t) == Ok::<Seq<u8>, Seq<char>>(secret),
{
    broadcast use vstd::seq_lib::seq_to_set_is_finite;
    let n = shares.len() as int;
    lemma_combine_split(shares, t, secret, coeffs);
    let ps = picks;
    assert(ps.no_duplicates()) by {
        assert forall|a: int, c: int| 0 <= a < ps.len() && 0 <= c < ps.len() && a != c implies ps[a] != ps[c] by {
            if a < c {
                assert(shares[ps[a]].guardian_index != shares[ps[c]].guardian_index);
            } else {
                assert(shares[ps[c]].guardian_index != shares[ps[a]].guardian_index);
            }
        }
    }
    ps.unique_seq_to_set();
    vstd::set_lib::lemma_int_range(0, n);
    assert(ps.to_set().subset_of(vstd::set_lib::set_int_range(0, n)));
    vstd::set_lib::lemma_len_subset(ps.to_set(), vstd::set_lib::set_int_range(0, n));
    assert(n >= t);
    let used = used_positions(shares, n, t as nat);
    lemma_used_positions(shares, n, t as nat);
    lemma_used_covers(shares, n, t as nat);
    if used.len() < t {
        let xs = ps.map_values(|p: int| shares[p].guardian_index);
        let us = used.map_values(|p: int| shares[p].guardian_index);
        assert(xs.no_duplicates()) by {
            assert forall|a: int, c: int| 0 <= a < xs.len() && 0 <= c < xs.len() && a != c implies xs[a] != xs[c] by {
                if a < c {
                    assert(shares[ps[a]].guardian_index != shares[ps[c]].guardian_index);
                } else {
                    assert(shares[ps[c]].guardian_index != shares[ps[a]].guardian_index);
                }
            }
        }
        assert(us.no_duplicates()) by {
            assert forall|a: int, c: int| 0 <= a < us.len() && 0 <= c < us.len() && a != c implies us[a] != us[c] by {
                if a < c {
                    assert(shares[used[a]].guardian_index != shares[used[c]].guardian_index);
                } else {
                    assert(shares[used[c]].guardian_index != shares[used[a]].guardian_index);
                }
            }
        }
        xs.unique_seq_to_set();
        us.unique_seq_to_set();
        assert(xs.to_set().subset_of(us.to_set())) by {
            assert forall|x: u8| xs.to_set().contains(x) implies us.to_set().contains(x) by {
                let a = choose|a: int| 0 <= a < xs.len() && xs[a] == x;
                let q = ps[a];
                assert(index_among(shares, used, shares[q].guardian_index));
                let k = choose|k: int| 0 <= k < used.len()
                    && #[trigger] shares[used[k]].guardian_index == shares[q].guardian_index;
                assert(us[k] == x);
            }
        }
        vstd::set_lib::lemma_len_subset(xs.to_set(), us.to_set());
        assert(false);
    }
}

/// Shares made from one secret reconstruct it: when every share byte is the value
/// at the share's guardian index of the polynomial with the secret byte as constant
/// term and `t - 1` further coefficients, combining with threshold `t` gives back
/// the secret whenever it succeeds, and it succeeds whenever there are at least `t`
/// shares with pairwise distinct guardian indices, as `split_secret` produces.
pub proof fn lemma_combine_split(shares: Seq<GuardianShare>, t: u8, secret: Seq<u8>, coeffs: Seq<Seq<u8>>)
    requires
        secret.len() == 32,
        coeffs.len() == 32,
        forall|b: int| 0 <= b < 32 ==> #[trigger] coeffs[b].len() + 1 == t,
        forall|i: int, b: int| 0 <= i < shares.len() && 0 <= b < 32 ==> #[trigger] shares[i].share_data@[b]
            == share_byte(secret[b], coeffs[b], shares[i].guardian_index),
    ensures
        combine_outcome(shares, t) is Ok ==> combine_outcome(shares, t) == Ok::<Seq<u8>, Seq<char>>(secret),
        shares.len() >= t && (forall|i: int, j: int| 0 <= i < j < shares.len()
            ==> shares[i].guardian_index != shares[j].guardian_index)
            ==> combine_outcome(shares, t) == Ok::<Seq<u8>, Seq<char>>(secret),
{
    let n = shares.len() as int;
    let pos = used_positions(shares, n, t as nat);
    lemma_used_positions(shares, n, t as nat);
    if shares.len() >= t && (forall|i: int, j: int| 0 <= i < j < shares.len()
        ==> shares[i].guardian_index != shares[j].guardian_index) {
        lemma_used_positions_distinct(shares, n, t as nat);
    }
    if shares.len() >= t && pos.len() >= t {
        let used = pos.map_values(|p: int| shares[p]);
        let xs = used.map_values(|s: GuardianShare| s.guardian_index);
        assert(distinct(xs)) by {
            assert forall|a: int, c: int| 0 <= a < c < xs.len() implies xs[a] != xs[c] by {
                assert(xs[a] == shares[pos[a]].guardian_index);
                assert(xs[c] == shares[pos[c]].guardian_index);
            }
        }
        assert forall|b: int| 0 <= b < 32 implies #[trigger] recovered_byte(used, b) == secret[b] by {
            let p = seq![secret[b]] + coeffs[b];
            let ys = used.map_values(|s: GuardianShare| s.share_data@[b]);
            assert forall|k: int| 0 <= k < xs.len() implies #[trigger] ys[k] == peval(p, xs[k]) by {
                let i = pos[k];
                assert(used[k] == shares[i]);
                assert(shares[i].share_data@[b] == share_byte(secret[b], coeffs[b], shares[i].guardian_index));
                lemma_share_byte_is_peval(secret[b], coeffs[b], xs[k]);
            }
            assert(ys =~= xs.map_values(|x: u8| peval(p, x)));
            lemma_interpolate_at_zero(xs, p);
            lemma_interpolate_from_is_qval(xs, ys, 0, 0);
            lemma_gmulp_zero_one(0x1Bu8, peval(p.drop_first(), 0));
            lemma_xor(secret[b], 0, 0, 0);
        }
        assert(Seq::new(32, |b: int| recovered_byte(used, b)) =~= secret);
    }
}

} // verus!
