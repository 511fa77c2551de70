//! What the signature scheme promises: honest signatures pass designated and receipt
//! verification, and the algebraic forgery passes unauthenticated verification. Both rest
//! on the two verification shares lying on a line through the origin.

use crate::algebra::{
    cong, lemma_canonical, lemma_cong_add, lemma_cong_eq, lemma_cong_fadd, lemma_cong_fdiv,
    lemma_cong_fmul, lemma_cong_fsub, lemma_cong_mul, lemma_cong_sub, lemma_has_inverse_fdiv,
    lemma_has_inverse_product, lemma_inverse_nonzero,
};
use crate::field::{
    fadd, fdiv, finv, fmul, fsub, has_inverse, lemma_finv, modulus, modulus_is_field,
};
use crate::lagrange::{
    canonical_points, denominators_invertible, distinct_points, evaluations, lagrange_terms,
    lemma_distinct_points_denominators, lemma_interpolate_fsum, lemma_interpolation,
    lemma_linear_eval,
    lemma_poly_eval_zero,
};
use crate::shamir::{interpolate_at_zero, poly_eval};
use crate::signature::{
    sign_values, spec_forge, spec_key_share_coefficient, spec_per_message_key, spec_receipt,
    spec_sign, spec_unauthenticated_receipt, spec_verify_inner, spec_w0, spec_w1,
    verification_equation, verification_v0, verification_v1, SignatureValue,
};
use vstd::arithmetic::mul::lemma_mul_is_distributive_add;
use vstd::prelude::*;

verus! {

/// Values on a line through the origin at two points with invertible Lagrange
/// denominators interpolate to zero.
proof fn lemma_line_through_origin(w0: int, w1: int, slope: int, v0: int, v1: int)
    requires
        0 <= w0 < modulus(),
        0 <= w1 < modulus(),
        denominators_invertible(seq![w0, w1]),
        v0 == poly_eval(seq![0, slope], w0),
        v1 == poly_eval(seq![0, slope], w1),
    ensures
        interpolate_at_zero(seq![w0, w1], seq![v0, v1], 2) == 0,
{
    let xs = seq![w0, w1];
    let c = seq![0, slope];
    assert(canonical_points(xs));
    assert(evaluations(c, xs) =~= seq![v0, v1]);
    lemma_interpolation(xs, c);
    lemma_interpolate_fsum(xs, seq![v0, v1], 2);
    assert(lagrange_terms(xs, seq![v0, v1]).take(2) =~= lagrange_terms(xs, seq![v0, v1]));
    lemma_poly_eval_zero(c);
    lemma_canonical(0);
}

/// An invertible value times its chosen inverse is one.
proof fn lemma_inverse_cong(a: int)
    requires
        has_inverse(a),
    ensures
        cong(a * finv(a), 1),
{
    lemma_finv(a);
    lemma_canonical(1);
}

/// Over the field, two distinct canonical points have invertible Lagrange denominators.
proof fn lemma_two_distinct_points(w0: int, w1: int)
    requires
        modulus_is_field(),
        0 <= w0 < modulus(),
        0 <= w1 < modulus(),
        w0 != w1,
    ensures
        denominators_invertible(seq![w0, w1]),
{
    let xs = seq![w0, w1];
    assert(canonical_points(xs));
    assert(distinct_points(xs));
    lemma_distinct_points_denominators(xs);
}

/// The residues of the signature components, as integer expressions.
proof fn lemma_sign_congruences(
    w0: int,
    w1: int,
    r: int,
    k: int,
    kc: int,
    eps: int,
    b: int,
    d: int,
    c: int,
)
    ensures
        ({
            let sig = sign_values(w0, w1, r, k, kc, eps, b, d, c);
            &&& cong(fmul(sig.s1, sig.s2), (b * (k - r)) * (d * finv(b)))
            &&& cong(sig.s3, (k + kc * w1) * d)
            &&& cong(sig.s4, ((eps + c * w1) * d) * finv(eps))
            &&& cong(sig.s5, d * ((k + kc * w0) - ((eps + c * w0) * r) * finv(eps)))
            &&& 0 <= sig.s3 < modulus()
            &&& 0 <= sig.s4 < modulus()
            &&& 0 <= sig.s5 < modulus()
        }),
{
    let sig = sign_values(w0, w1, r, k, kc, eps, b, d, c);
    let s0 = poly_eval(seq![k, kc], w0);
    let s1 = poly_eval(seq![k, kc], w1);
    let e0 = poly_eval(seq![eps, c], w0);
    let e1 = poly_eval(seq![eps, c], w1);
    lemma_linear_eval(k, kc, w0);
    lemma_linear_eval(k, kc, w1);
    lemma_linear_eval(eps, c, w0);
    lemma_linear_eval(eps, c, w1);
    lemma_cong_fsub(k, r, k, r);
    lemma_cong_fmul(b, fsub(k, r), b, k - r);
    lemma_cong_fdiv(d, b, d);
    lemma_cong_fmul(sig.s1, sig.s2, b * (k - r), d * finv(b));
    lemma_cong_fmul(s1, d, k + kc * w1, d);
    lemma_cong_fmul(e1, d, eps + c * w1, d);
    lemma_cong_fdiv(fmul(e1, d), eps, (eps + c * w1) * d);
    lemma_cong_fmul(e0, r, eps + c * w0, r);
    lemma_cong_fdiv(fmul(e0, r), eps, (eps + c * w0) * r);
    let q0 = fdiv(fmul(e0, r), eps);
    lemma_cong_fsub(s0, q0, k + kc * w0, ((eps + c * w0) * r) * finv(eps));
    lemma_cong_fmul(d, fsub(s0, q0), d, (k + kc * w0) - ((eps + c * w0) * r) * finv(eps));
}

/// The slope of the verification line, as an integer expression.
proof fn lemma_slope_congruence(r: int, kc: int, eps: int, d: int, c: int)
    ensures
        cong(fmul(d, fsub(fdiv(fmul(c, r), eps), kc)), d * ((c * r) * finv(eps) - kc)),
{
    lemma_cong_fmul(c, r, c, r);
    lemma_cong_fdiv(fmul(c, r), eps, c * r);
    lemma_cong_fsub(fdiv(fmul(c, r), eps), kc, (c * r) * finv(eps), kc);
    lemma_cong_fmul(d, fsub(fdiv(fmul(c, r), eps), kc), d, (c * r) * finv(eps) - kc);
}

/// The polynomial identity behind the first verification share.
proof fn lemma_v0_identity(
    b: int,
    ib: int,
    k: int,
    r: int,
    d: int,
    kc: int,
    w0: int,
    eps: int,
    c: int,
    ie: int,
)
    ensures
        (b * (k - r)) * (d * ib) - d * ((k + kc * w0) - ((eps + c * w0) * r) * ie) == (d * ((c
            * r) * ie - kc)) * w0 + (d * (k - r) * (b * ib - 1) + d * r * (eps * ie - 1)),
{
    let a = d * (k - r);
    let bb = b * ib;
    let e = eps * ie;
    let g = c * r * ie;
    assert((b * (k - r)) * (d * ib) == a * bb) by (nonlinear_arith)
        requires
            a == d * (k - r),
            bb == b * ib,
    ;
    assert(a * (bb - 1) == a * bb - a) by (nonlinear_arith);
    assert(((eps + c * w0) * r) * ie == r * e + g * w0) by (nonlinear_arith)
        requires
            e == eps * ie,
            g == c * r * ie,
    ;
    let t = ((eps + c * w0) * r) * ie;
    assert(d * ((k + kc * w0) - t) == d * k + (d * kc) * w0 - d * t) by (nonlinear_arith);
    assert(d * t == (d * r) * e + (d * g) * w0) by (nonlinear_arith)
        requires
            t == r * e + g * w0,
    ;
    assert((d * (g - kc)) * w0 == (d * g) * w0 - (d * kc) * w0) by (nonlinear_arith);
    assert((d * r) * (e - 1) == (d * r) * e - d * r) by (nonlinear_arith);
    assert(a == d * k - d * r) by (nonlinear_arith)
        requires
            a == d * (k - r),
    ;
    assert(d * r * (eps * ie - 1) == (d * r) * (e - 1));
    assert(d * (k - r) * (b * ib - 1) == a * (bb - 1));
    assert(d * ((c * r) * ie - kc) == d * (g - kc));
}

/// The polynomial identity behind the second verification share.
proof fn lemma_v1_identity(
    b: int,
    ib: int,
    k: int,
    r: int,
    d: int,
    kc: int,
    w1: int,
    eps: int,
    c: int,
    ie: int,
)
    ensures
        (b * (k - r)) * (d * ib) - (k + kc * w1) * d + r * (((eps + c * w1) * d) * ie) == (d * ((c
            * r) * ie - kc)) * w1 + (d * (k - r) * (b * ib - 1) + d * r * (eps * ie - 1)),
{
    let a = d * (k - r);
    let bb = b * ib;
    let e = eps * ie;
    let g = c * r * ie;
    assert((b * (k - r)) * (d * ib) == a * bb) by (nonlinear_arith)
        requires
            a == d * (k - r),
            bb == b * ib,
    ;
    assert(a * (bb - 1) == a * bb - a) by (nonlinear_arith);
    let h = c * ie;
    assert(((eps + c * w1) * d) * ie == d * e + (d * h) * w1) by (nonlinear_arith)
        requires
            e == eps * ie,
            h == c * ie,
    ;
    assert(r * (d * e + (d * h) * w1) == r * (d * e) + r * ((d * h) * w1)) by {
        lemma_mul_is_distributive_add(r, d * e, (d * h) * w1);
    }
    assert(r * (d * e) == (d * r) * e) by (nonlinear_arith);
    assert(r * ((d * h) * w1) == (r * (d * h)) * w1) by (nonlinear_arith);
    assert(r * (d * h) == d * g) by (nonlinear_arith)
        requires
            g == c * r * ie,
            h == c * ie,
    ;
    assert((k + kc * w1) * d == d * k + (d * kc) * w1) by (nonlinear_arith);
    assert((d * (g - kc)) * w1 == (d * g) * w1 - (d * kc) * w1) by (nonlinear_arith);
    assert((d * r) * (e - 1) == (d * r) * e - d * r) by (nonlinear_arith);
    assert(a == d * k - d * r) by (nonlinear_arith)
        requires
            a == d * (k - r),
    ;
    assert(d * r * (eps * ie - 1) == (d * r) * (e - 1));
    assert(d * (k - r) * (b * ib - 1) == a * (bb - 1));
    assert(d * ((c * r) * ie - kc) == d * (g - kc));
}

/// The verification shares of honest signature components lie on the line through the
/// origin with slope `d (c r / epsilon - kc)`, once `b` and `epsilon` have inverses.
proof fn lemma_honest_shares(
    w0: int,
    w1: int,
    r: int,
    k: int,
    kc: int,
    eps: int,
    b: int,
    d: int,
    c: int,
)
    requires
        has_inverse(b),
        has_inverse(eps),
    ensures
        ({
            let sig = sign_values(w0, w1, r, k, kc, eps, b, d, c);
            let slope = fmul(d, fsub(fdiv(fmul(c, r), eps), kc));
            &&& verification_v0(sig) == poly_eval(seq![0, slope], w0)
            &&& verification_v1(r, sig) == poly_eval(seq![0, slope], w1)
        }),
{
    let sig = sign_values(w0, w1, r, k, kc, eps, b, d, c);
    let ib = finv(b);
    let ie = finv(eps);
    lemma_inverse_cong(b);
    lemma_inverse_cong(eps);
    let slope = fmul(d, fsub(fdiv(fmul(c, r), eps), kc));
    let m = fmul(sig.s1, sig.s2);
    lemma_sign_congruences(w0, w1, r, k, kc, eps, b, d, c);
    lemma_slope_congruence(r, kc, eps, d, c);
    lemma_linear_eval(0, slope, w0);
    lemma_linear_eval(0, slope, w1);
    let si = d * ((c * r) * ie - kc);
    lemma_cong_mul(slope, w0, si, w0);
    lemma_cong_mul(slope, w1, si, w1);
    let err = d * (k - r) * (b * ib - 1) + d * r * (eps * ie - 1);
    assert(cong(err, 0)) by {
        lemma_canonical(1);
        lemma_cong_sub(b * ib, 1, 1, 1);
        lemma_cong_sub(eps * ie, 1, 1, 1);
        lemma_cong_mul(d * (k - r), b * ib - 1, d * (k - r), 0);
        lemma_cong_mul(d * r, eps * ie - 1, d * r, 0);
        lemma_cong_add(d * (k - r) * (b * ib - 1), d * r * (eps * ie - 1), 0, 0);
    }
    // v0
    let mi = (b * (k - r)) * (d * ib);
    let s5i = d * ((k + kc * w0) - ((eps + c * w0) * r) * ie);
    lemma_cong_fsub(m, sig.s5, mi, s5i);
    lemma_v0_identity(b, ib, k, r, d, kc, w0, eps, c, ie);
    lemma_cong_add(si * w0, err, si * w0, 0);
    lemma_cong_eq(verification_v0(sig), poly_eval(seq![0, slope], w0));
    // v1
    let s3i = (k + kc * w1) * d;
    let s4i = ((eps + c * w1) * d) * ie;
    lemma_cong_fsub(m, sig.s3, mi, s3i);
    lemma_cong_fmul(r, sig.s4, r, s4i);
    lemma_cong_fadd(fsub(m, sig.s3), fmul(r, sig.s4), mi - s3i, r * s4i);
    lemma_v1_identity(b, ib, k, r, d, kc, w1, eps, c, ie);
    lemma_cong_add(si * w1, err, si * w1, 0);
    lemma_cong_eq(verification_v1(r, sig), poly_eval(seq![0, slope], w1));
}

/// An honest signature is accepted against the receipt of its message, when its divisors
/// `b` and `epsilon` and the Lagrange denominators of the signer's public points are
/// invertible and its `sigma_4` is nonzero.
pub proof fn lemma_honest_signature_accepted(
    message: Seq<u8>,
    sk: int,
    channel_key: Seq<u8>,
    alpha: int,
    beta: int,
    b: int,
    d: int,
    c: int,
)
    requires
        has_inverse(b),
        has_inverse(fmul(alpha, beta)),
        spec_sign(message, sk, channel_key, alpha, beta, b, d, c).s4 != 0,
        denominators_invertible(seq![spec_w0(sk), spec_w1(sk)]),
    ensures
        spec_verify_inner(
            spec_receipt(message, channel_key),
            spec_sign(message, sk, channel_key, alpha, beta, b, d, c),
            spec_w0(sk),
            spec_w1(sk),
        ),
{
    let sig = spec_sign(message, sk, channel_key, alpha, beta, b, d, c);
    let r = spec_receipt(message, channel_key);
    let eps = fmul(alpha, beta);
    let k = spec_per_message_key(sk, message);
    let kc = spec_key_share_coefficient(k);
    let slope = fmul(d, fsub(fdiv(fmul(c, r), eps), kc));
    lemma_honest_shares(spec_w0(sk), spec_w1(sk), r, k, kc, eps, b, d, c);
    assert(0 <= spec_w0(sk) < modulus());
    assert(0 <= spec_w1(sk) < modulus());
    lemma_line_through_origin(
        spec_w0(sk),
        spec_w1(sk),
        slope,
        verification_v0(sig),
        verification_v1(r, sig),
    );
}

/// An honest signature whose multiplier `d` and whose share of `epsilon` at `w1` are
/// invertible, with `epsilon` invertible, has a nonzero `sigma_4`: it is the product of those
/// two divided by `epsilon`.
pub proof fn lemma_honest_sigma_4_nonzero(
    message: Seq<u8>,
    sk: int,
    channel_key: Seq<u8>,
    alpha: int,
    beta: int,
    b: int,
    d: int,
    c: int,
)
    requires
        has_inverse(fmul(alpha, beta)),
        has_inverse(d),
        has_inverse(poly_eval(seq![fmul(alpha, beta), c], spec_w1(sk))),
    ensures
        spec_sign(message, sk, channel_key, alpha, beta, b, d, c).s4 != 0,
{
    let eps = fmul(alpha, beta);
    let e1 = poly_eval(seq![eps, c], spec_w1(sk));
    lemma_has_inverse_product(e1, d);
    lemma_has_inverse_fdiv(fmul(e1, d), eps);
    lemma_inverse_nonzero(fdiv(fmul(e1, d), eps));
    lemma_canonical(0);
}

/// Completeness of designated and receipt verification: over the field, a signature made
/// with nonzero divisors `b` and `epsilon`, whose `sigma_4` is nonzero, by a key whose public
/// points are distinct, is accepted against the receipt of its message. Designated
/// verification recomputes exactly that receipt, so it accepts the signature too.
pub proof fn lemma_signature_verifies(
    message: Seq<u8>,
    sk: int,
    channel_key: Seq<u8>,
    alpha: int,
    beta: int,
    b: int,
    d: int,
    c: int,
)
    requires
        modulus_is_field(),
        0 <= b < modulus(),
        b != 0,
        fmul(alpha, beta) != 0,
        spec_sign(message, sk, channel_key, alpha, beta, b, d, c).s4 != 0,
        spec_w0(sk) != spec_w1(sk),
    ensures
        spec_verify_inner(
            spec_receipt(message, channel_key),
            spec_sign(message, sk, channel_key, alpha, beta, b, d, c),
            spec_w0(sk),
            spec_w1(sk),
        ),
{
    lemma_cong_fmul(alpha, beta, alpha, beta);
    assert(has_inverse(b));
    assert(has_inverse(fmul(alpha, beta)));
    assert(0 <= spec_w0(sk) < modulus());
    assert(0 <= spec_w1(sk) < modulus());
    lemma_two_distinct_points(spec_w0(sk), spec_w1(sk));
    lemma_honest_signature_accepted(message, sk, channel_key, alpha, beta, b, d, c);
}

/// The two forged verification shares lie on the line through the origin with slope
/// `v1 / w1`.
proof fn lemma_forged_shares(sig: SignatureValue, r: int, w0: int, w1: int, f: SignatureValue)
    requires
        has_inverse(w1),
        f.s1 == fadd(sig.s1, 1),
        f.s2 == fadd(sig.s2, 2),
        f.s3 == fadd(sig.s3, 3),
        f.s4 == fadd(sig.s4, 4),
        f.s5 == fsub(
            fmul(f.s1, f.s2),
            fdiv(fmul(fadd(fsub(fmul(f.s1, f.s2), f.s3), fmul(r, f.s4)), w0), w1),
        ),
    ensures
        verification_v0(f) == poly_eval(
            seq![0, fmul(verification_v1(r, f), finv(w1))],
            w0,
        ),
        verification_v1(r, f) == poly_eval(
            seq![0, fmul(verification_v1(r, f), finv(w1))],
            w1,
        ),
{
    let m = fmul(f.s1, f.s2);
    let v1 = verification_v1(r, f);
    let iw = finv(w1);
    let slope = fmul(v1, iw);
    lemma_inverse_cong(w1);
    lemma_cong_fmul(f.s1, f.s2, f.s1, f.s2);
    lemma_cong_fsub(m, f.s3, m, f.s3);
    lemma_cong_fmul(r, f.s4, r, f.s4);
    lemma_cong_fadd(fsub(m, f.s3), fmul(r, f.s4), fsub(m, f.s3), fmul(r, f.s4));
    lemma_cong_fmul(v1, w0, v1, w0);
    lemma_cong_fdiv(fmul(v1, w0), w1, v1 * w0);
    lemma_cong_fsub(m, fdiv(fmul(v1, w0), w1), m, (v1 * w0) * iw);
    lemma_cong_fsub(m, f.s5, m, m - (v1 * w0) * iw);
    lemma_cong_fmul(v1, iw, v1, iw);
    lemma_linear_eval(0, slope, w0);
    lemma_linear_eval(0, slope, w1);
    lemma_cong_mul(slope, w0, v1 * iw, w0);
    lemma_cong_mul(slope, w1, v1 * iw, w1);
    assert(m - (m - (v1 * w0) * iw) == 0 + (v1 * iw) * w0) by (nonlinear_arith);
    lemma_cong_eq(verification_v0(f), poly_eval(seq![0, slope], w0));
    lemma_canonical(1);
    lemma_cong_mul(v1, w1 * iw, v1, 1);
    assert(v1 * (w1 * iw) == 0 + (v1 * iw) * w1) by (nonlinear_arith);
    lemma_cong_eq(v1, poly_eval(seq![0, slope], w1));
}

/// The forged signature passes unauthenticated verification for the new message when
/// `w1` and the Lagrange denominators of the public points are invertible.
pub proof fn lemma_forgery_accepted(sig: SignatureValue, new_message: Seq<u8>, w0: int, w1: int)
    requires
        0 <= w0 < modulus(),
        0 <= w1 < modulus(),
        has_inverse(w1),
        denominators_invertible(seq![w0, w1]),
    ensures
        verification_equation(
            spec_unauthenticated_receipt(new_message),
            spec_forge(sig, new_message, w0, w1),
            w0,
            w1,
        ),
{
    let r = spec_unauthenticated_receipt(new_message);
    let f = spec_forge(sig, new_message, w0, w1);
    lemma_forged_shares(sig, r, w0, w1, f);
    let v1 = verification_v1(r, f);
    lemma_line_through_origin(w0, w1, fmul(v1, finv(w1)), verification_v0(f), v1);
}

/// The algebraic forgery: over the field, for distinct public points with `w1` nonzero, the
/// forged signature passes unauthenticated verification for the new message, whatever
/// signature it started from.
pub proof fn lemma_forgery_passes_unauthenticated(
    sig: SignatureValue,
    new_message: Seq<u8>,
    w0: int,
    w1: int,
)
    requires
        modulus_is_field(),
        0 <= w0 < modulus(),
        0 < w1 < modulus(),
        w0 != w1,
    ensures
        verification_equation(
            spec_unauthenticated_receipt(new_message),
            spec_forge(sig, new_message, w0, w1),
            w0,
            w1,
        ),
{
    assert(has_inverse(w1));
    lemma_two_distinct_points(w0, w1);
    lemma_forgery_accepted(sig, new_message, w0, w1);
}

} // verus!
