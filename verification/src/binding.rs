//! What verification rejects: a signature binds its receipt, so no other receipt makes it
//! verify, and changing `sigma_1`, `sigma_3` or `sigma_5` of a verifying signature makes it
//! fail. Both rest on the explicit form of interpolation at two points.

use crate::algebra::{
    cong, lemma_canonical, lemma_cong_add, lemma_cong_cancel, lemma_cong_eq, lemma_cong_mul,
    lemma_cong_ops, lemma_cong_sub, lemma_has_inverse_fdiv, lemma_has_inverse_neg,
    lemma_has_inverse_product, lemma_inverse_nonzero,
};
use crate::field::{
    fadd, fmul, fsub, has_inverse, lemma_fmul_one, modulus,
};
use crate::lagrange::{
    canonical_points, denominators_invertible, fsum, lagrange_coefficients,
    lemma_coefficients_sum_to_one,
};
use crate::shamir::{
    interpolate_at_zero, lagrange_coefficient, lagrange_denominator, lagrange_numerator,
    prod_except,
};
use crate::signature::{
    spec_verify_inner, verification_equation, verification_v0, verification_v1,
    SignatureValue,
};
use vstd::prelude::*;

verus! {

/// Interpolation at zero from two points, written out: the first Lagrange coefficient
/// times the first value plus the second times the second.
proof fn lemma_two_point_interpolation(w0: int, w1: int, y0: int, y1: int)
    ensures
        ({
            let xs = seq![w0, w1];
            let l0 = lagrange_coefficient(xs, 0);
            let l1 = lagrange_coefficient(xs, 1);
            let i = interpolate_at_zero(xs, seq![y0, y1], 2);
            &&& cong(i, l0 * y0 + l1 * y1)
            &&& 0 <= i < modulus()
            &&& lagrange_numerator(xs, 0) == fsub(0, w1)
            &&& lagrange_numerator(xs, 1) == fsub(0, w0)
        }),
{
    let xs = seq![w0, w1];
    let ys = seq![y0, y1];
    let l0 = lagrange_coefficient(xs, 0);
    let l1 = lagrange_coefficient(xs, 1);
    reveal_with_fuel(interpolate_at_zero, 3);
    reveal_with_fuel(prod_except, 3);
    lemma_cong_ops(0, w1);
    lemma_cong_ops(0, w0);
    lemma_fmul_one(fsub(0, w1));
    lemma_fmul_one(fsub(0, w0));
    let a = fmul(l0, y0);
    let b = fmul(l1, y1);
    lemma_canonical(0);
    lemma_cong_ops(0, a);
    lemma_cong_ops(l0, y0);
    lemma_cong_ops(l1, y1);
    lemma_cong_ops(fadd(0, a), b);
    lemma_cong_add(fadd(0, a), b, l0 * y0, l1 * y1);
}

/// At two points with invertible denominators, the coefficient of a point is invertible
/// when the other point is.
proof fn lemma_two_point_coefficients_invertible(w0: int, w1: int)
    requires
        denominators_invertible(seq![w0, w1]),
    ensures
        has_inverse(w1) ==> has_inverse(lagrange_coefficient(seq![w0, w1], 0)),
        has_inverse(w0) ==> has_inverse(lagrange_coefficient(seq![w0, w1], 1)),
{
    let xs = seq![w0, w1];
    lemma_two_point_interpolation(w0, w1, 0, 0);
    assert(has_inverse(lagrange_denominator(xs, 0)));
    assert(has_inverse(lagrange_denominator(xs, 1)));
    if has_inverse(w1) {
        lemma_has_inverse_neg(w1);
        lemma_has_inverse_fdiv(fsub(0, w1), lagrange_denominator(xs, 0));
    }
    if has_inverse(w0) {
        lemma_has_inverse_neg(w0);
        lemma_has_inverse_fdiv(fsub(0, w0), lagrange_denominator(xs, 1));
    }
}

/// An invertible value is not congruent to zero.
proof fn lemma_invertible_not_zero(a: int, x: int)
    requires
        has_inverse(a),
        cong(a, x),
    ensures
        !cong(x, 0),
{
    lemma_inverse_nonzero(a);
    lemma_canonical(0);
}

/// Receipt binding: a signature verifies against at most one receipt. Where the public
/// point `w0` and `sigma_4` are invertible and the two points have invertible Lagrange
/// denominators, two canonical receipts that both make the signature verify are equal; so
/// the receipt of one message cannot validate a signature made for a message with another
/// receipt.
pub proof fn lemma_receipt_binding(r1: int, r2: int, sig: SignatureValue, w0: int, w1: int)
    requires
        0 <= r1 < modulus(),
        0 <= r2 < modulus(),
        has_inverse(w0),
        has_inverse(sig.s4),
        denominators_invertible(seq![w0, w1]),
        spec_verify_inner(r1, sig, w0, w1),
        spec_verify_inner(r2, sig, w0, w1),
    ensures
        r1 == r2,
{
    let xs = seq![w0, w1];
    let l0 = lagrange_coefficient(xs, 0);
    let l1 = lagrange_coefficient(xs, 1);
    let v0 = verification_v0(sig);
    let a1 = verification_v1(r1, sig);
    let a2 = verification_v1(r2, sig);
    lemma_two_point_interpolation(w0, w1, v0, a1);
    lemma_two_point_interpolation(w0, w1, v0, a2);
    lemma_two_point_coefficients_invertible(w0, w1);
    lemma_canonical(0);
    // both sums vanish, so the second terms agree
    lemma_cong_sub(l0 * v0 + l1 * a1, l0 * v0, l0 * v0 + l1 * a2, l0 * v0);
    assert(l1 * a1 == a1 * l1) by (nonlinear_arith);
    assert(l1 * a2 == a2 * l1) by (nonlinear_arith);
    lemma_cong_cancel(a1, a2, l1);
    // the shares at w1 differ by the receipts times sigma_4
    let u = fsub(fmul(sig.s1, sig.s2), sig.s3);
    lemma_cong_ops(u, fmul(r1, sig.s4));
    lemma_cong_ops(u, fmul(r2, sig.s4));
    lemma_cong_ops(r1, sig.s4);
    lemma_cong_ops(r2, sig.s4);
    lemma_cong_add(u, fmul(r1, sig.s4), u, r1 * sig.s4);
    lemma_cong_add(u, fmul(r2, sig.s4), u, r2 * sig.s4);
    lemma_cong_sub(u + r1 * sig.s4, u, u + r2 * sig.s4, u);
    lemma_cong_cancel(r1, r2, sig.s4);
    lemma_cong_eq(r1, r2);
}

/// Shifting the two values by `e0` and `e1` shifts the interpolation by the coefficients
/// times the shifts.
proof fn lemma_two_point_shift(w0: int, w1: int, y0: int, y1: int, z0: int, z1: int, e0: int, e1: int)
    requires
        cong(z0, y0 + e0),
        cong(z1, y1 + e1),
    ensures
        ({
            let xs = seq![w0, w1];
            let l0 = lagrange_coefficient(xs, 0);
            let l1 = lagrange_coefficient(xs, 1);
            cong(
                interpolate_at_zero(xs, seq![z0, z1], 2),
                interpolate_at_zero(xs, seq![y0, y1], 2) + (l0 * e0 + l1 * e1),
            )
        }),
{
    let xs = seq![w0, w1];
    let l0 = lagrange_coefficient(xs, 0);
    let l1 = lagrange_coefficient(xs, 1);
    let iy = interpolate_at_zero(xs, seq![y0, y1], 2);
    lemma_two_point_interpolation(w0, w1, y0, y1);
    lemma_two_point_interpolation(w0, w1, z0, z1);
    lemma_cong_mul(l0, z0, l0, y0 + e0);
    lemma_cong_mul(l1, z1, l1, y1 + e1);
    lemma_cong_add(l0 * z0, l1 * z1, l0 * (y0 + e0), l1 * (y1 + e1));
    assert(l0 * (y0 + e0) + l1 * (y1 + e1) == (l0 * y0 + l1 * y1) + (l0 * e0 + l1 * e1))
        by (nonlinear_arith);
    lemma_cong_add(iy, l0 * e0 + l1 * e1, l0 * y0 + l1 * y1, l0 * e0 + l1 * e1);
}

/// The residue of a verification share at `w0`, as an integer expression.
proof fn lemma_v0_cong(sig: SignatureValue)
    ensures
        cong(verification_v0(sig), fmul(sig.s1, sig.s2) - sig.s5),
{
    lemma_cong_ops(fmul(sig.s1, sig.s2), sig.s5);
}

/// The residue of a verification share at `w1`, as an integer expression.
proof fn lemma_v1_cong(r: int, sig: SignatureValue)
    ensures
        cong(verification_v1(r, sig), fmul(sig.s1, sig.s2) - sig.s3 + fmul(r, sig.s4)),
{
    let u = fsub(fmul(sig.s1, sig.s2), sig.s3);
    lemma_cong_ops(fmul(sig.s1, sig.s2), sig.s3);
    lemma_cong_ops(u, fmul(r, sig.s4));
    lemma_cong_add(u, fmul(r, sig.s4), fmul(sig.s1, sig.s2) - sig.s3, fmul(r, sig.s4));
}

/// A value congruent to a product of two invertible elements is not zero.
proof fn lemma_product_not_zero(a: int, b: int, x: int)
    requires
        has_inverse(a),
        has_inverse(b),
        cong(x, a * b),
    ensures
        !cong(x, 0),
{
    lemma_has_inverse_product(a, b);
    lemma_cong_ops(a, b);
    lemma_invertible_not_zero(fmul(a, b), x);
}

/// The two Lagrange coefficients of canonical points with invertible denominators sum to
/// one.
proof fn lemma_two_point_coefficients_sum(w0: int, w1: int)
    requires
        0 <= w0 < modulus(),
        0 <= w1 < modulus(),
        denominators_invertible(seq![w0, w1]),
    ensures
        cong(lagrange_coefficient(seq![w0, w1], 0) + lagrange_coefficient(seq![w0, w1], 1), 1),
{
    let xs = seq![w0, w1];
    let l0 = lagrange_coefficient(xs, 0);
    let l1 = lagrange_coefficient(xs, 1);
    assert(canonical_points(xs));
    lemma_coefficients_sum_to_one(xs);
    reveal_with_fuel(fsum, 3);
    assert(lagrange_coefficients(xs) =~= seq![l0, l1]);
    assert(seq![l0, l1].drop_last() =~= seq![l0]);
    assert(seq![l0].drop_last() =~= Seq::<int>::empty());
    lemma_canonical(0);
    lemma_cong_ops(0, l0);
    lemma_cong_ops(fadd(0, l0), l1);
    lemma_cong_add(fadd(0, l0), l1, l0, l1);
}

/// Adding an invertible `delta` to `sigma_1`, with `sigma_2` invertible, breaks
/// verification.
proof fn lemma_tamper_sigma_1(r: int, sig: SignatureValue, w0: int, w1: int, delta: int)
    requires
        0 <= w0 < modulus(),
        0 <= w1 < modulus(),
        denominators_invertible(seq![w0, w1]),
        has_inverse(delta),
        has_inverse(sig.s2),
        spec_verify_inner(r, sig, w0, w1),
    ensures
        !spec_verify_inner(r, SignatureValue { s1: fadd(sig.s1, delta), ..sig }, w0, w1),
{
    let xs = seq![w0, w1];
    let l0 = lagrange_coefficient(xs, 0);
    let l1 = lagrange_coefficient(xs, 1);
    let v0 = verification_v0(sig);
    let v1 = verification_v1(r, sig);
    let p = fmul(sig.s1, sig.s2);
    let t = SignatureValue { s1: fadd(sig.s1, delta), ..sig };
    let d = delta * sig.s2;
    lemma_canonical(0);
    lemma_v0_cong(sig);
    lemma_v1_cong(r, sig);
    lemma_v0_cong(t);
    lemma_v1_cong(r, t);
    lemma_cong_ops(sig.s1, delta);
    lemma_cong_ops(t.s1, sig.s2);
    lemma_cong_ops(sig.s1, sig.s2);
    lemma_cong_mul(t.s1, sig.s2, sig.s1 + delta, sig.s2);
    assert((sig.s1 + delta) * sig.s2 == sig.s1 * sig.s2 + d) by (nonlinear_arith)
        requires
            d == delta * sig.s2,
    ;
    lemma_cong_add(p, d, sig.s1 * sig.s2, d);
    let q = fmul(t.s1, t.s2);
    assert(cong(q, p + d));
    lemma_cong_sub(q, sig.s5, p + d, sig.s5);
    lemma_cong_add(v0, d, p - sig.s5, d);
    assert(cong(verification_v0(t), v0 + d));
    lemma_cong_sub(q, sig.s3, p + d, sig.s3);
    lemma_cong_add(q - sig.s3, fmul(r, sig.s4), p + d - sig.s3, fmul(r, sig.s4));
    lemma_cong_add(v1, d, p - sig.s3 + fmul(r, sig.s4), d);
    assert(cong(verification_v1(r, t), v1 + d));
    lemma_two_point_shift(w0, w1, v0, v1, verification_v0(t), verification_v1(r, t), d, d);
    lemma_two_point_coefficients_sum(w0, w1);
    lemma_cong_mul(l0 + l1, d, 1, d);
    assert(l0 * d + l1 * d == (l0 + l1) * d) by (nonlinear_arith);
    let it = interpolate_at_zero(xs, seq![verification_v0(t), verification_v1(r, t)], 2);
    lemma_cong_add(0, l0 * d + l1 * d, 0, d);
    assert(cong(it, d));
    lemma_product_not_zero(delta, sig.s2, it);
}

/// Adding an invertible `delta` to `sigma_3`, with `w0` invertible, breaks verification.
proof fn lemma_tamper_sigma_3(r: int, sig: SignatureValue, w0: int, w1: int, delta: int)
    requires
        denominators_invertible(seq![w0, w1]),
        has_inverse(delta),
        has_inverse(w0),
        spec_verify_inner(r, sig, w0, w1),
    ensures
        !spec_verify_inner(r, SignatureValue { s3: fadd(sig.s3, delta), ..sig }, w0, w1),
{
    let xs = seq![w0, w1];
    let l0 = lagrange_coefficient(xs, 0);
    let l1 = lagrange_coefficient(xs, 1);
    let v0 = verification_v0(sig);
    let v1 = verification_v1(r, sig);
    let p = fmul(sig.s1, sig.s2);
    let t = SignatureValue { s3: fadd(sig.s3, delta), ..sig };
    lemma_canonical(0);
    lemma_two_point_coefficients_invertible(w0, w1);
    lemma_v0_cong(sig);
    lemma_v1_cong(r, sig);
    lemma_v0_cong(t);
    lemma_v1_cong(r, t);
    lemma_cong_ops(sig.s3, delta);
    lemma_cong_sub(p, t.s3, p, sig.s3 + delta);
    lemma_cong_add(p - t.s3, fmul(r, sig.s4), p - (sig.s3 + delta), fmul(r, sig.s4));
    lemma_cong_add(v1, -delta, p - sig.s3 + fmul(r, sig.s4), -delta);
    assert(cong(verification_v1(r, t), v1 + -delta));
    lemma_cong_add(v0, 0, v0, 0);
    lemma_two_point_shift(w0, w1, v0, v1, verification_v0(t), verification_v1(r, t), 0, -delta);
    let it = interpolate_at_zero(xs, seq![verification_v0(t), verification_v1(r, t)], 2);
    assert(l0 * 0 + l1 * -delta == -(l1 * delta)) by (nonlinear_arith);
    assert(cong(it, -(l1 * delta)));
    if it == 0 {
        lemma_cong_sub(0, it, 0, -(l1 * delta));
        assert(cong(l1 * delta, 0));
        lemma_product_not_zero(l1, delta, l1 * delta);
    }
}

/// Adding an invertible `delta` to `sigma_5`, with `w1` invertible, breaks verification.
proof fn lemma_tamper_sigma_5(r: int, sig: SignatureValue, w0: int, w1: int, delta: int)
    requires
        denominators_invertible(seq![w0, w1]),
        has_inverse(delta),
        has_inverse(w1),
        spec_verify_inner(r, sig, w0, w1),
    ensures
        !spec_verify_inner(r, SignatureValue { s5: fadd(sig.s5, delta), ..sig }, w0, w1),
{
    let xs = seq![w0, w1];
    let l0 = lagrange_coefficient(xs, 0);
    let l1 = lagrange_coefficient(xs, 1);
    let v0 = verification_v0(sig);
    let v1 = verification_v1(r, sig);
    let p = fmul(sig.s1, sig.s2);
    let t = SignatureValue { s5: fadd(sig.s5, delta), ..sig };
    lemma_canonical(0);
    lemma_two_point_coefficients_invertible(w0, w1);
    lemma_v0_cong(sig);
    lemma_v1_cong(r, sig);
    lemma_v0_cong(t);
    lemma_v1_cong(r, t);
    lemma_cong_ops(sig.s5, delta);
    lemma_cong_sub(p, t.s5, p, sig.s5 + delta);
    lemma_cong_add(v0, -delta, p - sig.s5, -delta);
    assert(cong(verification_v0(t), v0 + -delta));
    lemma_cong_add(v1, 0, v1, 0);
    lemma_two_point_shift(w0, w1, v0, v1, verification_v0(t), verification_v1(r, t), -delta, 0);
    let it = interpolate_at_zero(xs, seq![verification_v0(t), verification_v1(r, t)], 2);
    assert(l0 * -delta + l1 * 0 == -(l0 * delta)) by (nonlinear_arith);
    assert(cong(it, -(l0 * delta)));
    if it == 0 {
        lemma_cong_sub(0, it, 0, -(l0 * delta));
        assert(cong(l0 * delta, 0));
        lemma_product_not_zero(l0, delta, l0 * delta);
    }
}

/// Tampering is detected: if a signature verifies against a receipt at canonical points
/// with invertible Lagrange denominators, adding an invertible `delta` to `sigma_1` (with
/// `sigma_2` invertible), to `sigma_3` (with `w0` invertible) or to `sigma_5` (with `w1`
/// invertible) gives a signature that does not verify against that receipt.
pub proof fn lemma_tampered_signature_rejected(
    r: int,
    sig: SignatureValue,
    w0: int,
    w1: int,
    delta: int,
)
    requires
        0 <= w0 < modulus(),
        0 <= w1 < modulus(),
        denominators_invertible(seq![w0, w1]),
        has_inverse(delta),
        spec_verify_inner(r, sig, w0, w1),
    ensures
        has_inverse(sig.s2) ==> !spec_verify_inner(
            r,
            SignatureValue { s1: fadd(sig.s1, delta), ..sig },
            w0,
            w1,
        ),
        has_inverse(w0) ==> !spec_verify_inner(
            r,
            SignatureValue { s3: fadd(sig.s3, delta), ..sig },
            w0,
            w1,
        ),
        has_inverse(w1) ==> !spec_verify_inner(
            r,
            SignatureValue { s5: fadd(sig.s5, delta), ..sig },
            w0,
            w1,
        ),
{
    if has_inverse(sig.s2) {
        lemma_tamper_sigma_1(r, sig, w0, w1, delta);
    }
    if has_inverse(w0) {
        lemma_tamper_sigma_3(r, sig, w0, w1, delta);
    }
    if has_inverse(w1) {
        lemma_tamper_sigma_5(r, sig, w0, w1, delta);
    }
}

} // verus!
