//! Congruence modulo p and the ring and inverse facts of GF(p) that the interpolation and
//! signature proofs rest on.

use crate::field::{fadd, fdiv, finv, fmul, fsub, has_inverse, is_inverse, lemma_finv, modulus};
use vstd::arithmetic::div_mod::{
    lemma_add_mod_noop, lemma_mod_bound, lemma_mod_twice, lemma_mul_mod_noop_general,
    lemma_small_mod, lemma_sub_mod_noop,
};
use vstd::prelude::*;

verus! {

/// `a` and `b` are congruent modulo p.
pub open spec fn cong(a: int, b: int) -> bool {
    a % modulus() == b % modulus()
}

pub proof fn lemma_cong_add(a: int, b: int, c: int, d: int)
    requires
        cong(a, c),
        cong(b, d),
    ensures
        cong(a + b, c + d),
{
    lemma_add_mod_noop(a, b, modulus());
    lemma_add_mod_noop(c, d, modulus());
}

pub proof fn lemma_cong_sub(a: int, b: int, c: int, d: int)
    requires
        cong(a, c),
        cong(b, d),
    ensures
        cong(a - b, c - d),
{
    lemma_sub_mod_noop(a, b, modulus());
    lemma_sub_mod_noop(c, d, modulus());
}

pub proof fn lemma_cong_mul(a: int, b: int, c: int, d: int)
    requires
        cong(a, c),
        cong(b, d),
    ensures
        cong(a * b, c * d),
{
    lemma_mul_mod_noop_general(a, b, modulus());
    lemma_mul_mod_noop_general(c, d, modulus());
}

/// Reduction keeps the residue.
pub proof fn lemma_cong_mod(a: int)
    ensures
        cong(a % modulus(), a),
        0 <= a % modulus() < modulus(),
{
    lemma_mod_twice(a, modulus());
    lemma_mod_bound(a, modulus());
}

/// Each field operation is congruent to the integer operation.
pub proof fn lemma_cong_ops(a: int, b: int)
    ensures
        cong(fadd(a, b), a + b),
        cong(fsub(a, b), a - b),
        cong(fmul(a, b), a * b),
        0 <= fadd(a, b) < modulus(),
        0 <= fsub(a, b) < modulus(),
        0 <= fmul(a, b) < modulus(),
{
    lemma_cong_mod(a + b);
    lemma_cong_mod(a - b);
    lemma_cong_mod(a * b);
}

/// Congruent canonical values are equal.
pub proof fn lemma_cong_eq(a: int, b: int)
    requires
        cong(a, b),
        0 <= a < modulus(),
        0 <= b < modulus(),
    ensures
        a == b,
{
    lemma_small_mod(a as nat, modulus() as nat);
    lemma_small_mod(b as nat, modulus() as nat);
}

/// A canonical value is its own residue.
pub proof fn lemma_canonical(a: int)
    requires
        0 <= a < modulus(),
    ensures
        a % modulus() == a,
{
    lemma_small_mod(a as nat, modulus() as nat);
}

/// Multiplication by an invertible element can be cancelled.
pub proof fn lemma_cong_cancel(a: int, b: int, c: int)
    requires
        has_inverse(c),
        cong(a * c, b * c),
    ensures
        cong(a, b),
{
    let w = choose|w: int| #[trigger] is_inverse(c, w);
    assert(cong(c * w, 1)) by {
        lemma_canonical(1);
    }
    lemma_cong_mul(a, c * w, a, 1);
    lemma_cong_mul(b, c * w, b, 1);
    lemma_cong_mul(a * c, w, b * c, w);
    assert(a * (c * w) == (a * c) * w) by (nonlinear_arith);
    assert(b * (c * w) == (b * c) * w) by (nonlinear_arith);
}

/// The quotient times the divisor is the dividend.
pub proof fn lemma_fdiv_mul(n: int, d: int)
    requires
        has_inverse(d),
    ensures
        cong(fdiv(n, d) * d, n),
        0 <= fdiv(n, d) < modulus(),
{
    let w = finv(d);
    lemma_finv(d);
    lemma_cong_ops(n, w);
    lemma_cong_mul(fmul(n, w), d, n * w, d);
    assert(cong(d * w, 1)) by {
        lemma_canonical(1);
    }
    lemma_cong_mul(n, d * w, n, 1);
    assert((n * w) * d == n * (d * w)) by (nonlinear_arith);
}

/// A quotient is determined by its product with the divisor.
pub proof fn lemma_fdiv_unique(q: int, n: int, d: int)
    requires
        has_inverse(d),
        0 <= q < modulus(),
        cong(q * d, n),
    ensures
        q == fdiv(n, d),
{
    lemma_fdiv_mul(n, d);
    lemma_cong_cancel(q, fdiv(n, d), d);
    lemma_cong_eq(q, fdiv(n, d));
}

/// A factor of an invertible product is invertible.
pub proof fn lemma_has_inverse_factor(a: int, b: int)
    requires
        has_inverse(fmul(a, b)),
    ensures
        has_inverse(a),
        has_inverse(b),
{
    let w = choose|w: int| #[trigger] is_inverse(fmul(a, b), w);
    lemma_cong_ops(a, b);
    lemma_cong_mul(fmul(a, b), w, a * b, w);
    assert(a * (b * w) == (a * b) * w) by (nonlinear_arith);
    assert(b * (a * w) == (a * b) * w) by (nonlinear_arith);
    assert(is_inverse(a, b * w));
    assert(is_inverse(b, a * w));
}

/// A product of invertible elements is invertible.
pub proof fn lemma_has_inverse_product(a: int, b: int)
    requires
        has_inverse(a),
        has_inverse(b),
    ensures
        has_inverse(fmul(a, b)),
{
    let wa = choose|w: int| #[trigger] is_inverse(a, w);
    let wb = choose|w: int| #[trigger] is_inverse(b, w);
    lemma_cong_ops(a, b);
    lemma_cong_mul(fmul(a, b), wa * wb, a * b, wa * wb);
    lemma_cong_mul(a * wa, b * wb, 1, 1);
    assert((a * b) * (wa * wb) == (a * wa) * (b * wb)) by (nonlinear_arith);
    lemma_canonical(1);
    assert(is_inverse(fmul(a, b), wa * wb));
}

/// The negation of an invertible element is invertible.
pub proof fn lemma_has_inverse_neg(a: int)
    requires
        has_inverse(a),
    ensures
        has_inverse(fsub(0, a)),
{
    let w = choose|w: int| #[trigger] is_inverse(a, w);
    lemma_cong_ops(0, a);
    lemma_cong_mul(fsub(0, a), -w, 0 - a, -w);
    assert((0 - a) * (-w) == a * w) by (nonlinear_arith);
    assert(is_inverse(fsub(0, a), -w));
}

/// A quotient of invertible elements is invertible.
pub proof fn lemma_has_inverse_fdiv(n: int, d: int)
    requires
        has_inverse(n),
        has_inverse(d),
    ensures
        has_inverse(fdiv(n, d)),
{
    lemma_finv(d);
    assert(d * finv(d) == finv(d) * d) by (nonlinear_arith);
    assert(is_inverse(finv(d), d));
    lemma_has_inverse_product(n, finv(d));
}

/// An invertible element is not zero modulo p.
pub proof fn lemma_inverse_nonzero(a: int)
    requires
        has_inverse(a),
    ensures
        a % modulus() != 0,
{
    let w = choose|w: int| #[trigger] is_inverse(a, w);
    if a % modulus() == 0 {
        lemma_mul_mod_noop_general(a, w, modulus());
        assert((a % modulus()) * (w % modulus()) == 0);
    }
}

/// One is its own inverse.
pub proof fn lemma_fdiv_one_one()
    ensures
        has_inverse(1),
        fdiv(1, 1) == 1,
{
    lemma_canonical(1);
    assert(is_inverse(1, 1));
    lemma_fdiv_unique(1, 1, 1);
}

/// Scaling a ratio: if `d1 = d2 u` and `n1 = n2 v`, then `(n1 / d1) u = v (n2 / d2)`.
pub proof fn lemma_ratio_shift(n1: int, d1: int, n2: int, d2: int, u: int, v: int)
    requires
        has_inverse(d1),
        d1 == fmul(d2, u),
        n1 == fmul(n2, v),
    ensures
        has_inverse(d2),
        fmul(fdiv(n1, d1), u) == fmul(v, fdiv(n2, d2)),
{
    lemma_has_inverse_factor(d2, u);
    let l1 = fdiv(n1, d1);
    let l2 = fdiv(n2, d2);
    lemma_fdiv_mul(n1, d1);
    lemma_fdiv_mul(n2, d2);
    lemma_cong_ops(d2, u);
    lemma_cong_ops(n2, v);
    lemma_cong_ops(l1, u);
    lemma_cong_ops(v, l2);
    // (l1 u) d2 = l1 (d2 u) ~ l1 d1 ~ n1 ~ n2 v ~ (l2 d2) v = (v l2) d2
    assert(cong(l1 * (d2 * u), l1 * d1)) by {
        lemma_cong_mul(l1, d2 * u, l1, d1);
    }
    assert(cong((l2 * d2) * v, n2 * v)) by {
        lemma_cong_mul(l2 * d2, v, n2, v);
    }
    assert((l1 * u) * d2 == l1 * (d2 * u)) by (nonlinear_arith);
    assert((v * l2) * d2 == (l2 * d2) * v) by (nonlinear_arith);
    assert(cong((l1 * u) * d2, (v * l2) * d2));
    lemma_cong_cancel(l1 * u, v * l2, d2);
    lemma_cong_eq(fmul(l1, u), fmul(v, l2));
}

pub proof fn lemma_fadd_comm_assoc(a: int, b: int, c: int)
    ensures
        fadd(a, b) == fadd(b, a),
        fadd(fadd(a, b), c) == fadd(a, fadd(b, c)),
{
    lemma_cong_ops(a, b);
    lemma_cong_ops(b, c);
    lemma_cong_ops(fadd(a, b), c);
    lemma_cong_ops(a, fadd(b, c));
    lemma_cong_add(fadd(a, b), c, a + b, c);
    lemma_cong_add(a, fadd(b, c), a, b + c);
    lemma_cong_eq(fadd(fadd(a, b), c), fadd(a, fadd(b, c)));
}

pub proof fn lemma_fmul_comm_assoc(a: int, b: int, c: int)
    ensures
        fmul(a, b) == fmul(b, a),
        fmul(fmul(a, b), c) == fmul(a, fmul(b, c)),
{
    lemma_cong_ops(a, b);
    lemma_cong_ops(b, c);
    lemma_cong_ops(fmul(a, b), c);
    lemma_cong_ops(a, fmul(b, c));
    lemma_cong_mul(fmul(a, b), c, a * b, c);
    lemma_cong_mul(a, fmul(b, c), a, b * c);
    assert((a * b) * c == a * (b * c)) by (nonlinear_arith);
    assert(a * b == b * a) by (nonlinear_arith);
    lemma_cong_eq(fmul(fmul(a, b), c), fmul(a, fmul(b, c)));
}

/// Multiplication distributes over addition.
pub proof fn lemma_fmul_distrib(a: int, b: int, c: int)
    ensures
        fmul(a, fadd(b, c)) == fadd(fmul(a, b), fmul(a, c)),
{
    lemma_cong_ops(b, c);
    lemma_cong_ops(a, fadd(b, c));
    lemma_cong_ops(a, b);
    lemma_cong_ops(a, c);
    lemma_cong_ops(fmul(a, b), fmul(a, c));
    lemma_cong_mul(a, fadd(b, c), a, b + c);
    lemma_cong_add(fmul(a, b), fmul(a, c), a * b, a * c);
    assert(a * (b + c) == a * b + a * c) by (nonlinear_arith);
    lemma_cong_eq(fmul(a, fadd(b, c)), fadd(fmul(a, b), fmul(a, c)));
}

/// Congruence through a field multiplication.
pub proof fn lemma_cong_fmul(a: int, b: int, ai: int, bi: int)
    requires
        cong(a, ai),
        cong(b, bi),
    ensures
        cong(fmul(a, b), ai * bi),
        0 <= fmul(a, b) < modulus(),
{
    lemma_cong_ops(a, b);
    lemma_cong_mul(a, b, ai, bi);
}

/// Congruence through a field addition.
pub proof fn lemma_cong_fadd(a: int, b: int, ai: int, bi: int)
    requires
        cong(a, ai),
        cong(b, bi),
    ensures
        cong(fadd(a, b), ai + bi),
        0 <= fadd(a, b) < modulus(),
{
    lemma_cong_ops(a, b);
    lemma_cong_add(a, b, ai, bi);
}

/// Congruence through a field subtraction.
pub proof fn lemma_cong_fsub(a: int, b: int, ai: int, bi: int)
    requires
        cong(a, ai),
        cong(b, bi),
    ensures
        cong(fsub(a, b), ai - bi),
        0 <= fsub(a, b) < modulus(),
{
    lemma_cong_ops(a, b);
    lemma_cong_sub(a, b, ai, bi);
}

/// Congruence through a field division: multiplication by the divisor's inverse.
pub proof fn lemma_cong_fdiv(a: int, b: int, ai: int)
    requires
        cong(a, ai),
    ensures
        cong(fdiv(a, b), ai * finv(b)),
        0 <= fdiv(a, b) < modulus(),
{
    lemma_cong_mod(finv(b));
    lemma_cong_fmul(a, finv(b), ai, finv(b));
}

} // verus!
