//! Correctness of Lagrange interpolation at zero over GF(p): the values of a polynomial of
//! degree below `n` at `n` points whose Lagrange denominators are invertible interpolate
//! to the polynomial's constant term.

use crate::algebra::{
    cong, lemma_canonical, lemma_cong_add, lemma_cong_cancel, lemma_cong_eq, lemma_cong_fadd,
    lemma_cong_fmul, lemma_cong_mod, lemma_cong_mul, lemma_cong_ops, lemma_cong_sub,
    lemma_fadd_comm_assoc, lemma_fdiv_mul, lemma_fdiv_one_one,
    lemma_fmul_comm_assoc, lemma_fmul_distrib, lemma_has_inverse_factor,
    lemma_has_inverse_product, lemma_inverse_nonzero, lemma_ratio_shift,
};
use crate::field::{
    fadd, fdiv, fmul, fsub, has_inverse, lemma_fsub_zero, modulus, modulus_is_field,
};
use crate::shamir::{
    interpolate_at_zero, lagrange_coefficient, lagrange_denominator, lagrange_numerator,
    poly_eval, poly_power_sum, prod_except,
};
use vstd::arithmetic::power::pow;
use vstd::prelude::*;

verus! {

/// The field sum of a sequence, added from the front.
pub open spec fn fsum(s: Seq<int>) -> int
    decreases s.len(),
{
    if s.len() == 0 {
        0
    } else {
        fadd(fsum(s.drop_last()), s.last())
    }
}

/// All points are canonical field values.
pub open spec fn canonical_points(xs: Seq<int>) -> bool {
    forall|i: int| 0 <= i < xs.len() ==> 0 <= #[trigger] xs[i] < modulus()
}

/// Every Lagrange denominator of the points is invertible.
pub open spec fn denominators_invertible(xs: Seq<int>) -> bool {
    forall|i: int| 0 <= i < xs.len() ==> has_inverse(#[trigger] lagrange_denominator(xs, i))
}

/// The points are pairwise distinct.
pub open spec fn distinct_points(xs: Seq<int>) -> bool {
    forall|i: int, j: int| 0 <= i < xs.len() && 0 <= j < xs.len() && i != j ==> xs[i] != xs[j]
}

/// The Lagrange coefficients at zero of the points.
pub open spec fn lagrange_coefficients(xs: Seq<int>) -> Seq<int> {
    Seq::new(xs.len(), |i: int| lagrange_coefficient(xs, i))
}

/// The terms of the interpolation sum.
pub open spec fn lagrange_terms(xs: Seq<int>, ys: Seq<int>) -> Seq<int> {
    Seq::new(xs.len(), |i: int| fmul(lagrange_coefficient(xs, i), ys[i]))
}

/// The values of the polynomial `c` at the points.
pub open spec fn evaluations(c: Seq<int>, xs: Seq<int>) -> Seq<int> {
    Seq::new(xs.len(), |i: int| poly_eval(c, xs[i]))
}

/// The quotient of the polynomial `c` by `x - b`.
pub open spec fn synthetic_division(c: Seq<int>, b: int) -> Seq<int>
    decreases c.len(),
{
    if c.len() <= 1 {
        Seq::empty()
    } else {
        seq![poly_eval(c.drop_first(), b)] + synthetic_division(c.drop_first(), b)
    }
}

// ---------------------------------------------------------------------------------------
// Sums
// ---------------------------------------------------------------------------------------

proof fn lemma_fsum_range(s: Seq<int>)
    ensures
        0 <= fsum(s) < modulus(),
{
    if s.len() > 0 {
        lemma_cong_ops(fsum(s.drop_last()), s.last());
    }
}

proof fn lemma_fsum_push(s: Seq<int>, x: int)
    ensures
        fsum(s.push(x)) == fadd(fsum(s), x),
{
    assert(s.push(x).drop_last() =~= s);
}

proof fn lemma_fsum_prepend(x: int, s: Seq<int>)
    ensures
        fsum(seq![x] + s) == fadd(x, fsum(s)),
    decreases s.len(),
{
    if s.len() == 0 {
        assert(seq![x] + s =~= Seq::<int>::empty().push(x));
        lemma_fsum_push(Seq::<int>::empty(), x);
        lemma_fadd_comm_assoc(0, x, 0);
    } else {
        let t = s.drop_last();
        assert(seq![x] + s =~= (seq![x] + t).push(s.last()));
        lemma_fsum_push(seq![x] + t, s.last());
        lemma_fsum_prepend(x, t);
        lemma_fadd_comm_assoc(x, fsum(t), s.last());
    }
}

/// A sequence with a zero in front sums as the sequence.
proof fn lemma_fsum_zero_front(s: Seq<int>)
    ensures
        fsum(seq![0] + s) == fsum(s),
{
    lemma_fsum_prepend(0, s);
    lemma_fsum_range(s);
    lemma_canonical(fsum(s));
}

/// A sequence with a zero at the end sums as the sequence.
proof fn lemma_fsum_zero_back(s: Seq<int>)
    ensures
        fsum(s.push(0)) == fsum(s),
{
    lemma_fsum_push(s, 0);
    lemma_fsum_range(s);
    lemma_canonical(fsum(s));
}

/// The sum of pointwise sums is the sum of the sums.
proof fn lemma_fsum_add(s1: Seq<int>, s2: Seq<int>, s3: Seq<int>)
    requires
        s1.len() == s2.len(),
        s3.len() == s1.len(),
        forall|i: int| 0 <= i < s3.len() ==> #[trigger] s3[i] == fadd(s1[i], s2[i]),
    ensures
        fsum(s3) == fadd(fsum(s1), fsum(s2)),
    decreases s3.len(),
{
    if s3.len() == 0 {
        lemma_canonical(0);
    } else {
        let n = s3.len() - 1;
        lemma_fsum_add(s1.drop_last(), s2.drop_last(), s3.drop_last());
        let a = fsum(s1.drop_last());
        let b = fsum(s2.drop_last());
        let x = s1.last();
        let y = s2.last();
        assert(s3.last() == fadd(x, y));
        // (a + b) + (x + y) = (a + x) + (b + y)
        lemma_cong_ops(a, b);
        lemma_cong_ops(x, y);
        lemma_cong_ops(a, x);
        lemma_cong_ops(b, y);
        lemma_cong_ops(fadd(a, b), fadd(x, y));
        lemma_cong_ops(fadd(a, x), fadd(b, y));
        lemma_cong_add(fadd(a, b), fadd(x, y), a + b, x + y);
        lemma_cong_add(fadd(a, x), fadd(b, y), a + x, b + y);
        lemma_cong_eq(fadd(fadd(a, b), fadd(x, y)), fadd(fadd(a, x), fadd(b, y)));
    }
}

/// The sum of pointwise differences is the difference of the sums.
proof fn lemma_fsum_sub(s1: Seq<int>, s2: Seq<int>, s3: Seq<int>)
    requires
        s1.len() == s2.len(),
        s3.len() == s1.len(),
        forall|i: int| 0 <= i < s3.len() ==> #[trigger] s3[i] == fsub(s1[i], s2[i]),
    ensures
        fsum(s3) == fsub(fsum(s1), fsum(s2)),
    decreases s3.len(),
{
    if s3.len() == 0 {
        lemma_canonical(0);
    } else {
        lemma_fsum_sub(s1.drop_last(), s2.drop_last(), s3.drop_last());
        let a = fsum(s1.drop_last());
        let b = fsum(s2.drop_last());
        let x = s1.last();
        let y = s2.last();
        assert(s3.last() == fsub(x, y));
        lemma_cong_ops(a, b);
        lemma_cong_ops(x, y);
        lemma_cong_ops(a, x);
        lemma_cong_ops(b, y);
        lemma_cong_ops(fsub(a, b), fsub(x, y));
        lemma_cong_ops(fadd(a, x), fadd(b, y));
        lemma_cong_add(fsub(a, b), fsub(x, y), a - b, x - y);
        lemma_cong_sub(fadd(a, x), fadd(b, y), a + x, b + y);
        lemma_cong_eq(fadd(fsub(a, b), fsub(x, y)), fsub(fadd(a, x), fadd(b, y)));
    }
}

/// Scaling every element scales the sum.
proof fn lemma_fsum_scale(c: int, s1: Seq<int>, s2: Seq<int>)
    requires
        s2.len() == s1.len(),
        forall|i: int| 0 <= i < s2.len() ==> #[trigger] s2[i] == fmul(c, s1[i]),
    ensures
        fsum(s2) == fmul(c, fsum(s1)),
    decreases s2.len(),
{
    if s2.len() == 0 {
        lemma_cong_ops(c, 0);
        lemma_canonical(0);
    } else {
        lemma_fsum_scale(c, s1.drop_last(), s2.drop_last());
        assert(s2.last() == fmul(c, s1.last()));
        lemma_fmul_distrib(c, fsum(s1.drop_last()), s1.last());
    }
}

/// The interpolation sum over the first `k` shares is the sum of the first `k` terms.
pub proof fn lemma_interpolate_fsum(xs: Seq<int>, ys: Seq<int>, k: int)
    requires
        0 <= k <= xs.len(),
    ensures
        interpolate_at_zero(xs, ys, k) == fsum(lagrange_terms(xs, ys).take(k)),
    decreases k,
{
    if k > 0 {
        lemma_interpolate_fsum(xs, ys, k - 1);
        assert(lagrange_terms(xs, ys).take(k).drop_last() =~= lagrange_terms(xs, ys).take(k - 1));
    }
}

// ---------------------------------------------------------------------------------------
// Products
// ---------------------------------------------------------------------------------------

proof fn lemma_prod_range(xs: Seq<int>, i: int, t: int, k: int)
    ensures
        0 <= prod_except(xs, i, t, k) < modulus(),
    decreases k,
{
    if k <= 0 {
        lemma_canonical(1);
    } else if k - 1 == i {
        lemma_prod_range(xs, i, t, k - 1);
    } else {
        lemma_cong_ops(prod_except(xs, i, t, k - 1), fsub(t, xs[k - 1]));
    }
}

/// A product over the first `k` points depends only on those points.
proof fn lemma_prod_prefix(xs: Seq<int>, ys: Seq<int>, i: int, t: int, k: int)
    requires
        0 <= k <= xs.len(),
        k <= ys.len(),
        forall|j: int| 0 <= j < k ==> xs[j] == ys[j],
    ensures
        prod_except(xs, i, t, k) == prod_except(ys, i, t, k),
    decreases k,
{
    if k > 0 {
        lemma_prod_prefix(xs, ys, i, t, k - 1);
    }
}

/// Removing the first point: its factor comes out in front.
proof fn lemma_prod_drop_first(xs: Seq<int>, i: int, t: int, k: int)
    requires
        1 <= k <= xs.len(),
    ensures
        prod_except(xs, i, t, k) == if i == 0 {
            prod_except(xs.drop_first(), -1, t, k - 1)
        } else {
            fmul(fsub(t, xs[0]), prod_except(xs.drop_first(), i - 1, t, k - 1))
        },
    decreases k,
{
    let ys = xs.drop_first();
    let f0 = fsub(t, xs[0]);
    reveal_with_fuel(prod_except, 2);
    if k == 1 {
        lemma_cong_ops(t, xs[0]);
        crate::field::lemma_fmul_one(f0);
    } else {
        lemma_prod_drop_first(xs, i, t, k - 1);
        if k - 1 == i {
        } else if i == 0 {
            assert(ys[k - 2] == xs[k - 1]);
        } else {
            assert(ys[k - 2] == xs[k - 1]);
            lemma_fmul_comm_assoc(f0, prod_except(ys, i - 1, t, k - 2), fsub(t, xs[k - 1]));
        }
    }
}

/// Relations between the Lagrange coefficient of a point and those of the point sets with
/// the first or the last point removed.
proof fn lemma_coefficient_relations(xs: Seq<int>, i: int)
    requires
        xs.len() >= 2,
        0 <= i < xs.len(),
        has_inverse(lagrange_denominator(xs, i)),
    ensures
        i < xs.len() - 1 ==> has_inverse(lagrange_denominator(xs.drop_last(), i)),
        i < xs.len() - 1 ==> fmul(lagrange_coefficient(xs, i), fsub(xs[i], xs.last())) == fmul(
            fsub(0, xs.last()),
            lagrange_coefficient(xs.drop_last(), i),
        ),
        i >= 1 ==> has_inverse(lagrange_denominator(xs.drop_first(), i - 1)),
        i >= 1 ==> fmul(lagrange_coefficient(xs, i), fsub(xs[i], xs[0])) == fmul(
            fsub(0, xs[0]),
            lagrange_coefficient(xs.drop_first(), i - 1),
        ),
{
    let n = xs.len() as int;
    let b = xs.last();
    let a = xs[0];
    if i < n - 1 {
        let bs = xs.drop_last();
        lemma_prod_prefix(xs, bs, i, 0, n - 1);
        lemma_prod_prefix(xs, bs, i, xs[i], n - 1);
        assert(bs[i] == xs[i]);
        lemma_ratio_shift(
            lagrange_numerator(xs, i),
            lagrange_denominator(xs, i),
            lagrange_numerator(bs, i),
            lagrange_denominator(bs, i),
            fsub(xs[i], b),
            fsub(0, b),
        );
    }
    if i >= 1 {
        let as_ = xs.drop_first();
        lemma_prod_drop_first(xs, i, 0, n);
        lemma_prod_drop_first(xs, i, xs[i], n);
        assert(as_[i - 1] == xs[i]);
        lemma_fmul_comm_assoc(fsub(0, a), lagrange_numerator(as_, i - 1), 0);
        lemma_fmul_comm_assoc(fsub(xs[i], a), lagrange_denominator(as_, i - 1), 0);
        lemma_ratio_shift(
            lagrange_numerator(xs, i),
            lagrange_denominator(xs, i),
            lagrange_numerator(as_, i - 1),
            lagrange_denominator(as_, i - 1),
            fsub(xs[i], a),
            fsub(0, a),
        );
    }
}

/// Invertible denominators stay invertible when the first or the last point is removed.
proof fn lemma_denominators_invertible_sub(xs: Seq<int>)
    requires
        xs.len() >= 2,
        denominators_invertible(xs),
    ensures
        denominators_invertible(xs.drop_last()),
        denominators_invertible(xs.drop_first()),
{
    assert forall|i: int| 0 <= i < xs.drop_last().len() implies has_inverse(
        #[trigger] lagrange_denominator(xs.drop_last(), i),
    ) by {
        lemma_coefficient_relations(xs, i);
    }
    assert forall|i: int| 0 <= i < xs.drop_first().len() implies has_inverse(
        #[trigger] lagrange_denominator(xs.drop_first(), i),
    ) by {
        lemma_coefficient_relations(xs, i + 1);
    }
}

// ---------------------------------------------------------------------------------------
// The two interpolation theorems
// ---------------------------------------------------------------------------------------

/// Each Lagrange coefficient times the offset of its point from `o`.
pub open spec fn offset_terms(xs: Seq<int>, o: int) -> Seq<int> {
    Seq::new(xs.len(), |i: int| fmul(lagrange_coefficient(xs, i), fsub(xs[i], o)))
}

/// Offsets from the first point: the coefficients of the remaining points, scaled by `-a`.
proof fn lemma_front_offset_sum(xs: Seq<int>)
    requires
        xs.len() >= 2,
        canonical_points(xs),
        denominators_invertible(xs),
    ensures
        fsum(offset_terms(xs, xs[0])) == fmul(
            fsub(0, xs[0]),
            fsum(lagrange_coefficients(xs.drop_first())),
        ),
{
    let n = xs.len() as int;
    let a = xs[0];
    let u = offset_terms(xs, a);
    let la = lagrange_coefficients(xs.drop_first());
    let su = Seq::new((n - 1) as nat, |j: int| fmul(fsub(0, a), la[j]));
    assert forall|i: int| 0 <= i < n implies #[trigger] u[i] == (seq![0] + su)[i] by {
        lemma_coefficient_relations(xs, i);
        if i == 0 {
            lemma_fsub_zero(a, a);
            lemma_cong_ops(lagrange_coefficient(xs, 0), 0);
            lemma_canonical(0);
        }
    }
    assert(u =~= seq![0] + su);
    lemma_fsum_zero_front(su);
    lemma_fsum_scale(fsub(0, a), la, su);
}

/// Offsets from the last point: the coefficients of the other points, scaled by `-b`.
proof fn lemma_back_offset_sum(xs: Seq<int>)
    requires
        xs.len() >= 2,
        canonical_points(xs),
        denominators_invertible(xs),
    ensures
        fsum(offset_terms(xs, xs.last())) == fmul(
            fsub(0, xs.last()),
            fsum(lagrange_coefficients(xs.drop_last())),
        ),
{
    let n = xs.len() as int;
    let b = xs.last();
    let v = offset_terms(xs, b);
    let lb = lagrange_coefficients(xs.drop_last());
    let sv = Seq::new((n - 1) as nat, |j: int| fmul(fsub(0, b), lb[j]));
    assert forall|i: int| 0 <= i < n implies #[trigger] v[i] == sv.push(0)[i] by {
        lemma_coefficient_relations(xs, i);
        if i == n - 1 {
            lemma_fsub_zero(b, b);
            lemma_cong_ops(lagrange_coefficient(xs, i), 0);
            lemma_canonical(0);
        }
    }
    assert(v =~= sv.push(0));
    lemma_fsum_zero_back(sv);
    lemma_fsum_scale(fsub(0, b), lb, sv);
}

/// The difference of the two offset sums is the coefficient sum scaled by `b - a`.
proof fn lemma_offset_difference(xs: Seq<int>, a: int, b: int)
    requires
        canonical_points(xs),
    ensures
        fsub(fsum(offset_terms(xs, a)), fsum(offset_terms(xs, b))) == fmul(
            fsub(b, a),
            fsum(lagrange_coefficients(xs)),
        ),
{
    let n = xs.len() as int;
    let l = lagrange_coefficients(xs);
    let u = offset_terms(xs, a);
    let v = offset_terms(xs, b);
    let w = Seq::new(n as nat, |i: int| fmul(fsub(b, a), l[i]));
    assert forall|i: int| 0 <= i < n implies #[trigger] w[i] == fsub(u[i], v[i]) by {
        let x = xs[i];
        let li = l[i];
        lemma_cong_ops(x, a);
        lemma_cong_ops(x, b);
        lemma_cong_ops(b, a);
        lemma_cong_ops(li, fsub(x, a));
        lemma_cong_ops(li, fsub(x, b));
        lemma_cong_ops(fsub(b, a), li);
        lemma_cong_ops(u[i], v[i]);
        lemma_cong_mul(li, fsub(x, a), li, x - a);
        lemma_cong_mul(li, fsub(x, b), li, x - b);
        lemma_cong_mul(fsub(b, a), li, b - a, li);
        lemma_cong_sub(u[i], v[i], li * (x - a), li * (x - b));
        assert(li * (x - a) - li * (x - b) == (b - a) * li) by (nonlinear_arith);
        lemma_cong_eq(w[i], fsub(u[i], v[i]));
    }
    lemma_fsum_sub(u, v, w);
    lemma_fsum_scale(fsub(b, a), l, w);
}

/// The Lagrange coefficients at zero sum to one.
pub proof fn lemma_coefficients_sum_to_one(xs: Seq<int>)
    requires
        xs.len() >= 1,
        canonical_points(xs),
        denominators_invertible(xs),
    ensures
        fsum(lagrange_coefficients(xs)) == 1,
    decreases xs.len(),
{
    let n = xs.len() as int;
    let l = lagrange_coefficients(xs);
    if n == 1 {
        reveal_with_fuel(prod_except, 2);
        assert(lagrange_numerator(xs, 0) == 1);
        assert(lagrange_denominator(xs, 0) == 1);
        lemma_fdiv_one_one();
        assert(l =~= Seq::<int>::empty().push(1));
        lemma_fsum_push(Seq::<int>::empty(), 1);
        lemma_canonical(1);
    } else {
        let a = xs[0];
        let b = xs[n - 1];
        let as_ = xs.drop_first();
        lemma_denominators_invertible_sub(xs);
        lemma_coefficients_sum_to_one(as_);
        lemma_coefficients_sum_to_one(xs.drop_last());
        lemma_front_offset_sum(xs);
        lemma_back_offset_sum(xs);
        lemma_offset_difference(xs, a, b);
        lemma_cong_ops(0, a);
        lemma_cong_ops(0, b);
        crate::field::lemma_fmul_one(fsub(0, a));
        crate::field::lemma_fmul_one(fsub(0, b));
        // (0 - a) - (0 - b) = b - a
        lemma_cong_ops(fsub(0, a), fsub(0, b));
        lemma_cong_ops(b, a);
        lemma_cong_sub(fsub(0, a), fsub(0, b), 0 - a, 0 - b);
        lemma_cong_eq(fsub(fsub(0, a), fsub(0, b)), fsub(b, a));
        // cancel b - a, a factor of the last denominator
        lemma_prod_drop_first(xs, n - 1, b, n);
        assert(has_inverse(lagrange_denominator(xs, n - 1)));
        lemma_has_inverse_factor(fsub(b, a), lagrange_denominator(as_, n - 2));
        lemma_fsum_range(l);
        lemma_cong_ops(fsub(b, a), fsum(l));
        assert(cong(fsum(l) * fsub(b, a), 1 * fsub(b, a))) by {
            lemma_canonical(fsub(b, a));
            assert(fsum(l) * fsub(b, a) == fsub(b, a) * fsum(l)) by (nonlinear_arith);
        }
        lemma_cong_cancel(fsum(l), 1, fsub(b, a));
        lemma_canonical(1);
        lemma_cong_eq(fsum(l), 1);
    }
}

/// Synthetic division: `c(x) = c(b) + (x - b) q(x)`, with `q` one coefficient shorter.
pub proof fn lemma_synthetic_division(c: Seq<int>, b: int, x: int)
    ensures
        synthetic_division(c, b).len() == if c.len() == 0 {
            0
        } else {
            c.len() - 1
        },
        poly_eval(c, x) == fadd(
            poly_eval(c, b),
            fmul(fsub(x, b), poly_eval(synthetic_division(c, b), x)),
        ),
    decreases c.len(),
{
    let q = synthetic_division(c, b);
    if c.len() <= 1 {
        let e = poly_eval(c, x);
        assert(poly_eval(q, x) == 0);
        lemma_cong_ops(fsub(x, b), 0);
        lemma_canonical(0);
        if c.len() == 1 {
            assert(c.drop_first() =~= Seq::<int>::empty());
            lemma_cong_ops(0, x);
            lemma_cong_ops(0, b);
            lemma_cong_ops(0, c[0]);
        }
        lemma_cong_ops(poly_eval(c, b), 0);
        lemma_cong_ops(0, x);
        if c.len() == 0 {
            lemma_canonical(0);
        } else {
            lemma_cong_ops(c[0], 0);
            lemma_canonical(fadd(0, c[0]));
        }
    } else {
        let c1 = c.drop_first();
        let q1 = synthetic_division(c1, b);
        lemma_synthetic_division(c1, b, x);
        assert(q.drop_first() =~= q1);
        let p1b = poly_eval(c1, b);
        let p1x = poly_eval(c1, x);
        let q1x = poly_eval(q1, x);
        let qx = poly_eval(q, x);
        let c0 = c[0];
        // p1x ~ p1b + (x - b) q1x
        lemma_cong_ops(x, b);
        lemma_cong_ops(fsub(x, b), q1x);
        lemma_cong_ops(p1b, fmul(fsub(x, b), q1x));
        lemma_cong_mul(fsub(x, b), q1x, x - b, q1x);
        lemma_cong_add(p1b, fmul(fsub(x, b), q1x), p1b, (x - b) * q1x);
        // lhs = p1x x + c0
        lemma_cong_ops(p1x, x);
        lemma_cong_ops(fmul(p1x, x), c0);
        lemma_cong_mul(p1x, x, p1b + (x - b) * q1x, x);
        lemma_cong_add(fmul(p1x, x), c0, (p1b + (x - b) * q1x) * x, c0);
        // qx = q1x x + p1b
        lemma_cong_ops(q1x, x);
        lemma_cong_ops(fmul(q1x, x), p1b);
        lemma_cong_add(fmul(q1x, x), p1b, q1x * x, p1b);
        // c(b) = p1b b + c0
        lemma_cong_ops(p1b, b);
        lemma_cong_ops(fmul(p1b, b), c0);
        lemma_cong_add(fmul(p1b, b), c0, p1b * b, c0);
        // rhs = c(b) + (x - b) qx
        lemma_cong_ops(fsub(x, b), qx);
        lemma_cong_mul(fsub(x, b), qx, x - b, q1x * x + p1b);
        lemma_cong_ops(poly_eval(c, b), fmul(fsub(x, b), qx));
        lemma_cong_add(
            poly_eval(c, b),
            fmul(fsub(x, b), qx),
            p1b * b + c0,
            (x - b) * (q1x * x + p1b),
        );
        assert((p1b + (x - b) * q1x) * x + c0 == (p1b * b + c0) + (x - b) * (q1x * x + p1b))
            by (nonlinear_arith);
        lemma_cong_eq(poly_eval(c, x), fadd(poly_eval(c, b), fmul(fsub(x, b), qx)));
    }
}

/// Lagrange interpolation at zero recovers the constant term of a polynomial of degree
/// below the number of points.
pub proof fn lemma_interpolation(xs: Seq<int>, c: Seq<int>)
    requires
        canonical_points(xs),
        denominators_invertible(xs),
        c.len() <= xs.len(),
    ensures
        fsum(lagrange_terms(xs, evaluations(c, xs))) == poly_eval(c, 0),
    decreases xs.len(),
{
    let n = xs.len() as int;
    let ys = evaluations(c, xs);
    let t = lagrange_terms(xs, ys);
    if n == 0 {
        assert(c =~= Seq::<int>::empty());
    } else {
        let b = xs[n - 1];
        let bs = xs.drop_last();
        let q = synthetic_division(c, b);
        lemma_synthetic_division(c, b, 0);
        if n >= 2 {
            lemma_denominators_invertible_sub(xs);
        } else {
            assert(denominators_invertible(bs));
        }
        assert(canonical_points(bs));
        lemma_interpolation(bs, q);
        lemma_coefficients_sum_to_one(xs);
        let l = lagrange_coefficients(xs);
        let fb = poly_eval(c, b);
        let tb = lagrange_terms(bs, evaluations(q, bs));
        let s1 = Seq::new(n as nat, |i: int| fmul(fb, l[i]));
        let s2 = Seq::new(n as nat, |i: int| fmul(fmul(l[i], fsub(xs[i], b)), poly_eval(q, xs[i])));
        let s3 = Seq::new((n - 1) as nat, |j: int| fmul(fsub(0, b), tb[j]));
        assert forall|i: int| 0 <= i < n implies #[trigger] t[i] == fadd(s1[i], s2[i]) by {
            let x = xs[i];
            lemma_synthetic_division(c, b, x);
            lemma_fmul_distrib(l[i], fb, fmul(fsub(x, b), poly_eval(q, x)));
            lemma_fmul_comm_assoc(l[i], fb, 0);
            lemma_fmul_comm_assoc(l[i], fsub(x, b), poly_eval(q, x));
        }
        lemma_fsum_add(s1, s2, t);
        lemma_fsum_scale(fb, l, s1);
        lemma_cong_ops(0, 0);
        lemma_cong_ops(fb, 1);
        assert(0 <= fb < modulus()) by {
            if c.len() > 0 {
                lemma_cong_ops(fmul(poly_eval(c.drop_first(), b), b), c[0]);
            }
        }
        lemma_canonical(fb);
        assert forall|i: int| 0 <= i < n implies #[trigger] s2[i] == s3.push(0)[i] by {
            assert(l[i] == lagrange_coefficient(xs, i));
            assert(s2[i] == fmul(fmul(l[i], fsub(xs[i], b)), poly_eval(q, xs[i])));
            if n >= 2 {
                lemma_coefficient_relations(xs, i);
            }
            if i == n - 1 {
                assert(s3.push(0)[i] == 0);
                assert(xs[i] == b);
                lemma_fsub_zero(b, b);
                lemma_cong_ops(l[i], 0);
                lemma_cong_ops(0, poly_eval(q, b));
                lemma_canonical(0);
            } else {
                assert(bs[i] == xs[i]);
                assert(xs.last() == b);
                assert(s3.push(0)[i] == s3[i]);
                assert(tb[i] == fmul(lagrange_coefficient(bs, i), poly_eval(q, xs[i])));
                lemma_fmul_comm_assoc(
                    fsub(0, b),
                    lagrange_coefficient(bs, i),
                    poly_eval(q, xs[i]),
                );
            }
        }
        assert(s2 =~= s3.push(0));
        lemma_fsum_zero_back(s3);
        lemma_fsum_scale(fsub(0, b), tb, s3);
    }
}

// ---------------------------------------------------------------------------------------
// Distinct points
// ---------------------------------------------------------------------------------------

/// Over the field, products of differences of distinct points are invertible.
proof fn lemma_prod_invertible(xs: Seq<int>, i: int, k: int)
    requires
        modulus_is_field(),
        canonical_points(xs),
        distinct_points(xs),
        0 <= i < xs.len(),
        0 <= k <= xs.len(),
    ensures
        has_inverse(prod_except(xs, i, xs[i], k)),
    decreases k,
{
    if k == 0 {
        lemma_canonical(1);
        assert(crate::field::is_inverse(1, 1));
    } else {
        lemma_prod_invertible(xs, i, k - 1);
        if k - 1 != i {
            lemma_fsub_zero(xs[i], xs[k - 1]);
            lemma_cong_ops(xs[i], xs[k - 1]);
            assert(has_inverse(fsub(xs[i], xs[k - 1])));
            lemma_has_inverse_product(prod_except(xs, i, xs[i], k - 1), fsub(xs[i], xs[k - 1]));
        }
    }
}

/// Over the field, the Lagrange denominators of distinct canonical points are invertible
/// and so nonzero.
pub proof fn lemma_distinct_points_denominators(xs: Seq<int>)
    requires
        modulus_is_field(),
        canonical_points(xs),
        distinct_points(xs),
    ensures
        denominators_invertible(xs),
        crate::shamir::denominators_nonzero(xs),
{
    assert forall|i: int| 0 <= i < xs.len() implies has_inverse(
        #[trigger] lagrange_denominator(xs, i),
    ) && lagrange_denominator(xs, i) != 0 by {
        lemma_prod_invertible(xs, i, xs.len() as int);
        lemma_inverse_nonzero(lagrange_denominator(xs, i));
        lemma_prod_range(xs, i, xs[i], xs.len() as int);
        lemma_canonical(lagrange_denominator(xs, i));
    }
}

/// The constant term of a polynomial is its value at zero.
pub proof fn lemma_poly_eval_zero(c: Seq<int>)
    requires
        c.len() >= 1,
    ensures
        poly_eval(c, 0) == c[0] % modulus(),
{
    lemma_cong_ops(poly_eval(c.drop_first(), 0), 0);
    lemma_canonical(0);
}

/// Shamir reconstruction: over the field, the values at distinct points of a polynomial of
/// degree below the number of points interpolate at zero to the polynomial's constant term.
pub proof fn lemma_reconstruction_recovers_secret(xs: Seq<int>, c: Seq<int>)
    requires
        modulus_is_field(),
        canonical_points(xs),
        distinct_points(xs),
        c.len() <= xs.len(),
    ensures
        interpolate_at_zero(xs, evaluations(c, xs), xs.len() as int) == poly_eval(c, 0),
        c.len() >= 1 ==> poly_eval(c, 0) == c[0] % modulus(),
{
    lemma_distinct_points_denominators(xs);
    lemma_interpolation(xs, c);
    lemma_interpolate_fsum(xs, evaluations(c, xs), xs.len() as int);
    assert(lagrange_terms(xs, evaluations(c, xs)).take(xs.len() as int) =~= lagrange_terms(
        xs,
        evaluations(c, xs),
    ));
    if c.len() >= 1 {
        lemma_poly_eval_zero(c);
    }
}

// ---------------------------------------------------------------------------------------
// Polynomials
// ---------------------------------------------------------------------------------------

/// A two-coefficient polynomial at `x`.
pub proof fn lemma_linear_eval(u: int, v: int, x: int)
    ensures
        cong(poly_eval(seq![u, v], x), u + v * x),
        0 <= poly_eval(seq![u, v], x) < modulus(),
{
    let c = seq![u, v];
    assert(c.drop_first() =~= seq![v]);
    assert(seq![v].drop_first() =~= Seq::<int>::empty());
    assert(poly_eval(Seq::<int>::empty(), x) == 0);
    let pv = poly_eval(seq![v], x);
    assert(pv == fadd(fmul(0, x), v));
    lemma_cong_fmul(0, x, 0, x);
    lemma_cong_fadd(fmul(0, x), v, 0, v);
    lemma_cong_fmul(pv, x, v, x);
    lemma_cong_fadd(fmul(pv, x), u, v * x, u);
}

/// The power sum of a polynomial with at least one coefficient: the constant term plus `x`
/// times the power sum of the other coefficients.
proof fn lemma_power_sum_front(c: Seq<int>, x: int)
    requires
        c.len() >= 1,
    ensures
        poly_power_sum(c, x) == c[0] + x * poly_power_sum(c.drop_first(), x),
    decreases c.len(),
{
    let n = c.len();
    reveal(pow);
    if n == 1 {
        assert(c.drop_last() =~= Seq::<int>::empty());
        assert(c.drop_first() =~= Seq::<int>::empty());
        assert(pow(x, 0) == 1);
        assert(c.last() * 1 == c[0]);
    } else {
        let t = c.drop_last();
        let f = c.drop_first();
        lemma_power_sum_front(t, x);
        assert(t.drop_first() =~= f.drop_last());
        assert(f.last() == c.last());
        let ps = poly_power_sum(f.drop_last(), x);
        let e = (n - 2) as nat;
        assert(pow(x, (n - 1) as nat) == x * pow(x, e));
        assert(poly_power_sum(f, x) == ps + c.last() * pow(x, e));
        assert(x * (ps + c.last() * pow(x, e)) == x * ps + c.last() * (x * pow(x, e)))
            by (nonlinear_arith);
    }
}

/// Horner evaluation is the power sum `c[0] + c[1] x + c[2] x^2 + ...` reduced modulo p.
pub proof fn lemma_poly_eval_power_sum(c: Seq<int>, x: int)
    ensures
        poly_eval(c, x) == poly_power_sum(c, x) % modulus(),
    decreases c.len(),
{
    if c.len() == 0 {
        lemma_canonical(0);
    } else {
        let f = c.drop_first();
        lemma_poly_eval_power_sum(f, x);
        lemma_power_sum_front(c, x);
        let pf = poly_power_sum(f, x);
        let e = poly_eval(f, x);
        lemma_cong_mod(pf);
        lemma_cong_fmul(e, x, pf, x);
        lemma_cong_fadd(fmul(e, x), c[0], pf * x, c[0]);
        assert(pf * x + c[0] == c[0] + x * pf) by (nonlinear_arith);
        lemma_cong_mod(poly_power_sum(c, x));
        lemma_cong_eq(poly_eval(c, x), poly_power_sum(c, x) % modulus());
    }
}

/// One share of a two-share sharing says nothing of the secret: at a point `x0` with an
/// inverse, the share of secret `s` with coefficient `a` equals the share of any other
/// secret `s2` with coefficient `a + (s - s2) / x0`; a uniform coefficient gives a uniform
/// share whatever the secret.
pub proof fn lemma_single_share_hides_secret(s: int, s2: int, a: int, x0: int)
    requires
        has_inverse(x0),
    ensures
        poly_eval(seq![s, a], x0) == poly_eval(seq![s2, fadd(a, fdiv(fsub(s, s2), x0))], x0),
{
    let n = fsub(s, s2);
    let q = fdiv(n, x0);
    let a2 = fadd(a, q);
    lemma_linear_eval(s, a, x0);
    lemma_linear_eval(s2, a2, x0);
    lemma_cong_ops(a, q);
    lemma_cong_mul(a2, x0, a + q, x0);
    assert((a + q) * x0 == a * x0 + q * x0) by (nonlinear_arith);
    lemma_fdiv_mul(n, x0);
    lemma_cong_ops(s, s2);
    lemma_cong_add(a * x0, q * x0, a * x0, s - s2);
    lemma_cong_add(s2, a2 * x0, s2, a * x0 + (s - s2));
    assert(s2 + (a * x0 + (s - s2)) == s + a * x0);
    lemma_cong_eq(poly_eval(seq![s, a], x0), poly_eval(seq![s2, a2], x0));
}

/// Reconstruction is linear: interpolating the pointwise combination `a y + b z` of two
/// value sequences at the same points gives `a` times the interpolation of `y` plus `b`
/// times that of `z`.
pub proof fn lemma_interpolation_linear(
    xs: Seq<int>,
    ys: Seq<int>,
    zs: Seq<int>,
    us: Seq<int>,
    a: int,
    b: int,
    k: int,
)
    requires
        0 <= k <= ys.len(),
        k <= zs.len(),
        k <= us.len(),
        forall|i: int| 0 <= i < k ==> #[trigger] us[i] == fadd(fmul(a, ys[i]), fmul(b, zs[i])),
    ensures
        interpolate_at_zero(xs, us, k) == fadd(
            fmul(a, interpolate_at_zero(xs, ys, k)),
            fmul(b, interpolate_at_zero(xs, zs, k)),
        ),
    decreases k,
{
    if k == 0 {
        lemma_canonical(0);
        lemma_cong_ops(a, 0);
        lemma_cong_ops(b, 0);
        lemma_cong_ops(fmul(a, 0), fmul(b, 0));
        assert(a * 0 == 0);
        assert(b * 0 == 0);
    } else {
        lemma_interpolation_linear(xs, ys, zs, us, a, b, k - 1);
        let l = lagrange_coefficient(xs, k - 1);
        let iy = interpolate_at_zero(xs, ys, k - 1);
        let iz = interpolate_at_zero(xs, zs, k - 1);
        let iu = interpolate_at_zero(xs, us, k - 1);
        let y = ys[k - 1];
        let z = zs[k - 1];
        let u = us[k - 1];
        // the left side
        lemma_cong_ops(a, iy);
        lemma_cong_ops(b, iz);
        lemma_cong_fadd(fmul(a, iy), fmul(b, iz), a * iy, b * iz);
        lemma_cong_ops(a, y);
        lemma_cong_ops(b, z);
        lemma_cong_fadd(fmul(a, y), fmul(b, z), a * y, b * z);
        lemma_cong_fmul(l, u, l, a * y + b * z);
        lemma_cong_fadd(iu, fmul(l, u), a * iy + b * iz, l * (a * y + b * z));
        // the right side
        let jy = interpolate_at_zero(xs, ys, k);
        let jz = interpolate_at_zero(xs, zs, k);
        lemma_cong_ops(l, y);
        lemma_cong_ops(l, z);
        lemma_cong_fadd(iy, fmul(l, y), iy, l * y);
        lemma_cong_fadd(iz, fmul(l, z), iz, l * z);
        lemma_cong_fmul(a, jy, a, iy + l * y);
        lemma_cong_fmul(b, jz, b, iz + l * z);
        lemma_cong_fadd(fmul(a, jy), fmul(b, jz), a * (iy + l * y), b * (iz + l * z));
        assert(l * (a * y + b * z) == l * (a * y) + l * (b * z)) by (nonlinear_arith);
        assert(a * (iy + l * y) == a * iy + a * (l * y)) by (nonlinear_arith);
        assert(b * (iz + l * z) == b * iz + b * (l * z)) by (nonlinear_arith);
        assert(l * (a * y) == a * (l * y)) by (nonlinear_arith);
        assert(l * (b * z) == b * (l * z)) by (nonlinear_arith);
        lemma_cong_eq(interpolate_at_zero(xs, us, k), fadd(fmul(a, jy), fmul(b, jz)));
    }
}

} // verus!
