//! Shamir secret sharing over GF(p): split a secret into evaluations of a random polynomial
//! whose constant term is the secret, and reconstruct the secret by Lagrange interpolation
//! at zero.

use crate::field::{
    ark_rand, fadd, fdiv, fmul, fsub, has_inverse, lemma_field_element_range, modulus,
    FieldElement,
};
use crate::lagrange::{
    denominators_invertible, evaluations, lagrange_terms, lemma_interpolate_fsum,
    lemma_interpolation,
};
use rand_chacha::ChaCha20Rng;
use vstd::arithmetic::power::pow;
use vstd::prelude::*;

verus! {

/// One share: the evaluation point `x` and the polynomial's value `y` there.
#[derive(Clone, Copy, Debug, PartialEq, Eq)]
pub struct Share {
    pub x: FieldElement,
    pub y: FieldElement,
}

/// The values of a sequence of field elements.
pub open spec fn values(s: Seq<FieldElement>) -> Seq<int> {
    s.map_values(|e: FieldElement| e@)
}

/// The evaluation points of a sequence of shares.
pub open spec fn share_xs(s: Seq<Share>) -> Seq<int> {
    s.map_values(|sh: Share| sh.x@)
}

/// The values of a sequence of shares.
pub open spec fn share_ys(s: Seq<Share>) -> Seq<int> {
    s.map_values(|sh: Share| sh.y@)
}

/// The polynomial `c[0] + c[1] x + c[2] x^2 + ...` at `x`, in Horner form over GF(p).
pub open spec fn poly_eval(c: Seq<int>, x: int) -> int
    decreases c.len(),
{
    if c.len() == 0 {
        0
    } else {
        fadd(fmul(poly_eval(c.drop_first(), x), x), c[0])
    }
}

/// The polynomial `c[0] + c[1] x + c[2] x^2 + ...` at `x`, as a sum of powers over the
/// integers.
pub open spec fn poly_power_sum(c: Seq<int>, x: int) -> int
    decreases c.len(),
{
    if c.len() == 0 {
        0
    } else {
        poly_power_sum(c.drop_last(), x) + c.last() * pow(x, (c.len() - 1) as nat)
    }
}

/// The product, over the indices `j < k` other than `i`, of `t - xs[j]` in GF(p), taken in
/// increasing order of `j`.
pub open spec fn prod_except(xs: Seq<int>, i: int, t: int, k: int) -> int
    decreases k,
{
    if k <= 0 {
        1
    } else if k - 1 == i {
        prod_except(xs, i, t, k - 1)
    } else {
        fmul(prod_except(xs, i, t, k - 1), fsub(t, xs[k - 1]))
    }
}

/// The numerator of the `i`-th Lagrange basis polynomial at zero.
pub open spec fn lagrange_numerator(xs: Seq<int>, i: int) -> int {
    prod_except(xs, i, 0, xs.len() as int)
}

/// The denominator of the `i`-th Lagrange basis polynomial: the product of `xs[i] - xs[j]`.
pub open spec fn lagrange_denominator(xs: Seq<int>, i: int) -> int {
    prod_except(xs, i, xs[i], xs.len() as int)
}

/// The `i`-th Lagrange basis polynomial at zero.
pub open spec fn lagrange_coefficient(xs: Seq<int>, i: int) -> int {
    fdiv(lagrange_numerator(xs, i), lagrange_denominator(xs, i))
}

/// The sum, over the first `k` shares, of the Lagrange coefficient times the share's value.
pub open spec fn interpolate_at_zero(xs: Seq<int>, ys: Seq<int>, k: int) -> int
    decreases k,
{
    if k <= 0 {
        0
    } else {
        fadd(
            interpolate_at_zero(xs, ys, k - 1),
            fmul(lagrange_coefficient(xs, k - 1), ys[k - 1]),
        )
    }
}

/// Reconstruction never divides by zero: every Lagrange denominator is nonzero. In GF(p)
/// this holds exactly when the evaluation points are pairwise distinct.
pub open spec fn denominators_nonzero(xs: Seq<int>) -> bool {
    forall|i: int| 0 <= i < xs.len() ==> lagrange_denominator(xs, i) != 0
}

/// The shares of the polynomial with coefficients `c` at the points `xs`.
pub open spec fn shares_on_polynomial(shares: Seq<Share>, xs: Seq<int>, c: Seq<int>) -> bool {
    &&& shares.len() == xs.len()
    &&& forall|i: int|
        0 <= i < shares.len() ==> (#[trigger] shares[i]).x@ == xs[i] && shares[i].y@
            == poly_eval(c, xs[i])
}

/// Splits `secret` into one share per evaluation point, on the polynomial whose constant
/// term is `secret` and whose other coefficients are `random_coefficients` (of degree
/// `threshold - 1`).
pub fn split_with_coefficients(
    secret: FieldElement,
    threshold: usize,
    num_shares: usize,
    evaluation_points: Vec<FieldElement>,
    random_coefficients: Vec<FieldElement>,
) -> (shares: Vec<Share>)
    requires
        threshold >= 1,
        num_shares >= threshold,
        evaluation_points.len() == num_shares,
        random_coefficients.len() == threshold - 1,
    ensures
        shares_on_polynomial(
            shares@,
            values(evaluation_points@),
            seq![secret@] + values(random_coefficients@),
        ),
{
    let mut coefficients: Vec<FieldElement> = Vec::new();
    coefficients.push(secret);
    let mut k: usize = 0;
    while k < random_coefficients.len()
        invariant
            k <= random_coefficients.len(),
            values(coefficients@) == seq![secret@] + values(random_coefficients@).take(k as int),
        decreases random_coefficients.len() - k,
    {
        let ghost before = coefficients@;
        coefficients.push(random_coefficients[k]);
        k = k + 1;
        proof {
            assert(values(coefficients@) =~= values(before).push(random_coefficients@[k - 1]@));
            assert(values(random_coefficients@).take(k as int) =~= values(
                random_coefficients@,
            ).take(k - 1).push(random_coefficients@[k - 1]@));
        }
    }
    proof {
        assert(values(random_coefficients@).take(k as int) == values(random_coefficients@));
    }
    let ghost c = seq![secret@] + values(random_coefficients@);
    let mut shares: Vec<Share> = Vec::new();
    let mut i: usize = 0;
    while i < evaluation_points.len()
        invariant
            i <= evaluation_points.len(),
            values(coefficients@) == c,
            shares.len() == i,
            forall|m: int|
                0 <= m < i ==> (#[trigger] shares@[m]).x@ == evaluation_points@[m]@
                    && shares@[m].y@ == poly_eval(c, evaluation_points@[m]@),
        decreases evaluation_points.len() - i,
    {
        let x = evaluation_points[i];
        let y = evaluate_polynomial(coefficients.as_slice(), x);
        shares.push(Share { x, y });
        i = i + 1;
    }
    shares
}

/// Splits `secret` into `num_shares` shares, any `threshold` of which reconstruct it; the
/// polynomial's other coefficients are drawn from `rng`.
pub fn split(
    secret: FieldElement,
    threshold: usize,
    num_shares: usize,
    evaluation_points: Vec<FieldElement>,
    rng: &mut ChaCha20Rng,
) -> (shares: Vec<Share>)
    requires
        threshold >= 1,
        num_shares >= threshold,
        evaluation_points.len() == num_shares,
    ensures
        exists|c: Seq<int>|
            c.len() == threshold && c[0] == secret@ && #[trigger] shares_on_polynomial(
                shares@,
                values(evaluation_points@),
                c,
            ),
        // a constant polynomial draws nothing from the generator
        threshold == 1 ==> *final(rng) == *old(rng),
{
    let mut random_coefficients: Vec<FieldElement> = Vec::new();
    let mut k: usize = 1;
    while k < threshold
        invariant
            1 <= k <= threshold,
            random_coefficients.len() == k - 1,
            threshold == 1 ==> *rng == *old(rng),
        decreases threshold - k,
    {
        random_coefficients.push(ark_rand(rng));
        k = k + 1;
    }
    let shares = split_with_coefficients(
        secret,
        threshold,
        num_shares,
        evaluation_points,
        random_coefficients,
    );
    proof {
        let c = seq![secret@] + values(random_coefficients@);
        assert(c[0] == secret@);
        assert(shares_on_polynomial(shares@, values(evaluation_points@), c));
    }
    shares
}

/// Evaluates the polynomial with the given coefficients (constant term first) at `x`, by
/// Horner's rule.
pub fn evaluate_polynomial(coefficients: &[FieldElement], x: FieldElement) -> (r: FieldElement)
    ensures
        r@ == poly_eval(values(coefficients@), x@),
{
    let ghost c = values(coefficients@);
    let mut result = FieldElement::zero();
    let mut k: usize = coefficients.len();
    proof {
        assert(c.subrange(k as int, c.len() as int) == Seq::<int>::empty());
    }
    while k > 0
        invariant
            k <= coefficients.len(),
            c == values(coefficients@),
            result@ == poly_eval(c.subrange(k as int, c.len() as int), x@),
        decreases k,
    {
        k = k - 1;
        result = result.mul(&x).add(&coefficients[k]);
        proof {
            assert(c.subrange(k as int, c.len() as int).drop_first() == c.subrange(
                k + 1,
                c.len() as int,
            ));
        }
    }
    proof {
        assert(c.subrange(0, c.len() as int) == c);
    }
    result
}

/// Recovers the secret from shares by Lagrange interpolation at zero.
pub fn reconstruct(shares: &[Share]) -> (secret: FieldElement)
    requires
        shares.len() >= 1,
        denominators_nonzero(share_xs(shares@)),
    ensures
        secret@ == interpolate_at_zero(
            share_xs(shares@),
            share_ys(shares@),
            shares.len() as int,
        ),
        denominators_invertible(share_xs(shares@)),
        // shares of a polynomial of degree below their number give its constant term
        forall|c: Seq<int>|
            c.len() <= shares.len() && #[trigger] shares_on_polynomial(
                shares@,
                share_xs(shares@),
                c,
            ) ==> secret@ == poly_eval(c, 0),
{
    let ghost xs = share_xs(shares@);
    let ghost ys = share_ys(shares@);
    let n = shares.len();
    let zero = FieldElement::zero();
    let mut secret = FieldElement::zero();
    let mut i: usize = 0;
    while i < n
        invariant
            n == shares.len(),
            i <= n,
            xs == share_xs(shares@),
            ys == share_ys(shares@),
            zero@ == 0,
            denominators_nonzero(xs),
            secret@ == interpolate_at_zero(xs, ys, i as int),
            forall|m: int| 0 <= m < i ==> has_inverse(#[trigger] lagrange_denominator(xs, m)),
        decreases n - i,
    {
        let mut numerator = FieldElement::one();
        let mut denominator = FieldElement::one();
        let mut j: usize = 0;
        while j < n
            invariant
                n == shares.len(),
                i < n,
                j <= n,
                xs == share_xs(shares@),
                zero@ == 0,
                numerator@ == prod_except(xs, i as int, 0, j as int),
                denominator@ == prod_except(xs, i as int, xs[i as int], j as int),
            decreases n - j,
        {
            if i != j {
                numerator = numerator.mul(&zero.sub(&shares[j].x));
                denominator = denominator.mul(&shares[i].x.sub(&shares[j].x));
            }
            j = j + 1;
        }
        proof {
            assert(xs.len() == n);
            assert(lagrange_denominator(xs, i as int) != 0);
        }
        let lagrange_basis = numerator.div(&denominator);
        secret = secret.add(&lagrange_basis.mul(&shares[i].y));
        i = i + 1;
    }
    proof {
        assert(denominators_invertible(xs));
        assert forall|m: int| 0 <= m < xs.len() implies 0 <= #[trigger] xs[m] < modulus() by {
            lemma_field_element_range(shares@[m].x);
        }
        assert forall|c: Seq<int>|
            c.len() <= shares.len() && #[trigger] shares_on_polynomial(
                shares@,
                share_xs(shares@),
                c,
            ) implies secret@ == poly_eval(c, 0) by {
            assert(ys =~= evaluations(c, xs));
            lemma_interpolation(xs, c);
            lemma_interpolate_fsum(xs, ys, n as int);
            assert(lagrange_terms(xs, ys).take(n as int) =~= lagrange_terms(xs, ys));
        }
    }
    secret
}

} // verus!
