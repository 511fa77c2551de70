use ark_ff::{BigInteger, PrimeField, UniformRand};
use ark_secp256k1::Fq;
use rand_chacha::rand_core::SeedableRng;
use rand_chacha::ChaChaRng;
use silmarils::field::FieldElement;
use silmarils::shamir::{evaluate_polynomial, reconstruct, split, split_with_coefficients, Share};

fn fe(v: u64) -> FieldElement {
    FieldElement::from_u64(v)
}

fn random_element(rng: &mut ChaChaRng) -> FieldElement {
    let x = Fq::rand(rng);
    FieldElement::from_be_bytes_mod_order(&x.into_bigint().to_bytes_be())
}

#[test]
fn test_shamir_basic() {
    let mut rng = ChaChaRng::from_seed([0u8; 32]);
    let secret = fe(42);
    let evaluation_points = vec![fe(1), fe(2), fe(3), fe(4), fe(5)];

    let shares = split(secret, 3, 5, evaluation_points, &mut rng);
    assert_eq!(shares.len(), 5);

    // Reconstruct with exactly threshold shares
    let reconstructed = reconstruct(&shares[0..3]);
    assert_eq!(reconstructed, secret);

    // Reconstruct with more than threshold shares
    let reconstructed = reconstruct(&shares);
    assert_eq!(reconstructed, secret);
}

#[test]
fn test_shamir_2_of_2() {
    let mut rng = ChaChaRng::from_seed([0u8; 32]);
    let secret = fe(42);
    let evaluation_points = vec![fe(1), fe(2)];

    let shares = split(secret, 2, 2, evaluation_points, &mut rng);
    assert_eq!(shares.len(), 2);

    let reconstructed = reconstruct(&shares);
    assert_eq!(reconstructed, secret);
}

#[test]
fn test_shamir_different_combinations() {
    let mut rng = ChaChaRng::from_seed([1u8; 32]);
    let secret = random_element(&mut rng);
    let evaluation_points = vec![fe(1), fe(2), fe(3), fe(4), fe(5)];

    let shares = split(secret, 3, 5, evaluation_points, &mut rng);

    // Test different combinations of 3 shares
    let reconstructed1 = reconstruct(&[shares[0].clone(), shares[1].clone(), shares[2].clone()]);
    let reconstructed2 = reconstruct(&[shares[1].clone(), shares[3].clone(), shares[4].clone()]);
    let reconstructed3 = reconstruct(&[shares[0].clone(), shares[2].clone(), shares[4].clone()]);

    assert_eq!(reconstructed1, secret);
    assert_eq!(reconstructed2, secret);
    assert_eq!(reconstructed3, secret);
}

#[test]
fn split_with_coefficients_evaluates_the_polynomial() {
    // 42 + 5x at x = 1, 2, 3
    let shares = split_with_coefficients(fe(42), 2, 3, vec![fe(1), fe(2), fe(3)], vec![fe(5)]);
    assert_eq!(shares.len(), 3);
    assert_eq!(shares[0], Share { x: fe(1), y: fe(47) });
    assert_eq!(shares[1], Share { x: fe(2), y: fe(52) });
    assert_eq!(shares[2], Share { x: fe(3), y: fe(57) });
}

#[test]
fn evaluate_polynomial_horner() {
    // 3 + 2x + x^2 at x = 5 is 38
    assert_eq!(evaluate_polynomial(&[fe(3), fe(2), fe(1)], fe(5)), fe(38));
    assert_eq!(evaluate_polynomial(&[], fe(5)), fe(0));
    assert_eq!(evaluate_polynomial(&[fe(9)], fe(5)), fe(9));
}

#[test]
fn reconstruct_quadratic_from_three_points() {
    // 3 + 2x + x^2 at 1, 2, 3 is 6, 11, 18
    let shares = [
        Share { x: fe(1), y: fe(6) },
        Share { x: fe(2), y: fe(11) },
        Share { x: fe(3), y: fe(18) },
    ];
    assert_eq!(reconstruct(&shares), fe(3));
    // order of the shares does not matter
    let reordered = [shares[2], shares[0], shares[1]];
    assert_eq!(reconstruct(&reordered), fe(3));
}

#[test]
fn reconstruct_single_share_returns_its_value() {
    assert_eq!(reconstruct(&[Share { x: fe(7), y: fe(11) }]), fe(11));
}

#[test]
fn reconstruct_with_too_few_shares_misses_the_secret() {
    // two shares of a quadratic do not determine its constant term
    let shares = [Share { x: fe(1), y: fe(6) }, Share { x: fe(2), y: fe(11) }];
    assert_ne!(reconstruct(&shares), fe(3));
}

#[test]
fn split_then_reconstruct_with_many_shares() {
    let mut rng = ChaChaRng::from_seed([7u8; 32]);
    let secret = fe(123456789);
    let points: Vec<FieldElement> = (10..20).map(fe).collect();
    let shares = split(secret, 4, 10, points, &mut rng);
    assert_eq!(reconstruct(&shares[3..7]), secret);
    assert_eq!(reconstruct(&shares[0..10]), secret);
    assert_eq!(reconstruct(&[shares[9], shares[0], shares[5], shares[2], shares[8]]), secret);
}

#[test]
fn split_with_threshold_one_leaves_the_generator_untouched() {
    let mut rng = ChaChaRng::from_seed([7u8; 32]);
    let before = rng.clone();
    let shares = split(fe(42), 1, 3, vec![fe(1), fe(2), fe(3)], &mut rng);
    assert!(rng == before);
    for (i, share) in shares.iter().enumerate() {
        assert_eq!(share.x, fe(i as u64 + 1));
        assert_eq!(share.y, fe(42));
    }
}

#[test]
fn reconstruction_is_linear() {
    // y = 3 + 2x and z = 5 + 7x at x = 1, 2; a = 4, b = 6 gives 4y + 6z = 42 + 50x
    let xs = [fe(1), fe(2)];
    let ys = [fe(5), fe(7)];
    let zs = [fe(12), fe(19)];
    let a = fe(4);
    let b = fe(6);
    let mk = |vals: [FieldElement; 2]| -> Vec<Share> {
        vec![Share { x: xs[0], y: vals[0] }, Share { x: xs[1], y: vals[1] }]
    };
    let us = [a.mul(&ys[0]).add(&b.mul(&zs[0])), a.mul(&ys[1]).add(&b.mul(&zs[1]))];
    let ry = reconstruct(&mk(ys));
    let rz = reconstruct(&mk(zs));
    let ru = reconstruct(&mk(us));
    assert_eq!(ry, fe(3));
    assert_eq!(rz, fe(5));
    assert_eq!(ru, a.mul(&ry).add(&b.mul(&rz)));
    assert_eq!(ru, fe(42));
}

#[test]
fn one_share_fits_every_secret() {
    // the share at x0 of secret s with coefficient a equals the share of secret s2 with
    // coefficient a + (s - s2) / x0
    let x0 = fe(9);
    let s = fe(1000);
    let s2 = fe(17);
    let a = fe(123456);
    let a2 = a.add(&s.sub(&s2).div(&x0));
    let first = split_with_coefficients(s, 2, 2, vec![x0, fe(10)], vec![a]);
    let second = split_with_coefficients(s2, 2, 2, vec![x0, fe(10)], vec![a2]);
    assert_eq!(first[0].y, second[0].y);
    assert_ne!(first[1].y, second[1].y);
}
