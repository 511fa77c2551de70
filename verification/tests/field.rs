use silmarils::field::FieldElement;

fn from_hex(s: &str) -> FieldElement {
    FieldElement::from_be_bytes_mod_order(&hex::decode(s).unwrap())
}

const P_MINUS_ONE: &str = "fffffffffffffffffffffffffffffffffffffffffffffffffffffffefffffc2e";

#[test]
fn field_constants() {
    assert!(FieldElement::zero().is_zero());
    assert!(!FieldElement::one().is_zero());
    assert_eq!(FieldElement::from_u64(0), FieldElement::zero());
    assert_eq!(FieldElement::from_u64(1), FieldElement::one());
}

#[test]
fn field_arithmetic_small_values() {
    let a = FieldElement::from_u64(7);
    let b = FieldElement::from_u64(11);
    assert_eq!(a.add(&b), FieldElement::from_u64(18));
    assert_eq!(b.sub(&a), FieldElement::from_u64(4));
    assert_eq!(a.mul(&b), FieldElement::from_u64(77));
    assert_eq!(FieldElement::from_u64(77).div(&b), a);
    assert!(a.equals(&FieldElement::from_u64(7)));
    assert!(!a.equals(&b));
}

#[test]
fn field_arithmetic_wraps_modulo_p() {
    let p_minus_one = from_hex(P_MINUS_ONE);
    assert!(p_minus_one.add(&FieldElement::one()).is_zero());
    assert_eq!(FieldElement::zero().sub(&FieldElement::one()), p_minus_one);
    assert_eq!(p_minus_one.mul(&p_minus_one), FieldElement::one());
}

#[test]
fn field_inverse_and_division() {
    let two = FieldElement::from_u64(2);
    let inv2 = two.inverse().unwrap();
    assert_eq!(
        inv2.to_bytes_be(),
        hex::decode("7fffffffffffffffffffffffffffffffffffffffffffffffffffffff7ffffe18").unwrap()
    );
    assert_eq!(inv2.mul(&two), FieldElement::one());
    assert!(FieldElement::zero().inverse().is_none());
    assert_eq!(FieldElement::one().div(&two), inv2);
}

#[test]
fn field_bytes_round_trip_and_reduction() {
    let p_minus_one = from_hex(P_MINUS_ONE);
    assert_eq!(p_minus_one.to_bytes_be(), hex::decode(P_MINUS_ONE).unwrap());
    // p + 5, as 33 big-endian bytes, reduces to 5
    let p_plus_five =
        from_hex("00fffffffffffffffffffffffffffffffffffffffffffffffffffffffefffffc34");
    assert_eq!(p_plus_five, FieldElement::from_u64(5));
    let mut five = vec![0u8; 32];
    five[31] = 5;
    assert_eq!(FieldElement::from_u64(5).to_bytes_be(), five);
    assert!(FieldElement::from_be_bytes_mod_order(&[]).is_zero());
}
