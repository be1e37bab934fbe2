use num_bigint::BigUint;
use r1cs_circuits::field::FieldElement;

const MODULUS_DEC: &str =
    "21888242871839275222246405745257275088548364400416034343698204186575808495617";

fn digits_of(dec: &str) -> Vec<u32> {
    BigUint::parse_bytes(dec.as_bytes(), 10)
        .expect("valid decimal")
        .to_u32_digits()
}

fn fe_from_dec(dec: &str) -> FieldElement {
    FieldElement::new(false, digits_of(dec))
}

#[test]
fn modulus_digits_match_decimal_literal() {
    let expected = BigUint::parse_bytes(MODULUS_DEC.as_bytes(), 10).unwrap();
    let got = BigUint::new(FieldElement::get_modulus());
    assert_eq!(got, expected);
}

#[test]
fn new_reduces_into_range() {
    let p = BigUint::parse_bytes(MODULUS_DEC.as_bytes(), 10).unwrap();
    let big = &p * 3u32 + 17u32;
    let fe = FieldElement::new(false, big.to_u32_digits());
    assert_eq!(fe, FieldElement::from_i32(17));
    let val = BigUint::new(fe.to_digits());
    assert!(val < p);
}

#[test]
fn new_is_stable_under_adding_the_modulus() {
    let p = BigUint::parse_bytes(MODULUS_DEC.as_bytes(), 10).unwrap();
    let x = BigUint::parse_bytes(b"123456789123456789123456789", 10).unwrap();
    let a = FieldElement::new(false, x.to_u32_digits());
    let b = FieldElement::new(false, (&x + &p).to_u32_digits());
    assert_eq!(a, b);
    assert!(a.equals(&b));
}

#[test]
fn negative_values_are_corrected_by_adding_the_modulus_back() {
    let p = BigUint::parse_bytes(MODULUS_DEC.as_bytes(), 10).unwrap();
    let minus_one = FieldElement::from_i32(-1);
    let p_minus_one = FieldElement::new(false, (&p - 1u32).to_u32_digits());
    assert_eq!(minus_one, p_minus_one);
    let minus_p = FieldElement::new(true, p.to_u32_digits());
    assert_eq!(minus_p, FieldElement::from_i32(0));
}

#[test]
fn addition_is_modular() {
    let p = BigUint::parse_bytes(MODULUS_DEC.as_bytes(), 10).unwrap();
    let a = FieldElement::new(false, (&p - 1u32).to_u32_digits());
    let b = FieldElement::from_i32(2);
    assert_eq!(a.add(&b), FieldElement::from_i32(1));
    assert_eq!(
        FieldElement::from_i32(10).add(&FieldElement::from_i32(20)),
        FieldElement::from_i32(30)
    );
}

#[test]
fn multiplication_is_modular() {
    let p = BigUint::parse_bytes(MODULUS_DEC.as_bytes(), 10).unwrap();
    // (p - 1) * (p - 1) = p^2 - 2p + 1 = 1 (mod p)
    let a = FieldElement::new(false, (&p - 1u32).to_u32_digits());
    assert_eq!(a.mul(&a), FieldElement::from_i32(1));
    assert_eq!(
        FieldElement::from_i32(3).mul(&FieldElement::from_i32(4)),
        FieldElement::from_i32(12)
    );
}

#[test]
fn subtraction_wraps_below_zero() {
    let three = FieldElement::from_i32(3);
    let five = FieldElement::from_i32(5);
    assert_eq!(three.sub(&five), FieldElement::from_i32(-2));
    assert_eq!(five.sub(&three), FieldElement::from_i32(2));
}

#[test]
fn equals_compares_canonical_values() {
    let a = fe_from_dec("42");
    let b = FieldElement::from_i32(42);
    assert!(a.equals(&b));
    assert!(!a.equals(&FieldElement::from_i32(43)));
}

#[test]
fn zero_and_one_are_canonical() {
    assert_eq!(FieldElement::zero(), FieldElement::from_i32(0));
    assert_eq!(FieldElement::one(), FieldElement::from_i32(1));
    assert!(FieldElement::zero().to_digits().is_empty());
}
