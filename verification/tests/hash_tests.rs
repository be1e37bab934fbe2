use num_bigint::BigUint;
use r1cs_circuits::field::FieldElement;
use r1cs_circuits::hash_functions::{AdditiveHash, HashFunction, PoseidonHash};

fn fe_from_dec(dec: &str) -> FieldElement {
    let digits = BigUint::parse_bytes(dec.as_bytes(), 10)
        .expect("valid decimal")
        .to_u32_digits();
    FieldElement::new(false, digits)
}

#[test]
fn poseidon_matches_known_vector() {
    // The published digest of the two-input Poseidon permutation on (1, 2)
    // over this field.
    let expected = fe_from_dec(
        "7853200120776062878684798364095072458815029376092732009249414926327459813530",
    );
    let h = PoseidonHash::new();
    let got = h.hash(&FieldElement::from_i32(1), &FieldElement::from_i32(2));
    assert_eq!(got, expected);
}

#[test]
fn poseidon_is_deterministic_and_order_sensitive() {
    let h = PoseidonHash::new();
    let a = FieldElement::from_i32(7);
    let b = FieldElement::from_i32(9);
    let once = h.hash(&a, &b);
    let twice = h.hash(&a, &b);
    assert_eq!(once, twice);
    let swapped = h.hash(&b, &a);
    assert_ne!(once, swapped);
    assert_ne!(once, a);
    assert_ne!(once, b);
}

#[test]
fn additive_hash_adds_in_the_field() {
    let h = AdditiveHash::new();
    let got = h.hash(&FieldElement::from_i32(2), &FieldElement::from_i32(3));
    assert_eq!(got, FieldElement::from_i32(5));
}
