//! The two-to-one hash capability over field elements: a single-method
//! contract with substitutable implementations, injected into circuits at
//! construction time. The production variant is the Poseidon permutation
//! over the same field; the additive variant exists for demonstrations and
//! tests only.

use crate::digits::{digits_value, lemma_digits_value_nonneg, lemma_mod_range};
use crate::field::{modulus_int, FieldElement};
use ff_ce::{PrimeField, PrimeFieldRepr};
use num_bigint::BigUint;
use poseidon_rs::{Fr, FrRepr, Poseidon};
use vstd::prelude::*;

verus! {

/// A pure, deterministic two-input, one-output map over the field.
pub trait HashFunction: Sized {
    /// The mathematical map this capability computes over canonical values.
    spec fn hash_spec(&self, a: int, b: int) -> int;

    /// Computes the hash of two field elements; the result is the canonical
    /// representative of `hash_spec` on their values.
    fn hash(&self, a: &FieldElement, b: &FieldElement) -> (r: FieldElement)
        requires
            a.inv(),
            b.inv(),
        ensures
            r.inv(),
            r.as_int() == self.hash_spec(a.as_int(), b.as_int()),
    ;
}

/// The digest of the two-input Poseidon permutation, as an integer; it takes
/// pages to state, so it is named here and never restated.
pub uninterp spec fn poseidon_digest(a: int, b: int) -> int;

/// Relies on `poseidon_rs::Poseidon::hash` with the constants that
/// `Poseidon::new` loads: every instance carries the same constants, so the
/// digest is a function of the two inputs alone. Inputs below the modulus
/// are canonicalized to 32 little-endian bytes, fed through the permutation,
/// and the digest is read back the same way; `Fr::from_repr` accepts every
/// such input and `Poseidon::hash` accepts every two-element input vector.
#[verifier::external_body]
fn poseidon_hash_digits(a: &Vec<u32>, b: &Vec<u32>) -> (r: Vec<u32>)
    requires
        digits_value(a@) < modulus_int(),
        digits_value(b@) < modulus_int(),
    ensures
        digits_value(r@) == poseidon_digest(digits_value(a@), digits_value(b@)),
{
    let mut ab = BigUint::new(a.clone()).to_bytes_le();
    let mut bb = BigUint::new(b.clone()).to_bytes_le();
    ab.resize(32, 0);
    bb.resize(32, 0);
    let mut ar = FrRepr::default();
    let mut br = FrRepr::default();
    ar.read_le(&ab[..]).unwrap();
    br.read_le(&bb[..]).unwrap();
    let inputs = vec![Fr::from_repr(ar).unwrap(), Fr::from_repr(br).unwrap()];
    let mut out: Vec<u8> = Vec::new();
    Poseidon::new().hash(inputs).unwrap().into_repr().write_le(&mut out).unwrap();
    BigUint::from_bytes_le(&out).to_u32_digits()
}

/// The production hash: the Poseidon permutation over the field, reduced
/// back into the canonical range; explicitly non-trivial and collision
/// resistant, unlike [`AdditiveHash`].
pub struct PoseidonHash {}

impl PoseidonHash {
    pub fn new() -> (r: PoseidonHash) {
        PoseidonHash {  }
    }
}

impl Default for PoseidonHash {
    fn default() -> (r: Self)
        ensures
            r == (PoseidonHash {  }),
    {
        PoseidonHash {  }
    }
}

impl HashFunction for PoseidonHash {
    open spec fn hash_spec(&self, a: int, b: int) -> int {
        poseidon_digest(a, b) % modulus_int()
    }

    fn hash(&self, a: &FieldElement, b: &FieldElement) -> (r: FieldElement) {
        let raw = poseidon_hash_digits(a.limbs(), b.limbs());
        let m = FieldElement::get_modulus();
        let reduced = crate::digits::big_mod(&raw, &m);
        proof {
            lemma_mod_range(digits_value(raw@), modulus_int());
        }
        FieldElement::from_digits(reduced)
    }
}

/// The trivial additive hash, `a + b` in the field; documented as
/// non-cryptographic and meant only for demonstrations and tests.
pub struct AdditiveHash {}

impl AdditiveHash {
    pub fn new() -> (r: AdditiveHash) {
        AdditiveHash {  }
    }
}

impl Default for AdditiveHash {
    fn default() -> (r: Self)
        ensures
            r == (AdditiveHash {  }),
    {
        AdditiveHash {  }
    }
}

impl HashFunction for AdditiveHash {
    open spec fn hash_spec(&self, a: int, b: int) -> int {
        (a + b) % modulus_int()
    }

    fn hash(&self, a: &FieldElement, b: &FieldElement) -> (r: FieldElement) {
        a.add(b)
    }
}

} // verus!
