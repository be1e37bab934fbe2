//! The prime field used by every other component: integers modulo a fixed
//! 254-bit prime (the BN-family scalar field order), kept as canonical
//! representatives in `[0, MODULUS)`.

use crate::digits::{
    big_add, big_lt, big_mod, big_mul, big_sub, canonical, digit_radix, digits_eq, digits_value,
    lemma_canonical_positive, lemma_canonical_unique, lemma_digits_value_nonneg,
    lemma_mod_noop_below, lemma_mod_range,
};
use vstd::arithmetic::div_mod::{
    lemma_fundamental_div_mod, lemma_fundamental_div_mod_converse, lemma_mod_add_multiples_vanish,
};
use vstd::prelude::*;

verus! {

/// The fixed field modulus: the scalar field order of the BN-family curve
/// that the production hash operates over.
pub open spec fn modulus_int() -> int {
    21888242871839275222246405745257275088548364400416034343698204186575808495617int
}

/// The modulus spelled as little-endian base `2^32` digits.
spec fn modulus_digits() -> Seq<u32> {
    seq![
        0xf0000001u32,
        0x43e1f593u32,
        0x79b97091u32,
        0x2833e848u32,
        0x8181585du32,
        0xb85045b6u32,
        0xe131a029u32,
        0x30644e72u32,
    ]
}

proof fn lemma_modulus_digits_value()
    ensures
        digits_value(modulus_digits()) == modulus_int(),
        canonical(modulus_digits()),
{
    let s = modulus_digits();
    assert(s.skip(8).len() == 0);
    assert(digits_value(s.skip(8)) == 0);
    assert(s.skip(7)[0] == s[7]);
    assert(s.skip(7).skip(1) =~= s.skip(8));
    assert(digits_value(s.skip(7)) == s[7] + digit_radix() * digits_value(s.skip(8)));
    assert(s.skip(6)[0] == s[6]);
    assert(s.skip(6).skip(1) =~= s.skip(7));
    assert(digits_value(s.skip(6)) == s[6] + digit_radix() * digits_value(s.skip(7)));
    assert(s.skip(5)[0] == s[5]);
    assert(s.skip(5).skip(1) =~= s.skip(6));
    assert(digits_value(s.skip(5)) == s[5] + digit_radix() * digits_value(s.skip(6)));
    assert(s.skip(4)[0] == s[4]);
    assert(s.skip(4).skip(1) =~= s.skip(5));
    assert(digits_value(s.skip(4)) == s[4] + digit_radix() * digits_value(s.skip(5)));
    assert(s.skip(3)[0] == s[3]);
    assert(s.skip(3).skip(1) =~= s.skip(4));
    assert(digits_value(s.skip(3)) == s[3] + digit_radix() * digits_value(s.skip(4)));
    assert(s.skip(2)[0] == s[2]);
    assert(s.skip(2).skip(1) =~= s.skip(3));
    assert(digits_value(s.skip(2)) == s[2] + digit_radix() * digits_value(s.skip(3)));
    assert(s.skip(1)[0] == s[1]);
    assert(s.skip(1).skip(1) =~= s.skip(2));
    assert(digits_value(s.skip(1)) == s[1] + digit_radix() * digits_value(s.skip(2)));
    assert(digits_value(s) == s[0] + digit_radix() * digits_value(s.skip(1)));
}

/// An integer modulo the fixed prime, stored as the canonical representative
/// in `[0, MODULUS)`, spelled as little-endian base `2^32` digits.
#[derive(Clone, Debug, PartialEq, Eq)]
pub struct FieldElement {
    digits: Vec<u32>,
}

/// The raw integer a sign flag and a digit vector denote, before reduction.
pub open spec fn signed_value(negative: bool, digits: Seq<u32>) -> int {
    if negative {
        -digits_value(digits)
    } else {
        digits_value(digits)
    }
}

/// The canonical values of a sequence of field elements.
pub open spec fn fe_values(s: Seq<FieldElement>) -> Seq<int> {
    Seq::new(s.len(), |i: int| s[i].as_int())
}

impl FieldElement {
    /// The integer this element denotes.
    pub closed spec fn as_int(self) -> int {
        digits_value(self.digits@)
    }

    /// Well-formedness: the stored digits are canonical and denote a value
    /// in `[0, MODULUS)`. Every constructor establishes this.
    pub closed spec fn inv(self) -> bool {
        canonical(self.digits@) && 0 <= digits_value(self.digits@) < modulus_int()
    }

    /// A well-formed element always denotes a value in `[0, MODULUS)`.
    pub proof fn lemma_inv_bounds(self)
        requires
            self.inv(),
        ensures
            0 <= self.as_int() < modulus_int(),
    {
    }

    /// The modulus as little-endian base `2^32` digits.
    pub fn get_modulus() -> (r: Vec<u32>)
        ensures
            digits_value(r@) == modulus_int(),
            canonical(r@),
    {
        let mut v: Vec<u32> = Vec::new();
        v.push(0xf0000001);
        v.push(0x43e1f593);
        v.push(0x79b97091);
        v.push(0x2833e848);
        v.push(0x8181585d);
        v.push(0xb85045b6);
        v.push(0xe131a029);
        v.push(0x30644e72);
        proof {
            assert(v@ =~= modulus_digits());
            lemma_modulus_digits_value();
        }
        v
    }

    /// Constructs the canonical representative of a raw integer, given as a
    /// sign flag and a magnitude in little-endian base `2^32` digits. The
    /// raw value is reduced modulo the fixed prime, with negative remainders
    /// corrected by adding the modulus back.
    pub fn new(negative: bool, digits: Vec<u32>) -> (r: FieldElement)
        ensures
            r.inv(),
            r.as_int() == signed_value(negative, digits@) % modulus_int(),
    {
        let ghost v = digits_value(digits@);
        let ghost p = modulus_int();
        let m = Self::get_modulus();
        let r0 = big_mod(&digits, &m);
        proof {
            lemma_digits_value_nonneg(digits@);
            lemma_mod_range(v, p);
        }
        if negative && r0.len() > 0 {
            proof {
                lemma_canonical_positive(r0@);
                lemma_fundamental_div_mod(v, p);
                lemma_fundamental_div_mod_converse(-v, p, -(v / p) - 1, p - v % p);
            }
            let d = big_sub(&m, &r0);
            FieldElement { digits: d }
        } else {
            proof {
                if negative {
                    assert(digits_value(r0@) == 0);
                    lemma_fundamental_div_mod(v, p);
                    lemma_fundamental_div_mod_converse(-v, p, -(v / p), 0);
                }
            }
            FieldElement { digits: r0 }
        }
    }

    /// Constructs the canonical representative of a small signed integer.
    pub fn from_i32(v: i32) -> (r: FieldElement)
        ensures
            r.inv(),
            r.as_int() == (v as int) % modulus_int(),
    {
        let negative = v < 0;
        let mag: u32 = if v < 0 {
            proof {
                assert(0 < -(v as int) <= 0x8000_0000);
            }
            (-(v as i64)) as u32
        } else {
            v as u32
        };
        let mut ds: Vec<u32> = Vec::new();
        if mag > 0 {
            ds.push(mag);
        }
        proof {
            if mag > 0 {
                assert(ds@.skip(1).len() == 0);
                assert(digits_value(ds@) == mag + digit_radix() * digits_value(ds@.skip(1)));
            }
            assert(signed_value(negative, ds@) == v as int);
        }
        FieldElement::new(negative, ds)
    }

    /// Field addition: the canonical representative of the sum.
    pub fn add(&self, other: &FieldElement) -> (r: FieldElement)
        requires
            self.inv(),
            other.inv(),
        ensures
            r.inv(),
            r.as_int() == (self.as_int() + other.as_int()) % modulus_int(),
    {
        let m = Self::get_modulus();
        let s = big_add(&self.digits, &other.digits);
        let d = big_mod(&s, &m);
        proof {
            lemma_mod_range(self.as_int() + other.as_int(), modulus_int());
        }
        FieldElement { digits: d }
    }

    /// Field subtraction: the canonical representative of the difference.
    pub fn sub(&self, other: &FieldElement) -> (r: FieldElement)
        requires
            self.inv(),
            other.inv(),
        ensures
            r.inv(),
            r.as_int() == (self.as_int() - other.as_int()) % modulus_int(),
    {
        let ghost a = self.as_int();
        let ghost b = other.as_int();
        let ghost p = modulus_int();
        if big_lt(&self.digits, &other.digits) {
            let m = Self::get_modulus();
            let t = big_add(&self.digits, &m);
            let d = big_sub(&t, &other.digits);
            proof {
                lemma_fundamental_div_mod_converse(a - b, p, -1, a - b + p);
            }
            FieldElement { digits: d }
        } else {
            let d = big_sub(&self.digits, &other.digits);
            proof {
                lemma_mod_noop_below(a - b, p);
            }
            FieldElement { digits: d }
        }
    }

    /// Field multiplication: the canonical representative of the product.
    pub fn mul(&self, other: &FieldElement) -> (r: FieldElement)
        requires
            self.inv(),
            other.inv(),
        ensures
            r.inv(),
            r.as_int() == (self.as_int() * other.as_int()) % modulus_int(),
    {
        let m = Self::get_modulus();
        let s = big_mul(&self.digits, &other.digits);
        let d = big_mod(&s, &m);
        proof {
            lemma_mod_range(self.as_int() * other.as_int(), modulus_int());
        }
        FieldElement { digits: d }
    }

    /// Exact equality of the canonical values.
    pub fn equals(&self, other: &FieldElement) -> (r: bool)
        requires
            self.inv(),
            other.inv(),
        ensures
            r == (self.as_int() == other.as_int()),
    {
        let r = digits_eq(&self.digits, &other.digits);
        proof {
            if self.digits@ != other.digits@ && self.as_int() == other.as_int() {
                lemma_canonical_unique(self.digits@, other.digits@);
            }
        }
        r
    }

    /// A copy denoting the same value.
    pub fn dup(&self) -> (r: FieldElement)
        ensures
            r.as_int() == self.as_int(),
            self.inv() ==> r.inv(),
    {
        let d = self.digits.clone();
        proof {
            assert(d@ =~= self.digits@);
        }
        FieldElement { digits: d }
    }

    /// The canonical value as little-endian base `2^32` digits.
    pub fn to_digits(&self) -> (r: Vec<u32>)
        ensures
            digits_value(r@) == self.as_int(),
            self.inv() ==> canonical(r@),
    {
        let d = self.digits.clone();
        proof {
            assert(d@ =~= self.digits@);
        }
        d
    }

    /// The zero of the field.
    pub fn zero() -> (r: FieldElement)
        ensures
            r.inv(),
            r.as_int() == 0,
    {
        FieldElement { digits: Vec::new() }
    }

    /// The one of the field.
    pub fn one() -> (r: FieldElement)
        ensures
            r.inv(),
            r.as_int() == 1,
    {
        let mut d: Vec<u32> = Vec::new();
        d.push(1);
        proof {
            assert(d@.skip(1).len() == 0);
            assert(digits_value(d@) == 1 + digit_radix() * digits_value(d@.skip(1)));
        }
        FieldElement { digits: d }
    }

    /// Borrows the stored digits.
    pub(crate) fn limbs(&self) -> (r: &Vec<u32>)
        ensures
            digits_value(r@) == self.as_int(),
            self.inv() ==> canonical(r@) && digits_value(r@) < modulus_int(),
    {
        &self.digits
    }

    /// Wraps digits already known to be canonical and reduced.
    pub(crate) fn from_digits(d: Vec<u32>) -> (r: FieldElement)
        requires
            canonical(d@),
            0 <= digits_value(d@) < modulus_int(),
        ensures
            r.inv(),
            r.as_int() == digits_value(d@),
    {
        FieldElement { digits: d }
    }
}

/// Reduction invariant: reducing any raw integer lands in `[0, MODULUS)`,
/// and raw values that differ by the modulus reduce to the same canonical
/// representative.
pub proof fn lemma_reduction_invariant(x: int)
    ensures
        0 <= x % modulus_int() < modulus_int(),
        (x + modulus_int()) % modulus_int() == x % modulus_int(),
{
    lemma_mod_range(x, modulus_int());
    lemma_mod_add_multiples_vanish(x, modulus_int());
}

} // verus!
