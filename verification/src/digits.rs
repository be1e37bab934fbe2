//! Unsigned big integers as little-endian base `2^32` digit vectors.
//!
//! The arithmetic itself is carried out by `num_bigint`; this module gives
//! each operation an exact contract over the mathematical value that a digit
//! vector denotes, and proves the facts about the representation (value
//! bounds, uniqueness of the canonical form) that the rest of the crate
//! builds on.

use vstd::arithmetic::div_mod::{
    lemma_fundamental_div_mod_converse, lemma_mod_division_less_than_divisor, lemma_small_mod,
};
use vstd::prelude::*;

verus! {

/// The radix of the representation: one digit holds a value below `2^32`.
pub open spec fn digit_radix() -> int {
    0x1_0000_0000
}

/// The integer denoted by a little-endian sequence of base `2^32` digits.
pub open spec fn digits_value(s: Seq<u32>) -> int
    decreases s.len(),
{
    if s.len() == 0 {
        0
    } else {
        s[0] + digit_radix() * digits_value(s.skip(1))
    }
}

/// A digit sequence is canonical when it carries no trailing zero digit,
/// so zero is the empty sequence and every value has one spelling.
pub open spec fn canonical(s: Seq<u32>) -> bool {
    s.len() == 0 || s[s.len() - 1] != 0
}

pub proof fn lemma_digits_value_nonneg(s: Seq<u32>)
    ensures
        digits_value(s) >= 0,
    decreases s.len(),
{
    if s.len() > 0 {
        lemma_digits_value_nonneg(s.skip(1));
    }
}

/// A canonical, non-empty digit sequence denotes a strictly positive value.
pub proof fn lemma_canonical_positive(s: Seq<u32>)
    requires
        canonical(s),
        s.len() > 0,
    ensures
        digits_value(s) > 0,
    decreases s.len(),
{
    if s.len() == 1 {
        assert(s[0] != 0);
        assert(digits_value(s.skip(1)) == 0);
    } else {
        assert(s.skip(1)[s.skip(1).len() - 1] == s[s.len() - 1]);
        lemma_canonical_positive(s.skip(1));
        assert(digit_radix() * digits_value(s.skip(1)) >= digit_radix()) by (nonlinear_arith)
            requires
                digits_value(s.skip(1)) >= 1,
        ;
    }
}

/// The value of a digit sequence determines its canonical spelling.
pub proof fn lemma_canonical_unique(s: Seq<u32>, t: Seq<u32>)
    requires
        canonical(s),
        canonical(t),
        digits_value(s) == digits_value(t),
    ensures
        s == t,
    decreases s.len(),
{
    if s.len() == 0 && t.len() == 0 {
        assert(s =~= t);
    } else if s.len() == 0 {
        lemma_canonical_positive(t);
        assert(false);
    } else if t.len() == 0 {
        lemma_canonical_positive(s);
        assert(false);
    } else {
        let v = digits_value(s);
        lemma_digits_value_nonneg(s.skip(1));
        lemma_digits_value_nonneg(t.skip(1));
        lemma_fundamental_div_mod_converse(v, digit_radix(), digits_value(s.skip(1)), s[0] as int);
        lemma_fundamental_div_mod_converse(v, digit_radix(), digits_value(t.skip(1)), t[0] as int);
        assert(s[0] == t[0]);
        assert(digits_value(s.skip(1)) == digits_value(t.skip(1)));
        assert(canonical(s.skip(1))) by {
            if s.len() > 1 {
                assert(s.skip(1)[s.skip(1).len() - 1] == s[s.len() - 1]);
            }
        }
        assert(canonical(t.skip(1))) by {
            if t.len() > 1 {
                assert(t.skip(1)[t.skip(1).len() - 1] == t[t.len() - 1]);
            }
        }
        lemma_canonical_unique(s.skip(1), t.skip(1));
        assert forall|i: int| 0 <= i < s.len() implies s[i] == t[i] by {
            if i > 0 {
                assert(s.skip(1)[i - 1] == s[i]);
                assert(t.skip(1)[i - 1] == t[i]);
            }
        }
        assert(s =~= t);
    }
}

/// Relies on `num_bigint::BigUint` addition; `BigUint::new` reads base `2^32`
/// little-endian digits and `to_u32_digits` writes them back without a
/// trailing zero.
#[verifier::external_body]
pub(crate) fn big_add(a: &Vec<u32>, b: &Vec<u32>) -> (r: Vec<u32>)
    ensures
        digits_value(r@) == digits_value(a@) + digits_value(b@),
        canonical(r@),
{
    let x = num_bigint::BigUint::new(a.clone()) + num_bigint::BigUint::new(b.clone());
    x.to_u32_digits()
}

/// Relies on `num_bigint::BigUint` subtraction, which requires that the
/// minuend is at least the subtrahend.
#[verifier::external_body]
pub(crate) fn big_sub(a: &Vec<u32>, b: &Vec<u32>) -> (r: Vec<u32>)
    requires
        digits_value(b@) <= digits_value(a@),
    ensures
        digits_value(r@) == digits_value(a@) - digits_value(b@),
        canonical(r@),
{
    let x = num_bigint::BigUint::new(a.clone()) - num_bigint::BigUint::new(b.clone());
    x.to_u32_digits()
}

/// Relies on `num_bigint::BigUint` multiplication.
#[verifier::external_body]
pub(crate) fn big_mul(a: &Vec<u32>, b: &Vec<u32>) -> (r: Vec<u32>)
    ensures
        digits_value(r@) == digits_value(a@) * digits_value(b@),
        canonical(r@),
{
    let x = num_bigint::BigUint::new(a.clone()) * num_bigint::BigUint::new(b.clone());
    x.to_u32_digits()
}

/// Relies on `num_bigint::BigUint` remainder, which requires a non-zero
/// divisor; both operands are non-negative, so `%` agrees with the Euclidean
/// remainder of the specification.
#[verifier::external_body]
pub(crate) fn big_mod(a: &Vec<u32>, m: &Vec<u32>) -> (r: Vec<u32>)
    requires
        digits_value(m@) > 0,
    ensures
        digits_value(r@) == digits_value(a@) % digits_value(m@),
        canonical(r@),
{
    let x = num_bigint::BigUint::new(a.clone()) % num_bigint::BigUint::new(m.clone());
    x.to_u32_digits()
}

/// Relies on `num_bigint::BigUint` ordering, which compares denoted values.
#[verifier::external_body]
pub(crate) fn big_lt(a: &Vec<u32>, b: &Vec<u32>) -> (r: bool)
    ensures
        r == (digits_value(a@) < digits_value(b@)),
{
    num_bigint::BigUint::new(a.clone()) < num_bigint::BigUint::new(b.clone())
}

/// Digit-for-digit equality of two digit vectors.
pub(crate) fn digits_eq(a: &Vec<u32>, b: &Vec<u32>) -> (r: bool)
    ensures
        r == (a@ == b@),
{
    if a.len() != b.len() {
        return false;
    }
    let mut i: usize = 0;
    while i < a.len()
        invariant
            i <= a.len(),
            a@.len() == b@.len(),
            forall|j: int| 0 <= j < i ==> a@[j] == b@[j],
        decreases a.len() - i,
    {
        if a[i] != b[i] {
            return false;
        }
        i += 1;
    }
    proof {
        assert(a@ =~= b@);
    }
    true
}

/// The remainder of a non-negative value by a positive modulus is the value
/// itself whenever the value is already below the modulus.
pub proof fn lemma_mod_noop_below(x: int, m: int)
    requires
        0 <= x < m,
    ensures
        x % m == x,
{
    lemma_small_mod(x as nat, m as nat);
}

/// The remainder by a positive modulus always lands in `[0, m)`.
pub proof fn lemma_mod_range(x: int, m: int)
    requires
        m > 0,
    ensures
        0 <= x % m < m,
{
    lemma_mod_division_less_than_divisor(x, m);
}

} // verus!
