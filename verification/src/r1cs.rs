//! The rank-1 constraint system: an ordered witness vector plus an ordered
//! constraint list, each constraint stating `(sum left) OP (sum right) =
//! (sum output)` for OP in add, multiply, hash. Evaluation always re-reads
//! values from the witness vector by index, never from the copies embedded
//! in a constraint at construction time, so a witness updated after a
//! constraint was built is still judged by its current values.

use crate::field::{modulus_int, FieldElement};
use crate::hash_functions::HashFunction;
use vstd::prelude::*;

verus! {

/// A witness slot: a stable position in the witness vector paired with the
/// value currently assigned to it.
#[derive(Clone, Debug)]
pub struct Variable {
    pub index: usize,
    pub value: FieldElement,
}

impl Variable {
    /// A copy carrying the same index and value.
    pub fn dup(&self) -> (r: Variable)
        ensures
            r.index == self.index,
            r.value.as_int() == self.value.as_int(),
            self.value.inv() ==> r.value.inv(),
    {
        Variable { index: self.index, value: self.value.dup() }
    }
}

/// The operation a constraint checks between its two summed sides.
#[derive(Clone, Copy, Debug, PartialEq, Eq, Structural)]
pub enum Operation {
    Add,
    Mul,
    Hash,
}

/// A weighted linear combination triple: each side is a sequence of
/// `(variable, coefficient)` terms, and the tag says how the two summed
/// sides must relate to the summed output.
#[derive(Clone, Debug)]
pub struct Constraint {
    pub left: Vec<(Variable, FieldElement)>,
    pub right: Vec<(Variable, FieldElement)>,
    pub output: Vec<(Variable, FieldElement)>,
    pub operation: Operation,
}

/// The constraint system: the full witness vector and the constraint list.
#[derive(Debug)]
pub struct R1CS {
    pub variables: Vec<Variable>,
    pub constraints: Vec<Constraint>,
}

/// The value one term contributes: the current witness value at the term's
/// index, scaled by the coefficient, in the field.
pub open spec fn term_value(t: (Variable, FieldElement), vars: Seq<Variable>) -> int {
    (vars[t.0.index as int].value.as_int() * t.1.as_int()) % modulus_int()
}

/// The field sum of a side's terms, folded left to right.
pub open spec fn sum_value(terms: Seq<(Variable, FieldElement)>, vars: Seq<Variable>) -> int
    decreases terms.len(),
{
    if terms.len() == 0 {
        0
    } else {
        (sum_value(terms.drop_last(), vars) + term_value(terms.last(), vars)) % modulus_int()
    }
}

/// Every term points into the witness vector and carries a well-formed
/// coefficient.
pub open spec fn terms_wf(terms: Seq<(Variable, FieldElement)>, n: nat) -> bool {
    forall|i: int| 0 <= i < terms.len() ==> (#[trigger] terms[i]).0.index < n && terms[i].1.inv()
}

impl Constraint {
    pub open spec fn wf(self, n: nat) -> bool {
        terms_wf(self.left@, n) && terms_wf(self.right@, n) && terms_wf(self.output@, n)
    }

    /// Whether the witness satisfies this constraint, re-reading values from
    /// the witness vector at evaluation time. A hash constraint needs a hash
    /// capability to judge.
    pub open spec fn holds<H: HashFunction>(self, vars: Seq<Variable>, hasher: Option<H>) -> bool {
        let l = sum_value(self.left@, vars);
        let r = sum_value(self.right@, vars);
        let o = sum_value(self.output@, vars);
        match self.operation {
            Operation::Add => (l + r) % modulus_int() == o,
            Operation::Mul => (l * r) % modulus_int() == o,
            Operation::Hash => hasher matches Some(h) && h.hash_spec(l, r) == o,
        }
    }
}

impl R1CS {
    /// Every witness value is well formed and every constraint points into
    /// the witness vector.
    pub open spec fn wf(self) -> bool {
        &&& forall|i: int|
            0 <= i < self.variables@.len() ==> (#[trigger] self.variables@[i]).value.inv()
        &&& forall|i: int|
            0 <= i < self.constraints@.len() ==> (#[trigger] self.constraints@[i]).wf(
                self.variables@.len(),
            )
    }

    /// Whether any constraint carries the hash tag.
    pub open spec fn has_hash_constraint(self) -> bool {
        exists|i: int|
            0 <= i < self.constraints@.len() && (#[trigger] self.constraints@[i]).operation
                is Hash
    }

    /// Whether the current witness satisfies every constraint.
    pub open spec fn satisfied<H: HashFunction>(self, hasher: Option<H>) -> bool {
        forall|i: int|
            0 <= i < self.constraints@.len() ==> (#[trigger] self.constraints@[i]).holds(
                self.variables@,
                hasher,
            )
    }

    /// Creates a new, empty constraint system.
    pub fn new() -> (r: R1CS)
        ensures
            r.variables@.len() == 0,
            r.constraints@.len() == 0,
    {
        R1CS { variables: Vec::new(), constraints: Vec::new() }
    }

    /// Appends one constraint; constraints are append-only and never mutated
    /// after creation.
    pub fn add_constraint(
        &mut self,
        left: Vec<(Variable, FieldElement)>,
        right: Vec<(Variable, FieldElement)>,
        output: Vec<(Variable, FieldElement)>,
        operation: Operation,
    )
        ensures
            final(self).variables@ == old(self).variables@,
            final(self).constraints@ == old(self).constraints@.push(
                Constraint { left, right, output, operation },
            ),
    {
        let constraint = Constraint { left, right, output, operation };
        self.constraints.push(constraint);
    }

    /// Appends one witness slot.
    pub fn add_variable(&mut self, variable: Variable)
        ensures
            final(self).variables@ == old(self).variables@.push(variable),
            final(self).constraints@ == old(self).constraints@,
    {
        self.variables.push(variable);
    }

    /// Checks every constraint in insertion order against the current
    /// witness values, short-circuiting on the first failure. The result is
    /// a function of the unchanged system and the capability alone, so
    /// calling it twice on the same system returns the same answer.
    pub fn is_satisfied<H: HashFunction>(&self, hasher: &Option<H>) -> (res: bool)
        requires
            self.wf(),
            self.has_hash_constraint() ==> hasher is Some,
        ensures
            res == self.satisfied(*hasher),
    {
        let n = self.constraints.len();
        let mut i: usize = 0;
        while i < n
            invariant
                self.wf(),
                self.has_hash_constraint() ==> hasher is Some,
                n == self.constraints@.len(),
                i <= n,
                forall|j: int|
                    0 <= j < i ==> (#[trigger] self.constraints@[j]).holds(
                        self.variables@,
                        *hasher,
                    ),
            decreases n - i,
        {
            if !check_constraint(&self.constraints[i], &self.variables, hasher) {
                return false;
            }
            i += 1;
        }
        true
    }
}

/// The field sum of one side of a constraint, re-reading each referenced
/// value from the witness vector.
fn sum_terms(terms: &Vec<(Variable, FieldElement)>, vars: &Vec<Variable>) -> (s: FieldElement)
    requires
        terms_wf(terms@, vars@.len() as nat),
        forall|i: int| 0 <= i < vars@.len() ==> (#[trigger] vars@[i]).value.inv(),
    ensures
        s.inv(),
        s.as_int() == sum_value(terms@, vars@),
{
    let mut acc = FieldElement::zero();
    let mut i: usize = 0;
    while i < terms.len()
        invariant
            terms_wf(terms@, vars@.len() as nat),
            forall|k: int| 0 <= k < vars@.len() ==> (#[trigger] vars@[k]).value.inv(),
            i <= terms@.len(),
            acc.inv(),
            acc.as_int() == sum_value(terms@.take(i as int), vars@),
        decreases terms@.len() - i,
    {
        let idx = terms[i].0.index;
        let prod = vars[idx].value.mul(&terms[i].1);
        acc = acc.add(&prod);
        proof {
            assert(terms@.take(i + 1).drop_last() =~= terms@.take(i as int));
            assert(terms@.take(i + 1).last() == terms@[i as int]);
        }
        i += 1;
    }
    proof {
        assert(terms@.take(terms@.len() as int) =~= terms@);
    }
    acc
}

/// Evaluates one constraint against the current witness values.
fn check_constraint<H: HashFunction>(
    c: &Constraint,
    vars: &Vec<Variable>,
    hasher: &Option<H>,
) -> (res: bool)
    requires
        c.wf(vars@.len() as nat),
        forall|i: int| 0 <= i < vars@.len() ==> (#[trigger] vars@[i]).value.inv(),
        c.operation is Hash ==> hasher is Some,
    ensures
        res == c.holds(vars@, *hasher),
{
    let l = sum_terms(&c.left, vars);
    let r = sum_terms(&c.right, vars);
    let o = sum_terms(&c.output, vars);
    match c.operation {
        Operation::Add => l.add(&r).equals(&o),
        Operation::Mul => l.mul(&r).equals(&o),
        Operation::Hash => match hasher {
            Some(h) => h.hash(&l, &r).equals(&o),
            None => vstd::pervasive::unreached(),
        },
    }
}

} // verus!
