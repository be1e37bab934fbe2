//! The circuit: an ordered input wire vector plus a gate list, compiled in
//! one pass into an R1CS instance. Add and Mul gates are check-only; a Hash
//! gate computes its output from the original input values and overwrites
//! the witness slot its output index names before its constraint is built
//! (last write wins when two hash gates share an output index). Every wire
//! index is validated before the pass, so compilation never mutates a
//! partially built witness.

use crate::field::{fe_values, modulus_int, FieldElement};
use crate::hash_functions::HashFunction;
use crate::r1cs::{sum_value, Constraint, Operation, Variable, R1CS};
use vstd::prelude::*;

verus! {

/// A single gate over three wire indices: two inputs and one output.
#[derive(Clone, Copy, Debug, PartialEq, Eq, Structural)]
pub enum Gate {
    Add(usize, usize, usize),
    Mul(usize, usize, usize),
    Hash(usize, usize, usize),
}

/// Why a compile was aborted: a gate referenced a wire outside the witness
/// vector, or a hash gate was compiled with no hash capability configured.
#[derive(Clone, Copy, Debug, PartialEq, Eq, Structural)]
pub enum CircuitError {
    WireOutOfRange { gate: usize, wire: usize },
    MissingHashFunction { gate: usize },
}

pub open spec fn gate_in_a(g: Gate) -> usize {
    match g {
        Gate::Add(a, _, _) => a,
        Gate::Mul(a, _, _) => a,
        Gate::Hash(a, _, _) => a,
    }
}

pub open spec fn gate_in_b(g: Gate) -> usize {
    match g {
        Gate::Add(_, b, _) => b,
        Gate::Mul(_, b, _) => b,
        Gate::Hash(_, b, _) => b,
    }
}

pub open spec fn gate_out(g: Gate) -> usize {
    match g {
        Gate::Add(_, _, o) => o,
        Gate::Mul(_, _, o) => o,
        Gate::Hash(_, _, o) => o,
    }
}

/// The constraint tag a gate compiles to.
pub open spec fn gate_operation(g: Gate) -> Operation {
    match g {
        Gate::Add(_, _, _) => Operation::Add,
        Gate::Mul(_, _, _) => Operation::Mul,
        Gate::Hash(_, _, _) => Operation::Hash,
    }
}

/// The error a gate at list position `i` earns over `n` wires: the first
/// wire index not below `n`, tried in the order input-a, input-b, output;
/// then a missing hash capability for a hash gate; `None` otherwise.
pub open spec fn gate_error(g: Gate, i: int, n: nat, has_hash: bool) -> Option<CircuitError> {
    if gate_in_a(g) >= n {
        Some(CircuitError::WireOutOfRange { gate: i as usize, wire: gate_in_a(g) })
    } else if gate_in_b(g) >= n {
        Some(CircuitError::WireOutOfRange { gate: i as usize, wire: gate_in_b(g) })
    } else if gate_out(g) >= n {
        Some(CircuitError::WireOutOfRange { gate: i as usize, wire: gate_out(g) })
    } else if g is Hash && !has_hash {
        Some(CircuitError::MissingHashFunction { gate: i as usize })
    } else {
        None
    }
}

/// The verdict of the first invalid gate at or after position `i`, if any.
pub open spec fn first_error_from(gates: Seq<Gate>, i: int, n: nat, has_hash: bool) -> Option<
    CircuitError,
>
    decreases gates.len() - i,
{
    if i < 0 || i >= gates.len() {
        None
    } else if gate_error(gates[i], i, n, has_hash) is Some {
        gate_error(gates[i], i, n, has_hash)
    } else {
        first_error_from(gates, i + 1, n, has_hash)
    }
}

/// What the configured capability returns on two values; irrelevant when no
/// capability is configured, since validation rejects hash gates then.
pub open spec fn spec_hash_val<H: HashFunction>(hasher: Option<H>, a: int, b: int) -> int {
    match hasher {
        Some(h) => h.hash_spec(a, b),
        None => 0,
    }
}

/// The witness after the first `k` gates of the compile pass: hash gates
/// overwrite their output slot with the hash of the original input values
/// (not of possibly overwritten witness slots); other gates change nothing.
pub open spec fn witness_after<H: HashFunction>(
    inputs: Seq<int>,
    gates: Seq<Gate>,
    hasher: Option<H>,
    k: int,
) -> Seq<int>
    decreases k,
{
    if k <= 0 {
        inputs
    } else {
        let w = witness_after(inputs, gates, hasher, k - 1);
        match gates[k - 1] {
            Gate::Hash(a, b, o) => w.update(
                o as int,
                spec_hash_val(hasher, inputs[a as int], inputs[b as int]),
            ),
            Gate::Add(_, _, _) => w,
            Gate::Mul(_, _, _) => w,
        }
    }
}

/// What a compiled gate demands of the final witness, re-read by index.
pub open spec fn gate_holds<H: HashFunction>(w: Seq<int>, g: Gate, hasher: Option<H>) -> bool {
    match g {
        Gate::Add(a, b, o) => (w[a as int] + w[b as int]) % modulus_int() == w[o as int],
        Gate::Mul(a, b, o) => (w[a as int] * w[b as int]) % modulus_int() == w[o as int],
        Gate::Hash(a, b, o) => hasher matches Some(h) && h.hash_spec(w[a as int], w[b as int])
            == w[o as int],
    }
}

/// The values currently assigned to a witness vector, in slot order.
pub open spec fn var_values(vars: Seq<Variable>) -> Seq<int> {
    Seq::new(vars.len(), |i: int| vars[i].value.as_int())
}

/// The shape a gate's constraint takes: three singleton sides with
/// coefficient one, pointing at that gate's wires, under its operation tag.
pub open spec fn constraint_of_gate(c: Constraint, g: Gate) -> bool {
    &&& c.left@.len() == 1 && c.left@[0].0.index == gate_in_a(g) && c.left@[0].1.as_int() == 1
    &&& c.right@.len() == 1 && c.right@[0].0.index == gate_in_b(g) && c.right@[0].1.as_int() == 1
    &&& c.output@.len() == 1 && c.output@[0].0.index == gate_out(g) && c.output@[0].1.as_int()
        == 1
    &&& c.operation == gate_operation(g)
}

/// A gate list over an input wire vector, with an optional hash capability
/// and write-only output bookkeeping.
pub struct Circuit<H: HashFunction> {
    hash_function: Option<H>,
    inputs: Vec<FieldElement>,
    gates: Vec<Gate>,
    outputs: Vec<FieldElement>,
}

impl<H: HashFunction> Circuit<H> {
    pub closed spec fn spec_hasher(self) -> Option<H> {
        self.hash_function
    }

    pub closed spec fn spec_inputs(self) -> Seq<FieldElement> {
        self.inputs@
    }

    pub closed spec fn spec_gates(self) -> Seq<Gate> {
        self.gates@
    }

    pub closed spec fn spec_outputs(self) -> Seq<FieldElement> {
        self.outputs@
    }

    /// Every input wire carries a well-formed field element.
    pub open spec fn wf(self) -> bool {
        forall|i: int| 0 <= i < self.spec_inputs().len() ==> (#[trigger] self.spec_inputs()[i]).inv()
    }

    /// The verdict a compile of this circuit reaches: the first invalid
    /// gate's error, or nothing when every gate is valid.
    pub open spec fn first_error_spec(self) -> Option<CircuitError> {
        first_error_from(
            self.spec_gates(),
            0,
            self.spec_inputs().len() as nat,
            self.spec_hasher() is Some,
        )
    }

    /// The final witness of the compile pass, as values.
    pub open spec fn final_witness(self) -> Seq<int> {
        witness_after(
            fe_values(self.spec_inputs()),
            self.spec_gates(),
            self.spec_hasher(),
            self.spec_gates().len() as int,
        )
    }

    /// Whether every compiled gate is satisfied by the final witness.
    pub open spec fn satisfied(self) -> bool {
        forall|i: int|
            0 <= i < self.spec_gates().len() ==> gate_holds(
                self.final_witness(),
                #[trigger] self.spec_gates()[i],
                self.spec_hasher(),
            )
    }

    /// What a successful compile hands back: one witness slot per input in
    /// order, the final witness values, and one constraint per gate.
    pub open spec fn compiles_to(self, rc: R1CS) -> bool {
        &&& rc.variables@.len() == self.spec_inputs().len()
        &&& (forall|i: int|
            0 <= i < rc.variables@.len() ==> (#[trigger] rc.variables@[i]).index == i)
        &&& var_values(rc.variables@) == self.final_witness()
        &&& rc.constraints@.len() == self.spec_gates().len()
        &&& (forall|i: int|
            0 <= i < rc.constraints@.len() ==> constraint_of_gate(
                #[trigger] rc.constraints@[i],
                self.spec_gates()[i],
            ))
        &&& rc.wf()
    }

    /// Creates an empty circuit around an optional hash capability.
    pub fn new(hash_function: Option<H>) -> (r: Circuit<H>)
        ensures
            r.spec_hasher() == hash_function,
            r.spec_inputs().len() == 0,
            r.spec_gates().len() == 0,
            r.spec_outputs().len() == 0,
            r.wf(),
    {
        Circuit { hash_function, inputs: Vec::new(), gates: Vec::new(), outputs: Vec::new() }
    }

    /// Appends an input wire and returns its index.
    pub fn add_input(&mut self, input: FieldElement) -> (index: usize)
        requires
            input.inv(),
        ensures
            index == old(self).spec_inputs().len(),
            final(self).spec_inputs() == old(self).spec_inputs().push(input),
            final(self).spec_gates() == old(self).spec_gates(),
            final(self).spec_hasher() == old(self).spec_hasher(),
            final(self).spec_outputs() == old(self).spec_outputs(),
            old(self).wf() ==> final(self).wf(),
    {
        let index = self.inputs.len();
        self.inputs.push(input);
        index
    }

    /// Appends a gate.
    pub fn add_gate(&mut self, gate: Gate)
        ensures
            final(self).spec_gates() == old(self).spec_gates().push(gate),
            final(self).spec_inputs() == old(self).spec_inputs(),
            final(self).spec_hasher() == old(self).spec_hasher(),
            final(self).spec_outputs() == old(self).spec_outputs(),
    {
        self.gates.push(gate);
    }

    /// Appends to the write-only output bookkeeping; outputs do not
    /// participate in compilation.
    pub fn add_output(&mut self, output: FieldElement)
        ensures
            final(self).spec_outputs() == old(self).spec_outputs().push(output),
            final(self).spec_inputs() == old(self).spec_inputs(),
            final(self).spec_gates() == old(self).spec_gates(),
            final(self).spec_hasher() == old(self).spec_hasher(),
    {
        self.outputs.push(output);
    }

    /// Applies the configured hash capability to two elements; configuring
    /// one is the caller's responsibility, a missing capability is a fatal
    /// configuration error.
    pub fn apply_hash(&self, a: &FieldElement, b: &FieldElement) -> (r: FieldElement)
        requires
            self.spec_hasher() is Some,
            a.inv(),
            b.inv(),
        ensures
            r.inv(),
            r.as_int() == spec_hash_val(self.spec_hasher(), a.as_int(), b.as_int()),
    {
        match &self.hash_function {
            Some(h) => h.hash(a, b),
            None => vstd::pervasive::unreached(),
        }
    }

    /// Retrieves an input value by index, if it exists.
    pub fn get_input(&self, index: usize) -> (r: Option<&FieldElement>)
        ensures
            match r {
                Some(f) => index < self.spec_inputs().len() && *f == self.spec_inputs()[index as int],
                None => index >= self.spec_inputs().len(),
            },
    {
        if index < self.inputs.len() {
            Some(&self.inputs[index])
        } else {
            None
        }
    }

    /// Compiles every gate, in order, into a fresh R1CS over the current inputs.
    /// All wire indices are examined up front, so a bad gate aborts the
    /// compile before any witness mutation; otherwise each gate adds one
    /// constraint, in order, and a hash gate first overwrites its output
    /// slot with the computed hash.
    pub fn compile(&self) -> (r: Result<R1CS, CircuitError>)
        requires
            self.wf(),
        ensures
            match r {
                Result::Ok(rc) => self.first_error_spec() is None && self.compiles_to(rc),
                Result::Err(e) => self.first_error_spec() == Some(e),
            },
    {
        let n = self.inputs.len();
        let has_hash = self.hash_function.is_some();
        let num_gates = self.gates.len();
        let ghost gates = self.spec_gates();

        let mut i: usize = 0;
        while i < num_gates
            invariant
                num_gates == gates.len(),
                gates == self.spec_gates(),
                n == self.spec_inputs().len(),
                has_hash == (self.spec_hasher() is Some),
                i <= num_gates,
                first_error_from(gates, 0, n as nat, has_hash) == first_error_from(
                    gates,
                    i as int,
                    n as nat,
                    has_hash,
                ),
            decreases num_gates - i,
        {
            let g = self.gates[i];
            let (a, b, o) = match g {
                Gate::Add(a, b, o) => (a, b, o),
                Gate::Mul(a, b, o) => (a, b, o),
                Gate::Hash(a, b, o) => (a, b, o),
            };
            if a >= n {
                return Err(CircuitError::WireOutOfRange { gate: i, wire: a });
            }
            if b >= n {
                return Err(CircuitError::WireOutOfRange { gate: i, wire: b });
            }
            if o >= n {
                return Err(CircuitError::WireOutOfRange { gate: i, wire: o });
            }
            let is_hash_gate = match g {
                Gate::Hash(_, _, _) => true,
                Gate::Add(_, _, _) => false,
                Gate::Mul(_, _, _) => false,
            };
            if is_hash_gate && !has_hash {
                return Err(CircuitError::MissingHashFunction { gate: i });
            }
            proof {
                assert(gate_error(gates[i as int], i as int, n as nat, has_hash) is None);
            }
            i += 1;
        }
        proof {
            assert(self.first_error_spec() is None);
            lemma_first_error_none(gates, 0, n as nat, has_hash);
        }

        let mut rc = R1CS::new();
        let mut vi: usize = 0;
        while vi < n
            invariant
                self.wf(),
                vi <= n,
                n == self.spec_inputs().len(),
                rc.variables@.len() == vi,
                rc.constraints@.len() == 0,
                forall|k: int| 0 <= k < vi ==> (#[trigger] rc.variables@[k]).index == k,
                forall|k: int| 0 <= k < vi ==> (#[trigger] rc.variables@[k]).value.inv(),
                forall|k: int|
                    0 <= k < vi ==> (#[trigger] rc.variables@[k]).value.as_int()
                        == self.spec_inputs()[k].as_int(),
            decreases n - vi,
        {
            let v = Variable { index: vi, value: self.inputs[vi].dup() };
            rc.add_variable(v);
            vi += 1;
        }
        proof {
            assert(var_values(rc.variables@) =~= witness_after(
                fe_values(self.spec_inputs()),
                gates,
                self.spec_hasher(),
                0,
            ));
        }

        let mut gi: usize = 0;
        while gi < num_gates
            invariant
                self.wf(),
                num_gates == gates.len(),
                gates == self.spec_gates(),
                n == self.spec_inputs().len(),
                has_hash == (self.spec_hasher() is Some),
                forall|j: int|
                    0 <= j < num_gates ==> gate_error(
                        #[trigger] gates[j],
                        j,
                        n as nat,
                        has_hash,
                    ) is None,
                gi <= num_gates,
                rc.variables@.len() == n,
                forall|k: int| 0 <= k < n ==> (#[trigger] rc.variables@[k]).index == k,
                forall|k: int| 0 <= k < n ==> (#[trigger] rc.variables@[k]).value.inv(),
                var_values(rc.variables@) == witness_after(
                    fe_values(self.spec_inputs()),
                    gates,
                    self.spec_hasher(),
                    gi as int,
                ),
                rc.constraints@.len() == gi,
                forall|j: int|
                    0 <= j < gi ==> constraint_of_gate(#[trigger] rc.constraints@[j], gates[j]),
                forall|j: int| 0 <= j < gi ==> (#[trigger] rc.constraints@[j]).wf(n as nat),
            decreases num_gates - gi,
        {
            let g = self.gates[gi];
            proof {
                assert(gate_error(gates[gi as int], gi as int, n as nat, has_hash) is None);
            }
            let ghost w_before = var_values(rc.variables@);
            match g {
                Gate::Add(a, b, o) => {
                    let left = unit_term(&rc.variables[a]);
                    let right = unit_term(&rc.variables[b]);
                    let output = unit_term(&rc.variables[o]);
                    rc.add_constraint(left, right, output, Operation::Add);
                },
                Gate::Mul(a, b, o) => {
                    let left = unit_term(&rc.variables[a]);
                    let right = unit_term(&rc.variables[b]);
                    let output = unit_term(&rc.variables[o]);
                    rc.add_constraint(left, right, output, Operation::Mul);
                },
                Gate::Hash(a, b, o) => {
                    let h = match &self.hash_function {
                        Some(h) => h,
                        None => vstd::pervasive::unreached(),
                    };
                    let computed = h.hash(&self.inputs[a], &self.inputs[b]);
                    rc.variables.set(o, Variable { index: o, value: computed });
                    proof {
                        assert(var_values(rc.variables@) =~= w_before.update(
                            o as int,
                            spec_hash_val(
                                self.spec_hasher(),
                                fe_values(self.spec_inputs())[a as int],
                                fe_values(self.spec_inputs())[b as int],
                            ),
                        ));
                    }
                    let left = unit_term(&rc.variables[a]);
                    let right = unit_term(&rc.variables[b]);
                    let output = unit_term(&rc.variables[o]);
                    rc.add_constraint(left, right, output, Operation::Hash);
                },
            }
            gi += 1;
        }
        Ok(rc)
    }

    /// Compiles the circuit and checks every constraint, reporting whether
    /// the witness satisfies the compiled system; an invalid gate or a
    /// missing hash capability aborts with that gate's error instead.
    pub fn generate_proof(&self) -> (r: Result<bool, CircuitError>)
        requires
            self.wf(),
        ensures
            match r {
                Result::Ok(b) => self.first_error_spec() is None && b == self.satisfied(),
                Result::Err(e) => self.first_error_spec() == Some(e),
            },
    {
        let rc = match self.compile() {
            Ok(rc) => rc,
            Err(e) => {
                return Err(e);
            },
        };
        proof {
            lemma_first_error_none(
                self.spec_gates(),
                0,
                self.spec_inputs().len() as nat,
                self.spec_hasher() is Some,
            );
            if rc.has_hash_constraint() {
                let i = choose|i: int|
                    0 <= i < rc.constraints@.len() && (#[trigger] rc.constraints@[i]).operation
                        is Hash;
                assert(constraint_of_gate(rc.constraints@[i], self.spec_gates()[i]));
                assert(self.spec_gates()[i] is Hash);
            }
            lemma_compiled_satisfaction(*self, rc);
        }
        let b = rc.is_satisfied(&self.hash_function);
        Ok(b)
    }
}

/// A singleton constraint side: the given witness slot with coefficient one.
fn unit_term(var: &Variable) -> (r: Vec<(Variable, FieldElement)>)
    ensures
        r@.len() == 1,
        r@[0].0.index == var.index,
        var.value.inv() ==> r@[0].0.value.inv(),
        r@[0].1.as_int() == 1,
        r@[0].1.inv(),
{
    let mut v: Vec<(Variable, FieldElement)> = Vec::new();
    v.push((var.dup(), FieldElement::one()));
    v
}

/// When no gate at or after position `i` is invalid, each one individually
/// passes validation.
proof fn lemma_first_error_none(gates: Seq<Gate>, i: int, n: nat, has_hash: bool)
    requires
        0 <= i,
        first_error_from(gates, i, n, has_hash) is None,
    ensures
        forall|j: int| i <= j < gates.len() ==> gate_error(#[trigger] gates[j], j, n, has_hash) is None,
    decreases gates.len() - i,
{
    if i < gates.len() {
        lemma_first_error_none(gates, i + 1, n, has_hash);
    }
}

/// The sum of a singleton side with coefficient one is the witness value at
/// its index.
proof fn lemma_unit_sum(terms: Seq<(Variable, FieldElement)>, vars: Seq<Variable>)
    requires
        terms.len() == 1,
        terms[0].1.as_int() == 1,
        terms[0].0.index < vars.len(),
        vars[terms[0].0.index as int].value.inv(),
    ensures
        sum_value(terms, vars) == vars[terms[0].0.index as int].value.as_int(),
{
    let v = vars[terms[0].0.index as int].value.as_int();
    assert(terms.drop_last().len() == 0);
    assert(sum_value(terms.drop_last(), vars) == 0);
    assert(terms.last() == terms[0]);
    vars[terms[0].0.index as int].value.lemma_inv_bounds();
    crate::digits::lemma_mod_noop_below(v, modulus_int());
}

/// A compiled system is satisfied exactly when every gate's demand holds of
/// the final witness.
proof fn lemma_compiled_satisfaction<H: HashFunction>(c: Circuit<H>, rc: R1CS)
    requires
        c.wf(),
        c.compiles_to(rc),
    ensures
        rc.satisfied(c.spec_hasher()) <==> c.satisfied(),
{
    let w = c.final_witness();
    let vars = rc.variables@;
    let hasher = c.spec_hasher();
    assert forall|i: int| 0 <= i < rc.constraints@.len() implies ((#[trigger] rc.constraints@[i]).holds(
        vars,
        hasher,
    ) == gate_holds(w, c.spec_gates()[i], hasher)) by {
        let con = rc.constraints@[i];
        let g = c.spec_gates()[i];
        assert(constraint_of_gate(con, g));
        lemma_unit_sum(con.left@, vars);
        lemma_unit_sum(con.right@, vars);
        lemma_unit_sum(con.output@, vars);
        assert(w[gate_in_a(g) as int] == vars[gate_in_a(g) as int].value.as_int());
        assert(w[gate_in_b(g) as int] == vars[gate_in_b(g) as int].value.as_int());
        assert(w[gate_out(g) as int] == vars[gate_out(g) as int].value.as_int());
    }
    if rc.satisfied(hasher) {
        assert forall|i: int| 0 <= i < c.spec_gates().len() implies gate_holds(
            w,
            #[trigger] c.spec_gates()[i],
            hasher,
        ) by {
            assert(rc.constraints@[i].holds(vars, hasher));
        }
    }
    if c.satisfied() {
        assert forall|i: int| 0 <= i < rc.constraints@.len() implies (#[trigger] rc.constraints@[i]).holds(
            vars,
            hasher,
        ) by {
            assert(gate_holds(w, c.spec_gates()[i], hasher));
        }
    }
}

} // verus!
