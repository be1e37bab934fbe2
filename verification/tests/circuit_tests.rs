use r1cs_circuits::circuit::{Circuit, CircuitError, Gate};
use r1cs_circuits::field::FieldElement;
use r1cs_circuits::hash_functions::{HashFunction, PoseidonHash};
use r1cs_circuits::r1cs::{Operation, Variable, R1CS};

#[test]
fn add_gate_accepts_a_correct_sum() {
    let mut circuit = Circuit::<PoseidonHash>::new(None);
    let a = circuit.add_input(FieldElement::from_i32(10));
    let b = circuit.add_input(FieldElement::from_i32(20));
    let out = circuit.add_input(FieldElement::from_i32(30));
    circuit.add_gate(Gate::Add(a, b, out));
    assert_eq!(circuit.generate_proof(), Ok(true));
}

#[test]
fn add_gate_rejects_a_wrong_sum() {
    let mut circuit = Circuit::<PoseidonHash>::new(None);
    let a = circuit.add_input(FieldElement::from_i32(10));
    let b = circuit.add_input(FieldElement::from_i32(20));
    let out = circuit.add_input(FieldElement::from_i32(31));
    circuit.add_gate(Gate::Add(a, b, out));
    assert_eq!(circuit.generate_proof(), Ok(false));
}

#[test]
fn mul_gate_accepts_a_correct_product() {
    let mut circuit = Circuit::<PoseidonHash>::new(None);
    let a = circuit.add_input(FieldElement::from_i32(3));
    let b = circuit.add_input(FieldElement::from_i32(4));
    let out = circuit.add_input(FieldElement::from_i32(12));
    circuit.add_gate(Gate::Mul(a, b, out));
    assert_eq!(circuit.generate_proof(), Ok(true));
}

#[test]
fn mul_gate_rejects_a_wrong_product() {
    let mut circuit = Circuit::<PoseidonHash>::new(None);
    let a = circuit.add_input(FieldElement::from_i32(3));
    let b = circuit.add_input(FieldElement::from_i32(4));
    let out = circuit.add_input(FieldElement::from_i32(13));
    circuit.add_gate(Gate::Mul(a, b, out));
    assert_eq!(circuit.generate_proof(), Ok(false));
}

#[test]
fn hash_gate_overwrites_its_output_slot() {
    let hasher = PoseidonHash::new();
    let expected = hasher.hash(&FieldElement::from_i32(1), &FieldElement::from_i32(2));

    let mut circuit = Circuit::new(Some(PoseidonHash::new()));
    let a = circuit.add_input(FieldElement::from_i32(1));
    let b = circuit.add_input(FieldElement::from_i32(2));
    // The output slot starts with a wrong placeholder; compilation must
    // overwrite it with the computed hash.
    let out = circuit.add_input(FieldElement::from_i32(0));
    circuit.add_gate(Gate::Hash(a, b, out));

    let rc = circuit.compile().expect("circuit compiles");
    assert_eq!(rc.variables[out].value, expected);
    assert!(rc.is_satisfied(&Some(PoseidonHash::new())));
    assert_eq!(circuit.generate_proof(), Ok(true));
}

#[test]
fn hash_gate_without_capability_is_a_configuration_error() {
    let mut circuit = Circuit::<PoseidonHash>::new(None);
    let a = circuit.add_input(FieldElement::from_i32(1));
    let b = circuit.add_input(FieldElement::from_i32(2));
    let out = circuit.add_input(FieldElement::from_i32(0));
    circuit.add_gate(Gate::Hash(a, b, out));
    assert_eq!(
        circuit.generate_proof(),
        Err(CircuitError::MissingHashFunction { gate: 0 })
    );
}

#[test]
fn out_of_range_wire_is_reported_before_any_mutation() {
    let mut circuit = Circuit::<PoseidonHash>::new(None);
    circuit.add_input(FieldElement::from_i32(1));
    circuit.add_input(FieldElement::from_i32(2));
    circuit.add_gate(Gate::Add(0, 1, 5));
    assert_eq!(
        circuit.generate_proof(),
        Err(CircuitError::WireOutOfRange { gate: 0, wire: 5 })
    );
    assert_eq!(
        circuit.compile().unwrap_err(),
        CircuitError::WireOutOfRange { gate: 0, wire: 5 }
    );
}

#[test]
fn first_invalid_gate_wins() {
    let mut circuit = Circuit::<PoseidonHash>::new(None);
    circuit.add_input(FieldElement::from_i32(1));
    circuit.add_gate(Gate::Add(0, 0, 0));
    circuit.add_gate(Gate::Hash(0, 0, 0));
    circuit.add_gate(Gate::Mul(9, 0, 0));
    assert_eq!(
        circuit.generate_proof(),
        Err(CircuitError::MissingHashFunction { gate: 1 })
    );
}

#[test]
fn get_input_returns_existing_indices_only() {
    let mut circuit = Circuit::<PoseidonHash>::new(None);
    let a = circuit.add_input(FieldElement::from_i32(7));
    assert_eq!(circuit.get_input(a), Some(&FieldElement::from_i32(7)));
    assert_eq!(circuit.get_input(a + 1), None);
}

#[test]
fn apply_hash_uses_the_configured_capability() {
    let circuit = Circuit::new(Some(PoseidonHash::new()));
    let x = FieldElement::from_i32(5);
    let y = FieldElement::from_i32(6);
    let direct = PoseidonHash::new().hash(&x, &y);
    assert_eq!(circuit.apply_hash(&x, &y), direct);
}

#[test]
fn is_satisfied_is_idempotent() {
    let mut circuit = Circuit::<PoseidonHash>::new(None);
    let a = circuit.add_input(FieldElement::from_i32(10));
    let b = circuit.add_input(FieldElement::from_i32(20));
    let out = circuit.add_input(FieldElement::from_i32(30));
    circuit.add_gate(Gate::Add(a, b, out));
    let rc = circuit.compile().expect("circuit compiles");
    let hasher: Option<PoseidonHash> = None;
    let first = rc.is_satisfied(&hasher);
    let second = rc.is_satisfied(&hasher);
    assert_eq!(first, second);
    assert!(first);
}

#[test]
fn r1cs_sums_respect_coefficients() {
    // 2*x + y = 10 with x = 3, y = 4.
    let mut rc = R1CS::new();
    rc.add_variable(Variable { index: 0, value: FieldElement::from_i32(3) });
    rc.add_variable(Variable { index: 1, value: FieldElement::from_i32(4) });
    rc.add_variable(Variable { index: 2, value: FieldElement::from_i32(10) });
    let term = |i: usize, v: i32, c: i32| {
        (
            Variable { index: i, value: FieldElement::from_i32(v) },
            FieldElement::from_i32(c),
        )
    };
    rc.add_constraint(
        vec![term(0, 3, 2)],
        vec![term(1, 4, 1)],
        vec![term(2, 10, 1)],
        Operation::Add,
    );
    let hasher: Option<PoseidonHash> = None;
    assert!(rc.is_satisfied(&hasher));
}

#[test]
fn r1cs_rereads_values_from_the_witness_vector() {
    // The constraint embeds stale copies; evaluation must use the current
    // witness values, which satisfy 1 + 2 = 3.
    let mut rc = R1CS::new();
    rc.add_variable(Variable { index: 0, value: FieldElement::from_i32(1) });
    rc.add_variable(Variable { index: 1, value: FieldElement::from_i32(2) });
    rc.add_variable(Variable { index: 2, value: FieldElement::from_i32(3) });
    let stale = |i: usize| {
        (
            Variable { index: i, value: FieldElement::from_i32(99) },
            FieldElement::from_i32(1),
        )
    };
    rc.add_constraint(
        vec![stale(0)],
        vec![stale(1)],
        vec![stale(2)],
        Operation::Add,
    );
    let hasher: Option<PoseidonHash> = None;
    assert!(rc.is_satisfied(&hasher));
}
