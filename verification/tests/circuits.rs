use arc_crypto::{
    CircuitBuilder, CircuitError, CircuitEvaluator, StateTransitionCircuit, TransferCircuit,
};

#[test]
fn test_builder_empty_circuit() {
    let circuit = CircuitBuilder::new("empty").build();
    assert_eq!(circuit.name, "empty");
    assert!(circuit.gates.is_empty());
    assert!(circuit.wires.is_empty());
    assert_eq!(circuit.constraints, 0);
}

#[test]
fn test_builder_public_input() {
    let mut builder = CircuitBuilder::new("input-test");
    let w0 = builder.add_public_input();
    let w1 = builder.add_public_input();
    let circuit = builder.build();

    assert_eq!(w0, 0);
    assert_eq!(w1, 1);
    assert_eq!(circuit.public_inputs.len(), 2);
    assert!(circuit.wires[0].is_public);
    assert!(circuit.wires[1].is_public);
}

#[test]
fn test_builder_add_gate() {
    let mut builder = CircuitBuilder::new("add-test");
    let a = builder.add_public_input();
    let b = builder.add_public_input();
    let c = builder.add(a, b);
    let circuit = builder.build();

    assert_eq!(c, 2);
    assert_eq!(circuit.wires.len(), 3);
    // Add gates are not counted as constraints (only Mul and Assert).
    assert_eq!(circuit.constraints, 0);
}

#[test]
fn test_builder_mul_gate() {
    let mut builder = CircuitBuilder::new("mul-test");
    let a = builder.add_public_input();
    let b = builder.add_public_input();
    let c = builder.mul(a, b);
    let circuit = builder.build();

    assert_eq!(c, 2);
    assert_eq!(circuit.constraints, 1); // Mul counts as a constraint.
}

#[test]
fn test_evaluate_simple_add() {
    let mut builder = CircuitBuilder::new("eval-add");
    let a = builder.add_public_input();
    let b = builder.add_public_input();
    let _c = builder.add(a, b);
    let circuit = builder.build();

    let witness = CircuitEvaluator::evaluate(&circuit, &[10, 20]).unwrap();
    assert_eq!(witness[0], 10);
    assert_eq!(witness[1], 20);
    assert_eq!(witness[2], 30);
}

#[test]
fn test_evaluate_simple_mul() {
    let mut builder = CircuitBuilder::new("eval-mul");
    let a = builder.add_public_input();
    let b = builder.add_public_input();
    let _c = builder.mul(a, b);
    let circuit = builder.build();

    let witness = CircuitEvaluator::evaluate(&circuit, &[7, 6]).unwrap();
    assert_eq!(witness[2], 42);
}

#[test]
fn test_evaluate_constant() {
    let mut builder = CircuitBuilder::new("const-test");
    let a = builder.add_public_input();
    let c = builder.constant(100);
    let _sum = builder.add(a, c);
    let circuit = builder.build();

    let witness = CircuitEvaluator::evaluate(&circuit, &[50]).unwrap();
    assert_eq!(witness[0], 50);
    assert_eq!(witness[1], 100); // constant
    assert_eq!(witness[2], 150); // sum
}

#[test]
fn test_evaluate_assert_pass() {
    let mut builder = CircuitBuilder::new("assert-pass");
    let a = builder.add_public_input();
    let b = builder.add_public_input();
    let c = builder.add(a, b);
    builder.assert_equal(c, 30);
    let circuit = builder.build();

    let result = CircuitEvaluator::evaluate(&circuit, &[10, 20]);
    assert!(result.is_ok());
}

#[test]
fn test_evaluate_assert_fail() {
    let mut builder = CircuitBuilder::new("assert-fail");
    let a = builder.add_public_input();
    let b = builder.add_public_input();
    let c = builder.add(a, b);
    builder.assert_equal(c, 99);
    let circuit = builder.build();

    let result = CircuitEvaluator::evaluate(&circuit, &[10, 20]);
    assert!(result.is_err());
    match result.unwrap_err() {
        CircuitError::ConstraintViolation { expected, got, .. } => {
            assert_eq!(expected, 99);
            assert_eq!(got, 30);
        }
        other => panic!("unexpected error: {other:?}"),
    }
}

#[test]
fn test_verify_constraints_valid() {
    let mut builder = CircuitBuilder::new("verify-valid");
    let a = builder.add_public_input();
    let b = builder.add_public_input();
    let _c = builder.mul(a, b);
    let circuit = builder.build();

    // Correct witness: 5 * 6 = 30.
    assert!(CircuitEvaluator::verify_constraints(&circuit, &[5, 6, 30]));
}

#[test]
fn test_verify_constraints_invalid() {
    let mut builder = CircuitBuilder::new("verify-invalid");
    let a = builder.add_public_input();
    let b = builder.add_public_input();
    let _c = builder.mul(a, b);
    let circuit = builder.build();

    // Incorrect witness: 5 * 6 != 31.
    assert!(!CircuitEvaluator::verify_constraints(&circuit, &[5, 6, 31]));
}

#[test]
fn test_transfer_circuit_valid() {
    let result = TransferCircuit::verify_transfer(100, 50, 30).unwrap();
    assert_eq!(result.new_sender_balance, 70);
    assert_eq!(result.new_receiver_balance, 80);
}

#[test]
fn test_transfer_circuit_insufficient_funds() {
    let result = TransferCircuit::verify_transfer(10, 50, 30);
    assert!(result.is_err());
    assert!(matches!(
        result.unwrap_err(),
        CircuitError::ConstraintViolation { .. }
    ));
}

#[test]
fn test_transfer_circuit_overflow() {
    let result = TransferCircuit::verify_transfer(100, u64::MAX, 1);
    assert!(result.is_err());
    assert!(matches!(
        result.unwrap_err(),
        CircuitError::ArithmeticOverflow(_)
    ));
}

#[test]
fn test_transfer_circuit_zero_amount() {
    let result = TransferCircuit::verify_transfer(100, 50, 0).unwrap();
    assert_eq!(result.new_sender_balance, 100);
    assert_eq!(result.new_receiver_balance, 50);
}

#[test]
fn test_state_transition_circuit_build() {
    let circuit = StateTransitionCircuit::build_state_transition_circuit(3);
    assert_eq!(circuit.name, "state-transition-verification");
    // 8 public inputs (4 old root limbs + 4 new root limbs) + private wires.
    assert_eq!(circuit.public_inputs.len(), 8);
}

#[test]
fn test_state_transition_verify() {
    let old_root = [1u8; 32];
    let new_root = [2u8; 32];
    let updates = vec![(0, 100, 200), (1, 300, 400)];
    let result = StateTransitionCircuit::verify_transition(&old_root, &new_root, &updates);
    assert!(result.is_ok());
}

#[test]
fn test_circuit_id_deterministic() {
    let c1 = CircuitBuilder::new("test").build();
    let c2 = CircuitBuilder::new("test").build();
    assert_eq!(c1.id, c2.id, "identical circuits must have identical IDs");
}

#[test]
fn test_circuit_id_differs_by_name() {
    let c1 = CircuitBuilder::new("circuit-a").build();
    let c2 = CircuitBuilder::new("circuit-b").build();
    assert_ne!(c1.id, c2.id, "differently-named circuits must have different IDs");
}

#[test]
fn test_evaluate_overflow_add() {
    let mut builder = CircuitBuilder::new("overflow-add");
    let a = builder.add_public_input();
    let b = builder.add_public_input();
    let _c = builder.add(a, b);
    let circuit = builder.build();

    let result = CircuitEvaluator::evaluate(&circuit, &[u64::MAX, 1]);
    assert!(matches!(result, Err(CircuitError::ArithmeticOverflow(_))));
}

#[test]
fn test_evaluate_overflow_mul() {
    let mut builder = CircuitBuilder::new("overflow-mul");
    let a = builder.add_public_input();
    let b = builder.add_public_input();
    let _c = builder.mul(a, b);
    let circuit = builder.build();

    let result = CircuitEvaluator::evaluate(&circuit, &[u64::MAX, 2]);
    assert!(matches!(result, Err(CircuitError::ArithmeticOverflow(_))));
}

#[test]
fn test_chained_operations() {
    // Build: result = (a + b) * c.
    let mut builder = CircuitBuilder::new("chained");
    let a = builder.add_public_input();
    let b = builder.add_public_input();
    let c = builder.add_public_input();
    let sum = builder.add(a, b);
    let product = builder.mul(sum, c);
    builder.assert_equal(product, 150);
    let circuit = builder.build();

    // (10 + 20) * 5 = 150.
    let result = CircuitEvaluator::evaluate(&circuit, &[10, 20, 5]);
    assert!(result.is_ok());
    let witness = result.unwrap();
    assert_eq!(witness[3], 30);   // sum
    assert_eq!(witness[4], 150);  // product
}
