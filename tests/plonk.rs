use plonk::{
    eval_q_row, evaluate_row, Bindings, Gate, GateType, PlonkError, Program, QGate, Trace, Wire,
};

const EQUATION: &str = "e * x + x - 1";

fn bindings(pairs: &[(char, i32)]) -> Bindings {
    let mut b = Bindings::new();
    for (k, v) in pairs {
        b.insert(*k, *v);
    }
    b
}

#[test]
fn test_eval_add_gate() {
    let gate = QGate::new_add();
    let trace = Trace(1, 2, 3);
    assert_eq!(eval_q_row(&gate, &trace), 0);
}

#[test]
fn test_eval_mul_gate() {
    let gate = QGate::new_mul();
    let trace = Trace(2, 5, 10);
    assert_eq!(eval_q_row(&gate, &trace), 0);
}

fn text(w: &Wire) -> String {
    w.label().iter().collect()
}

fn labels(g: &(Wire, Wire, Wire)) -> (String, String, String) {
    (text(&g.0), text(&g.1), text(&g.2))
}

#[test]
fn test_new_gates() {
    let expected_gates: Vec<((String, String, String), GateType)> = vec![
        (
            ("e".to_string(), "x".to_string(), "GO:0".to_string()),
            GateType::Mul,
        ),
        (
            ("GO:0".to_string(), "x".to_string(), "GO:1".to_string()),
            GateType::Add,
        ),
        (
            ("GO:1".to_string(), "1".to_string(), "GO:2".to_string()),
            GateType::Sub,
        ),
    ];

    let output_gates = Gate::new_gate_matrix(EQUATION).unwrap();
    assert_eq!(expected_gates[0].0, labels(&output_gates[0].gate));
    assert_eq!(expected_gates[0].1, output_gates[0].gate_type);
    assert_eq!(expected_gates[1].0, labels(&output_gates[1].gate));
    assert_eq!(expected_gates[1].1, output_gates[1].gate_type);
    assert_eq!(expected_gates[2].0, labels(&output_gates[2].gate));
    assert_eq!(expected_gates[2].1, output_gates[2].gate_type);
}

#[test]
fn test_new_v_matrix() {
    let expected_v_matrix: Vec<(String, String, String)> = vec![
        ("e".to_string(), "x".to_string(), "GO:0".to_string()),
        ("GO:0".to_string(), "x".to_string(), "GO:1".to_string()),
        ("GO:1".to_string(), "1".to_string(), "GO:2".to_string()),
    ];

    let output_gates = Gate::new_gate_matrix(EQUATION).unwrap();
    let v_matrix = Gate::generate_v_matrix(&output_gates);
    assert_eq!(expected_v_matrix[0], labels(&v_matrix[0]));
    assert_eq!(expected_v_matrix[1], labels(&v_matrix[1]));
    assert_eq!(expected_v_matrix[2], labels(&v_matrix[2]));
}

#[test]
fn wires_of_example_are_typed() {
    let gates = Gate::new_gate_matrix(EQUATION).unwrap();
    assert_eq!(
        gates[2].gate,
        (Wire::GateOutput(1), Wire::Literal(1), Wire::GateOutput(2))
    );
}

#[test]
fn labels_of_large_gate_indices() {
    assert_eq!(text(&Wire::GateOutput(1234)), "GO:1234");
    assert_eq!(text(&Wire::GateOutput(10)), "GO:10");
    assert_eq!(text(&Wire::Literal(7)), "7");
    assert_eq!(text(&Wire::Variable('q')), "q");
}

#[test]
fn test_generate_trace() {
    let expected_trace = vec![Trace(2, 3, 6), Trace(6, 3, 9), Trace(9, 1, 8)];
    let gates = Gate::new_gate_matrix(EQUATION).unwrap();
    let mut inputs = Bindings::new();
    inputs.insert('e', 2);
    inputs.insert('x', 3);

    let trace = Trace::new_trace_matrix(&inputs, &gates).unwrap();

    assert_eq!(expected_trace[0], trace[0]);
    assert_eq!(expected_trace[1], trace[1]);
    assert_eq!(expected_trace[2], trace[2]);
}

#[test]
fn test_evaluate_q_matrix() {
    let mut inputs = Bindings::new();
    inputs.insert('e', 2);
    inputs.insert('x', 3);
    let program = Program::new(inputs, EQUATION).unwrap();

    println!("{:?}", program.trace());

    program.evaluate_q_matrix().unwrap();
}

#[test]
fn compile_without_spaces_gives_three_chained_gates() {
    let gates = Gate::new_gate_matrix("e*x+x-1").unwrap();
    assert_eq!(gates.len(), 3);
    assert_eq!(
        Gate::generate_gates(&gates),
        vec![GateType::Mul, GateType::Add, GateType::Sub]
    );
    assert_eq!(
        Gate::generate_v_matrix(&gates),
        vec![
            (Wire::Variable('e'), Wire::Variable('x'), Wire::GateOutput(0)),
            (Wire::GateOutput(0), Wire::Variable('x'), Wire::GateOutput(1)),
            (Wire::GateOutput(1), Wire::Literal(1), Wire::GateOutput(2)),
        ]
    );
}

#[test]
fn program_trace_matches_left_to_right_evaluation() {
    let program = Program::new(bindings(&[('e', 2), ('x', 3)]), "e*x+x-1").unwrap();
    assert_eq!(
        program.trace(),
        &vec![Trace(2, 3, 6), Trace(6, 3, 9), Trace(9, 1, 8)]
    );
}

#[test]
fn every_row_of_example_evaluates_to_zero() {
    let program = Program::new(bindings(&[('e', 2), ('x', 3)]), "e*x+x-1").unwrap();
    assert_eq!(program.evaluate_q_matrix(), Ok(()));
    for i in 0..program.gates().len() {
        let value = evaluate_row(&program.gates()[i], &program.v_matrix()[i].1, &program.trace()[i]);
        assert_eq!(value, 0);
    }
}

#[test]
fn missing_binding_is_a_mismatch() {
    let r = Program::new(bindings(&[('e', 2)]), "e*x+x-1");
    assert_eq!(r.err(), Some(PlonkError::BindingMismatchError));
}

#[test]
fn extra_binding_is_a_mismatch() {
    let r = Program::new(bindings(&[('e', 2), ('x', 3), ('y', 4)]), "e*x+x-1");
    assert_eq!(r.err(), Some(PlonkError::BindingMismatchError));
}

#[test]
fn mismatch_is_reported_before_parsing() {
    let r = Program::new(bindings(&[]), "e*+x");
    assert_eq!(r.err(), Some(PlonkError::BindingMismatchError));
}

#[test]
fn subtraction_of_literal_folds_into_constant_selector() {
    let gates = Gate::new_gate_matrix("e*x+x-1").unwrap();
    let sub = &gates[2];
    let selectors = QGate::for_gate(&sub.gate_type, &sub.gate.1);
    assert_eq!(selectors, QGate(1, 0, 0, -1, -1));
    assert_eq!(eval_q_row(&selectors, &Trace(9, 0, 8)), 0);
    let trace = Trace::new_trace_matrix(&bindings(&[('e', 2), ('x', 3)]), &gates).unwrap();
    assert_eq!(trace[2], Trace(9, 1, 8));
    assert_eq!(evaluate_row(&sub.gate_type, &sub.gate.1, &trace[2]), 0);
}

#[test]
fn addition_of_literal_folds_into_constant_selector() {
    let selectors = QGate::for_gate(&GateType::Add, &Wire::Literal(7));
    assert_eq!(selectors, QGate(1, 0, 0, -1, 7));
    assert_eq!(evaluate_row(&GateType::Add, &Wire::Literal(7), &Trace(5, 7, 12)), 0);
    assert_eq!(evaluate_row(&GateType::Add, &Wire::Literal(7), &Trace(5, 7, 13)), -1);
}

#[test]
fn selectors_of_wire_operands_are_unfolded() {
    assert_eq!(QGate::for_gate(&GateType::Mul, &Wire::Literal(3)), QGate::new_mul());
    assert_eq!(QGate::for_gate(&GateType::Add, &Wire::Variable('x')), QGate::new_add());
    assert_eq!(QGate::for_gate(&GateType::Sub, &Wire::GateOutput(0)), QGate::new_add());
    assert_eq!(evaluate_row(&GateType::Sub, &Wire::Variable('y'), &Trace(10, 4, 6)), 0);
    assert_eq!(evaluate_row(&GateType::Sub, &Wire::Variable('y'), &Trace(10, 4, 14)), -8);
    assert_eq!(evaluate_row(&GateType::Mul, &Wire::Variable('y'), &Trace(3, 4, 11)), 1);
}

#[test]
fn eval_q_row_formula() {
    // 2·1 + 3·2 + 2·3·4 + 5·(-1) + 7
    assert_eq!(eval_q_row(&QGate(1, 2, 4, -1, 7), &Trace(2, 3, 5)), 34);
}

#[test]
fn eval_q_row_extreme_values_do_not_overflow() {
    let q = QGate(i32::MAX, i32::MAX, i32::MAX, i32::MAX, i32::MAX);
    let t = Trace(i32::MIN, i32::MIN, i32::MIN);
    let m = i32::MIN as i128;
    let k = i32::MAX as i128;
    assert_eq!(eval_q_row(&q, &t), m * k + m * k + m * m * k + m * k + k);
}

#[test]
fn compiling_twice_gives_identical_circuits() {
    let a = Gate::new_gate_matrix("a-b*3+c").unwrap();
    let b = Gate::new_gate_matrix("a-b*3+c").unwrap();
    assert_eq!(Gate::generate_v_matrix(&a), Gate::generate_v_matrix(&b));
    assert_eq!(Gate::generate_gates(&a), Gate::generate_gates(&b));
}

#[test]
fn circuit_does_not_depend_on_bindings() {
    let p = Program::new(bindings(&[('e', 2), ('x', 3)]), "e*x+x-1").unwrap();
    let q = Program::new(bindings(&[('e', -7), ('x', 100)]), "e*x+x-1").unwrap();
    assert_eq!(p.v_matrix(), q.v_matrix());
    assert_eq!(p.gates(), q.gates());
    assert_ne!(p.trace(), q.trace());
}

#[test]
fn matching_bindings_always_evaluate_valid() {
    let equations = ["a+b", "a-b", "a*b", "a*b-9+a", "a - 0 * b + 5", "z"];
    let values = [(0, 0), (1, -1), (-13, 27), (46340, 46340), (i32::MAX, 0)];
    for eq in equations {
        for (x, y) in values {
            let mut pairs = vec![('a', x)];
            if eq.contains('b') {
                pairs.push(('b', y));
            }
            if eq == "z" {
                pairs = vec![('z', x)];
            }
            match Program::new(bindings(&pairs), eq) {
                Ok(p) => assert_eq!(p.evaluate_q_matrix(), Ok(())),
                Err(e) => assert_eq!(e, PlonkError::OverflowError),
            }
        }
    }
}

#[test]
fn single_operand_gives_empty_circuit() {
    let p = Program::new(bindings(&[('z', 4)]), " z ").unwrap();
    assert!(p.gates().is_empty());
    assert!(p.trace().is_empty());
    assert_eq!(p.evaluate_q_matrix(), Ok(()));
}

#[test]
fn malformed_equations_fail_to_parse() {
    for eq in ["", "   ", "+x", "x+", "x++y", "x+-y", "xy+1", "x+12", "x/y", "x+(y)", "x.y"] {
        assert_eq!(
            Gate::new_gate_matrix(eq).err(),
            Some(PlonkError::ParseError),
            "{:?}",
            eq
        );
    }
}

#[test]
fn unicode_letters_are_variables() {
    let gates = Gate::new_gate_matrix("é+1").unwrap();
    assert_eq!(gates[0].gate.0, Wire::Variable('é'));
    let p = Program::new(bindings(&[('é', 4)]), "é+1").unwrap();
    assert_eq!(p.trace(), &vec![Trace(4, 1, 5)]);
}

#[test]
fn unbound_variable_is_unresolved() {
    let gates = Gate::new_gate_matrix("x*2").unwrap();
    let r = Trace::new_trace_matrix(&bindings(&[('y', 1)]), &gates);
    assert_eq!(r, Err(PlonkError::UnresolvedWireError));
}

#[test]
fn overflowing_output_is_reported() {
    let r = Program::new(bindings(&[('x', 100000)]), "x*x*x");
    assert_eq!(r.err(), Some(PlonkError::OverflowError));
    let gates = Gate::new_gate_matrix("x-1").unwrap();
    let t = Trace::new_trace_matrix(&bindings(&[('x', i32::MIN)]), &gates);
    assert_eq!(t, Err(PlonkError::OverflowError));
}

#[test]
fn bindings_replace_earlier_values() {
    let mut b = Bindings::new();
    b.insert('x', 1);
    b.insert('x', 5);
    assert_eq!(b.get('x'), Some(5));
    assert_eq!(b.get('y'), None);
    assert_eq!(b.keys(), vec!['x']);
}

#[test]
fn constraint_violation_names_row_and_value() {
    let e = PlonkError::ConstraintViolation { row: 1, value: -1 };
    assert_ne!(e, PlonkError::ParseError);
    assert_eq!(evaluate_row(&GateType::Mul, &Wire::Variable('x'), &Trace(2, 3, 7)), -1);
}
