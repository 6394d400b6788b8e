use plonkish::checker::{check, CheckOutcome, Failure};
use plonkish::field::Felt;
use plonkish::layout::Layouter;
use plonkish::system::{
    Cell, Column, ColumnKind, ConfigError, ConstraintSystem, Error, Expr, Selector,
    SynthesisError,
};

#[test]
fn field_arithmetic_exact_values() {
    let five = Felt::from_u64(5);
    let seven = Felt::from_u64(7);
    assert_eq!(five.add(seven), Felt::from_u64(12));
    assert_eq!(Felt::from_u64(6).mul(seven), Felt::from_u64(42));
    assert_eq!(seven.sub(five), Felt::from_u64(2));
    // Subtraction wraps mod p: (0 - 1) + 1 == 0.
    let minus_one = Felt::zero().sub(Felt::from_u64(1));
    assert_ne!(minus_one, Felt::zero());
    assert_eq!(minus_one.add(Felt::from_u64(1)), Felt::zero());
}

#[test]
fn gate_failure_names_gate_and_row() {
    let mut cs = ConstraintSystem::new();
    let col = cs.declare_column(ColumnKind::Advice);
    let sel = cs.declare_selector();
    // This gate demands the cell itself be zero.
    cs.create_gate(
        "is zero".to_string(),
        sel,
        Expr::Query {
            column: col,
            rotation: 0,
        },
    )
    .unwrap();
    let mut layouter = Layouter::new(cs, 2);
    layouter.enter_region("one row").unwrap();
    layouter.enable_selector(sel, 0).unwrap();
    layouter
        .assign_advice(col, 0, Some(Felt::from_u64(1)))
        .unwrap();
    layouter.exit_region().unwrap();
    let frozen = layouter.freeze();
    match check(&frozen, &vec![]) {
        CheckOutcome::Reject(failures) => {
            assert_eq!(failures.len(), 1);
            assert!(matches!(failures[0], Failure::GateUnsatisfied { gate: 0, row: 0 }));
        }
        CheckOutcome::Accept => panic!("a nonzero cell must fail the zero gate"),
    }
}

#[test]
fn gate_over_unassigned_cell_fails_rather_than_reading_zero() {
    let mut cs = ConstraintSystem::new();
    let col = cs.declare_column(ColumnKind::Advice);
    let sel = cs.declare_selector();
    cs.create_gate(
        "is zero".to_string(),
        sel,
        Expr::Query {
            column: col,
            rotation: 0,
        },
    )
    .unwrap();
    let mut layouter = Layouter::new(cs, 2);
    layouter.enter_region("empty").unwrap();
    layouter.enable_selector(sel, 0).unwrap();
    layouter.exit_region().unwrap();
    let frozen = layouter.freeze();
    // The freeze-time diagnostic names the cell the enabled gate reads.
    assert_eq!(
        frozen.dangling_gate_cells(),
        vec![Cell { column: col, row: 0 }]
    );
    // The cell is unassigned; were it silently read as zero, its gate would
    // pass. It must fail instead.
    match check(&frozen, &vec![]) {
        CheckOutcome::Reject(failures) => {
            assert!(matches!(failures[0], Failure::GateUnsatisfied { gate: 0, row: 0 }));
        }
        CheckOutcome::Accept => panic!("an unassigned cell must not pass as zero"),
    }
}

fn copy_chain_fixture(values: [u64; 3]) -> CheckOutcome {
    let mut cs = ConstraintSystem::new();
    let col = cs.declare_column(ColumnKind::Advice);
    cs.enable_equality(col).unwrap();
    let mut layouter = Layouter::new(cs, 2);
    layouter.enter_region("chain").unwrap();
    let c0 = layouter
        .assign_advice(col, 0, Some(Felt::from_u64(values[0])))
        .unwrap();
    let c1 = layouter
        .assign_advice(col, 1, Some(Felt::from_u64(values[1])))
        .unwrap();
    let c2 = layouter
        .assign_advice(col, 2, Some(Felt::from_u64(values[2])))
        .unwrap();
    layouter.exit_region().unwrap();
    layouter.constrain_equal(c0.cell(), c1.cell()).unwrap();
    layouter.constrain_equal(c1.cell(), c2.cell()).unwrap();
    let frozen = layouter.freeze();
    check(&frozen, &vec![])
}

#[test]
fn copy_constraints_close_transitively() {
    // Only (c0, c1) and (c1, c2) are recorded; c0 = c2 must still be
    // enforced, through the equivalence class, and the whole class reported.
    match copy_chain_fixture([5, 5, 6]) {
        CheckOutcome::Reject(failures) => {
            assert_eq!(failures.len(), 1);
            match &failures[0] {
                Failure::CopyConstraintUnsatisfied { cells } => assert_eq!(cells.len(), 3),
                other => panic!("expected a copy failure, got {:?}", other),
            }
        }
        CheckOutcome::Accept => panic!("unequal cells in one class must be rejected"),
    }
}

#[test]
fn copy_constraints_accept_a_uniform_class() {
    assert_eq!(copy_chain_fixture([5, 5, 5]), CheckOutcome::Accept);
}

#[test]
fn freeze_reports_unassigned_copy_cells() {
    let mut cs = ConstraintSystem::new();
    let col = cs.declare_column(ColumnKind::Advice);
    cs.enable_equality(col).unwrap();
    let mut layouter = Layouter::new(cs, 2);
    layouter.enter_region("r").unwrap();
    let c0 = layouter
        .assign_advice(col, 0, Some(Felt::from_u64(3)))
        .unwrap();
    layouter.exit_region().unwrap();
    let dangling = Cell { column: col, row: 1 };
    layouter.constrain_equal(c0.cell(), dangling).unwrap();
    let frozen = layouter.freeze();
    let report = frozen.dangling_copy_cells();
    assert_eq!(report, vec![dangling]);
    // The unassigned cell also makes the class unsatisfiable.
    match check(&frozen, &vec![]) {
        CheckOutcome::Reject(failures) => {
            assert!(matches!(
                failures[0],
                Failure::CopyConstraintUnsatisfied { .. }
            ));
        }
        CheckOutcome::Accept => panic!("a dangling cell must be rejected"),
    }
}

#[test]
fn copy_constraint_needs_equality_enabled() {
    let mut cs = ConstraintSystem::new();
    let col = cs.declare_column(ColumnKind::Advice);
    let mut layouter = Layouter::new(cs, 2);
    let a = Cell { column: col, row: 0 };
    let b = Cell { column: col, row: 1 };
    assert!(matches!(
        layouter.constrain_equal(a, b),
        Err(Error::Configuration(ConfigError::EqualityNotEnabled))
    ));
}

#[test]
fn missing_value_is_a_synthesis_error() {
    let mut cs = ConstraintSystem::new();
    let col = cs.declare_column(ColumnKind::Advice);
    let mut layouter = Layouter::new(cs, 2);
    layouter.enter_region("r").unwrap();
    assert!(matches!(
        layouter.assign_advice(col, 0, None),
        Err(Error::Synthesis(SynthesisError::MissingValue))
    ));
}

#[test]
fn a_cell_is_assigned_at_most_once() {
    let mut cs = ConstraintSystem::new();
    let col = cs.declare_column(ColumnKind::Advice);
    let mut layouter = Layouter::new(cs, 2);
    layouter.enter_region("r").unwrap();
    layouter
        .assign_advice(col, 0, Some(Felt::from_u64(1)))
        .unwrap();
    assert!(matches!(
        layouter.assign_advice(col, 0, Some(Felt::from_u64(2))),
        Err(Error::Synthesis(SynthesisError::CellAlreadyAssigned))
    ));
}

#[test]
fn rows_are_bounded_by_two_to_the_k() {
    let mut cs = ConstraintSystem::new();
    let col = cs.declare_column(ColumnKind::Advice);
    let mut layouter = Layouter::new(cs, 0);
    layouter.enter_region("r").unwrap();
    layouter
        .assign_advice(col, 0, Some(Felt::from_u64(1)))
        .unwrap();
    assert!(matches!(
        layouter.assign_advice(col, 1, Some(Felt::from_u64(2))),
        Err(Error::Synthesis(SynthesisError::RowRangeExceeded))
    ));
}

#[test]
fn undeclared_column_is_a_configuration_error() {
    let mut cs = ConstraintSystem::new();
    let bogus = Column {
        kind: ColumnKind::Advice,
        index: 5,
    };
    assert!(matches!(
        cs.enable_equality(bogus),
        Err(Error::Configuration(ConfigError::UndeclaredColumn))
    ));
}

#[test]
fn undeclared_selector_is_a_configuration_error() {
    let mut cs = ConstraintSystem::new();
    let col = cs.declare_column(ColumnKind::Advice);
    let bogus = Selector { index: 0 };
    assert!(matches!(
        cs.create_gate(
            "g".to_string(),
            bogus,
            Expr::Query {
                column: col,
                rotation: 0
            }
        ),
        Err(Error::Configuration(ConfigError::UndeclaredSelector))
    ));
}

#[test]
fn gate_on_undeclared_column_is_a_configuration_error() {
    let mut cs = ConstraintSystem::new();
    let sel = cs.declare_selector();
    let bogus = Column {
        kind: ColumnKind::Advice,
        index: 0,
    };
    assert!(matches!(
        cs.create_gate(
            "g".to_string(),
            sel,
            Expr::Query {
                column: bogus,
                rotation: 0
            }
        ),
        Err(Error::Configuration(ConfigError::UndeclaredColumn))
    ));
}

#[test]
fn region_operations_need_an_open_region() {
    let mut cs = ConstraintSystem::new();
    let col = cs.declare_column(ColumnKind::Advice);
    let sel = cs.declare_selector();
    let mut layouter = Layouter::new(cs, 2);
    assert!(matches!(
        layouter.assign_advice(col, 0, Some(Felt::from_u64(1))),
        Err(Error::Configuration(ConfigError::RegionMisuse))
    ));
    assert!(matches!(
        layouter.enable_selector(sel, 0),
        Err(Error::Configuration(ConfigError::RegionMisuse))
    ));
}

#[test]
fn public_input_index_out_of_range_is_a_mismatch() {
    let mut cs = ConstraintSystem::new();
    let col = cs.declare_column(ColumnKind::Advice);
    let instance = cs.declare_column(ColumnKind::Instance);
    let mut layouter = Layouter::new(cs, 2);
    layouter.enter_region("r").unwrap();
    let c = layouter
        .assign_advice(col, 0, Some(Felt::from_u64(1)))
        .unwrap();
    layouter.exit_region().unwrap();
    layouter.constrain_instance(c.cell(), instance, 3).unwrap();
    let frozen = layouter.freeze();
    match check(&frozen, &vec![vec![Felt::from_u64(1)]]) {
        CheckOutcome::Reject(failures) => {
            assert_eq!(failures.len(), 1);
            assert!(matches!(
                failures[0],
                Failure::PublicInputMismatch { column: 0, index: 3 }
            ));
        }
        CheckOutcome::Accept => panic!("an out-of-range index must be a mismatch"),
    }
}

fn fixed_gate_fixture(assigned: u64) -> CheckOutcome {
    let mut cs = ConstraintSystem::new();
    let fixed = cs.declare_column(ColumnKind::Fixed);
    let sel = cs.declare_selector();
    // The fixed cell must hold exactly 7 wherever the selector is on.
    cs.create_gate(
        "is seven".to_string(),
        sel,
        Expr::Diff(
            Box::new(Expr::Query {
                column: fixed,
                rotation: 0,
            }),
            Box::new(Expr::Constant(Felt::from_u64(7))),
        ),
    )
    .unwrap();
    let mut layouter = Layouter::new(cs, 1);
    layouter.enter_region("r").unwrap();
    layouter.enable_selector(sel, 0).unwrap();
    layouter
        .assign_fixed(fixed, 0, Some(Felt::from_u64(assigned)))
        .unwrap();
    layouter.exit_region().unwrap();
    let frozen = layouter.freeze();
    check(&frozen, &vec![])
}

#[test]
fn fixed_columns_feed_gates() {
    assert_eq!(fixed_gate_fixture(7), CheckOutcome::Accept);
    assert!(matches!(fixed_gate_fixture(8), CheckOutcome::Reject(_)));
}

#[test]
fn matching_binding_is_accepted() {
    let mut cs = ConstraintSystem::new();
    let col = cs.declare_column(ColumnKind::Advice);
    let instance = cs.declare_column(ColumnKind::Instance);
    let mut layouter = Layouter::new(cs, 2);
    layouter.enter_region("r").unwrap();
    let c = layouter
        .assign_advice(col, 0, Some(Felt::from_u64(7)))
        .unwrap();
    layouter.exit_region().unwrap();
    layouter.constrain_instance(c.cell(), instance, 0).unwrap();
    let frozen = layouter.freeze();
    assert_eq!(
        check(&frozen, &vec![vec![Felt::from_u64(7)]]),
        CheckOutcome::Accept
    );
}
