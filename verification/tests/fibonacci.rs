use plonkish::checker::{check, CheckOutcome, Failure};
use plonkish::field::Felt;
use plonkish::layout::Layouter;
use plonkish::system::{ConstraintSystem, Error, SynthesisError};
use plonkish::{fib_one_col, fib_three_col};

#[test]
fn test_example1() {
    let k = 4;

    let a = Felt::from_u64(1);
    let b = Felt::from_u64(2);
    let out = Felt::from_u64(89);

    let circuit = fib_three_col::MyCircuit {
        a: Some(a),
        b: Some(b),
    };

    let public_input = vec![out];
    let outcome = fib_three_col::run(k, &circuit, vec![public_input.clone()]).unwrap();
    assert_eq!(outcome, CheckOutcome::Accept);
}

#[test]
fn test_example1_failed() {
    let k = 4;

    let a = Felt::from_u64(1);
    let b = Felt::from_u64(2);
    let out = Felt::from_u64(90);

    let circuit = fib_three_col::MyCircuit {
        a: Some(a),
        b: Some(b),
    };

    let public_input = vec![out];
    let outcome = fib_three_col::run(k, &circuit, vec![public_input.clone()]).unwrap();
    match outcome {
        CheckOutcome::Reject(failures) => {
            assert_eq!(failures.len(), 1);
            assert!(matches!(
                failures[0],
                Failure::PublicInputMismatch { column: 0, index: 0 }
            ));
        }
        CheckOutcome::Accept => panic!("expected a rejection"),
    }
}

#[test]
fn test_example2() {
    let k = 4;

    let a = Felt::from_u64(1);
    let b = Felt::from_u64(2);
    let out = Felt::from_u64(89);

    let circuit = fib_one_col::MyCircuit {
        a: Some(a),
        b: Some(b),
    };

    let public_input = vec![out];
    let outcome = fib_one_col::run(k, &circuit, vec![public_input.clone()]).unwrap();
    assert_eq!(outcome, CheckOutcome::Accept);
}

#[test]
fn test_example2_failed() {
    let k = 4;

    let a = Felt::from_u64(1);
    let b = Felt::from_u64(2);
    let out = Felt::from_u64(90);

    let circuit = fib_one_col::MyCircuit {
        a: Some(a),
        b: Some(b),
    };

    let public_input = vec![out];
    let outcome = fib_one_col::run(k, &circuit, vec![public_input.clone()]).unwrap();
    match outcome {
        CheckOutcome::Reject(failures) => {
            assert_eq!(failures.len(), 1);
            assert!(matches!(
                failures[0],
                Failure::PublicInputMismatch { column: 0, index: 0 }
            ));
        }
        CheckOutcome::Accept => panic!("expected a rejection"),
    }
}

#[test]
fn three_column_missing_witness_aborts_synthesis() {
    let circuit = fib_three_col::MyCircuit {
        a: None,
        b: Some(Felt::from_u64(2)),
    };
    let r = fib_three_col::run(4, &circuit, vec![vec![Felt::from_u64(89)]]);
    assert!(matches!(
        r,
        Err(Error::Synthesis(SynthesisError::MissingValue))
    ));
}

#[test]
fn three_column_needs_eight_rows() {
    let circuit = fib_three_col::MyCircuit {
        a: Some(Felt::from_u64(1)),
        b: Some(Felt::from_u64(2)),
    };
    let r = fib_three_col::run(2, &circuit, vec![vec![Felt::from_u64(89)]]);
    assert!(matches!(
        r,
        Err(Error::Synthesis(SynthesisError::RowRangeExceeded))
    ));
}

#[test]
fn one_column_selector_near_region_end_is_out_of_range() {
    let mut cs = ConstraintSystem::new();
    let config = fib_one_col::MyCircuit::configure(&mut cs).unwrap();
    let mut layouter = Layouter::new(cs, 4);
    let chip = fib_one_col::FiboChip::construct(config);
    // With only three rows, a gate enabled at row 1 would read rows 2 and 3,
    // past the region's end: caught at synthesis, never read as zero.
    let r = chip.assign(
        &mut layouter,
        Some(Felt::from_u64(1)),
        Some(Felt::from_u64(2)),
        3,
    );
    assert!(matches!(
        r,
        Err(Error::Synthesis(SynthesisError::RotationOutOfRange))
    ));
}

#[test]
fn one_column_missing_witness_aborts_synthesis() {
    let circuit = fib_one_col::MyCircuit {
        a: Some(Felt::from_u64(1)),
        b: None,
    };
    let r = fib_one_col::run(4, &circuit, vec![vec![Felt::from_u64(89)]]);
    assert!(matches!(
        r,
        Err(Error::Synthesis(SynthesisError::MissingValue))
    ));
}

#[test]
fn missing_public_input_is_rejected() {
    let circuit = fib_three_col::MyCircuit {
        a: Some(Felt::from_u64(1)),
        b: Some(Felt::from_u64(2)),
    };
    // An empty public-input vector cannot satisfy the binding of the final c.
    let outcome = fib_three_col::run(4, &circuit, vec![vec![]]).unwrap();
    assert!(matches!(outcome, CheckOutcome::Reject(_)));
}

#[test]
fn one_column_chain_reaches_eighty_nine() {
    let mut cs = ConstraintSystem::new();
    let config = fib_one_col::MyCircuit::configure(&mut cs).unwrap();
    let mut layouter = Layouter::new(cs, 4);
    let chip = fib_one_col::FiboChip::construct(config);
    let cell = chip
        .assign(
            &mut layouter,
            Some(Felt::from_u64(1)),
            Some(Felt::from_u64(2)),
            10,
        )
        .unwrap();
    assert_eq!(cell.value(), Felt::from_u64(89));
}

#[test]
fn check_is_idempotent_on_frozen_inputs() {
    let mut cs = ConstraintSystem::new();
    let config = fib_three_col::MyCircuit::configure(&mut cs).unwrap();
    let mut layouter = Layouter::new(cs, 4);
    let circuit = fib_three_col::MyCircuit {
        a: Some(Felt::from_u64(1)),
        b: Some(Felt::from_u64(2)),
    };
    circuit.synthesize(config, &mut layouter).unwrap();
    let frozen = layouter.freeze();

    let good = vec![vec![Felt::from_u64(89)]];
    assert_eq!(check(&frozen, &good), check(&frozen, &good));
    assert_eq!(check(&frozen, &good), CheckOutcome::Accept);

    let bad = vec![vec![Felt::from_u64(90)]];
    let first = check(&frozen, &bad);
    let second = check(&frozen, &bad);
    assert_eq!(first, second);
    assert!(matches!(first, CheckOutcome::Reject(_)));
}
