//! Starting the prover's state for a batch of circuits.
use snarkvm_verified::prover_state::{AHPError, Assignments, CircuitShape, State};

fn circuit(num_constraints: usize, num_variables: usize, tables: Option<Vec<usize>>) -> CircuitShape {
    CircuitShape { num_constraints, num_variables, table_sizes: tables, domains_fit: true, input_domain_fits: true }
}

fn assignment(tag: u64, num_constraints: usize, uses: Vec<(usize, usize, u64)>) -> Assignments<u64> {
    Assignments {
        padded_public: vec![1, tag],
        private: vec![tag * 10],
        z_a: vec![tag; num_constraints],
        z_b: vec![tag + 100; num_constraints],
        z_c: vec![tag + 200; num_constraints],
        table_uses: uses,
    }
}

#[test]
fn empty_batch_is_refused() {
    let batch: Vec<(CircuitShape, Vec<Assignments<u64>>)> = vec![];
    assert!(matches!(State::initialize(batch), Err(AHPError::BatchSizeIsZero)));
}

#[test]
fn a_domain_too_large_is_refused() {
    let mut big = circuit(8, 8, None);
    big.domains_fit = false;
    let batch = vec![(circuit(4, 4, None), vec![assignment(1, 4, vec![])]), (big, vec![assignment(2, 8, vec![])])];
    assert!(matches!(State::initialize(batch), Err(AHPError::PolynomialDegreeTooLarge)));
}

#[test]
fn totals_batch_sizes_and_maxima() {
    let batch = vec![
        (circuit(16, 5, None), vec![assignment(1, 16, vec![]), assignment(2, 16, vec![]), assignment(3, 16, vec![])]),
        (circuit(8, 9, Some(vec![2, 3])), vec![assignment(4, 8, vec![(0, 1, 4), (1, 2, 7)]), assignment(5, 8, vec![(1, 0, 1)])]),
    ];
    let s = State::initialize(batch).unwrap();
    assert_eq!(5, s.total_instances);
    assert_eq!(2, s.total_lookup_instances);
    assert_eq!(16, s.max_num_constraints);
    assert_eq!(9, s.max_num_variables);
    assert_eq!(2, s.circuit_specific_states.len());
    assert_eq!(Some(3), s.batch_size(0));
    assert_eq!(Some(2), s.batch_size(1));
    assert_eq!(None, s.batch_size(2));
    assert!(s.circuit_specific_states[0].m_evals.is_none());
    let ms = s.circuit_specific_states[1].m_evals.as_ref().unwrap();
    // The second table starts after the two entries of the first.
    assert_eq!(vec![0, 4, 0, 0, 7, 0, 0, 0], ms[0]);
    assert_eq!(vec![0, 0, 1, 0, 0, 0, 0, 0], ms[1]);
}

#[test]
fn instance_vectors_are_kept_in_assignment_order() {
    let batch = vec![(circuit(2, 2, None), vec![assignment(7, 2, vec![]), assignment(8, 2, vec![])])];
    let s = State::initialize(batch).unwrap();
    assert_eq!(Some(&vec![vec![1, 7], vec![1, 8]]), s.padded_public_inputs(0));
    assert_eq!(None, s.padded_public_inputs(1));
    let c = &s.circuit_specific_states[0];
    assert_eq!(vec![vec![70], vec![80]], c.private_variables);
    assert_eq!(Some(vec![vec![7, 7], vec![8, 8]]), c.z_a);
    assert_eq!(Some(vec![vec![107, 107], vec![108, 108]]), c.z_b);
    assert_eq!(Some(vec![vec![207, 207], vec![208, 208]]), c.z_c);
}
