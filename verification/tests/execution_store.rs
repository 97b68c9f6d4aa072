//! The store of execution transactions: insertion, reading back, removal and
//! finding the transaction of a transition.
use snarkvm_verified::store::execution_store::{ExecutionStore, StoreError};
use snarkvm_verified::store::transition_store::TransitionStore;
use snarkvm_verified::store::types::{
    Execution, Fee, Input, Output, Program, Proof, Record, Transaction, Transition,
};

fn transition(id: u64, seed: u64) -> Transition {
    Transition {
        id,
        inputs: vec![Input::Public(seed), Input::Record(seed + 1, seed + 2), Input::Private(seed + 3)],
        outputs: vec![
            Output::Record(seed + 4, seed + 5, Some(Record { owner: seed + 6, data: seed + 7, nonce: seed + 8 })),
            Output::Constant(seed + 9),
        ],
        tpk: seed + 10,
    }
}

fn sample_execution_transaction_with_fee() -> Transaction {
    Transaction::Execute(
        7001,
        Execution {
            transitions: vec![transition(11, 100), transition(12, 200)],
            global_state_root: 42,
            inclusion_proof: Some(Proof { value: 5 }),
        },
        Some(Fee { transition: transition(13, 300), global_state_root: 43, inclusion_proof: None }),
    )
}

fn sample_execution_transaction_without_fee() -> Transaction {
    Transaction::Execute(
        7002,
        Execution { transitions: vec![transition(21, 400)], global_state_root: 44, inclusion_proof: None },
        None,
    )
}

fn transition_ids(transaction: &Transaction) -> Vec<u64> {
    match transaction {
        Transaction::Deploy(..) => vec![],
        Transaction::Execute(_, execution, fee) => {
            let mut ids: Vec<u64> = execution.transitions.iter().map(|t| t.id).collect();
            if let Some(fee) = fee {
                ids.push(fee.transition.id);
            }
            ids
        }
    }
}

fn insert_get_remove(transaction: Transaction) -> Result<(), StoreError> {
    let transaction_id = transaction.id();

    // Initialize a new execution store.
    let mut execution_store = ExecutionStore::new();

    // Ensure the execution transaction does not exist.
    let candidate = execution_store.get_transaction(transaction_id)?;
    assert_eq!(None, candidate);

    // Insert the execution transaction.
    execution_store.insert(&transaction)?;

    // Retrieve the execution transaction.
    let candidate = execution_store.get_transaction(transaction_id)?;
    assert_eq!(Some(transaction), candidate);

    // Remove the execution.
    execution_store.remove(transaction_id)?;

    // Ensure the execution transaction does not exist.
    let candidate = execution_store.get_transaction(transaction_id)?;
    assert_eq!(None, candidate);

    Ok(())
}

fn find_transaction_id(transaction: Transaction) -> Result<(), StoreError> {
    let transaction_id = transaction.id();

    // Ensure the transaction is an execution.
    if matches!(transaction, Transaction::Deploy(..)) {
        return Err(StoreError::NotAnExecution);
    }

    // Initialize a new execution store.
    let mut execution_store = ExecutionStore::new();

    // Ensure the execution transaction does not exist.
    let candidate = execution_store.get_transaction(transaction_id)?;
    assert_eq!(None, candidate);

    for transition_id in transition_ids(&transaction) {
        // Ensure the transaction ID is not found.
        let candidate = execution_store.find_transaction_id_from_transition_id(transition_id).unwrap();
        assert_eq!(None, candidate);

        // Insert the execution.
        execution_store.insert(&transaction)?;

        // Find the transaction ID.
        let candidate = execution_store.find_transaction_id_from_transition_id(transition_id).unwrap();
        assert_eq!(Some(transaction_id), candidate);

        // Remove the execution.
        execution_store.remove(transaction_id)?;

        // Ensure the transaction ID is not found.
        let candidate = execution_store.find_transaction_id_from_transition_id(transition_id).unwrap();
        assert_eq!(None, candidate);
    }

    Ok(())
}

#[test]
fn test_insert_get_remove() {
    // Sample the execution transaction.
    let transaction = sample_execution_transaction_with_fee();
    insert_get_remove(transaction).unwrap();
}

#[test]
fn test_insert_get_remove_with_fee() {
    // Sample the execution transaction with a fee.
    let transaction_with_fee = sample_execution_transaction_with_fee();
    insert_get_remove(transaction_with_fee).unwrap();
}

#[test]
fn test_find_transaction_id() {
    // Sample the execution transaction.
    let transaction = sample_execution_transaction_with_fee();
    find_transaction_id(transaction).unwrap();
}

#[test]
fn test_find_transaction_id_with_fee() {
    // Sample the execution transaction with a fee.
    let transaction_with_fee = sample_execution_transaction_with_fee();
    find_transaction_id(transaction_with_fee).unwrap();
}

#[test]
fn insert_get_remove_without_fee() {
    insert_get_remove(sample_execution_transaction_without_fee()).unwrap();
    find_transaction_id(sample_execution_transaction_without_fee()).unwrap();
}

#[test]
fn deployment_is_refused() {
    let mut store = ExecutionStore::new();
    let deployment = Transaction::Deploy(9, Program { id: 3, checksum: 4 });
    assert_eq!(Err(StoreError::NotAnExecution), store.insert(&deployment));
    assert_eq!(Ok(None), store.get_transaction(9));
    assert!(store.execution_transaction_ids().is_empty());
}

#[test]
fn removing_a_missing_transaction_fails() {
    let mut store = ExecutionStore::new();
    assert_eq!(Err(StoreError::MissingTransaction), store.remove(1));
    store.insert(&sample_execution_transaction_without_fee()).unwrap();
    assert_eq!(Err(StoreError::MissingTransaction), store.remove(1));
    assert_eq!(vec![7002], store.execution_transaction_ids());
}

#[test]
fn get_execution_reads_back_the_execution() {
    let mut store = ExecutionStore::new();
    let transaction = sample_execution_transaction_with_fee();
    store.insert(&transaction).unwrap();
    let execution = store.get_execution(7001).unwrap().unwrap();
    match transaction {
        Transaction::Execute(_, expected, _) => assert_eq!(expected, execution),
        Transaction::Deploy(..) => unreachable!(),
    }
    assert_eq!(Ok(None), store.get_execution(7002));
}

#[test]
fn execution_transaction_ids_keep_insertion_order() {
    let mut store = ExecutionStore::new();
    store.insert(&sample_execution_transaction_without_fee()).unwrap();
    store.insert(&sample_execution_transaction_with_fee()).unwrap();
    store.insert(&sample_execution_transaction_without_fee()).unwrap();
    assert_eq!(vec![7002, 7001], store.execution_transaction_ids());
    assert_eq!(vec![21, 11, 12, 13], store.transition_store().transition_ids());
}

#[test]
fn open_keeps_the_given_transitions() {
    let mut transitions = TransitionStore::new();
    transitions.insert(transition(99, 900));
    let store = ExecutionStore::open(transitions);
    assert_eq!(vec![99], store.transition_store().transition_ids());
    assert_eq!(Ok(None), store.get_transaction(1));
    assert!(store.execution_transaction_ids().is_empty());
    assert_eq!(None, store.find_transaction_id_from_transition_id(99).unwrap());
}

#[test]
fn removing_what_was_inserted_leaves_an_empty_store() {
    let mut store = ExecutionStore::new();
    let transaction = sample_execution_transaction_with_fee();
    store.insert(&transaction).unwrap();
    store.remove(transaction.id()).unwrap();
    assert!(store.execution_transaction_ids().is_empty());
    assert!(store.transition_store().transition_ids().is_empty());
    for transition_id in transition_ids(&transaction) {
        assert_eq!(None, store.find_transaction_id_from_transition_id(transition_id).unwrap());
    }
    assert_eq!(Ok(None), store.get_transaction(transaction.id()));
}

#[test]
fn a_transition_removed_with_another_transaction_goes_missing() {
    let mut store = ExecutionStore::new();
    let first = Transaction::Execute(
        1,
        Execution { transitions: vec![transition(11, 100)], global_state_root: 1, inclusion_proof: None },
        Some(Fee { transition: transition(12, 110), global_state_root: 2, inclusion_proof: None }),
    );
    let sharing_transition = Transaction::Execute(
        2,
        Execution { transitions: vec![transition(11, 100)], global_state_root: 3, inclusion_proof: None },
        None,
    );
    let sharing_fee = Transaction::Execute(
        3,
        Execution { transitions: vec![transition(13, 120)], global_state_root: 4, inclusion_proof: None },
        Some(Fee { transition: transition(12, 110), global_state_root: 5, inclusion_proof: None }),
    );
    store.insert(&first).unwrap();
    store.insert(&sharing_transition).unwrap();
    store.remove(2).unwrap();
    assert_eq!(Err(StoreError::MissingTransition), store.get_transaction(1));
    assert_eq!(Err(StoreError::MissingTransition), store.get_execution(1));

    let mut store = ExecutionStore::new();
    store.insert(&first).unwrap();
    store.insert(&sharing_fee).unwrap();
    store.remove(3).unwrap();
    assert_eq!(Err(StoreError::MissingFeeTransition), store.get_transaction(1));
    assert_eq!(Ok(1), store.get_execution(1).map(|e| e.unwrap().transitions.len()));
}
