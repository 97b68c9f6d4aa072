//! The insertion-ordered identifier map, the transition store and the
//! transaction store.
use snarkvm_verified::store::id_map::IdMap;
use snarkvm_verified::store::transaction_store::TransactionStore;
use snarkvm_verified::store::transition_store::{InputPart, OutputPart, TransitionStore};
use snarkvm_verified::store::types::{Execution, Input, Output, Program, Record, Transaction, Transition};

#[test]
fn id_map_insert_replaces_in_place_and_remove_keeps_order() {
    let mut m: IdMap<&str> = IdMap::new();
    m.insert(5, "a");
    m.insert(3, "b");
    m.insert(9, "c");
    m.insert(3, "d");
    assert_eq!(vec![5, 3, 9], m.keys());
    assert_eq!(Some(&"d"), m.get(3));
    assert_eq!(3, m.len());
    m.remove(5);
    assert_eq!(vec![3, 9], m.keys());
    assert!(!m.contains_key(5));
    assert_eq!(None, m.get(5));
    m.remove(42);
    assert_eq!(vec![3, 9], m.keys());
    assert_eq!((9, &"c"), m.entry_at(1));
}

fn transition(id: u64) -> Transition {
    Transition {
        id,
        inputs: vec![Input::Constant(id * 10), Input::Record(id * 10 + 1, id * 10 + 2)],
        outputs: vec![
            Output::Private(id * 10 + 3),
            Output::Record(id * 10 + 4, id * 10 + 5, Some(Record { owner: 1, data: 2, nonce: id * 10 + 6 })),
            Output::ExternalRecord(id * 10 + 7),
        ],
        tpk: id * 10 + 8,
    }
}

#[test]
fn transition_store_views() {
    let mut store = TransitionStore::new();
    store.insert(transition(1));
    store.insert(transition(2));
    assert!(store.contains_transition(2));
    assert_eq!(Some(transition(1)), store.get_transition(1));
    assert_eq!(None, store.get_transition(3));
    assert_eq!(vec![1, 2], store.transition_ids());
    assert_eq!(vec![18, 28], store.tpks());
    assert_eq!(vec![10, 11, 20, 21], store.input_values(InputPart::Id));
    assert_eq!(vec![11, 21], store.input_values(InputPart::SerialNumber));
    assert_eq!(vec![12, 22], store.input_values(InputPart::Tag));
    assert_eq!(vec![14, 24], store.output_values(OutputPart::RecordId));
    assert_eq!(vec![14, 24], store.output_values(OutputPart::Commitment));
    assert_eq!(vec![16, 26], store.output_values(OutputPart::Nonce));
    assert_eq!(
        vec![(14, Record { owner: 1, data: 2, nonce: 16 }), (24, Record { owner: 1, data: 2, nonce: 26 })],
        store.records()
    );
    store.remove(1);
    assert_eq!(vec![2], store.transition_ids());
    assert!(!store.contains_transition(1));
}

#[test]
fn transaction_store_reads_back_deployments_and_executions() {
    let mut store = TransactionStore::new();
    let deployment = Transaction::Deploy(1, Program { id: 70, checksum: 5 });
    let execution = Transaction::Execute(
        2,
        Execution { transitions: vec![transition(3)], global_state_root: 4, inclusion_proof: None },
        None,
    );
    store.insert(&deployment);
    store.insert(&execution);
    assert_eq!(Ok(Some(deployment)), store.get_transaction(1));
    assert_eq!(Ok(Some(execution)), store.get_transaction(2));
    assert_eq!(Ok(None), store.get_transaction(3));
    assert_eq!(Some(Program { id: 70, checksum: 5 }), store.get_program(70));
    assert_eq!(None, store.get_program(71));
    assert_eq!(vec![1, 2], store.transaction_ids());
    assert_eq!(vec![70], store.program_ids());
    assert_eq!(vec![Program { id: 70, checksum: 5 }], store.programs());
    assert_eq!(vec![3], store.executions().transition_store().transition_ids());
}

#[test]
fn redeploying_a_program_replaces_it() {
    let mut store = TransactionStore::new();
    store.insert(&Transaction::Deploy(1, Program { id: 70, checksum: 5 }));
    store.insert(&Transaction::Deploy(2, Program { id: 70, checksum: 6 }));
    assert_eq!(Some(Program { id: 70, checksum: 6 }), store.get_program(70));
    assert_eq!(Ok(Some(Transaction::Deploy(1, Program { id: 70, checksum: 6 }))), store.get_transaction(1));
    assert_eq!(vec![70], store.program_ids());
}

#[test]
fn output_variants_and_verifier_inputs() {
    let record = Output::Record(4, 5, None);
    assert_eq!(3, record.variant());
    assert_eq!(vec![4, 5], record.verifier_inputs());
    assert_eq!(Some(5), record.checksum());
    assert_eq!(None, record.nonce());
    let public = Output::Public(9);
    assert_eq!(1, public.variant());
    assert_eq!(vec![9], public.verifier_inputs());
    assert_eq!(None, public.commitment());
    assert_eq!(None, public.record());
}

#[test]
fn consuming_accessors_of_outputs() {
    let record = Record { owner: 1, data: 2, nonce: 3 };
    assert_eq!(Some((4, record)), Output::Record(4, 5, Some(record)).into_record());
    assert_eq!(Some(4), Output::Record(4, 5, None).into_commitment());
    assert_eq!(Some(3), Output::Record(4, 5, Some(record)).into_nonce());
    assert_eq!(None, Output::ExternalRecord(7).into_record());
    assert_eq!(None, Output::Constant(7).into_commitment());
    assert_eq!(None, Output::Record(4, 5, None).into_nonce());
}
