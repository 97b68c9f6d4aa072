//! The ledger: blocks by height, and the transactions, programs, transitions,
//! inputs and outputs they hold.
use vstd::prelude::*;
use crate::store::block_store::{
    block_insert_spec, block_spec, block_transactions_spec, coinbase_spec, empty_block_store_view, hash_spec,
    lemma_block_after_insert, previous_hash_spec, transactions_independent, BlockStore, BlockStoreView, LedgerError,
};
use crate::store::execution_store::StoreError;
use crate::store::transaction_store::{empty_order, order_insert_all, orders_agree, transaction_spec, StoreOrder};
use crate::store::transition_store::{
    gather_inputs, gather_outputs, gather_records, InputPart, OutputPart, TransitionStore,
};
use crate::store::types::{
    Block, BlockHash, BlockView, CoinbaseSolution, Field, Group, Header, Program, ProgramID, Record, Signature,
    Transaction, TransactionID, TransactionView, TransitionID, TransitionView,
};

verus! {

/// The block at `height`.
pub open spec fn get_block_spec(v: BlockStoreView, height: u32) -> Result<BlockView, LedgerError> {
    match hash_spec(v, height) {
        None => Err(LedgerError::MissingBlock),
        Some(hash) => match block_spec(v, hash) {
            Ok(Some(b)) => Ok(b),
            Ok(None) => Err(LedgerError::MissingBlock),
            Err(e) => Err(e),
        },
    }
}

/// The header of the block at `height`.
pub open spec fn get_header_spec(v: BlockStoreView, height: u32) -> Result<Header, LedgerError> {
    match hash_spec(v, height) {
        None => Err(LedgerError::MissingBlock),
        Some(hash) => if v.headers.contains_key(hash) {
            Ok(v.headers[hash])
        } else {
            Err(LedgerError::MissingHeader)
        },
    }
}

/// The transactions of the block at `height`.
pub open spec fn get_transactions_spec(v: BlockStoreView, height: u32) -> Result<Seq<TransactionView>, LedgerError> {
    match hash_spec(v, height) {
        None => Err(LedgerError::MissingBlock),
        Some(hash) => match block_transactions_spec(v, hash) {
            Ok(Some(ts)) => Ok(ts),
            Ok(None) => Err(LedgerError::MissingTransactions),
            Err(e) => Err(e),
        },
    }
}

/// The transaction `id`.
pub open spec fn get_transaction_spec(v: BlockStoreView, id: TransactionID) -> Result<TransactionView, LedgerError> {
    match transaction_spec(v.store, id) {
        Ok(Some(t)) => Ok(t),
        Ok(None) => Err(LedgerError::MissingTransaction),
        Err(e) => Err(LedgerError::Store(e)),
    }
}

/// The coinbase solution of the block at `height`.
pub open spec fn get_coinbase_spec(v: BlockStoreView, height: u32) -> Result<Option<CoinbaseSolution>, LedgerError> {
    match hash_spec(v, height) {
        None => Err(LedgerError::MissingBlock),
        Some(hash) => coinbase_spec(v, hash),
    }
}

/// The signature of the block at `height`.
pub open spec fn get_signature_spec(v: BlockStoreView, height: u32) -> Result<Signature, LedgerError> {
    match hash_spec(v, height) {
        None => Err(LedgerError::MissingBlock),
        Some(hash) => if v.signatures.contains_key(hash) {
            Ok(v.signatures[hash])
        } else {
            Err(LedgerError::MissingSignature)
        },
    }
}

/// The ledger.
pub struct Ledger {
    blocks: BlockStore,
}

impl View for Ledger {
    type V = BlockStoreView;

    closed spec fn view(&self) -> BlockStoreView {
        self.blocks.view()
    }
}

impl Ledger {
    /// The stores stay well formed.
    #[verifier::type_invariant]
    spec fn inv(self) -> bool {
        self.blocks.wf()
    }

    /// The orders of the stored transactions, programs and transitions.
    pub closed spec fn order(&self) -> StoreOrder {
        self.blocks.transaction_store().order()
    }

    /// The stored transaction IDs, in insertion order.
    pub open spec fn transaction_order(&self) -> Seq<TransactionID> {
        self.order().transactions
    }

    /// The stored program IDs, in insertion order.
    pub open spec fn program_order(&self) -> Seq<ProgramID> {
        self.order().programs.0
    }

    /// The stored programs, in insertion order.
    pub open spec fn program_seq(&self) -> Seq<Program> {
        self.order().programs.1
    }

    /// The stored transitions, in insertion order.
    pub open spec fn transition_seq(&self) -> Seq<TransitionView> {
        self.order().transitions.1
    }

    /// The stored transition IDs, in insertion order.
    pub open spec fn transition_order(&self) -> Seq<TransitionID> {
        self.order().transitions.0
    }

    /// Creates an empty ledger.
    pub fn new() -> (l: Ledger)
        ensures
            l@ == empty_block_store_view(),
            l.order() == empty_order(),
            orders_agree(l@.store, l.order()),
    {
        let l = Ledger { blocks: BlockStore::new() };
        proof {
            l.blocks.lemma_store();
            l.blocks.transaction_store().lemma_orders();
        }
        l
    }

    /// Creates a ledger that holds the genesis block. Where the genesis block
    /// is at height 0, has the zero previous hash and its transactions are
    /// independent, reading the block at height 0 gives it back.
    pub fn with_genesis(genesis: &Block) -> (l: Ledger)
        ensures
            l@ == block_insert_spec(empty_block_store_view(), genesis@),
            l.order() == order_insert_all(empty_order(), genesis@.transactions),
            orders_agree(l@.store, l.order()),
            genesis@.header.height == 0 && genesis@.previous_hash == 0 && transactions_independent(
                genesis@.transactions,
            ) ==> get_block_spec(l@, 0) == Ok::<BlockView, LedgerError>(genesis@),
    {
        let mut l = Ledger::new();
        l.insert_block(genesis);
        proof {
            if genesis@.header.height == 0 && genesis@.previous_hash == 0 && transactions_independent(
                genesis@.transactions,
            ) {
                lemma_get_block_after_insert(empty_block_store_view(), genesis@);
            }
        }
        l
    }

    /// Stores a block and its transactions.
    pub fn insert_block(&mut self, block: &Block)
        ensures
            final(self)@ == block_insert_spec(old(self)@, block@),
            final(self).order() == order_insert_all(old(self).order(), block@.transactions),
            orders_agree(final(self)@.store, final(self).order()),
    {
        proof {
            use_type_invariant(&*self);
        }
        let mut blocks = BlockStore::new();
        std::mem::swap(&mut blocks, &mut self.blocks);
        blocks.insert(block);
        proof {
            blocks.lemma_store();
            blocks.transaction_store().lemma_orders();
        }
        self.blocks = blocks;
    }

    /// Returns the block at `height`.
    pub fn get_block(&self, height: u32) -> (r: Result<Block, LedgerError>)
        ensures
            match r {
                Ok(b) => get_block_spec(self@, height) == Ok::<BlockView, LedgerError>(b@),
                Err(e) => get_block_spec(self@, height) == Err::<BlockView, LedgerError>(e),
            },
    {
        proof {
            use_type_invariant(self);
        }
        let hash = match self.blocks.get_block_hash(height) {
            Some(h) => h,
            None => {
                return Err(LedgerError::MissingBlock);
            },
        };
        match self.blocks.get_block(hash) {
            Ok(Some(b)) => Ok(b),
            Ok(None) => Err(LedgerError::MissingBlock),
            Err(e) => Err(e),
        }
    }

    /// Returns the block hash of `height`.
    pub fn get_hash(&self, height: u32) -> (r: Result<BlockHash, LedgerError>)
        ensures
            r == (match hash_spec(self@, height) {
                Some(h) => Ok::<BlockHash, LedgerError>(h),
                None => Err(LedgerError::MissingHash),
            }),
    {
        proof {
            use_type_invariant(self);
        }
        match self.blocks.get_block_hash(height) {
            Some(h) => Ok(h),
            None => Err(LedgerError::MissingHash),
        }
    }

    /// Returns the hash of the block before `height`: the default hash, zero,
    /// for the first block.
    pub fn get_previous_hash(&self, height: u32) -> (r: Result<BlockHash, LedgerError>)
        ensures
            r == (match previous_hash_spec(self@, height) {
                Some(h) => Ok::<BlockHash, LedgerError>(h),
                None => Err(LedgerError::MissingPreviousHash),
            }),
    {
        proof {
            use_type_invariant(self);
        }
        match self.blocks.get_previous_block_hash(height) {
            Some(h) => Ok(h),
            None => Err(LedgerError::MissingPreviousHash),
        }
    }

    /// Returns the header of the block at `height`.
    pub fn get_header(&self, height: u32) -> (r: Result<Header, LedgerError>)
        ensures
            r == get_header_spec(self@, height),
    {
        proof {
            use_type_invariant(self);
        }
        let hash = match self.blocks.get_block_hash(height) {
            Some(h) => h,
            None => {
                return Err(LedgerError::MissingBlock);
            },
        };
        match self.blocks.get_block_header(hash) {
            Some(h) => Ok(h),
            None => Err(LedgerError::MissingHeader),
        }
    }

    /// Returns the transactions of the block at `height`.
    pub fn get_transactions(&self, height: u32) -> (r: Result<Vec<Transaction>, LedgerError>)
        ensures
            match r {
                Ok(ts) => get_transactions_spec(self@, height) == Ok::<Seq<TransactionView>, LedgerError>(
                    ts@.map_values(|t: Transaction| t@),
                ),
                Err(e) => get_transactions_spec(self@, height) == Err::<Seq<TransactionView>, LedgerError>(e),
            },
    {
        proof {
            use_type_invariant(self);
        }
        let hash = match self.blocks.get_block_hash(height) {
            Some(h) => h,
            None => {
                return Err(LedgerError::MissingBlock);
            },
        };
        match self.blocks.get_block_transactions(hash) {
            Ok(Some(ts)) => Ok(ts),
            Ok(None) => Err(LedgerError::MissingTransactions),
            Err(e) => Err(e),
        }
    }

    /// Returns the transaction `transaction_id`.
    pub fn get_transaction(&self, transaction_id: TransactionID) -> (r: Result<Transaction, LedgerError>)
        ensures
            match r {
                Ok(t) => get_transaction_spec(self@, transaction_id) == Ok::<TransactionView, LedgerError>(t@),
                Err(e) => get_transaction_spec(self@, transaction_id) == Err::<TransactionView, LedgerError>(e),
            },
    {
        proof {
            use_type_invariant(self);
            self.blocks.lemma_store();
        }
        match self.blocks.transactions().get_transaction(transaction_id) {
            Ok(Some(t)) => Ok(t),
            Ok(None) => Err(LedgerError::MissingTransaction),
            Err(e) => Err(LedgerError::Store(e)),
        }
    }

    /// Returns the program `program_id`.
    pub fn get_program(&self, program_id: ProgramID) -> (r: Result<Program, LedgerError>)
        ensures
            r == (if self@.store.programs.contains_key(program_id) {
                Ok::<Program, LedgerError>(self@.store.programs[program_id])
            } else {
                Err(LedgerError::MissingProgram)
            }),
    {
        proof {
            use_type_invariant(self);
            self.blocks.lemma_store();
        }
        match self.blocks.transactions().get_program(program_id) {
            Some(p) => Ok(p),
            None => Err(LedgerError::MissingProgram),
        }
    }

    /// Returns the coinbase solution of the block at `height`, if it has one.
    pub fn get_coinbase_proof(&self, height: u32) -> (r: Result<Option<CoinbaseSolution>, LedgerError>)
        ensures
            r == get_coinbase_spec(self@, height),
    {
        proof {
            use_type_invariant(self);
        }
        let hash = match self.blocks.get_block_hash(height) {
            Some(h) => h,
            None => {
                return Err(LedgerError::MissingBlock);
            },
        };
        self.blocks.get_block_coinbase(hash)
    }

    /// Returns the signature of the block at `height`.
    pub fn get_signature(&self, height: u32) -> (r: Result<Signature, LedgerError>)
        ensures
            r == get_signature_spec(self@, height),
    {
        proof {
            use_type_invariant(self);
        }
        let hash = match self.blocks.get_block_hash(height) {
            Some(h) => h,
            None => {
                return Err(LedgerError::MissingBlock);
            },
        };
        match self.blocks.get_block_signature(hash) {
            Some(s) => Ok(s),
            None => Err(LedgerError::MissingSignature),
        }
    }

    /// Returns the IDs of all transactions, in insertion order.
    pub fn transaction_ids(&self) -> (v: Vec<TransactionID>)
        ensures
            v@ == self.transaction_order(),
            orders_agree(self@.store, self.order()),
    {
        proof {
            use_type_invariant(self);
            self.blocks.lemma_store();
            self.blocks.transaction_store().lemma_orders();
        }
        self.blocks.transactions().transaction_ids()
    }

    /// Returns the IDs of all programs, in insertion order.
    pub fn program_ids(&self) -> (v: Vec<ProgramID>)
        ensures
            v@ == self.program_order(),
            orders_agree(self@.store, self.order()),
    {
        proof {
            use_type_invariant(self);
            self.blocks.lemma_store();
            self.blocks.transaction_store().lemma_orders();
        }
        self.blocks.transactions().program_ids()
    }

    /// Returns all programs, in insertion order.
    pub fn programs(&self) -> (v: Vec<Program>)
        ensures
            v@ == self.program_seq(),
            orders_agree(self@.store, self.order()),
    {
        proof {
            use_type_invariant(self);
            self.blocks.lemma_store();
            self.blocks.transaction_store().lemma_orders();
        }
        self.blocks.transactions().programs()
    }

    /// Returns the IDs of all transitions, in insertion order.
    pub fn transition_ids(&self) -> (v: Vec<TransitionID>)
        ensures
            v@ == self.transition_order(),
            orders_agree(self@.store, self.order()),
    {
        self.transitions().transition_ids()
    }

    /// Returns the IDs of all transition inputs.
    pub fn input_ids(&self) -> (v: Vec<Field>)
        ensures
            v@ == gather_inputs(InputPart::Id, self.transition_seq()),
            orders_agree(self@.store, self.order()),
    {
        self.transitions().input_values(InputPart::Id)
    }

    /// Returns the serial numbers of all transition inputs that are records.
    pub fn serial_numbers(&self) -> (v: Vec<Field>)
        ensures
            v@ == gather_inputs(InputPart::SerialNumber, self.transition_seq()),
            orders_agree(self@.store, self.order()),
    {
        self.transitions().input_values(InputPart::SerialNumber)
    }

    /// Returns the tags of all transition inputs that are records.
    pub fn tags(&self) -> (v: Vec<Field>)
        ensures
            v@ == gather_inputs(InputPart::Tag, self.transition_seq()),
            orders_agree(self@.store, self.order()),
    {
        self.transitions().input_values(InputPart::Tag)
    }

    /// Returns the IDs of all transition outputs that are records.
    pub fn output_ids(&self) -> (v: Vec<Field>)
        ensures
            v@ == gather_outputs(OutputPart::RecordId, self.transition_seq()),
            orders_agree(self@.store, self.order()),
    {
        self.transitions().output_values(OutputPart::RecordId)
    }

    /// Returns the commitments of all transition outputs that are records.
    pub fn commitments(&self) -> (v: Vec<Field>)
        ensures
            v@ == gather_outputs(OutputPart::Commitment, self.transition_seq()),
            orders_agree(self@.store, self.order()),
    {
        self.transitions().output_values(OutputPart::Commitment)
    }

    /// Returns the nonces of all transition outputs that are records.
    pub fn nonces(&self) -> (v: Vec<Group>)
        ensures
            v@ == gather_outputs(OutputPart::Nonce, self.transition_seq()),
            orders_agree(self@.store, self.order()),
    {
        self.transitions().output_values(OutputPart::Nonce)
    }

    /// Returns the `(commitment, record)` pairs of all transition outputs that
    /// are records.
    pub fn records(&self) -> (v: Vec<(Field, Record)>)
        ensures
            v@ == gather_records(self.transition_seq()),
            orders_agree(self@.store, self.order()),
    {
        self.transitions().records()
    }

    /// Returns the transition public keys of all transitions.
    pub fn transition_public_keys(&self) -> (v: Vec<Group>)
        ensures
            v@ == self.transition_seq().map_values(|t: TransitionView| t.tpk),
            orders_agree(self@.store, self.order()),
    {
        self.transitions().tpks()
    }

    /// Returns the transition store.
    fn transitions(&self) -> (t: &TransitionStore)
        ensures
            t.wf(),
            t.seq() == self.transition_seq(),
            t.ids() == self.transition_order(),
            orders_agree(self@.store, self.order()),
    {
        proof {
            use_type_invariant(self);
            self.blocks.lemma_store();
            self.blocks.transaction_store().lemma_orders();
            self.blocks.transaction_store().lemma_executions();
            self.blocks.transaction_store().execution_store().lemma_transitions();
        }
        self.blocks.transactions().executions().transition_store()
    }
}

} // verus!

verus! {

/// Once a block is stored, its height leads to its hash, and reading its
/// header, coinbase solution and signature by that height gives them back;
/// the previous hash of its height is that of the block stored just below
/// it, or zero for the first height.
pub proof fn lemma_block_parts_after_insert(v: BlockStoreView, b: BlockView)
    ensures
        hash_spec(block_insert_spec(v, b), b.header.height) == Some(b.hash),
        get_header_spec(block_insert_spec(v, b), b.header.height) == Ok::<Header, LedgerError>(b.header),
        get_signature_spec(block_insert_spec(v, b), b.header.height) == Ok::<Signature, LedgerError>(b.signature),
        get_coinbase_spec(block_insert_spec(v, b), b.header.height) == Ok::<Option<CoinbaseSolution>, LedgerError>(
            b.coinbase,
        ),
        previous_hash_spec(block_insert_spec(v, b), b.header.height) == (if b.header.height == 0 {
            Some(0u64)
        } else {
            hash_spec(v, (b.header.height - 1) as u32)
        }),
{
}

/// Storing a block leaves the hashes of all other heights as they were.
pub proof fn lemma_other_heights_after_insert(v: BlockStoreView, b: BlockView, height: u32)
    requires
        height != b.header.height,
    ensures
        hash_spec(block_insert_spec(v, b), height) == hash_spec(v, height),
{
}

} // verus!

verus! {

/// Once a block is stored whose transactions are independent (see
/// `transactions_independent`) and whose previous hash is the one the ledger
/// holds below its height (zero for the first height), reading the block at
/// its height gives it back, reading the transactions of that height gives
/// its transactions, and reading each of its transactions by ID gives it.
pub proof fn lemma_get_block_after_insert(v: BlockStoreView, b: BlockView)
    requires
        transactions_independent(b.transactions),
        previous_hash_spec(v, b.header.height) == Some(b.previous_hash),
    ensures
        get_block_spec(block_insert_spec(v, b), b.header.height) == Ok::<BlockView, LedgerError>(b),
        get_transactions_spec(block_insert_spec(v, b), b.header.height) == Ok::<Seq<TransactionView>, LedgerError>(
            b.transactions,
        ),
        forall|j: int| 0 <= j < b.transactions.len() ==> get_transaction_spec(
            block_insert_spec(v, b),
            #[trigger] b.transactions[j].id(),
        ) == Ok::<TransactionView, LedgerError>(b.transactions[j]),
{
    let w = block_insert_spec(v, b);
    lemma_block_after_insert(v, b);
    assert(previous_hash_spec(w, b.header.height) == previous_hash_spec(v, b.header.height));
    assert((BlockView { previous_hash: b.previous_hash, ..b }) == b);
    assert forall|j: int| 0 <= j < b.transactions.len() implies get_transaction_spec(
        w,
        #[trigger] b.transactions[j].id(),
    ) == Ok::<TransactionView, LedgerError>(b.transactions[j]) by {
        assert(transaction_spec(w.store, b.transactions[j].id()) == Ok::<Option<TransactionView>, StoreError>(
            Some(b.transactions[j]),
        ));
    }
}

} // verus!
