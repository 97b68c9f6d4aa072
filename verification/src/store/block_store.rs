//! The store of blocks: the block hash of each height, and the parts of each
//! block by its hash.
use vstd::prelude::*;
use crate::store::execution_store::StoreError;
use crate::store::id_map::IdMap;
use crate::store::transaction_store::{
    empty_order, empty_store_view, independent, lemma_insert_keeps_stored, order_insert_all, lemma_insert_stores, lemma_stored_reads_back, store_insert_spec, stored,
    transaction_spec, transaction_wf, TransactionStore, TransactionStoreView,
};
use crate::store::types::{
    Block, BlockHash, BlockView, CoinbaseSolution, Header, Signature, Transaction, TransactionID, TransactionView,
};

verus! {

/// Why a ledger read failed.
#[derive(Clone, Copy, Debug, PartialEq, Eq, Structural)]
pub enum LedgerError {
    /// No block is stored at the given height.
    MissingBlock,
    /// No block hash is stored for the given height.
    MissingHash,
    /// No previous block hash is stored for the given height.
    MissingPreviousHash,
    /// The header of a stored block is missing.
    MissingHeader,
    /// The transaction list of a stored block is missing.
    MissingTransactions,
    /// A transaction is missing.
    MissingTransaction,
    /// A program is missing.
    MissingProgram,
    /// The coinbase solution entry of a stored block is missing.
    MissingCoinbase,
    /// The signature of a stored block is missing.
    MissingSignature,
    /// The transaction store failed.
    Store(StoreError),
}

/// What the block store holds, map by map.
#[verifier::ext_equal]
pub struct BlockStoreView {
    /// Height to block hash.
    pub hashes: Map<u64, BlockHash>,
    /// Block hash to height.
    pub heights: Map<BlockHash, u32>,
    /// Block hash to header.
    pub headers: Map<BlockHash, Header>,
    /// Block hash to the IDs of its transactions.
    pub transactions: Map<BlockHash, Seq<TransactionID>>,
    /// Block hash to its coinbase solution, if it has one.
    pub coinbases: Map<BlockHash, Option<CoinbaseSolution>>,
    /// Block hash to signature.
    pub signatures: Map<BlockHash, Signature>,
    /// The transactions.
    pub store: TransactionStoreView,
}

/// A store that holds nothing.
pub open spec fn empty_block_store_view() -> BlockStoreView {
    BlockStoreView {
        hashes: Map::empty(),
        heights: Map::empty(),
        headers: Map::empty(),
        transactions: Map::empty(),
        coinbases: Map::empty(),
        signatures: Map::empty(),
        store: empty_store_view(),
    }
}

/// The block hash of `height`, if stored.
pub open spec fn hash_spec(v: BlockStoreView, height: u32) -> Option<BlockHash> {
    if v.hashes.contains_key(height as u64) {
        Some(v.hashes[height as u64])
    } else {
        None
    }
}

/// The hash of the block before `height`: the default hash, zero, for the
/// first block.
pub open spec fn previous_hash_spec(v: BlockStoreView, height: u32) -> Option<BlockHash> {
    if height == 0 {
        Some(0)
    } else {
        hash_spec(v, (height - 1) as u32)
    }
}

/// The transactions with the given IDs, in order; the first that cannot be
/// read gives the error.
pub open spec fn fetch_all_spec(s: TransactionStoreView, ids: Seq<TransactionID>) -> Result<
    Seq<TransactionView>,
    LedgerError,
>
    decreases ids.len(),
{
    if ids.len() == 0 {
        Ok(Seq::empty())
    } else {
        match fetch_all_spec(s, ids.drop_last()) {
            Err(e) => Err(e),
            Ok(front) => match transaction_spec(s, ids.last()) {
                Ok(Some(t)) => Ok(front.push(t)),
                Ok(None) => Err(LedgerError::MissingTransaction),
                Err(e) => Err(LedgerError::Store(e)),
            },
        }
    }
}

/// The transactions of the block `hash`: `Ok(None)` where its list is not
/// stored.
pub open spec fn block_transactions_spec(v: BlockStoreView, hash: BlockHash) -> Result<
    Option<Seq<TransactionView>>,
    LedgerError,
> {
    if !v.transactions.contains_key(hash) {
        Ok(None)
    } else {
        match fetch_all_spec(v.store, v.transactions[hash]) {
            Ok(s) => Ok(Some(s)),
            Err(e) => Err(e),
        }
    }
}

/// The coinbase solution of the block `hash`.
pub open spec fn coinbase_spec(v: BlockStoreView, hash: BlockHash) -> Result<Option<CoinbaseSolution>, LedgerError> {
    if v.coinbases.contains_key(hash) {
        Ok(v.coinbases[hash])
    } else {
        Err(LedgerError::MissingCoinbase)
    }
}

/// The block `hash`: `Ok(None)` where no height is stored for it, an error
/// where a part of it is missing.
pub open spec fn block_spec(v: BlockStoreView, hash: BlockHash) -> Result<Option<BlockView>, LedgerError> {
    if !v.heights.contains_key(hash) {
        Ok(None)
    } else if !v.headers.contains_key(hash) {
        Err(LedgerError::MissingHeader)
    } else {
        match previous_hash_spec(v, v.heights[hash]) {
            None => Err(LedgerError::MissingPreviousHash),
            Some(previous_hash) => match block_transactions_spec(v, hash) {
                Err(e) => Err(e),
                Ok(None) => Err(LedgerError::MissingTransactions),
                Ok(Some(transactions)) => match coinbase_spec(v, hash) {
                    Err(e) => Err(e),
                    Ok(coinbase) => if !v.signatures.contains_key(hash) {
                        Err(LedgerError::MissingSignature)
                    } else {
                        Ok(
                            Some(
                                BlockView {
                                    hash,
                                    previous_hash,
                                    header: v.headers[hash],
                                    transactions,
                                    coinbase,
                                    signature: v.signatures[hash],
                                },
                            ),
                        )
                    },
                },
            },
        }
    }
}

/// The transaction store after inserting each of `ts`, one after the other.
pub open spec fn insert_all_spec(s: TransactionStoreView, ts: Seq<TransactionView>) -> TransactionStoreView
    decreases ts.len(),
{
    if ts.len() == 0 {
        s
    } else {
        store_insert_spec(insert_all_spec(s, ts.drop_last()), ts.last())
    }
}

/// The IDs of a list of transactions, in order.
pub open spec fn transaction_ids_of(ts: Seq<TransactionView>) -> Seq<TransactionID> {
    ts.map_values(|t: TransactionView| t.id())
}

/// The block store after inserting the block `b`.
pub open spec fn block_insert_spec(v: BlockStoreView, b: BlockView) -> BlockStoreView {
    BlockStoreView {
        hashes: v.hashes.insert(b.header.height as u64, b.hash),
        heights: v.heights.insert(b.hash, b.header.height),
        headers: v.headers.insert(b.hash, b.header),
        transactions: v.transactions.insert(b.hash, transaction_ids_of(b.transactions)),
        coinbases: v.coinbases.insert(b.hash, b.coinbase),
        signatures: v.signatures.insert(b.hash, b.signature),
        store: insert_all_spec(v.store, b.transactions),
    }
}

/// Once reading a front part of a list of transactions fails, reading a
/// longer front part fails the same way.
proof fn lemma_fetch_err_extends(s: TransactionStoreView, ids: Seq<TransactionID>, j: int, k: int)
    requires
        0 <= j <= k <= ids.len(),
        fetch_all_spec(s, ids.subrange(0, j)) is Err,
    ensures
        fetch_all_spec(s, ids.subrange(0, k)) == fetch_all_spec(s, ids.subrange(0, j)),
    decreases k - j,
{
    if k > j {
        lemma_fetch_err_extends(s, ids, j, k - 1);
        assert(ids.subrange(0, k).drop_last() =~= ids.subrange(0, k - 1));
    }
}

/// The view of a fetched list of transactions.
pub open spec fn transactions_result_view(r: Result<Option<Vec<Transaction>>, LedgerError>) -> Result<
    Option<Seq<TransactionView>>,
    LedgerError,
> {
    match r {
        Ok(Some(ts)) => Ok(Some(ts@.map_values(|t: Transaction| t@))),
        Ok(None) => Ok(None),
        Err(e) => Err(e),
    }
}

/// The view of a fetched block.
pub open spec fn block_result_view(r: Result<Option<Block>, LedgerError>) -> Result<Option<BlockView>, LedgerError> {
    match r {
        Ok(Some(b)) => Ok(Some(b@)),
        Ok(None) => Ok(None),
        Err(e) => Err(e),
    }
}

/// The store of blocks.
pub struct BlockStore {
    hashes: IdMap<BlockHash>,
    heights: IdMap<u32>,
    headers: IdMap<Header>,
    transactions: IdMap<Vec<TransactionID>>,
    coinbases: IdMap<Option<CoinbaseSolution>>,
    signatures: IdMap<Signature>,
    store: TransactionStore,
}

impl BlockStore {
    /// What the store holds.
    pub closed spec fn view(&self) -> BlockStoreView {
        BlockStoreView {
            hashes: self.hashes.map(),
            heights: self.heights.map(),
            headers: self.headers.map(),
            transactions: self.transactions.map().map_values(|ids: Vec<TransactionID>| ids@),
            coinbases: self.coinbases.map(),
            signatures: self.signatures.map(),
            store: self.store.view(),
        }
    }

    /// The store of transactions.
    pub closed spec fn transaction_store(&self) -> TransactionStore {
        self.store
    }

    /// Every map is well formed.
    pub closed spec fn wf(&self) -> bool {
        &&& self.hashes.wf()
        &&& self.heights.wf()
        &&& self.headers.wf()
        &&& self.transactions.wf()
        &&& self.coinbases.wf()
        &&& self.signatures.wf()
        &&& self.store.wf()
    }

    /// The transactions are those of the transaction store.
    pub proof fn lemma_store(&self)
        ensures
            self.view().store == self.transaction_store().view(),
            self.wf() ==> self.transaction_store().wf(),
    {
    }

    /// Creates an empty store.
    pub fn new() -> (s: BlockStore)
        ensures
            s.wf(),
            s.view() == empty_block_store_view(),
            s.transaction_store().order() == empty_order(),
    {
        let s = BlockStore {
            hashes: IdMap::new(),
            heights: IdMap::new(),
            headers: IdMap::new(),
            transactions: IdMap::new(),
            coinbases: IdMap::new(),
            signatures: IdMap::new(),
            store: TransactionStore::new(),
        };
        assert(s.view() =~= empty_block_store_view());
        s
    }

    /// Returns the store of transactions.
    pub fn transactions(&self) -> (t: &TransactionStore)
        ensures
            *t == self.transaction_store(),
    {
        &self.store
    }

    /// Stores a block: its hash under its height, its height, header,
    /// transaction IDs, coinbase solution and signature under its hash, and
    /// each of its transactions in the store of transactions.
    pub fn insert(&mut self, block: &Block)
        requires
            old(self).wf(),
        ensures
            final(self).wf(),
            final(self).view() == block_insert_spec(old(self).view(), block@),
            final(self).transaction_store().order() == order_insert_all(
                old(self).transaction_store().order(),
                block@.transactions,
            ),
    {
        let hash = block.hash;
        let height = block.header.height;
        self.hashes.insert(height as u64, hash);
        self.heights.insert(hash, height);
        self.headers.insert(hash, block.header);
        let ghost txs = block@.transactions;
        let ghost s0 = self.store.view();
        let ghost o0 = self.store.order();
        let ghost hashes1 = self.hashes;
        let ghost heights1 = self.heights;
        let ghost headers1 = self.headers;
        let ghost transactions1 = self.transactions;
        let ghost coinbases1 = self.coinbases;
        let ghost signatures1 = self.signatures;
        let mut ids: Vec<TransactionID> = Vec::new();
        let n = block.transactions.len();
        let mut i: usize = 0;
        proof {
            assert(txs.subrange(0, 0) =~= Seq::<TransactionView>::empty());
        }
        while i < n
            invariant
                n == block.transactions@.len(),
                txs == block@.transactions,
                i <= n,
                self.wf(),
                self.hashes == hashes1,
                self.heights == heights1,
                self.headers == headers1,
                self.transactions == transactions1,
                self.coinbases == coinbases1,
                self.signatures == signatures1,
                self.store.view() == insert_all_spec(s0, txs.subrange(0, i as int)),
                self.store.order() == order_insert_all(o0, txs.subrange(0, i as int)),
                ids@ =~= transaction_ids_of(txs).subrange(0, i as int),
            decreases n - i,
        {
            let t = &block.transactions[i];
            ids.push(t.id());
            self.store.insert(t);
            proof {
                assert(txs.subrange(0, i + 1).drop_last() =~= txs.subrange(0, i as int));
                assert(txs[i as int] == t@);
            }
            i = i + 1;
        }
        proof {
            assert(txs.subrange(0, n as int) =~= txs);
            assert(ids@ =~= transaction_ids_of(txs));
        }
        self.transactions.insert(hash, ids);
        self.coinbases.insert(hash, block.coinbase);
        self.signatures.insert(hash, block.signature);
        proof {
            let want = block_insert_spec(old(self).view(), block@);
            assert(self.view().hashes =~= want.hashes);
            assert(self.view().heights =~= want.heights);
            assert(self.view().headers =~= want.headers);
            assert(self.view().transactions =~= want.transactions);
            assert(self.view().coinbases =~= want.coinbases);
            assert(self.view().signatures =~= want.signatures);
        }
    }

    /// Returns the block hash of `height`, if stored.
    pub fn get_block_hash(&self, height: u32) -> (r: Option<BlockHash>)
        requires
            self.wf(),
        ensures
            r == hash_spec(self.view(), height),
    {
        match self.hashes.get(height as u64) {
            Some(h) => Some(*h),
            None => None,
        }
    }

    /// Returns the hash of the block before `height`: the default hash, zero,
    /// for the first block.
    pub fn get_previous_block_hash(&self, height: u32) -> (r: Option<BlockHash>)
        requires
            self.wf(),
        ensures
            r == previous_hash_spec(self.view(), height),
    {
        if height == 0 {
            Some(0)
        } else {
            self.get_block_hash(height - 1)
        }
    }

    /// Returns the header of the block `hash`, if stored.
    pub fn get_block_header(&self, hash: BlockHash) -> (r: Option<Header>)
        requires
            self.wf(),
        ensures
            r == (if self.view().headers.contains_key(hash) {
                Some(self.view().headers[hash])
            } else {
                None::<Header>
            }),
    {
        match self.headers.get(hash) {
            Some(h) => Some(*h),
            None => None,
        }
    }

    /// Returns the signature of the block `hash`, if stored.
    pub fn get_block_signature(&self, hash: BlockHash) -> (r: Option<Signature>)
        requires
            self.wf(),
        ensures
            r == (if self.view().signatures.contains_key(hash) {
                Some(self.view().signatures[hash])
            } else {
                None::<Signature>
            }),
    {
        match self.signatures.get(hash) {
            Some(s) => Some(*s),
            None => None,
        }
    }

    /// Returns the coinbase solution of the block `hash`; fails where its
    /// entry is missing.
    pub fn get_block_coinbase(&self, hash: BlockHash) -> (r: Result<Option<CoinbaseSolution>, LedgerError>)
        requires
            self.wf(),
        ensures
            r == coinbase_spec(self.view(), hash),
    {
        match self.coinbases.get(hash) {
            Some(c) => Ok(*c),
            None => Err(LedgerError::MissingCoinbase),
        }
    }

    /// Fetches the transactions with the given IDs, in order; the first that
    /// cannot be read gives the error.
    fn fetch_all(&self, ids: &Vec<TransactionID>) -> (r: Result<Vec<Transaction>, LedgerError>)
        requires
            self.wf(),
        ensures
            match r {
                Ok(v) => fetch_all_spec(self.view().store, ids@) == Ok::<Seq<TransactionView>, LedgerError>(
                    v@.map_values(|t: Transaction| t@),
                ),
                Err(e) => fetch_all_spec(self.view().store, ids@) == Err::<Seq<TransactionView>, LedgerError>(e),
            },
    {
        let ghost sv = self.view().store;
        let mut out: Vec<Transaction> = Vec::new();
        let mut i: usize = 0;
        proof {
            assert(ids@.subrange(0, 0) =~= Seq::<TransactionID>::empty());
            assert(out@.map_values(|t: Transaction| t@) =~= Seq::<TransactionView>::empty());
        }
        while i < ids.len()
            invariant
                sv == self.view().store,
                self.wf(),
                i <= ids@.len(),
                fetch_all_spec(sv, ids@.subrange(0, i as int)) == Ok::<Seq<TransactionView>, LedgerError>(
                    out@.map_values(|t: Transaction| t@),
                ),
            decreases ids@.len() - i,
        {
            let id = ids[i];
            proof {
                assert(ids@.subrange(0, i + 1).drop_last() =~= ids@.subrange(0, i as int));
                assert(ids@.subrange(0, i + 1).last() == id);
            }
            let ghost before = out@;
            match self.store.get_transaction(id) {
                Ok(Some(t)) => {
                    let ghost tv = t@;
                    out.push(t);
                    proof {
                        assert(out@.map_values(|t: Transaction| t@) =~= before.map_values(|t: Transaction| t@).push(tv));
                    }
                },
                Ok(None) => {
                    proof {
                        lemma_fetch_err_extends(sv, ids@, i + 1, ids@.len() as int);
                        assert(ids@.subrange(0, ids@.len() as int) =~= ids@);
                    }
                    return Err(LedgerError::MissingTransaction);
                },
                Err(e) => {
                    proof {
                        lemma_fetch_err_extends(sv, ids@, i + 1, ids@.len() as int);
                        assert(ids@.subrange(0, ids@.len() as int) =~= ids@);
                    }
                    return Err(LedgerError::Store(e));
                },
            }
            i = i + 1;
        }
        proof {
            assert(ids@.subrange(0, ids@.len() as int) =~= ids@);
        }
        Ok(out)
    }

    /// Returns the transactions of the block `hash`: `Ok(None)` where its list
    /// is not stored, an error where one of them cannot be read.
    pub fn get_block_transactions(&self, hash: BlockHash) -> (r: Result<Option<Vec<Transaction>>, LedgerError>)
        requires
            self.wf(),
        ensures
            transactions_result_view(r) == block_transactions_spec(self.view(), hash),
    {
        let ids = match self.transactions.get(hash) {
            Some(ids) => ids,
            None => {
                return Ok(None);
            },
        };
        match self.fetch_all(ids) {
            Ok(v) => Ok(Some(v)),
            Err(e) => Err(e),
        }
    }

    /// Returns the block `hash`: `Ok(None)` where no height is stored for it,
    /// an error where a part of it is missing.
    pub fn get_block(&self, hash: BlockHash) -> (r: Result<Option<Block>, LedgerError>)
        requires
            self.wf(),
        ensures
            block_result_view(r) == block_spec(self.view(), hash),
    {
        let height = match self.heights.get(hash) {
            Some(h) => *h,
            None => {
                return Ok(None);
            },
        };
        let header = match self.get_block_header(hash) {
            Some(h) => h,
            None => {
                return Err(LedgerError::MissingHeader);
            },
        };
        let previous_hash = match self.get_previous_block_hash(height) {
            Some(p) => p,
            None => {
                return Err(LedgerError::MissingPreviousHash);
            },
        };
        let transactions = match self.get_block_transactions(hash) {
            Ok(Some(t)) => t,
            Ok(None) => {
                return Err(LedgerError::MissingTransactions);
            },
            Err(e) => {
                return Err(e);
            },
        };
        let coinbase = match self.get_block_coinbase(hash) {
            Ok(c) => c,
            Err(e) => {
                return Err(e);
            },
        };
        let signature = match self.get_block_signature(hash) {
            Some(s) => s,
            None => {
                return Err(LedgerError::MissingSignature);
            },
        };
        Ok(Some(Block { hash, previous_hash, header, transactions, coinbase, signature }))
    }
}

} // verus!

verus! {

/// Each transaction is well formed, and any two of them are independent.
pub open spec fn transactions_independent(ts: Seq<TransactionView>) -> bool {
    &&& forall|i: int| 0 <= i < ts.len() ==> transaction_wf(#[trigger] ts[i])
    &&& forall|i: int, j: int| 0 <= i < j < ts.len() ==> independent(#[trigger] ts[i], #[trigger] ts[j])
}

/// Inserting independent transactions one after the other leaves each of
/// them stored.
pub proof fn lemma_insert_all_stores(s: TransactionStoreView, ts: Seq<TransactionView>)
    requires
        transactions_independent(ts),
    ensures
        forall|j: int| 0 <= j < ts.len() ==> stored(insert_all_spec(s, ts), #[trigger] ts[j]),
    decreases ts.len(),
{
    if ts.len() > 0 {
        let front = ts.drop_last();
        let n = ts.len() - 1;
        assert(transactions_independent(front)) by {
            assert forall|i: int| 0 <= i < front.len() implies transaction_wf(#[trigger] front[i]) by {
                assert(front[i] == ts[i]);
            }
            assert forall|i: int, j: int| 0 <= i < j < front.len() implies independent(
                #[trigger] front[i],
                #[trigger] front[j],
            ) by {
                assert(front[i] == ts[i]);
                assert(front[j] == ts[j]);
            }
        }
        lemma_insert_all_stores(s, front);
        let mid = insert_all_spec(s, front);
        assert forall|j: int| 0 <= j < ts.len() implies stored(insert_all_spec(s, ts), #[trigger] ts[j]) by {
            if j == n {
                assert(transaction_wf(ts[n]));
                lemma_insert_stores(mid, ts.last());
            } else {
                assert(front[j] == ts[j]);
                assert(stored(mid, front[j]));
                assert(independent(ts[j], ts[n]));
                lemma_insert_keeps_stored(mid, ts[j], ts.last());
            }
        }
    }
}

/// Stored transactions read back, in order, as themselves.
pub proof fn lemma_fetch_all_stored(s: TransactionStoreView, ts: Seq<TransactionView>)
    requires
        forall|j: int| 0 <= j < ts.len() ==> stored(s, #[trigger] ts[j]),
    ensures
        fetch_all_spec(s, transaction_ids_of(ts)) == Ok::<Seq<TransactionView>, LedgerError>(ts),
    decreases ts.len(),
{
    if ts.len() > 0 {
        let front = ts.drop_last();
        assert forall|j: int| 0 <= j < front.len() implies stored(s, #[trigger] front[j]) by {
            assert(front[j] == ts[j]);
        }
        lemma_fetch_all_stored(s, front);
        assert(transaction_ids_of(ts).drop_last() =~= transaction_ids_of(front));
        assert(stored(s, ts[ts.len() - 1]));
        lemma_stored_reads_back(s, ts.last());
        assert(front.push(ts.last()) =~= ts);
    } else {
        assert(transaction_ids_of(ts) =~= Seq::<TransactionID>::empty());
        assert(ts =~= Seq::<TransactionView>::empty());
    }
}

/// Once a block whose transactions are independent is stored, reading it
/// back by its hash gives it, with the previous hash that the store holds.
pub proof fn lemma_block_after_insert(v: BlockStoreView, b: BlockView)
    requires
        transactions_independent(b.transactions),
    ensures
        block_spec(block_insert_spec(v, b), b.hash) == (match previous_hash_spec(block_insert_spec(v, b), b.header.height) {
            Some(previous_hash) => Ok::<Option<BlockView>, LedgerError>(Some(BlockView { previous_hash, ..b })),
            None => Err(LedgerError::MissingPreviousHash),
        }),
        block_transactions_spec(block_insert_spec(v, b), b.hash) == Ok::<Option<Seq<TransactionView>>, LedgerError>(
            Some(b.transactions),
        ),
        forall|j: int| 0 <= j < b.transactions.len() ==> transaction_spec(
            block_insert_spec(v, b).store,
            #[trigger] b.transactions[j].id(),
        ) == Ok::<Option<TransactionView>, StoreError>(Some(b.transactions[j])),
{
    let w = block_insert_spec(v, b);
    lemma_insert_all_stores(v.store, b.transactions);
    lemma_fetch_all_stored(w.store, b.transactions);
    assert forall|j: int| 0 <= j < b.transactions.len() implies transaction_spec(
        w.store,
        #[trigger] b.transactions[j].id(),
    ) == Ok::<Option<TransactionView>, StoreError>(Some(b.transactions[j])) by {
        lemma_stored_reads_back(w.store, b.transactions[j]);
    }
}

} // verus!
