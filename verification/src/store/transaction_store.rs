//! The store of transactions: deployments with their programs, and executions.
use vstd::prelude::*;
use crate::store::execution_store::{
    all_present, empty_execution_view, get_transaction_spec, ids_of, insert_order, insert_spec, lemma_get_after_insert, lemma_put_all, lemma_put_all_get,
    transaction_result_view, ExecutionStore, ExecutionView, StoreError,
};
use crate::store::id_map::IdMap;
use crate::store::types::{
    Program, ProgramID, Proof, StateRoot, Transaction, TransactionID, TransactionView, TransitionID, TransitionView,
};

verus! {

/// The kind of a stored transaction.
#[derive(Clone, Copy, Debug, PartialEq, Eq, Structural)]
pub enum TransactionKind {
    /// A transaction that deploys a program.
    Deploy,
    /// A transaction that executes transitions.
    Execute,
}

/// What the transaction store holds, map by map.
#[verifier::ext_equal]
pub struct TransactionStoreView {
    /// Transaction ID to its kind.
    pub kinds: Map<TransactionID, TransactionKind>,
    /// Deployment transaction ID to the ID of the program it deploys.
    pub deployments: Map<TransactionID, ProgramID>,
    /// Program ID to the deployment transaction that deployed it.
    pub deployed_by: Map<ProgramID, TransactionID>,
    /// Program ID to program.
    pub programs: Map<ProgramID, Program>,
    /// The execution transactions.
    pub executions: ExecutionView,
}

/// The transaction `id`: `Ok(None)` where none is stored, an error where a
/// part of it is missing.
pub open spec fn transaction_spec(v: TransactionStoreView, id: TransactionID) -> Result<
    Option<TransactionView>,
    StoreError,
> {
    if !v.kinds.contains_key(id) {
        Ok(None)
    } else {
        match v.kinds[id] {
            TransactionKind::Deploy => if !v.deployments.contains_key(id) {
                Ok(None)
            } else if !v.programs.contains_key(v.deployments[id]) {
                Err(StoreError::MissingTransaction)
            } else {
                Ok(Some(TransactionView::Deploy(id, v.programs[v.deployments[id]])))
            },
            TransactionKind::Execute => get_transaction_spec(v.executions, id),
        }
    }
}

/// The store after inserting `t`.
pub open spec fn store_insert_spec(v: TransactionStoreView, t: TransactionView) -> TransactionStoreView {
    match t {
        TransactionView::Deploy(id, program) => TransactionStoreView {
            kinds: v.kinds.insert(id, TransactionKind::Deploy),
            deployments: v.deployments.insert(id, program.id),
            deployed_by: v.deployed_by.insert(program.id, id),
            programs: v.programs.insert(program.id, program),
            executions: v.executions,
        },
        TransactionView::Execute(id, e, fee) => TransactionStoreView {
            kinds: v.kinds.insert(id, TransactionKind::Execute),
            executions: insert_spec(v.executions, id, e, fee),
            ..v
        },
    }
}

/// The orders of a transaction store: its transaction IDs, its program IDs
/// with their programs, and its transition IDs with their transitions, each
/// in insertion order.
pub struct StoreOrder {
    pub transactions: Seq<TransactionID>,
    pub programs: (Seq<ProgramID>, Seq<Program>),
    pub transitions: (Seq<TransitionID>, Seq<TransitionView>),
}

/// A store that holds nothing.
pub open spec fn empty_store_view() -> TransactionStoreView {
    TransactionStoreView {
        kinds: Map::empty(),
        deployments: Map::empty(),
        deployed_by: Map::empty(),
        programs: Map::empty(),
        executions: empty_execution_view(),
    }
}

/// The orders of a store that holds nothing.
pub open spec fn empty_order() -> StoreOrder {
    StoreOrder {
        transactions: Seq::empty(),
        programs: (Seq::empty(), Seq::empty()),
        transitions: (Seq::empty(), Seq::empty()),
    }
}

/// The orders after inserting `t`: a stored key keeps its place and takes the
/// new value, a new key goes last.
pub open spec fn order_insert(o: StoreOrder, t: TransactionView) -> StoreOrder {
    StoreOrder {
        transactions: if o.transactions.contains(t.id()) {
            o.transactions
        } else {
            o.transactions.push(t.id())
        },
        programs: match t {
            TransactionView::Deploy(_, program) => if o.programs.0.contains(program.id) {
                (o.programs.0, o.programs.1.update(o.programs.0.index_of(program.id), program))
            } else {
                (o.programs.0.push(program.id), o.programs.1.push(program))
            },
            TransactionView::Execute(..) => o.programs,
        },
        transitions: match t {
            TransactionView::Deploy(..) => o.transitions,
            TransactionView::Execute(_, e, fee) => insert_order(o.transitions, e, fee),
        },
    }
}

/// The orders after inserting each of `ts`, one after the other.
pub open spec fn order_insert_all(o: StoreOrder, ts: Seq<TransactionView>) -> StoreOrder
    decreases ts.len(),
{
    if ts.len() == 0 {
        o
    } else {
        order_insert(order_insert_all(o, ts.drop_last()), ts.last())
    }
}

/// The orders list what the store holds: each stored transaction ID once,
/// each stored program once with its program, and each stored transition
/// once under its ID, and nothing else.
pub open spec fn orders_agree(v: TransactionStoreView, o: StoreOrder) -> bool {
    &&& o.transactions.no_duplicates()
    &&& forall|k: TransactionID| v.kinds.contains_key(k) <==> o.transactions.contains(k)
    &&& o.programs.0.no_duplicates()
    &&& o.programs.0.len() == o.programs.1.len()
    &&& forall|k: ProgramID| v.programs.contains_key(k) <==> o.programs.0.contains(k)
    &&& forall|i: int| 0 <= i < o.programs.0.len() ==> #[trigger] v.programs[o.programs.0[i]] == o.programs.1[i]
    &&& o.transitions.0.no_duplicates()
    &&& o.transitions.0.len() == o.transitions.1.len()
    &&& forall|k: TransitionID| v.executions.transitions.contains_key(k) <==> o.transitions.0.contains(k)
    &&& forall|i: int|
        0 <= i < o.transitions.0.len() ==> #[trigger] v.executions.transitions[o.transitions.0[i]]
            == o.transitions.1[i]
    &&& forall|i: int| 0 <= i < o.transitions.0.len() ==> (#[trigger] o.transitions.1[i]).id == o.transitions.0[i]
}

/// The store of transactions.
pub struct TransactionStore {
    kinds: IdMap<TransactionKind>,
    deployments: IdMap<ProgramID>,
    deployed_by: IdMap<TransactionID>,
    programs: IdMap<Program>,
    executions: ExecutionStore,
}

impl TransactionStore {
    /// What the store holds.
    pub closed spec fn view(&self) -> TransactionStoreView {
        TransactionStoreView {
            kinds: self.kinds.map(),
            deployments: self.deployments.map(),
            deployed_by: self.deployed_by.map(),
            programs: self.programs.map(),
            executions: self.executions.view(),
        }
    }

    /// The stored transaction IDs, in insertion order.
    pub closed spec fn transaction_order(&self) -> Seq<TransactionID> {
        self.kinds.key_seq()
    }

    /// The stored program IDs, in insertion order.
    pub closed spec fn program_order(&self) -> Seq<ProgramID> {
        self.programs.key_seq()
    }

    /// The stored programs, in insertion order.
    pub closed spec fn program_seq(&self) -> Seq<Program> {
        self.programs.entry_seq().map_values(|e: (u64, Program)| e.1)
    }

    /// The orders of the store: its transaction IDs, its programs and its
    /// transitions, each in insertion order.
    pub open spec fn order(&self) -> StoreOrder {
        StoreOrder {
            transactions: self.transaction_order(),
            programs: (self.program_order(), self.program_seq()),
            transitions: self.execution_store().transitions().order(),
        }
    }

    /// The store of execution transactions.
    pub closed spec fn execution_store(&self) -> ExecutionStore {
        self.executions
    }

    /// Every map is well formed.
    pub closed spec fn wf(&self) -> bool {
        &&& self.kinds.wf()
        &&& self.deployments.wf()
        &&& self.deployed_by.wf()
        &&& self.programs.wf()
        &&& self.executions.wf()
    }

    /// The executions are those of the execution store.
    pub proof fn lemma_executions(&self)
        ensures
            self.view().executions == self.execution_store().view(),
            self.wf() ==> self.execution_store().wf(),
    {
    }

    /// The orders of a well-formed store list what it holds.
    pub proof fn lemma_orders(&self)
        requires
            self.wf(),
        ensures
            orders_agree(self.view(), self.order()),
    {
        self.kinds.lemma_view();
        self.programs.lemma_view();
        self.executions.lemma_transitions();
        self.executions.transitions().lemma_order();
        assert forall|i: int| 0 <= i < self.program_order().len() implies #[trigger] self.programs.map()[self.program_order()[i]]
            == self.program_seq()[i] by {
            assert(self.programs.key_seq()[i] == self.programs.entry_seq()[i].0);
        }
    }

    /// Creates an empty store.
    pub fn new() -> (s: TransactionStore)
        ensures
            s.wf(),
            s.view() == empty_store_view(),
            s.order() == empty_order(),
    {
        let s = TransactionStore {
            kinds: IdMap::new(),
            deployments: IdMap::new(),
            deployed_by: IdMap::new(),
            programs: IdMap::new(),
            executions: ExecutionStore::new(),
        };
        assert(s.program_seq() =~= Seq::<Program>::empty());
        assert(s.view() =~= empty_store_view());
        s
    }

    /// Returns the store of execution transactions.
    pub fn executions(&self) -> (e: &ExecutionStore)
        ensures
            *e == self.execution_store(),
    {
        &self.executions
    }

    /// Stores a transaction: a deployment with its program, an execution in
    /// the store of executions.
    pub fn insert(&mut self, transaction: &Transaction)
        requires
            old(self).wf(),
        ensures
            final(self).wf(),
            final(self).view() == store_insert_spec(old(self).view(), transaction@),
            final(self).order() == order_insert(old(self).order(), transaction@),
    {
        match transaction {
            Transaction::Deploy(id, program) => {
                self.kinds.insert(*id, TransactionKind::Deploy);
                self.deployments.insert(*id, program.id);
                self.deployed_by.insert(program.id, *id);
                self.programs.insert(program.id, *program);
            },
            Transaction::Execute(id, _, _) => {
                self.kinds.insert(*id, TransactionKind::Execute);
                let _ = self.executions.insert(transaction);
            },
        }
        proof {
            self.programs.lemma_view();
            old(self).programs.lemma_view();
            let tv = transaction@;
            if let TransactionView::Deploy(_, program) = tv {
                if old(self).program_order().contains(program.id) {
                    assert(self.program_seq() =~= old(self).program_seq().update(
                        old(self).program_order().index_of(program.id),
                        program,
                    ));
                } else {
                    assert(self.program_seq() =~= old(self).program_seq().push(program));
                }
            }
            let want = store_insert_spec(old(self).view(), transaction@);
            assert(self.view().kinds =~= want.kinds);
            assert(self.view().deployments =~= want.deployments);
            assert(self.view().deployed_by =~= want.deployed_by);
            assert(self.view().programs =~= want.programs);
            assert(self.view().executions =~= want.executions);
        }
    }

    /// Returns the transaction `id`: `Ok(None)` where no transaction is stored
    /// under `id`, an error where a part is missing.
    pub fn get_transaction(&self, id: TransactionID) -> (r: Result<Option<Transaction>, StoreError>)
        requires
            self.wf(),
        ensures
            transaction_result_view(r) == transaction_spec(self.view(), id),
    {
        match self.kinds.get(id) {
            None => Ok(None),
            Some(TransactionKind::Deploy) => {
                let pid = match self.deployments.get(id) {
                    Some(p) => *p,
                    None => {
                        return Ok(None);
                    },
                };
                match self.programs.get(pid) {
                    Some(program) => Ok(Some(Transaction::Deploy(id, *program))),
                    None => Err(StoreError::MissingTransaction),
                }
            },
            Some(TransactionKind::Execute) => self.executions.get_transaction(id),
        }
    }

    /// Returns the program `program_id`, if stored.
    pub fn get_program(&self, program_id: ProgramID) -> (r: Option<Program>)
        requires
            self.wf(),
        ensures
            r == (if self.view().programs.contains_key(program_id) {
                Some(self.view().programs[program_id])
            } else {
                None::<Program>
            }),
    {
        match self.programs.get(program_id) {
            Some(p) => Some(*p),
            None => None,
        }
    }

    /// Returns the stored transaction IDs, in insertion order.
    pub fn transaction_ids(&self) -> (v: Vec<TransactionID>)
        requires
            self.wf(),
        ensures
            v@ == self.transaction_order(),
    {
        self.kinds.keys()
    }

    /// Returns the stored program IDs, in insertion order.
    pub fn program_ids(&self) -> (v: Vec<ProgramID>)
        requires
            self.wf(),
        ensures
            v@ == self.program_order(),
    {
        self.programs.keys()
    }

    /// Returns the stored programs, in insertion order.
    pub fn programs(&self) -> (v: Vec<Program>)
        requires
            self.wf(),
        ensures
            v@ == self.program_seq(),
    {
        let mut v: Vec<Program> = Vec::new();
        let n = self.programs.len();
        proof {
            self.programs.lemma_view();
        }
        let mut i: usize = 0;
        while i < n
            invariant
                n == self.programs.entry_seq().len(),
                i <= n,
                v@ =~= self.program_seq().subrange(0, i as int),
            decreases n - i,
        {
            let (_, p) = self.programs.entry_at(i);
            v.push(*p);
            i = i + 1;
        }
        proof {
            assert(v@ =~= self.program_seq());
        }
        v
    }
}

/// Once a deployment is stored, reading it back gives that deployment, and
/// its program is stored under its program ID.
pub proof fn lemma_get_deployment_after_insert(v: TransactionStoreView, id: TransactionID, program: Program)
    ensures
        transaction_spec(store_insert_spec(v, TransactionView::Deploy(id, program)), id) == Ok::<
            Option<TransactionView>,
            StoreError,
        >(Some(TransactionView::Deploy(id, program))),
        store_insert_spec(v, TransactionView::Deploy(id, program)).programs[program.id] == program,
{
}

/// Once an execution transaction whose transitions (its fee's among them)
/// have distinct IDs is stored, reading it back gives that transaction.
pub proof fn lemma_get_execution_after_insert(
    v: TransactionStoreView,
    id: TransactionID,
    e: (Seq<TransitionView>, StateRoot, Option<Proof>),
    fee: Option<(TransitionView, StateRoot, Option<Proof>)>,
)
    requires
        ids_of(e.0).no_duplicates(),
        fee matches Some(f) ==> !ids_of(e.0).contains(f.0.id),
    ensures
        transaction_spec(store_insert_spec(v, TransactionView::Execute(id, e, fee)), id) == Ok::<
            Option<TransactionView>,
            StoreError,
        >(Some(TransactionView::Execute(id, e, fee))),
{
    lemma_get_after_insert(v.executions, id, e, fee);
}

} // verus!

verus! {

/// Whether the execution transaction `t` uses the transition ID `k`, for one
/// of its transitions or for its fee's.
pub open spec fn uses_transition(t: TransactionView, k: TransitionID) -> bool {
    match t {
        TransactionView::Deploy(..) => false,
        TransactionView::Execute(_, e, fee) => ids_of(e.0).contains(k) || (fee matches Some(f) && f.0.id == k),
    }
}

/// Whether the deployment `t` deploys the program `p`.
pub open spec fn uses_program(t: TransactionView, p: ProgramID) -> bool {
    match t {
        TransactionView::Deploy(_, program) => program.id == p,
        TransactionView::Execute(..) => false,
    }
}

/// The transitions of an execution, its fee's among them, have distinct IDs.
pub open spec fn transaction_wf(t: TransactionView) -> bool {
    match t {
        TransactionView::Deploy(..) => true,
        TransactionView::Execute(_, e, fee) => {
            &&& ids_of(e.0).no_duplicates()
            &&& fee matches Some(f) ==> !ids_of(e.0).contains(f.0.id)
        },
    }
}

/// Two transactions have different IDs and share no transition ID and no
/// program ID.
pub open spec fn independent(t1: TransactionView, t2: TransactionView) -> bool {
    &&& t1.id() != t2.id()
    &&& forall|k: TransitionID| #[trigger] uses_transition(t1, k) ==> !uses_transition(t2, k)
    &&& forall|p: ProgramID| #[trigger] uses_program(t1, p) ==> !uses_program(t2, p)
}

/// The entries of the transaction `t` are in the store as inserting it
/// leaves them.
pub open spec fn stored(s: TransactionStoreView, t: TransactionView) -> bool {
    match t {
        TransactionView::Deploy(id, program) => {
            &&& s.kinds.contains_key(id)
            &&& s.kinds[id] == TransactionKind::Deploy
            &&& s.deployments.contains_key(id)
            &&& s.deployments[id] == program.id
            &&& s.programs.contains_key(program.id)
            &&& s.programs[program.id] == program
        },
        TransactionView::Execute(id, e, fee) => {
            let x = s.executions;
            &&& s.kinds.contains_key(id)
            &&& s.kinds[id] == TransactionKind::Execute
            &&& x.ids.contains_key(id)
            &&& x.ids[id] == (ids_of(e.0), match fee {
                Some(f) => Some(f.0.id),
                None => None,
            })
            &&& x.inclusion.contains_key(id)
            &&& x.inclusion[id] == (e.1, e.2)
            &&& forall|i: int| 0 <= i < e.0.len() ==> #[trigger] x.transitions.contains_key(ids_of(e.0)[i])
                && x.transitions[ids_of(e.0)[i]] == e.0[i]
            &&& fee matches Some(f) ==> {
                &&& x.transitions.contains_key(f.0.id)
                &&& x.transitions[f.0.id] == f.0
                &&& x.fees.contains_key(id)
                &&& x.fees[id] == (f.1, f.2)
            }
        },
    }
}

/// A stored transaction reads back as itself.
pub proof fn lemma_stored_reads_back(s: TransactionStoreView, t: TransactionView)
    requires
        stored(s, t),
    ensures
        transaction_spec(s, t.id()) == Ok::<Option<TransactionView>, StoreError>(Some(t)),
{
    if let TransactionView::Execute(id, e, fee) = t {
        let x = s.executions;
        let tids = ids_of(e.0);
        assert(all_present(x.transitions, x.ids[id].0)) by {
            assert forall|i: int| 0 <= i < tids.len() implies #[trigger] x.transitions.contains_key(tids[i]) by {
                assert(x.transitions.contains_key(ids_of(e.0)[i]));
            }
        }
        let got = tids.map_values(|k: TransitionID| x.transitions[k]);
        assert forall|i: int| 0 <= i < got.len() implies #[trigger] got[i] == e.0[i] by {
            assert(x.transitions.contains_key(ids_of(e.0)[i]));
        }
        assert(got =~= e.0);
    }
}

/// Inserting a well-formed transaction leaves its entries stored.
pub proof fn lemma_insert_stores(s: TransactionStoreView, t: TransactionView)
    requires
        transaction_wf(t),
    ensures
        stored(store_insert_spec(s, t), t),
{
    if let TransactionView::Execute(id, e, fee) = t {
        let w = store_insert_spec(s, t).executions;
        let tids = ids_of(e.0);
        assert forall|i: int| 0 <= i < e.0.len() implies #[trigger] w.transitions.contains_key(ids_of(e.0)[i])
            && w.transitions[ids_of(e.0)[i]] == e.0[i] by {
            lemma_put_all_get(s.executions.transitions, e.0, i);
            assert(tids[i] == e.0[i].id);
            if let Some(f) = fee {
                assert(tids[i] != f.0.id) by {
                    assert(tids.contains(tids[i]));
                }
            }
        }
    }
}

/// Inserting a transaction leaves the entries of an independent stored
/// transaction as they were.
pub proof fn lemma_insert_keeps_stored(s: TransactionStoreView, t1: TransactionView, t2: TransactionView)
    requires
        stored(s, t1),
        independent(t1, t2),
    ensures
        stored(store_insert_spec(s, t2), t1),
{
    let w = store_insert_spec(s, t2);
    match t1 {
        TransactionView::Deploy(id1, p1) => {
            assert(uses_program(t1, p1.id));
            assert(!uses_program(t2, p1.id));
        },
        TransactionView::Execute(id1, e1, fee1) => {
            let tids1 = ids_of(e1.0);
            match t2 {
                TransactionView::Deploy(..) => {},
                TransactionView::Execute(id2, e2, fee2) => {
                    lemma_put_all(s.executions.transitions, e2.0);
                    assert forall|i: int| 0 <= i < e1.0.len() implies #[trigger] w.executions.transitions.contains_key(
                        ids_of(e1.0)[i],
                    ) && w.executions.transitions[ids_of(e1.0)[i]] == e1.0[i] by {
                        let k = tids1[i];
                        assert(tids1.contains(k));
                        assert(uses_transition(t1, k));
                        assert(!uses_transition(t2, k));
                        assert(s.executions.transitions.contains_key(ids_of(e1.0)[i]));
                    }
                    if let Some(f1) = fee1 {
                        assert(uses_transition(t1, f1.0.id));
                        assert(!uses_transition(t2, f1.0.id));
                    }
                },
            }
        },
    }
}

} // verus!
