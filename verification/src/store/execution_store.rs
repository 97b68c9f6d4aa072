//! The store of execution transactions: which transitions each one holds, the
//! state root it was proved against, and its fee.
use vstd::prelude::*;
use crate::store::id_map::IdMap;
use crate::store::transition_store::{drop_all_order, drop_order, put_all_order, put_order, TransitionStore};
use crate::store::types::{
    copy_vec, execution_view, fee_view, transitions_view, Execution, Fee, Proof, StateRoot, Transaction, TransactionID,
    TransactionView, Transition, TransitionID, TransitionView,
};

verus! {

/// Why a store operation failed.
#[derive(Clone, Copy, Debug, PartialEq, Eq, Structural)]
pub enum StoreError {
    /// Only execution transactions go into the execution store.
    NotAnExecution,
    /// No transaction is stored under the given ID.
    MissingTransaction,
    /// The state root and inclusion proof of a stored transaction are missing.
    MissingInclusion,
    /// A transition listed by a stored transaction is missing.
    MissingTransition,
    /// The fee transition listed by a stored transaction is missing.
    MissingFeeTransition,
    /// The fee state root and inclusion proof of a stored transaction are missing.
    MissingFee,
}

/// What the execution store holds, map by map.
#[verifier::ext_equal]
pub struct ExecutionView {
    /// Transaction ID to its transition IDs and its fee transition ID.
    pub ids: Map<TransactionID, (Seq<TransitionID>, Option<TransitionID>)>,
    /// Transition ID to the transaction that holds it.
    pub reverse: Map<TransitionID, TransactionID>,
    /// Transition ID to transition.
    pub transitions: Map<TransitionID, TransitionView>,
    /// Transaction ID to its global state root and inclusion proof.
    pub inclusion: Map<TransactionID, (StateRoot, Option<Proof>)>,
    /// Transaction ID to the global state root and inclusion proof of its fee.
    pub fees: Map<TransactionID, (StateRoot, Option<Proof>)>,
}

/// A store that holds nothing.
pub open spec fn empty_execution_view() -> ExecutionView {
    ExecutionView {
        ids: Map::empty(),
        reverse: Map::empty(),
        transitions: Map::empty(),
        inclusion: Map::empty(),
        fees: Map::empty(),
    }
}

/// The IDs of a list of transitions, in order.
pub open spec fn ids_of(ts: Seq<TransitionView>) -> Seq<TransitionID> {
    ts.map_values(|t: TransitionView| t.id)
}

/// Points each of `ids` at `to`, one after the other.
pub open spec fn point_all(
    m: Map<TransitionID, TransactionID>,
    ids: Seq<TransitionID>,
    to: TransactionID,
) -> Map<TransitionID, TransactionID>
    decreases ids.len(),
{
    if ids.len() == 0 {
        m
    } else {
        point_all(m, ids.drop_last(), to).insert(ids.last(), to)
    }
}

/// Stores each of `ts` under its ID, one after the other.
pub open spec fn put_all(m: Map<TransitionID, TransitionView>, ts: Seq<TransitionView>) -> Map<
    TransitionID,
    TransitionView,
>
    decreases ts.len(),
{
    if ts.len() == 0 {
        m
    } else {
        put_all(m, ts.drop_last()).insert(ts.last().id, ts.last())
    }
}

/// Removes each of `ids`, one after the other.
pub open spec fn drop_all<V>(m: Map<TransitionID, V>, ids: Seq<TransitionID>) -> Map<TransitionID, V>
    decreases ids.len(),
{
    if ids.len() == 0 {
        m
    } else {
        drop_all(m, ids.drop_last()).remove(ids.last())
    }
}

/// The store after inserting the execution transaction `id` with execution
/// `e` and fee `fee`.
pub open spec fn insert_spec(
    v: ExecutionView,
    id: TransactionID,
    e: (Seq<TransitionView>, StateRoot, Option<Proof>),
    fee: Option<(TransitionView, StateRoot, Option<Proof>)>,
) -> ExecutionView {
    let tids = ids_of(e.0);
    let reverse = point_all(v.reverse, tids, id);
    let transitions = put_all(v.transitions, e.0);
    match fee {
        Some(f) => ExecutionView {
            ids: v.ids.insert(id, (tids, Some(f.0.id))),
            reverse: reverse.insert(f.0.id, id),
            transitions: transitions.insert(f.0.id, f.0),
            inclusion: v.inclusion.insert(id, (e.1, e.2)),
            fees: v.fees.insert(id, (f.1, f.2)),
        },
        None => ExecutionView {
            ids: v.ids.insert(id, (tids, None)),
            reverse,
            transitions,
            inclusion: v.inclusion.insert(id, (e.1, e.2)),
            fees: v.fees,
        },
    }
}

/// The order of the transition store after inserting an execution with fee
/// `fee`: its transitions, then its fee's.
pub open spec fn insert_order(
    o: (Seq<TransitionID>, Seq<TransitionView>),
    e: (Seq<TransitionView>, StateRoot, Option<Proof>),
    fee: Option<(TransitionView, StateRoot, Option<Proof>)>,
) -> (Seq<TransitionID>, Seq<TransitionView>) {
    match fee {
        Some(f) => put_order(put_all_order(o, e.0), f.0),
        None => put_all_order(o, e.0),
    }
}

/// The order of the transition store after removing the transitions `tids`
/// and then the fee transition `fee`.
pub open spec fn remove_order(
    o: (Seq<TransitionID>, Seq<TransitionView>),
    tids: Seq<TransitionID>,
    fee: Option<TransitionID>,
) -> (Seq<TransitionID>, Seq<TransitionView>) {
    match fee {
        Some(f) => drop_order(drop_all_order(o, tids), f),
        None => drop_all_order(o, tids),
    }
}

/// The store after removing the transaction `id`, which it holds.
pub open spec fn remove_spec(v: ExecutionView, id: TransactionID) -> ExecutionView
    recommends
        v.ids.contains_key(id),
{
    let tids = v.ids[id].0;
    match v.ids[id].1 {
        Some(f) => ExecutionView {
            ids: v.ids.remove(id),
            reverse: drop_all(v.reverse, tids).remove(f),
            transitions: drop_all(v.transitions, tids).remove(f),
            inclusion: v.inclusion.remove(id),
            fees: v.fees.remove(id),
        },
        None => ExecutionView {
            ids: v.ids.remove(id),
            reverse: drop_all(v.reverse, tids),
            transitions: drop_all(v.transitions, tids),
            inclusion: v.inclusion.remove(id),
            fees: v.fees,
        },
    }
}

/// Every one of `ids` is a key of `m`.
pub open spec fn all_present(m: Map<TransitionID, TransitionView>, ids: Seq<TransitionID>) -> bool {
    forall|i: int| 0 <= i < ids.len() ==> #[trigger] m.contains_key(ids[i])
}

/// The execution of the transaction `id`: `Ok(None)` where none is stored,
/// an error where a part of it is missing.
pub open spec fn get_execution_spec(v: ExecutionView, id: TransactionID) -> Result<
    Option<(Seq<TransitionView>, StateRoot, Option<Proof>)>,
    StoreError,
> {
    if !v.ids.contains_key(id) {
        Ok(None)
    } else if !v.inclusion.contains_key(id) {
        Err(StoreError::MissingInclusion)
    } else if !all_present(v.transitions, v.ids[id].0) {
        Err(StoreError::MissingTransition)
    } else {
        Ok(
            Some(
                (
                    v.ids[id].0.map_values(|k: TransitionID| v.transitions[k]),
                    v.inclusion[id].0,
                    v.inclusion[id].1,
                ),
            ),
        )
    }
}

/// The transaction `id`: `Ok(None)` where none is stored, an error where a
/// part of it is missing.
pub open spec fn get_transaction_spec(v: ExecutionView, id: TransactionID) -> Result<
    Option<TransactionView>,
    StoreError,
> {
    match get_execution_spec(v, id) {
        Ok(Some(e)) => match v.ids[id].1 {
            None => Ok(Some(TransactionView::Execute(id, e, None))),
            Some(f) => if !v.transitions.contains_key(f) {
                Err(StoreError::MissingFeeTransition)
            } else if !v.fees.contains_key(id) {
                Err(StoreError::MissingFee)
            } else {
                Ok(
                    Some(
                        TransactionView::Execute(
                            id,
                            e,
                            Some((v.transitions[f], v.fees[id].0, v.fees[id].1)),
                        ),
                    ),
                )
            },
        },
        Ok(None) => Ok(None),
        Err(err) => Err(err),
    }
}

/// The view of a fetched transaction.
pub open spec fn transaction_result_view(r: Result<Option<Transaction>, StoreError>) -> Result<
    Option<TransactionView>,
    StoreError,
> {
    match r {
        Ok(Some(t)) => Ok(Some(t@)),
        Ok(None) => Ok(None),
        Err(e) => Err(e),
    }
}

/// The view of a fetched execution.
pub open spec fn execution_result_view(r: Result<Option<Execution>, StoreError>) -> Result<
    Option<(Seq<TransitionView>, StateRoot, Option<Proof>)>,
    StoreError,
> {
    match r {
        Ok(Some(e)) => Ok(Some(execution_view(e))),
        Ok(None) => Ok(None),
        Err(err) => Err(err),
    }
}

/// The store of execution transactions.
pub struct ExecutionStore {
    id_map: IdMap<(Vec<TransitionID>, Option<TransitionID>)>,
    reverse_id_map: IdMap<TransactionID>,
    transition_store: TransitionStore,
    inclusion_map: IdMap<(StateRoot, Option<Proof>)>,
    fee_map: IdMap<(StateRoot, Option<Proof>)>,
}

impl ExecutionStore {
    /// What the store holds.
    pub closed spec fn view(&self) -> ExecutionView {
        ExecutionView {
            ids: self.id_map.map().map_values(
                |p: (Vec<TransitionID>, Option<TransitionID>)| (p.0@, p.1),
            ),
            reverse: self.reverse_id_map.map(),
            transitions: self.transition_store.map(),
            inclusion: self.inclusion_map.map(),
            fees: self.fee_map.map(),
        }
    }

    /// The stored transaction IDs, in insertion order.
    pub closed spec fn transaction_order(&self) -> Seq<TransactionID> {
        self.id_map.key_seq()
    }

    /// The store of the transitions.
    pub closed spec fn transitions(&self) -> TransitionStore {
        self.transition_store
    }

    /// Every map is well formed.
    pub closed spec fn wf(&self) -> bool {
        &&& self.id_map.wf()
        &&& self.reverse_id_map.wf()
        &&& self.transition_store.wf()
        &&& self.inclusion_map.wf()
        &&& self.fee_map.wf()
    }

    /// The transitions are those of the transition store.
    pub proof fn lemma_transitions(&self)
        ensures
            self.view().transitions == self.transitions().map(),
            self.wf() ==> self.transitions().wf(),
    {
    }

    /// Creates an empty store.
    pub fn new() -> (s: ExecutionStore)
        ensures
            s.wf(),
            s.view() == empty_execution_view(),
            s.transaction_order() == Seq::<TransactionID>::empty(),
            s.transitions().order() == (Seq::<TransitionID>::empty(), Seq::<TransitionView>::empty()),
    {
        let s = ExecutionStore {
            id_map: IdMap::new(),
            reverse_id_map: IdMap::new(),
            transition_store: TransitionStore::new(),
            inclusion_map: IdMap::new(),
            fee_map: IdMap::new(),
        };
        assert(s.view() =~= empty_execution_view());
        s
    }

    /// Creates a store that holds no transaction and keeps its transitions in
    /// the given transition store.
    pub fn open(transition_store: TransitionStore) -> (s: ExecutionStore)
        requires
            transition_store.wf(),
        ensures
            s.wf(),
            s.view() == (ExecutionView { transitions: transition_store.map(), ..empty_execution_view() }),
            s.transaction_order() == Seq::<TransactionID>::empty(),
            s.transitions() == transition_store,
    {
        let s = ExecutionStore {
            id_map: IdMap::new(),
            reverse_id_map: IdMap::new(),
            transition_store,
            inclusion_map: IdMap::new(),
            fee_map: IdMap::new(),
        };
        assert(s.view() =~= (ExecutionView { transitions: s.transition_store.map(), ..empty_execution_view() }));
        s
    }

    /// Stores an execution transaction: its transition IDs, each transition
    /// with a pointer back to the transaction, its state root and inclusion
    /// proof, and its fee. A deployment is refused and nothing changes.
    pub fn insert(&mut self, transaction: &Transaction) -> (r: Result<(), StoreError>)
        requires
            old(self).wf(),
        ensures
            final(self).wf(),
            match *transaction {
                Transaction::Deploy(..) => {
                    &&& r == Err::<(), StoreError>(StoreError::NotAnExecution)
                    &&& *final(self) == *old(self)
                },
                Transaction::Execute(id, e, fee) => {
                    &&& r == Ok::<(), StoreError>(())
                    &&& final(self).view() == insert_spec(old(self).view(), id, execution_view(e), fee_view(fee))
                    &&& final(self).transitions().order() == insert_order(
                        old(self).transitions().order(),
                        execution_view(e),
                        fee_view(fee),
                    )
                    &&& final(self).transaction_order() == (if old(self).transaction_order().contains(id) {
                        old(self).transaction_order()
                    } else {
                        old(self).transaction_order().push(id)
                    })
                },
            },
    {
        let (id, execution, fee) = match transaction {
            Transaction::Deploy(..) => {
                return Err(StoreError::NotAnExecution);
            },
            Transaction::Execute(id, execution, fee) => (*id, execution, fee),
        };
        let ghost ev = execution_view(*execution);
        let ghost ts = ev.0;
        let n = execution.transitions.len();
        let mut tids: Vec<TransitionID> = Vec::new();
        let mut i: usize = 0;
        while i < n
            invariant
                n == execution.transitions@.len(),
                ts == execution_view(*execution).0,
                i <= n,
                tids@ =~= ids_of(ts).subrange(0, i as int),
            decreases n - i,
        {
            tids.push(execution.transitions[i].id);
            i = i + 1;
        }
        proof {
            assert(tids@ =~= ids_of(ts));
        }
        let fee_id = match fee {
            Some(f) => Some(f.transition.id),
            None => None,
        };
        self.id_map.insert(id, (tids, fee_id));
        let ghost r0 = self.reverse_id_map.map();
        let ghost m0 = self.transition_store.map();
        let ghost o0 = self.transition_store.order();
        let ghost ids1 = self.id_map;
        let ghost inc1 = self.inclusion_map;
        let ghost fee1 = self.fee_map;
        proof {
            assert(ids_of(ts).subrange(0, 0) =~= Seq::<TransitionID>::empty());
            assert(ts.subrange(0, 0) =~= Seq::<TransitionView>::empty());
        }
        i = 0;
        while i < n
            invariant
                n == execution.transitions@.len(),
                ts == execution_view(*execution).0,
                i <= n,
                self.wf(),
                self.id_map == ids1,
                self.inclusion_map == inc1,
                self.fee_map == fee1,
                self.reverse_id_map.map() == point_all(r0, ids_of(ts).subrange(0, i as int), id),
                self.transition_store.map() == put_all(m0, ts.subrange(0, i as int)),
                self.transition_store.order() == put_all_order(o0, ts.subrange(0, i as int)),
            decreases n - i,
        {
            let t = &execution.transitions[i];
            self.reverse_id_map.insert(t.id, id);
            self.transition_store.insert(t.duplicate());
            proof {
                assert(ids_of(ts).subrange(0, i + 1).drop_last() =~= ids_of(ts).subrange(0, i as int));
                assert(ts.subrange(0, i + 1).drop_last() =~= ts.subrange(0, i as int));
                assert(ts[i as int] == t@);
            }
            i = i + 1;
        }
        proof {
            assert(ids_of(ts).subrange(0, n as int) =~= ids_of(ts));
            assert(ts.subrange(0, n as int) =~= ts);
        }
        self.inclusion_map.insert(id, (execution.global_state_root, execution.inclusion_proof));
        match fee {
            Some(f) => {
                self.reverse_id_map.insert(f.transition.id, id);
                self.transition_store.insert(f.transition.duplicate());
                self.fee_map.insert(id, (f.global_state_root, f.inclusion_proof));
            },
            None => {},
        }
        proof {
            let want = insert_spec(old(self).view(), id, ev, fee_view(*fee));
            assert(self.view().ids =~= want.ids);
            assert(self.view().reverse =~= want.reverse);
            assert(self.view().transitions =~= want.transitions);
            assert(self.view().inclusion =~= want.inclusion);
            assert(self.view().fees =~= want.fees);
        }
        Ok(())
    }

    /// Removes the transaction `id` with its transitions, their pointers back
    /// to it, its state root and inclusion proof, and its fee. Where no
    /// transaction is stored under `id`, fails and nothing changes.
    pub fn remove(&mut self, id: TransactionID) -> (r: Result<(), StoreError>)
        requires
            old(self).wf(),
        ensures
            final(self).wf(),
            old(self).view().ids.contains_key(id) ==> {
                &&& r == Ok::<(), StoreError>(())
                &&& final(self).view() == remove_spec(old(self).view(), id)
                &&& final(self).transaction_order() == old(self).transaction_order().filter(|k: u64| k != id)
            &&& final(self).transitions().order() == remove_order(
                old(self).transitions().order(),
                old(self).view().ids[id].0,
                old(self).view().ids[id].1,
            )
            },
            !old(self).view().ids.contains_key(id) ==> {
                &&& r == Err::<(), StoreError>(StoreError::MissingTransaction)
                &&& *final(self) == *old(self)
            },
    {
        let (tids, fee_id) = match self.id_map.get(id) {
            Some(p) => (copy_vec(&p.0), p.1),
            None => {
                return Err(StoreError::MissingTransaction);
            },
        };
        let ghost v0 = self.view();
        proof {
            assert(v0.ids[id] == (tids@, fee_id));
        }
        self.id_map.remove(id);
        let ghost r0 = self.reverse_id_map.map();
        let ghost m0 = self.transition_store.map();
        let ghost o0 = self.transition_store.order();
        let ghost ids1 = self.id_map;
        let ghost inc1 = self.inclusion_map;
        let ghost fee1 = self.fee_map;
        proof {
            assert(tids@.subrange(0, 0) =~= Seq::<TransitionID>::empty());
        }
        let n = tids.len();
        let mut i: usize = 0;
        while i < n
            invariant
                n == tids@.len(),
                i <= n,
                self.wf(),
                self.id_map == ids1,
                self.inclusion_map == inc1,
                self.fee_map == fee1,
                self.reverse_id_map.map() == drop_all(r0, tids@.subrange(0, i as int)),
                self.transition_store.map() == drop_all(m0, tids@.subrange(0, i as int)),
                self.transition_store.order() == drop_all_order(o0, tids@.subrange(0, i as int)),
            decreases n - i,
        {
            let t = tids[i];
            self.reverse_id_map.remove(t);
            self.transition_store.remove(t);
            proof {
                assert(tids@.subrange(0, i + 1).drop_last() =~= tids@.subrange(0, i as int));
            }
            i = i + 1;
        }
        proof {
            assert(tids@.subrange(0, n as int) =~= tids@);
        }
        self.inclusion_map.remove(id);
        match fee_id {
            Some(f) => {
                self.reverse_id_map.remove(f);
                self.transition_store.remove(f);
                self.fee_map.remove(id);
            },
            None => {},
        }
        proof {
            let want = remove_spec(v0, id);
            assert(self.view().ids =~= want.ids);
            assert(self.view().reverse =~= want.reverse);
            assert(self.view().transitions =~= want.transitions);
            assert(self.view().inclusion =~= want.inclusion);
            assert(self.view().fees =~= want.fees);
        }
        Ok(())
    }

    /// Returns the transaction that holds the transition `transition_id`, if
    /// any; reading the in-memory maps does not fail.
    pub fn find_transaction_id_from_transition_id(&self, transition_id: TransitionID) -> (r: Result<
        Option<TransactionID>,
        StoreError,
    >)
        requires
            self.wf(),
        ensures
            r == Ok::<Option<TransactionID>, StoreError>(
                if self.view().reverse.contains_key(transition_id) {
                    Some(self.view().reverse[transition_id])
                } else {
                    None
                },
            ),
    {
        match self.reverse_id_map.get(transition_id) {
            Some(t) => Ok(Some(*t)),
            None => Ok(None),
        }
    }

    /// Returns the IDs of the stored transactions, in insertion order.
    pub fn execution_transaction_ids(&self) -> (v: Vec<TransactionID>)
        requires
            self.wf(),
        ensures
            v@ == self.transaction_order(),
    {
        self.id_map.keys()
    }

    /// Fetches the transitions with the given IDs, in order; `None` where one
    /// of them is missing.
    fn fetch_transitions(&self, tids: &Vec<TransitionID>) -> (r: Option<Vec<Transition>>)
        requires
            self.wf(),
        ensures
            match r {
                Some(v) => {
                    &&& all_present(self.view().transitions, tids@)
                    &&& transitions_view(v@) == tids@.map_values(|k: TransitionID| self.view().transitions[k])
                },
                None => !all_present(self.view().transitions, tids@),
            },
    {
        let ghost tm = self.view().transitions;
        let mut out: Vec<Transition> = Vec::new();
        let mut i: usize = 0;
        while i < tids.len()
            invariant
                tm == self.view().transitions,
                self.wf(),
                i <= tids@.len(),
                forall|j: int| 0 <= j < i ==> #[trigger] tm.contains_key(tids@[j]),
                transitions_view(out@) =~= tids@.subrange(0, i as int).map_values(|k: TransitionID| tm[k]),
            decreases tids@.len() - i,
        {
            let ghost before = out@;
            match self.transition_store.get_transition(tids[i]) {
                Some(t) => {
                    let ghost tv = t@;
                    out.push(t);
                    proof {
                        assert(tv == tm[tids@[i as int]]);
                        assert(out@ == before.push(t));
                        assert(transitions_view(out@) =~= transitions_view(before).push(tv));
                    }
                },
                None => {
                    return None;
                },
            }
            proof {
                assert(tids@.subrange(0, i + 1) =~= tids@.subrange(0, i as int).push(tids@[i as int]));
            }
            i = i + 1;
        }
        proof {
            assert(tids@.subrange(0, tids@.len() as int) =~= tids@);
        }
        Some(out)
    }

    /// Returns the execution of the transaction `id`: `Ok(None)` where no
    /// transaction is stored under `id`, an error where a part is missing.
    pub fn get_execution(&self, id: TransactionID) -> (r: Result<Option<Execution>, StoreError>)
        requires
            self.wf(),
        ensures
            execution_result_view(r) == get_execution_spec(self.view(), id),
    {
        let tids = match self.id_map.get(id) {
            Some(p) => &p.0,
            None => {
                return Ok(None);
            },
        };
        let (root, proof) = match self.inclusion_map.get(id) {
            Some(x) => *x,
            None => {
                return Err(StoreError::MissingInclusion);
            },
        };
        match self.fetch_transitions(tids) {
            Some(transitions) => Ok(
                Some(Execution { transitions, global_state_root: root, inclusion_proof: proof }),
            ),
            None => Err(StoreError::MissingTransition),
        }
    }

    /// Returns the transaction `id`: `Ok(None)` where no transaction is stored
    /// under `id`, an error where a part is missing.
    pub fn get_transaction(&self, id: TransactionID) -> (r: Result<Option<Transaction>, StoreError>)
        requires
            self.wf(),
        ensures
            transaction_result_view(r) == get_transaction_spec(self.view(), id),
    {
        let fee_id = match self.id_map.get(id) {
            Some(p) => p.1,
            None => {
                return Ok(None);
            },
        };
        let execution = match self.get_execution(id) {
            Ok(Some(e)) => e,
            Ok(None) => {
                return Ok(None);
            },
            Err(e) => {
                return Err(e);
            },
        };
        match fee_id {
            None => Ok(Some(Transaction::Execute(id, execution, None))),
            Some(f) => {
                let transition = match self.transition_store.get_transition(f) {
                    Some(t) => t,
                    None => {
                        return Err(StoreError::MissingFeeTransition);
                    },
                };
                let (root, proof) = match self.fee_map.get(id) {
                    Some(x) => *x,
                    None => {
                        return Err(StoreError::MissingFee);
                    },
                };
                let fee = Fee { transition, global_state_root: root, inclusion_proof: proof };
                Ok(Some(Transaction::Execute(id, execution, Some(fee))))
            },
        }
    }

    /// Returns the transition store.
    pub fn transition_store(&self) -> (t: &TransitionStore)
        ensures
            *t == self.transitions(),
    {
        &self.transition_store
    }
}

} // verus!

verus! {

/// A sequence holds `k` exactly where its front part holds it or its last
/// element is `k`.
proof fn lemma_contains_drop_last<A>(s: Seq<A>, k: A)
    requires
        s.len() > 0,
    ensures
        s.contains(k) == (s.drop_last().contains(k) || s.last() == k),
{
    if s.contains(k) && s.last() != k {
        let j = s.index_of(k);
        assert(j < s.len() - 1);
        assert(s.drop_last()[j] == k);
    }
    if s.drop_last().contains(k) {
        let j = s.drop_last().index_of(k);
        assert(s[j] == k);
    }
    if s.last() == k {
        assert(s[s.len() - 1] == k);
    }
}

/// The IDs of the front part of a list of transitions.
proof fn lemma_ids_of_drop_last(ts: Seq<TransitionView>)
    requires
        ts.len() > 0,
    ensures
        ids_of(ts.drop_last()) == ids_of(ts).drop_last(),
        ids_of(ts).last() == ts.last().id,
{
    assert(ids_of(ts.drop_last()) =~= ids_of(ts).drop_last());
}

/// What storing a list of transitions leaves in a map.
pub proof fn lemma_put_all(m: Map<TransitionID, TransitionView>, ts: Seq<TransitionView>)
    ensures
        forall|k: TransitionID| #[trigger] put_all(m, ts).contains_key(k) == (m.contains_key(k) || ids_of(ts).contains(k)),
        forall|k: TransitionID| !ids_of(ts).contains(k) ==> #[trigger] put_all(m, ts)[k] == m[k],
    decreases ts.len(),
{
    if ts.len() > 0 {
        let p = put_all(m, ts.drop_last());
        lemma_put_all(m, ts.drop_last());
        lemma_ids_of_drop_last(ts);
        assert(put_all(m, ts) == p.insert(ts.last().id, ts.last()));
        assert forall|k: TransitionID| #[trigger] put_all(m, ts).contains_key(k) == (m.contains_key(k) || ids_of(ts).contains(k)) by {
            lemma_contains_drop_last(ids_of(ts), k);
            assert(p.contains_key(k) == (m.contains_key(k) || ids_of(ts.drop_last()).contains(k)));
        }
        assert forall|k: TransitionID| !ids_of(ts).contains(k) implies #[trigger] put_all(m, ts)[k] == m[k] by {
            lemma_contains_drop_last(ids_of(ts), k);
            assert(!ids_of(ts.drop_last()).contains(k));
            assert(p[k] == m[k]);
        }
    } else {
        assert forall|k: TransitionID| #[trigger] put_all(m, ts).contains_key(k) == (m.contains_key(k) || ids_of(ts).contains(k)) by {
            if ids_of(ts).contains(k) {
                let j = ids_of(ts).index_of(k);
                assert(0 <= j < ids_of(ts).len());
            }
        }
    }
}

/// A list of transitions with distinct IDs leaves each of them under its ID.
pub proof fn lemma_put_all_get(m: Map<TransitionID, TransitionView>, ts: Seq<TransitionView>, i: int)
    requires
        ids_of(ts).no_duplicates(),
        0 <= i < ts.len(),
    ensures
        put_all(m, ts).contains_key(ts[i].id),
        put_all(m, ts)[ts[i].id] == ts[i],
    decreases ts.len(),
{
    lemma_ids_of_drop_last(ts);
    if i < ts.len() - 1 {
        assert(ids_of(ts)[i] != ids_of(ts)[ts.len() - 1]);
        assert(ts.drop_last()[i] == ts[i]);
        lemma_put_all_get(m, ts.drop_last(), i);
    }
}

/// What pointing a list of IDs at one transaction leaves in a map.
proof fn lemma_point_all(m: Map<TransitionID, TransactionID>, ids: Seq<TransitionID>, to: TransactionID)
    ensures
        forall|k: TransitionID| #[trigger] point_all(m, ids, to).contains_key(k) == (m.contains_key(k) || ids.contains(k)),
        forall|k: TransitionID| ids.contains(k) ==> #[trigger] point_all(m, ids, to)[k] == to,
        forall|k: TransitionID| !ids.contains(k) ==> #[trigger] point_all(m, ids, to)[k] == m[k],
    decreases ids.len(),
{
    let p = point_all(m, ids.drop_last(), to);
    if ids.len() > 0 {
        lemma_point_all(m, ids.drop_last(), to);
        assert(point_all(m, ids, to) == p.insert(ids.last(), to));
        assert forall|k: TransitionID| #[trigger] point_all(m, ids, to).contains_key(k) == (m.contains_key(k) || ids.contains(k)) by {
            lemma_contains_drop_last(ids, k);
            assert(p.contains_key(k) == (m.contains_key(k) || ids.drop_last().contains(k)));
        }
        assert forall|k: TransitionID| ids.contains(k) implies #[trigger] point_all(m, ids, to)[k] == to by {
            lemma_contains_drop_last(ids, k);
            if k != ids.last() {
                assert(ids.drop_last().contains(k));
                assert(p[k] == to);
            }
        }
        assert forall|k: TransitionID| !ids.contains(k) implies #[trigger] point_all(m, ids, to)[k] == m[k] by {
            lemma_contains_drop_last(ids, k);
            assert(p[k] == m[k]);
        }
    } else {
        assert forall|k: TransitionID| #[trigger] point_all(m, ids, to).contains_key(k) == (m.contains_key(k) || ids.contains(k)) by {
            if ids.contains(k) {
                let j = ids.index_of(k);
                assert(0 <= j < ids.len());
            }
        }
    }
}

/// What removing a list of IDs leaves in a map.
proof fn lemma_drop_all<V>(m: Map<TransitionID, V>, ids: Seq<TransitionID>)
    ensures
        forall|k: TransitionID| #[trigger] drop_all(m, ids).contains_key(k) == (m.contains_key(k) && !ids.contains(k)),
        forall|k: TransitionID| #[trigger] drop_all(m, ids).contains_key(k) ==> drop_all(m, ids)[k] == m[k],
    decreases ids.len(),
{
    if ids.len() > 0 {
        let p = drop_all(m, ids.drop_last());
        lemma_drop_all(m, ids.drop_last());
        assert(drop_all(m, ids) == p.remove(ids.last()));
        assert forall|k: TransitionID| #[trigger] drop_all(m, ids).contains_key(k) == (m.contains_key(k) && !ids.contains(k)) by {
            lemma_contains_drop_last(ids, k);
            assert(p.contains_key(k) == (m.contains_key(k) && !ids.drop_last().contains(k)));
        }
        assert forall|k: TransitionID| #[trigger] drop_all(m, ids).contains_key(k) implies drop_all(m, ids)[k] == m[k] by {
            assert(p.contains_key(k));
        }
    } else {
        assert forall|k: TransitionID| #[trigger] drop_all(m, ids).contains_key(k) == (m.contains_key(k) && !ids.contains(k)) by {
            if ids.contains(k) {
                let j = ids.index_of(k);
                assert(0 <= j < ids.len());
            }
        }
    }
}

/// Once an execution transaction whose transitions (its fee's among them)
/// have distinct IDs is stored, reading it back gives that transaction.
pub proof fn lemma_get_after_insert(
    v: ExecutionView,
    id: TransactionID,
    e: (Seq<TransitionView>, StateRoot, Option<Proof>),
    fee: Option<(TransitionView, StateRoot, Option<Proof>)>,
)
    requires
        ids_of(e.0).no_duplicates(),
        fee matches Some(f) ==> !ids_of(e.0).contains(f.0.id),
    ensures
        get_transaction_spec(insert_spec(v, id, e, fee), id) == Ok::<Option<TransactionView>, StoreError>(
            Some(TransactionView::Execute(id, e, fee)),
        ),
{
    let w = insert_spec(v, id, e, fee);
    let tids = ids_of(e.0);
    lemma_put_all(v.transitions, e.0);
    let got = tids.map_values(|k: TransitionID| w.transitions[k]);
    assert forall|i: int| 0 <= i < e.0.len() implies #[trigger] w.transitions.contains_key(tids[i])
        && got[i] == e.0[i] by {
        lemma_put_all_get(v.transitions, e.0, i);
        assert(tids[i] == e.0[i].id);
        if let Some(f) = fee {
            assert(tids[i] != f.0.id) by {
                assert(tids.contains(tids[i]));
            }
        }
    }
    assert(w.ids[id].0 == tids);
    assert(all_present(w.transitions, w.ids[id].0));
    assert forall|i: int| 0 <= i < got.len() implies #[trigger] got[i] == e.0[i] by {
        assert(w.transitions.contains_key(tids[i]));
    }
    assert(got =~= e.0);
}

/// Once an execution transaction is stored, each of its transitions (its
/// fee's among them) leads back to it.
pub proof fn lemma_find_after_insert(
    v: ExecutionView,
    id: TransactionID,
    e: (Seq<TransitionView>, StateRoot, Option<Proof>),
    fee: Option<(TransitionView, StateRoot, Option<Proof>)>,
    k: TransitionID,
)
    requires
        ids_of(e.0).contains(k) || (fee matches Some(f) && f.0.id == k),
    ensures
        insert_spec(v, id, e, fee).reverse.contains_key(k),
        insert_spec(v, id, e, fee).reverse[k] == id,
{
    lemma_point_all(v.reverse, ids_of(e.0), id);
}

/// Removing a transaction just stored leaves nothing under its ID, and none of
/// its transitions (its fee's among them) leads anywhere or is kept.
pub proof fn lemma_remove_after_insert(
    v: ExecutionView,
    id: TransactionID,
    e: (Seq<TransitionView>, StateRoot, Option<Proof>),
    fee: Option<(TransitionView, StateRoot, Option<Proof>)>,
    k: TransitionID,
)
    requires
        ids_of(e.0).contains(k) || (fee matches Some(f) && f.0.id == k),
    ensures
        get_transaction_spec(remove_spec(insert_spec(v, id, e, fee), id), id) == Ok::<
            Option<TransactionView>,
            StoreError,
        >(None),
        !remove_spec(insert_spec(v, id, e, fee), id).reverse.contains_key(k),
        !remove_spec(insert_spec(v, id, e, fee), id).transitions.contains_key(k),
{
    let w = insert_spec(v, id, e, fee);
    lemma_drop_all(w.reverse, ids_of(e.0));
    lemma_drop_all(w.transitions, ids_of(e.0));
}

/// Removing a transaction just stored into a store that held none of its
/// keys gives back the store as it was.
pub proof fn lemma_remove_undoes_insert(
    v: ExecutionView,
    id: TransactionID,
    e: (Seq<TransitionView>, StateRoot, Option<Proof>),
    fee: Option<(TransitionView, StateRoot, Option<Proof>)>,
)
    requires
        !v.ids.contains_key(id),
        !v.inclusion.contains_key(id),
        !v.fees.contains_key(id),
        forall|k: TransitionID| #[trigger] ids_of(e.0).contains(k) ==> !v.reverse.contains_key(k) && !v.transitions.contains_key(k),
        fee matches Some(f) ==> !v.reverse.contains_key(f.0.id) && !v.transitions.contains_key(f.0.id),
    ensures
        remove_spec(insert_spec(v, id, e, fee), id) == v,
{
    let tids = ids_of(e.0);
    let w = insert_spec(v, id, e, fee);
    let u = remove_spec(w, id);
    lemma_put_all(v.transitions, e.0);
    lemma_point_all(v.reverse, tids, id);
    lemma_drop_all(w.reverse, tids);
    lemma_drop_all(w.transitions, tids);
    lemma_drop_all(point_all(v.reverse, tids, id), tids);
    lemma_drop_all(put_all(v.transitions, e.0), tids);
    assert(u.ids =~= v.ids);
    assert(u.inclusion =~= v.inclusion);
    assert(u.fees =~= v.fees);
    assert(u.reverse =~= v.reverse);
    assert(u.transitions =~= v.transitions);
}

} // verus!
