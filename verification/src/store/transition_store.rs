//! The store of transitions, and the views over their inputs and outputs.
use vstd::prelude::*;
use crate::store::id_map::IdMap;
use crate::store::types::{Field, Group, Input, Output, Record, Transition, TransitionID, TransitionView};

verus! {

/// Which value to read from a transition input.
#[derive(Clone, Copy, Debug, PartialEq, Eq, Structural)]
pub enum InputPart {
    /// The ID of every input.
    Id,
    /// The serial number of every record input.
    SerialNumber,
    /// The tag of every record input.
    Tag,
}

/// Which value to read from a transition output.
#[derive(Clone, Copy, Debug, PartialEq, Eq, Structural)]
pub enum OutputPart {
    /// The ID of every record output.
    RecordId,
    /// The commitment of every record output.
    Commitment,
    /// The nonce of every record output that carries its record.
    Nonce,
}

/// The value an input contributes, if any.
pub open spec fn input_pick(part: InputPart, i: Input) -> Option<Field> {
    match part {
        InputPart::Id => Some(i.spec_id()),
        InputPart::SerialNumber => match i { Input::Record(sn, _) => Some(sn), _ => None },
        InputPart::Tag => match i { Input::Record(_, tag) => Some(tag), _ => None },
    }
}

/// The value an output contributes, if any.
pub open spec fn output_pick(part: OutputPart, o: Output) -> Option<Field> {
    match part {
        OutputPart::RecordId => match o { Output::Record(..) => Some(o.spec_id()), _ => None },
        OutputPart::Commitment => o.spec_commitment(),
        OutputPart::Nonce => o.spec_nonce(),
    }
}

/// The values a list of inputs contributes, in order.
pub open spec fn pick_inputs(part: InputPart, s: Seq<Input>) -> Seq<Field>
    decreases s.len(),
{
    if s.len() == 0 {
        Seq::empty()
    } else {
        let r = pick_inputs(part, s.drop_last());
        match input_pick(part, s.last()) {
            Some(x) => r.push(x),
            None => r,
        }
    }
}

/// The values a list of outputs contributes, in order.
pub open spec fn pick_outputs(part: OutputPart, s: Seq<Output>) -> Seq<Field>
    decreases s.len(),
{
    if s.len() == 0 {
        Seq::empty()
    } else {
        let r = pick_outputs(part, s.drop_last());
        match output_pick(part, s.last()) {
            Some(x) => r.push(x),
            None => r,
        }
    }
}

/// The `(commitment, record)` pairs of a list of outputs, in order.
pub open spec fn pick_records(s: Seq<Output>) -> Seq<(Field, Record)>
    decreases s.len(),
{
    if s.len() == 0 {
        Seq::empty()
    } else {
        let r = pick_records(s.drop_last());
        match s.last().spec_record() {
            Some(x) => r.push(x),
            None => r,
        }
    }
}

/// The input values of a list of transitions, transition by transition.
pub open spec fn gather_inputs(part: InputPart, ts: Seq<TransitionView>) -> Seq<Field>
    decreases ts.len(),
{
    if ts.len() == 0 {
        Seq::empty()
    } else {
        gather_inputs(part, ts.drop_last()) + pick_inputs(part, ts.last().inputs)
    }
}

/// The output values of a list of transitions, transition by transition.
pub open spec fn gather_outputs(part: OutputPart, ts: Seq<TransitionView>) -> Seq<Field>
    decreases ts.len(),
{
    if ts.len() == 0 {
        Seq::empty()
    } else {
        gather_outputs(part, ts.drop_last()) + pick_outputs(part, ts.last().outputs)
    }
}

/// The records of a list of transitions, transition by transition.
pub open spec fn gather_records(ts: Seq<TransitionView>) -> Seq<(Field, Record)>
    decreases ts.len(),
{
    if ts.len() == 0 {
        Seq::empty()
    } else {
        gather_records(ts.drop_last()) + pick_records(ts.last().outputs)
    }
}

fn input_pick_exec(part: InputPart, i: &Input) -> (r: Option<Field>)
    ensures
        r == input_pick(part, *i),
{
    match part {
        InputPart::Id => Some(i.id()),
        InputPart::SerialNumber => i.serial_number(),
        InputPart::Tag => i.tag(),
    }
}

fn output_pick_exec(part: OutputPart, o: &Output) -> (r: Option<Field>)
    ensures
        r == output_pick(part, *o),
{
    match part {
        OutputPart::RecordId => match o {
            Output::Record(..) => Some(o.id()),
            _ => None,
        },
        OutputPart::Commitment => o.commitment(),
        OutputPart::Nonce => o.nonce(),
    }
}

/// The order of a store after storing `t`: a stored ID keeps its place and
/// takes the new transition, a new one goes last.
pub open spec fn put_order(o: (Seq<TransitionID>, Seq<TransitionView>), t: TransitionView) -> (
    Seq<TransitionID>,
    Seq<TransitionView>,
) {
    if o.0.contains(t.id) {
        (o.0, o.1.update(o.0.index_of(t.id), t))
    } else {
        (o.0.push(t.id), o.1.push(t))
    }
}

/// The order of a store after storing each of `ts`, one after the other.
pub open spec fn put_all_order(o: (Seq<TransitionID>, Seq<TransitionView>), ts: Seq<TransitionView>) -> (
    Seq<TransitionID>,
    Seq<TransitionView>,
)
    decreases ts.len(),
{
    if ts.len() == 0 {
        o
    } else {
        put_order(put_all_order(o, ts.drop_last()), ts.last())
    }
}

/// The order of a store after removing `id`: the others keep their order.
pub open spec fn drop_order(o: (Seq<TransitionID>, Seq<TransitionView>), id: TransitionID) -> (
    Seq<TransitionID>,
    Seq<TransitionView>,
) {
    if o.0.contains(id) {
        (o.0.remove(o.0.index_of(id)), o.1.remove(o.0.index_of(id)))
    } else {
        o
    }
}

/// The order of a store after removing each of `ids`, one after the other.
pub open spec fn drop_all_order(o: (Seq<TransitionID>, Seq<TransitionView>), ids: Seq<TransitionID>) -> (
    Seq<TransitionID>,
    Seq<TransitionView>,
)
    decreases ids.len(),
{
    if ids.len() == 0 {
        o
    } else {
        drop_order(drop_all_order(o, ids.drop_last()), ids.last())
    }
}

/// The store of transitions, keyed by transition ID.
pub struct TransitionStore {
    transitions: IdMap<Transition>,
}

impl TransitionStore {
    /// The stored transitions by ID.
    pub closed spec fn map(&self) -> Map<TransitionID, TransitionView> {
        self.transitions.map().map_values(|t: Transition| t@)
    }

    /// The stored transitions in insertion order.
    pub closed spec fn seq(&self) -> Seq<TransitionView> {
        self.transitions.entry_seq().map_values(|e: (u64, Transition)| e.1@)
    }

    /// The stored transition IDs in insertion order.
    pub closed spec fn ids(&self) -> Seq<TransitionID> {
        self.transitions.key_seq()
    }

    /// The stored transition IDs and transitions, in insertion order.
    pub open spec fn order(&self) -> (Seq<TransitionID>, Seq<TransitionView>) {
        (self.ids(), self.seq())
    }

    /// Every transition is stored under its own ID.
    pub closed spec fn wf(&self) -> bool {
        &&& self.transitions.wf()
        &&& forall|k: u64| #[trigger] self.transitions.map().contains_key(k) ==> self.transitions.map()[k].id == k
    }

    /// The insertion order lists each stored transition once, under its ID,
    /// and nothing else.
    pub proof fn lemma_order(&self)
        requires
            self.wf(),
        ensures
            self.ids().no_duplicates(),
            self.ids().len() == self.seq().len(),
            forall|k: TransitionID| self.map().contains_key(k) <==> self.ids().contains(k),
            forall|i: int| 0 <= i < self.ids().len() ==> #[trigger] self.map()[self.ids()[i]] == self.seq()[i],
            forall|i: int| 0 <= i < self.ids().len() ==> (#[trigger] self.seq()[i]).id == self.ids()[i],
    {
        self.transitions.lemma_view();
        assert forall|i: int| 0 <= i < self.ids().len() implies #[trigger] self.map()[self.ids()[i]] == self.seq()[i] by {
            let k = self.ids()[i];
            assert(self.transitions.key_seq()[i] == self.transitions.entry_seq()[i].0);
            assert(self.transitions.key_seq().contains(k));
            assert(self.transitions.map().contains_key(k));
            assert(self.transitions.map()[self.transitions.entry_seq()[i].0] == self.transitions.entry_seq()[i].1);
        }
        assert forall|i: int| 0 <= i < self.ids().len() implies (#[trigger] self.seq()[i]).id == self.ids()[i] by {
            let k = self.ids()[i];
            assert(self.transitions.key_seq()[i] == self.transitions.entry_seq()[i].0);
            assert(self.transitions.key_seq().contains(k));
            assert(self.transitions.map().contains_key(k));
        }
    }

    /// Creates an empty store.
    pub fn new() -> (s: TransitionStore)
        ensures
            s.wf(),
            s.map() == Map::<TransitionID, TransitionView>::empty(),
            s.seq() == Seq::<TransitionView>::empty(),
            s.ids() == Seq::<TransitionID>::empty(),
    {
        let s = TransitionStore { transitions: IdMap::new() };
        assert(s.map() =~= Map::<TransitionID, TransitionView>::empty());
        assert(s.seq() =~= Seq::<TransitionView>::empty());
        s
    }

    /// Stores a transition under its ID.
    pub fn insert(&mut self, transition: Transition)
        requires
            old(self).wf(),
        ensures
            final(self).wf(),
            final(self).map() == old(self).map().insert(transition.id, transition@),
            final(self).order() == put_order(old(self).order(), transition@),
    {
        let ghost t = transition@;
        let id = transition.id;
        self.transitions.insert(id, transition);
        proof {
            assert(self.map() =~= old(self).map().insert(id, t));
            self.transitions.lemma_view();
            old(self).transitions.lemma_view();
            if old(self).ids().contains(id) {
                assert(self.seq() =~= old(self).seq().update(old(self).ids().index_of(id), t));
            } else {
                assert(self.seq() =~= old(self).seq().push(t));
            }
        }
    }

    /// Removes the transition with the given ID.
    pub fn remove(&mut self, id: TransitionID)
        requires
            old(self).wf(),
        ensures
            final(self).wf(),
            final(self).map() == old(self).map().remove(id),
            final(self).order() == drop_order(old(self).order(), id),
    {
        self.transitions.remove(id);
        proof {
            assert(self.map() =~= old(self).map().remove(id));
            self.transitions.lemma_view();
            old(self).transitions.lemma_view();
            if old(self).ids().contains(id) {
                let i = old(self).ids().index_of(id);
                assert(self.seq() =~= old(self).seq().remove(i));
                assert(self.ids() =~= old(self).ids().remove(i));
            } else {
                assert(self.seq() =~= old(self).seq());
                assert(self.ids() =~= old(self).ids());
            }
        }
    }

    /// Returns `true` if a transition with the given ID is stored.
    pub fn contains_transition(&self, id: TransitionID) -> (b: bool)
        requires
            self.wf(),
        ensures
            b == self.map().contains_key(id),
    {
        self.transitions.contains_key(id)
    }

    /// Returns a copy of the transition with the given ID, if stored.
    pub fn get_transition(&self, id: TransitionID) -> (t: Option<Transition>)
        requires
            self.wf(),
        ensures
            match t {
                Some(t) => self.map().contains_key(id) && self.map()[id] == t@,
                None => !self.map().contains_key(id),
            },
    {
        match self.transitions.get(id) {
            Some(t) => Some(t.duplicate()),
            None => None,
        }
    }

    /// Returns the transition IDs, in insertion order.
    pub fn transition_ids(&self) -> (v: Vec<TransitionID>)
        requires
            self.wf(),
        ensures
            v@ == self.ids(),
    {
        self.transitions.keys()
    }

    /// Returns the transition public keys, in insertion order.
    pub fn tpks(&self) -> (v: Vec<Group>)
        requires
            self.wf(),
        ensures
            v@ == self.seq().map_values(|t: TransitionView| t.tpk),
    {
        let mut v: Vec<Group> = Vec::new();
        let mut i: usize = 0;
        let n = self.transitions.len();
        proof {
            self.transitions.lemma_view();
        }
        while i < n
            invariant
                n == self.seq().len(),
                i <= n,
                v@ =~= self.seq().map_values(|t: TransitionView| t.tpk).subrange(0, i as int),
            decreases n - i,
        {
            let (_, t) = self.transitions.entry_at(i);
            v.push(t.tpk);
            i = i + 1;
        }
        proof {
            assert(v@ =~= self.seq().map_values(|t: TransitionView| t.tpk));
        }
        v
    }

    /// Returns the chosen value of every input of every transition, in order.
    pub fn input_values(&self, part: InputPart) -> (v: Vec<Field>)
        requires
            self.wf(),
        ensures
            v@ == gather_inputs(part, self.seq()),
    {
        let mut v: Vec<Field> = Vec::new();
        let n = self.transitions.len();
        proof {
            self.transitions.lemma_view();
            assert(self.seq().subrange(0, 0) =~= Seq::<TransitionView>::empty());
        }
        let mut i: usize = 0;
        while i < n
            invariant
                n == self.seq().len(),
                i <= n,
                v@ == gather_inputs(part, self.seq().subrange(0, i as int)),
            decreases n - i,
        {
            let (_, t) = self.transitions.entry_at(i);
            let ghost before = v@;
            let mut j: usize = 0;
            proof {
                assert(t.inputs@.subrange(0, 0) =~= Seq::<Input>::empty());
                assert(v@ =~= before + pick_inputs(part, t.inputs@.subrange(0, 0)));
            }
            while j < t.inputs.len()
                invariant
                    j <= t.inputs@.len(),
                    v@ =~= before + pick_inputs(part, t.inputs@.subrange(0, j as int)),
                decreases t.inputs@.len() - j,
            {
                let picked = input_pick_exec(part, &t.inputs[j]);
                proof {
                    assert(t.inputs@.subrange(0, j + 1).drop_last() =~= t.inputs@.subrange(0, j as int));
                }
                if let Some(x) = picked {
                    v.push(x);
                }
                j = j + 1;
            }
            proof {
                assert(t.inputs@.subrange(0, t.inputs@.len() as int) =~= t.inputs@);
                assert(self.seq().subrange(0, i + 1).drop_last() =~= self.seq().subrange(0, i as int));
                assert(self.seq()[i as int] == t@);
            }
            i = i + 1;
        }
        proof {
            assert(self.seq().subrange(0, n as int) =~= self.seq());
        }
        v
    }

    /// Returns the chosen value of every output of every transition, in order.
    pub fn output_values(&self, part: OutputPart) -> (v: Vec<Field>)
        requires
            self.wf(),
        ensures
            v@ == gather_outputs(part, self.seq()),
    {
        let mut v: Vec<Field> = Vec::new();
        let n = self.transitions.len();
        proof {
            self.transitions.lemma_view();
            assert(self.seq().subrange(0, 0) =~= Seq::<TransitionView>::empty());
        }
        let mut i: usize = 0;
        while i < n
            invariant
                n == self.seq().len(),
                i <= n,
                v@ == gather_outputs(part, self.seq().subrange(0, i as int)),
            decreases n - i,
        {
            let (_, t) = self.transitions.entry_at(i);
            let ghost before = v@;
            let mut j: usize = 0;
            proof {
                assert(t.outputs@.subrange(0, 0) =~= Seq::<Output>::empty());
                assert(v@ =~= before + pick_outputs(part, t.outputs@.subrange(0, 0)));
            }
            while j < t.outputs.len()
                invariant
                    j <= t.outputs@.len(),
                    v@ =~= before + pick_outputs(part, t.outputs@.subrange(0, j as int)),
                decreases t.outputs@.len() - j,
            {
                let picked = output_pick_exec(part, &t.outputs[j]);
                proof {
                    assert(t.outputs@.subrange(0, j + 1).drop_last() =~= t.outputs@.subrange(0, j as int));
                }
                if let Some(x) = picked {
                    v.push(x);
                }
                j = j + 1;
            }
            proof {
                assert(t.outputs@.subrange(0, t.outputs@.len() as int) =~= t.outputs@);
                assert(self.seq().subrange(0, i + 1).drop_last() =~= self.seq().subrange(0, i as int));
                assert(self.seq()[i as int] == t@);
            }
            i = i + 1;
        }
        proof {
            assert(self.seq().subrange(0, n as int) =~= self.seq());
        }
        v
    }

    /// Returns the `(commitment, record)` pair of every record output, in order.
    pub fn records(&self) -> (v: Vec<(Field, Record)>)
        requires
            self.wf(),
        ensures
            v@ == gather_records(self.seq()),
    {
        let mut v: Vec<(Field, Record)> = Vec::new();
        let n = self.transitions.len();
        proof {
            self.transitions.lemma_view();
            assert(self.seq().subrange(0, 0) =~= Seq::<TransitionView>::empty());
        }
        let mut i: usize = 0;
        while i < n
            invariant
                n == self.seq().len(),
                i <= n,
                v@ == gather_records(self.seq().subrange(0, i as int)),
            decreases n - i,
        {
            let (_, t) = self.transitions.entry_at(i);
            let ghost before = v@;
            let mut j: usize = 0;
            proof {
                assert(t.outputs@.subrange(0, 0) =~= Seq::<Output>::empty());
                assert(v@ =~= before + pick_records(t.outputs@.subrange(0, 0)));
            }
            while j < t.outputs.len()
                invariant
                    j <= t.outputs@.len(),
                    v@ =~= before + pick_records(t.outputs@.subrange(0, j as int)),
                decreases t.outputs@.len() - j,
            {
                let picked = t.outputs[j].record();
                proof {
                    assert(t.outputs@.subrange(0, j + 1).drop_last() =~= t.outputs@.subrange(0, j as int));
                }
                if let Some(x) = picked {
                    v.push(x);
                }
                j = j + 1;
            }
            proof {
                assert(t.outputs@.subrange(0, t.outputs@.len() as int) =~= t.outputs@);
                assert(self.seq().subrange(0, i + 1).drop_last() =~= self.seq().subrange(0, i as int));
                assert(self.seq()[i as int] == t@);
            }
            i = i + 1;
        }
        proof {
            assert(self.seq().subrange(0, n as int) =~= self.seq());
        }
        v
    }
}

} // verus!

verus! {

/// The inputs of a list of transitions, transition by transition, in order.
pub open spec fn all_inputs(ts: Seq<TransitionView>) -> Seq<Input>
    decreases ts.len(),
{
    if ts.len() == 0 {
        Seq::empty()
    } else {
        all_inputs(ts.drop_last()) + ts.last().inputs
    }
}

/// The ID of each of a list of inputs, taken of every kind.
proof fn lemma_pick_input_ids(s: Seq<Input>)
    ensures
        pick_inputs(InputPart::Id, s).len() == s.len(),
        forall|k: int| 0 <= k < s.len() ==> #[trigger] pick_inputs(InputPart::Id, s)[k] == match s[k] {
            Input::Constant(f) => f,
            Input::Public(f) => f,
            Input::Private(f) => f,
            Input::Record(serial_number, _) => serial_number,
            Input::ExternalRecord(f) => f,
        },
    decreases s.len(),
{
    if s.len() > 0 {
        lemma_pick_input_ids(s.drop_last());
        assert forall|k: int| 0 <= k < s.len() implies #[trigger] pick_inputs(InputPart::Id, s)[k] == match s[k] {
            Input::Constant(f) => f,
            Input::Public(f) => f,
            Input::Private(f) => f,
            Input::Record(serial_number, _) => serial_number,
            Input::ExternalRecord(f) => f,
        } by {
            if k < s.len() - 1 {
                assert(s.drop_last()[k] == s[k]);
            }
        }
    }
}

/// The input IDs of a list of transitions have one entry for each input of
/// each transition, in order, whatever its kind: the hash of a constant,
/// public or private input, the serial number of a record input, the
/// commitment of an external record input.
pub proof fn lemma_input_ids_cover_every_input(ts: Seq<TransitionView>)
    ensures
        gather_inputs(InputPart::Id, ts).len() == all_inputs(ts).len(),
        forall|k: int|
            0 <= k < all_inputs(ts).len() ==> #[trigger] gather_inputs(InputPart::Id, ts)[k] == match all_inputs(ts)[k] {
                Input::Constant(f) => f,
                Input::Public(f) => f,
                Input::Private(f) => f,
                Input::Record(serial_number, _) => serial_number,
                Input::ExternalRecord(f) => f,
            },
    decreases ts.len(),
{
    if ts.len() > 0 {
        let pre = ts.drop_last();
        let last = ts.last().inputs;
        lemma_input_ids_cover_every_input(pre);
        lemma_pick_input_ids(last);
        let g = gather_inputs(InputPart::Id, pre);
        let ai = all_inputs(pre);
        assert forall|k: int|
            0 <= k < all_inputs(ts).len() implies #[trigger] gather_inputs(InputPart::Id, ts)[k] == match all_inputs(ts)[k] {
                Input::Constant(f) => f,
                Input::Public(f) => f,
                Input::Private(f) => f,
                Input::Record(serial_number, _) => serial_number,
                Input::ExternalRecord(f) => f,
            } by {
            if k < ai.len() {
                assert(all_inputs(ts)[k] == ai[k]);
                assert(gather_inputs(InputPart::Id, ts)[k] == g[k]);
            } else {
                assert(all_inputs(ts)[k] == last[k - ai.len()]);
                assert(gather_inputs(InputPart::Id, ts)[k] == pick_inputs(InputPart::Id, last)[k - ai.len()]);
            }
        }
    }
}

} // verus!
