//! The ledger's objects, with identifiers and field elements held as 64-bit digests.
use vstd::prelude::*;

verus! {

/// The identifier of a block.
pub type BlockHash = u64;
/// The identifier of a transaction.
pub type TransactionID = u64;
/// The identifier of a transition.
pub type TransitionID = u64;
/// The identifier of a program.
pub type ProgramID = u64;
/// A field element, as stored.
pub type Field = u64;
/// A group element, as stored.
pub type Group = u64;
/// A global state root.
pub type StateRoot = u64;

/// A block header.
#[derive(Clone, Copy, Debug, PartialEq, Eq, Structural)]
pub struct Header {
    pub previous_state_root: StateRoot,
    pub transactions_root: Field,
    pub height: u32,
    pub timestamp: i64,
}

/// The coinbase solution of a block.
#[derive(Clone, Copy, Debug, PartialEq, Eq, Structural)]
pub struct CoinbaseSolution {
    pub commitment: Field,
}

/// The signature of a block.
#[derive(Clone, Copy, Debug, PartialEq, Eq, Structural)]
pub struct Signature {
    pub value: Field,
}

/// An inclusion proof.
#[derive(Clone, Copy, Debug, PartialEq, Eq, Structural)]
pub struct Proof {
    pub value: Field,
}

/// An encrypted record.
#[derive(Clone, Copy, Debug, PartialEq, Eq, Structural)]
pub struct Record {
    pub owner: Field,
    pub data: Field,
    pub nonce: Group,
}

/// A program.
#[derive(Clone, Copy, Debug, PartialEq, Eq, Structural)]
pub struct Program {
    pub id: ProgramID,
    pub checksum: Field,
}

/// A transition input.
#[derive(Clone, Copy, Debug, PartialEq, Eq, Structural)]
pub enum Input {
    /// The hash of a constant input.
    Constant(Field),
    /// The hash of a public input.
    Public(Field),
    /// The hash of a private input.
    Private(Field),
    /// The serial number and tag of a record input.
    Record(Field, Field),
    /// The commitment of an external record input.
    ExternalRecord(Field),
}

impl Input {
    /// Returns the ID of the input: the serial number for a record.
    pub open spec fn spec_id(self) -> Field {
        match self {
            Input::Constant(id) => id,
            Input::Public(id) => id,
            Input::Private(id) => id,
            Input::Record(serial_number, _) => serial_number,
            Input::ExternalRecord(id) => id,
        }
    }

    /// Returns the ID of the input.
    pub fn id(&self) -> (f: Field)
        ensures
            f == self.spec_id(),
    {
        match self {
            Input::Constant(id) => *id,
            Input::Public(id) => *id,
            Input::Private(id) => *id,
            Input::Record(serial_number, _) => *serial_number,
            Input::ExternalRecord(id) => *id,
        }
    }

    /// Returns the serial number, if the input is a record.
    pub fn serial_number(&self) -> (f: Option<Field>)
        ensures
            f == (match *self { Input::Record(sn, _) => Some(sn), _ => None::<Field> }),
    {
        match self {
            Input::Record(serial_number, _) => Some(*serial_number),
            _ => None,
        }
    }

    /// Returns the tag, if the input is a record.
    pub fn tag(&self) -> (f: Option<Field>)
        ensures
            f == (match *self { Input::Record(_, tag) => Some(tag), _ => None::<Field> }),
    {
        match self {
            Input::Record(_, tag) => Some(*tag),
            _ => None,
        }
    }
}

/// A transition output.
#[derive(Clone, Copy, Debug, PartialEq, Eq, Structural)]
pub enum Output {
    /// The plaintext hash of a constant output.
    Constant(Field),
    /// The plaintext hash of a public output.
    Public(Field),
    /// The ciphertext hash of a private output.
    Private(Field),
    /// The commitment, checksum and (optional) record ciphertext.
    Record(Field, Field, Option<Record>),
    /// The output commitment of an external record.
    ExternalRecord(Field),
}

impl Output {
    /// Returns the variant of the output.
    pub fn variant(&self) -> (v: u16)
        ensures
            v == (match *self {
                Output::Constant(..) => 0u16,
                Output::Public(..) => 1u16,
                Output::Private(..) => 2u16,
                Output::Record(..) => 3u16,
                Output::ExternalRecord(..) => 4u16,
            }),
    {
        match self {
            Output::Constant(..) => 0,
            Output::Public(..) => 1,
            Output::Private(..) => 2,
            Output::Record(..) => 3,
            Output::ExternalRecord(..) => 4,
        }
    }

    /// Returns the ID of the output: the commitment for a record.
    pub open spec fn spec_id(self) -> Field {
        match self {
            Output::Constant(id) => id,
            Output::Public(id) => id,
            Output::Private(id) => id,
            Output::Record(commitment, _, _) => commitment,
            Output::ExternalRecord(id) => id,
        }
    }

    /// Returns the ID of the output.
    pub fn id(&self) -> (f: Field)
        ensures
            f == self.spec_id(),
    {
        match self {
            Output::Constant(id) => *id,
            Output::Public(id) => *id,
            Output::Private(id) => *id,
            Output::Record(commitment, _, _) => *commitment,
            Output::ExternalRecord(id) => *id,
        }
    }

    /// Returns the commitment and record, if the output is a record with its ciphertext.
    pub open spec fn spec_record(self) -> Option<(Field, Record)> {
        match self {
            Output::Record(commitment, _, Some(record)) => Some((commitment, record)),
            _ => None,
        }
    }

    /// Returns the commitment and record, if the output is a record.
    pub fn record(&self) -> (r: Option<(Field, Record)>)
        ensures
            r == self.spec_record(),
    {
        match self {
            Output::Record(commitment, _, Some(record)) => Some((*commitment, *record)),
            _ => None,
        }
    }

    /// Returns the commitment, if the output is a record.
    pub open spec fn spec_commitment(self) -> Option<Field> {
        match self {
            Output::Record(commitment, _, _) => Some(commitment),
            _ => None,
        }
    }

    /// Returns the commitment, if the output is a record.
    pub fn commitment(&self) -> (f: Option<Field>)
        ensures
            f == self.spec_commitment(),
    {
        match self {
            Output::Record(commitment, _, _) => Some(*commitment),
            _ => None,
        }
    }

    /// Returns the nonce, if the output is a record with its ciphertext.
    pub open spec fn spec_nonce(self) -> Option<Group> {
        match self {
            Output::Record(_, _, Some(record)) => Some(record.nonce),
            _ => None,
        }
    }

    /// Returns the nonce, if the output is a record.
    pub fn nonce(&self) -> (g: Option<Group>)
        ensures
            g == self.spec_nonce(),
    {
        match self {
            Output::Record(_, _, Some(record)) => Some(record.nonce),
            _ => None,
        }
    }

    /// Returns the commitment and record, consuming the output, if it is a
    /// record output that carries its record.
    pub fn into_record(self) -> (r: Option<(Field, Record)>)
        ensures
            r == self.spec_record(),
    {
        self.record()
    }

    /// Returns the commitment, consuming the output, if it is a record output.
    pub fn into_commitment(self) -> (f: Option<Field>)
        ensures
            f == self.spec_commitment(),
    {
        self.commitment()
    }

    /// Returns the nonce, consuming the output, if it is a record output that
    /// carries its record.
    pub fn into_nonce(self) -> (g: Option<Group>)
        ensures
            g == self.spec_nonce(),
    {
        self.nonce()
    }

    /// Returns the checksum, if the output is a record.
    pub fn checksum(&self) -> (f: Option<Field>)
        ensures
            f == (match *self { Output::Record(_, checksum, _) => Some(checksum), _ => None::<Field> }),
    {
        match self {
            Output::Record(_, checksum, _) => Some(*checksum),
            _ => None,
        }
    }

    /// Returns the public verifier inputs for the proof: the ID, then the checksum if any.
    pub fn verifier_inputs(&self) -> (v: Vec<Field>)
        ensures
            v@ == (match *self {
                Output::Record(commitment, checksum, _) => seq![commitment, checksum],
                _ => seq![self.spec_id()],
            }),
    {
        let mut v: Vec<Field> = Vec::new();
        v.push(self.id());
        if let Some(sum) = self.checksum() {
            v.push(sum);
        }
        proof {
            assert(v@ =~= (match *self {
                Output::Record(commitment, checksum, _) => seq![commitment, checksum],
                _ => seq![self.spec_id()],
            }));
        }
        v
    }
}

/// The view of a transition.
pub struct TransitionView {
    pub id: TransitionID,
    pub inputs: Seq<Input>,
    pub outputs: Seq<Output>,
    pub tpk: Group,
}

/// A transition: a single function call with its inputs and outputs.
#[derive(Debug, PartialEq, Eq)]
pub struct Transition {
    pub id: TransitionID,
    pub inputs: Vec<Input>,
    pub outputs: Vec<Output>,
    pub tpk: Group,
}

impl View for Transition {
    type V = TransitionView;

    open spec fn view(&self) -> TransitionView {
        TransitionView { id: self.id, inputs: self.inputs@, outputs: self.outputs@, tpk: self.tpk }
    }
}

/// Copies a vector of copyable values.
pub fn copy_vec<T: Copy>(v: &Vec<T>) -> (r: Vec<T>)
    ensures
        r@ == v@,
{
    let mut r: Vec<T> = Vec::new();
    let mut i: usize = 0;
    while i < v.len()
        invariant
            i <= v@.len(),
            r@ =~= v@.subrange(0, i as int),
        decreases v@.len() - i,
    {
        r.push(v[i]);
        i = i + 1;
    }
    proof {
        assert(r@ =~= v@);
    }
    r
}

impl Transition {
    /// Returns a copy of the transition.
    pub fn duplicate(&self) -> (t: Transition)
        ensures
            t@ == self@,
    {
        Transition { id: self.id, inputs: copy_vec(&self.inputs), outputs: copy_vec(&self.outputs), tpk: self.tpk }
    }
}

/// An execution: its transitions, the global state root and an optional inclusion proof.
#[derive(Debug, PartialEq, Eq)]
pub struct Execution {
    pub transitions: Vec<Transition>,
    pub global_state_root: StateRoot,
    pub inclusion_proof: Option<Proof>,
}

/// A fee: its transition, the global state root and an optional inclusion proof.
#[derive(Debug, PartialEq, Eq)]
pub struct Fee {
    pub transition: Transition,
    pub global_state_root: StateRoot,
    pub inclusion_proof: Option<Proof>,
}

/// A transaction.
#[derive(Debug, PartialEq, Eq)]
pub enum Transaction {
    /// The ID of a deployment transaction and the program it deploys.
    Deploy(TransactionID, Program),
    /// The ID of an execution transaction, its execution and its optional fee.
    Execute(TransactionID, Execution, Option<Fee>),
}

/// The view of a list of transitions.
pub open spec fn transitions_view(ts: Seq<Transition>) -> Seq<TransitionView> {
    ts.map_values(|t: Transition| t@)
}

/// The view of an execution.
pub open spec fn execution_view(e: Execution) -> (Seq<TransitionView>, StateRoot, Option<Proof>) {
    (transitions_view(e.transitions@), e.global_state_root, e.inclusion_proof)
}

/// The view of a fee.
pub open spec fn fee_view(f: Option<Fee>) -> Option<(TransitionView, StateRoot, Option<Proof>)> {
    match f {
        Some(fee) => Some((fee.transition@, fee.global_state_root, fee.inclusion_proof)),
        None => None,
    }
}

/// The view of a transaction.
pub enum TransactionView {
    Deploy(TransactionID, Program),
    Execute(TransactionID, (Seq<TransitionView>, StateRoot, Option<Proof>), Option<(TransitionView, StateRoot, Option<Proof>)>),
}

impl View for Transaction {
    type V = TransactionView;

    open spec fn view(&self) -> TransactionView {
        match self {
            Transaction::Deploy(id, program) => TransactionView::Deploy(*id, *program),
            Transaction::Execute(id, execution, fee) => TransactionView::Execute(*id, execution_view(*execution), fee_view(*fee)),
        }
    }
}

impl Transaction {
    /// Returns the ID of the transaction.
    pub open spec fn spec_id(&self) -> TransactionID {
        match self {
            Transaction::Deploy(id, _) => *id,
            Transaction::Execute(id, _, _) => *id,
        }
    }

    /// Returns the ID of the transaction.
    pub fn id(&self) -> (i: TransactionID)
        ensures
            i == self.spec_id(),
    {
        match self {
            Transaction::Deploy(id, _) => *id,
            Transaction::Execute(id, _, _) => *id,
        }
    }
}

impl TransactionView {
    /// The ID of the transaction.
    pub open spec fn id(self) -> TransactionID {
        match self {
            TransactionView::Deploy(id, _) => id,
            TransactionView::Execute(id, _, _) => id,
        }
    }
}

/// The view of a block.
pub struct BlockView {
    pub hash: BlockHash,
    pub previous_hash: BlockHash,
    pub header: Header,
    pub transactions: Seq<TransactionView>,
    pub coinbase: Option<CoinbaseSolution>,
    pub signature: Signature,
}

/// A block: its hash, the previous block hash, the header, its
/// transactions, an optional coinbase solution and the signature.
#[derive(Debug, PartialEq, Eq)]
pub struct Block {
    pub hash: BlockHash,
    pub previous_hash: BlockHash,
    pub header: Header,
    pub transactions: Vec<Transaction>,
    pub coinbase: Option<CoinbaseSolution>,
    pub signature: Signature,
}

impl View for Block {
    type V = BlockView;

    open spec fn view(&self) -> BlockView {
        BlockView {
            hash: self.hash,
            previous_hash: self.previous_hash,
            header: self.header,
            transactions: self.transactions@.map_values(|t: Transaction| t@),
            coinbase: self.coinbase,
            signature: self.signature,
        }
    }
}

} // verus!
