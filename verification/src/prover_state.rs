//! The state with which the prover starts a batch: for each circuit the
//! vectors of its instances in order, how many instances it proves and, for
//! each instance with lookups, how often each table entry is used; and over
//! the batch the number of instances, of those that use lookups, and the
//! largest constraint and variable counts.
use vstd::prelude::*;

verus! {

/// Why a prover state cannot be started.
#[derive(Clone, Copy, Debug, PartialEq, Eq, Structural)]
pub enum AHPError {
    /// The batch holds no circuit.
    BatchSizeIsZero,
    /// An evaluation domain that a circuit needs is larger than the field offers.
    PolynomialDegreeTooLarge,
}

/// What the prover reads of a circuit.
pub struct CircuitShape {
    /// The number of constraints.
    pub num_constraints: usize,
    /// The number of variables.
    pub num_variables: usize,
    /// The sizes of its lookup tables, in order, where it has any.
    pub table_sizes: Option<Vec<usize>>,
    /// Whether the field offers the circuit's constraint, variable and
    /// non-zero evaluation domains (the field's FFT code decides this).
    pub domains_fit: bool,
    /// Whether the field offers the evaluation domain of the public inputs of
    /// the circuit's first instance.
    pub input_domain_fits: bool,
}

/// The assignment of one instance.
pub struct Assignments<F> {
    /// The padded public inputs.
    pub padded_public: Vec<F>,
    /// The private inputs.
    pub private: Vec<F>,
    /// The instance's `Az` vector.
    pub z_a: Vec<F>,
    /// The instance's `Bz` vector.
    pub z_b: Vec<F>,
    /// The instance's `Cz` vector.
    pub z_c: Vec<F>,
    /// The lookups used: table index, entry index within that table, and how
    /// many times the entry is used, in the order of their keys.
    pub table_uses: Vec<(usize, usize, u64)>,
}

/// The state the prover keeps for one circuit of the batch.
pub struct CircuitSpecificState<F> {
    /// The number of instances of the circuit in the batch.
    pub batch_size: usize,
    /// The padded public inputs of each instance, in order.
    pub padded_public_variables: Vec<Vec<F>>,
    /// The private inputs of each instance, in order.
    pub private_variables: Vec<Vec<F>>,
    /// The `Az` vectors of the instances, in order.
    pub z_a: Option<Vec<Vec<F>>>,
    /// The `Bz` vectors of the instances, in order.
    pub z_b: Option<Vec<Vec<F>>>,
    /// The `Cz` vectors of the instances, in order.
    pub z_c: Option<Vec<Vec<F>>>,
    /// For a circuit with tables, for each instance, how often each table
    /// entry (tables laid end to end) is used.
    pub m_evals: Option<Vec<Vec<u64>>>,
}

/// The state of the prover for a batch.
pub struct State<F> {
    /// One state for each circuit, in the order of the batch.
    pub circuit_specific_states: Vec<CircuitSpecificState<F>>,
    /// The largest number of constraints of a circuit.
    pub max_num_constraints: usize,
    /// The largest number of variables of a circuit.
    pub max_num_variables: usize,
    /// The number of instances in the batch.
    pub total_instances: usize,
    /// The number of instances of circuits with lookup tables.
    pub total_lookup_instances: usize,
}

/// A batch: each circuit with the assignments of its instances.
pub type Batch<F> = Seq<(CircuitShape, Vec<Assignments<F>>)>;

/// The number of instances in a batch.
pub open spec fn total_instances_spec<F>(b: Batch<F>) -> nat
    decreases b.len(),
{
    if b.len() == 0 {
        0
    } else {
        total_instances_spec(b.drop_last()) + b.last().1@.len()
    }
}

/// The number of instances of circuits that have lookup tables.
pub open spec fn total_lookup_instances_spec<F>(b: Batch<F>) -> nat
    decreases b.len(),
{
    if b.len() == 0 {
        0
    } else {
        total_lookup_instances_spec(b.drop_last()) + if b.last().0.table_sizes is Some {
            b.last().1@.len()
        } else {
            0
        }
    }
}

/// The largest number of constraints of a circuit in the batch, 0 for none.
pub open spec fn max_constraints_spec<F>(b: Batch<F>) -> usize
    decreases b.len(),
{
    if b.len() == 0 {
        0
    } else {
        let m = max_constraints_spec(b.drop_last());
        if m < b.last().0.num_constraints {
            b.last().0.num_constraints
        } else {
            m
        }
    }
}

/// The largest number of variables of a circuit in the batch, 0 for none.
pub open spec fn max_variables_spec<F>(b: Batch<F>) -> usize
    decreases b.len(),
{
    if b.len() == 0 {
        0
    } else {
        let m = max_variables_spec(b.drop_last());
        if m < b.last().0.num_variables {
            b.last().0.num_variables
        } else {
            m
        }
    }
}

/// Where table `t` starts when the tables are laid end to end.
pub open spec fn table_start(sizes: Seq<usize>, t: int) -> int
    decreases t,
{
    if t <= 0 {
        0
    } else {
        table_start(sizes, t - 1) + sizes[t - 1]
    }
}

/// How often each entry is used, over `len` entries: zero, then each use
/// in turn sets the count of its entry.
pub open spec fn m_evals_spec(sizes: Seq<usize>, uses: Seq<(usize, usize, u64)>, len: nat) -> Seq<u64>
    decreases uses.len(),
{
    if uses.len() == 0 {
        Seq::new(len, |i: int| 0u64)
    } else {
        let u = uses.last();
        m_evals_spec(sizes, uses.drop_last(), len).update(table_start(sizes, u.0 as int) + u.1, u.2)
    }
}

/// Each use names a table (or the end of the last one) and an entry that
/// lies within the instance's `Az` vector.
pub open spec fn uses_in_range<F>(sizes: Seq<usize>, a: Assignments<F>) -> bool {
    forall|k: int|
        0 <= k < a.table_uses@.len() ==> {
            let u = #[trigger] a.table_uses@[k];
            &&& u.0 <= sizes.len()
            &&& table_start(sizes, u.0 as int) + u.1 < a.z_a@.len()
        }
}

/// The domains of every circuit before `i` fit.
pub open spec fn fit_before<F>(b: Batch<F>, i: int) -> bool {
    forall|j: int| 0 <= j < i ==> #[trigger] b[j].0.domains_fit
}

/// What starting a prover state on `b` must meet in order not to halt: the
/// table sizes of each circuit add up within `usize`, and each circuit that
/// is reached with its domains fitting has an instance, the domain of its
/// first public inputs, and lookups within range.
pub open spec fn initialize_ok<F>(b: Batch<F>) -> bool {
    &&& total_instances_spec(b) <= usize::MAX
    &&& forall|i: int|
        0 <= i < b.len() ==> ((#[trigger] b[i].0).table_sizes matches Some(ts) ==> table_start(
            ts@,
            ts@.len() as int,
        ) <= usize::MAX)
    &&& forall|i: int|
        0 <= i < b.len() && fit_before(b, i + 1) ==> {
            &&& (#[trigger] b[i]).1@.len() > 0
            &&& b[i].0.input_domain_fits
            &&& (b[i].0.table_sizes matches Some(ts) ==> forall|j: int|
                0 <= j < b[i].1@.len() ==> uses_in_range(ts@, #[trigger] b[i].1@[j]))
        }
}

/// The state kept for a circuit with the given tables and assignments: its
/// batch size, each instance's vectors in assignment order, and for a circuit
/// with tables how often each instance uses each table entry.
pub open spec fn circuit_state_ok<F>(
    table_sizes: Option<Vec<usize>>,
    assignments: Seq<Assignments<F>>,
    s: CircuitSpecificState<F>,
) -> bool {
    &&& s.batch_size == assignments.len()
    &&& s.padded_public_variables@ == assignments.map_values(|a: Assignments<F>| a.padded_public)
    &&& s.private_variables@ == assignments.map_values(|a: Assignments<F>| a.private)
    &&& (s.z_a matches Some(v) && v@ == assignments.map_values(|a: Assignments<F>| a.z_a))
    &&& (s.z_b matches Some(v) && v@ == assignments.map_values(|a: Assignments<F>| a.z_b))
    &&& (s.z_c matches Some(v) && v@ == assignments.map_values(|a: Assignments<F>| a.z_c))
    &&& match table_sizes {
        None => s.m_evals is None,
        Some(ts) => s.m_evals matches Some(ms) && ms@.len() == assignments.len() && forall|j: int|
            0 <= j < assignments.len() ==> (#[trigger] ms@[j])@ == m_evals_spec(
                ts@,
                assignments[j].table_uses@,
                assignments[j].z_a@.len(),
            ),
    }
}

proof fn lemma_table_start_mono(sizes: Seq<usize>, s: int, t: int)
    requires
        0 <= s <= t,
    ensures
        table_start(sizes, s) <= table_start(sizes, t),
    decreases t - s,
{
    if s < t {
        lemma_table_start_mono(sizes, s, t - 1);
    }
}

proof fn lemma_m_evals_len(sizes: Seq<usize>, uses: Seq<(usize, usize, u64)>, len: nat)
    requires
        forall|k: int| 0 <= k < uses.len() ==> table_start(sizes, (#[trigger] uses[k]).0 as int) + uses[k].1 < len,
    ensures
        m_evals_spec(sizes, uses, len).len() == len,
    decreases uses.len(),
{
    if uses.len() > 0 {
        assert forall|k: int| 0 <= k < uses.drop_last().len() implies table_start(
            sizes,
            (#[trigger] uses.drop_last()[k]).0 as int,
        ) + uses.drop_last()[k].1 < len by {
            assert(uses.drop_last()[k] == uses[k]);
        }
        lemma_m_evals_len(sizes, uses.drop_last(), len);
        lemma_table_start_mono(sizes, 0, uses.last().0 as int);
    }
}

/// Lays the tables end to end: the start of each table, then the end of the
/// last one.
fn table_starts(sizes: &Vec<usize>) -> (r: Vec<usize>)
    requires
        table_start(sizes@, sizes@.len() as int) <= usize::MAX,
    ensures
        r@.len() == sizes@.len() + 1,
        forall|t: int| 0 <= t < r@.len() ==> #[trigger] r@[t] == table_start(sizes@, t),
{
    let mut r: Vec<usize> = Vec::new();
    r.push(0);
    let mut i: usize = 0;
    while i < sizes.len()
        invariant
            i <= sizes@.len(),
            table_start(sizes@, sizes@.len() as int) <= usize::MAX,
            r@.len() == i + 1,
            forall|t: int| 0 <= t < r@.len() ==> #[trigger] r@[t] == table_start(sizes@, t),
        decreases sizes@.len() - i,
    {
        proof {
            lemma_table_start_mono(sizes@, i + 1, sizes@.len() as int);
        }
        let next = r[i] + sizes[i];
        r.push(next);
        i = i + 1;
    }
    r
}

/// How often each table entry is used by one instance.
fn instance_m_evals(sizes: &Vec<usize>, uses: &Vec<(usize, usize, u64)>, len: usize) -> (m: Vec<u64>)
    requires
        table_start(sizes@, sizes@.len() as int) <= usize::MAX,
        forall|k: int|
            0 <= k < uses@.len() ==> {
                let u = #[trigger] uses@[k];
                &&& u.0 <= sizes@.len()
                &&& table_start(sizes@, u.0 as int) + u.1 < len
            },
    ensures
        m@ == m_evals_spec(sizes@, uses@, len as nat),
{
    let starts = table_starts(sizes);
    let mut m: Vec<u64> = Vec::new();
    let mut i: usize = 0;
    while i < len
        invariant
            i <= len,
            m@ == Seq::new(i as nat, |j: int| 0u64),
        decreases len - i,
    {
        m.push(0);
        i = i + 1;
        proof {
            assert(m@ =~= Seq::new(i as nat, |j: int| 0u64));
        }
    }
    proof {
        assert(m@ =~= m_evals_spec(sizes@, uses@.subrange(0, 0), len as nat));
    }
    let mut k: usize = 0;
    while k < uses.len()
        invariant
            k <= uses@.len(),
            forall|q: int|
                0 <= q < uses@.len() ==> {
                    let u = #[trigger] uses@[q];
                    &&& u.0 <= sizes@.len()
                    &&& table_start(sizes@, u.0 as int) + u.1 < len
                },
            starts@.len() == sizes@.len() + 1,
            forall|t: int| 0 <= t < starts@.len() ==> #[trigger] starts@[t] == table_start(sizes@, t),
            m@ == m_evals_spec(sizes@, uses@.subrange(0, k as int), len as nat),
        decreases uses@.len() - k,
    {
        let u = uses[k];
        proof {
            assert(u == uses@[k as int]);
            let pre = uses@.subrange(0, k as int);
            assert forall|q: int| 0 <= q < pre.len() implies table_start(sizes@, (#[trigger] pre[q]).0 as int)
                + pre[q].1 < len by {
                assert(pre[q] == uses@[q]);
            }
            lemma_m_evals_len(sizes@, pre, len as nat);
            lemma_table_start_mono(sizes@, 0, u.0 as int);
        }
        let p = starts[u.0] + u.1;
        m.set(p, u.2);
        proof {
            let next = uses@.subrange(0, k + 1);
            assert(next.drop_last() =~= uses@.subrange(0, k as int));
            assert(next.last() == u);
        }
        k = k + 1;
    }
    proof {
        assert(uses@.subrange(0, k as int) =~= uses@);
    }
    m
}

/// Takes the assignments of one circuit into its state, in order.
fn circuit_state<F>(table_sizes: &Option<Vec<usize>>, assignments: Vec<Assignments<F>>) -> (s: CircuitSpecificState<F>)
    requires
        table_sizes matches Some(ts) ==> table_start(ts@, ts@.len() as int) <= usize::MAX,
        table_sizes matches Some(ts) ==> forall|t: int|
            0 <= t < assignments@.len() ==> uses_in_range(ts@, #[trigger] assignments@[t]),
    ensures
        circuit_state_ok(*table_sizes, assignments@, s),
{
    let ghost a0 = assignments@;
    let n = assignments.len();
    let mut assignments = assignments;
    let mut publics: Vec<Vec<F>> = Vec::new();
    let mut privates: Vec<Vec<F>> = Vec::new();
    let mut z_as: Vec<Vec<F>> = Vec::new();
    let mut z_bs: Vec<Vec<F>> = Vec::new();
    let mut z_cs: Vec<Vec<F>> = Vec::new();
    let mut ms: Vec<Vec<u64>> = Vec::new();
    let mut j: usize = 0;
    proof {
        assert(assignments@ =~= a0.subrange(0, n as int));
    }
    while j < n
        invariant
            n == a0.len(),
            j <= n,
            assignments@ == a0.subrange(j as int, n as int),
            table_sizes matches Some(ts) ==> table_start(ts@, ts@.len() as int) <= usize::MAX,
            table_sizes matches Some(ts) ==> forall|t: int| 0 <= t < a0.len() ==> uses_in_range(ts@, #[trigger] a0[t]),
            publics@ == a0.subrange(0, j as int).map_values(|a: Assignments<F>| a.padded_public),
            privates@ == a0.subrange(0, j as int).map_values(|a: Assignments<F>| a.private),
            z_as@ == a0.subrange(0, j as int).map_values(|a: Assignments<F>| a.z_a),
            z_bs@ == a0.subrange(0, j as int).map_values(|a: Assignments<F>| a.z_b),
            z_cs@ == a0.subrange(0, j as int).map_values(|a: Assignments<F>| a.z_c),
            table_sizes matches Some(ts) ==> ms@.len() == j && forall|t: int|
                0 <= t < j ==> (#[trigger] ms@[t])@ == m_evals_spec(ts@, a0[t].table_uses@, a0[t].z_a@.len()),
        decreases n - j,
    {
        let a = assignments.remove(0);
        proof {
            assert(a == a0[j as int]);
            assert(assignments@ =~= a0.subrange(j + 1, n as int));
        }
        if let Some(sizes) = table_sizes {
            proof {
                assert(uses_in_range(sizes@, a0[j as int]));
            }
            let m = instance_m_evals(sizes, &a.table_uses, a.z_a.len());
            ms.push(m);
        }
        let Assignments { padded_public, private, z_a, z_b, z_c, table_uses } = a;
        publics.push(padded_public);
        privates.push(private);
        z_as.push(z_a);
        z_bs.push(z_b);
        z_cs.push(z_c);
        proof {
            let next = a0.subrange(0, j + 1);
            assert(publics@ =~= next.map_values(|a: Assignments<F>| a.padded_public));
            assert(privates@ =~= next.map_values(|a: Assignments<F>| a.private));
            assert(z_as@ =~= next.map_values(|a: Assignments<F>| a.z_a));
            assert(z_bs@ =~= next.map_values(|a: Assignments<F>| a.z_b));
            assert(z_cs@ =~= next.map_values(|a: Assignments<F>| a.z_c));
        }
        j = j + 1;
    }
    proof {
        assert(a0.subrange(0, n as int) =~= a0);
    }
    let m_evals = match table_sizes {
        Some(_) => Some(ms),
        None => None,
    };
    CircuitSpecificState {
        batch_size: n,
        padded_public_variables: publics,
        private_variables: privates,
        z_a: Some(z_as),
        z_b: Some(z_bs),
        z_c: Some(z_cs),
        m_evals,
    }
}

impl<F> State<F> {
    /// Starts the prover state of a batch of circuits, each with the
    /// assignments of its instances.
    ///
    /// An empty batch gives `BatchSizeIsZero`; a circuit whose evaluation
    /// domains the field does not offer gives `PolynomialDegreeTooLarge`.
    /// Otherwise each circuit's state keeps the public inputs, private inputs
    /// and `Az`, `Bz`, `Cz` vectors of its instances in order, its batch size
    /// is its number of assignments, and each instance of a circuit with
    /// tables records how often it uses each table entry; the totals count the
    /// instances and those of circuits with tables, and the largest constraint
    /// and variable counts are taken over the circuits.
    pub fn initialize(batch: Vec<(CircuitShape, Vec<Assignments<F>>)>) -> (r: Result<State<F>, AHPError>)
        requires
            initialize_ok(batch@),
        ensures
            batch@.len() == 0 ==> r is Err && r->Err_0 == AHPError::BatchSizeIsZero,
            batch@.len() > 0 && !fit_before(batch@, batch@.len() as int) ==> r is Err && r->Err_0
                == AHPError::PolynomialDegreeTooLarge,
            batch@.len() > 0 && fit_before(batch@, batch@.len() as int) ==> r is Ok,
            r matches Ok(s) ==> {
                &&& s.total_instances == total_instances_spec(batch@)
                &&& s.total_lookup_instances == total_lookup_instances_spec(batch@)
                &&& s.max_num_constraints == max_constraints_spec(batch@)
                &&& s.max_num_variables == max_variables_spec(batch@)
                &&& s.circuit_specific_states@.len() == batch@.len()
                &&& forall|i: int|
                    0 <= i < batch@.len() ==> circuit_state_ok(
                        (#[trigger] batch@[i]).0.table_sizes,
                        batch@[i].1@,
                        s.circuit_specific_states@[i],
                    )
            },
    {
        let ghost b0 = batch@;
        let n = batch.len();
        // Every circuit's evaluation domains must exist.
        let mut k: usize = 0;
        while k < n
            invariant
                n == batch@.len(),
                k <= n,
                fit_before(batch@, k as int),
            decreases n - k,
        {
            if !batch[k].0.domains_fit {
                proof {
                    assert(!batch@[k as int].0.domains_fit);
                }
                return Err(AHPError::PolynomialDegreeTooLarge);
            }
            k = k + 1;
        }
        let mut batch = batch;
        let mut states: Vec<CircuitSpecificState<F>> = Vec::new();
        let mut total_instances: usize = 0;
        let mut total_lookup_instances: usize = 0;
        let mut max_num_constraints: usize = 0;
        let mut max_num_variables: usize = 0;
        let mut i: usize = 0;
        proof {
            assert(b0.subrange(0, 0) =~= Seq::<(CircuitShape, Vec<Assignments<F>>)>::empty());
            assert(batch@ =~= b0.subrange(0, n as int));
        }
        while i < n
            invariant
                n == b0.len(),
                i <= n,
                batch@ == b0.subrange(i as int, n as int),
                initialize_ok(b0),
                fit_before(b0, n as int),
                total_instances == total_instances_spec(b0.subrange(0, i as int)),
                total_lookup_instances == total_lookup_instances_spec(b0.subrange(0, i as int)),
                max_num_constraints == max_constraints_spec(b0.subrange(0, i as int)),
                max_num_variables == max_variables_spec(b0.subrange(0, i as int)),
                states@.len() == i,
                forall|j: int|
                    0 <= j < i ==> circuit_state_ok((#[trigger] b0[j]).0.table_sizes, b0[j].1@, states@[j]),
            decreases n - i,
        {
            let (circuit, assignments) = batch.remove(0);
            proof {
                assert((circuit, assignments) == b0[i as int]);
                assert(batch@ =~= b0.subrange(i + 1, n as int));
            }
            let ghost pre = b0.subrange(0, i as int);
            let ghost next = b0.subrange(0, i + 1);
            proof {
                assert(next.drop_last() =~= pre);
                assert(next.last() == b0[i as int]);
                assert(fit_before(b0, i + 1));
                lemma_total_prefix(b0, i as int);
                lemma_lookup_le_total(next);
            }
            if max_num_constraints < circuit.num_constraints {
                max_num_constraints = circuit.num_constraints;
            }
            if max_num_variables < circuit.num_variables {
                max_num_variables = circuit.num_variables;
            }
            let batch_size = assignments.len();
            total_instances = total_instances + batch_size;
            if circuit.table_sizes.is_some() {
                total_lookup_instances = total_lookup_instances + batch_size;
            }
            let state = circuit_state(&circuit.table_sizes, assignments);
            states.push(state);
            i = i + 1;
        }
        proof {
            assert(b0.subrange(0, n as int) =~= b0);
        }
        if n == 0 {
            return Err(AHPError::BatchSizeIsZero);
        }
        Ok(
            State {
                circuit_specific_states: states,
                max_num_constraints,
                max_num_variables,
                total_instances,
                total_lookup_instances,
            },
        )
    }

    /// The batch size of the circuit at position `circuit`, if the batch has
    /// one there.
    pub fn batch_size(&self, circuit: usize) -> (r: Option<usize>)
        ensures
            r == (if circuit < self.circuit_specific_states@.len() {
                Some(self.circuit_specific_states@[circuit as int].batch_size)
            } else {
                None::<usize>
            }),
    {
        if circuit < self.circuit_specific_states.len() {
            Some(self.circuit_specific_states[circuit].batch_size)
        } else {
            None
        }
    }

    /// The padded public inputs of the instances of the circuit at position
    /// `circuit`, in order, if the batch has one there.
    pub fn padded_public_inputs(&self, circuit: usize) -> (r: Option<&Vec<Vec<F>>>)
        ensures
            match r {
                Some(v) => circuit < self.circuit_specific_states@.len() && *v
                    == self.circuit_specific_states@[circuit as int].padded_public_variables,
                None => circuit >= self.circuit_specific_states@.len(),
            },
    {
        if circuit < self.circuit_specific_states.len() {
            Some(&self.circuit_specific_states[circuit].padded_public_variables)
        } else {
            None
        }
    }
}

/// The instances of a prefix are no more than those of the whole batch.
proof fn lemma_total_prefix<F>(b: Batch<F>, i: int)
    requires
        0 <= i < b.len(),
    ensures
        total_instances_spec(b.subrange(0, i + 1)) <= total_instances_spec(b),
    decreases b.len(),
{
    if i + 1 < b.len() {
        assert(b.drop_last().subrange(0, i + 1) =~= b.subrange(0, i + 1));
        lemma_total_prefix(b.drop_last(), i);
    } else {
        assert(b.subrange(0, i + 1) =~= b);
    }
}

/// The instances with lookups are among all instances.
proof fn lemma_lookup_le_total<F>(b: Batch<F>)
    ensures
        total_lookup_instances_spec(b) <= total_instances_spec(b),
    decreases b.len(),
{
    if b.len() > 0 {
        lemma_lookup_le_total(b.drop_last());
    }
}

} // verus!
