//! A pool of tasks that are run to their results, and the number of threads
//! that such work is given.
use vstd::prelude::*;

verus! {

/// The vendor of the processor.
#[derive(Clone, Copy, Debug, PartialEq, Eq, Structural)]
pub enum CpuKind {
    /// An AMD processor.
    AMD,
    /// An Intel processor.
    Intel,
    /// Any other processor, or one whose vendor cannot be read.
    Unknown,
}

/// The vendor of this machine's processor, as `aleo_std::get_cpu` reads it
/// from the `cpuid` instruction. It depends on the machine, so nothing is
/// stated of it.
#[verifier::external_body]
fn cpu_kind() -> (c: CpuKind) {
    match aleo_std::get_cpu() {
        aleo_std::Cpu::AMD => CpuKind::AMD,
        aleo_std::Cpu::Intel => CpuKind::Intel,
        aleo_std::Cpu::Unknown => CpuKind::Unknown,
    }
}

/// The number of threads of the current rayon thread pool, as
/// `rayon::current_num_threads` reports it: the length of the pool's thread
/// list, which rayon builds with at least one thread. Which number it is
/// depends on the machine and on how the pool was built, and is not stated.
#[verifier::external_body]
fn rayon_threads() -> (n: usize)
    ensures
        n >= 1,
{
    rayon::current_num_threads()
}

/// The number of physical cores of this machine, as `num_cpus::get_physical`
/// reports it; its documentation promises at least one. Which number it is
/// depends on the machine, and is not stated.
#[verifier::external_body]
fn physical_cores() -> (n: usize)
    ensures
        n >= 1,
{
    num_cpus::get_physical()
}

/// The number of threads to use: all of rayon's threads on an AMD processor,
/// otherwise no more than there are physical cores.
pub open spec fn threads_for_spec(cpu: CpuKind, physical: usize, rayon_threads: usize) -> usize {
    match cpu {
        CpuKind::AMD => rayon_threads,
        _ => if physical < rayon_threads {
            physical
        } else {
            rayon_threads
        },
    }
}

/// Chooses the number of threads from the processor's vendor, its number of
/// physical cores and the number of rayon threads.
pub fn threads_for(cpu: CpuKind, physical: usize, rayon_threads: usize) -> (n: usize)
    ensures
        n == threads_for_spec(cpu, physical, rayon_threads),
{
    match cpu {
        CpuKind::AMD => rayon_threads,
        CpuKind::Intel | CpuKind::Unknown => if physical < rayon_threads {
            physical
        } else {
            rayon_threads
        },
    }
}

/// On an AMD processor all of rayon's threads are used; on any other (Intel
/// or unknown) the number is the smaller of the physical core count and the
/// rayon thread count.
pub proof fn lemma_threads_for_caps_non_amd(cpu: CpuKind, physical: usize, rayon_threads: usize)
    ensures
        cpu == CpuKind::AMD ==> threads_for_spec(cpu, physical, rayon_threads) == rayon_threads,
        cpu != CpuKind::AMD ==> {
            let n = threads_for_spec(cpu, physical, rayon_threads);
            &&& n <= physical
            &&& n <= rayon_threads
            &&& (n == physical || n == rayon_threads)
        },
{
}

/// The number of threads that work on this machine is given: the rayon
/// threads, capped by the physical cores unless the processor is an AMD one.
/// The choice is `threads_for` on what this machine reports; those numbers
/// depend on the machine, and what holds of every outcome is that at least
/// one thread is given.
pub fn max_available_threads() -> (n: usize)
    ensures
        n >= 1,
{
    let rayon_threads = rayon_threads();
    match cpu_kind() {
        CpuKind::AMD => threads_for(CpuKind::AMD, 0, rayon_threads),
        cpu => threads_for(cpu, physical_cores(), rayon_threads),
    }
}

/// A pool of tasks, each run once to a result.
pub struct ExecutionPool<F> {
    tasks: Vec<F>,
}

impl<T, F: FnOnce() -> T> ExecutionPool<F> {
    /// The tasks added so far, in order.
    pub closed spec fn tasks(&self) -> Seq<F> {
        self.tasks@
    }

    /// Creates an empty pool.
    pub fn new() -> (p: Self)
        ensures
            p.tasks() == Seq::<F>::empty(),
    {
        ExecutionPool { tasks: Vec::new() }
    }

    /// Creates an empty pool with room for `cap` tasks.
    pub fn with_capacity(cap: usize) -> (p: Self)
        ensures
            p.tasks() == Seq::<F>::empty(),
    {
        ExecutionPool { tasks: Vec::with_capacity(cap) }
    }

    /// Adds a task after the others.
    pub fn add_task(&mut self, f: F)
        ensures
            final(self).tasks() == old(self).tasks().push(f),
    {
        self.tasks.push(f);
    }

    /// Runs every task once, in order, and returns their results in the
    /// order of the tasks.
    pub fn execute_all(self) -> (r: Vec<T>)
        requires
            forall|i: int| 0 <= i < self.tasks().len() ==> call_requires(#[trigger] self.tasks()[i], ()),
        ensures
            r@.len() == self.tasks().len(),
            forall|i: int| 0 <= i < r@.len() ==> call_ensures(self.tasks()[i], (), #[trigger] r@[i]),
    {
        let ghost ts = self.tasks();
        proof {
            assert forall|j: int| 0 <= j < ts.len() implies call_requires(#[trigger] ts[j], ()) by {
                assert(call_requires(self.tasks()[j], ()));
            }
        }
        let mut tasks = self.tasks;
        let mut out: Vec<T> = Vec::new();
        let n = tasks.len();
        let mut i: usize = 0;
        while i < n
            invariant
                n == ts.len(),
                i <= n,
                tasks@ == ts.subrange(i as int, n as int),
                out@.len() == i,
                forall|j: int| 0 <= j < ts.len() ==> call_requires(#[trigger] ts[j], ()),
                forall|j: int| 0 <= j < i ==> call_ensures(ts[j], (), #[trigger] out@[j]),
            decreases n - i,
        {
            let task = tasks.remove(0);
            proof {
                assert(task == ts[i as int]);
                assert(tasks@ =~= ts.subrange(i + 1, n as int));
            }
            let result = task();
            out.push(result);
            i = i + 1;
        }
        out
    }
}

} // verus!
