//! The mode of a circuit value and how modes combine.
use vstd::prelude::*;

verus! {

/// The visibility of a circuit value.
#[derive(Clone, Copy, Debug, PartialEq, Eq, Structural)]
pub enum Mode {
    Constant,
    Public,
    Private,
}

/// The rank of a mode: constants below public values below private values.
pub open spec fn mode_rank(m: Mode) -> nat {
    match m {
        Mode::Constant => 0,
        Mode::Public => 1,
        Mode::Private => 2,
    }
}

/// The more hidden of two modes.
pub open spec fn join_mode(a: Mode, b: Mode) -> Mode {
    if mode_rank(a) >= mode_rank(b) { a } else { b }
}

/// The mode of a non-empty list of modes: the join of all of them, left to right.
pub open spec fn joined_mode(modes: Seq<Mode>) -> Mode
    decreases modes.len(),
{
    if modes.len() <= 1 {
        modes[0]
    } else {
        join_mode(joined_mode(modes.drop_last()), modes.last())
    }
}

impl Mode {
    /// Returns `true` if the mode is a constant.
    pub fn is_constant(&self) -> (b: bool)
        ensures b == (*self == Mode::Constant),
    {
        matches!(self, Mode::Constant)
    }

    /// Returns `true` if the mode is public.
    pub fn is_public(&self) -> (b: bool)
        ensures b == (*self == Mode::Public),
    {
        matches!(self, Mode::Public)
    }

    /// Returns `true` if the mode is private.
    pub fn is_private(&self) -> (b: bool)
        ensures b == (*self == Mode::Private),
    {
        matches!(self, Mode::Private)
    }
}

/// Deduces the mode of a list of circuit values from their individual modes:
/// a private value makes the whole private, else a public value makes it public.
pub fn eject_mode(modes: &[Mode]) -> (m: Mode)
    requires
        modes@.len() > 0,
    ensures
        m == joined_mode(modes@),
        forall|i: int| 0 <= i < modes@.len() ==> mode_rank(modes@[i]) <= mode_rank(m),
        exists|i: int| 0 <= i < modes@.len() && modes@[i] == m,
{
    let mut current_mode = modes[0];
    let mut i: usize = 1;
    assert(modes@.subrange(0, 1).drop_last() =~= Seq::<Mode>::empty());
    while i < modes.len()
        invariant
            1 <= i <= modes@.len(),
            current_mode == joined_mode(modes@.subrange(0, i as int)),
            forall|j: int| 0 <= j < i ==> mode_rank(modes@[j]) <= mode_rank(current_mode),
            exists|j: int| 0 <= j < i && modes@[j] == current_mode,
        decreases modes@.len() - i,
    {
        let bit_mode = modes[i];
        if !current_mode.is_private() && current_mode != bit_mode {
            match (current_mode, bit_mode) {
                (Mode::Constant, Mode::Public)
                | (Mode::Constant, Mode::Private)
                | (Mode::Public, Mode::Private) => current_mode = bit_mode,
                (_, _) => {},
            }
        }
        assert(modes@.subrange(0, i + 1).drop_last() =~= modes@.subrange(0, i as int));
        i = i + 1;
    }
    assert(modes@.subrange(0, modes@.len() as int) =~= modes@);
    current_mode
}

} // verus!
