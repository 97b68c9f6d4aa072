//! The byte layout of a function: its name, then its inputs, instructions
//! and outputs, each list after its count.
use vstd::prelude::*;

verus! {

/// Why a function cannot be written as bytes.
#[derive(Clone, Copy, Debug, PartialEq, Eq, Structural)]
pub enum WriteError {
    /// The name, of this many bytes, is longer than allowed.
    NameTooLong(usize),
    /// There are this many inputs, more than allowed.
    TooManyInputs(usize),
    /// There are this many instructions, more than allowed.
    TooManyInstructions(usize),
    /// There are this many outputs, more than allowed.
    TooManyOutputs(usize),
}

/// The four little-endian bytes of `n` taken as a `u32` (its low 32 bits).
pub open spec fn u32_le(n: nat) -> Seq<u8> {
    let m = n % 0x1_0000_0000;
    seq![(m % 256) as u8, ((m / 0x100) % 256) as u8, ((m / 0x1_0000) % 256) as u8, ((m / 0x100_0000) % 256) as u8]
}

/// The byte strings of a list of parts.
pub open spec fn part_views(parts: Seq<Vec<u8>>) -> Seq<Seq<u8>> {
    parts.map_values(|p: Vec<u8>| p@)
}

/// Byte strings laid one after the other.
pub open spec fn concat(parts: Seq<Seq<u8>>) -> Seq<u8>
    decreases parts.len(),
{
    if parts.len() == 0 {
        Seq::empty()
    } else {
        concat(parts.drop_last()) + parts.last()
    }
}

/// A list of parts: its count as a `u32`, then each part.
pub open spec fn counted(parts: Seq<Seq<u8>>) -> Seq<u8> {
    u32_le(parts.len()) + concat(parts)
}

/// The bytes of a function with the given name and encoded parts, where at
/// most `max_name` name bytes and at most `max_parts` parts of each kind are
/// allowed: the name's length in one byte, the name, then the inputs, the
/// instructions and the outputs, each counted. Limits are checked in that
/// order, and the first that is passed gives the error.
pub open spec fn function_bytes_spec(
    name: Seq<u8>,
    inputs: Seq<Seq<u8>>,
    instructions: Seq<Seq<u8>>,
    outputs: Seq<Seq<u8>>,
    max_name: usize,
    max_parts: usize,
) -> Result<Seq<u8>, WriteError> {
    if name.len() > max_name {
        Err(WriteError::NameTooLong(name.len() as usize))
    } else if inputs.len() > max_parts {
        Err(WriteError::TooManyInputs(inputs.len() as usize))
    } else if instructions.len() > max_parts {
        Err(WriteError::TooManyInstructions(instructions.len() as usize))
    } else if outputs.len() > max_parts {
        Err(WriteError::TooManyOutputs(outputs.len() as usize))
    } else {
        Ok(
            seq![(name.len() % 256) as u8] + name + counted(inputs) + counted(instructions) + counted(
                outputs,
            ),
        )
    }
}

/// Appends the four little-endian bytes of `n` taken as a `u32`.
fn push_u32_le(out: &mut Vec<u8>, n: usize)
    ensures
        final(out)@ == old(out)@ + u32_le(n as nat),
{
    let m: u64 = (n as u64) % 0x1_0000_0000;
    out.push((m % 256) as u8);
    out.push(((m / 0x100) % 256) as u8);
    out.push(((m / 0x1_0000) % 256) as u8);
    out.push(((m / 0x100_0000) % 256) as u8);
    proof {
        assert(final(out)@ =~= old(out)@ + u32_le(n as nat));
    }
}

/// Appends a list of parts after its count.
fn push_counted(out: &mut Vec<u8>, parts: &Vec<Vec<u8>>)
    ensures
        final(out)@ == old(out)@ + counted(part_views(parts@)),
{
    push_u32_le(out, parts.len());
    let ghost start = out@;
    let mut k: usize = 0;
    proof {
        assert(part_views(parts@).subrange(0, 0) =~= Seq::<Seq<u8>>::empty());
        assert(out@ =~= start + concat(part_views(parts@).subrange(0, 0)));
    }
    while k < parts.len()
        invariant
            k <= parts@.len(),
            out@ == start + concat(part_views(parts@).subrange(0, k as int)),
        decreases parts@.len() - k,
    {
        let part = &parts[k];
        let mut j: usize = 0;
        let ghost before = out@;
        while j < part.len()
            invariant
                j <= part@.len(),
                out@ == before + part@.subrange(0, j as int),
            decreases part@.len() - j,
        {
            out.push(part[j]);
            j = j + 1;
            proof {
                assert(out@ =~= before + part@.subrange(0, j as int));
            }
        }
        proof {
            let pv = part_views(parts@);
            assert(pv.subrange(0, k + 1).drop_last() =~= pv.subrange(0, k as int));
            assert(pv.subrange(0, k + 1).last() == part@);
            assert(part@.subrange(0, j as int) =~= part@);
            assert(out@ =~= start + concat(pv.subrange(0, k + 1)));
        }
        k = k + 1;
    }
    proof {
        assert(part_views(parts@).subrange(0, k as int) =~= part_views(parts@));
        assert(part_views(parts@).len() == parts@.len());
        assert(final(out)@ =~= old(out)@ + counted(part_views(parts@)));
    }
}

/// Writes a function as bytes: the length of its name in one byte, the name,
/// then its inputs, instructions and outputs, each list as a little-endian
/// `u32` count followed by its parts. A name longer than `max_name` bytes, or
/// more than `max_parts` parts of one kind, gives the error of the first
/// limit passed, in that order.
pub fn function_bytes(
    name: &Vec<u8>,
    inputs: &Vec<Vec<u8>>,
    instructions: &Vec<Vec<u8>>,
    outputs: &Vec<Vec<u8>>,
    max_name: usize,
    max_parts: usize,
) -> (r: Result<Vec<u8>, WriteError>)
    ensures
        match r {
            Ok(bytes) => function_bytes_spec(
                name@,
                part_views(inputs@),
                part_views(instructions@),
                part_views(outputs@),
                max_name,
                max_parts,
            ) == Ok::<Seq<u8>, WriteError>(bytes@),
            Err(e) => function_bytes_spec(
                name@,
                part_views(inputs@),
                part_views(instructions@),
                part_views(outputs@),
                max_name,
                max_parts,
            ) == Err::<Seq<u8>, WriteError>(e),
        },
{
    if name.len() > max_name {
        return Err(WriteError::NameTooLong(name.len()));
    }
    if inputs.len() > max_parts {
        return Err(WriteError::TooManyInputs(inputs.len()));
    }
    if instructions.len() > max_parts {
        return Err(WriteError::TooManyInstructions(instructions.len()));
    }
    if outputs.len() > max_parts {
        return Err(WriteError::TooManyOutputs(outputs.len()));
    }
    let mut out: Vec<u8> = Vec::new();
    out.push((name.len() % 256) as u8);
    let mut j: usize = 0;
    while j < name.len()
        invariant
            j <= name@.len(),
            out@ == seq![(name@.len() % 256) as u8] + name@.subrange(0, j as int),
        decreases name@.len() - j,
    {
        out.push(name[j]);
        j = j + 1;
        proof {
            assert(out@ =~= seq![(name@.len() % 256) as u8] + name@.subrange(0, j as int));
        }
    }
    proof {
        assert(name@.subrange(0, j as int) =~= name@);
    }
    push_counted(&mut out, inputs);
    push_counted(&mut out, instructions);
    push_counted(&mut out, outputs);
    proof {
        assert(part_views(inputs@).len() == inputs@.len());
        assert(part_views(instructions@).len() == instructions@.len());
        assert(part_views(outputs@).len() == outputs@.len());
    }
    Ok(out)
}

} // verus!
