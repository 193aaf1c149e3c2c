//! The reduction of one chunk on the host: the convergence loop, run over a
//! pair of buffers with the kernel executed in software.

use vstd::prelude::*;
use crate::buffer::{Slot, TypedBuffer};
use crate::convergence::{can_converge, passes_needed};
use crate::kernel::{pass_fits, tree_reduction_pass};
use crate::pass::{
    ceil_div, group_count, lemma_group_count_bounds, lemma_group_count_ordered,
    lemma_pass_preserves_sum, pass_output, zeros, PassDescriptor,
};
use crate::reducer::{
    lemma_after_pass_valid, lemma_converged_after_needed_passes, ChunkReducer, ReducerState,
};
use crate::sum::{lemma_total_single, wrapped_total};

verus! {

/// The two buffers that the passes of a chunk alternate between.
#[derive(Debug)]
pub struct BufferPair {
    /// Receives each chunk's data; as long as its chunks.
    pub primary: TypedBuffer,
    /// Receives the first pass's group sums; holds a slot for each of them.
    pub scratch: TypedBuffer,
}

/// What the reduction of one chunk gives.
#[derive(Clone, Copy, Debug, PartialEq, Eq, Structural)]
pub struct ChunkOutcome {
    /// The chunk's partial sum.
    pub value: u64,
    /// The number of passes that were run.
    pub passes: u64,
}

/// The outcome of reducing `chunk` in groups of `g`: its wrapped sum, after
/// as many passes as its length needs; nothing where it cannot converge.
pub open spec fn chunk_outcome(chunk: Seq<u64>, g: int) -> Option<ChunkOutcome> {
    if can_converge(chunk.len() as int, g) {
        Some(
            ChunkOutcome {
                value: wrapped_total(chunk),
                passes: passes_needed(chunk.len() as int, g) as u64,
            },
        )
    } else {
        None
    }
}

impl BufferPair {
    /// The buffer in place `slot`.
    pub open spec fn buffer(&self, slot: Slot) -> TypedBuffer {
        match slot {
            Slot::Primary => self.primary,
            Slot::Scratch => self.scratch,
        }
    }

    /// Whether the pair can take chunks of `chunk_len` elements in groups of
    /// `g`: the primary buffer holds a chunk, the scratch buffer the group
    /// sums of the first pass.
    pub open spec fn holds(&self, chunk_len: int, g: int) -> bool {
        &&& chunk_len <= self.primary@.len()
        &&& group_count(chunk_len, g) <= self.scratch@.len()
    }

    /// A pair of zeroed buffers of these lengths.
    pub fn with_capacity(primary_len: usize, scratch_len: usize) -> (pair: BufferPair)
        ensures
            pair.primary@ == zeros(primary_len as nat),
            pair.scratch@ == zeros(scratch_len as nat),
    {
        BufferPair {
            primary: TypedBuffer::zeroed(primary_len),
            scratch: TypedBuffer::zeroed(scratch_len),
        }
    }

    /// A pair of zeroed buffers for chunks of `chunk_size` elements in groups
    /// of `group_size`: `chunk_size` elements and `ceil(chunk_size /
    /// group_size)` elements. `None` where the group size is zero.
    pub fn for_chunks(chunk_size: usize, group_size: u64) -> (pair: Option<BufferPair>)
        ensures
            pair.is_some() <==> group_size >= 1,
            pair matches Some(p) ==> p.primary@ == zeros(chunk_size as nat) && p.scratch@ == zeros(
                group_count(chunk_size as int, group_size as int) as nat,
            ) && p.holds(chunk_size as int, group_size as int),
    {
        if group_size == 0 {
            return None;
        }
        proof {
            lemma_group_count_bounds(chunk_size as int, group_size as int);
        }
        let groups: u64 = ceil_div(chunk_size as u64, group_size);
        Some(BufferPair::with_capacity(chunk_size, groups as usize))
    }

    /// The buffer in place `slot`.
    pub fn get(&self, slot: Slot) -> (buffer: &TypedBuffer)
        ensures
            *buffer == self.buffer(slot),
    {
        match slot {
            Slot::Primary => &self.primary,
            Slot::Scratch => &self.scratch,
        }
    }

    /// Runs one pass from the buffer in `input_slot` to the other one: sets
    /// the output's first `num_groups` slots to zero, then lets the kernel
    /// write the group sums there. Returns `false`, with both buffers
    /// unchanged, where the pass does not fit them.
    pub fn run_pass(&mut self, input_slot: Slot, pass: &PassDescriptor) -> (executed: bool)
        ensures
            executed <==> pass_fits(
                *pass,
                old(self).buffer(input_slot)@.len() as int,
                old(self).buffer(input_slot.other())@.len() as int,
            ),
            final(self).buffer(input_slot)@ == old(self).buffer(input_slot)@,
            executed ==> final(self).buffer(input_slot.other())@ == pass_output(
                old(self).buffer(input_slot)@.take(pass.num_elements as int),
                pass.group_size as int,
            ) + old(self).buffer(input_slot.other())@.skip(pass.num_groups as int),
            !executed ==> final(self).buffer(input_slot.other())@ == old(self).buffer(
                input_slot.other(),
            )@,
    {
        let input_len: usize = self.get(input_slot).len();
        let output_len: usize = self.get(input_slot.flipped()).len();
        if !pass.is_valid() || pass.num_elements > input_len as u64 || pass.num_groups
            > output_len as u64 {
            return false;
        }
        let groups: usize = pass.num_groups as usize;
        let ghost before = old(self).buffer(input_slot.other())@;
        match input_slot {
            Slot::Primary => {
                let filled: bool = self.scratch.zero_fill(groups);
                let executed: bool = tree_reduction_pass(&self.primary, &mut self.scratch, pass);
                assert(filled && executed);
            },
            Slot::Scratch => {
                let filled: bool = self.primary.zero_fill(groups);
                let executed: bool = tree_reduction_pass(&self.scratch, &mut self.primary, pass);
                assert(filled && executed);
            },
        }
        assert((zeros(groups as nat) + before.skip(groups as int)).skip(groups as int)
            =~= before.skip(groups as int));
        true
    }
}

/// Reduces `chunk` to its partial sum in the buffers of `pair`, whatever
/// they held before: loads the chunk into the primary buffer and runs passes
/// with group size `group_size` until one element is left. Returns `None`
/// where the chunk cannot converge or the pair cannot take it; the pair then
/// stays as it was. The buffers keep their lengths.
pub fn reduce_chunk_in(
    pair: &mut BufferPair,
    chunk: &[u64],
    group_size: u64,
) -> (outcome: Option<ChunkOutcome>)
    ensures
        old(pair).holds(chunk@.len() as int, group_size as int) ==> outcome == chunk_outcome(
            chunk@,
            group_size as int,
        ),
        !old(pair).holds(chunk@.len() as int, group_size as int) ==> outcome.is_none(),
        outcome.is_none() ==> final(pair).primary@ == old(pair).primary@ && final(pair).scratch@
            == old(pair).scratch@,
        final(pair).primary@.len() == old(pair).primary@.len(),
        final(pair).scratch@.len() == old(pair).scratch@.len(),
{
    let chunk_len: usize = chunk.len();
    if group_size == 0 || chunk_len > pair.primary.len() || ceil_div(chunk_len as u64, group_size)
        > pair.scratch.len() as u64 {
        return None;
    }
    let mut reducer: ChunkReducer = match ChunkReducer::new(chunk_len as u64, group_size) {
        Some(reducer) => reducer,
        None => {
            return None;
        },
    };
    let loaded: bool = pair.primary.load(chunk);
    assert(loaded);
    assert(pair.primary@.take(chunk_len as int) =~= chunk@);
    while !reducer.is_converged()
        invariant
            reducer@.valid(),
            reducer@.chunk_size == chunk@.len(),
            reducer@.group_size == group_size,
            pair.primary@.len() == old(pair).primary@.len(),
            pair.scratch@.len() == old(pair).scratch@.len(),
            old(pair).holds(chunk@.len() as int, group_size as int),
            reducer@.passes >= 1 ==> reducer@.remaining <= group_count(
                chunk@.len() as int,
                group_size as int,
            ),
            wrapped_total(pair.buffer(reducer@.input_slot)@.take(reducer@.remaining))
                == wrapped_total(chunk@),
        decreases reducer@.remaining,
    {
        let ghost state: ReducerState = reducer@;
        let ghost live = pair.buffer(state.input_slot)@.take(state.remaining);
        let input_slot: Slot = reducer.input_slot();
        proof {
            lemma_after_pass_valid(state);
            lemma_converged_after_needed_passes(state);
            lemma_group_count_bounds(state.remaining, group_size as int);
            lemma_group_count_ordered(state.remaining, chunk@.len() as int, group_size as int);
            lemma_pass_preserves_sum(live, group_size as int);
        }
        let pass: PassDescriptor = reducer.next_pass().unwrap();
        let executed: bool = pair.run_pass(input_slot, &pass);
        assert(executed);
        reducer.pass_completed();
        assert(pair.buffer(reducer@.input_slot)@.take(reducer@.remaining) =~= pass_output(
            live,
            group_size as int,
        ));
    }
    proof {
        lemma_after_pass_valid(reducer@);
        lemma_converged_after_needed_passes(reducer@);
        lemma_total_single(pair.buffer(reducer@.input_slot)@.take(1));
    }
    let value: u64 = pair.get(reducer.input_slot()).read(0).unwrap();
    Some(ChunkOutcome { value, passes: reducer.passes() })
}

/// Reduces `chunk` to its partial sum in a pair of buffers of its own.
pub fn reduce_chunk(chunk: &[u64], group_size: u64) -> (outcome: Option<ChunkOutcome>)
    ensures
        outcome == chunk_outcome(chunk@, group_size as int),
{
    match BufferPair::for_chunks(chunk.len(), group_size) {
        Some(pair) => {
            let mut pair = pair;
            reduce_chunk_in(&mut pair, chunk, group_size)
        },
        None => None,
    }
}

} // verus!
