//! The convergence loop of one chunk as a state machine: which pass to
//! dispatch next, and what a completed pass changes.

use vstd::prelude::*;
use crate::buffer::Slot;
use crate::convergence::{
    can_converge, lemma_passes_needed_below, lemma_remaining_after, passes_needed, remaining_after,
};
use crate::pass::{group_count, lemma_group_count_bounds, PassDescriptor};

verus! {

/// The place that holds a chunk's live elements after `passes` passes: the
/// chunk arrives in the primary buffer, and each pass writes to the other one.
pub open spec fn slot_after(passes: nat) -> Slot {
    if passes % 2 == 0 {
        Slot::Primary
    } else {
        Slot::Scratch
    }
}

/// The state of one chunk's reduction.
pub struct ReducerState {
    /// The number of elements the chunk arrived with.
    pub chunk_size: int,
    /// The number of threads of one group.
    pub group_size: int,
    /// The number of live elements, `N`.
    pub remaining: int,
    /// The number of passes that have completed.
    pub passes: nat,
    /// The buffer that holds the live elements.
    pub input_slot: Slot,
}

impl ReducerState {
    /// The state in which a chunk arrives.
    pub open spec fn initial(chunk_size: int, group_size: int) -> ReducerState {
        ReducerState {
            chunk_size,
            group_size,
            remaining: chunk_size,
            passes: 0,
            input_slot: Slot::Primary,
        }
    }

    /// No pass is left to run.
    pub open spec fn converged(self) -> bool {
        self.remaining <= 1
    }

    /// The buffer that the next pass writes to.
    pub open spec fn output_slot(self) -> Slot {
        self.input_slot.other()
    }

    /// The state once the pending pass has completed: its group count is the
    /// new element count, and the two buffers have changed roles. A converged
    /// state stays as it is.
    pub open spec fn after_pass(self) -> ReducerState {
        if self.converged() {
            self
        } else {
            ReducerState {
                remaining: group_count(self.remaining, self.group_size),
                passes: self.passes + 1,
                input_slot: self.input_slot.other(),
                ..self
            }
        }
    }

    /// The state is one that a chunk's reduction passes through: it is what
    /// `passes` passes make of the initial state.
    pub open spec fn valid(self) -> bool {
        &&& can_converge(self.chunk_size, self.group_size)
        &&& self.passes <= passes_needed(self.chunk_size, self.group_size)
        &&& self.remaining == remaining_after(self.chunk_size, self.group_size, self.passes)
        &&& self.input_slot == slot_after(self.passes)
    }
}

/// The initial state of a chunk that can converge is valid.
pub proof fn lemma_initial_valid(chunk_size: int, group_size: int)
    requires
        can_converge(chunk_size, group_size),
    ensures
        ReducerState::initial(chunk_size, group_size).valid(),
{
}

/// A completed pass leaves a valid state, with at least one element and, if
/// the pass ran, with fewer elements than before.
pub proof fn lemma_after_pass_valid(state: ReducerState)
    requires
        state.valid(),
    ensures
        state.after_pass().valid(),
        1 <= state.after_pass().remaining <= state.remaining <= state.chunk_size,
        !state.converged() ==> state.after_pass().remaining < state.remaining,
{
    lemma_remaining_after(state.chunk_size, state.group_size, state.passes);
    if !state.converged() {
        lemma_group_count_bounds(state.remaining, state.group_size);
        lemma_remaining_after(state.chunk_size, state.group_size, state.passes + 1);
    }
}

/// A valid state has converged exactly when the passes that the chunk needs
/// have all completed, and until then that many are still to come.
pub proof fn lemma_converged_after_needed_passes(state: ReducerState)
    requires
        state.valid(),
    ensures
        state.converged() <==> state.passes == passes_needed(state.chunk_size, state.group_size),
        state.passes + passes_needed(state.remaining, state.group_size) == passes_needed(
            state.chunk_size,
            state.group_size,
        ),
        state.passes < state.chunk_size,
{
    lemma_remaining_after(state.chunk_size, state.group_size, state.passes);
    lemma_passes_needed_below(state.chunk_size, state.group_size);
}

/// What the convergence loop knows between two passes.
#[derive(Debug)]
pub struct ChunkReducer {
    chunk_size: u64,
    group_size: u64,
    remaining: u64,
    passes: u64,
    input_slot: Slot,
}

impl View for ChunkReducer {
    type V = ReducerState;

    closed spec fn view(&self) -> ReducerState {
        ReducerState {
            chunk_size: self.chunk_size as int,
            group_size: self.group_size as int,
            remaining: self.remaining as int,
            passes: self.passes as nat,
            input_slot: self.input_slot,
        }
    }
}

impl ChunkReducer {
    #[verifier::type_invariant]
    spec fn well_formed(self) -> bool {
        self@.valid()
    }

    /// The reducer of a chunk of `chunk_size` elements in groups of
    /// `group_size`, or `None` where such a chunk cannot converge: where it
    /// is empty, the group size is zero, or more than one element meets a
    /// group size of one.
    pub fn new(chunk_size: u64, group_size: u64) -> (reducer: Option<ChunkReducer>)
        ensures
            reducer.is_some() <==> can_converge(chunk_size as int, group_size as int),
            reducer matches Some(r) ==> r@ == ReducerState::initial(
                chunk_size as int,
                group_size as int,
            ) && r@.valid(),
    {
        if chunk_size == 0 || group_size == 0 || (chunk_size > 1 && group_size < 2) {
            None
        } else {
            Some(
                ChunkReducer {
                    chunk_size,
                    group_size,
                    remaining: chunk_size,
                    passes: 0,
                    input_slot: Slot::Primary,
                },
            )
        }
    }

    /// Whether one element is left.
    pub fn is_converged(&self) -> (converged: bool)
        ensures
            converged == self@.converged(),
            self@.valid(),
    {
        proof {
            use_type_invariant(self);
        }
        self.remaining <= 1
    }

    /// The pass to dispatch next, over the live elements, or `None` once the
    /// chunk has converged.
    pub fn next_pass(&self) -> (pass: Option<PassDescriptor>)
        ensures
            self@.valid(),
            self@.converged() <==> pass.is_none(),
            pass matches Some(p) ==> p.valid() && p.num_elements == self@.remaining && p.group_size
                == self@.group_size && p.num_groups == self@.after_pass().remaining,
    {
        proof {
            use_type_invariant(self);
            lemma_after_pass_valid(self@);
        }
        if self.remaining <= 1 {
            None
        } else {
            Some(PassDescriptor::plan(self.remaining, self.group_size))
        }
    }

    /// Records that the pending pass has completed. Does nothing once the
    /// chunk has converged.
    pub fn pass_completed(&mut self)
        ensures
            final(self)@ == old(self)@.after_pass(),
            final(self)@.valid(),
    {
        proof {
            use_type_invariant(&*self);
            lemma_after_pass_valid(self@);
            lemma_converged_after_needed_passes(self@);
        }
        if self.remaining > 1 {
            let pass = PassDescriptor::plan(self.remaining, self.group_size);
            *self = ChunkReducer {
                chunk_size: self.chunk_size,
                group_size: self.group_size,
                remaining: pass.num_groups,
                passes: self.passes + 1,
                input_slot: self.input_slot.flipped(),
            };
        }
    }

    /// The number of elements the chunk arrived with.
    pub fn chunk_size(&self) -> (chunk_size: u64)
        ensures
            chunk_size == self@.chunk_size,
    {
        self.chunk_size
    }

    /// The number of threads of one group.
    pub fn group_size(&self) -> (group_size: u64)
        ensures
            group_size == self@.group_size,
    {
        self.group_size
    }

    /// The number of live elements.
    pub fn remaining(&self) -> (remaining: u64)
        ensures
            remaining == self@.remaining,
    {
        self.remaining
    }

    /// The number of passes that have completed.
    pub fn passes(&self) -> (passes: u64)
        ensures
            passes == self@.passes,
    {
        self.passes
    }

    /// The buffer that holds the live elements: the next pass reads it, and
    /// after convergence its first element is the chunk's result.
    pub fn input_slot(&self) -> (slot: Slot)
        ensures
            slot == self@.input_slot,
    {
        self.input_slot
    }

    /// The buffer that the next pass writes to.
    pub fn output_slot(&self) -> (slot: Slot)
        ensures
            slot == self@.output_slot(),
    {
        self.input_slot.flipped()
    }
}

} // verus!
