//! The whole reduction: every chunk in turn through one reused pair of
//! buffers, then the sum of the partial sums.

use vstd::prelude::*;
use crate::config::{sizing_error, ConfigError, ReductionConfig};
use crate::convergence::{can_converge, converged, lemma_converged_is_sum};
use crate::host::{reduce_chunk_in, BufferPair, ChunkOutcome};
use crate::partition::{
    chunk, chunk_of, chunk_sums, lemma_chunk_elements, lemma_chunk_in_range,
    lemma_chunk_sums_total,
};
use crate::sum::{cpu_reduction, wrapped_total};

verus! {

/// What a run gives: one partial sum for each chunk, in the chunks' order,
/// and their sum.
#[derive(Debug)]
pub struct Reduction {
    /// The partial sum of each chunk.
    pub partial_sums: Vec<u64>,
    /// The sum of the partial sums.
    pub final_result: u64,
}

/// Why a run is refused, if it is: a sizing error first, then an input of
/// another length than the configured one, then a group size with which the
/// chunks cannot converge. Without a chunk no group size is refused.
pub open spec fn reduction_error(
    input_len: int,
    config: ReductionConfig,
    g: int,
) -> Option<ConfigError> {
    match sizing_error(
        config.list_size as int,
        config.chunk_size as int,
        config.num_chunks as int,
    ) {
        Some(e) => Some(e),
        None => if input_len != config.list_size {
            Some(ConfigError::InputLengthMismatch)
        } else if config.num_chunks >= 1 && !can_converge(config.chunk_size as int, g) {
            Some(ConfigError::GroupSizeTooSmall)
        } else {
            None
        },
    }
}

/// The partial sums as the passes produce them: for each of the first
/// `count` chunks, the element that is left when the chunk has converged.
pub open spec fn converged_partials(
    input: Seq<u64>,
    chunk_size: int,
    g: int,
    count: nat,
) -> Seq<u64> {
    Seq::new(count, |i: int| converged(chunk_of(input, chunk_size, i), g)[0])
}

/// The result of the whole reduction is exact: chunk by chunk and pass by
/// pass it arrives at the sequential sum of the input, modulo 2^64.
pub proof fn lemma_reduction_exact(input: Seq<u64>, chunk_size: int, g: int, count: nat)
    requires
        can_converge(chunk_size, g),
        input.len() == count * chunk_size,
    ensures
        converged_partials(input, chunk_size, g, count) == chunk_sums(input, chunk_size, count),
        wrapped_total(converged_partials(input, chunk_size, g, count)) == wrapped_total(input),
{
    let partials = converged_partials(input, chunk_size, g, count);
    assert forall|i: int| 0 <= i < count implies partials[i] == chunk_sums(
        input,
        chunk_size,
        count,
    )[i] by {
        lemma_chunk_in_range(chunk_size, count as int, i);
        lemma_chunk_elements(input, chunk_size, i);
        lemma_converged_is_sum(chunk_of(input, chunk_size, i), g);
    }
    assert(partials =~= chunk_sums(input, chunk_size, count));
    lemma_chunk_sums_total(input, chunk_size, count);
    assert(input.take(count * chunk_size) =~= input);
}

/// A chunk's partial sum is that of its own elements alone: two inputs that
/// hold the same chunk, at whatever places and among whatever other chunks,
/// give it the same partial sum.
pub proof fn lemma_chunk_independence(
    first: Seq<u64>,
    second: Seq<u64>,
    chunk_size: int,
    g: int,
    first_count: nat,
    second_count: nat,
    i: int,
    j: int,
)
    requires
        0 <= i < first_count,
        0 <= j < second_count,
        chunk_of(first, chunk_size, i) == chunk_of(second, chunk_size, j),
    ensures
        converged_partials(first, chunk_size, g, first_count)[i] == converged_partials(
            second,
            chunk_size,
            g,
            second_count,
        )[j],
        chunk_sums(first, chunk_size, first_count)[i] == chunk_sums(
            second,
            chunk_size,
            second_count,
        )[j],
{
}

/// Reduces `input`: cuts it into the configured chunks, reduces each chunk
/// with passes of group size `group_size` in one reused pair of buffers, and
/// adds the partial sums up.
pub fn reduce(
    input: &[u64],
    config: &ReductionConfig,
    group_size: u64,
) -> (outcome: Result<Reduction, ConfigError>)
    ensures
        match outcome {
            Ok(reduction) => {
                &&& reduction_error(input@.len() as int, *config, group_size as int).is_none()
                &&& reduction.partial_sums@ == chunk_sums(
                    input@,
                    config.chunk_size as int,
                    config.num_chunks as nat,
                )
                &&& reduction.final_result == wrapped_total(reduction.partial_sums@)
                &&& reduction.final_result == wrapped_total(input@)
            },
            Err(e) => reduction_error(input@.len() as int, *config, group_size as int) == Some(e),
        },
{
    match config.validate() {
        Ok(()) => {},
        Err(e) => {
            return Err(e);
        },
    }
    if input.len() != config.list_size {
        return Err(ConfigError::InputLengthMismatch);
    }
    let chunk_size: usize = config.chunk_size;
    let num_chunks: usize = config.num_chunks;
    let mut partial_sums: Vec<u64> = Vec::new();
    if num_chunks >= 1 {
        if group_size == 0 || (chunk_size > 1 && group_size < 2) {
            return Err(ConfigError::GroupSizeTooSmall);
        }
        let mut pair: BufferPair = BufferPair::for_chunks(chunk_size, group_size).unwrap();
        let mut index: usize = 0;
        while index < num_chunks
            invariant
                index <= num_chunks,
                chunk_size >= 1,
                num_chunks * chunk_size == input@.len(),
                can_converge(chunk_size as int, group_size as int),
                pair.holds(chunk_size as int, group_size as int),
                partial_sums@ == chunk_sums(input@, chunk_size as int, index as nat),
            decreases num_chunks - index,
        {
            proof {
                lemma_chunk_in_range(chunk_size as int, num_chunks as int, index as int);
                lemma_chunk_elements(input@, chunk_size as int, index as int);
            }
            let part: &[u64] = chunk(input, chunk_size, index).unwrap();
            let outcome: ChunkOutcome = reduce_chunk_in(&mut pair, part, group_size).unwrap();
            partial_sums.push(outcome.value);
            index = index + 1;
            assert(partial_sums@ =~= chunk_sums(input@, chunk_size as int, index as nat));
        }
    }
    assert(partial_sums@ =~= chunk_sums(input@, chunk_size as int, num_chunks as nat));
    proof {
        lemma_chunk_sums_total(input@, chunk_size as int, num_chunks as nat);
        assert(input@.take(num_chunks * chunk_size) =~= input@);
    }
    let final_result: u64 = cpu_reduction(partial_sums.as_slice());
    Ok(Reduction { partial_sums, final_result })
}

} // verus!
