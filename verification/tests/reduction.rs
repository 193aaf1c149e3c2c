use gpu_reduction::config::{ConfigError, ReductionConfig};
use gpu_reduction::engine::reduce;
use gpu_reduction::host::{reduce_chunk, reduce_chunk_in, BufferPair, ChunkOutcome};
use gpu_reduction::partition::{chunk, chunk_range};
use gpu_reduction::sum::{cpu_reduction, result_difference};

fn counting(len: usize) -> Vec<u64> {
    let mut input: Vec<u64> = Vec::new();
    for i in 0..len {
        input.push(i as u64 + 1);
    }
    input
}

#[test]
fn sixteen_integers_in_four_chunks() {
    let input = counting(16);
    let config = ReductionConfig::new(16, 4, 4, 4).unwrap();
    let reduction = reduce(&input, &config, 4).unwrap();
    assert_eq!(reduction.partial_sums, vec![10, 26, 42, 58]);
    assert_eq!(reduction.final_result, 136);
    assert_eq!(reduction.final_result, cpu_reduction(&input));
}

#[test]
fn single_element_chunk_needs_no_pass() {
    let outcome = reduce_chunk(&[77], 4).unwrap();
    assert_eq!(outcome, ChunkOutcome { value: 77, passes: 0 });
    let outcome = reduce_chunk(&[u64::MAX], 1).unwrap();
    assert_eq!(outcome, ChunkOutcome { value: u64::MAX, passes: 0 });
}

#[test]
fn chunks_of_one_element_pass_the_input_through() {
    let input: Vec<u64> = vec![5, 0, 9, 12];
    let config = ReductionConfig::new(4, 1, 4, 256).unwrap();
    let reduction = reduce(&input, &config, 256).unwrap();
    assert_eq!(reduction.partial_sums, input);
    assert_eq!(reduction.final_result, 26);
}

#[test]
fn result_equals_sequential_sum() {
    for &(len, chunk_size, group_size) in
        &[(1usize, 1usize, 2u64), (12, 3, 2), (64, 16, 4), (100, 25, 7), (1000, 125, 3), (4096, 1024, 32)]
    {
        let input = counting(len);
        let config = ReductionConfig::new(len, chunk_size, len / chunk_size, group_size).unwrap();
        let reduction = reduce(&input, &config, group_size).unwrap();
        let expected = (len as u64) * (len as u64 + 1) / 2;
        assert_eq!(reduction.final_result, expected);
        assert_eq!(reduction.final_result, cpu_reduction(&input));
        assert_eq!(reduction.partial_sums.len(), len / chunk_size);
        assert_eq!(result_difference(cpu_reduction(&input), reduction.final_result), 0);
    }
}

#[test]
fn sums_wrap_around() {
    let input: Vec<u64> = vec![u64::MAX, 1, u64::MAX, 3];
    assert_eq!(cpu_reduction(&input), 2);
    let config = ReductionConfig::new(4, 2, 2, 2).unwrap();
    let reduction = reduce(&input, &config, 2).unwrap();
    assert_eq!(reduction.partial_sums, vec![0, 2]);
    assert_eq!(reduction.final_result, 2);
    let wide: Vec<u64> = vec![1 << 63, 1 << 63, 1 << 63, 7];
    assert_eq!(reduce_chunk(&wide, 2).unwrap().value, (1u64 << 63) + 7);
    assert_eq!(cpu_reduction(&wide), (1u64 << 63) + 7);
}

#[test]
fn empty_input_sums_to_zero() {
    assert_eq!(cpu_reduction(&[]), 0);
    let config = ReductionConfig::new(0, 8, 0, 4).unwrap();
    let reduction = reduce(&[], &config, 0).unwrap();
    assert!(reduction.partial_sums.is_empty());
    assert_eq!(reduction.final_result, 0);
}

#[test]
fn chunk_sum_does_not_depend_on_other_chunks() {
    let forward: Vec<u64> = vec![1, 2, 3, 4, 50, 60, 70, 80, 900, 1000, 1100, 1200];
    let shuffled: Vec<u64> = vec![900, 1000, 1100, 1200, 1, 2, 3, 4, 50, 60, 70, 80];
    let config = ReductionConfig::new(12, 4, 3, 2).unwrap();
    let a = reduce(&forward, &config, 2).unwrap();
    let b = reduce(&shuffled, &config, 2).unwrap();
    assert_eq!(a.partial_sums, vec![10, 260, 4200]);
    assert_eq!(b.partial_sums, vec![4200, 10, 260]);
    assert_eq!(a.final_result, b.final_result);
    for i in 0..3 {
        let alone = reduce_chunk(chunk(&forward, 4, i).unwrap(), 2).unwrap();
        assert_eq!(alone.value, a.partial_sums[i]);
    }
}

#[test]
fn reused_buffers_give_what_fresh_ones_give() {
    let first: Vec<u64> = vec![11, 22, 33, 44, 55, 66, 77];
    let second: Vec<u64> = vec![1000, 1, 1000, 1, 1000, 1, 1000];
    let mut pair = BufferPair::for_chunks(7, 3).unwrap();
    let reused_first = reduce_chunk_in(&mut pair, &first, 3).unwrap();
    let reused_second = reduce_chunk_in(&mut pair, &second, 3).unwrap();
    let reused_again = reduce_chunk_in(&mut pair, &first, 3).unwrap();
    assert_eq!(reused_first, reduce_chunk(&first, 3).unwrap());
    assert_eq!(reused_second, reduce_chunk(&second, 3).unwrap());
    assert_eq!(reused_again, reused_first);
    assert_eq!(reused_first.value, 308);
    assert_eq!(reused_second.value, 4003);
    assert_eq!(pair.primary.len(), 7);
    assert_eq!(pair.scratch.len(), 3);
}

#[test]
fn pair_that_is_too_small_is_left_alone() {
    let mut pair = BufferPair::with_capacity(4, 1);
    assert!(reduce_chunk_in(&mut pair, &[1, 2, 3, 4, 5], 4).is_none());
    assert!(reduce_chunk_in(&mut pair, &[1, 2, 3, 4], 2).is_none());
    assert_eq!(pair.primary.read(0), Some(0));
    assert_eq!(reduce_chunk_in(&mut pair, &[1, 2, 3, 4], 4).unwrap().value, 10);
}

#[test]
fn chunk_that_cannot_converge_is_refused() {
    assert!(reduce_chunk(&[], 4).is_none());
    assert!(reduce_chunk(&[1, 2], 1).is_none());
    assert!(reduce_chunk(&[1, 2], 0).is_none());
    assert!(reduce_chunk(&[1], 0).is_none());
}

#[test]
fn sizing_errors() {
    assert_eq!(ReductionConfig::new(16, 0, 4, 4), Err(ConfigError::EmptyChunk));
    assert_eq!(ReductionConfig::new(0, 0, 0, 4), Err(ConfigError::EmptyChunk));
    assert_eq!(ReductionConfig::new(17, 4, 4, 4), Err(ConfigError::UnevenLength));
    assert_eq!(ReductionConfig::new(16, 4, 5, 4), Err(ConfigError::ChunkCountMismatch));
    assert_eq!(ReductionConfig::new(16, 4, 3, 4), Err(ConfigError::ChunkCountMismatch));
    let config = ReductionConfig::new(16, 4, 4, 4).unwrap();
    assert_eq!(config.list_size, 16);
    assert_eq!(config.chunk_size, 4);
    assert_eq!(config.num_chunks, 4);
    assert_eq!(config.thread_group_size, 4);
    assert_eq!(config.validate(), Ok(()));
    let broken = ReductionConfig { list_size: 10, chunk_size: 4, num_chunks: 2, thread_group_size: 4 };
    assert_eq!(broken.validate(), Err(ConfigError::UnevenLength));
}

#[test]
fn run_errors() {
    let input = counting(16);
    let config = ReductionConfig::new(16, 4, 4, 4).unwrap();
    assert_eq!(reduce(&input[..15], &config, 4).unwrap_err(), ConfigError::InputLengthMismatch);
    assert_eq!(reduce(&input, &config, 1).unwrap_err(), ConfigError::GroupSizeTooSmall);
    assert_eq!(reduce(&input, &config, 0).unwrap_err(), ConfigError::GroupSizeTooSmall);
    let broken = ReductionConfig { list_size: 16, chunk_size: 5, num_chunks: 3, thread_group_size: 4 };
    assert_eq!(reduce(&input, &broken, 4).unwrap_err(), ConfigError::UnevenLength);
    let single = ReductionConfig::new(16, 1, 16, 1).unwrap();
    assert_eq!(reduce(&input, &single, 1).unwrap().final_result, 136);
    assert_eq!(reduce(&input, &single, 0).unwrap_err(), ConfigError::GroupSizeTooSmall);
}

#[test]
fn group_size_is_held_to_both_limits() {
    let config = ReductionConfig::new(16, 4, 4, 256).unwrap();
    assert_eq!(config.group_size(1024, 512), 256);
    assert_eq!(config.group_size(128, 512), 128);
    assert_eq!(config.group_size(1024, 64), 64);
    assert_eq!(config.group_size(32, 64), 32);
    assert_eq!(config.group_size(0, 64), 0);
}

#[test]
fn chunks_are_contiguous_and_in_order() {
    let input = counting(12);
    assert_eq!(chunk_range(12, 4, 0), Some((0, 4)));
    assert_eq!(chunk_range(12, 4, 1), Some((4, 8)));
    assert_eq!(chunk_range(12, 4, 2), Some((8, 12)));
    assert_eq!(chunk_range(12, 4, 3), None);
    assert_eq!(chunk_range(12, 0, 0), None);
    assert_eq!(chunk_range(12, 5, 2), None);
    assert_eq!(chunk_range(usize::MAX, 2, usize::MAX), None);
    assert_eq!(chunk(&input, 4, 1), Some(&input[4..8]));
    assert_eq!(chunk(&input, 4, 2), Some(&[9u64, 10, 11, 12][..]));
    assert_eq!(chunk(&input, 4, 3), None);
    assert_eq!(chunk(&input, 12, 0), Some(&input[..]));
}

#[test]
fn difference_of_results() {
    assert_eq!(result_difference(5, 5), 0);
    assert_eq!(result_difference(9, 5), 4);
    assert_eq!(result_difference(5, 9), 4);
    assert_eq!(result_difference(0, u64::MAX), u64::MAX);
}
