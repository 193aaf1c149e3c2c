use gpu_reduction::buffer::{Slot, TypedBuffer};
use gpu_reduction::host::{reduce_chunk, BufferPair};
use gpu_reduction::kernel::tree_reduction_pass;
use gpu_reduction::pass::{byte_length, ceil_div, effective_group_size, PassDescriptor};
use gpu_reduction::reducer::ChunkReducer;

fn contents(buffer: &TypedBuffer) -> Vec<u64> {
    let mut out: Vec<u64> = Vec::new();
    for i in 0..buffer.len() {
        out.push(buffer.read(i).unwrap());
    }
    out
}

fn passes_for(chunk_size: usize, group_size: u64) -> u64 {
    let chunk: Vec<u64> = vec![1; chunk_size];
    let outcome = reduce_chunk(&chunk, group_size).unwrap();
    assert_eq!(outcome.value, chunk_size as u64);
    outcome.passes
}

#[test]
fn group_counts() {
    assert_eq!(ceil_div(0, 4), 0);
    assert_eq!(ceil_div(1, 4), 1);
    assert_eq!(ceil_div(4, 4), 1);
    assert_eq!(ceil_div(5, 4), 2);
    assert_eq!(ceil_div(16, 4), 4);
    assert_eq!(ceil_div(17, 1), 17);
    assert_eq!(ceil_div(u64::MAX, 2), 1 << 63);
    assert_eq!(ceil_div(u64::MAX, u64::MAX), 1);
    assert_eq!(ceil_div(u64::MAX - 1, u64::MAX), 1);
}

#[test]
fn pass_descriptor_numbers() {
    let pass = PassDescriptor::plan(1000, 256);
    assert_eq!(pass, PassDescriptor { num_elements: 1000, group_size: 256, num_groups: 4 });
    assert!(pass.is_valid());
    assert_eq!(pass.grid_width(), Some(1024));
    assert_eq!(pass.scratch_bytes(), Some(2048));
    let stale = PassDescriptor { num_elements: 1000, group_size: 256, num_groups: 3 };
    assert!(!stale.is_valid());
    let no_group = PassDescriptor { num_elements: 0, group_size: 0, num_groups: 0 };
    assert!(!no_group.is_valid());
    let huge = PassDescriptor { num_elements: u64::MAX, group_size: 1 << 62, num_groups: 4 };
    assert!(huge.is_valid());
    assert_eq!(huge.grid_width(), None);
    assert_eq!(huge.scratch_bytes(), None);
}

#[test]
fn byte_lengths() {
    assert_eq!(byte_length(0), Some(0));
    assert_eq!(byte_length(4), Some(32));
    assert_eq!(byte_length(u64::MAX / 8), Some(u64::MAX - 7));
    assert_eq!(byte_length(u64::MAX / 8 + 1), None);
}

#[test]
fn stricter_bound_governs() {
    assert_eq!(effective_group_size(256, 1024, 512), 256);
    assert_eq!(effective_group_size(2048, 1024, 512), 512);
    assert_eq!(effective_group_size(2048, 256, 512), 256);
    assert_eq!(effective_group_size(7, 7, 7), 7);
}

#[test]
fn pass_writes_one_sum_for_each_group() {
    let input = TypedBuffer::from_slice(&[1, 2, 3, 4, 5, 6, 7, 8, 9, 10]);
    let mut output = TypedBuffer::from_slice(&[99, 99, 99, 99, 99]);
    let pass = PassDescriptor::plan(10, 4);
    assert!(tree_reduction_pass(&input, &mut output, &pass));
    assert_eq!(contents(&output), vec![10, 26, 19, 99, 99]);
    assert_eq!(contents(&input), vec![1, 2, 3, 4, 5, 6, 7, 8, 9, 10]);
}

#[test]
fn pass_reads_live_elements_only() {
    let input = TypedBuffer::from_slice(&[1, 2, 3, 4, 5, 6, 7, 8, 9, 10]);
    let mut output = TypedBuffer::zeroed(3);
    let pass = PassDescriptor::plan(6, 4);
    assert!(tree_reduction_pass(&input, &mut output, &pass));
    assert_eq!(contents(&output), vec![10, 11, 0]);
}

#[test]
fn short_last_group_sums_as_if_padded_with_zeros() {
    let short: Vec<u64> = vec![3, 1, 4, 1, 5, 9, 2, 6, 5, 3];
    let padded: Vec<u64> = vec![3, 1, 4, 1, 5, 9, 2, 6, 5, 3, 0, 0];
    let mut from_short = TypedBuffer::zeroed(3);
    let mut from_padded = TypedBuffer::zeroed(3);
    assert!(tree_reduction_pass(
        &TypedBuffer::from_slice(&short),
        &mut from_short,
        &PassDescriptor::plan(10, 4)
    ));
    assert!(tree_reduction_pass(
        &TypedBuffer::from_slice(&padded),
        &mut from_padded,
        &PassDescriptor::plan(12, 4)
    ));
    assert_eq!(contents(&from_short), vec![9, 22, 8]);
    assert_eq!(contents(&from_short), contents(&from_padded));
    assert_eq!(reduce_chunk(&short, 4), reduce_chunk(&padded, 4));
    assert_eq!(reduce_chunk(&short, 4).unwrap().value, 39);
}

#[test]
fn pass_that_does_not_fit_changes_nothing() {
    let input = TypedBuffer::from_slice(&[1, 2, 3, 4, 5]);
    let mut output = TypedBuffer::from_slice(&[7, 7]);
    assert!(!tree_reduction_pass(&input, &mut output, &PassDescriptor::plan(6, 4)));
    assert!(!tree_reduction_pass(&input, &mut output, &PassDescriptor::plan(5, 2)));
    let stale = PassDescriptor { num_elements: 5, group_size: 4, num_groups: 1 };
    assert!(!tree_reduction_pass(&input, &mut output, &stale));
    let no_group = PassDescriptor { num_elements: 0, group_size: 0, num_groups: 0 };
    assert!(!tree_reduction_pass(&input, &mut output, &no_group));
    assert_eq!(contents(&output), vec![7, 7]);
    assert!(tree_reduction_pass(&input, &mut output, &PassDescriptor::plan(5, 4)));
    assert_eq!(contents(&output), vec![10, 5]);
}

#[test]
fn pair_runs_a_pass_between_its_buffers() {
    let mut pair = BufferPair::with_capacity(8, 4);
    assert!(pair.primary.load(&[1, 2, 3, 4, 5, 6, 7, 8]));
    assert!(pair.scratch.load(&[9, 9, 9, 9]));
    assert!(pair.run_pass(Slot::Primary, &PassDescriptor::plan(8, 3)));
    assert_eq!(contents(&pair.scratch), vec![6, 15, 15, 9]);
    assert_eq!(contents(pair.get(Slot::Scratch)), vec![6, 15, 15, 9]);
    assert!(pair.run_pass(Slot::Scratch, &PassDescriptor::plan(3, 3)));
    assert_eq!(contents(&pair.primary), vec![36, 2, 3, 4, 5, 6, 7, 8]);
    assert!(!pair.run_pass(Slot::Scratch, &PassDescriptor::plan(5, 3)));
    assert!(!pair.run_pass(Slot::Primary, &PassDescriptor::plan(8, 1)));
    assert_eq!(contents(&pair.primary), vec![36, 2, 3, 4, 5, 6, 7, 8]);
    assert_eq!(contents(&pair.scratch), vec![6, 15, 15, 9]);
}

#[test]
fn pair_for_chunks_has_worst_case_sizes() {
    let pair = BufferPair::for_chunks(10, 4).unwrap();
    assert_eq!(pair.primary.len(), 10);
    assert_eq!(pair.scratch.len(), 3);
    assert_eq!(contents(&pair.scratch), vec![0, 0, 0]);
    assert!(BufferPair::for_chunks(10, 0).is_none());
    let single = BufferPair::for_chunks(1, 1).unwrap();
    assert_eq!(single.scratch.len(), 1);
}

#[test]
fn power_of_group_size_takes_the_exponent() {
    assert_eq!(passes_for(1, 2), 0);
    assert_eq!(passes_for(2, 2), 1);
    assert_eq!(passes_for(4, 2), 2);
    assert_eq!(passes_for(1024, 2), 10);
    assert_eq!(passes_for(4, 4), 1);
    assert_eq!(passes_for(16, 4), 2);
    assert_eq!(passes_for(64, 4), 3);
    assert_eq!(passes_for(1000, 10), 3);
    assert_eq!(passes_for(6561, 3), 8);
}

#[test]
fn other_sizes_take_the_logarithm_rounded_up() {
    assert_eq!(passes_for(3, 2), 2);
    assert_eq!(passes_for(5, 2), 3);
    assert_eq!(passes_for(5, 4), 2);
    assert_eq!(passes_for(17, 4), 3);
    assert_eq!(passes_for(999, 10), 3);
    assert_eq!(passes_for(1001, 10), 4);
    assert_eq!(passes_for(7, 256), 1);
    assert_eq!(passes_for(257, 256), 2);
}

#[test]
fn reducer_walks_to_one_element() {
    let mut reducer = ChunkReducer::new(1000, 10).unwrap();
    assert_eq!(reducer.chunk_size(), 1000);
    assert_eq!(reducer.group_size(), 10);
    assert_eq!(reducer.remaining(), 1000);
    assert_eq!(reducer.passes(), 0);
    assert_eq!(reducer.input_slot(), Slot::Primary);
    assert_eq!(reducer.output_slot(), Slot::Scratch);
    assert!(!reducer.is_converged());
    assert_eq!(
        reducer.next_pass(),
        Some(PassDescriptor { num_elements: 1000, group_size: 10, num_groups: 100 })
    );
    reducer.pass_completed();
    assert_eq!(reducer.remaining(), 100);
    assert_eq!(reducer.input_slot(), Slot::Scratch);
    assert_eq!(reducer.output_slot(), Slot::Primary);
    assert_eq!(
        reducer.next_pass(),
        Some(PassDescriptor { num_elements: 100, group_size: 10, num_groups: 10 })
    );
    reducer.pass_completed();
    assert_eq!(
        reducer.next_pass(),
        Some(PassDescriptor { num_elements: 10, group_size: 10, num_groups: 1 })
    );
    reducer.pass_completed();
    assert!(reducer.is_converged());
    assert_eq!(reducer.next_pass(), None);
    assert_eq!(reducer.remaining(), 1);
    assert_eq!(reducer.passes(), 3);
    assert_eq!(reducer.input_slot(), Slot::Scratch);
    reducer.pass_completed();
    assert_eq!(reducer.remaining(), 1);
    assert_eq!(reducer.passes(), 3);
    assert_eq!(reducer.input_slot(), Slot::Scratch);
}

#[test]
fn reducer_is_refused_where_it_cannot_converge() {
    assert!(ChunkReducer::new(0, 4).is_none());
    assert!(ChunkReducer::new(4, 0).is_none());
    assert!(ChunkReducer::new(4, 1).is_none());
    assert!(ChunkReducer::new(1, 0).is_none());
    let single = ChunkReducer::new(1, 1).unwrap();
    assert!(single.is_converged());
    assert_eq!(single.next_pass(), None);
    assert_eq!(single.passes(), 0);
    assert_eq!(single.input_slot(), Slot::Primary);
}

#[test]
fn slots_flip() {
    assert_eq!(Slot::Primary.flipped(), Slot::Scratch);
    assert_eq!(Slot::Scratch.flipped(), Slot::Primary);
}

#[test]
fn buffer_access_is_bounds_checked() {
    let mut buffer = TypedBuffer::zeroed(3);
    assert_eq!(buffer.len(), 3);
    assert_eq!(buffer.read(2), Some(0));
    assert_eq!(buffer.read(3), None);
    assert!(buffer.write(1, 42));
    assert!(!buffer.write(3, 43));
    assert_eq!(contents(&buffer), vec![0, 42, 0]);
    assert!(buffer.load(&[7, 8]));
    assert_eq!(contents(&buffer), vec![7, 8, 0]);
    assert!(!buffer.load(&[1, 2, 3, 4]));
    assert_eq!(contents(&buffer), vec![7, 8, 0]);
    assert!(buffer.write(2, 9));
    assert!(buffer.zero_fill(2));
    assert_eq!(contents(&buffer), vec![0, 0, 9]);
    assert!(!buffer.zero_fill(4));
    assert_eq!(contents(&buffer), vec![0, 0, 9]);
    assert!(buffer.zero_fill(0));
    assert_eq!(contents(&buffer), vec![0, 0, 9]);
    let empty = TypedBuffer::from_slice(&[]);
    assert_eq!(empty.len(), 0);
    assert_eq!(empty.read(0), None);
}
