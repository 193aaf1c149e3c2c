//! The reduction kernel, executed on the host: what a device computes in one
//! dispatch, group by group.

use vstd::prelude::*;
use crate::buffer::TypedBuffer;
use crate::pass::{
    ceil_div, group_count, group_end, group_members, group_start, lemma_group_count_bounds,
    lemma_group_range, pass_output, PassDescriptor,
};
use crate::sum::{
    lemma_total_push, lemma_wrap_add, lemma_wrap_fits, lemma_wrapping_add, total, wrapped_total,
};

verus! {

/// Whether a pass can run on buffers of these lengths: the descriptor is
/// consistent, the input holds its live elements and the output has a slot
/// for each group.
pub open spec fn pass_fits(pass: PassDescriptor, input_len: int, output_len: int) -> bool {
    &&& pass.valid()
    &&& pass.num_elements <= input_len
    &&& pass.num_groups <= output_len
}

/// The wrapped sum of the elements `from..to` of `input`.
fn group_sum(input: &TypedBuffer, from: u64, to: u64) -> (sum: u64)
    requires
        from <= to <= input@.len() <= usize::MAX,
    ensures
        sum == wrapped_total(input@.subrange(from as int, to as int)),
{
    let mut sum: u64 = 0;
    let mut index: u64 = from;
    proof {
        lemma_wrap_fits(0);
        assert(input@.subrange(from as int, from as int) =~= Seq::<u64>::empty());
    }
    while index < to
        invariant
            from <= index <= to <= input@.len() <= usize::MAX,
            sum == wrapped_total(input@.subrange(from as int, index as int)),
        decreases to - index,
    {
        let element: u64 = match input.read(index as usize) {
            Some(value) => value,
            None => 0,
        };
        proof {
            let seen = input@.subrange(from as int, index as int);
            assert(input@.subrange(from as int, index + 1) =~= seen.push(element));
            lemma_total_push(seen, element);
            lemma_wrapping_add(sum, element);
            lemma_wrap_add(total(seen), element as int);
        }
        sum = sum.wrapping_add(element);
        index = index + 1;
    }
    sum
}

/// Runs one pass: writes the wrapped sum of each group of the first
/// `num_elements` elements of `input` to the group's slot of `output`, and
/// leaves the rest of `output` as it was. Elements beyond `num_elements`
/// add nothing. Returns `false`, with `output` unchanged, where the pass
/// does not fit the buffers.
pub fn tree_reduction_pass(
    input: &TypedBuffer,
    output: &mut TypedBuffer,
    pass: &PassDescriptor,
) -> (executed: bool)
    ensures
        executed <==> pass_fits(*pass, input@.len() as int, old(output)@.len() as int),
        executed ==> final(output)@ == pass_output(
            input@.take(pass.num_elements as int),
            pass.group_size as int,
        ) + old(output)@.skip(pass.num_groups as int),
        !executed ==> final(output)@ == old(output)@,
{
    if pass.group_size == 0 {
        return false;
    }
    let n: u64 = pass.num_elements;
    let g: u64 = pass.group_size;
    let m: u64 = pass.num_groups;
    if ceil_div(n, g) != m || n > input.len() as u64 || m > output.len() as u64 {
        return false;
    }
    let ghost live = input@.take(n as int);
    let ghost expected = pass_output(live, g as int);
    let mut group: u64 = 0;
    let mut start: u64 = 0;
    proof {
        lemma_group_count_bounds(n as int, g as int);
        assert(group_start(g as int, 0) == 0) by (nonlinear_arith);
    }
    while group < m
        invariant
            g >= 1,
            n <= input@.len() <= usize::MAX,
            m == group_count(n as int, g as int),
            m <= old(output)@.len() <= usize::MAX,
            live == input@.take(n as int),
            expected == pass_output(live, g as int),
            group <= m,
            group < m ==> start == group_start(g as int, group as int),
            output@.len() == old(output)@.len(),
            forall|k: int| 0 <= k < group ==> output@[k] == expected[k],
            forall|k: int| m <= k < output@.len() ==> output@[k] == old(output)@[k],
        decreases m - group,
    {
        proof {
            lemma_group_range(n as int, g as int, group as int);
        }
        let end: u64 = if n - start > g {
            start + g
        } else {
            n
        };
        assert(end == group_end(n as int, g as int, group as int)) by {
            assert((group + 1) * g == group * g + g) by (nonlinear_arith);
        }
        let sum: u64 = group_sum(input, start, end);
        assert(input@.subrange(start as int, end as int) =~= group_members(
            live,
            g as int,
            group as int,
        ));
        let written: bool = output.write(group as usize, sum);
        assert(written);
        group = group + 1;
        start = end;
    }
    assert(output@ =~= expected + old(output)@.skip(m as int));
    true
}

} // verus!
