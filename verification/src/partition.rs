//! The cut of the input into chunks of one size, each reduced on its own.

use vstd::prelude::*;
use vstd::slice::slice_subrange;
use crate::sum::{lemma_total_concat, lemma_total_push, lemma_wrap_add, total, wrapped_total};

verus! {

/// Chunk `index` of `input`: the elements `index * chunk_size` up to, and
/// without, `(index + 1) * chunk_size`.
pub open spec fn chunk_of(input: Seq<u64>, chunk_size: int, index: int) -> Seq<u64> {
    input.subrange(index * chunk_size, (index + 1) * chunk_size)
}

/// Whether chunk `index` lies within `len` elements.
pub open spec fn chunk_in_range(len: int, chunk_size: int, index: int) -> bool {
    chunk_size >= 1 && index >= 0 && (index + 1) * chunk_size <= len
}

/// The wrapped sum of each of the first `count` chunks, in their order.
pub open spec fn chunk_sums(input: Seq<u64>, chunk_size: int, count: nat) -> Seq<u64> {
    Seq::new(count, |i: int| wrapped_total(chunk_of(input, chunk_size, i)))
}

/// A chunk in range has `chunk_size` elements, taken in order from its place
/// in the input.
pub proof fn lemma_chunk_elements(input: Seq<u64>, chunk_size: int, index: int)
    requires
        chunk_in_range(input.len() as int, chunk_size, index),
    ensures
        0 <= index * chunk_size,
        (index + 1) * chunk_size == index * chunk_size + chunk_size,
        chunk_of(input, chunk_size, index).len() == chunk_size,
        forall|k: int|
            0 <= k < chunk_size ==> chunk_of(input, chunk_size, index)[k] == input[index
                * chunk_size + k],
{
    assert((index + 1) * chunk_size == index * chunk_size + chunk_size) by (nonlinear_arith);
    assert(0 <= index * chunk_size) by (nonlinear_arith)
        requires
            index >= 0,
            chunk_size >= 1,
    ;
}

/// Two different chunks share no element: the earlier one ends where the
/// later one begins, or before.
pub proof fn lemma_chunks_disjoint(chunk_size: int, first: int, second: int)
    requires
        chunk_size >= 1,
        0 <= first < second,
    ensures
        (first + 1) * chunk_size <= second * chunk_size,
{
    assert((first + 1) * chunk_size <= second * chunk_size) by (nonlinear_arith)
        requires
            chunk_size >= 1,
            first + 1 <= second,
    ;
}

/// Among `count` whole chunks the chunks in range are those with an index
/// below `count`: there are exactly `count` of them.
pub proof fn lemma_chunk_in_range(chunk_size: int, count: int, index: int)
    requires
        chunk_size >= 1,
        count >= 0,
        index >= 0,
    ensures
        chunk_in_range(count * chunk_size, chunk_size, index) <==> index < count,
{
    if index < count {
        assert((index + 1) * chunk_size <= count * chunk_size) by (nonlinear_arith)
            requires
                chunk_size >= 1,
                index + 1 <= count,
        ;
    } else {
        assert((index + 1) * chunk_size > count * chunk_size) by (nonlinear_arith)
            requires
                chunk_size >= 1,
                index + 1 > count,
        ;
    }
}

/// The chunks cover the input in its order: element `k` is element
/// `k % chunk_size` of chunk `k / chunk_size`.
pub proof fn lemma_chunks_cover(input: Seq<u64>, chunk_size: int, count: int, k: int)
    requires
        chunk_size >= 1,
        count >= 0,
        input.len() == count * chunk_size,
        0 <= k < input.len(),
    ensures
        0 <= k / chunk_size < count,
        chunk_in_range(input.len() as int, chunk_size, k / chunk_size),
        chunk_of(input, chunk_size, k / chunk_size)[k % chunk_size] == input[k],
{
    let index = k / chunk_size;
    let offset = k % chunk_size;
    vstd::arithmetic::div_mod::lemma_fundamental_div_mod(k, chunk_size);
    vstd::arithmetic::div_mod::lemma_mod_bound(k, chunk_size);
    assert(chunk_size * index == index * chunk_size) by (nonlinear_arith);
    assert(0 <= index < count) by (nonlinear_arith)
        requires
            chunk_size >= 1,
            k == index * chunk_size + offset,
            0 <= offset < chunk_size,
            0 <= k < count * chunk_size,
    ;
    lemma_chunk_in_range(chunk_size, count, index);
    lemma_chunk_elements(input, chunk_size, index);
}

/// The chunk sums of the first `count` chunks add up to what the elements
/// of those chunks add up to, modulo 2^64.
pub proof fn lemma_chunk_sums_total(input: Seq<u64>, chunk_size: int, count: nat)
    requires
        chunk_size >= 1,
        count * chunk_size <= input.len(),
    ensures
        wrapped_total(chunk_sums(input, chunk_size, count)) == wrapped_total(
            input.take(count * chunk_size),
        ),
    decreases count,
{
    let sums = chunk_sums(input, chunk_size, count);
    if count == 0 {
        assert(sums =~= Seq::<u64>::empty());
        assert(0 * chunk_size == 0) by (nonlinear_arith);
        assert(input.take(0) =~= Seq::<u64>::empty());
    } else {
        let before = (count - 1) as nat;
        lemma_chunk_in_range(chunk_size, count as int, before as int);
        assert(before * chunk_size <= count * chunk_size) by (nonlinear_arith)
            requires
                before <= count,
                chunk_size >= 1,
        ;
        lemma_chunk_sums_total(input, chunk_size, before);
        lemma_chunk_elements(input, chunk_size, before as int);
        let last = chunk_of(input, chunk_size, before as int);
        let earlier = chunk_sums(input, chunk_size, before);
        assert(sums =~= earlier.push(wrapped_total(last)));
        lemma_total_push(earlier, wrapped_total(last));
        assert(input.take(count * chunk_size) =~= input.take(before * chunk_size) + last);
        lemma_total_concat(input.take(before * chunk_size), last);
        lemma_wrap_add(total(earlier), total(last));
        lemma_wrap_add(total(input.take(before * chunk_size)), total(last));
    }
}

/// Where chunk `index` begins and ends among `len` elements, or `None` where
/// the chunk size is zero or the chunk does not lie within them.
pub fn chunk_range(len: usize, chunk_size: usize, index: usize) -> (range: Option<(usize, usize)>)
    ensures
        range.is_some() <==> chunk_in_range(len as int, chunk_size as int, index as int),
        range matches Some((start, end)) ==> start == index * chunk_size && end == (index + 1)
            * chunk_size && end - start == chunk_size,
{
    if chunk_size == 0 {
        return None;
    }
    assert((index + 1) * chunk_size == index * chunk_size + chunk_size) by (nonlinear_arith);
    match index.checked_mul(chunk_size) {
        Some(start) => {
            if start <= len && len - start >= chunk_size {
                Some((start, start + chunk_size))
            } else {
                None
            }
        },
        None => None,
    }
}

/// Chunk `index` of `input`, or `None` where the chunk size is zero or the
/// chunk does not lie within the input.
pub fn chunk(input: &[u64], chunk_size: usize, index: usize) -> (part: Option<&[u64]>)
    ensures
        part.is_some() <==> chunk_in_range(input@.len() as int, chunk_size as int, index as int),
        part matches Some(elements) ==> elements@ == chunk_of(
            input@,
            chunk_size as int,
            index as int,
        ),
{
    match chunk_range(input.len(), chunk_size, index) {
        Some((start, end)) => Some(slice_subrange(input, start, end)),
        None => None,
    }
}

} // verus!
