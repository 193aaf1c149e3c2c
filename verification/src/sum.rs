//! Exact and wrapped sums of sequences of unsigned 64-bit integers.
//!
//! Every sum that the engine computes is taken modulo 2^64. The contracts
//! speak of the exact sum `total` and of its residue `wrap`, so that two
//! ways of adding the same numbers can be compared without following
//! their intermediate overflows.

use vstd::prelude::*;
use vstd::arithmetic::div_mod::{lemma_add_mod_noop, lemma_small_mod};

verus! {

/// The number of values of a 64-bit word.
pub open spec fn modulus() -> int {
    0x1_0000_0000_0000_0000
}

/// The exact mathematical sum of the elements of `s`.
pub open spec fn total(s: Seq<u64>) -> int
    decreases s.len(),
{
    if s.len() == 0 {
        0
    } else {
        total(s.drop_last()) + s.last()
    }
}

/// What unsigned 64-bit arithmetic keeps of `x`: its residue modulo 2^64.
pub open spec fn wrap(x: int) -> u64 {
    (x % modulus()) as u64
}

/// The sum of `s` as unsigned 64-bit arithmetic computes it, with wraparound.
pub open spec fn wrapped_total(s: Seq<u64>) -> u64 {
    wrap(total(s))
}

/// The distance between two results.
pub open spec fn distance(a: u64, b: u64) -> int {
    if a > b {
        a - b
    } else {
        b - a
    }
}

/// The sum of a sequence of one element is that element.
pub proof fn lemma_total_single(s: Seq<u64>)
    requires
        s.len() == 1,
    ensures
        total(s) == s[0],
        wrapped_total(s) == s[0],
{
    assert(s.drop_last().len() == 0);
    assert(total(s.drop_last()) == 0);
    lemma_small_mod(s[0] as nat, modulus() as nat);
}

/// Appending one element adds it to the sum.
pub proof fn lemma_total_push(s: Seq<u64>, x: u64)
    ensures
        total(s.push(x)) == total(s) + x,
{
    assert(s.push(x).drop_last() =~= s);
}

/// The sum of a concatenation is the sum of the sums of its parts.
pub proof fn lemma_total_concat(a: Seq<u64>, b: Seq<u64>)
    ensures
        total(a + b) == total(a) + total(b),
    decreases b.len(),
{
    if b.len() == 0 {
        assert(a + b =~= a);
    } else {
        lemma_total_concat(a, b.drop_last());
        assert((a + b).drop_last() =~= a + b.drop_last());
    }
}

/// A sequence of zeros sums to zero.
pub proof fn lemma_total_zeros(s: Seq<u64>)
    requires
        forall|i: int| 0 <= i < s.len() ==> s[i] == 0,
    ensures
        total(s) == 0,
    decreases s.len(),
{
    if s.len() > 0 {
        lemma_total_zeros(s.drop_last());
    }
}

/// A value that fits a word is kept as it is.
pub proof fn lemma_wrap_fits(x: int)
    requires
        0 <= x < modulus(),
    ensures
        wrap(x) == x,
{
    lemma_small_mod(x as nat, modulus() as nat);
}

/// Wrapping the terms of a sum before adding them does not change the wrapped sum.
pub proof fn lemma_wrap_add(x: int, y: int)
    ensures
        wrap(x + y) == wrap(wrap(x) + wrap(y)),
        wrap(x + y) == wrap(x + wrap(y)),
        wrap(x + y) == wrap(wrap(x) + y),
{
    lemma_add_mod_noop(x, y, modulus());
    vstd::arithmetic::div_mod::lemma_add_mod_noop_right(x, y, modulus());
    vstd::arithmetic::div_mod::lemma_add_mod_noop_right(y, x, modulus());
}

/// Two's-complement addition of two words is the wrapped exact sum.
pub proof fn lemma_wrapping_add(x: u64, y: u64)
    ensures
        x.wrapping_add(y) == wrap(x + y),
{
    if x + y > u64::MAX {
        assert(x + y - modulus() < modulus());
        vstd::arithmetic::div_mod::lemma_mod_multiples_vanish(-1, x + y, modulus());
        lemma_small_mod((x + y - modulus()) as nat, modulus() as nat);
        assert((x + y) % modulus() == x + y - modulus());
    } else {
        lemma_small_mod((x + y) as nat, modulus() as nat);
    }
}

/// The sequential sum of `input`, with wraparound on overflow.
pub fn cpu_reduction(input: &[u64]) -> (sum: u64)
    ensures
        sum == wrapped_total(input@),
{
    let mut sum: u64 = 0;
    let mut i: usize = 0;
    proof {
        lemma_wrap_fits(0);
    }
    while i < input.len()
        invariant
            i <= input.len(),
            sum == wrapped_total(input@.take(i as int)),
        decreases input.len() - i,
    {
        proof {
            let prefix = input@.take(i as int);
            assert(input@.take(i + 1) =~= prefix.push(input@[i as int]));
            lemma_total_push(prefix, input@[i as int]);
            lemma_wrapping_add(sum, input@[i as int]);
            lemma_wrap_add(total(prefix), input@[i as int] as int);
        }
        sum = sum.wrapping_add(input[i]);
        i = i + 1;
    }
    assert(input@.take(input.len() as int) =~= input@);
    sum
}

/// How far two results lie apart: zero exactly when they agree.
pub fn result_difference(cpu_result: u64, gpu_result: u64) -> (difference: u64)
    ensures
        difference == distance(cpu_result, gpu_result),
        difference == 0 <==> cpu_result == gpu_result,
{
    if cpu_result > gpu_result {
        cpu_result - gpu_result
    } else {
        gpu_result - cpu_result
    }
}

} // verus!
