//! Repeated passes over one chunk: how many it takes to reach one element,
//! and what that element is.

use vstd::prelude::*;
use vstd::arithmetic::logarithm::{lemma_log0, lemma_log_s, log};
use vstd::arithmetic::power::{lemma_pow0, lemma_pow_positive, pow};
use vstd::arithmetic::div_mod::{lemma_fundamental_div_mod, lemma_mod_bound};
use crate::pass::{group_count, lemma_group_count_bounds, lemma_pass_preserves_sum, pass_output};
use crate::sum::{lemma_total_single, wrapped_total};

verus! {

/// Whether repeated passes with group size `g` bring `n` elements down to
/// one: a single element needs no pass, and more need groups of at least two.
pub open spec fn can_converge(n: int, g: int) -> bool {
    n >= 1 && g >= 1 && (n == 1 || g >= 2)
}

/// The number of passes with group size `g` that bring `n` elements down to one.
pub open spec fn passes_needed(n: int, g: int) -> nat
    decreases n,
{
    if n <= 1 || g < 2 {
        0
    } else {
        proof {
            lemma_group_count_bounds(n, g);
        }
        1 + passes_needed(group_count(n, g), g)
    }
}

/// The number of elements that are left of `n` after `passes` passes.
pub open spec fn remaining_after(n: int, g: int, passes: nat) -> int
    decreases passes,
{
    if passes == 0 {
        n
    } else {
        group_count(remaining_after(n, g, (passes - 1) as nat), g)
    }
}

/// What is left of `live` when passes with group size `g` are repeated until
/// at most one element remains.
pub open spec fn converged(live: Seq<u64>, g: int) -> Seq<u64>
    decreases live.len(),
{
    if live.len() <= 1 || g < 2 {
        live
    } else {
        proof {
            lemma_group_count_bounds(live.len() as int, g);
        }
        converged(pass_output(live, g), g)
    }
}

/// `ceil(log_g(n))`: the least exponent `k` with `g^k >= n`.
pub open spec fn ceil_log(g: int, n: int) -> int {
    if n <= 1 {
        0
    } else {
        log(g, n - 1) + 1
    }
}

/// A chunk that can converge ends as one element, the wrapped sum of the chunk.
pub proof fn lemma_converged_is_sum(live: Seq<u64>, g: int)
    requires
        can_converge(live.len() as int, g),
    ensures
        converged(live, g).len() == 1,
        converged(live, g)[0] == wrapped_total(live),
    decreases live.len(),
{
    if live.len() == 1 {
        lemma_total_single(live);
    } else {
        lemma_group_count_bounds(live.len() as int, g);
        lemma_pass_preserves_sum(live, g);
        lemma_converged_is_sum(pass_output(live, g), g);
    }
}

/// After all the passes that are needed, one element is left, and as long as
/// a pass is missing more than one is left.
pub proof fn lemma_remaining_after(n: int, g: int, passes: nat)
    requires
        can_converge(n, g),
        passes <= passes_needed(n, g),
    ensures
        can_converge(remaining_after(n, g, passes), g),
        passes + passes_needed(remaining_after(n, g, passes), g) == passes_needed(n, g),
        passes == passes_needed(n, g) <==> remaining_after(n, g, passes) == 1,
        remaining_after(n, g, passes) <= n,
    decreases passes,
{
    if passes > 0 {
        let before = remaining_after(n, g, (passes - 1) as nat);
        lemma_remaining_after(n, g, (passes - 1) as nat);
        lemma_group_count_bounds(before, g);
    }
}

/// Each pass leaves fewer elements than it found, so the passes that `n`
/// elements need are fewer than `n`.
pub proof fn lemma_passes_needed_below(n: int, g: int)
    requires
        n >= 1,
    ensures
        passes_needed(n, g) < n,
    decreases n,
{
    if n > 1 && g >= 2 {
        lemma_group_count_bounds(n, g);
        lemma_passes_needed_below(group_count(n, g), g);
    }
}

/// The number of passes is the least exponent `k` with `g^k >= n`.
pub proof fn lemma_passes_needed_is_least_exponent(n: int, g: int)
    requires
        n >= 1,
        g >= 2,
    ensures
        pow(g, passes_needed(n, g)) >= n,
        passes_needed(n, g) > 0 ==> pow(g, (passes_needed(n, g) - 1) as nat) < n,
    decreases n,
{
    if n == 1 {
        lemma_pow0(g);
    } else {
        let rest = group_count(n, g);
        let k = passes_needed(rest, g);
        lemma_group_count_bounds(n, g);
        lemma_passes_needed_is_least_exponent(rest, g);
        lemma_pow_positive(g, k);
        assert(pow(g, k + 1) == g * pow(g, k)) by {
            reveal(pow);
        }
        assert(g * pow(g, k) >= n) by (nonlinear_arith)
            requires
                pow(g, k) >= rest,
                n <= rest * g,
                g >= 2,
        ;
        if k == 0 {
            lemma_pow0(g);
        } else {
            let below = pow(g, (k - 1) as nat);
            assert(pow(g, k) == g * below) by {
                reveal(pow);
            }
            assert(g * below < n) by (nonlinear_arith)
                requires
                    below < rest,
                    (rest - 1) * g < n,
                    g >= 2,
            ;
        }
    }
}

/// No smaller number of passes can do: an exponent `k` with `g^k >= n`
/// is at least the number of passes.
pub proof fn lemma_fewer_passes_fall_short(n: int, g: int, k: nat)
    requires
        n >= 1,
        g >= 2,
        pow(g, k) >= n,
    ensures
        passes_needed(n, g) <= k,
{
    let p = passes_needed(n, g);
    if p > k {
        lemma_passes_needed_is_least_exponent(n, g);
        vstd::arithmetic::power::lemma_pow_increases(g as nat, k, (p - 1) as nat);
    }
}

/// A chunk whose size is the power `g^k` takes exactly `k` passes, and `k`
/// is the logarithm of its size, rounded up.
pub proof fn lemma_passes_of_power(g: int, k: nat)
    requires
        g >= 2,
    ensures
        passes_needed(pow(g, k), g) == k,
        ceil_log(g, pow(g, k)) == k,
{
    let n = pow(g, k);
    lemma_pow_positive(g, k);
    lemma_fewer_passes_fall_short(n, g, k);
    let p = passes_needed(n, g);
    if p < k {
        lemma_passes_needed_is_least_exponent(n, g);
        vstd::arithmetic::power::lemma_pow_strictly_increases(g as nat, p, k);
    }
    lemma_passes_needed_is_ceil_log(n, g);
}

/// The number of passes is `ceil(log_g(n))` for every chunk size, a power of
/// the group size or not; so it is never above `ceil(log_g(n)) + 1`.
pub proof fn lemma_passes_needed_is_ceil_log(n: int, g: int)
    requires
        n >= 1,
        g >= 2,
    ensures
        passes_needed(n, g) == ceil_log(g, n),
        passes_needed(n, g) <= ceil_log(g, n) + 1,
    decreases n,
{
    if n > 1 {
        let rest = group_count(n, g);
        lemma_group_count_bounds(n, g);
        lemma_passes_needed_is_ceil_log(rest, g);
        if n <= g {
            lemma_log0(g, n - 1);
        } else {
            lemma_log_s(g, n - 1);
            lemma_fundamental_div_mod(n - 1, g);
            lemma_mod_bound(n - 1, g);
            lemma_fundamental_div_mod(n + g - 1, g);
            lemma_mod_bound(n + g - 1, g);
            let q = (n - 1) / g;
            let r = (n - 1) % g;
            let r2 = (n + g - 1) % g;
            assert(rest == q + 1) by (nonlinear_arith)
                requires
                    g >= 2,
                    n - 1 == g * q + r,
                    n + g - 1 == g * rest + r2,
                    0 <= r < g,
                    0 <= r2 < g,
            ;
            assert(rest >= 2) by (nonlinear_arith)
                requires
                    rest == q + 1,
                    n - 1 == g * q + r,
                    0 <= r < g,
                    n > g,
                    g >= 2,
            ;
        }
    }
}

} // verus!
