//! One tree reduction pass: `N` elements become `ceil(N / G)` group sums.
//!
//! `pass_output` says what a pass leaves in its output slots. `PassDescriptor`
//! holds the numbers that one dispatch is encoded with.

use vstd::prelude::*;
use vstd::arithmetic::div_mod::{lemma_fundamental_div_mod, lemma_mod_bound};
use crate::sum::{
    lemma_total_concat, lemma_total_push, lemma_total_zeros, lemma_wrap_add, total, wrapped_total,
};

verus! {

/// The size of one element of a device buffer, in bytes.
pub const ELEMENT_BYTES: u64 = 8;

/// `ceil(n / g)`: the number of groups of up to `g` elements that cover `n` elements.
pub open spec fn group_count(n: int, g: int) -> int {
    (n + g - 1) / g
}

/// Where group `j` begins among the live elements.
pub open spec fn group_start(g: int, j: int) -> int {
    j * g
}

/// Where group `j` ends among `n` live elements: the last group may be short.
pub open spec fn group_end(n: int, g: int, j: int) -> int {
    if (j + 1) * g < n {
        (j + 1) * g
    } else {
        n
    }
}

/// The members of group `j`: up to `g` consecutive elements of `live`.
pub open spec fn group_members(live: Seq<u64>, g: int, j: int) -> Seq<u64> {
    live.subrange(group_start(g, j), group_end(live.len() as int, g, j))
}

/// What one pass with group size `g` writes: slot `j` holds the wrapped sum
/// of group `j`, and there is one slot for each group.
pub open spec fn pass_output(live: Seq<u64>, g: int) -> Seq<u64> {
    Seq::new(
        group_count(live.len() as int, g) as nat,
        |j: int| wrapped_total(group_members(live, g, j)),
    )
}

/// `count` zeros.
pub open spec fn zeros(count: nat) -> Seq<u64> {
    Seq::new(count, |i: int| 0u64)
}

/// What the `g` threads of group `j` load into the storage they share:
/// thread `t` loads element `j * g + t` where it is live, and zero where it
/// lies beyond the live elements.
pub open spec fn group_lanes(live: Seq<u64>, g: int, j: int) -> Seq<u64> {
    Seq::new(
        g as nat,
        |t: int|
            if group_start(g, j) + t < live.len() {
                live[group_start(g, j) + t]
            } else {
                0u64
            },
    )
}

/// The groups cover the elements exactly: all but the last are full, and the
/// last one is not empty.
pub proof fn lemma_group_count_bounds(n: int, g: int)
    requires
        n >= 0,
        g >= 1,
    ensures
        group_count(n, g) >= 0,
        n == 0 <==> group_count(n, g) == 0,
        (group_count(n, g) - 1) * g < n || n == 0,
        n <= group_count(n, g) * g,
        group_count(n, g) <= n,
        n <= g && n > 0 ==> group_count(n, g) == 1,
        g >= 2 && n >= 2 ==> group_count(n, g) < n,
{
    let m = group_count(n, g);
    lemma_fundamental_div_mod(n + g - 1, g);
    lemma_mod_bound(n + g - 1, g);
    let r = (n + g - 1) % g;
    assert(g * m + r == n + g - 1);
    assert(m * g == g * m) by (nonlinear_arith);
    assert((m - 1) * g == m * g - g) by (nonlinear_arith);
    assert(m >= 0) by (nonlinear_arith)
        requires
            g * m + r == n + g - 1,
            0 <= r < g,
            n >= 0,
            g >= 1,
    ;
    assert(m <= n) by (nonlinear_arith)
        requires
            g * m + r == n + g - 1,
            0 <= r < g,
            n >= 0,
            g >= 1,
            m >= 0,
    ;
    if n > 0 && n <= g {
        assert(m == 1) by (nonlinear_arith)
            requires
                g * m + r == n + g - 1,
                0 <= r < g,
                0 < n <= g,
        ;
    }
    if g >= 2 && n >= 2 {
        assert(m < n) by (nonlinear_arith)
            requires
                g * m + r == n + g - 1,
                0 <= r < g,
                n >= 2,
                g >= 2,
                m >= 0,
        ;
    }
}

/// Group `j` of `n` live elements lies inside them and holds between one and
/// `g` elements.
pub proof fn lemma_group_range(n: int, g: int, j: int)
    requires
        n >= 0,
        g >= 1,
        0 <= j < group_count(n, g),
    ensures
        0 <= group_start(g, j) < group_end(n, g, j) <= n,
        group_end(n, g, j) - group_start(g, j) <= g,
        group_end(n, g, j) == group_start(g, j + 1) || (j == group_count(n, g) - 1
            && group_end(n, g, j) == n),
        j < group_count(n, g) - 1 ==> group_end(n, g, j) == group_start(g, j + 1),
{
    let m = group_count(n, g);
    lemma_group_count_bounds(n, g);
    assert((j + 1) * g == j * g + g) by (nonlinear_arith);
    assert(j * g >= 0) by (nonlinear_arith)
        requires
            j >= 0,
            g >= 1,
    ;
    assert(j * g <= (m - 1) * g) by (nonlinear_arith)
        requires
            j <= m - 1,
            g >= 1,
    ;
    if j < m - 1 {
        assert((j + 1) * g <= (m - 1) * g) by (nonlinear_arith)
            requires
                j + 1 <= m - 1,
                g >= 1,
        ;
    }
}

/// The lanes of a group add up to what its members add up to: a lane beyond
/// the live elements adds nothing.
pub proof fn lemma_group_lanes_total(live: Seq<u64>, g: int, j: int)
    requires
        g >= 1,
        0 <= j < group_count(live.len() as int, g),
    ensures
        total(group_lanes(live, g, j)) == total(group_members(live, g, j)),
        wrapped_total(group_lanes(live, g, j)) == pass_output(live, g)[j],
{
    lemma_group_range(live.len() as int, g, j);
    let members = group_members(live, g, j);
    let idle = zeros((g - members.len()) as nat);
    assert((j + 1) * g == j * g + g) by (nonlinear_arith);
    assert(members.len() < g ==> group_end(live.len() as int, g, j) == live.len());
    assert forall|t: int| 0 <= t < g implies group_lanes(live, g, j)[t] == (members + idle)[t] by {
        if t < members.len() {
            assert(members[t] == live[group_start(g, j) + t]);
        }
    }
    assert(group_lanes(live, g, j) =~= members + idle);
    lemma_total_zeros(idle);
    lemma_total_concat(members, idle);
}

/// A pass keeps the wrapped sum: its group sums add up to what its input
/// adds up to, modulo 2^64.
pub proof fn lemma_pass_preserves_sum(live: Seq<u64>, g: int)
    requires
        g >= 1,
    ensures
        wrapped_total(pass_output(live, g)) == wrapped_total(live),
{
    let n = live.len() as int;
    let m = group_count(n, g);
    lemma_group_count_bounds(n, g);
    lemma_pass_prefix_sum(live, g, m);
    assert(pass_output(live, g).take(m) =~= pass_output(live, g));
    if n == 0 {
        assert(live.take(0) =~= live);
    } else {
        assert(group_end(n, g, m - 1) == n);
        assert(live.take(n) =~= live);
    }
}

/// The first `k` group sums add up to what the elements of the first `k`
/// groups add up to, modulo 2^64.
proof fn lemma_pass_prefix_sum(live: Seq<u64>, g: int, k: int)
    requires
        g >= 1,
        0 <= k <= group_count(live.len() as int, g),
    ensures
        wrapped_total(pass_output(live, g).take(k)) == wrapped_total(
            live.take(if k == 0 { 0 } else { group_end(live.len() as int, g, k - 1) }),
        ),
    decreases k,
{
    let n = live.len() as int;
    let out = pass_output(live, g);
    if k == 0 {
        assert(out.take(0) =~= Seq::<u64>::empty());
        assert(live.take(0) =~= Seq::<u64>::empty());
    } else {
        let j = k - 1;
        lemma_pass_prefix_sum(live, g, j);
        lemma_group_range(n, g, j);
        let before = if j == 0 { 0 } else { group_end(n, g, j - 1) };
        if j > 0 {
            lemma_group_range(n, g, j - 1);
        } else {
            assert(group_start(g, 0) == 0) by (nonlinear_arith);
        }
        assert(before == group_start(g, j));
        let members = group_members(live, g, j);
        let end = group_end(n, g, j);
        assert(out.take(k) =~= out.take(j).push(out[j]));
        lemma_total_push(out.take(j), out[j]);
        assert(live.take(end) =~= live.take(before) + members);
        lemma_total_concat(live.take(before), members);
        lemma_wrap_add(total(out.take(j)), total(members));
        lemma_wrap_add(total(live.take(before)), total(members));
    }
}

/// Padding the input with zeros up to the end of its last group leaves every
/// group sum as it was.
pub proof fn lemma_zero_padding(live: Seq<u64>, g: int, padding: nat)
    requires
        g >= 1,
        live.len() + padding <= group_count(live.len() as int, g) * g,
    ensures
        pass_output(live + zeros(padding), g) == pass_output(live, g),
{
    let n = live.len() as int;
    let padded = live + zeros(padding);
    let p = padded.len() as int;
    let m = group_count(n, g);
    lemma_group_count_bounds(n, g);
    lemma_group_count_bounds(p, g);
    lemma_fundamental_div_mod(p + g - 1, g);
    lemma_mod_bound(p + g - 1, g);
    lemma_fundamental_div_mod(n + g - 1, g);
    lemma_mod_bound(n + g - 1, g);
    assert(group_count(p, g) == m) by (nonlinear_arith)
        requires
            g >= 1,
            n <= p <= m * g,
            n == 0 || (m - 1) * g < n,
            n == 0 <==> m == 0,
            p == 0 || (group_count(p, g) - 1) * g < p,
            p <= group_count(p, g) * g,
            p == 0 <==> group_count(p, g) == 0,
            m >= 0,
            group_count(p, g) >= 0,
    ;
    assert forall|j: int| 0 <= j < m implies pass_output(padded, g)[j] == pass_output(live, g)[j] by {
        lemma_group_range(n, g, j);
        lemma_group_range(p, g, j);
        let a = group_start(g, j);
        let en = group_end(n, g, j);
        let ep = group_end(p, g, j);
        assert(en <= ep);
        let tail = padded.subrange(en, ep);
        assert(group_members(padded, g, j) =~= group_members(live, g, j) + tail);
        assert forall|i: int| 0 <= i < tail.len() implies tail[i] == 0 by {
            if en < ep {
                assert(en == n);
            }
        }
        lemma_total_zeros(tail);
        lemma_total_concat(group_members(live, g, j), tail);
    }
    assert(pass_output(padded, g) =~= pass_output(live, g));
}

/// The numbers one dispatch is encoded with.
#[derive(Clone, Copy, Debug, PartialEq, Eq, Structural)]
pub struct PassDescriptor {
    /// The number of live input elements, `N`.
    pub num_elements: u64,
    /// The number of threads of one group, `G`.
    pub group_size: u64,
    /// The number of groups, and so of output slots: `ceil(N / G)`.
    pub num_groups: u64,
}

impl PassDescriptor {
    /// The group count belongs to the element count and the group size.
    pub open spec fn valid(&self) -> bool {
        &&& self.group_size >= 1
        &&& self.num_groups == group_count(self.num_elements as int, self.group_size as int)
    }

    /// The descriptor of a pass over `num_elements` elements in groups of `group_size`.
    pub fn plan(num_elements: u64, group_size: u64) -> (pass: PassDescriptor)
        requires
            group_size >= 1,
        ensures
            pass.valid(),
            pass.num_elements == num_elements,
            pass.group_size == group_size,
    {
        PassDescriptor { num_elements, group_size, num_groups: ceil_div(num_elements, group_size) }
    }

    /// Whether the group count belongs to the element count and the group size.
    pub fn is_valid(&self) -> (valid: bool)
        ensures
            valid == self.valid(),
    {
        self.group_size >= 1 && ceil_div(self.num_elements, self.group_size) == self.num_groups
    }

    /// The width of the dispatch grid, `num_groups * group_size` threads, or
    /// `None` where that does not fit a 64-bit word.
    pub fn grid_width(&self) -> (width: Option<u64>)
        ensures
            self.num_groups * self.group_size <= u64::MAX ==> width == Some(
                (self.num_groups * self.group_size) as u64,
            ),
            self.num_groups * self.group_size > u64::MAX ==> width.is_none(),
    {
        self.num_groups.checked_mul(self.group_size)
    }

    /// The size of the scratch storage that one group shares, one element for
    /// each of its threads, in bytes; `None` where that does not fit a 64-bit word.
    pub fn scratch_bytes(&self) -> (bytes: Option<u64>)
        ensures
            bytes == byte_length_of(self.group_size),
    {
        byte_length(self.group_size)
    }
}

/// More elements never make fewer groups.
pub proof fn lemma_group_count_ordered(fewer: int, more: int, g: int)
    requires
        0 <= fewer <= more,
        g >= 1,
    ensures
        group_count(fewer, g) <= group_count(more, g),
{
    vstd::arithmetic::div_mod::lemma_div_is_ordered(fewer + g - 1, more + g - 1, g);
}

/// The size in bytes of `count` elements, or `None` where it does not fit a 64-bit word.
pub open spec fn byte_length_of(count: u64) -> Option<u64> {
    if count * ELEMENT_BYTES <= u64::MAX {
        Some((count * ELEMENT_BYTES) as u64)
    } else {
        None
    }
}

/// The size in bytes of a buffer of `count` elements.
pub fn byte_length(count: u64) -> (bytes: Option<u64>)
    ensures
        bytes == byte_length_of(count),
{
    count.checked_mul(ELEMENT_BYTES)
}

/// `ceil(n / g)` without overflow.
pub fn ceil_div(n: u64, g: u64) -> (count: u64)
    requires
        g >= 1,
    ensures
        count == group_count(n as int, g as int),
{
    let whole: u64 = n / g;
    let rest: u64 = n % g;
    proof {
        lemma_fundamental_div_mod(n as int, g as int);
        lemma_fundamental_div_mod(n + g - 1, g as int);
        lemma_mod_bound(n + g - 1, g as int);
        lemma_mod_bound(n as int, g as int);
        let q = (n as int) / (g as int);
        let r = (n as int) % (g as int);
        let q2 = (n + g - 1) / (g as int);
        let r2 = (n + g - 1) % (g as int);
        assert(q2 == if r == 0 { q } else { q + 1 }) by (nonlinear_arith)
            requires
                g >= 1,
                n == g * q + r,
                n + g - 1 == g * q2 + r2,
                0 <= r < g,
                0 <= r2 < g,
        ;
        assert(q <= n) by (nonlinear_arith)
            requires
                g >= 1,
                n == g * q + r,
                0 <= r,
                n >= 0,
        ;
        assert(r != 0 ==> q < n) by (nonlinear_arith)
            requires
                g >= 1,
                n == g * q + r,
                0 <= r,
                n >= 0,
        ;
    }
    if rest == 0 {
        whole
    } else {
        whole + 1
    }
}

/// The group size that governs: the configured preference, held to what the
/// device and the kernel each allow.
pub fn effective_group_size(preferred: u64, device_max: u64, kernel_max: u64) -> (size: u64)
    ensures
        size <= preferred,
        size <= device_max,
        size <= kernel_max,
        size == preferred || size == device_max || size == kernel_max,
{
    let bound: u64 = if device_max < kernel_max {
        device_max
    } else {
        kernel_max
    };
    if preferred < bound {
        preferred
    } else {
        bound
    }
}

} // verus!
