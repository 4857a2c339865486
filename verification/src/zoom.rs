//! Zoom-range calculation.
//!
//! The number of native tiles needed to cover one dimension of the mosaic is
//! repeatedly ceiling-halved until at most four tiles remain; the first and
//! last counts of that sequence are mapped to zoom indices through a fixed
//! threshold table (counts below three map to `count - 1`; from three on, a
//! geometric series of thresholds `5, 9, 17, 33, ...` assigns indices `2,
//! 3, 4, 5, ...`).

use vstd::prelude::*;

verus! {

use vstd::arithmetic::power2::{pow2, lemma_pow2_strictly_increases};
use vstd::arithmetic::div_mod::lemma_div_is_ordered;

/// Number of further threshold-doubling steps the zoom table takes before
/// its current upper threshold `max` reaches the tile count `n`.
pub open spec fn extra_steps(n: int, max: int) -> int
    decreases (if n - max > 0 { n - max } else { 0 }) when max >= 2
{
    if max >= n {
        0
    } else {
        1 + extra_steps(n, 2 * max - 1)
    }
}

/// Zoom index assigned to a tile count `n` by the threshold table.
pub open spec fn spec_get_zoom(n: int) -> int {
    if n < 3 {
        n - 1
    } else {
        2 + extra_steps(n, 5)
    }
}

/// Ceiling division for non-negative operands.
pub open spec fn ceil_div(a: int, b: int) -> int {
    (a + b - 1) / b
}

/// The last tile count of the halving sequence that is still above four:
/// the count the coarsest produced zoom level corresponds to.
pub open spec fn coarsest_count(n: int) -> int
    decreases n when n >= 5
{
    if (n + 1) / 2 <= 4 {
        n
    } else {
        coarsest_count((n + 1) / 2)
    }
}

/// The `(min_zoom, max_zoom)` pair for one mosaic dimension of `size`
/// pixels: `(0, 0)` when the dimension fits in four native tiles, else the
/// zoom indices of the coarsest and the finest tile count of the halving
/// sequence.
pub open spec fn spec_zoom_range(size: int) -> (int, int) {
    let n0 = ceil_div(size, 256);
    if n0 <= 4 {
        (0, 0)
    } else {
        (spec_get_zoom(coarsest_count(n0)), spec_get_zoom(n0))
    }
}

proof fn lemma_extra_steps_nonneg(n: int, max: int)
    requires
        max >= 2,
    ensures
        extra_steps(n, max) >= 0,
    decreases (if n - max > 0 { n - max } else { 0 }),
{
    if max < n {
        lemma_extra_steps_nonneg(n, 2 * max - 1);
    }
}

proof fn lemma_extra_steps_monotone(n1: int, n2: int, max: int)
    requires
        max >= 2,
        n1 <= n2,
    ensures
        extra_steps(n1, max) <= extra_steps(n2, max),
    decreases (if n2 - max > 0 { n2 - max } else { 0 }),
{
    if max >= n2 {
        assert(extra_steps(n1, max) == 0);
    } else if max >= n1 {
        lemma_extra_steps_nonneg(n2, max);
    } else {
        lemma_extra_steps_monotone(n1, n2, 2 * max - 1);
    }
}

/// The threshold table never assigns a larger index to a smaller count.
pub proof fn lemma_get_zoom_monotone(n1: int, n2: int)
    requires
        1 <= n1 <= n2,
    ensures
        spec_get_zoom(n1) <= spec_get_zoom(n2),
{
    if n1 < 3 && n2 >= 3 {
        lemma_extra_steps_nonneg(n2, 5);
    } else if n1 >= 3 {
        lemma_extra_steps_monotone(n1, n2, 5);
    }
}

proof fn lemma_coarsest_bounds(n: int)
    requires
        n >= 5,
    ensures
        5 <= coarsest_count(n) <= n,
    decreases n,
{
    if (n + 1) / 2 > 4 {
        lemma_coarsest_bounds((n + 1) / 2);
    }
}

/// Larger mosaics never get a smaller maximum zoom level.
pub proof fn lemma_zoom_range_monotonic(s1: int, s2: int)
    requires
        0 <= s1 <= s2,
    ensures
        spec_zoom_range(s1).1 <= spec_zoom_range(s2).1,
{
    let n1 = ceil_div(s1, 256);
    let n2 = ceil_div(s2, 256);
    lemma_div_is_ordered(s1 + 255, s2 + 255, 256);
    assert(n1 <= n2);
    if n2 <= 4 {
        assert(n1 <= 4);
    } else if n1 <= 4 {
        lemma_extra_steps_nonneg(n2, 5);
    } else {
        lemma_get_zoom_monotone(n1, n2);
    }
}

/// A mosaic dimension of at most 1024 pixels (four native tiles) needs no
/// pyramid: its zoom range is `(0, 0)`.
pub proof fn lemma_small_mosaic_zoom_range(s: int)
    requires
        0 <= s <= 1024,
    ensures
        spec_zoom_range(s) == (0int, 0int),
{
    lemma_div_is_ordered(s + 255, 1279, 256);
    assert(ceil_div(s, 256) <= 4);
}

/// The zoom range of one dimension is always well formed: the coarsest
/// level never exceeds the finest.
pub proof fn lemma_zoom_range_ordered(s: int)
    requires
        0 <= s,
    ensures
        spec_zoom_range(s).0 <= spec_zoom_range(s).1,
{
    let n0 = ceil_div(s, 256);
    if n0 > 4 {
        lemma_coarsest_bounds(n0);
        lemma_get_zoom_monotone(coarsest_count(n0), n0);
    }
}

/// Zoom index of a tile count, for counts up to the largest grid a
/// `u32`-sized mosaic can produce.
fn zoom_of_count(n: u64) -> (z: u8)
    requires
        1 <= n <= 0x1000000,
    ensures
        z as int == spec_get_zoom(n as int),
{
    if n < 3 {
        return (n as u8) - 1;
    }
    let mut count: u32 = 2;
    let mut min: u64 = 2;
    let mut max: u64 = 5;
    proof {
        vstd::arithmetic::power2::lemma2_to64();
    }
    while max < n
        invariant
            3 <= n <= 0x1000000,
            2 <= min,
            max == 2 * min + 1,
            min == pow2((count - 1) as nat),
            min <= 0x1000000,
            2 <= count <= 32,
            spec_get_zoom(n as int) == count + extra_steps(n as int, max as int),
        decreases (if n > max { n as int - max as int } else { 0 }),
    {
        proof {
            // `min` doubles each step, so from `min < n <= 2^24` the step
            // counter stays far below its type's range.
            vstd::arithmetic::power2::lemma2_to64();
            if count >= 26 {
                lemma_pow2_strictly_increases(24, (count - 1) as nat);
                assert(false);
            }
            assert(pow2(((count + 1) - 1) as nat) == 2 * pow2((count - 1) as nat)) by {
                vstd::arithmetic::power2::lemma_pow2_unfold((count) as nat);
            };
        }
        min = min * 2;
        max = min * 2 + 1;
        count = count + 1;
    }
    proof {
        assert(extra_steps(n as int, max as int) == 0);
    }
    count as u8
}

/// Zoom index of a native tile count, by the fixed threshold table.
pub fn get_zoom(nb: &u8) -> (z: u8)
    requires
        *nb >= 1,
    ensures
        z as int == spec_get_zoom(*nb as int),
{
    zoom_of_count(*nb as u64)
}

/// The `(min_zoom, max_zoom)` zoom range for one mosaic dimension of
/// `size` pixels.
pub fn calculate_min_max_zoom(size: u32) -> (r: (u8, u8))
    ensures
        r.0 as int == spec_zoom_range(size as int).0,
        r.1 as int == spec_zoom_range(size as int).1,
        r.0 <= r.1,
{
    proof {
        lemma_zoom_range_ordered(size as int);
    }
    let n0: u64 = ((size as u64) + 255) / 256;
    assert(n0 as int == ceil_div(size as int, 256));
    if n0 <= 4 {
        return (0, 0);
    }
    let mut last: u64 = n0;
    while (last + 1) / 2 > 4
        invariant
            5 <= last <= n0 <= 0x1000000,
            coarsest_count(n0 as int) == coarsest_count(last as int),
        decreases last,
    {
        last = (last + 1) / 2;
    }
    assert(coarsest_count(last as int) == last);
    let min_zoom = zoom_of_count(last);
    let max_zoom = zoom_of_count(n0);
    (min_zoom, max_zoom)
}

/// Combination rule for the zoom ranges of the two mosaic dimensions: with
/// equal maxima the smaller minimum wins, otherwise the range with the
/// larger maximum wins.
pub open spec fn spec_combine_zoom_ranges(a: (u8, u8), b: (u8, u8)) -> (u8, u8) {
    if a.1 == b.1 {
        if a.0 < b.0 {
            a
        } else {
            b
        }
    } else if a.1 > b.1 {
        a
    } else {
        b
    }
}

/// Merges the zoom ranges computed for the mosaic's width and height into
/// the effective range of the whole pyramid.
pub fn combine_zoom_ranges(a: (u8, u8), b: (u8, u8)) -> (r: (u8, u8))
    ensures
        r == spec_combine_zoom_ranges(a, b),
        r.1 >= a.1 && r.1 >= b.1,
{
    if a.1 == b.1 {
        if a.0 < b.0 {
            a
        } else {
            b
        }
    } else if a.1 > b.1 {
        a
    } else {
        b
    }
}

} // verus!
