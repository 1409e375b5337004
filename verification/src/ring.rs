//! Arithmetic on the Chord identifier ring (identifiers 0 to 255).
use vstd::prelude::*;

verus! {

/// Clockwise distance from `from` to `to` on the 256-position ring.
pub open spec fn ring_dist(from: u8, to: u8) -> int {
    if to >= from {
        to - from
    } else {
        to - from + 256
    }
}

/// `val` lies in the clockwise interval that starts after `start` and ends before
/// `end` (or at `end` when `inclusive_end` holds). When `start == end` the ring
/// has a single owner and the interval is the whole ring.
pub open spec fn in_interval(val: u8, start: u8, end: u8, inclusive_end: bool) -> bool {
    ||| inclusive_end && val == end
    ||| start == end
    ||| (0 < ring_dist(start, val) && ring_dist(start, val) < ring_dist(start, end))
}

/// Whether `val` lies between `start` and `end` going clockwise round the ring.
pub fn is_between(val: u8, start: u8, end: u8, inclusive_end: bool) -> (r: bool)
    ensures
        r == in_interval(val, start, end, inclusive_end),
{
    if inclusive_end && val == end {
        return true;
    }
    if start == end {
        return true;
    }
    if start < end {
        val > start && val < end
    } else {
        val > start || val < end
    }
}

/// Between two distinct nodes `a` and `b`, every identifier is the
/// responsibility of exactly one: it lies in `(a, b]` or in `(b, a]`, never both.
pub proof fn lemma_responsibility_partition(a: u8, b: u8, v: u8)
    requires
        a != b,
    ensures
        in_interval(v, a, b, true) != in_interval(v, b, a, true),
{
}

} // verus!
