use vstd::prelude::*;

verus! {

/// The coordinate before `x` on a ring of `n` positions.
pub open spec fn ring_prev(x: int, n: int) -> int {
    if x == 0 { n - 1 } else { x - 1 }
}

/// The coordinate after `x` on a ring of `n` positions.
pub open spec fn ring_next(x: int, n: int) -> int {
    if x + 1 == n { 0 } else { x + 1 }
}

/// `x` moved by `d` steps (negative: backwards) on a ring of `n` positions.
pub open spec fn ring_shift(x: int, d: int, n: int) -> int
    decreases (if d < 0 { -d } else { d }),
{
    if d == 0 {
        x
    } else if d > 0 {
        ring_next(ring_shift(x, d - 1, n), n)
    } else {
        ring_prev(ring_shift(x, d + 1, n), n)
    }
}

pub fn prev(x: usize, n: usize) -> (r: usize)
    requires
        x < n,
    ensures
        r == ring_prev(x as int, n as int),
        r < n,
{
    if x == 0 { n - 1 } else { x - 1 }
}

pub fn next(x: usize, n: usize) -> (r: usize)
    requires
        x < n,
    ensures
        r == ring_next(x as int, n as int),
        r < n,
{
    if x + 1 == n { 0 } else { x + 1 }
}

/// `x` moved by `i - 2` steps, for `i` in `0..5`.
pub fn shift_window(x: usize, i: usize, n: usize) -> (r: usize)
    requires
        x < n,
        i < 5,
    ensures
        r == ring_shift(x as int, i - 2, n as int),
        r < n,
{
    reveal_with_fuel(ring_shift, 3);
    if i == 0 {
        prev(prev(x, n), n)
    } else if i == 1 {
        prev(x, n)
    } else if i == 2 {
        x
    } else if i == 3 {
        next(x, n)
    } else {
        next(next(x, n), n)
    }
}

} // verus!
