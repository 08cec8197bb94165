use vstd::prelude::*;
use crate::grid::{Grid, GridView};
use crate::random::random_ratio;
use crate::stepping::{CellRule, UpdateRate, cell_stepped, run_step, stepped};
use crate::torus::{next, prev, ring_next, ring_prev};

verus! {

pub open spec fn alive(v: u8) -> nat {
    if v != 0 { 1 } else { 0 }
}

/// The number of live cells among the eight neighbours of `(x, y)` on the torus.
pub open spec fn live_neighbors(g: GridView, x: int, y: int) -> nat {
    let xm = ring_prev(x, g.w as int);
    let xp = ring_next(x, g.w as int);
    let ym = ring_prev(y, g.h as int);
    let yp = ring_next(y, g.h as int);
    alive(g.at(xm, ym)) + alive(g.at(x, ym)) + alive(g.at(xp, ym)) + alive(g.at(xm, y)) + alive(g.at(xp, y))
        + alive(g.at(xm, yp)) + alive(g.at(x, yp)) + alive(g.at(xp, yp))
}

/// Conway's rule: a live cell survives with 2 or 3 live neighbours, a dead
/// one is born with exactly 3.
pub open spec fn life_rule(g: GridView, x: int, y: int) -> u8 {
    let n = live_neighbors(g, x, y);
    if g.at(x, y) != 0 {
        if n == 2 || n == 3 { 1 } else { 0 }
    } else {
        if n == 3 { 1 } else { 0 }
    }
}

/// `after` holds only dead (0) and live (1) cells, on the dimensions of `before`.
pub open spec fn life_seeded(before: GridView, after: GridView) -> bool {
    &&& after.wf()
    &&& after.same_dims(before)
    &&& forall|x: int, y: int| #[trigger] after.in_range(x, y) ==> after.at(x, y) == 0 || after.at(x, y) == 1
}

/// Conway's Game of Life on a torus: 0 is dead, anything else alive.
#[derive(Clone, Copy, Debug, PartialEq, Eq)]
pub struct Life;

impl Life {
    pub fn name(&self) -> (r: &'static str)
        ensures
            r@ == "life"@,
    {
        "life"
    }

    pub fn count_neighbors(cur: &Grid, x: usize, y: usize) -> (r: u8)
        requires
            cur@.wf(),
            cur@.in_range(x as int, y as int),
        ensures
            r == live_neighbors(cur@, x as int, y as int),
    {
        let w = cur.width();
        let h = cur.height();
        let xm1 = prev(x, w);
        let xp1 = next(x, w);
        let ym1 = prev(y, h);
        let yp1 = next(y, h);

        let mut n: u8 = 0;
        n = n + (cur.get(xm1, ym1) != 0) as u8;
        n = n + (cur.get(x, ym1) != 0) as u8;
        n = n + (cur.get(xp1, ym1) != 0) as u8;
        n = n + (cur.get(xm1, y) != 0) as u8;
        n = n + (cur.get(xp1, y) != 0) as u8;
        n = n + (cur.get(xm1, yp1) != 0) as u8;
        n = n + (cur.get(x, yp1) != 0) as u8;
        n = n + (cur.get(xp1, yp1) != 0) as u8;
        n
    }

    pub fn rule(g: &Grid, x: usize, y: usize) -> (r: u8)
        requires
            g@.wf(),
            g@.in_range(x as int, y as int),
        ensures
            r == life_rule(g@, x as int, y as int),
    {
        let alive = g.get(x, y) != 0;
        let n = Self::count_neighbors(g, x, y);
        if (alive && (n == 2 || n == 3)) || (!alive && n == 3) { 1 } else { 0 }
    }

    /// Seeds the grid at random: each cell alive (1) with chance one half, dead (0) otherwise.
    pub fn init(&self, grid: &mut Grid)
        requires
            old(grid)@.wf(),
        ensures
            life_seeded(old(grid)@, final(grid)@),
    {
        let n: usize = grid.width() * grid.height();
        let mut alive: Vec<bool> = Vec::new();
        let mut i: usize = 0;
        while i < n
            invariant
                i <= n,
                alive@.len() == i,
            decreases n - i,
        {
            alive.push(random_ratio(1, 2));
            i = i + 1;
        }
        Self::seed(grid, &alive);
    }

    /// Sets each cell alive (1) where `alive`, read row by row, holds, and dead (0) elsewhere.
    pub fn seed(grid: &mut Grid, alive: &Vec<bool>)
        requires
            old(grid)@.wf(),
            alive@.len() == old(grid)@.w * old(grid)@.h,
        ensures
            final(grid)@.wf(),
            final(grid)@.same_dims(old(grid)@),
            forall|x: int, y: int| #[trigger] final(grid)@.in_range(x, y) ==> final(grid)@.at(x, y) == if alive@[y
                * final(grid)@.w + x] {
                1u8
            } else {
                0u8
            },
    {
        let w = grid.width();
        let h = grid.height();
        let ghost g0 = grid@;
        let mut y: usize = 0;
        while y < h
            invariant
                grid@.wf(),
                grid@.same_dims(g0),
                alive@.len() == w * h,
                w == grid@.w,
                h == grid@.h,
                y <= h,
                forall|a: int, b: int| #[trigger] grid@.in_range(a, b) && b < y ==> grid@.at(a, b) == if alive@[b * w + a] {
                    1u8
                } else {
                    0u8
                },
            decreases h - y,
        {
            let mut x: usize = 0;
            while x < w
                invariant
                    grid@.wf(),
                    grid@.same_dims(g0),
                    alive@.len() == w * h,
                    w == grid@.w,
                    h == grid@.h,
                    y < h,
                    x <= w,
                    forall|a: int, b: int| #[trigger] grid@.in_range(a, b) && (b < y || (b == y && a < x)) ==> grid@.at(a, b)
                        == if alive@[b * w + a] {
                        1u8
                    } else {
                        0u8
                    },
                decreases w - x,
            {
                proof {
                    crate::grid::lemma_index(w as int, h as int, x as int, y as int);
                    assert(y * w <= y * w + x);
                }
                let ghost before = grid@;
                grid.set(x, y, if alive[y * w + x] { 1 } else { 0 });
                proof {
                    assert forall|a: int, b: int| #[trigger] grid@.in_range(a, b) && (b < y || (b == y && a < x + 1)) implies grid@.at(
                        a,
                        b,
                    ) == if alive@[b * w + a] {
                        1u8
                    } else {
                        0u8
                    } by {
                        assert(before.in_range(a, b));
                    }
                }
                x = x + 1;
            }
            y = y + 1;
        }
    }

    /// Leaves a loaded grid as it is.
    pub fn soft_init(&self, grid: &mut Grid)
        ensures
            *final(grid) == *old(grid),
    {
    }

    /// One generation of Life from `current` into `next`.
    pub fn step(&self, current: &Grid, next: &mut Grid, rate: UpdateRate)
        requires
            current@.wf(),
            old(next)@.wf(),
            old(next)@.same_dims(current@),
            rate.wf(),
        ensures
            stepped(current@, final(next)@, rate, |x: int, y: int| life_rule(current@, x, y)),
    {
        run_step(CellRule::Life, current, next, rate);
        assert((|x: int, y: int| CellRule::Life.spec_apply(current@, x, y)) =~= (|x: int, y: int| life_rule(current@, x, y)));
    }
}

/// One of the four cells of the 2 by 2 block whose top-left corner is `(bx, by)`.
pub open spec fn in_block(bx: int, by: int, x: int, y: int) -> bool {
    bx <= x <= bx + 1 && by <= y <= by + 1
}

/// A 2 by 2 block of live cells on an otherwise dead grid is a still life:
/// a synchronous generation leaves it as it is, and so does any number of them.
pub proof fn lemma_block_still(g: GridView, nxt: GridView, rate: UpdateRate, bx: int, by: int)
    requires
        g.wf(),
        g.w >= 4,
        g.h >= 4,
        0 <= bx && bx + 1 < g.w,
        0 <= by && by + 1 < g.h,
        forall|x: int, y: int| #[trigger] g.in_range(x, y) ==> g.at(x, y) == if in_block(bx, by, x, y) { 1u8 } else { 0u8 },
        rate.is_synchronous(),
        stepped(g, nxt, rate, |x: int, y: int| life_rule(g, x, y)),
    ensures
        nxt == g,
{
    assert forall|x: int, y: int| nxt.in_range(x, y) implies #[trigger] nxt.at(x, y) == g.at(x, y) by {
        assert(cell_stepped(g, nxt, rate, |x: int, y: int| life_rule(g, x, y), x, y));
        let w = g.w as int;
        let h = g.h as int;
        let xm = ring_prev(x, w);
        let xp = ring_next(x, w);
        let ym = ring_prev(y, h);
        let yp = ring_next(y, h);
        assert(g.in_range(xm, ym) && g.in_range(x, ym) && g.in_range(xp, ym) && g.in_range(xm, y));
        assert(g.in_range(xp, y) && g.in_range(xm, yp) && g.in_range(x, yp) && g.in_range(xp, yp));
        assert(g.in_range(x, y));
    }
    crate::grid::lemma_grid_ext(nxt, g);
}

} // verus!
