use vstd::prelude::*;
use crate::grid::{Grid, GridView};
use crate::stepping::{CellRule, UpdateRate, cell_stepped, run_step, stepped};

verus! {

/// The inversion rule for code `v`: 0 becomes 1, anything else becomes 0.
pub open spec fn invert(v: u8) -> u8 {
    if v == 0 { 1 } else { 0 }
}

pub open spec fn dummy_rule(g: GridView, x: int, y: int) -> u8 {
    invert(g.at(x, y))
}

/// Whether `(x, y)` lies in the centred block of a `w` by `h` grid that
/// spans a third to two thirds of each dimension.
pub open spec fn in_center_block(w: int, h: int, x: int, y: int) -> bool {
    w / 3 <= x < 2 * w / 3 && h / 3 <= y < 2 * h / 3
}

/// `after` is the centred block of 1 over zeros, on the dimensions of `before`.
pub open spec fn dummy_seeded(before: GridView, after: GridView) -> bool {
    &&& after.wf()
    &&& after.same_dims(before)
    &&& forall|x: int, y: int| #[trigger] after.in_range(x, y) ==>
        after.at(x, y) == if in_center_block(after.w as int, after.h as int, x, y) { 1u8 } else { 0u8 }
}

/// A baseline rule that inverts every updated cell, without looking at neighbours.
#[derive(Clone, Copy, Debug, PartialEq, Eq)]
pub struct Dummy;

impl Dummy {
    pub fn name(&self) -> (r: &'static str)
        ensures
            r@ == "dummy"@,
    {
        "dummy"
    }

    pub fn rule(g: &Grid, x: usize, y: usize) -> (r: u8)
        requires
            g@.wf(),
            g@.in_range(x as int, y as int),
        ensures
            r == dummy_rule(g@, x as int, y as int),
    {
        if g.get(x, y) == 0 { 1 } else { 0 }
    }

    /// Clears the grid and stamps the centred block with 1.
    pub fn init(&self, grid: &mut Grid)
        requires
            old(grid)@.wf(),
        ensures
            dummy_seeded(old(grid)@, final(grid)@),
    {
        grid.fill(0);
        let w = grid.width();
        let h = grid.height();
        let y0 = h / 3;
        let y1 = 2 * (h / 3) + (2 * (h % 3)) / 3;
        let x0 = w / 3;
        let x1 = 2 * (w / 3) + (2 * (w % 3)) / 3;
        assert(y1 == 2 * h / 3 && x1 == 2 * w / 3) by (nonlinear_arith)
            requires y1 == 2 * (h / 3) + (2 * (h % 3)) / 3, x1 == 2 * (w / 3) + (2 * (w % 3)) / 3;
        let ghost g0 = grid@;
        let mut y: usize = y0;
        while y < y1
            invariant
                grid@.wf(),
                grid@.same_dims(g0),
                w == grid@.w,
                h == grid@.h,
                y0 <= y <= y1 <= h,
                x0 <= x1 <= w,
                y0 == h / 3,
                y1 == 2 * h / 3,
                x0 == w / 3,
                x1 == 2 * w / 3,
                forall|a: int, b: int| #[trigger] grid@.in_range(a, b) ==>
                    grid@.at(a, b) == if in_center_block(w as int, h as int, a, b) && b < y { 1u8 } else { 0u8 },
            decreases y1 - y,
        {
            let mut x: usize = x0;
            while x < x1
                invariant
                    grid@.wf(),
                    grid@.same_dims(g0),
                    w == grid@.w,
                    h == grid@.h,
                    y0 <= y < y1 <= h,
                    x0 <= x <= x1 <= w,
                    y0 == h / 3,
                    y1 == 2 * h / 3,
                    x0 == w / 3,
                    x1 == 2 * w / 3,
                    forall|a: int, b: int| #[trigger] grid@.in_range(a, b) ==>
                        grid@.at(a, b) == if in_center_block(w as int, h as int, a, b) && (b < y || (b == y && a < x)) { 1u8 } else { 0u8 },
                decreases x1 - x,
            {
                let ghost before = grid@;
                grid.set(x, y, 1);
                proof {
                    assert forall|a: int, b: int| #[trigger] grid@.in_range(a, b) implies
                        grid@.at(a, b) == if in_center_block(w as int, h as int, a, b) && (b < y || (b == y && a < x + 1)) { 1u8 } else { 0u8 } by {
                        assert(before.in_range(a, b));
                    }
                }
                x = x + 1;
            }
            y = y + 1;
        }
    }

    /// Leaves a loaded grid as it is.
    pub fn soft_init(&self, grid: &mut Grid)
        ensures
            *final(grid) == *old(grid),
    {
    }

    /// One generation of inversion from `current` into `next`.
    pub fn step(&self, current: &Grid, next: &mut Grid, rate: UpdateRate)
        requires
            current@.wf(),
            old(next)@.wf(),
            old(next)@.same_dims(current@),
            rate.wf(),
        ensures
            stepped(current@, final(next)@, rate, |x: int, y: int| dummy_rule(current@, x, y)),
    {
        run_step(CellRule::Invert, current, next, rate);
        assert((|x: int, y: int| CellRule::Invert.spec_apply(current@, x, y)) =~= (|x: int, y: int| dummy_rule(current@, x, y)));
    }
}

/// Two synchronous generations of inversion give back a grid of dead (0)
/// and live (1) cells.
pub proof fn lemma_invert_twice(g0: GridView, g1: GridView, g2: GridView, rate: UpdateRate)
    requires
        g0.wf(),
        rate.is_synchronous(),
        forall|x: int, y: int| #[trigger] g0.in_range(x, y) ==> g0.at(x, y) == 0 || g0.at(x, y) == 1,
        stepped(g0, g1, rate, |x: int, y: int| dummy_rule(g0, x, y)),
        stepped(g1, g2, rate, |x: int, y: int| dummy_rule(g1, x, y)),
    ensures
        g2 == g0,
{
    assert forall|x: int, y: int| g2.in_range(x, y) implies #[trigger] g2.at(x, y) == g0.at(x, y) by {
        assert(cell_stepped(g0, g1, rate, |x: int, y: int| dummy_rule(g0, x, y), x, y));
        assert(cell_stepped(g1, g2, rate, |x: int, y: int| dummy_rule(g1, x, y), x, y));
        assert(g0.in_range(x, y));
    }
    crate::grid::lemma_grid_ext(g2, g0);
}

} // verus!
