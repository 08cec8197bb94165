use vstd::prelude::*;
use crate::grid::{Grid, GridView};
use crate::patterns::{
    ALL_PATTERNS, Pattern5, WILDCARD, cell_fits, fits_at, fits_under, sym_col, sym_row, template_matches,
    template_of,
};
use crate::stepping::{CellRule, UpdateRate, run_step, stepped};
use crate::torus::{next, prev, ring_next, ring_prev, ring_shift, shift_window};

verus! {

pub const OPEN: u8 = 0;
pub const WALL: u8 = 1;
pub const START: u8 = 2;
pub const GOAL: u8 = 3;
pub const FRONTIER: u8 = 4;
pub const VISITED: u8 = 5;
pub const TO_DELETE: u8 = 6;
pub const ROUTE: u8 = 7;

/// Rows that `init` walls off: the first from the left edge up to this column,
/// the second from past this column to the right edge.
pub const WALL_ROW_A: usize = 15;
pub const WALL_ROW_A_END: usize = 60;
pub const WALL_ROW_B: usize = 25;
pub const WALL_ROW_B_START: usize = 30;

pub open spec fn indicator(b: bool) -> nat {
    if b { 1 } else { 0 }
}

/// How many of the four torus neighbours of `(x, y)` hold code `c`.
pub open spec fn neighbor_count(g: GridView, x: int, y: int, c: u8) -> nat {
    let xm = ring_prev(x, g.w as int);
    let xp = ring_next(x, g.w as int);
    let ym = ring_prev(y, g.h as int);
    let yp = ring_next(y, g.h as int);
    indicator(g.at(x, ym) == c) + indicator(g.at(xm, y) == c) + indicator(g.at(xp, y) == c) + indicator(
        g.at(x, yp) == c,
    )
}

pub open spec fn has_neighbor(g: GridView, x: int, y: int, c: u8) -> bool {
    neighbor_count(g, x, y, c) > 0
}

/// The 5 by 5 window centred on `(x, y)`, as a function of `(column, row)`, with wraparound.
pub open spec fn grid_window(g: GridView, x: int, y: int) -> spec_fn(int, int) -> u8 {
    |i: int, j: int| g.at(ring_shift(x, i - 2, g.w as int), ring_shift(y, j - 2, g.h as int))
}

/// Whether the route cell `(x, y)` is a dead end or a corner to be cut.
pub open spec fn prunable(g: GridView, x: int, y: int) -> bool {
    let blocked = neighbor_count(g, x, y, WALL) + neighbor_count(g, x, y, OPEN);
    ||| blocked >= 3
    ||| (blocked >= 2 && neighbor_count(g, x, y, TO_DELETE) >= 1)
    ||| exists|k: int| 0 <= k < 3 && #[trigger] template_matches(grid_window(g, x, y), template_of(ALL_PATTERNS[k]))
}

/// The solver's rule for one cell: flood from the start, trace back from the
/// goal, then prune the route and clear what was pruned.
pub open spec fn solver_rule(g: GridView, x: int, y: int) -> u8 {
    let v = g.at(x, y);
    if v == OPEN {
        if has_neighbor(g, x, y, START) || has_neighbor(g, x, y, FRONTIER) { FRONTIER } else { OPEN }
    } else if v == FRONTIER {
        if has_neighbor(g, x, y, GOAL) { ROUTE } else { VISITED }
    } else if v == VISITED {
        if has_neighbor(g, x, y, ROUTE) { ROUTE } else { VISITED }
    } else if v == ROUTE {
        if prunable(g, x, y) { TO_DELETE } else { ROUTE }
    } else if v == TO_DELETE {
        OPEN
    } else {
        v
    }
}

/// Where `init` puts walls on a `w` by `h` grid: the border and the two wall rows.
pub open spec fn initial_wall(w: int, h: int, x: int, y: int) -> bool {
    ||| x == 0 || x == w - 1 || y == 0 || y == h - 1
    ||| (y == WALL_ROW_A && x < WALL_ROW_A_END)
    ||| (y == WALL_ROW_B && x > WALL_ROW_B_START)
}

pub open spec fn start_x() -> int { 1 }
pub open spec fn start_y() -> int { 1 }
pub open spec fn goal_x(w: int) -> int { w - 9 }
pub open spec fn goal_y(h: int) -> int { h - 10 }

/// A grid large enough to hold the start and the goal marker.
pub open spec fn holds_markers(g: GridView) -> bool {
    g.w >= 9 && g.h >= 10
}

/// `g` is `before` with the start and goal markers stamped, when they fit.
pub open spec fn markers_stamped(before: GridView, g: GridView) -> bool {
    &&& g.wf()
    &&& g.same_dims(before)
    &&& forall|x: int, y: int| #[trigger] g.in_range(x, y) ==> g.at(x, y) == if holds_markers(before)
        && x == goal_x(g.w as int) && y == goal_y(g.h as int) {
        GOAL
    } else if holds_markers(before) && x == start_x() && y == start_y() {
        START
    } else {
        before.at(x, y)
    }
}

/// `after` is the initial maze on the dimensions of `before`: open path,
/// walls where `initial_wall` says, and the start and goal markers.
pub open spec fn solver_seeded(before: GridView, after: GridView) -> bool {
    &&& after.wf()
    &&& after.same_dims(before)
    &&& forall|x: int, y: int| #[trigger] after.in_range(x, y) ==> after.at(x, y) == if holds_markers(after) && x == goal_x(
        after.w as int,
    ) && y == goal_y(after.h as int) {
        GOAL
    } else if holds_markers(after) && x == start_x() && y == start_y() {
        START
    } else if initial_wall(after.w as int, after.h as int, x, y) {
        WALL
    } else {
        OPEN
    }
}

/// Flood fill, backtrace and pruning over a walled maze.
#[derive(Clone, Copy, Debug, PartialEq, Eq)]
pub struct MazeSolver;

impl MazeSolver {
    pub fn name(&self) -> (r: &'static str)
        ensures
            r@ == "mazesolver"@,
    {
        "mazesolver"
    }

    /// Clears the grid to open path, walls the border and the two wall rows
    /// (where the grid reaches them), then stamps the start and goal markers.
    pub fn init(&self, grid: &mut Grid)
        requires
            old(grid)@.wf(),
        ensures
            solver_seeded(old(grid)@, final(grid)@),
    {
        let w = grid.width();
        let h = grid.height();
        let ghost g0 = grid@;
        let mut y: usize = 0;
        while y < h
            invariant
                grid@.wf(),
                grid@.same_dims(g0),
                w == grid@.w,
                h == grid@.h,
                y <= h,
                forall|a: int, b: int| #[trigger] grid@.in_range(a, b) && b < y ==>
                    grid@.at(a, b) == if initial_wall(w as int, h as int, a, b) { WALL } else { OPEN },
            decreases h - y,
        {
            let mut x: usize = 0;
            while x < w
                invariant
                    grid@.wf(),
                    grid@.same_dims(g0),
                    w == grid@.w,
                    h == grid@.h,
                    y < h,
                    x <= w,
                    forall|a: int, b: int| #[trigger] grid@.in_range(a, b) && (b < y || (b == y && a < x)) ==>
                        grid@.at(a, b) == if initial_wall(w as int, h as int, a, b) { WALL } else { OPEN },
                decreases w - x,
            {
                let wall = x == 0 || x == w - 1 || y == 0 || y == h - 1 || (y == WALL_ROW_A && x < WALL_ROW_A_END) || (
                y == WALL_ROW_B && x > WALL_ROW_B_START);
                let ghost before = grid@;
                grid.set(x, y, if wall { WALL } else { OPEN });
                proof {
                    assert forall|a: int, b: int| #[trigger] grid@.in_range(a, b) && (b < y || (b == y && a < x + 1)) implies
                        grid@.at(a, b) == if initial_wall(w as int, h as int, a, b) { WALL } else { OPEN } by {
                        assert(before.in_range(a, b));
                    }
                }
                x = x + 1;
            }
            y = y + 1;
        }
        let ghost walled = grid@;
        self.soft_init(grid);
        proof {
            assert forall|x: int, y: int| #[trigger] grid@.in_range(x, y) implies walled.at(x, y) == if initial_wall(w as int, h as int, x, y) { WALL } else { OPEN } by {
                assert(walled.in_range(x, y));
            }
        }
    }

    /// Stamps the start marker at (1, 1) and the goal marker nine columns from
    /// the right and ten rows from the bottom, touching no other cell; a grid
    /// too small to hold both is left as it is.
    pub fn soft_init(&self, grid: &mut Grid)
        requires
            old(grid)@.wf(),
        ensures
            markers_stamped(old(grid)@, final(grid)@),
    {
        let w = grid.width();
        let h = grid.height();
        let ghost g0 = grid@;
        if w >= 9 && h >= 10 {
            grid.set(1, 1, START);
            let ghost g1 = grid@;
            grid.set(w - 9, h - 10, GOAL);
            proof {
                assert forall|x: int, y: int| #[trigger] grid@.in_range(x, y) implies grid@.at(x, y) == if holds_markers(g0)
                    && x == goal_x(grid@.w as int) && y == goal_y(grid@.h as int) {
                    GOAL
                } else if holds_markers(g0) && x == start_x() && y == start_y() {
                    START
                } else {
                    g0.at(x, y)
                } by {
                    assert(g1.in_range(x, y));
                    assert(g0.in_range(x, y));
                }
            }
        }
    }

    /// One generation of the solver's rule from `current` into `next`.
    pub fn step(&self, current: &Grid, next: &mut Grid, rate: UpdateRate)
        requires
            current@.wf(),
            old(next)@.wf(),
            old(next)@.same_dims(current@),
            rate.wf(),
        ensures
            stepped(current@, final(next)@, rate, |x: int, y: int| solver_rule(current@, x, y)),
    {
        run_step(CellRule::Solver, current, next, rate);
        assert((|x: int, y: int| CellRule::Solver.spec_apply(current@, x, y)) =~= (|x: int, y: int| solver_rule(current@, x, y)));
    }

    /// For each code `c` below 8, how many of the four neighbours hold it.
    pub fn get_4neigh_count(cur: &Grid, x: usize, y: usize) -> (r: [u8; 8])
        requires
            cur@.wf(),
            cur@.in_range(x as int, y as int),
        ensures
            forall|c: int| 0 <= c < 8 ==> #[trigger] r@[c] == neighbor_count(cur@, x as int, y as int, c as u8),
    {
        let w = cur.width();
        let h = cur.height();
        let xm1 = prev(x, w);
        let xp1 = next(x, w);
        let ym1 = prev(y, h);
        let yp1 = next(y, h);
        let a = cur.get(x, ym1);
        let b = cur.get(xm1, y);
        let c = cur.get(xp1, y);
        let d = cur.get(x, yp1);
        let mut l: [u8; 8] = [0u8; 8];
        let mut k: usize = 0;
        while k < 8
            invariant
                k <= 8,
                l@.len() == 8,
                a == cur@.at(x as int, ring_prev(y as int, cur@.h as int)),
                b == cur@.at(ring_prev(x as int, cur@.w as int), y as int),
                c == cur@.at(ring_next(x as int, cur@.w as int), y as int),
                d == cur@.at(x as int, ring_next(y as int, cur@.h as int)),
                forall|i: int| 0 <= i < k ==> #[trigger] l@[i] == neighbor_count(cur@, x as int, y as int, i as u8),
            decreases 8 - k,
        {
            let kk = k as u8;
            let mut n: u8 = 0;
            if a == kk {
                n = n + 1;
            }
            if b == kk {
                n = n + 1;
            }
            if c == kk {
                n = n + 1;
            }
            if d == kk {
                n = n + 1;
            }
            let ghost before = l@;
            l[k] = n;
            proof {
                assert forall|i: int| 0 <= i < k + 1 implies #[trigger] l@[i] == neighbor_count(cur@, x as int, y as int, i as u8) by {
                    if i < k {
                        assert(before[i] == neighbor_count(cur@, x as int, y as int, i as u8));
                    }
                }
            }
            k = k + 1;
        }
        l
    }

    /// Whether any of the four neighbours holds `celltype`.
    pub fn in_neighbors(cur: &Grid, x: usize, y: usize, celltype: u8) -> (r: bool)
        requires
            cur@.wf(),
            cur@.in_range(x as int, y as int),
        ensures
            r == has_neighbor(cur@, x as int, y as int, celltype),
    {
        let w = cur.width();
        let h = cur.height();
        let xm1 = prev(x, w);
        let xp1 = next(x, w);
        let ym1 = prev(y, h);
        let yp1 = next(y, h);
        cur.get(x, ym1) == celltype || cur.get(xm1, y) == celltype || cur.get(xp1, y) == celltype || cur.get(
            x,
            yp1,
        ) == celltype
    }

    /// Whether the window centred on `(x, y)` matches `pat` under one of the
    /// eight symmetries of the square.
    pub fn match_pattern(cur: &Grid, x: usize, y: usize, pat: &Pattern5) -> (r: bool)
        requires
            cur@.wf(),
            cur@.in_range(x as int, y as int),
        ensures
            r == template_matches(grid_window(cur@, x as int, y as int), template_of(*pat)),
    {
        let w = cur.width();
        let h = cur.height();
        let ghost win = grid_window(cur@, x as int, y as int);
        let ghost tp = template_of(*pat);
        let mut t: usize = 0;
        while t < 8
            invariant
                t <= 8,
                win == grid_window(cur@, x as int, y as int),
                tp == template_of(*pat),
                cur@.wf(),
                cur@.in_range(x as int, y as int),
                w == cur@.w,
                h == cur@.h,
                forall|s: int| 0 <= s < t ==> !#[trigger] fits_under(win, tp, s),
            decreases 8 - t,
        {
            let mut ok = true;
            let mut j: usize = 0;
            while j < 5 && ok
                invariant
                    j <= 5,
                    t < 8,
                    win == grid_window(cur@, x as int, y as int),
                    tp == template_of(*pat),
                    cur@.wf(),
                    cur@.in_range(x as int, y as int),
                    w == cur@.w,
                    h == cur@.h,
                    ok ==> forall|a: int, b: int| 0 <= a < 5 && 0 <= b < j ==> #[trigger] fits_at(win, tp, t as int, a, b),
                    !ok ==> !fits_under(win, tp, t as int),
                decreases 5 - j + (if ok { 1int } else { 0 }),
            {
                let mut i: usize = 0;
                while i < 5 && ok
                    invariant
                        i <= 5,
                        j < 5,
                        t < 8,
                        win == grid_window(cur@, x as int, y as int),
                        tp == template_of(*pat),
                        cur@.wf(),
                        cur@.in_range(x as int, y as int),
                        w == cur@.w,
                        h == cur@.h,
                        ok ==> forall|a: int, b: int| 0 <= a < 5 && 0 <= b < j ==> #[trigger] fits_at(win, tp, t as int, a, b),
                        ok ==> forall|a: int| 0 <= a < i ==> #[trigger] fits_at(win, tp, t as int, a, j as int),
                        !ok ==> !fits_under(win, tp, t as int),
                    decreases 5 - i + (if ok { 1int } else { 0 }),
                {
                    let gx = shift_window(x, i, w);
                    let gy = shift_window(y, j, h);
                    let (pi, pj) = sym_index(t, i, j);
                    let want = pat[pj][pi];
                    let v = cur.get(gx, gy);
                    if want != WILDCARD && !(want >= 0 && v == want as u8) {
                        ok = false;
                        assert(!fits_at(win, tp, t as int, i as int, j as int));
                    } else {
                        i = i + 1;
                    }
                }
                if ok {
                    j = j + 1;
                }
            }
            if ok {
                assert(fits_under(win, tp, t as int));
                return true;
            }
            t = t + 1;
        }
        false
    }

    /// The solver's rule for the cell `(x, y)`.
    pub fn rule(g: &Grid, x: usize, y: usize) -> (r: u8)
        requires
            g@.wf(),
            g@.in_range(x as int, y as int),
        ensures
            r == solver_rule(g@, x as int, y as int),
    {
        let v = g.get(x, y);
        if v == OPEN {
            if Self::in_neighbors(g, x, y, START) || Self::in_neighbors(g, x, y, FRONTIER) {
                FRONTIER
            } else {
                OPEN
            }
        } else if v == FRONTIER {
            if Self::in_neighbors(g, x, y, GOAL) { ROUTE } else { VISITED }
        } else if v == VISITED {
            if Self::in_neighbors(g, x, y, ROUTE) { ROUTE } else { VISITED }
        } else if v == ROUTE {
            if Self::prune(g, x, y) { TO_DELETE } else { ROUTE }
        } else if v == TO_DELETE {
            OPEN
        } else {
            v
        }
    }

    fn prune(g: &Grid, x: usize, y: usize) -> (r: bool)
        requires
            g@.wf(),
            g@.in_range(x as int, y as int),
        ensures
            r == prunable(g@, x as int, y as int),
    {
        let l = Self::get_4neigh_count(g, x, y);
        let blocked = l[WALL as usize] + l[OPEN as usize];
        if blocked >= 3 || (blocked >= 2 && l[TO_DELETE as usize] >= 1) {
            return true;
        }
        let mut k: usize = 0;
        while k < 3
            invariant
                k <= 3,
                g@.wf(),
                g@.in_range(x as int, y as int),
                forall|m: int| 0 <= m < k ==> !#[trigger] template_matches(grid_window(g@, x as int, y as int), template_of(ALL_PATTERNS[m])),
            decreases 3 - k,
        {
            if Self::match_pattern(g, x, y, &ALL_PATTERNS[k]) {
                return true;
            }
            k = k + 1;
        }
        false
    }
}

/// The template position `(column, row)` read at window position `(i, j)` under symmetry `t`.
fn sym_index(t: usize, i: usize, j: usize) -> (r: (usize, usize))
    requires
        t < 8,
        i < 5,
        j < 5,
    ensures
        r.0 == sym_col(t as int, i as int, j as int),
        r.1 == sym_row(t as int, i as int, j as int),
        r.0 < 5,
        r.1 < 5,
{
    if t == 0 { (i, j) }
    else if t == 1 { (4 - j, i) }
    else if t == 2 { (4 - i, 4 - j) }
    else if t == 3 { (j, 4 - i) }
    else if t == 4 { (4 - i, j) }
    else if t == 5 { (4 - j, 4 - i) }
    else if t == 6 { (i, 4 - j) }
    else { (j, i) }
}

} // verus!
