use vstd::prelude::*;
use crate::grid::{Grid, GridView};
use crate::random::{random_below, random_ratio};
use crate::stepping::{UpdateRate, copy_into};

verus! {

pub const CARVED: u8 = 0;
pub const WALL: u8 = 1;

/// Strictly inside the border of `g`.
pub open spec fn interior(g: GridView, a: int, b: int) -> bool {
    0 < a < g.w - 1 && 0 < b < g.h - 1
}

/// The lattice directions, in the order they are examined: left, right, up, down.
pub open spec fn dir_dx(d: int) -> int {
    if d == 0 { -2 } else if d == 1 { 2 } else { 0 }
}

pub open spec fn dir_dy(d: int) -> int {
    if d == 2 { -2 } else if d == 3 { 2 } else { 0 }
}

/// The lattice neighbour of `(x, y)` in direction `d` is inside the border and still wall.
pub open spec fn unvisited(g: GridView, x: int, y: int, d: int) -> bool {
    interior(g, x + dir_dx(d), y + dir_dy(d)) && g.at(x + dir_dx(d), y + dir_dy(d)) == WALL
}

/// The unvisited lattice neighbours among the first `n` directions, in order.
pub open spec fn candidates_upto(g: GridView, x: int, y: int, n: int) -> Seq<(int, int)>
    decreases n,
{
    if n <= 0 {
        Seq::empty()
    } else {
        let before = candidates_upto(g, x, y, n - 1);
        if unvisited(g, x, y, n - 1) {
            before.push((x + dir_dx(n - 1), y + dir_dy(n - 1)))
        } else {
            before
        }
    }
}

/// The unvisited lattice neighbours of `(x, y)`, or none when `(x, y)` is off the grid.
pub open spec fn candidates(g: GridView, x: int, y: int) -> Seq<(int, int)> {
    if g.in_range(x, y) { candidates_upto(g, x, y, 4) } else { Seq::empty() }
}

/// `nxt` is `cur` with the cells `(a1, b1)` and `(a2, b2)` carved.
pub open spec fn carved_two(cur: GridView, nxt: GridView, a1: int, b1: int, a2: int, b2: int) -> bool {
    &&& nxt.wf()
    &&& nxt.same_dims(cur)
    &&& forall|a: int, b: int| #[trigger] nxt.in_range(a, b) ==> nxt.at(a, b) == if (a == a1 && b == b1) || (a == a2 && b
        == b2) {
        CARVED
    } else {
        cur.at(a, b)
    }
}

/// The generator's state: whether the carve has begun, and the path of
/// lattice cells from the start to the cell being extended.
pub ghost struct GeneratorView {
    pub started: bool,
    pub trail: Seq<(usize, usize)>,
}

/// The start lattice cell of the carve.
pub open spec fn start_cell() -> (usize, usize) {
    (1, 1)
}

/// One carve or backtrack action of the depth-first search, taking `cur`
/// with state `s` to `nxt` with state `t`.
pub open spec fn dfs_action(s: GeneratorView, cur: GridView, t: GeneratorView, nxt: GridView) -> bool {
    if !s.started {
        &&& t.started
        &&& if cur.w >= 3 && cur.h >= 3 {
            t.trail == s.trail.push(start_cell()) && carved_two(cur, nxt, 1, 1, 1, 1)
        } else {
            t.trail == s.trail && nxt == cur
        }
    } else if s.trail.len() == 0 {
        t == s && nxt == cur
    } else {
        let top = s.trail.last();
        let cands = candidates(cur, top.0 as int, top.1 as int);
        &&& t.started
        &&& if cands.len() == 0 {
            t.trail == s.trail.drop_last() && nxt == cur
        } else {
            exists|k: int|
                0 <= k < cands.len() && #[trigger] cands[k] == (t.trail.last().0 as int, t.trail.last().1 as int)
                    && t.trail == s.trail.push(t.trail.last()) && carved_two(
                    cur,
                    nxt,
                    (top.0 + cands[k].0) / 2,
                    (top.1 + cands[k].1) / 2,
                    cands[k].0,
                    cands[k].1,
                )
        }
    }
}

/// `after` is all wall, on the dimensions of `before`.
pub open spec fn all_wall(before: GridView, after: GridView) -> bool {
    &&& after.wf()
    &&& after.same_dims(before)
    &&& forall|x: int, y: int| #[trigger] after.in_range(x, y) ==> after.at(x, y) == WALL
}

/// `nxt` and the state `t` follow from `cur` and state `s` by one generation under `rate`.
pub open spec fn generator_stepped(s: GeneratorView, cur: GridView, t: GeneratorView, nxt: GridView, rate: UpdateRate) -> bool {
    &&& dfs_action(s, cur, t, nxt) || (t == s && nxt == cur)
    &&& rate.is_single_site() || rate.is_synchronous() ==> dfs_action(s, cur, t, nxt)
}

/// Once the carve has backtracked all the way out, every further generation
/// copies the grid unchanged and keeps the state.
pub proof fn lemma_finished_is_fixed(s: GeneratorView, cur: GridView, t: GeneratorView, nxt: GridView, rate: UpdateRate)
    requires
        s.started,
        s.trail.len() == 0,
        generator_stepped(s, cur, t, nxt, rate),
    ensures
        t == s,
        nxt == cur,
{
}

/// A lattice cell: both coordinates odd.
pub open spec fn lattice(x: int, y: int) -> bool {
    x % 2 == 1 && y % 2 == 1
}

/// A passage: the cell between two horizontally or vertically adjacent
/// lattice cells, both of which are carved.
pub open spec fn passage(g: GridView, x: int, y: int) -> bool {
    ||| (x % 2 == 0 && y % 2 == 1 && g.in_range(x - 1, y) && g.in_range(x + 1, y) && g.at(x - 1, y) == CARVED && g.at(
        x + 1,
        y,
    ) == CARVED)
    ||| (x % 2 == 1 && y % 2 == 0 && g.in_range(x, y - 1) && g.in_range(x, y + 1) && g.at(x, y - 1) == CARVED && g.at(
        x,
        y + 1,
    ) == CARVED)
}

/// What holds of the carve at every generation: the stack holds carved
/// lattice cells inside the border, and every cell that is not wall is a
/// lattice cell or a passage between two carved lattice cells.
pub open spec fn carve_invariant(s: GeneratorView, g: GridView) -> bool {
    &&& g.wf()
    &&& forall|k: int| 0 <= k < s.trail.len() ==> {
        let c = #[trigger] s.trail[k];
        interior(g, c.0 as int, c.1 as int) && lattice(c.0 as int, c.1 as int) && g.at(c.0 as int, c.1 as int) == CARVED
    }
    &&& forall|x: int, y: int| #[trigger] g.in_range(x, y) && g.at(x, y) != WALL ==> lattice(x, y) || passage(g, x, y)
}

/// A wall-filled grid with an empty stack satisfies the carve invariant.
pub proof fn lemma_carve_invariant_init(s: GeneratorView, g: GridView)
    requires
        g.wf(),
        s.trail.len() == 0,
        forall|x: int, y: int| #[trigger] g.in_range(x, y) ==> g.at(x, y) == WALL,
    ensures
        carve_invariant(s, g),
{
}

/// Every generation of the generator keeps the carve invariant.
pub proof fn lemma_carve_invariant_step(s: GeneratorView, cur: GridView, t: GeneratorView, nxt: GridView, rate: UpdateRate)
    requires
        carve_invariant(s, cur),
        generator_stepped(s, cur, t, nxt, rate),
    ensures
        carve_invariant(t, nxt),
{
    if dfs_action(s, cur, t, nxt) && !(t == s && nxt == cur) {
        if !s.started {
            if cur.w >= 3 && cur.h >= 3 {
                assert forall|k: int| 0 <= k < t.trail.len() implies {
                    let c = #[trigger] t.trail[k];
                    interior(nxt, c.0 as int, c.1 as int) && lattice(c.0 as int, c.1 as int) && nxt.at(c.0 as int, c.1 as int)
                        == CARVED
                } by {
                    if k < s.trail.len() {
                        assert(s.trail[k] == t.trail[k]);
                        assert(cur.in_range(t.trail[k].0 as int, t.trail[k].1 as int));
                        assert(nxt.in_range(t.trail[k].0 as int, t.trail[k].1 as int));
                    } else {
                        assert(t.trail[k] == start_cell());
                        assert(nxt.in_range(1, 1));
                    }
                }
                assert forall|x: int, y: int| #[trigger] nxt.in_range(x, y) && nxt.at(x, y) != WALL implies lattice(x, y)
                    || passage(nxt, x, y) by {
                    assert(cur.in_range(x, y));
                    if !(x == 1 && y == 1) && passage(cur, x, y) {
                        assert(cur.in_range(x - 1, y) ==> nxt.in_range(x - 1, y));
                        assert(cur.in_range(x + 1, y) ==> nxt.in_range(x + 1, y));
                        assert(cur.in_range(x, y - 1) ==> nxt.in_range(x, y - 1));
                        assert(cur.in_range(x, y + 1) ==> nxt.in_range(x, y + 1));
                    }
                }
            }
        } else if s.trail.len() > 0 {
            let top = s.trail.last();
            let cands = candidates(cur, top.0 as int, top.1 as int);
            assert(s.trail[s.trail.len() - 1] == top);
            if cands.len() == 0 {
                assert forall|k: int| 0 <= k < t.trail.len() implies {
                    let c = #[trigger] t.trail[k];
                    interior(nxt, c.0 as int, c.1 as int) && lattice(c.0 as int, c.1 as int) && nxt.at(c.0 as int, c.1 as int)
                        == CARVED
                } by {
                    assert(s.trail[k] == t.trail[k]);
                }
            } else {
                let k0 = choose|k: int|
                    0 <= k < cands.len() && #[trigger] cands[k] == (t.trail.last().0 as int, t.trail.last().1 as int)
                        && t.trail == s.trail.push(t.trail.last()) && carved_two(
                        cur,
                        nxt,
                        (top.0 + cands[k].0) / 2,
                        (top.1 + cands[k].1) / 2,
                        cands[k].0,
                        cands[k].1,
                    );
                let (nx, ny) = cands[k0];
                let mx = (top.0 + nx) / 2;
                let my = (top.1 + ny) / 2;
                lemma_candidate_shape(cur, top.0 as int, top.1 as int, k0);
                assert forall|k: int| 0 <= k < t.trail.len() implies {
                    let c = #[trigger] t.trail[k];
                    interior(nxt, c.0 as int, c.1 as int) && lattice(c.0 as int, c.1 as int) && nxt.at(c.0 as int, c.1 as int)
                        == CARVED
                } by {
                    if k < s.trail.len() {
                        assert(s.trail[k] == t.trail[k]);
                        assert(cur.in_range(t.trail[k].0 as int, t.trail[k].1 as int));
                        assert(nxt.in_range(t.trail[k].0 as int, t.trail[k].1 as int));
                    } else {
                        assert(t.trail[k] == t.trail.last());
                        assert(nxt.in_range(nx, ny));
                    }
                }
                assert forall|x: int, y: int| #[trigger] nxt.in_range(x, y) && nxt.at(x, y) != WALL implies lattice(x, y)
                    || passage(nxt, x, y) by {
                    assert(cur.in_range(x, y));
                    if x == mx && y == my {
                        assert(nxt.in_range(top.0 as int, top.1 as int));
                        assert(nxt.in_range(nx, ny));
                    } else if !(x == nx && y == ny) && passage(cur, x, y) {
                        assert(cur.in_range(x - 1, y) ==> nxt.in_range(x - 1, y));
                        assert(cur.in_range(x + 1, y) ==> nxt.in_range(x + 1, y));
                        assert(cur.in_range(x, y - 1) ==> nxt.in_range(x, y - 1));
                        assert(cur.in_range(x, y + 1) ==> nxt.in_range(x, y + 1));
                    }
                }
            }
        }
    }
}

/// Each candidate lies two steps from `(x, y)` in one direction, inside the
/// border, and is still wall.
proof fn lemma_candidate_shape(g: GridView, x: int, y: int, k: int)
    requires
        0 <= k < candidates(g, x, y).len(),
    ensures
        exists|d: int| 0 <= d < 4 && #[trigger] unvisited(g, x, y, d) && candidates(g, x, y)[k] == (x + dir_dx(d), y + dir_dy(d)),
{
    reveal_with_fuel(candidates_upto, 5);
    assert(g.in_range(x, y));
}

/// Under the carve invariant, a carve opens exactly two wall cells: the new
/// lattice cell and the passage to it. The carved region thus grows by one
/// lattice cell joined through one passage, and never closes a cycle.
pub proof fn lemma_carve_opens_two_walls(s: GeneratorView, cur: GridView, t: GeneratorView, nxt: GridView)
    requires
        carve_invariant(s, cur),
        s.started,
        s.trail.len() > 0,
        candidates(cur, s.trail.last().0 as int, s.trail.last().1 as int).len() > 0,
        dfs_action(s, cur, t, nxt),
    ensures
        exists|mx: int, my: int, nx: int, ny: int|
            #[trigger] cur.in_range(mx, my) && #[trigger] cur.in_range(nx, ny) && !(mx == nx && my == ny) && lattice(nx, ny)
                && cur.at(mx, my) == WALL && cur.at(nx, ny) == WALL && carved_two(cur, nxt, mx, my, nx, ny),
{
    let top = s.trail.last();
    assert(s.trail[s.trail.len() - 1] == top);
    let cands = candidates(cur, top.0 as int, top.1 as int);
    let k0 = choose|k: int|
        0 <= k < cands.len() && #[trigger] cands[k] == (t.trail.last().0 as int, t.trail.last().1 as int)
            && t.trail == s.trail.push(t.trail.last()) && carved_two(
            cur,
            nxt,
            (top.0 + cands[k].0) / 2,
            (top.1 + cands[k].1) / 2,
            cands[k].0,
            cands[k].1,
        );
    let (nx, ny) = cands[k0];
    let mx = (top.0 + nx) / 2;
    let my = (top.1 + ny) / 2;
    lemma_candidate_shape(cur, top.0 as int, top.1 as int, k0);
    assert(cur.in_range(mx, my));
    if cur.at(mx, my) != WALL {
        assert(lattice(mx, my) || passage(cur, mx, my));
    }
    assert(cur.in_range(nx, ny));
}

/// The number of candidates the next carve chooses among (0 when the next
/// action starts, ends, or backtracks).
pub open spec fn pending_choices(s: GeneratorView, g: GridView) -> nat {
    if s.started && s.trail.len() > 0 {
        candidates(g, s.trail.last().0 as int, s.trail.last().1 as int).len()
    } else {
        0
    }
}

/// The action of the depth-first search when a carve takes candidate `pick`
/// modulo the number of candidates.
pub open spec fn dfs_exact(s: GeneratorView, cur: GridView, pick: int, t: GeneratorView, nxt: GridView) -> bool {
    if !s.started {
        &&& t.started
        &&& if cur.w >= 3 && cur.h >= 3 {
            t.trail == s.trail.push(start_cell()) && carved_two(cur, nxt, 1, 1, 1, 1)
        } else {
            t.trail == s.trail && nxt == cur
        }
    } else if s.trail.len() == 0 {
        t == s && nxt == cur
    } else {
        let top = s.trail.last();
        let cands = candidates(cur, top.0 as int, top.1 as int);
        &&& t.started
        &&& if cands.len() == 0 {
            t.trail == s.trail.drop_last() && nxt == cur
        } else {
            let c = cands[pick % cands.len() as int];
            &&& t.trail == s.trail.push((c.0 as usize, c.1 as usize))
            &&& carved_two(cur, nxt, (top.0 + c.0) / 2, (top.1 + c.1) / 2, c.0, c.1)
        }
    }
}

/// The exact action for one choice is one of the actions the search allows.
pub proof fn lemma_exact_is_action(s: GeneratorView, cur: GridView, pick: int, t: GeneratorView, nxt: GridView)
    requires
        cur.wf(),
        0 <= pick,
        dfs_exact(s, cur, pick, t, nxt),
    ensures
        dfs_action(s, cur, t, nxt),
{
    if s.started && s.trail.len() > 0 {
        let top = s.trail.last();
        let cands = candidates(cur, top.0 as int, top.1 as int);
        if cands.len() > 0 {
            let k = pick % cands.len() as int;
            lemma_candidate_shape(cur, top.0 as int, top.1 as int, k);
            let (x, y) = (top.0 as int, top.1 as int);
            let d = choose|d: int| 0 <= d < 4 && #[trigger] unvisited(cur, x, y, d) && cands[k] == (x + dir_dx(d), y + dir_dy(d));
            assert(interior(cur, cands[k].0, cands[k].1));
            assert(cur.w <= usize::MAX && cur.h <= usize::MAX) by (nonlinear_arith)
                requires cur.w * cur.h <= usize::MAX, cur.w > 0, cur.h > 0;
            assert(t.trail.last() == (cands[k].0 as usize, cands[k].1 as usize));
            assert(cands[k] == (t.trail.last().0 as int, t.trail.last().1 as int));
        }
    }
}

/// Some lattice neighbour of `(x, y)` can still be carved.
pub open spec fn has_unvisited(g: GridView, x: int, y: int) -> bool {
    exists|d: int| 0 <= d < 4 && #[trigger] unvisited(g, x, y, d)
}

pub open spec fn on_trail(s: GeneratorView, x: int, y: int) -> bool {
    exists|k: int| 0 <= k < s.trail.len() && #[trigger] s.trail[k] == (x as usize, y as usize)
}

/// What holds of a run of the carve from a wall-filled grid: the carve
/// invariant; every cell is wall or carved; once started on a grid of at least
/// 3 by 3 the start cell is carved; and every carved lattice cell that still
/// has an unvisited neighbour is on the stack.
pub open spec fn run_invariant(s: GeneratorView, g: GridView) -> bool {
    &&& carve_invariant(s, g)
    &&& forall|x: int, y: int| #[trigger] g.in_range(x, y) ==> g.at(x, y) == WALL || g.at(x, y) == CARVED
    &&& (s.started && g.w >= 3 && g.h >= 3 ==> g.at(1, 1) == CARVED)
    &&& forall|x: int, y: int|
        #![trigger g.at(x, y), has_unvisited(g, x, y)]
        g.in_range(x, y) && lattice(x, y) && g.at(x, y) == CARVED && has_unvisited(g, x, y) ==> on_trail(s, x, y)
}

/// A wall-filled grid with a fresh generator satisfies the run invariant.
pub proof fn lemma_run_invariant_init(s: GeneratorView, g: GridView)
    requires
        g.wf(),
        !s.started,
        s.trail.len() == 0,
        forall|x: int, y: int| #[trigger] g.in_range(x, y) ==> g.at(x, y) == WALL,
    ensures
        run_invariant(s, g),
{
}

/// A cell that is wall in `nxt` was wall in `cur`, so whatever `nxt` can still
/// carve around a cell, `cur` could too.
proof fn lemma_fewer_walls(cur: GridView, nxt: GridView, x: int, y: int)
    requires
        nxt.wf(),
        nxt.same_dims(cur),
        forall|a: int, b: int| #[trigger] nxt.in_range(a, b) && nxt.at(a, b) == WALL ==> cur.at(a, b) == WALL,
        has_unvisited(nxt, x, y),
    ensures
        has_unvisited(cur, x, y),
{
    let d = choose|d: int| 0 <= d < 4 && #[trigger] unvisited(nxt, x, y, d);
    assert(nxt.in_range(x + dir_dx(d), y + dir_dy(d)));
    assert(unvisited(cur, x, y, d));
}

/// A cell inside the grid with no candidates has no unvisited neighbour.
proof fn lemma_no_candidates(g: GridView, x: int, y: int)
    requires
        g.in_range(x, y),
        candidates(g, x, y).len() == 0,
    ensures
        !has_unvisited(g, x, y),
{
    reveal_with_fuel(candidates_upto, 5);
    if has_unvisited(g, x, y) {
        let d = choose|d: int| 0 <= d < 4 && #[trigger] unvisited(g, x, y, d);
        assert(candidates_upto(g, x, y, d + 1).len() > 0);
        if d < 3 {
            assert(candidates_upto(g, x, y, 4).len() >= candidates_upto(g, x, y, d + 1).len());
        }
    }
}

/// Every generation of the generator keeps the run invariant.
pub proof fn lemma_run_invariant_step(s: GeneratorView, cur: GridView, t: GeneratorView, nxt: GridView, rate: UpdateRate)
    requires
        run_invariant(s, cur),
        generator_stepped(s, cur, t, nxt, rate),
    ensures
        run_invariant(t, nxt),
{
    lemma_carve_invariant_step(s, cur, t, nxt, rate);
    if t == s && nxt == cur {
        return;
    }
    assert(dfs_action(s, cur, t, nxt));
    assert(nxt.wf() && nxt.same_dims(cur)) by {
        if !s.started && cur.w >= 3 && cur.h >= 3 {
        } else if s.started && s.trail.len() > 0 {
        }
    }
    assert forall|a: int, b: int| #[trigger] nxt.in_range(a, b) && nxt.at(a, b) == WALL implies cur.at(a, b) == WALL by {
        assert(cur.in_range(a, b));
    }
    assert forall|x: int, y: int| #[trigger] nxt.in_range(x, y) implies nxt.at(x, y) == WALL || nxt.at(x, y) == CARVED by {
        assert(cur.in_range(x, y));
    }
    if s.started && cur.w >= 3 && cur.h >= 3 {
        assert(cur.in_range(1, 1) && nxt.in_range(1, 1));
    }
    if !s.started && cur.w >= 3 && cur.h >= 3 {
        assert(nxt.in_range(1, 1));
    }
    assert forall|x: int, y: int|
        #![trigger nxt.at(x, y), has_unvisited(nxt, x, y)]
        nxt.in_range(x, y) && lattice(x, y) && nxt.at(x, y) == CARVED && has_unvisited(nxt, x, y) implies on_trail(t, x, y) by {
        assert(cur.in_range(x, y));
        lemma_fewer_walls(cur, nxt, x, y);
        if !s.started {
            if cur.w >= 3 && cur.h >= 3 && x == 1 && y == 1 {
                assert(t.trail[s.trail.len() as int] == (x as usize, y as usize));
            } else {
                assert(on_trail(s, x, y));
                let k = choose|k: int| 0 <= k < s.trail.len() && #[trigger] s.trail[k] == (x as usize, y as usize);
                assert(t.trail[k] == s.trail[k]);
            }
        } else {
            let top = s.trail.last();
            assert(s.trail[s.trail.len() - 1] == top);
            let cands = candidates(cur, top.0 as int, top.1 as int);
            if cands.len() == 0 {
                assert(on_trail(s, x, y));
                let k = choose|k: int| 0 <= k < s.trail.len() && #[trigger] s.trail[k] == (x as usize, y as usize);
                if k == s.trail.len() - 1 {
                    assert(x >= 0 && y >= 0 && x < cur.w && y < cur.h);
                    assert(cur.w <= usize::MAX && cur.h <= usize::MAX) by (nonlinear_arith)
                        requires cur.w * cur.h <= usize::MAX, cur.w > 0, cur.h > 0;
                    assert(top.0 as int == x && top.1 as int == y);
                    lemma_no_candidates(cur, x, y);
                    assert(false);
                } else {
                    assert(t.trail[k] == s.trail[k]);
                }
            } else {
                let k0 = choose|k: int|
                    0 <= k < cands.len() && #[trigger] cands[k] == (t.trail.last().0 as int, t.trail.last().1 as int)
                        && t.trail == s.trail.push(t.trail.last()) && carved_two(
                        cur,
                        nxt,
                        (top.0 + cands[k].0) / 2,
                        (top.1 + cands[k].1) / 2,
                        cands[k].0,
                        cands[k].1,
                    );
                let (nx, ny) = cands[k0];
                let mx = (top.0 + nx) / 2;
                let my = (top.1 + ny) / 2;
                lemma_candidate_shape(cur, top.0 as int, top.1 as int, k0);
                if x == nx && y == ny {
                    assert(t.trail[s.trail.len() as int] == (x as usize, y as usize));
                } else if x == mx && y == my {
                    assert(!lattice(x, y));
                } else {
                    assert(cur.at(x, y) == CARVED);
                    assert(on_trail(s, x, y));
                    let k = choose|k: int| 0 <= k < s.trail.len() && #[trigger] s.trail[k] == (x as usize, y as usize);
                    assert(t.trail[k] == s.trail[k]);
                }
            }
        }
    }
}

/// When the carve has backtracked all the way out, every lattice cell inside
/// the border is carved: the search visited each of them.
pub proof fn lemma_finished_visits_all(s: GeneratorView, g: GridView, x: int, y: int)
    requires
        run_invariant(s, g),
        s.started,
        s.trail.len() == 0,
        interior(g, x, y),
        lattice(x, y),
    ensures
        g.at(x, y) == CARVED,
    decreases x + y,
{
    assert(g.in_range(x, y));
    if x == 1 && y == 1 {
    } else if x > 1 {
        lemma_finished_visits_all(s, g, x - 2, y);
        assert(unvisited(g, x - 2, y, 1) ==> has_unvisited(g, x - 2, y));
        assert(g.in_range(x - 2, y));
    } else {
        lemma_finished_visits_all(s, g, x, y - 2);
        assert(unvisited(g, x, y - 2, 3) ==> has_unvisited(g, x, y - 2));
        assert(g.in_range(x, y - 2));
    }
}

/// On a grid of odd width and height, the carve never opens the border nor a
/// cell with both coordinates even: what it opens are lattice cells and
/// passages between them.
pub proof fn lemma_walls_kept(s: GeneratorView, g: GridView, x: int, y: int)
    requires
        carve_invariant(s, g),
        g.w % 2 == 1,
        g.h % 2 == 1,
        g.in_range(x, y),
        (x % 2 == 0 && y % 2 == 0) || x == 0 || y == 0 || x == g.w - 1 || y == g.h - 1,
    ensures
        g.at(x, y) == WALL,
{
}

/// Randomised depth-first carving of a perfect maze. Lattice cells sit at odd
/// coordinates, walls between them; each generation performs one carve or
/// backtrack step, driven by the generator's own stack.
pub struct MazeGenerator {
    started: bool,
    stack: Vec<(usize, usize)>,
}

impl View for MazeGenerator {
    type V = GeneratorView;

    closed spec fn view(&self) -> GeneratorView {
        GeneratorView { started: self.started, trail: self.stack@ }
    }
}

impl MazeGenerator {
    pub fn new() -> (r: MazeGenerator)
        ensures
            !r@.started,
            r@.trail.len() == 0,
    {
        MazeGenerator { started: false, stack: Vec::new() }
    }

    /// Whether the carve has begun and backtracked all the way out.
    pub fn finished(&self) -> (r: bool)
        ensures
            r == (self@.started && self@.trail.len() == 0),
    {
        self.started && self.stack.len() == 0
    }

    pub fn name(&self) -> (r: &'static str)
        ensures
            r@ == "generator"@,
    {
        "generator"
    }

    /// Fills the grid with wall and forgets any carve in progress.
    pub fn init(&mut self, grid: &mut Grid)
        requires
            old(grid)@.wf(),
        ensures
            !final(self)@.started,
            final(self)@.trail.len() == 0,
            all_wall(old(grid)@, final(grid)@),
    {
        grid.fill(WALL);
        self.started = false;
        self.stack = Vec::new();
    }

    /// Leaves a loaded grid as it is.
    pub fn soft_init(&self, grid: &mut Grid)
        ensures
            *final(grid) == *old(grid),
    {
    }

    /// The unvisited lattice neighbours of `(x, y)`, in the order left, right, up, down.
    fn unvisited_neighbors(g: &Grid, x: usize, y: usize) -> (r: Vec<(usize, usize)>)
        requires
            g@.wf(),
            g@.in_range(x as int, y as int),
        ensures
            r@.len() == candidates(g@, x as int, y as int).len(),
            forall|k: int| 0 <= k < r@.len() ==> (#[trigger] r@[k].0 as int, r@[k].1 as int) == candidates(
                g@,
                x as int,
                y as int,
            )[k],
            forall|k: int| 0 <= k < r@.len() ==> interior(g@, #[trigger] r@[k].0 as int, r@[k].1 as int) && (
                (r@[k].0 + 2 == x && r@[k].1 == y) || (r@[k].0 == x + 2 && r@[k].1 == y) || (r@[k].0 == x && r@[k].1 + 2 == y)
                    || (r@[k].0 == x && r@[k].1 == y + 2)),
    {
        reveal_with_fuel(candidates_upto, 5);
        let w = g.width();
        let h = g.height();
        let mut r: Vec<(usize, usize)> = Vec::new();
        assert(r@.map_values(|p: (usize, usize)| (p.0 as int, p.1 as int)) =~= candidates_upto(g@, x as int, y as int, 0));
        if x >= 3 && 0 < y && y < h - 1 && g.get(x - 2, y) == WALL {
            r.push((x - 2, y));
        }
        assert(r@.map_values(|p: (usize, usize)| (p.0 as int, p.1 as int)) =~= candidates_upto(g@, x as int, y as int, 1));
        if w >= 3 && x < w - 3 && 0 < y && y < h - 1 && g.get(x + 2, y) == WALL {
            r.push((x + 2, y));
        }
        assert(r@.map_values(|p: (usize, usize)| (p.0 as int, p.1 as int)) =~= candidates_upto(g@, x as int, y as int, 2));
        if y >= 3 && 0 < x && x < w - 1 && g.get(x, y - 2) == WALL {
            r.push((x, y - 2));
        }
        assert(r@.map_values(|p: (usize, usize)| (p.0 as int, p.1 as int)) =~= candidates_upto(g@, x as int, y as int, 3));
        if h >= 3 && y < h - 3 && 0 < x && x < w - 1 && g.get(x, y + 2) == WALL {
            r.push((x, y + 2));
        }
        assert(r@.map_values(|p: (usize, usize)| (p.0 as int, p.1 as int)) =~= candidates_upto(g@, x as int, y as int, 4));
        r
    }

    /// How many lattice neighbours the next carve can choose from: 0 before
    /// the start, after the end, and when the next action is a backtrack.
    pub fn choices(&self, grid: &Grid) -> (r: usize)
        requires
            grid@.wf(),
        ensures
            r == pending_choices(self@, grid@),
    {
        let len = self.stack.len();
        if !self.started || len == 0 {
            return 0;
        }
        let (x, y) = self.stack[len - 1];
        if x >= grid.width() || y >= grid.height() {
            return 0;
        }
        Self::unvisited_neighbors(grid, x, y).len()
    }

    /// Copies `current` into `next` and, when `act` holds, performs the carve
    /// or backtrack action; a carve takes candidate `pick` modulo the number of candidates.
    pub fn advance(&mut self, current: &Grid, next: &mut Grid, act: bool, pick: usize)
        requires
            current@.wf(),
            old(next)@.wf(),
            old(next)@.same_dims(current@),
        ensures
            act ==> dfs_exact(old(self)@, current@, pick as int, final(self)@, final(next)@),
            !act ==> final(self)@ == old(self)@ && final(next)@ == current@,
    {
        copy_into(current, next);
        if !act {
            return;
        }
        let w = next.width();
        let h = next.height();
        if !self.started {
            self.started = true;
            if w >= 3 && h >= 3 {
                next.set(1, 1, CARVED);
                self.stack.push((1, 1));
            }
            return;
        }
        let len = self.stack.len();
        if len == 0 {
            return;
        }
        let (x, y) = self.stack[len - 1];
        if x >= w || y >= h {
            self.stack.pop();
            return;
        }
        let neigh = Self::unvisited_neighbors(next, x, y);
        if neigh.len() == 0 {
            self.stack.pop();
            return;
        }
        let k = pick % neigh.len();
        let (nx, ny) = neigh[k];
        let ghost cands = candidates(current@, x as int, y as int);
        assert((nx as int, ny as int) == cands[k as int]);
        let wx = if nx < x { x - 1 } else if nx > x { nx - 1 } else { x };
        let wy = if ny < y { y - 1 } else if ny > y { ny - 1 } else { y };
        let ghost g0 = next@;
        next.set(wx, wy, CARVED);
        let ghost g1 = next@;
        next.set(nx, ny, CARVED);
        self.stack.push((nx, ny));
        proof {
            assert forall|a: int, b: int| #[trigger] next@.in_range(a, b) implies next@.at(a, b) == if (a == wx && b == wy) || (
            a == nx && b == ny) {
                CARVED
            } else {
                current@.at(a, b)
            } by {
                assert(g1.in_range(a, b));
                assert(g0.in_range(a, b));
            }
            assert(self.stack@ == old(self).stack@.push((nx, ny)));
            assert(wx == (x + cands[k as int].0) / 2 && wy == (y + cands[k as int].1) / 2);
        }
    }

    /// Copies `current` into `next`, then performs one carve or backtrack
    /// action. A single-site or synchronous rate always acts; another rate
    /// acts with its chance, and otherwise leaves `next` a copy and the state
    /// as it was. A carve picks among the candidates at random.
    pub fn step(&mut self, current: &Grid, next: &mut Grid, rate: UpdateRate)
        requires
            current@.wf(),
            old(next)@.wf(),
            old(next)@.same_dims(current@),
            rate.wf(),
        ensures
            generator_stepped(old(self)@, current@, final(self)@, final(next)@, rate),
    {
        let act = rate.numerator == 0 || random_ratio(rate.numerator, rate.denominator);
        let n = self.choices(current);
        let pick = if n > 0 { random_below(n) } else { 0 };
        let ghost s = self@;
        self.advance(current, next, act, pick);
        proof {
            if act {
                lemma_exact_is_action(s, current@, pick as int, self@, next@);
            }
        }
    }
}

} // verus!
