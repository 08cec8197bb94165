use vstd::prelude::*;
use crate::grid::{Grid, GridView};
use crate::random::{random_below, random_ratio};
use crate::dummy::{Dummy, dummy_rule};
use crate::life::{Life, life_rule};
use crate::mazesolver::{MazeSolver, solver_rule};

verus! {

/// How many cells one generation updates. A rate of 0 updates exactly one
/// cell, chosen at random; any other rate updates each cell independently with
/// chance `numerator / denominator`, so a rate of 1 is a synchronous generation.
#[derive(Clone, Copy, Debug, PartialEq, Eq)]
pub struct UpdateRate {
    pub numerator: u32,
    pub denominator: u32,
}

impl UpdateRate {
    pub open spec fn wf(self) -> bool {
        0 < self.denominator && self.numerator <= self.denominator
    }

    pub open spec fn is_single_site(self) -> bool {
        self.numerator == 0
    }

    pub open spec fn is_synchronous(self) -> bool {
        self.numerator == self.denominator
    }

    /// One randomly chosen cell per generation.
    pub fn single_site() -> (r: UpdateRate)
        ensures
            r.wf(),
            r.is_single_site(),
    {
        UpdateRate { numerator: 0, denominator: 1 }
    }

    /// Every cell in every generation.
    pub fn synchronous() -> (r: UpdateRate)
        ensures
            r.wf(),
            r.is_synchronous(),
            !r.is_single_site(),
    {
        UpdateRate { numerator: 1, denominator: 1 }
    }

    /// The rate `numerator / denominator`, if it lies in `[0, 1]`.
    pub fn ratio(numerator: u32, denominator: u32) -> (r: Option<UpdateRate>)
        ensures
            r.is_some() <==> 0 < denominator && numerator <= denominator,
            r.is_some() ==> r->Some_0.wf() && r->Some_0.numerator == numerator
                && r->Some_0.denominator == denominator,
    {
        if 0 < denominator && numerator <= denominator {
            Some(UpdateRate { numerator, denominator })
        } else {
            None
        }
    }
}

/// Cell `(x, y)` of `nxt` is either copied from `cur` or given by `rule`, and
/// a synchronous rate always applies the rule.
pub open spec fn cell_stepped(
    cur: GridView,
    nxt: GridView,
    rate: UpdateRate,
    rule: spec_fn(int, int) -> u8,
    x: int,
    y: int,
) -> bool {
    &&& (nxt.at(x, y) == cur.at(x, y) || nxt.at(x, y) == rule(x, y))
    &&& (rate.is_synchronous() ==> nxt.at(x, y) == rule(x, y))
}

/// `nxt` is one generation of `rule` after `cur` under `rate`.
pub open spec fn stepped(cur: GridView, nxt: GridView, rate: UpdateRate, rule: spec_fn(int, int) -> u8) -> bool {
    &&& nxt.wf()
    &&& nxt.same_dims(cur)
    &&& forall|x: int, y: int| cur.in_range(x, y) ==> #[trigger] cell_stepped(cur, nxt, rate, rule, x, y)
    &&& rate.is_single_site() ==> exists|sx: int, sy: int|
        #[trigger] cur.in_range(sx, sy) && nxt.is_set(cur, sx, sy, rule(sx, sy))
}

/// The rules that depend on the current generation alone.
#[derive(Clone, Copy, Debug, PartialEq, Eq)]
pub enum CellRule {
    Invert,
    Life,
    Solver,
}

impl CellRule {
    pub open spec fn spec_apply(self, g: GridView, x: int, y: int) -> u8 {
        match self {
            CellRule::Invert => dummy_rule(g, x, y),
            CellRule::Life => life_rule(g, x, y),
            CellRule::Solver => solver_rule(g, x, y),
        }
    }

    pub fn apply(&self, g: &Grid, x: usize, y: usize) -> (r: u8)
        requires
            g@.wf(),
            g@.in_range(x as int, y as int),
        ensures
            r == self.spec_apply(g@, x as int, y as int),
    {
        match self {
            CellRule::Invert => Dummy::rule(g, x, y),
            CellRule::Life => Life::rule(g, x, y),
            CellRule::Solver => MazeSolver::rule(g, x, y),
        }
    }
}

/// Copies every cell of `cur` into `nxt`.
pub fn copy_into(cur: &Grid, nxt: &mut Grid)
    requires
        cur@.wf(),
        old(nxt)@.wf(),
        old(nxt)@.same_dims(cur@),
    ensures
        final(nxt)@ == cur@,
{
    let w = cur.width();
    let h = cur.height();
    let mut y: usize = 0;
    while y < h
        invariant
            cur@.wf(),
            nxt@.wf(),
            nxt@.same_dims(cur@),
            w == cur@.w,
            h == cur@.h,
            y <= h,
            forall|a: int, b: int| 0 <= a < w && 0 <= b < y ==> #[trigger] nxt@.at(a, b) == cur@.at(a, b),
        decreases h - y,
    {
        let mut x: usize = 0;
        while x < w
            invariant
                cur@.wf(),
                nxt@.wf(),
                nxt@.same_dims(cur@),
                w == cur@.w,
                h == cur@.h,
                y < h,
                x <= w,
                forall|a: int, b: int| 0 <= a < w && 0 <= b < y ==> #[trigger] nxt@.at(a, b) == cur@.at(a, b),
                forall|a: int| 0 <= a < x ==> #[trigger] nxt@.at(a, y as int) == cur@.at(a, y as int),
            decreases w - x,
        {
            let v = cur.get(x, y);
            nxt.set(x, y, v);
            x = x + 1;
        }
        y = y + 1;
    }
    proof {
        crate::grid::lemma_grid_ext(nxt@, cur@);
    }
}

/// One generation of `rule` from `cur` into `nxt`, under `rate`.
pub fn run_step(rule: CellRule, cur: &Grid, nxt: &mut Grid, rate: UpdateRate)
    requires
        cur@.wf(),
        old(nxt)@.wf(),
        old(nxt)@.same_dims(cur@),
        rate.wf(),
    ensures
        stepped(cur@, final(nxt)@, rate, |x: int, y: int| rule.spec_apply(cur@, x, y)),
{
    let ghost f = |x: int, y: int| rule.spec_apply(cur@, x, y);
    let w = cur.width();
    let h = cur.height();
    if rate.numerator == 0 {
        copy_into(cur, nxt);
        let sx = random_below(w);
        let sy = random_below(h);
        let v = rule.apply(cur, sx, sy);
        nxt.set(sx, sy, v);
        proof {
            assert(cur@.in_range(sx as int, sy as int));
            assert forall|x: int, y: int| cur@.in_range(x, y) implies #[trigger] cell_stepped(cur@, nxt@, rate, f, x, y) by {
            }
        }
        return;
    }
    let n: usize = w * h;
    let mut mask: Vec<bool> = Vec::new();
    let mut i: usize = 0;
    while i < n
        invariant
            i <= n,
            mask@.len() == i,
            rate.wf(),
            rate.is_synchronous() ==> forall|k: int| 0 <= k < i ==> #[trigger] mask@[k],
        decreases n - i,
    {
        mask.push(random_ratio(rate.numerator, rate.denominator));
        i = i + 1;
    }
    step_masked(rule, cur, nxt, &mask);
    proof {
        assert forall|x: int, y: int| cur@.in_range(x, y) implies #[trigger] cell_stepped(cur@, nxt@, rate, f, x, y) by {
            crate::grid::lemma_index(w as int, h as int, x, y);
        }
    }
}

/// `nxt` takes `rule` at the cells that `mask` selects, row by row, and
/// copies `cur` at the others.
pub open spec fn masked(cur: GridView, nxt: GridView, mask: Seq<bool>, rule: spec_fn(int, int) -> u8) -> bool {
    &&& nxt.wf()
    &&& nxt.same_dims(cur)
    &&& forall|x: int, y: int| #[trigger] cur.in_range(x, y) ==> nxt.at(x, y) == if mask[y * cur.w + x] {
        rule(x, y)
    } else {
        cur.at(x, y)
    }
}

/// One generation of `rule` that updates exactly the cells selected by
/// `mask` (indexed row by row) and copies the rest.
pub fn step_masked(rule: CellRule, cur: &Grid, nxt: &mut Grid, mask: &Vec<bool>)
    requires
        cur@.wf(),
        old(nxt)@.wf(),
        old(nxt)@.same_dims(cur@),
        mask@.len() == cur@.w * cur@.h,
    ensures
        masked(cur@, final(nxt)@, mask@, |x: int, y: int| rule.spec_apply(cur@, x, y)),
{
    let ghost f = |x: int, y: int| rule.spec_apply(cur@, x, y);
    let w = cur.width();
    let h = cur.height();
    let mut y: usize = 0;
    while y < h
        invariant
            cur@.wf(),
            nxt@.wf(),
            nxt@.same_dims(cur@),
            mask@.len() == w * h,
            f == (|x: int, y: int| rule.spec_apply(cur@, x, y)),
            w == cur@.w,
            h == cur@.h,
            y <= h,
            forall|a: int, b: int| 0 <= a < w && 0 <= b < y ==> #[trigger] nxt@.at(a, b) == if mask@[b * w + a] {
                f(a, b)
            } else {
                cur@.at(a, b)
            },
        decreases h - y,
    {
        let mut x: usize = 0;
        while x < w
            invariant
                cur@.wf(),
                nxt@.wf(),
                nxt@.same_dims(cur@),
                mask@.len() == w * h,
                f == (|x: int, y: int| rule.spec_apply(cur@, x, y)),
                w == cur@.w,
                h == cur@.h,
                y < h,
                x <= w,
                forall|a: int, b: int| 0 <= a < w && 0 <= b < y ==> #[trigger] nxt@.at(a, b) == if mask@[b * w + a] {
                    f(a, b)
                } else {
                    cur@.at(a, b)
                },
                forall|a: int| 0 <= a < x ==> #[trigger] nxt@.at(a, y as int) == if mask@[y * w + a] {
                    f(a, y as int)
                } else {
                    cur@.at(a, y as int)
                },
            decreases w - x,
        {
            proof {
                crate::grid::lemma_index(w as int, h as int, x as int, y as int);
                assert(y * w <= y * w + x);
            }
            let v = if mask[y * w + x] {
                rule.apply(cur, x, y)
            } else {
                cur.get(x, y)
            };
            let ghost before = nxt@;
            nxt.set(x, y, v);
            proof {
                assert forall|a: int, b: int| 0 <= a < w && 0 <= b < y implies #[trigger] nxt@.at(a, b) == if mask@[b * w + a] {
                    f(a, b)
                } else {
                    cur@.at(a, b)
                } by {
                    assert(before.at(a, b) == if mask@[b * w + a] { f(a, b) } else { cur@.at(a, b) });
                }
                assert forall|a: int| 0 <= a < x + 1 implies #[trigger] nxt@.at(a, y as int) == if mask@[y * w + a] {
                    f(a, y as int)
                } else {
                    cur@.at(a, y as int)
                } by {
                    if a < x {
                        assert(before.at(a, y as int) == if mask@[y * w + a] { f(a, y as int) } else { cur@.at(a, y as int) });
                    }
                }
            }
            x = x + 1;
        }
        y = y + 1;
    }
}

} // verus!
