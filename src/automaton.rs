use vstd::prelude::*;
use crate::dummy::{Dummy, dummy_rule, dummy_seeded};
use crate::grid::{Grid, GridView};
use crate::life::{Life, life_rule, life_seeded};
use crate::mazegenerator::{MazeGenerator, all_wall, generator_stepped};
use crate::mazesolver::{MazeSolver, markers_stamped, solver_rule, solver_seeded};
use crate::stepping::{UpdateRate, stepped};

verus! {

/// One of the fixed set of update rules, with whatever state it carries.
pub enum Automaton {
    Dummy(Dummy),
    Life(Life),
    MazeGenerator(MazeGenerator),
    MazeSolver(MazeSolver),
}

/// The registry's names, in order.
pub open spec fn registry_name(k: int) -> Seq<char> {
    if k == 0 {
        "dummy"@
    } else if k == 1 {
        "life"@
    } else if k == 2 {
        "mazesolver"@
    } else {
        "generator"@
    }
}

pub open spec fn registry_len() -> int {
    4
}

pub open spec fn is_ascii_upper(c: char) -> bool {
    'A' <= c && c <= 'Z'
}

/// Two characters that are equal up to ASCII case.
pub open spec fn char_eq_ignore_case(a: char, b: char) -> bool {
    ||| a == b
    ||| (is_ascii_upper(a) && a as u32 + 32 == b as u32)
    ||| (is_ascii_upper(b) && b as u32 + 32 == a as u32)
}

/// Two strings that are equal up to ASCII case.
pub open spec fn eq_ignore_case(a: Seq<char>, b: Seq<char>) -> bool {
    a.len() == b.len() && forall|i: int| 0 <= i < a.len() ==> #[trigger] char_eq_ignore_case(a[i], b[i])
}

impl Automaton {
    pub open spec fn spec_name(&self) -> Seq<char> {
        match self {
            Automaton::Dummy(_) => registry_name(0),
            Automaton::Life(_) => registry_name(1),
            Automaton::MazeSolver(_) => registry_name(2),
            Automaton::MazeGenerator(_) => registry_name(3),
        }
    }

    /// The automaton at position `k` of the registry, freshly made.
    pub open spec fn is_fresh(&self, k: int) -> bool {
        match self {
            Automaton::Dummy(_) => k == 0,
            Automaton::Life(_) => k == 1,
            Automaton::MazeSolver(_) => k == 2,
            Automaton::MazeGenerator(g) => k == 3 && !g@.started && g@.trail.len() == 0,
        }
    }

    /// What `init` makes of a grid `before` and the automaton `old`.
    pub open spec fn seeded(old: Automaton, new: Automaton, before: GridView, after: GridView) -> bool {
        match old {
            Automaton::Dummy(_) => new == old && dummy_seeded(before, after),
            Automaton::Life(_) => new == old && life_seeded(before, after),
            Automaton::MazeSolver(_) => new == old && solver_seeded(before, after),
            Automaton::MazeGenerator(_) => match new {
                Automaton::MazeGenerator(g) => !g@.started && g@.trail.len() == 0 && all_wall(before, after),
                _ => false,
            },
        }
    }

    /// What `soft_init` makes of a loaded grid `before`.
    pub open spec fn soft_seeded(&self, before: GridView, after: GridView) -> bool {
        match self {
            Automaton::MazeSolver(_) => markers_stamped(before, after),
            _ => after == before,
        }
    }

    /// One generation from `cur` into `nxt`, taking the automaton from `old` to `new`.
    pub open spec fn stepped_by(
        old: Automaton,
        new: Automaton,
        cur: GridView,
        nxt: GridView,
        rate: UpdateRate,
    ) -> bool {
        match old {
            Automaton::Dummy(_) => new == old && stepped(cur, nxt, rate, |x: int, y: int| dummy_rule(cur, x, y)),
            Automaton::Life(_) => new == old && stepped(cur, nxt, rate, |x: int, y: int| life_rule(cur, x, y)),
            Automaton::MazeSolver(_) => new == old && stepped(
                cur,
                nxt,
                rate,
                |x: int, y: int| solver_rule(cur, x, y),
            ),
            Automaton::MazeGenerator(g) => match new {
                Automaton::MazeGenerator(g2) => generator_stepped(g@, cur, g2@, nxt, rate),
                _ => false,
            },
        }
    }

    /// The case-insensitive name under which the registry lists this automaton.
    pub fn name(&self) -> (r: &'static str)
        ensures
            r@ == self.spec_name(),
    {
        match self {
            Automaton::Dummy(a) => a.name(),
            Automaton::Life(a) => a.name(),
            Automaton::MazeSolver(a) => a.name(),
            Automaton::MazeGenerator(a) => a.name(),
        }
    }

    /// Reseeds `grid` with this automaton's starting configuration and resets its state.
    pub fn init(&mut self, grid: &mut Grid)
        requires
            old(grid)@.wf(),
        ensures
            Self::seeded(*old(self), *final(self), old(grid)@, final(grid)@),
    {
        match self {
            Automaton::Dummy(a) => a.init(grid),
            Automaton::Life(a) => a.init(grid),
            Automaton::MazeSolver(a) => a.init(grid),
            Automaton::MazeGenerator(a) => a.init(grid),
        }
    }

    /// Makes a loaded grid ready for this automaton without regenerating it.
    pub fn soft_init(&self, grid: &mut Grid)
        requires
            old(grid)@.wf(),
        ensures
            self.soft_seeded(old(grid)@, final(grid)@),
    {
        match self {
            Automaton::Dummy(a) => a.soft_init(grid),
            Automaton::Life(a) => a.soft_init(grid),
            Automaton::MazeSolver(a) => a.soft_init(grid),
            Automaton::MazeGenerator(a) => a.soft_init(grid),
        }
    }

    /// Computes one generation from `current` into `next`.
    pub fn step(&mut self, current: &Grid, next: &mut Grid, rate: UpdateRate)
        requires
            current@.wf(),
            old(next)@.wf(),
            old(next)@.same_dims(current@),
            rate.wf(),
        ensures
            Self::stepped_by(*old(self), *final(self), current@, final(next)@, rate),
    {
        match self {
            Automaton::Dummy(a) => a.step(current, next, rate),
            Automaton::Life(a) => a.step(current, next, rate),
            Automaton::MazeSolver(a) => a.step(current, next, rate),
            Automaton::MazeGenerator(a) => a.step(current, next, rate),
        }
    }
}

/// Under a single-site rate, a generation of any automaton but the maze
/// generator changes at most one cell.
pub proof fn lemma_single_site_one_cell(a0: Automaton, a1: Automaton, cur: GridView, nxt: GridView, rate: UpdateRate)
    requires
        cur.wf(),
        rate.is_single_site(),
        !(a0 is MazeGenerator),
        Automaton::stepped_by(a0, a1, cur, nxt, rate),
    ensures
        nxt.wf(),
        nxt.same_dims(cur),
        exists|sx: int, sy: int|
            #[trigger] cur.in_range(sx, sy) && forall|x: int, y: int|
                #[trigger] cur.in_range(x, y) && !(x == sx && y == sy) ==> nxt.at(x, y) == cur.at(x, y),
{
    let rule = match a0 {
        Automaton::Dummy(_) => |x: int, y: int| dummy_rule(cur, x, y),
        Automaton::Life(_) => |x: int, y: int| life_rule(cur, x, y),
        _ => |x: int, y: int| solver_rule(cur, x, y),
    };
    assert(stepped(cur, nxt, rate, rule));
    let (sx, sy) = choose|sx: int, sy: int| #[trigger] cur.in_range(sx, sy) && nxt.is_set(cur, sx, sy, rule(sx, sy));
    assert forall|x: int, y: int| #[trigger] cur.in_range(x, y) && !(x == sx && y == sy) implies nxt.at(x, y) == cur.at(x, y) by {
        assert(nxt.in_range(x, y));
    }
    assert(cur.in_range(sx, sy));
}

/// The automaton at position `k` of the registry.
fn make(k: usize) -> (r: Automaton)
    requires
        k < 4,
    ensures
        r.is_fresh(k as int),
{
    if k == 0 {
        Automaton::Dummy(Dummy)
    } else if k == 1 {
        Automaton::Life(Life)
    } else if k == 2 {
        Automaton::MazeSolver(MazeSolver)
    } else {
        Automaton::MazeGenerator(MazeGenerator::new())
    }
}

/// Every available automaton, freshly made, in registry order.
pub fn available() -> (r: Vec<Automaton>)
    ensures
        r@.len() == registry_len(),
        forall|k: int| 0 <= k < registry_len() ==> #[trigger] r@[k].is_fresh(k),
{
    let mut r: Vec<Automaton> = Vec::new();
    let mut k: usize = 0;
    while k < 4
        invariant
            k <= 4,
            r@.len() == k,
            forall|i: int| 0 <= i < k ==> #[trigger] r@[i].is_fresh(i),
        decreases 4 - k,
    {
        r.push(make(k));
        k = k + 1;
    }
    r
}

fn is_upper(c: char) -> (r: bool)
    ensures
        r == is_ascii_upper(c),
{
    'A' <= c && c <= 'Z'
}

/// Whether `a` and `b` are equal up to ASCII case.
pub fn str_eq_ignore_case(a: &str, b: &str) -> (r: bool)
    ensures
        r == eq_ignore_case(a@, b@),
{
    let n = a.unicode_len();
    if n != b.unicode_len() {
        return false;
    }
    let mut i: usize = 0;
    while i < n
        invariant
            i <= n,
            n == a@.len(),
            n == b@.len(),
            forall|j: int| 0 <= j < i ==> #[trigger] char_eq_ignore_case(a@[j], b@[j]),
        decreases n - i,
    {
        let x = a.get_char(i);
        let y = b.get_char(i);
        let same = x == y || (is_upper(x) && x as u32 + 32 == y as u32) || (is_upper(y) && y as u32 + 32 == x as u32);
        if !same {
            assert(!char_eq_ignore_case(a@[i as int], b@[i as int]));
            return false;
        }
        i = i + 1;
    }
    true
}

/// The first registry entry whose name equals `name` up to ASCII case.
pub fn by_name(name: &str) -> (r: Option<Automaton>)
    ensures
        r.is_some() <==> exists|k: int| 0 <= k < registry_len() && #[trigger] eq_ignore_case(registry_name(k), name@),
        r.is_some() ==> exists|k: int|
            0 <= k < registry_len() && #[trigger] eq_ignore_case(registry_name(k), name@) && r->Some_0.is_fresh(k)
                && forall|j: int| 0 <= j < k ==> !#[trigger] eq_ignore_case(registry_name(j), name@),
{
    let mut k: usize = 0;
    while k < 4
        invariant
            k <= 4,
            forall|j: int| 0 <= j < k ==> !#[trigger] eq_ignore_case(registry_name(j), name@),
        decreases 4 - k,
    {
        let a = make(k);
        let n = a.name();
        if str_eq_ignore_case(n, name) {
            assert(eq_ignore_case(registry_name(k as int), name@));
            return Some(a);
        }
        k = k + 1;
    }
    None
}

} // verus!
