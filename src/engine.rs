use vstd::prelude::*;
use crate::automaton::Automaton;
use crate::grid::{Grid, GridView};
use crate::stepping::UpdateRate;

verus! {

/// An all-zero grid of the given dimensions.
pub open spec fn zero_grid(w: nat, h: nat) -> GridView {
    GridView { w, h, cells: Seq::new(w * h, |i: int| 0u8) }
}

/// Drives one automaton over a pair of equally sized grids: each generation
/// is computed from `current` into `next`, and the two are then swapped.
pub struct Engine {
    current: Grid,
    next: Grid,
    automaton: Automaton,
    async_fact: UpdateRate,
}

impl Engine {
    pub closed spec fn current_view(&self) -> GridView {
        self.current@
    }

    pub closed spec fn spec_automaton(&self) -> Automaton {
        self.automaton
    }

    pub closed spec fn rate(&self) -> UpdateRate {
        self.async_fact
    }

    /// Both buffers well formed and of equal dimensions, and a valid rate.
    pub closed spec fn wf(&self) -> bool {
        &&& self.current@.wf()
        &&& self.next@.wf()
        &&& self.next@.same_dims(self.current@)
        &&& self.async_fact.wf()
    }

    /// A `w` by `h` engine whose current grid is seeded by `automaton`.
    pub fn new(w: usize, h: usize, async_fact: UpdateRate, automaton: Automaton) -> (r: Engine)
        requires
            w > 0,
            h > 0,
            w * h <= usize::MAX,
            async_fact.wf(),
        ensures
            r.wf(),
            r.rate() == async_fact,
            Automaton::seeded(automaton, r.spec_automaton(), zero_grid(w as nat, h as nat), r.current_view()),
    {
        let mut current = Grid::new(w, h);
        let next = Grid::new(w, h);
        proof {
            let z = zero_grid(w as nat, h as nat);
            assert forall|x: int, y: int| current@.in_range(x, y) implies #[trigger] current@.at(x, y) == z.at(x, y) by {
                crate::grid::lemma_index(w as int, h as int, x, y);
            }
            crate::grid::lemma_grid_ext(current@, z);
        }
        let mut automaton = automaton;
        automaton.init(&mut current);
        Engine { current, next, automaton, async_fact }
    }

    pub fn current(&self) -> (r: &Grid)
        requires
            self.wf(),
        ensures
            r@ == self.current_view(),
            r@.wf(),
    {
        &self.current
    }

    /// Replaces the automaton and lets it reseed the current grid.
    pub fn set_automaton(&mut self, automaton: Automaton)
        requires
            old(self).wf(),
        ensures
            final(self).wf(),
            final(self).rate() == old(self).rate(),
            Automaton::seeded(automaton, final(self).spec_automaton(), old(self).current_view(), final(self).current_view()),
    {
        self.automaton = automaton;
        self.automaton.init(&mut self.current);
        self.next = Grid::new(self.current.width(), self.current.height());
    }

    /// Advances one generation.
    pub fn step_once(&mut self)
        requires
            old(self).wf(),
        ensures
            final(self).wf(),
            final(self).rate() == old(self).rate(),
            Automaton::stepped_by(
                old(self).spec_automaton(),
                final(self).spec_automaton(),
                old(self).current_view(),
                final(self).current_view(),
                old(self).rate(),
            ),
    {
        self.automaton.step(&self.current, &mut self.next, self.async_fact);
        self.current.swap(&mut self.next);
    }

    /// Lets the automaton make the current grid ready after it was loaded.
    pub fn soft_init(&mut self)
        requires
            old(self).wf(),
        ensures
            final(self).wf(),
            final(self).rate() == old(self).rate(),
            final(self).spec_automaton() == old(self).spec_automaton(),
            old(self).spec_automaton().soft_seeded(old(self).current_view(), final(self).current_view()),
    {
        self.automaton.soft_init(&mut self.current);
    }

    /// Replaces the current grid, keeping the automaton as it is.
    pub fn set_grid(&mut self, grid: Grid)
        requires
            old(self).wf(),
            grid@.wf(),
        ensures
            final(self).wf(),
            final(self).rate() == old(self).rate(),
            final(self).spec_automaton() == old(self).spec_automaton(),
            final(self).current_view() == grid@,
    {
        self.next = Grid::new(grid.width(), grid.height());
        self.current = grid;
    }

    pub fn set_async_fact(&mut self, async_fact: UpdateRate)
        requires
            old(self).wf(),
            async_fact.wf(),
        ensures
            final(self).wf(),
            final(self).rate() == async_fact,
            final(self).spec_automaton() == old(self).spec_automaton(),
            final(self).current_view() == old(self).current_view(),
    {
        self.async_fact = async_fact;
    }
}

} // verus!
