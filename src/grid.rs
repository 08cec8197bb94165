use vstd::prelude::*;

verus! {

/// Mathematical model of a grid: its dimensions and its row-major cells.
pub ghost struct GridView {
    pub w: nat,
    pub h: nat,
    pub cells: Seq<u8>,
}

impl GridView {
    /// Positive dimensions and one cell per coordinate.
    pub open spec fn wf(self) -> bool {
        self.w > 0 && self.h > 0 && self.cells.len() == self.w * self.h && self.w * self.h <= usize::MAX
    }

    pub open spec fn in_range(self, x: int, y: int) -> bool {
        0 <= x < self.w && 0 <= y < self.h
    }

    /// The code at column `x`, row `y`.
    pub open spec fn at(self, x: int, y: int) -> u8 {
        self.cells[y * self.w + x]
    }

    pub open spec fn same_dims(self, other: GridView) -> bool {
        self.w == other.w && self.h == other.h
    }

    /// Every cell agrees with `other` except possibly at `(x, y)`, where it holds `v`.
    pub open spec fn is_set(self, other: GridView, x: int, y: int, v: u8) -> bool {
        &&& self.wf()
        &&& self.same_dims(other)
        &&& self.at(x, y) == v
        &&& forall|a: int, b: int|
            self.in_range(a, b) && !(a == x && b == y) ==> #[trigger] self.at(a, b) == other.at(a, b)
    }
}

/// The row-major index of an in-range coordinate lies inside the grid, and
/// distinct coordinates have distinct indices.
pub proof fn lemma_index(w: int, h: int, x: int, y: int)
    requires
        0 <= x < w,
        0 <= y < h,
    ensures
        0 <= y * w + x < w * h,
        forall|a: int, b: int|
            0 <= a < w && 0 <= b < h && #[trigger] (b * w + a) == y * w + x ==> a == x && b == y,
{
    assert(0 <= y * w + x < w * h) by (nonlinear_arith)
        requires 0 <= x < w, 0 <= y < h;
    assert forall|a: int, b: int|
        0 <= a < w && 0 <= b < h && #[trigger] (b * w + a) == y * w + x implies a == x && b == y by {
        if b < y {
            assert(b * w + a < y * w) by (nonlinear_arith)
                requires b < y, 0 <= a < w;
        } else if b > y {
            assert(y * w + x < b * w) by (nonlinear_arith)
                requires y < b, 0 <= x < w;
        }
    }
}

/// Two well-formed grids that agree on every coordinate are equal.
pub proof fn lemma_grid_ext(a: GridView, b: GridView)
    requires
        a.wf(),
        b.wf(),
        a.same_dims(b),
        forall|x: int, y: int| a.in_range(x, y) ==> #[trigger] a.at(x, y) == b.at(x, y),
    ensures
        a == b,
{
    assert forall|i: int| 0 <= i < a.cells.len() implies a.cells[i] == b.cells[i] by {
        let w = a.w as int;
        let x = i % w;
        let y = i / w;
        assert(i == y * w + x && 0 <= x < w && 0 <= y) by (nonlinear_arith)
            requires w > 0, i >= 0, x == i % w, y == i / w;
        assert(y < a.h) by (nonlinear_arith)
            requires i == y * w + x, 0 <= x, i < w * a.h, w > 0;
        assert(a.at(x, y) == b.at(x, y));
    }
    assert(a.cells =~= b.cells);
}

/// A fixed-size rectangle of 8-bit cell codes, stored row by row.
#[derive(Clone)]
pub struct Grid {
    w: usize,
    h: usize,
    cells: Vec<u8>,
}

impl View for Grid {
    type V = GridView;

    closed spec fn view(&self) -> GridView {
        GridView { w: self.w as nat, h: self.h as nat, cells: self.cells@ }
    }
}

impl Grid {
    /// A `w` by `h` grid with every cell 0.
    pub fn new(w: usize, h: usize) -> (r: Grid)
        requires
            w > 0,
            h > 0,
            w * h <= usize::MAX,
        ensures
            r@.wf(),
            r@.w == w,
            r@.h == h,
            forall|x: int, y: int| r@.in_range(x, y) ==> #[trigger] r@.at(x, y) == 0,
    {
        let n: usize = w * h;
        let mut cells: Vec<u8> = Vec::new();
        let mut i: usize = 0;
        while i < n
            invariant
                i <= n,
                cells@.len() == i,
                forall|k: int| 0 <= k < i ==> cells@[k] == 0,
            decreases n - i,
        {
            cells.push(0);
            i = i + 1;
        }
        let r = Grid { w, h, cells };
        proof {
            assert forall|x: int, y: int| r@.in_range(x, y) implies #[trigger] r@.at(x, y) == 0 by {
                lemma_index(w as int, h as int, x, y);
            }
        }
        r
    }

    /// A `w` by `h` grid holding `cells` row by row.
    pub fn from_cells(w: usize, h: usize, cells: Vec<u8>) -> (r: Grid)
        requires
            w > 0,
            h > 0,
            cells@.len() == w * h,
        ensures
            r@ == (GridView { w: w as nat, h: h as nat, cells: cells@ }),
            r@.wf(),
    {
        let len = cells.len();
        assert(w * h == len);
        Grid { w, h, cells }
    }

    /// The cells, row by row.
    pub fn as_slice(&self) -> (r: &[u8])
        ensures
            r@ == self@.cells,
    {
        self.cells.as_slice()
    }

    pub fn width(&self) -> (r: usize)
        ensures
            r == self@.w,
    {
        self.w
    }

    pub fn height(&self) -> (r: usize)
        ensures
            r == self@.h,
    {
        self.h
    }

    /// Row-major position of `(x, y)` in the backing storage.
    fn idx(&self, x: usize, y: usize) -> (r: usize)
        requires
            self@.wf(),
            self@.in_range(x as int, y as int),
        ensures
            r == y * self@.w + x,
            r < self.cells@.len(),
    {
        let len = self.cells.len();
        proof {
            lemma_index(self.w as int, self.h as int, x as int, y as int);
            assert(y * self.w <= y * self.w + x && y * self.w + x < len);
        }
        y * self.w + x
    }

    pub fn get(&self, x: usize, y: usize) -> (r: u8)
        requires
            self@.wf(),
            self@.in_range(x as int, y as int),
        ensures
            r == self@.at(x as int, y as int),
    {
        let i = self.idx(x, y);
        self.cells[i]
    }

    pub fn set(&mut self, x: usize, y: usize, value: u8)
        requires
            old(self)@.wf(),
            old(self)@.in_range(x as int, y as int),
        ensures
            final(self)@.is_set(old(self)@, x as int, y as int, value),
    {
        let i = self.idx(x, y);
        self.cells.set(i, value);
        proof {
            let g = self@;
            assert forall|a: int, b: int| g.in_range(a, b) && !(a == x && b == y) implies
                #[trigger] g.at(a, b) == old(self)@.at(a, b) by {
                lemma_index(self.w as int, self.h as int, x as int, y as int);
                lemma_index(self.w as int, self.h as int, a, b);
            }
        }
    }

    /// Overwrites every cell with `value`.
    pub fn fill(&mut self, value: u8)
        requires
            old(self)@.wf(),
        ensures
            final(self)@.wf(),
            final(self)@.same_dims(old(self)@),
            forall|x: int, y: int| final(self)@.in_range(x, y) ==> #[trigger] final(self)@.at(x, y) == value,
    {
        let n = self.cells.len();
        let mut i: usize = 0;
        while i < n
            invariant
                i <= n,
                n == self.cells@.len(),
                self.w == old(self).w,
                self.h == old(self).h,
                forall|k: int| 0 <= k < i ==> self.cells@[k] == value,
            decreases n - i,
        {
            self.cells.set(i, value);
            i = i + 1;
        }
        proof {
            let g = self@;
            assert forall|x: int, y: int| g.in_range(x, y) implies #[trigger] g.at(x, y) == value by {
                lemma_index(self.w as int, self.h as int, x, y);
            }
        }
    }

    /// Exchanges the contents of two grids of equal dimensions without copying.
    pub fn swap(&mut self, other: &mut Grid)
        requires
            old(self)@.wf(),
            old(self)@.same_dims(old(other)@),
            old(other)@.wf(),
        ensures
            final(self)@ == old(other)@,
            final(other)@ == old(self)@,
    {
        std::mem::swap(&mut self.cells, &mut other.cells);
    }
}

} // verus!
