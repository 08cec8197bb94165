use vstd::prelude::*;
use crate::grid::{Grid, GridView};

verus! {

/// Turns a grid into a full frame of text, repainted from scratch each time.
pub trait Renderer {
    fn name(&self) -> &'static str;

    /// The whole frame for `grid`, one line per row.
    fn frame(&self, grid: &Grid) -> Vec<char>
        requires
            grid@.wf(),
    ;
}

/// The terminal's character for a cell code: blank for 0, a full block otherwise.
pub open spec fn terminal_glyph(v: u8) -> char {
    if v == 0 { ' ' } else { '\u{2588}' }
}

/// `f` holds each row of `g` as its glyphs followed by a newline.
pub open spec fn is_terminal_frame(f: Seq<char>, g: GridView) -> bool {
    &&& f.len() == g.h * (g.w + 1)
    &&& forall|x: int, y: int| #[trigger] g.in_range(x, y) ==> f[y * (g.w + 1) + x] == terminal_glyph(g.at(x, y))
    &&& forall|y: int| 0 <= y < g.h ==> #[trigger] f[y * (g.w + 1) + g.w] == '\n'
}

/// Draws live cells as full blocks on a text terminal.
#[derive(Clone, Copy, Debug, PartialEq, Eq)]
pub struct TerminalRenderer;

impl TerminalRenderer {
    pub fn new() -> (r: TerminalRenderer) {
        TerminalRenderer
    }

    pub fn glyph(v: u8) -> (r: char)
        ensures
            r == terminal_glyph(v),
    {
        if v == 0 { ' ' } else { '\u{2588}' }
    }

    /// The terminal frame for `grid`.
    pub fn terminal_frame(grid: &Grid) -> (r: Vec<char>)
        requires
            grid@.wf(),
        ensures
            is_terminal_frame(r@, grid@),
    {
        let w = grid.width();
        let h = grid.height();
        let ghost g = grid@;
        let mut out: Vec<char> = Vec::new();
        let mut y: usize = 0;
        while y < h
            invariant
                g == grid@,
                g.wf(),
                w == g.w,
                h == g.h,
                y <= h,
                out@.len() == y * (w + 1),
                forall|a: int, b: int| 0 <= a < w && 0 <= b < y ==> #[trigger] out@[b * (w + 1) + a] == terminal_glyph(g.at(a, b)),
                forall|b: int| 0 <= b < y ==> #[trigger] out@[b * (w + 1) + w] == '\n',
            decreases h - y,
        {
            let mut x: usize = 0;
            while x < w
                invariant
                    g == grid@,
                    g.wf(),
                    w == g.w,
                    h == g.h,
                    y < h,
                    x <= w,
                    out@.len() == y * (w + 1) + x,
                    forall|a: int, b: int| 0 <= a < w && 0 <= b < y ==> #[trigger] out@[b * (w + 1) + a] == terminal_glyph(g.at(a, b)),
                    forall|b: int| 0 <= b < y ==> #[trigger] out@[b * (w + 1) + w] == '\n',
                    forall|a: int| 0 <= a < x ==> #[trigger] out@[y * (w + 1) + a] == terminal_glyph(g.at(a, y as int)),
                decreases w - x,
            {
                let ghost before = out@;
                out.push(Self::glyph(grid.get(x, y)));
                proof {
                    assert forall|a: int, b: int| 0 <= a < w && 0 <= b < y implies #[trigger] out@[b * (w + 1) + a] == terminal_glyph(g.at(a, b)) by {
                        lemma_row_before(w as int, b, y as int, a);
                        assert(before[b * (w + 1) + a] == terminal_glyph(g.at(a, b)));
                    }
                    assert forall|b: int| 0 <= b < y implies #[trigger] out@[b * (w + 1) + w] == '\n' by {
                        lemma_row_before(w as int, b, y as int, w as int);
                        assert(before[b * (w + 1) + w] == '\n');
                    }
                    assert forall|a: int| 0 <= a < x + 1 implies #[trigger] out@[y * (w + 1) + a] == terminal_glyph(g.at(a, y as int)) by {
                        if a < x {
                            assert(before[y * (w + 1) + a] == terminal_glyph(g.at(a, y as int)));
                        }
                    }
                }
                x = x + 1;
            }
            let ghost before = out@;
            out.push('\n');
            proof {
                assert((y + 1) * (w + 1) == y * (w + 1) + w + 1) by (nonlinear_arith);
                assert forall|a: int, b: int| 0 <= a < w && 0 <= b < y + 1 implies #[trigger] out@[b * (w + 1) + a] == terminal_glyph(g.at(a, b)) by {
                    if b < y {
                        lemma_row_before(w as int, b, y as int, a);
                        assert(before[b * (w + 1) + a] == terminal_glyph(g.at(a, b)));
                    } else {
                        assert(before[y * (w + 1) + a] == terminal_glyph(g.at(a, y as int)));
                    }
                }
                assert forall|b: int| 0 <= b < y + 1 implies #[trigger] out@[b * (w + 1) + w] == '\n' by {
                    if b < y {
                        lemma_row_before(w as int, b, y as int, w as int);
                        assert(before[b * (w + 1) + w] == '\n');
                    }
                }
            }
            y = y + 1;
        }
        out
    }
}

proof fn lemma_row_before(w: int, b: int, y: int, a: int)
    requires
        0 <= b < y,
        0 <= a <= w,
    ensures
        b * (w + 1) + a < y * (w + 1),
{
    assert(b * (w + 1) + a < y * (w + 1)) by (nonlinear_arith)
        requires 0 <= b < y, 0 <= a <= w;
}

impl Renderer for TerminalRenderer {
    fn name(&self) -> &'static str {
        "terminal"
    }

    fn frame(&self, grid: &Grid) -> Vec<char> {
        Self::terminal_frame(grid)
    }
}

} // verus!
