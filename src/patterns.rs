use vstd::prelude::*;

verus! {

/// A 5 by 5 template, indexed `[row][column]`; -1 matches any code.
pub type Pattern5 = [[i8; 5]; 5];

pub const WILDCARD: i8 = -1;

pub const BLANK_PATTERN: Pattern5 = [
    [-1, -1, -1, -1, -1],
    [-1, -1, -1, -1, -1],
    [-1, -1, -1, -1, -1],
    [-1, -1, -1, -1, -1],
    [-1, -1, -1, -1, -1],
];

pub const CUTTING_CORNERS_1: Pattern5 = [
    [-1, -1, -1, -1, -1],
    [-1, -1,  1, -1, -1],
    [-1,  7,  7,  1, -1],
    [-1,  7,  7, -1, -1],
    [-1, -1, -1, -1, -1],
];

pub const CUTTING_CORNERS_2: Pattern5 = [
    [-1, -1, -1, -1, -1],
    [-1, -1,  1, -1, -1],
    [-1,  7,  7,  0, -1],
    [-1,  7,  7, -1, -1],
    [-1, -1, -1, -1, -1],
];

pub const CUTTING_CORNERS_3: Pattern5 = [
    [-1, -1, -1, -1, -1],
    [-1, -1,  0, -1, -1],
    [-1,  7,  7,  0, -1],
    [-1,  7,  7, -1, -1],
    [-1, -1, -1, -1, -1],
];

/// The templates whose match marks a route cell for deletion.
pub const ALL_PATTERNS: [Pattern5; 3] = [CUTTING_CORNERS_1, CUTTING_CORNERS_2, CUTTING_CORNERS_3];

/// Column of the template read at window position `(i, j)` under symmetry `t`
/// of the square (0 to 3: rotations by quarter turns; 4 to 7: the same after a mirror).
pub open spec fn sym_col(t: int, i: int, j: int) -> int {
    if t == 0 { i }
    else if t == 1 { 4 - j }
    else if t == 2 { 4 - i }
    else if t == 3 { j }
    else if t == 4 { 4 - i }
    else if t == 5 { 4 - j }
    else if t == 6 { i }
    else { j }
}

/// Row of the template read at window position `(i, j)` under symmetry `t`.
pub open spec fn sym_row(t: int, i: int, j: int) -> int {
    if t == 0 { j }
    else if t == 1 { i }
    else if t == 2 { 4 - j }
    else if t == 3 { 4 - i }
    else if t == 4 { j }
    else if t == 5 { 4 - i }
    else if t == 6 { 4 - j }
    else { i }
}

/// A template value accepts a code when it is the wildcard or equals the code.
pub open spec fn cell_fits(want: i8, v: u8) -> bool {
    want == WILDCARD || (want >= 0 && v as int == want as int)
}

/// The template as a function of `(column, row)`.
pub open spec fn template_of(p: Pattern5) -> spec_fn(int, int) -> i8 {
    |i: int, j: int| p@[j]@[i]
}

pub open spec fn fits_at(win: spec_fn(int, int) -> u8, pat: spec_fn(int, int) -> i8, t: int, i: int, j: int) -> bool {
    cell_fits(pat(sym_col(t, i, j), sym_row(t, i, j)), win(i, j))
}

/// The 5 by 5 window `win` agrees with template `pat` seen under symmetry `t`.
pub open spec fn fits_under(win: spec_fn(int, int) -> u8, pat: spec_fn(int, int) -> i8, t: int) -> bool {
    forall|i: int, j: int| 0 <= i < 5 && 0 <= j < 5 ==> #[trigger] fits_at(win, pat, t, i, j)
}

/// The window agrees with the template under at least one of the eight symmetries.
pub open spec fn template_matches(win: spec_fn(int, int) -> u8, pat: spec_fn(int, int) -> i8) -> bool {
    exists|t: int| 0 <= t < 8 && #[trigger] fits_under(win, pat, t)
}

/// The window `win` seen under symmetry `s`.
pub open spec fn transform(win: spec_fn(int, int) -> u8, s: int) -> spec_fn(int, int) -> u8 {
    |i: int, j: int| win(sym_col(s, i, j), sym_row(s, i, j))
}

/// The symmetry that reads like `s` followed by `t`.
pub open spec fn compose(t: int, s: int) -> int {
    if t < 4 {
        if s < 4 { (t + s) % 4 } else { 4 + (t + s) % 4 }
    } else {
        if s < 4 { 4 + (t - s) % 4 } else { (t - s) % 4 }
    }
}

proof fn lemma_compose(t: int, s: int, i: int, j: int)
    requires
        0 <= t < 8,
        0 <= s < 8,
        0 <= i < 5,
        0 <= j < 5,
    ensures
        0 <= compose(t, s) < 8,
        0 <= sym_col(s, i, j) < 5,
        0 <= sym_row(s, i, j) < 5,
        sym_col(compose(t, s), i, j) == sym_col(t, sym_col(s, i, j), sym_row(s, i, j)),
        sym_row(compose(t, s), i, j) == sym_row(t, sym_col(s, i, j), sym_row(s, i, j)),
{
}

/// The window equals the template seen under symmetry `t`.
pub open spec fn equals_under(win: spec_fn(int, int) -> u8, pat: spec_fn(int, int) -> i8, t: int) -> bool {
    forall|i: int, j: int|
        0 <= i < 5 && 0 <= j < 5 ==> #[trigger] win(i, j) as int == pat(sym_col(t, i, j), sym_row(t, i, j)) as int
}

/// A template without wildcards matches a window exactly when the window
/// equals the template under one of the eight symmetries.
pub proof fn lemma_exact_template(win: spec_fn(int, int) -> u8, pat: spec_fn(int, int) -> i8)
    requires
        forall|i: int, j: int| 0 <= i < 5 && 0 <= j < 5 ==> #[trigger] pat(i, j) >= 0,
    ensures
        template_matches(win, pat) <==> exists|t: int| 0 <= t < 8 && #[trigger] equals_under(win, pat, t),
{
    if template_matches(win, pat) {
        let t = choose|t: int| 0 <= t < 8 && #[trigger] fits_under(win, pat, t);
        assert forall|i: int, j: int| 0 <= i < 5 && 0 <= j < 5 implies #[trigger] win(i, j) as int == pat(
            sym_col(t, i, j),
            sym_row(t, i, j),
        ) as int by {
            assert(fits_at(win, pat, t, i, j));
            lemma_compose(t, 0, i, j);
        }
        assert(equals_under(win, pat, t));
    }
    if exists|t: int| 0 <= t < 8 && #[trigger] equals_under(win, pat, t) {
        let t = choose|t: int| 0 <= t < 8 && #[trigger] equals_under(win, pat, t);
        assert forall|i: int, j: int| 0 <= i < 5 && 0 <= j < 5 implies #[trigger] fits_at(win, pat, t, i, j) by {
            assert(win(i, j) as int == pat(sym_col(t, i, j), sym_row(t, i, j)) as int);
            lemma_compose(t, 0, i, j);
        }
        assert(fits_under(win, pat, t));
    }
}

/// A template made only of wildcards matches every window.
pub proof fn lemma_blank_matches(win: spec_fn(int, int) -> u8, pat: spec_fn(int, int) -> i8)
    requires
        forall|i: int, j: int| 0 <= i < 5 && 0 <= j < 5 ==> #[trigger] pat(i, j) == WILDCARD,
    ensures
        template_matches(win, pat),
{
    assert forall|i: int, j: int| 0 <= i < 5 && 0 <= j < 5 implies #[trigger] fits_at(win, pat, 0, i, j) by {
        assert(pat(i, j) == WILDCARD);
    }
    assert(fits_under(win, pat, 0));
}

/// A window that matches a template still matches it after any of the eight
/// rotations and mirrors.
pub proof fn lemma_match_symmetric(win: spec_fn(int, int) -> u8, pat: spec_fn(int, int) -> i8, s: int)
    requires
        0 <= s < 8,
        template_matches(win, pat),
    ensures
        template_matches(transform(win, s), pat),
{
    let t = choose|t: int| 0 <= t < 8 && #[trigger] fits_under(win, pat, t);
    let u = compose(t, s);
    assert forall|i: int, j: int| 0 <= i < 5 && 0 <= j < 5 implies #[trigger] fits_at(transform(win, s), pat, u, i, j) by {
        lemma_compose(t, s, i, j);
        assert(fits_at(win, pat, t, sym_col(s, i, j), sym_row(s, i, j)));
    }
    lemma_compose(t, s, 0, 0);
    assert(fits_under(transform(win, s), pat, u));
}

} // verus!
