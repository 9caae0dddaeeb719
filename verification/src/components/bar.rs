//! Progress gauges: a scalar percentage rendered as a partially filled
//! rectangle of cells, vertically or horizontally, with eight sub-cell
//! fill levels along the fill axis.

use vstd::prelude::*;
use crate::components::glyphs::{
    full_block, horiz_glyph, horiz_glyph_str, lemma_horiz_glyph_len, lemma_vert_glyph_len,
    vert_glyph, vert_glyph_str,
};
use crate::text::{cat, lemma_cat_len_uniform, lemma_rep_len, rep, repeat_str, sp, spaces};
use vstd::arithmetic::div_mod::{
    lemma_div_by_multiple, lemma_div_is_ordered, lemma_div_pos_is_pos,
};
use vstd::arithmetic::mul::lemma_mul_inequality;

verus! {

/// The color of the filled part of a gauge.
pub enum Color {
    Red,
    Green,
    Yellow,
    Blue,
    Magenta,
    Cyan,
    White,
}

/// The style token emitted on both sides of every gauge line.
pub open spec fn color_token(c: Color) -> Seq<char> {
    match c {
        Color::Red => "[[EFFECT_COLOR_RED_BLACK]]"@,
        Color::Green => "[[EFFECT_COLOR_GREEN_BLACK]]"@,
        Color::Yellow => "[[EFFECT_COLOR_YELLOW_BLACK]]"@,
        Color::Blue => "[[EFFECT_COLOR_BLUE_BLACK]]"@,
        Color::Magenta => "[[EFFECT_COLOR_MAGENTA_BLACK]]"@,
        Color::Cyan => "[[EFFECT_COLOR_CYAN_BLACK]]"@,
        Color::White => "[[EFFECT_COLOR_WHITE_BLACK]]"@,
    }
}

fn color_token_str(c: &Color) -> (out: &'static str)
    ensures
        out@ == color_token(*c),
{
    match c {
        Color::Red => "[[EFFECT_COLOR_RED_BLACK]]",
        Color::Green => "[[EFFECT_COLOR_GREEN_BLACK]]",
        Color::Yellow => "[[EFFECT_COLOR_YELLOW_BLACK]]",
        Color::Blue => "[[EFFECT_COLOR_BLUE_BLACK]]",
        Color::Magenta => "[[EFFECT_COLOR_MAGENTA_BLACK]]",
        Color::Cyan => "[[EFFECT_COLOR_CYAN_BLACK]]",
        Color::White => "[[EFFECT_COLOR_WHITE_BLACK]]",
    }
}

/// One gauge line: the color token, the cell glyphs, the token again,
/// and the terminating newline.
pub open spec fn gauge_line(tok: Seq<char>, body: Seq<char>) -> Seq<char> {
    tok + body + tok + "\n"@
}

/// The number of filled sub-cell units along an axis of `cells` cells
/// at `percent` of the full range.
pub open spec fn filled_subunits(cells: int, percent: int) -> int {
    cells * 8 * percent / 100
}

/// The glyphs of the vertical gauge line `r` lines below the top, at
/// `filled` of `rows * 8` sub-units.
pub open spec fn vbar_body_at(rows: int, cols: int, filled: int, r: int) -> Seq<char> {
    if filled == rows * 8 {
        rep(full_block(), cols)
    } else {
        let white = rows - 1 - filled / 8;
        if r < white {
            sp(cols)
        } else if r == white {
            rep(vert_glyph(filled % 8), cols)
        } else {
            rep(full_block(), cols)
        }
    }
}

/// The lines of a vertical gauge, top first.
pub open spec fn vbar_lines(rows: int, cols: int, c: Color, filled: int) -> Seq<Seq<char>> {
    Seq::new(rows as nat, |r: int| gauge_line(color_token(c), vbar_body_at(rows, cols, filled, r)))
}

/// The whole text block of a vertical gauge.
pub open spec fn vbar_render(rows: int, cols: int, c: Color, filled: int) -> Seq<char> {
    cat(vbar_lines(rows, cols, c, filled), rows)
}

/// The glyphs of every line of a horizontal gauge at `filled` of
/// `cols * 8` sub-units.
pub open spec fn hbar_body(cols: int, filled: int) -> Seq<char> {
    if filled == cols * 8 {
        rep(full_block(), cols)
    } else {
        rep(full_block(), filled / 8) + horiz_glyph(filled % 8) + sp(cols - 1 - filled / 8)
    }
}

/// The lines of a horizontal gauge; every line is the same.
pub open spec fn hbar_lines(rows: int, cols: int, c: Color, filled: int) -> Seq<Seq<char>> {
    Seq::new(rows as nat, |r: int| gauge_line(color_token(c), hbar_body(cols, filled)))
}

/// The whole text block of a horizontal gauge.
pub open spec fn hbar_render(rows: int, cols: int, c: Color, filled: int) -> Seq<char> {
    cat(hbar_lines(rows, cols, c, filled), rows)
}

fn gauge_line_str(token: &str, piece: &str, cols: usize) -> (out: String)
    ensures
        out@ == gauge_line(token@, rep(piece@, cols as int)),
{
    let mut out = String::new();
    out.append(token);
    let body = repeat_str(piece, cols);
    out.append(body.as_str());
    out.append(token);
    out.append("\n");
    proof {
        assert(out@ =~= gauge_line(token@, rep(piece@, cols as int)));
    }
    out
}

/// Vertical progress gauge: fills from the bottom upward.
pub struct VerticalBar {
    rows: i32,
    cols: i32,
    color: Color,
}

impl VerticalBar {
    /// The gauge geometry is sound: both dimensions are positive.
    pub closed spec fn wf(&self) -> bool {
        self.rows >= 1 && self.cols >= 1
    }

    /// The configured height in cells.
    pub closed spec fn spec_rows(&self) -> int {
        self.rows as int
    }

    /// The configured width in cells.
    pub closed spec fn spec_cols(&self) -> int {
        self.cols as int
    }

    /// The configured fill color.
    pub closed spec fn spec_color(&self) -> Color {
        self.color
    }

    /// Creates a gauge of `rows` by `cols` cells; the fill color
    /// defaults to green.
    pub fn new(rows: i32, cols: i32, color: Option<Color>) -> (bar: VerticalBar)
        requires
            rows >= 1,
            cols >= 1,
        ensures
            bar.wf(),
            bar.spec_rows() == rows,
            bar.spec_cols() == cols,
            bar.spec_color() == (match color {
                Option::Some(c) => c,
                Option::None => Color::Green,
            }),
    {
        let c = match color {
            Option::Some(c) => c,
            Option::None => Color::Green,
        };
        VerticalBar { rows, cols, color: c }
    }

    /// The configured height in cells.
    pub fn rows(&self) -> (r: i32)
        ensures
            r == self.spec_rows(),
    {
        self.rows
    }

    /// The configured width in cells.
    pub fn cols(&self) -> (r: i32)
        ensures
            r == self.spec_cols(),
    {
        self.cols
    }

    /// Renders the gauge at `filled` of `rows * 8` sub-units: blank
    /// lines on top, then one transitional line, then fully filled
    /// lines, every line wrapped in the color token.
    pub fn display_filled(&self, filled: i64) -> (out: String)
        requires
            self.wf(),
            0 <= filled <= self.spec_rows() * 8,
        ensures
            out@ == vbar_render(self.spec_rows(), self.spec_cols(), self.spec_color(), filled as int),
    {
        let ghost lines = vbar_lines(self.spec_rows(), self.spec_cols(), self.spec_color(), filled as int);
        let token = color_token_str(&self.color);
        let rows: usize = self.rows as usize;
        let cols: usize = self.cols as usize;
        let rows8: i64 = (self.rows as i64) * 8;
        let mut out = String::new();
        if filled == rows8 {
            let line = gauge_line_str(token, "\u{2588}", cols);
            let mut r: usize = 0;
            while r < rows
                invariant
                    r <= rows,
                    rows == self.spec_rows(),
                    out@ == cat(lines, r as int),
                    lines == vbar_lines(self.spec_rows(), self.spec_cols(), self.spec_color(), filled as int),
                    filled == self.spec_rows() * 8,
                    line@ == gauge_line(color_token(self.spec_color()), rep(full_block(), self.spec_cols())),
                decreases rows - r,
            {
                out.append(line.as_str());
                r = r + 1;
                proof {
                    assert(lines[r as int - 1] == gauge_line(
                        color_token(self.spec_color()),
                        vbar_body_at(self.spec_rows(), self.spec_cols(), filled as int, r as int - 1),
                    ));
                }
            }
            out
        } else {
            let fc: i64 = filled / 8;
            let white: usize = ((self.rows as i64) - 1 - fc) as usize;
            proof {
                lemma_div_pos_is_pos(filled as int, 8);
                lemma_div_is_ordered(filled as int, self.spec_rows() * 8 - 1, 8);
                assert((self.spec_rows() * 8 - 1) / 8 == self.spec_rows() - 1) by {
                    assert(self.spec_rows() * 8 - 1 == 8 * (self.spec_rows() - 1) + 7);
                    vstd::arithmetic::div_mod::lemma_div_multiples_vanish_fancy(
                        self.spec_rows() - 1,
                        7,
                        8,
                    );
                }
            }
            let blank_line = gauge_line_str(token, " ", cols);
            let trans_line = gauge_line_str(token, vert_glyph_str((filled % 8) as u8), cols);
            let full_line = gauge_line_str(token, "\u{2588}", cols);
            let mut r: usize = 0;
            while r < white
                invariant
                    r <= white,
                    white == self.spec_rows() - 1 - filled / 8,
                    0 <= filled < self.spec_rows() * 8,
                    out@ == cat(lines, r as int),
                    lines == vbar_lines(self.spec_rows(), self.spec_cols(), self.spec_color(), filled as int),
                    blank_line@ == gauge_line(color_token(self.spec_color()), sp(self.spec_cols())),
                decreases white - r,
            {
                out.append(blank_line.as_str());
                r = r + 1;
            }
            out.append(trans_line.as_str());
            proof {
                assert(out@ == cat(lines, white as int + 1));
            }
            let mut r2: usize = white + 1;
            while r2 < rows
                invariant
                    white < r2 <= rows,
                    rows == self.spec_rows(),
                    white == self.spec_rows() - 1 - filled / 8,
                    0 <= filled < self.spec_rows() * 8,
                    out@ == cat(lines, r2 as int),
                    lines == vbar_lines(self.spec_rows(), self.spec_cols(), self.spec_color(), filled as int),
                    full_line@ == gauge_line(color_token(self.spec_color()), rep(full_block(), self.spec_cols())),
                decreases rows - r2,
            {
                out.append(full_line.as_str());
                r2 = r2 + 1;
            }
            out
        }
    }

    /// Renders the gauge at `percent` of the full range. The count of
    /// filled sub-units is `rows * 8 * percent / 100`, rounded down.
    pub fn display(&self, percent: i32) -> (out: String)
        requires
            self.wf(),
            0 <= percent <= 100,
        ensures
            out@ == vbar_render(
                self.spec_rows(),
                self.spec_cols(),
                self.spec_color(),
                filled_subunits(self.spec_rows(), percent as int),
            ),
    {
        proof {
            let a = self.spec_rows() * 8;
            vstd::arithmetic::mul::lemma_mul_nonnegative(a, percent as int);
            lemma_mul_inequality(percent as int, 100, a);
            assert(a * percent == percent * a) by (nonlinear_arith);
            assert(a * 100 == 100 * a) by (nonlinear_arith);
            lemma_div_is_ordered(a * percent, a * 100, 100);
            lemma_div_by_multiple(a, 100);
            lemma_div_pos_is_pos(a * percent, 100);
        }
        let filled: i64 = (self.rows as i64) * 8 * (percent as i64) / 100;
        self.display_filled(filled)
    }
}

/// Horizontal progress gauge: fills from the left edge rightward; all
/// of its lines are identical.
pub struct HorizontalBar {
    rows: i32,
    cols: i32,
    color: Color,
}

impl HorizontalBar {
    /// The gauge geometry is sound: both dimensions are positive.
    pub closed spec fn wf(&self) -> bool {
        self.rows >= 1 && self.cols >= 1
    }

    /// The configured height in cells.
    pub closed spec fn spec_rows(&self) -> int {
        self.rows as int
    }

    /// The configured width in cells.
    pub closed spec fn spec_cols(&self) -> int {
        self.cols as int
    }

    /// The configured fill color.
    pub closed spec fn spec_color(&self) -> Color {
        self.color
    }

    /// Creates a gauge of `rows` by `cols` cells; the fill color
    /// defaults to green.
    pub fn new(rows: i32, cols: i32, color: Option<Color>) -> (bar: HorizontalBar)
        requires
            rows >= 1,
            cols >= 1,
        ensures
            bar.wf(),
            bar.spec_rows() == rows,
            bar.spec_cols() == cols,
            bar.spec_color() == (match color {
                Option::Some(c) => c,
                Option::None => Color::Green,
            }),
    {
        let c = match color {
            Option::Some(c) => c,
            Option::None => Color::Green,
        };
        HorizontalBar { rows, cols, color: c }
    }

    /// The configured height in cells.
    pub fn rows(&self) -> (r: i32)
        ensures
            r == self.spec_rows(),
    {
        self.rows
    }

    /// The configured width in cells.
    pub fn cols(&self) -> (r: i32)
        ensures
            r == self.spec_cols(),
    {
        self.cols
    }

    /// Renders the gauge at `filled` of `cols * 8` sub-units: each line
    /// holds the full cells, one transitional cell and blank cells, and
    /// all `rows` lines are identical.
    pub fn display_filled(&self, filled: i64) -> (out: String)
        requires
            self.wf(),
            0 <= filled <= self.spec_cols() * 8,
        ensures
            out@ == hbar_render(self.spec_rows(), self.spec_cols(), self.spec_color(), filled as int),
    {
        let ghost lines = hbar_lines(self.spec_rows(), self.spec_cols(), self.spec_color(), filled as int);
        let token = color_token_str(&self.color);
        let rows: usize = self.rows as usize;
        let cols: usize = self.cols as usize;
        let cols8: i64 = (self.cols as i64) * 8;
        let line = if filled == cols8 {
            gauge_line_str(token, "\u{2588}", cols)
        } else {
            let fc: i64 = filled / 8;
            proof {
                lemma_div_pos_is_pos(filled as int, 8);
                lemma_div_is_ordered(filled as int, self.spec_cols() * 8 - 1, 8);
                assert((self.spec_cols() * 8 - 1) / 8 == self.spec_cols() - 1) by {
                    assert(self.spec_cols() * 8 - 1 == 8 * (self.spec_cols() - 1) + 7);
                    vstd::arithmetic::div_mod::lemma_div_multiples_vanish_fancy(
                        self.spec_cols() - 1,
                        7,
                        8,
                    );
                }
            }
            let white: usize = ((self.cols as i64) - 1 - fc) as usize;
            let mut l = String::new();
            l.append(token);
            let full_part = repeat_str("\u{2588}", fc as usize);
            l.append(full_part.as_str());
            l.append(horiz_glyph_str((filled % 8) as u8));
            let pad = spaces(white);
            l.append(pad.as_str());
            l.append(token);
            l.append("\n");
            proof {
                assert(l@ =~= gauge_line(
                    color_token(self.spec_color()),
                    hbar_body(self.spec_cols(), filled as int),
                ));
            }
            l
        };
        let mut out = String::new();
        let mut r: usize = 0;
        while r < rows
            invariant
                r <= rows,
                rows == self.spec_rows(),
                out@ == cat(lines, r as int),
                lines == hbar_lines(self.spec_rows(), self.spec_cols(), self.spec_color(), filled as int),
                line@ == gauge_line(color_token(self.spec_color()), hbar_body(self.spec_cols(), filled as int)),
            decreases rows - r,
        {
            out.append(line.as_str());
            r = r + 1;
        }
        out
    }

    /// Renders the gauge at `percent` of the full range. The count of
    /// filled sub-units is `cols * 8 * percent / 100`, rounded down.
    pub fn display(&self, percent: i32) -> (out: String)
        requires
            self.wf(),
            0 <= percent <= 100,
        ensures
            out@ == hbar_render(
                self.spec_rows(),
                self.spec_cols(),
                self.spec_color(),
                filled_subunits(self.spec_cols(), percent as int),
            ),
    {
        proof {
            let a = self.spec_cols() * 8;
            vstd::arithmetic::mul::lemma_mul_nonnegative(a, percent as int);
            lemma_mul_inequality(percent as int, 100, a);
            assert(a * percent == percent * a) by (nonlinear_arith);
            assert(a * 100 == 100 * a) by (nonlinear_arith);
            lemma_div_is_ordered(a * percent, a * 100, 100);
            lemma_div_by_multiple(a, 100);
            lemma_div_pos_is_pos(a * percent, 100);
        }
        let filled: i64 = (self.cols as i64) * 8 * (percent as i64) / 100;
        self.display_filled(filled)
    }
}

/// The number of fully filled rows of a vertical gauge at `filled`
/// sub-units.
pub open spec fn vbar_full_rows(rows: int, filled: int) -> int {
    if filled == rows * 8 {
        rows
    } else {
        filled / 8
    }
}

/// The number of fully filled cells in each row of a horizontal gauge
/// at `filled` sub-units.
pub open spec fn hbar_full_cols(cols: int, filled: int) -> int {
    if filled == cols * 8 {
        cols
    } else {
        filled / 8
    }
}

/// Law: a vertical gauge block is exactly `rows` lines; between its
/// two color tokens each line holds exactly `cols` glyph characters.
pub proof fn lemma_vbar_geometry(rows: int, cols: int, c: Color, filled: int)
    requires
        rows >= 1,
        cols >= 0,
        0 <= filled <= rows * 8,
    ensures
        vbar_lines(rows, cols, c, filled).len() == rows,
        forall|r: int|
            0 <= r < rows ==> #[trigger] vbar_lines(rows, cols, c, filled)[r] == gauge_line(
                color_token(c),
                vbar_body_at(rows, cols, filled, r),
            ),
        forall|r: int| 0 <= r < rows ==> #[trigger] vbar_body_at(rows, cols, filled, r).len() == cols,
        vbar_render(rows, cols, c, filled).len() == rows * (cols + 2 * color_token(c).len() + 1),
{
    reveal_strlit(" ");
    reveal_strlit("\n");
    assert forall|r: int| 0 <= r < rows implies #[trigger] vbar_body_at(
        rows,
        cols,
        filled,
        r,
    ).len() == cols by {
        lemma_vert_glyph_len(filled % 8);
        lemma_rep_len(full_block(), cols);
        lemma_rep_len(" "@, cols);
        lemma_rep_len(vert_glyph(filled % 8), cols);
        assert(full_block().len() == 1) by {
            lemma_vert_glyph_len(8);
        }
    }
    assert forall|r: int|
        0 <= r < rows implies #[trigger] vbar_lines(rows, cols, c, filled)[r].len() == cols + 2
        * color_token(c).len() + 1 by {
        assert(vbar_body_at(rows, cols, filled, r).len() == cols);
    }
    lemma_cat_len_uniform(
        vbar_lines(rows, cols, c, filled),
        rows,
        cols + 2 * color_token(c).len() + 1,
    );
}

/// Law: a horizontal gauge block is exactly `rows` lines; between its
/// two color tokens each line holds exactly `cols` glyph characters.
pub proof fn lemma_hbar_geometry(rows: int, cols: int, c: Color, filled: int)
    requires
        rows >= 1,
        cols >= 1,
        0 <= filled <= cols * 8,
    ensures
        hbar_lines(rows, cols, c, filled).len() == rows,
        forall|r: int|
            0 <= r < rows ==> #[trigger] hbar_lines(rows, cols, c, filled)[r] == gauge_line(
                color_token(c),
                hbar_body(cols, filled),
            ),
        hbar_body(cols, filled).len() == cols,
        hbar_render(rows, cols, c, filled).len() == rows * (cols + 2 * color_token(c).len() + 1),
{
    reveal_strlit(" ");
    reveal_strlit("\n");
    assert(full_block().len() == 1) by {
        lemma_vert_glyph_len(8);
    }
    if filled == cols * 8 {
        lemma_rep_len(full_block(), cols);
    } else {
        lemma_div_pos_is_pos(filled, 8);
        lemma_div_is_ordered(filled, cols * 8 - 1, 8);
        assert((cols * 8 - 1) / 8 == cols - 1) by {
            assert(cols * 8 - 1 == 8 * (cols - 1) + 7);
            vstd::arithmetic::div_mod::lemma_div_multiples_vanish_fancy(cols - 1, 7, 8);
        }
        lemma_rep_len(full_block(), filled / 8);
        lemma_rep_len(" "@, cols - 1 - filled / 8);
        lemma_horiz_glyph_len(filled % 8);
    }
    lemma_cat_len_uniform(
        hbar_lines(rows, cols, c, filled),
        rows,
        cols + 2 * color_token(c).len() + 1,
    );
}

/// Law: the bottom `vbar_full_rows` lines of a vertical gauge are
/// fully filled rows.
pub proof fn lemma_vbar_full_lines(rows: int, cols: int, c: Color, filled: int)
    requires
        rows >= 1,
        0 <= filled <= rows * 8,
    ensures
        0 <= vbar_full_rows(rows, filled) <= rows,
        forall|r: int|
            rows - vbar_full_rows(rows, filled) <= r < rows
                ==> #[trigger] vbar_lines(rows, cols, c, filled)[r] == gauge_line(
                color_token(c),
                rep(full_block(), cols),
            ),
{
    if filled == rows * 8 {
    } else {
        lemma_div_pos_is_pos(filled, 8);
        lemma_div_is_ordered(filled, rows * 8 - 1, 8);
        assert((rows * 8 - 1) / 8 == rows - 1) by {
            assert(rows * 8 - 1 == 8 * (rows - 1) + 7);
            vstd::arithmetic::div_mod::lemma_div_multiples_vanish_fancy(rows - 1, 7, 8);
        }
    }
}

/// Law: raising the percentage never lowers the count of fully filled
/// cells of a vertical gauge.
pub proof fn lemma_vbar_monotone(rows: int, p1: int, p2: int)
    requires
        rows >= 1,
        0 <= p1 <= p2 <= 100,
    ensures
        vbar_full_rows(rows, filled_subunits(rows, p1)) <= vbar_full_rows(
            rows,
            filled_subunits(rows, p2),
        ),
{
    lemma_filled_subunits_monotone(rows, p1, p2);
    lemma_full_count_monotone(rows, filled_subunits(rows, p1), filled_subunits(rows, p2));
}

/// Law: raising the percentage never lowers the count of fully filled
/// cells in a row of a horizontal gauge.
pub proof fn lemma_hbar_monotone(cols: int, p1: int, p2: int)
    requires
        cols >= 1,
        0 <= p1 <= p2 <= 100,
    ensures
        hbar_full_cols(cols, filled_subunits(cols, p1)) <= hbar_full_cols(
            cols,
            filled_subunits(cols, p2),
        ),
{
    lemma_filled_subunits_monotone(cols, p1, p2);
    lemma_full_count_monotone(cols, filled_subunits(cols, p1), filled_subunits(cols, p2));
}

/// The count of filled sub-units grows with the percentage and stays
/// within the axis.
pub proof fn lemma_filled_subunits_monotone(cells: int, p1: int, p2: int)
    requires
        cells >= 1,
        0 <= p1 <= p2 <= 100,
    ensures
        0 <= filled_subunits(cells, p1) <= filled_subunits(cells, p2) <= cells * 8,
{
    let a = cells * 8;
    vstd::arithmetic::mul::lemma_mul_nonnegative(a, p1);
    lemma_mul_inequality(p1, p2, a);
    lemma_mul_inequality(p2, 100, a);
    assert(a * p1 == p1 * a) by (nonlinear_arith);
    assert(a * p2 == p2 * a) by (nonlinear_arith);
    assert(a * 100 == 100 * a) by (nonlinear_arith);
    lemma_div_pos_is_pos(a * p1, 100);
    lemma_div_is_ordered(a * p1, a * p2, 100);
    lemma_div_is_ordered(a * p2, a * 100, 100);
    lemma_div_by_multiple(a, 100);
}

proof fn lemma_full_count_monotone(cells: int, f1: int, f2: int)
    requires
        cells >= 1,
        0 <= f1 <= f2 <= cells * 8,
    ensures
        (if f1 == cells * 8 { cells } else { f1 / 8 }) <= (if f2 == cells * 8 {
            cells
        } else {
            f2 / 8
        }),
{
    if f2 == cells * 8 {
        if f1 != cells * 8 {
            lemma_div_is_ordered(f1, cells * 8, 8);
            lemma_div_by_multiple(cells, 8);
        }
    } else {
        lemma_div_is_ordered(f1, f2, 8);
    }
}

/// Law: at one hundred percent every line of either gauge is fully
/// filled; at zero percent every line is blank, the transitional cell
/// included, which uses the blank level-zero glyph.
pub proof fn lemma_gauge_extremes(rows: int, cols: int, c: Color)
    requires
        rows >= 1,
        cols >= 1,
    ensures
        forall|r: int|
            0 <= r < rows ==> #[trigger] vbar_lines(rows, cols, c, filled_subunits(rows, 100))[r]
                == gauge_line(color_token(c), rep(full_block(), cols)),
        forall|r: int|
            0 <= r < rows ==> #[trigger] vbar_lines(rows, cols, c, filled_subunits(rows, 0))[r]
                == gauge_line(color_token(c), sp(cols)),
        forall|r: int|
            0 <= r < rows ==> #[trigger] hbar_lines(rows, cols, c, filled_subunits(cols, 100))[r]
                == gauge_line(color_token(c), rep(full_block(), cols)),
{
    let av = rows * 8;
    let ah = cols * 8;
    assert(filled_subunits(rows, 100) == av) by {
        lemma_div_by_multiple(av, 100);
    }
    assert(filled_subunits(cols, 100) == ah) by {
        lemma_div_by_multiple(ah, 100);
    }
    assert(filled_subunits(rows, 0) == 0) by {
        assert(av * 0 == 0);
        vstd::arithmetic::div_mod::lemma_div_of0(100);
    }
    assert forall|r: int|
        0 <= r < rows implies #[trigger] vbar_lines(rows, cols, c, filled_subunits(rows, 0))[r]
        == gauge_line(color_token(c), sp(cols)) by {
        assert(vbar_body_at(rows, cols, 0, r) =~= sp(cols));
    }
}

} // verus!
