//! Braille line chart: a trailing window of a numeric series drawn as
//! a sparkline, two series values per glyph column, four sub-levels per
//! body row, optionally headed by the most recent value.

use vstd::prelude::*;
use crate::components::glyphs::{braille_glyph, braille_glyph_str, lemma_braille_glyph_len};
use crate::text::{cat, dec_int, dec_len, int_string, sp, spaces};
use vstd::arithmetic::div_mod::{lemma_div_is_ordered, lemma_div_pos_is_pos};
use vstd::arithmetic::mul::{lemma_mul_inequality, lemma_mul_upper_bound};

verus! {

/// The trailing slice of the series that one rendering consumes: the
/// last `2 * cols` values, or the whole series when it is shorter.
pub open spec fn chart_window(data: Seq<int>, cols: int) -> Seq<int> {
    if data.len() >= 2 * cols {
        data.subrange(data.len() - 2 * cols, data.len() as int)
    } else {
        data
    }
}

/// The window front-padded with a single zero value when its length is
/// odd, so that values pair up into glyph columns; the pad is scaled
/// like a real zero value.
pub open spec fn padded_window(w: Seq<int>) -> Seq<int> {
    if w.len() % 2 == 1 {
        seq![0int] + w
    } else {
        w
    }
}

/// The scaled sub-unit height of value `v` against ceiling `higher`
/// over `q` body rows, always floored at one sub-unit.
pub open spec fn scaled_level(v: int, q: int, higher: int) -> int {
    if v <= 0 {
        1
    } else {
        let t = v * 4 * q / higher;
        if t < 1 {
            1
        } else {
            t
        }
    }
}

/// The fill contribution of value `v` to body row `row`, counted from
/// the bottom, clamped to the four dot levels of one cell.
pub open spec fn row_level(v: int, q: int, higher: int, row: int) -> int {
    let c = scaled_level(v, q, higher) - 4 * row;
    if c < 0 {
        0
    } else if c > 4 {
        4
    } else {
        c
    }
}

/// The first `g` glyphs of the body row `row`, oldest pair first: each
/// glyph pairs two consecutive padded values, the earlier one on the
/// left dot column.
pub open spec fn glyph_run(p: Seq<int>, q: int, higher: int, row: int, g: int) -> Seq<char>
    decreases g,
{
    if g <= 0 {
        Seq::empty()
    } else {
        glyph_run(p, q, higher, row, g - 1) + braille_glyph(
            row_level(p[2 * (g - 1)], q, higher, row),
            row_level(p[2 * (g - 1) + 1], q, higher, row),
        )
    }
}

/// The chart body line `r` lines below the top: leading spaces
/// right-align the glyphs against the chart's right edge.
pub open spec fn chart_line(w: Seq<int>, cols: int, q: int, higher: int, r: int) -> Seq<char> {
    let p = padded_window(w);
    sp(cols - p.len() as int / 2) + glyph_run(p, q, higher, q - 1 - r, p.len() as int / 2) + "\n"@
}

/// The chart body lines, top first.
pub open spec fn chart_lines(w: Seq<int>, cols: int, q: int, higher: int) -> Seq<Seq<char>> {
    Seq::new(q as nat, |r: int| chart_line(w, cols, q, higher, r))
}

/// The header line: the most recent value and the suffix, right-aligned
/// to the chart width.
pub open spec fn chart_header(w: Seq<int>, cols: int, suffix: Seq<char>) -> Seq<char> {
    sp(cols - dec_len(w.last()) - suffix.len()) + dec_int(w.last()) + suffix + "\n"@
}

/// The whole chart text: nothing for an empty window, otherwise the
/// optional header followed by the body rows.
pub open spec fn chart_render(
    data: Seq<int>,
    cols: int,
    rows: int,
    higher: int,
    show_unit: bool,
    suffix: Seq<char>,
) -> Seq<char> {
    let w = chart_window(data, cols);
    let q = if show_unit {
        rows - 1
    } else {
        rows
    };
    if w.len() == 0 {
        Seq::empty()
    } else if show_unit {
        chart_header(w, cols, suffix) + cat(chart_lines(w, cols, q, higher), q)
    } else {
        cat(chart_lines(w, cols, q, higher), q)
    }
}

fn level_at(v: i32, q: i32, higher: i32, row: i32) -> (l: u8)
    requires
        higher >= 1,
        q >= 0,
        row >= 0,
    ensures
        l as int == row_level(v as int, q as int, higher as int, row as int),
{
    let scaled: i128 = if v <= 0 {
        1
    } else {
        proof {
            lemma_mul_upper_bound((v as int) * 4, 0x2_0000_0000int, q as int, 0x8000_0000int);
            vstd::arithmetic::mul::lemma_mul_nonnegative((v as int) * 4, q as int);
            lemma_div_pos_is_pos((v as int) * 4 * (q as int), higher as int);
            lemma_div_is_ordered(
                (v as int) * 4 * (q as int),
                0x2_0000_0000int * 0x8000_0000int,
                higher as int,
            );
            vstd::arithmetic::div_mod::lemma_div_nonincreasing(
                0x2_0000_0000int * 0x8000_0000int,
                higher as int,
            );
        }
        let t: i128 = (v as i128) * 4 * (q as i128) / (higher as i128);
        if t < 1 {
            1
        } else {
            t
        }
    };
    let c: i128 = scaled - 4 * (row as i128);
    if c < 0 {
        0
    } else if c > 4 {
        4
    } else {
        c as u8
    }
}

/// Line chart over a numeric series.
pub struct Chart {
    /// The width of the chart in cells.
    pub cols: i32,
    /// The height of the chart in cells, the header line included.
    pub rows: i32,
    /// Whether the most recent value heads the chart.
    pub show_unit: bool,
    /// The value that fills a column to the top.
    pub higher_value: i32,
    /// The text appended to the most recent value in the header.
    pub unit_suffix: String,
}

impl Chart {
    /// Creates a chart of `rows` by `cols` cells; the ceiling defaults
    /// to one hundred, the header to off and the suffix to a percent
    /// sign.
    pub fn new(
        cols: i32,
        rows: i32,
        higher_value: Option<i32>,
        show_unit: Option<bool>,
        unit_suffix: Option<String>,
    ) -> (c: Chart)
        ensures
            c.cols == cols,
            c.rows == rows,
            c.higher_value == (match higher_value {
                Option::Some(h) => h,
                Option::None => 100,
            }),
            c.show_unit == (match show_unit {
                Option::Some(s) => s,
                Option::None => false,
            }),
            c.unit_suffix@ == (match unit_suffix {
                Option::Some(u) => u@,
                Option::None => "%"@,
            }),
    {
        let higher = match higher_value {
            Option::Some(h) => h,
            Option::None => 100,
        };
        let show = match show_unit {
            Option::Some(s) => s,
            Option::None => false,
        };
        let suffix = match unit_suffix {
            Option::Some(u) => u,
            Option::None => String::from_str("%"),
        };
        Chart { cols, rows, show_unit: show, higher_value: higher, unit_suffix: suffix }
    }

    /// Updates the geometry; the data is supplied per rendering call,
    /// so no reflow happens here.
    pub fn resize(&mut self, cols: i32, rows: i32)
        ensures
            final(self).cols == cols,
            final(self).rows == rows,
            final(self).show_unit == old(self).show_unit,
            final(self).higher_value == old(self).higher_value,
            final(self).unit_suffix == old(self).unit_suffix,
    {
        self.cols = cols;
        self.rows = rows;
    }

    /// Renders the trailing window of `percents` as a braille
    /// sparkline, right-aligned, the oldest value leftmost.
    pub fn display(&self, percents: &[i32]) -> (out: String)
        requires
            self.cols >= 1,
            self.rows >= 1,
            self.higher_value >= 1,
            self.show_unit && percents@.len() > 0 ==> dec_len(percents@.last() as int)
                + self.unit_suffix@.len() <= self.cols,
        ensures
            out@ == chart_render(
                percents@.map_values(|x: i32| x as int),
                self.cols as int,
                self.rows as int,
                self.higher_value as int,
                self.show_unit,
                self.unit_suffix@,
            ),
            percents@.len() == 0 ==> out@ == Seq::<char>::empty(),
    {
        let ghost ints_all = percents@.map_values(|x: i32| x as int);
        let ghost wg = chart_window(ints_all, self.cols as int);
        let cols_u: usize = self.cols as usize;
        let n_all: usize = percents.len();
        let two_cols: usize = cols_u * 2;
        let ws: usize = if n_all >= two_cols {
            n_all - two_cols
        } else {
            0
        };
        let n: usize = n_all - ws;
        proof {
            assert(wg.len() == n);
            assert(forall|j: int| 0 <= j < n ==> wg[j] == percents@[ws + j] as int);
        }
        let mut out = String::new();
        if n == 0 {
            return out;
        }
        let q: i32 = if self.show_unit {
            self.rows - 1
        } else {
            self.rows
        };
        let ghost qs = q as int;
        let gcount: usize = (n + 1) / 2;
        let ghost p = padded_window(wg);
        proof {
            assert(n + 1 == 2 * ((n + 1) / 2) + ((n + 1) % 2));
            assert(n == 2 * (n / 2) + (n % 2));
            if n % 2 == 1 {
                assert(p =~= seq![0int] + wg);
                assert(p.len() == n + 1);
                assert((n + 1) % 2 == 0);
                assert(p.len() == 2 * gcount);
            } else {
                assert(p =~= wg);
                assert((n + 1) % 2 == 1);
                assert(p.len() == 2 * gcount);
            }
            assert(p.len() / 2 == gcount);
            assert(gcount <= cols_u) by {
                assert(n <= 2 * cols_u);
            }
        }
        if self.show_unit {
            let latest: i32 = percents[n_all - 1];
            proof {
                assert(wg.last() == latest as int);
            }
            let num = int_string(latest as i64);
            let numlen = num.as_str().unicode_len();
            let suffixlen = self.unit_suffix.as_str().unicode_len();
            let pad: usize = cols_u - numlen - suffixlen;
            let sp_s = spaces(pad);
            out.append(sp_s.as_str());
            out.append(num.as_str());
            out.append(self.unit_suffix.as_str());
            out.append("\n");
            proof {
                assert(out@ =~= chart_header(wg, self.cols as int, self.unit_suffix@));
            }
        }
        let ghost header_part = if self.show_unit {
            chart_header(wg, self.cols as int, self.unit_suffix@)
        } else {
            Seq::<char>::empty()
        };
        let ghost lines = chart_lines(wg, self.cols as int, qs, self.higher_value as int);
        proof {
            assert(out@ == header_part + cat(lines, 0));
        }
        let pad_body: usize = cols_u - gcount;
        let odd: bool = n % 2 == 1;
        let mut r: i32 = 0;
        while r < q
            invariant
                0 <= r <= q,
                q >= 0,
                qs == q as int,
                self.higher_value >= 1,
                self.cols >= 1,
                cols_u == self.cols as int,
                n == wg.len(),
                1 <= n <= n_all == percents@.len(),
                ws + n == n_all,
                forall|j: int| 0 <= j < n ==> wg[j] == percents@[ws + j] as int,
                p == padded_window(wg),
                p.len() == 2 * gcount,
                gcount <= cols_u,
                pad_body == cols_u - gcount,
                odd == (n % 2 == 1),
                odd ==> p =~= seq![0int] + wg,
                !odd ==> p =~= wg,
                lines == chart_lines(wg, self.cols as int, qs, self.higher_value as int),
                out@ == header_part + cat(lines, r as int),
            decreases q - r,
        {
            let mut line = spaces(pad_body);
            let row: i32 = q - 1 - r;
            let mut g: usize = 0;
            while g < gcount
                invariant
                    0 <= g <= gcount,
                    0 <= row < q,
                    qs == q as int,
                    self.higher_value >= 1,
                    n == wg.len(),
                    1 <= n <= n_all == percents@.len(),
                    ws + n == n_all,
                    forall|j: int| 0 <= j < n ==> wg[j] == percents@[ws + j] as int,
                    p.len() == 2 * gcount,
                    odd == (n % 2 == 1),
                    odd ==> p =~= seq![0int] + wg,
                    !odd ==> p =~= wg,
                    line@ == sp(pad_body as int) + glyph_run(
                        p,
                        qs,
                        self.higher_value as int,
                        row as int,
                        g as int,
                    ),
                decreases gcount - g,
            {
                let left_v: i32 = if odd {
                    if g == 0 {
                        0
                    } else {
                        percents[ws + 2 * g - 1]
                    }
                } else {
                    percents[ws + 2 * g]
                };
                let right_v: i32 = if odd {
                    percents[ws + 2 * g]
                } else {
                    percents[ws + 2 * g + 1]
                };
                proof {
                    if odd {
                        assert(p[2 * (g as int)] == (if g == 0 {
                            0int
                        } else {
                            wg[2 * (g as int) - 1]
                        }));
                        assert(p[2 * (g as int) + 1] == wg[2 * (g as int)]);
                    } else {
                        assert(p[2 * (g as int)] == wg[2 * (g as int)]);
                        assert(p[2 * (g as int) + 1] == wg[2 * (g as int) + 1]);
                    }
                    assert(left_v as int == p[2 * (g as int)]);
                    assert(right_v as int == p[2 * (g as int) + 1]);
                }
                let ll = level_at(left_v, q, self.higher_value, row);
                let rl = level_at(right_v, q, self.higher_value, row);
                line.append(braille_glyph_str(ll, rl));
                g = g + 1;
                proof {
                    assert(line@ == sp(pad_body as int) + glyph_run(
                        p,
                        qs,
                        self.higher_value as int,
                        row as int,
                        g as int,
                    ));
                }
            }
            line.append("\n");
            r = r + 1;
            proof {
                assert(line@ =~= chart_line(
                    wg,
                    self.cols as int,
                    qs,
                    self.higher_value as int,
                    r as int - 1,
                ));
                assert(lines[r as int - 1] == chart_line(
                    wg,
                    self.cols as int,
                    qs,
                    self.higher_value as int,
                    r as int - 1,
                ));
            }
            out.append(line.as_str());
        }
        proof {
            assert(out@ =~= chart_render(
                ints_all,
                self.cols as int,
                self.rows as int,
                self.higher_value as int,
                self.show_unit,
                self.unit_suffix@,
            ));
        }
        out
    }
}

} // verus!
