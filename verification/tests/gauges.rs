use rtop_dev::components::bar::{Color, HorizontalBar, VerticalBar};

const GREEN: &str = "[[EFFECT_COLOR_GREEN_BLACK]]";
const BLUE: &str = "[[EFFECT_COLOR_BLUE_BLACK]]";

fn line(tok: &str, body: &str) -> String {
    format!("{}{}{}\n", tok, body, tok)
}

#[test]
fn vertical_half_full_four_rows() {
    // 4 rows by 3 cols at fifty percent: 16 of 32 sub-units filled,
    // so two full bottom rows, a level-zero transitional row and one
    // blank row above.
    let bar = VerticalBar::new(4, 3, None);
    let out = bar.display(50);
    let expected = format!(
        "{}{}{}{}",
        line(GREEN, "   "),
        line(GREEN, "   "),
        line(GREEN, "\u{2588}\u{2588}\u{2588}"),
        line(GREEN, "\u{2588}\u{2588}\u{2588}"),
    );
    assert_eq!(out, expected);
    assert_eq!(out.lines().count(), 4);
}

#[test]
fn vertical_transitional_glyph() {
    // 4 rows at thirty-seven percent: 11 sub-units, one full row and a
    // level-three transitional row.
    let bar = VerticalBar::new(4, 2, None);
    let out = bar.display(37);
    let expected = format!(
        "{}{}{}{}",
        line(GREEN, "  "),
        line(GREEN, "  "),
        line(GREEN, "\u{2583}\u{2583}"),
        line(GREEN, "\u{2588}\u{2588}"),
    );
    assert_eq!(out, expected);
}

#[test]
fn vertical_extremes() {
    let bar = VerticalBar::new(3, 2, None);
    let full = bar.display(100);
    assert_eq!(full, line(GREEN, "\u{2588}\u{2588}").repeat(3));
    let empty = bar.display(0);
    assert_eq!(empty, line(GREEN, "  ").repeat(3));
}

#[test]
fn vertical_monotone_full_rows() {
    let bar = VerticalBar::new(5, 1, None);
    let full_block_line = line(GREEN, "\u{2588}");
    let mut previous_count = 0;
    for percent in 0..=100 {
        let out = bar.display(percent);
        let count = out
            .lines()
            .filter(|l| *l == full_block_line.trim_end_matches('\n'))
            .count();
        assert!(count >= previous_count);
        previous_count = count;
    }
}

#[test]
fn vertical_line_geometry() {
    // Every rendering is exactly `rows` lines of `cols` glyphs between
    // the tokens.
    let bar = VerticalBar::new(6, 4, Some(Color::Blue));
    for percent in [0, 1, 13, 50, 99, 100] {
        let out = bar.display(percent);
        let lines: Vec<&str> = out.lines().collect();
        assert_eq!(lines.len(), 6);
        for l in lines {
            let body = l
                .strip_prefix(BLUE)
                .and_then(|r| r.strip_suffix(BLUE))
                .expect("line should carry the color token on both sides");
            assert_eq!(body.chars().count(), 4);
        }
    }
}

#[test]
fn horizontal_half_full() {
    let bar = HorizontalBar::new(2, 4, Some(Color::Blue));
    let out = bar.display(50);
    let expected = line(BLUE, "\u{2588}\u{2588}  ").repeat(2);
    assert_eq!(out, expected);
}

#[test]
fn horizontal_transitional_glyph() {
    // 4 cols at thirty percent: 9 of 32 sub-units, one full cell and a
    // level-one transitional cell.
    let bar = HorizontalBar::new(1, 4, None);
    let out = bar.display(30);
    assert_eq!(out, line(GREEN, "\u{2588}\u{258F}  "));
}

#[test]
fn horizontal_extremes() {
    let bar = HorizontalBar::new(2, 3, None);
    assert_eq!(bar.display(100), line(GREEN, "\u{2588}\u{2588}\u{2588}").repeat(2));
    assert_eq!(bar.display(0), line(GREEN, "   ").repeat(2));
}

#[test]
fn horizontal_rows_identical() {
    let bar = HorizontalBar::new(5, 7, Some(Color::Red));
    let out = bar.display(43);
    let lines: Vec<&str> = out.lines().collect();
    assert_eq!(lines.len(), 5);
    for l in &lines {
        assert_eq!(*l, lines[0]);
    }
}

#[test]
fn gauge_colors() {
    let bar = VerticalBar::new(1, 1, Some(Color::Cyan));
    assert_eq!(
        bar.display(100),
        "[[EFFECT_COLOR_CYAN_BLACK]]\u{2588}[[EFFECT_COLOR_CYAN_BLACK]]\n"
    );
    let bar = VerticalBar::new(1, 1, Some(Color::Magenta));
    assert_eq!(
        bar.display(0),
        "[[EFFECT_COLOR_MAGENTA_BLACK]] [[EFFECT_COLOR_MAGENTA_BLACK]]\n"
    );
}
