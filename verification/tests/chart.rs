use rtop_dev::components::chart::Chart;

#[test]
fn empty_series_renders_nothing() {
    let chart = Chart::new(5, 3, None, None, None);
    assert_eq!(chart.display(&[]), "");
}

#[test]
fn empty_series_renders_nothing_with_header() {
    let chart = Chart::new(5, 3, Some(10), Some(true), None);
    assert_eq!(chart.display(&[]), "");
}

#[test]
fn two_values_two_rows() {
    // Ceiling 8 over two body rows: value 8 fills its column to the
    // top, value 4 fills the bottom row.
    let chart = Chart::new(2, 2, Some(8), None, None);
    let out = chart.display(&[8, 4]);
    assert_eq!(out, " \u{2847}\n \u{28FF}\n");
}

#[test]
fn odd_window_pads_in_front() {
    // A single value occupies the right dot column; the missing
    // partner is scaled like a real zero, one bottom dot.
    let chart = Chart::new(3, 3, Some(10), Some(true), Some(String::from("u")));
    let out = chart.display(&[5]);
    assert_eq!(out, " 5u\n   \n  \u{28F8}\n");
}

#[test]
fn zero_value_still_shows_one_dot() {
    let chart = Chart::new(1, 1, Some(8), None, None);
    let out = chart.display(&[0, 8]);
    assert_eq!(out, "\u{28F8}\n");
}

#[test]
fn negative_value_clamps_like_zero() {
    let chart = Chart::new(1, 1, Some(8), None, None);
    assert_eq!(chart.display(&[-5, 8]), chart.display(&[0, 8]));
}

#[test]
fn windowing_drops_old_values() {
    // More than two values per column beyond the width: only the
    // trailing window matters.
    let chart = Chart::new(2, 2, Some(8), None, None);
    let long = chart.display(&[7, 7, 7, 1, 2, 3, 4]);
    let short = chart.display(&[1, 2, 3, 4]);
    assert_eq!(long, short);
}

#[test]
fn header_shows_latest_value_right_aligned() {
    let chart = Chart::new(6, 2, Some(100), Some(true), Some(String::from("%")));
    let out = chart.display(&[10, 42]);
    let first_line = out.lines().next().unwrap();
    assert_eq!(first_line, "   42%");
}

#[test]
fn line_count_and_width() {
    let chart = Chart::new(4, 3, Some(50), None, None);
    let out = chart.display(&[10, 20, 30, 40, 50]);
    let lines: Vec<&str> = out.lines().collect();
    assert_eq!(lines.len(), 3);
    for l in lines {
        assert_eq!(l.chars().count(), 4);
    }
}

#[test]
fn monotone_series_fills_rightward() {
    // On an increasing series each glyph column is at least as filled
    // as the one left of it.
    let chart = Chart::new(3, 2, Some(60), None, None);
    let out = chart.display(&[10, 20, 30, 40, 50, 60]);
    let bottom = out.lines().last().unwrap();
    let counts: Vec<u32> = bottom
        .chars()
        .map(|c| {
            if c == ' ' {
                0
            } else {
                (c as u32 - 0x2800).count_ones()
            }
        })
        .collect();
    for w in counts.windows(2) {
        assert!(w[0] <= w[1]);
    }
}

#[test]
fn resize_changes_geometry() {
    let mut chart = Chart::new(2, 2, Some(8), None, None);
    chart.resize(1, 1);
    assert_eq!(chart.cols, 1);
    assert_eq!(chart.rows, 1);
    assert_eq!(chart.display(&[0, 8]), "\u{28F8}\n");
}

#[test]
fn defaults_from_new() {
    let chart = Chart::new(3, 2, None, None, None);
    assert_eq!(chart.higher_value, 100);
    assert!(!chart.show_unit);
    assert_eq!(chart.unit_suffix, "%");
}
