use rtop_dev::components::listview::{ListItem, ListView, Ordering};

const REVERSE: &str = "[[EFFECT_REVERSE]]";

fn item(name: &str, pairs: &[(&str, &str)]) -> ListItem {
    let data: Vec<(String, String)> = pairs
        .iter()
        .map(|(k, v)| (String::from(*k), String::from(*v)))
        .collect();
    ListItem::new(name, data)
}

fn plain_list(names: &[&str], cols: i32, rows: i32) -> ListView {
    let items: Vec<ListItem> = names.iter().map(|n| item(n, &[])).collect();
    ListView::new(cols, rows, items, String::from("N"), Vec::new(), None, None)
}

#[test]
fn header_and_rows_exact() {
    let items = vec![
        item("alpha", &[("k1", "v1")]),
        item("beta", &[("k1", "value2")]),
    ];
    let mut lv = ListView::new(
        20,
        4,
        items,
        String::from("Name"),
        vec![String::from("k1")],
        None,
        None,
    );
    let out = lv.display();
    let expected = format!(
        "Name        k1      \n{}alpha       v1      {}\nbeta        value2  \n",
        REVERSE, REVERSE
    );
    assert_eq!(out, expected);
}

#[test]
fn missing_value_renders_blank_cell() {
    let items = vec![item("a", &[("k1", "x")]), item("b", &[])];
    let mut lv = ListView::new(
        10,
        4,
        items,
        String::from("N"),
        vec![String::from("k1")],
        None,
        None,
    );
    let out = lv.display();
    let lines: Vec<&str> = out.lines().collect();
    assert_eq!(lines[2], "b         ");
    assert_eq!(lines[2].chars().count(), 10);
}

#[test]
fn long_name_truncated() {
    let items = vec![item("abcdefghij", &[])];
    let mut lv = ListView::new(6, 3, items, String::from("N"), Vec::new(), None, None);
    let out = lv.display();
    let lines: Vec<&str> = out.lines().collect();
    assert_eq!(
        lines[1],
        format!("{}abcdef{}", REVERSE, REVERSE)
    );
}

#[test]
fn five_items_three_nexts_scroll_once() {
    // Five items in a four-row view: three item rows are visible. The
    // first two steps only move the selected row; the third, from the
    // bottom row, scrolls the viewport exactly once.
    let mut lv = plain_list(&["i1", "i2", "i3", "i4", "i5"], 5, 4);
    let before = lv.display();
    assert_eq!(before, format!("N    \n{}i1   {}\ni2   \ni3   \n", REVERSE, REVERSE));
    lv.next();
    lv.next();
    let mid = lv.display();
    assert_eq!(mid, format!("N    \ni1   \ni2   \n{}i3   {}\n", REVERSE, REVERSE));
    lv.next();
    let after = lv.display();
    assert_eq!(after, format!("N    \ni2   \ni3   \n{}i4   {}\n", REVERSE, REVERSE));
    assert_eq!(lv.select().name, "i4");
}

#[test]
fn next_then_previous_restores_state() {
    let mut lv = plain_list(&["a", "b", "c", "d", "e"], 8, 10);
    lv.next();
    let before = lv.display();
    lv.next();
    lv.previous();
    let after = lv.display();
    assert_eq!(before, after);
    assert_eq!(lv.select().name, "b");
}

#[test]
fn to_last_selects_last() {
    let mut lv = plain_list(&["a", "b", "c", "d", "e"], 8, 4);
    lv.to_last();
    assert_eq!(lv.select().name, "e");
    let out = lv.display();
    assert_eq!(out, format!("N       \nc       \nd       \n{}e       {}\n", REVERSE, REVERSE));
    lv.to_first();
    assert_eq!(lv.select().name, "a");
}

#[test]
fn human_sort_orders_numerals_by_value() {
    let items = vec![item("file10", &[]), item("file2", &[]), item("file1", &[])];
    let mut lv = ListView::new(
        12,
        5,
        items,
        String::from("N"),
        Vec::new(),
        Some(String::from("N")),
        Some(Ordering::Default),
    );
    assert_eq!(lv.select().name, "file1");
    lv.to_last();
    assert_eq!(lv.select().name, "file10");
    lv.sort_by(Some(String::from("N")), Some(Ordering::Inversed));
    lv.to_first();
    assert_eq!(lv.select().name, "file10");
}

#[test]
fn sort_is_case_insensitive() {
    let items = vec![item("Banana", &[]), item("apple", &[]), item("Cherry", &[])];
    let mut lv = ListView::new(
        10,
        5,
        items,
        String::from("N"),
        Vec::new(),
        Some(String::from("N")),
        Some(Ordering::Default),
    );
    assert_eq!(lv.select().name, "apple");
    lv.next();
    assert_eq!(lv.select().name, "Banana");
    lv.next();
    assert_eq!(lv.select().name, "Cherry");
}

#[test]
fn sort_round_trip_restores_ascending_order() {
    // Ascending, then descending, then ascending again on the same
    // column: the first ascending order comes back exactly.
    let items = vec![item("b", &[]), item("A", &[]), item("c", &[])];
    let mut lv = ListView::new(8, 5, items, String::from("N"), Vec::new(), None, None);
    lv.sort_by(Some(String::from("N")), Some(Ordering::Default));
    let ascending = lv.display();
    lv.sort_by(Some(String::from("N")), Some(Ordering::Inversed));
    let descending = lv.display();
    assert_ne!(ascending, descending);
    lv.sort_by(Some(String::from("N")), Some(Ordering::Default));
    assert_eq!(lv.display(), ascending);
}

#[test]
fn sort_by_secondary_column() {
    let items = vec![
        item("p1", &[("cpu", "10")]),
        item("p2", &[("cpu", "2")]),
    ];
    let mut lv = ListView::new(
        12,
        4,
        items,
        String::from("N"),
        vec![String::from("cpu")],
        Some(String::from("cpu")),
        Some(Ordering::Default),
    );
    assert_eq!(lv.select().name, "p2");
    lv.to_last();
    assert_eq!(lv.select().name, "p1");
}

#[test]
fn unsupported_sort_key_keeps_order() {
    let mut lv = plain_list(&["b", "a", "c"], 8, 5);
    let before = lv.display();
    lv.sort_by(Some(String::from("zzz")), Some(Ordering::Default));
    // The header carries no styling for an unknown column, and the
    // rows keep their previous order.
    assert_eq!(lv.display(), before);
    assert_eq!(lv.select().name, "b");
}

#[test]
fn sort_key_without_ordering_keeps_order() {
    let mut lv = plain_list(&["b", "a"], 8, 5);
    lv.sort_by(Some(String::from("N")), None);
    assert_eq!(lv.select().name, "b");
}

#[test]
fn primary_sort_styles_header_bold_then_italic() {
    let items = vec![item("a", &[])];
    let mut lv = ListView::new(
        10,
        3,
        items,
        String::from("Name"),
        Vec::new(),
        Some(String::from("Name")),
        Some(Ordering::Default),
    );
    let out = lv.display();
    assert!(out.starts_with("[[EFFECT_BOLD]]Name[[EFFECT_BOLD]]"));
    lv.sort_by(Some(String::from("Name")), Some(Ordering::Inversed));
    let out = lv.display();
    assert!(out.starts_with("[[EFFECT_ITALIC]]Name[[EFFECT_ITALIC]]"));
}

#[test]
fn secondary_sort_styles_its_column_header() {
    let items = vec![item("a", &[("cpu", "5")])];
    let mut lv = ListView::new(
        14,
        3,
        items,
        String::from("N"),
        vec![String::from("cpu")],
        Some(String::from("cpu")),
        Some(Ordering::Default),
    );
    let out = lv.display();
    let header = out.lines().next().unwrap();
    assert!(header.contains("[[EFFECT_BOLD]]cpu[[EFFECT_BOLD]]"));
}

#[test]
fn update_items_shrink_reconciles_cursor() {
    let mut lv = plain_list(&["a", "b", "c", "d", "e"], 8, 4);
    lv.to_last();
    assert_eq!(lv.select().name, "e");
    let fewer: Vec<ListItem> = vec![item("a", &[]), item("b", &[])];
    lv.update_items(fewer);
    assert_eq!(lv.select().name, "b");
}

#[test]
fn update_items_resorts() {
    let items = vec![item("b", &[]), item("a", &[])];
    let mut lv = ListView::new(
        8,
        5,
        items,
        String::from("N"),
        Vec::new(),
        Some(String::from("N")),
        Some(Ordering::Default),
    );
    assert_eq!(lv.select().name, "a");
    let newer = vec![item("d", &[]), item("c", &[])];
    lv.update_items(newer);
    assert_eq!(lv.select().name, "c");
}

#[test]
fn resize_clamps_selection() {
    let mut lv = plain_list(&["a", "b", "c", "d", "e"], 8, 10);
    lv.to_last();
    lv.resize(4, 8);
    assert_eq!(lv.select().name, "e");
    let out = lv.display();
    assert_eq!(out, format!("N       \nc       \nd       \n{}e       {}\n", REVERSE, REVERSE));
}

#[test]
fn lowercase_wrapper_feeds_comparison() {
    // If lowercasing handed its argument back unchanged, "B" would
    // sort before "a" by code point; case-insensitively "a" comes
    // first.
    let items = vec![item("B", &[]), item("a", &[])];
    let lv = ListView::new(
        8,
        5,
        items,
        String::from("N"),
        Vec::new(),
        Some(String::from("N")),
        Some(Ordering::Default),
    );
    assert_eq!(lv.select().name, "a");
}

#[test]
fn nine_digit_numerals_sort_by_value() {
    let items = vec![item("file999999999", &[]), item("file100000000", &[])];
    let lv = ListView::new(
        20,
        5,
        items,
        String::from("N"),
        Vec::new(),
        Some(String::from("N")),
        Some(Ordering::Default),
    );
    assert_eq!(lv.select().name, "file100000000");
}

#[test]
fn overlong_numeral_skips_the_sort() {
    // A run of ten or more digits would overrun the comparison
    // crate's numeral accumulator, so such a collection is left in
    // its previous order.
    let items = vec![item("b12345678901", &[]), item("a", &[])];
    let lv = ListView::new(
        16,
        5,
        items,
        String::from("N"),
        Vec::new(),
        Some(String::from("N")),
        Some(Ordering::Default),
    );
    assert_eq!(lv.select().name, "b12345678901");
}
