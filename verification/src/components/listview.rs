//! Scrollable, sortable table of items: a primary name column plus
//! secondary columns, a viewport over the collection, a single selected
//! row, and stable human-aware sorting.

use vstd::prelude::*;
use crate::components::sorting::{sort_applied, sort_in_place};
use crate::text::{cat, sp, spaces};

verus! {

/// One row of a list view: a name shown under the primary column and
/// the values of the secondary columns, keyed by column name. The first
/// pair under a key is the one a column shows.
#[derive(Clone)]
pub struct ListItem {
    /// The identifier shown under the primary column.
    pub name: String,
    /// Column name and value pairs for the secondary columns.
    pub data: Vec<(String, String)>,
}

impl ListItem {
    /// Creates an item from its name and its column values.
    pub fn new(name: &str, data: Vec<(String, String)>) -> (item: ListItem)
        ensures
            item.name@ == name@,
            item.data == data,
    {
        ListItem { name: String::from_str(name), data }
    }
}

/// The direction of an active sort.
#[derive(PartialEq, Eq, Structural)]
pub enum Ordering {
    /// Ascending human order.
    Default,
    /// The ascending order reversed wholesale.
    Inversed,
}

/// Whether some pair of `data` carries the column name `key`.
pub open spec fn has_key(data: Seq<(String, String)>, key: Seq<char>) -> bool
    decreases data.len(),
{
    if data.len() == 0 {
        false
    } else if data[0].0@ == key {
        true
    } else {
        has_key(data.drop_first(), key)
    }
}

/// The value the first pair of `data` lists under the column name
/// `key`, or the empty string when none does.
pub open spec fn lookup(data: Seq<(String, String)>, key: Seq<char>) -> Seq<char>
    decreases data.len(),
{
    if data.len() == 0 {
        Seq::empty()
    } else if data[0].0@ == key {
        data[0].1@
    } else {
        lookup(data.drop_first(), key)
    }
}

/// Finds the value listed under `key`: the value of the first matching
/// pair, or the empty string, with a flag saying whether one matched.
pub fn lookup_value(data: &Vec<(String, String)>, key: &String) -> (r: (String, bool))
    ensures
        r.0@ == lookup(data@, key@),
        r.1 == has_key(data@, key@),
{
    let n = data.len();
    let mut i: usize = 0;
    proof {
        assert(data@.skip(0) =~= data@);
    }
    while i < n
        invariant
            0 <= i <= n,
            n == data@.len(),
            lookup(data@, key@) == lookup(data@.skip(i as int), key@),
            has_key(data@, key@) == has_key(data@.skip(i as int), key@),
        decreases n - i,
    {
        proof {
            assert(data@.skip(i as int)[0] == data@[i as int]);
        }
        if data[i].0.eq(key) {
            let v = data[i].1.clone();
            return (v, true);
        }
        proof {
            assert(data@.skip(i as int).drop_first() =~= data@.skip(i as int + 1));
        }
        i = i + 1;
    }
    proof {
        assert(data@.skip(n as int).len() == 0);
    }
    (String::new(), false)
}

/// A navigation state: the absolute index of the selected item, the
/// index of the first visible item, and the one-based selected row
/// within the viewport.
pub open spec fn nav_wf(s: (int, int, int), len: int, rows: int) -> bool {
    &&& rows >= 2
    &&& if len == 0 {
        s == (0int, 0int, 1int)
    } else {
        &&& 0 <= s.0 < len
        &&& s.2 == s.0 - s.1 + 1
        &&& 1 <= s.2 <= rows - 1
        &&& s.1 >= 0
        &&& (len > rows - 1 ==> s.1 <= len - (rows - 1))
        &&& (len <= rows - 1 ==> s.1 == 0)
    }
}

/// Stepping to the next item: a no-op on the last item; scrolls the
/// viewport when the selection sits on its bottom row.
pub open spec fn next_state(s: (int, int, int), len: int, rows: int) -> (int, int, int) {
    if s.0 < len - 1 {
        if s.2 == rows - 1 {
            (s.0 + 1, s.1 + 1, s.2)
        } else {
            (s.0 + 1, s.1, s.2 + 1)
        }
    } else {
        s
    }
}

/// Stepping to the previous item: a no-op on the first item; scrolls
/// the viewport when the selection sits on its top row.
pub open spec fn prev_state(s: (int, int, int), len: int, rows: int) -> (int, int, int) {
    if s.0 > 0 {
        if s.2 > 1 {
            (s.0 - 1, s.1, s.2 - 1)
        } else {
            (s.0 - 1, s.1 - 1, s.2)
        }
    } else {
        s
    }
}

/// Jumping to the last item, scrolling the viewport down when the
/// collection overflows it.
pub open spec fn last_state(s: (int, int, int), len: int, rows: int) -> (int, int, int) {
    if len == 0 {
        s
    } else if len <= rows - 1 {
        (len - 1, s.1, len)
    } else {
        (len - 1, len - 1 - (rows - 2), rows - 1)
    }
}

/// Jumping to the first item.
pub open spec fn first_state() -> (int, int, int) {
    (0int, 0int, 1int)
}

/// The viewport that keeps `cursor` selected while staying as close as
/// possible to showing row `sel_prop`, clamped into the collection.
pub open spec fn viewport_after(cursor: int, sel_prop: int, rows: int, len: int) -> (int, int) {
    let maxstart = if len > rows - 1 {
        len - (rows - 1)
    } else {
        0
    };
    let s0 = cursor - sel_prop + 1;
    let start = if s0 > maxstart {
        maxstart
    } else if s0 < 0 {
        0
    } else {
        s0
    };
    (start, cursor - start + 1)
}

/// Reverses a collection of items wholesale.
fn reverse_items(items: &mut Vec<ListItem>)
    ensures
        final(items)@ == old(items)@.reverse(),
{
    let ghost orig = items@;
    let mut rev: Vec<ListItem> = Vec::new();
    proof {
        assert(items@.take(orig.len() as int) =~= orig);
        assert(rev@ =~= orig.skip(orig.len() as int).reverse());
    }
    while items.len() > 0
        invariant
            items@.len() <= orig.len(),
            items@ == orig.take(items@.len() as int),
            rev@ == orig.skip(items@.len() as int).reverse(),
        decreases items@.len(),
    {
        let ghost m = items@.len() as int;
        let x_opt = items.pop();
        let x = match x_opt {
            Option::Some(x) => x,
            Option::None => {
                proof {
                    assert(false);
                }
                ListItem { name: String::new(), data: Vec::new() }
            },
        };
        rev.push(x);
        proof {
            assert(orig.take(m).drop_last() =~= orig.take(m - 1));
            assert(x == orig[m - 1]);
            assert(rev@ =~= orig.skip(m - 1).reverse());
        }
    }
    proof {
        assert(orig.skip(0).reverse() =~= orig.reverse());
    }
    *items = rev;
}

/// Whether some label of `keys` reads as `k`.
fn contains_string(keys: &Vec<String>, k: &String) -> (r: bool)
    ensures
        r == keys@.map_values(|s: String| s@).contains(k@),
{
    let ghost views = keys@.map_values(|s: String| s@);
    let n = keys.len();
    let mut i: usize = 0;
    while i < n
        invariant
            0 <= i <= n,
            n == keys@.len(),
            views == keys@.map_values(|s: String| s@),
            forall|j: int| 0 <= j < i ==> #[trigger] views[j] != k@,
        decreases n - i,
    {
        if keys[i].eq(k) {
            proof {
                assert(views[i as int] == k@);
            }
            return true;
        }
        i = i + 1;
    }
    false
}

/// Display list of [`ListItem`] rows with a table header, viewport
/// scrolling, one selected row and a sort order.
pub struct ListView {
    cols: i32,
    rows: i32,
    items: Vec<ListItem>,
    primary_key: String,
    secondary_keys: Vec<String>,
    selected_line: i32,
    start_index: i32,
    sort_key: Option<String>,
    counter: i32,
    ordering: Option<Ordering>,
}

impl ListView {
    /// The items in their current order.
    pub closed spec fn spec_items(&self) -> Seq<ListItem> {
        self.items@
    }

    /// The configured width in cells.
    pub closed spec fn spec_cols(&self) -> int {
        self.cols as int
    }

    /// The configured height in cells, the header line included.
    pub closed spec fn spec_rows(&self) -> int {
        self.rows as int
    }

    /// The primary column label.
    pub closed spec fn spec_primary(&self) -> Seq<char> {
        self.primary_key@
    }

    /// The secondary column labels, in display order.
    pub closed spec fn spec_secondary(&self) -> Seq<Seq<char>> {
        self.secondary_keys@.map_values(|s: String| s@)
    }

    /// The active sort column, if any.
    pub closed spec fn spec_sort_key(&self) -> Option<Seq<char>> {
        match self.sort_key {
            Option::Some(ref k) => Option::Some(k@),
            Option::None => Option::None,
        }
    }

    /// The active sort direction, if any.
    pub closed spec fn spec_ordering(&self) -> Option<Ordering> {
        self.ordering
    }

    /// The absolute index of the selected item.
    pub closed spec fn spec_cursor(&self) -> int {
        self.counter as int
    }

    /// The index of the first visible item.
    pub closed spec fn spec_start(&self) -> int {
        self.start_index as int
    }

    /// The one-based selected row within the viewport.
    pub closed spec fn spec_sel(&self) -> int {
        self.selected_line as int
    }

    /// The navigation triple.
    pub closed spec fn spec_nav(&self) -> (int, int, int) {
        (self.counter as int, self.start_index as int, self.selected_line as int)
    }

    /// The view state is sound: the geometry fits at least one item
    /// row, and the selection triple is consistent with the viewport.
    pub closed spec fn wf(&self) -> bool {
        &&& self.items@.len() < 0x8000_0000
        &&& nav_wf(self.spec_nav(), self.items@.len() as int, self.rows as int)
    }

    /// Everything but the items and the navigation triple is unchanged.
    pub open spec fn same_config(&self, other: &ListView) -> bool {
        &&& self.spec_cols() == other.spec_cols()
        &&& self.spec_rows() == other.spec_rows()
        &&& self.spec_primary() == other.spec_primary()
        &&& self.spec_secondary() == other.spec_secondary()
        &&& self.spec_sort_key() == other.spec_sort_key()
        &&& self.spec_ordering() == other.spec_ordering()
    }

    /// Creates a view of `rows` by `cols` cells over `items`, selecting
    /// the first row, sorted by `sort_key` and `ordering` when both are
    /// given.
    pub fn new(
        cols: i32,
        rows: i32,
        items: Vec<ListItem>,
        primary_key: String,
        secondary_keys: Vec<String>,
        sort_key: Option<String>,
        ordering: Option<Ordering>,
    ) -> (lv: ListView)
        requires
            rows >= 2,
            items@.len() < 0x8000_0000,
        ensures
            lv.wf(),
            lv.spec_cols() == cols,
            lv.spec_rows() == rows,
            lv.spec_primary() == primary_key@,
            lv.spec_secondary() == secondary_keys@.map_values(|s: String| s@),
            lv.spec_sort_key() == (match sort_key {
                Option::Some(k) => Option::Some(k@),
                Option::None => Option::<Seq<char>>::None,
            }),
            lv.spec_ordering() == ordering,
            lv.spec_nav() == first_state(),
            lv.spec_items() == sort_applied(
                items@,
                (match sort_key {
                    Option::Some(k) => Option::Some(k@),
                    Option::None => Option::<Seq<char>>::None,
                }),
                ordering,
                primary_key@,
                secondary_keys@.map_values(|s: String| s@),
            ),
    {
        let mut created = ListView {
            rows,
            cols,
            counter: 0,
            items,
            primary_key,
            secondary_keys,
            selected_line: 1,
            start_index: 0,
            sort_key,
            ordering,
        };
        created.sort();
        created
    }

    /// Selects the previous item, scrolling the viewport up when the
    /// selection already sits on the top row; a no-op on the first
    /// item.
    pub fn previous(&mut self)
        requires
            old(self).wf(),
        ensures
            final(self).wf(),
            final(self).same_config(old(self)),
            final(self).spec_items() == old(self).spec_items(),
            final(self).spec_nav() == prev_state(
                old(self).spec_nav(),
                old(self).spec_items().len() as int,
                old(self).spec_rows(),
            ),
    {
        if self.counter > 0 {
            self.counter = self.counter - 1;
            if self.selected_line > 1 {
                self.selected_line = self.selected_line - 1;
            } else {
                self.start_index = self.start_index - 1;
            }
        }
    }

    /// Selects the next item, scrolling the viewport down when the
    /// selection already sits on the bottom row; a no-op on the last
    /// item.
    pub fn next(&mut self)
        requires
            old(self).wf(),
        ensures
            final(self).wf(),
            final(self).same_config(old(self)),
            final(self).spec_items() == old(self).spec_items(),
            final(self).spec_nav() == next_state(
                old(self).spec_nav(),
                old(self).spec_items().len() as int,
                old(self).spec_rows(),
            ),
    {
        let n: usize = self.items.len();
        if self.counter < (n as i32) - 1 {
            self.counter = self.counter + 1;
            if self.selected_line == self.rows - 1 {
                self.start_index = self.start_index + 1;
            } else {
                self.selected_line = self.selected_line + 1;
            }
        }
    }

    /// Selects the last item, scrolling the viewport to the end when
    /// the collection overflows it; a no-op on an empty collection.
    pub fn to_last(&mut self)
        requires
            old(self).wf(),
        ensures
            final(self).wf(),
            final(self).same_config(old(self)),
            final(self).spec_items() == old(self).spec_items(),
            final(self).spec_nav() == last_state(
                old(self).spec_nav(),
                old(self).spec_items().len() as int,
                old(self).spec_rows(),
            ),
    {
        let n: usize = self.items.len();
        if n > 0 {
            self.counter = (n as i32) - 1;
            self.selected_line = self.counter + 1;
            if self.selected_line > self.rows - 1 {
                self.start_index = self.counter - (self.rows - 2);
                self.selected_line = self.rows - 1;
            }
        }
    }

    /// Selects the first item and resets the viewport to the top.
    pub fn to_first(&mut self)
        requires
            old(self).wf(),
        ensures
            final(self).wf(),
            final(self).same_config(old(self)),
            final(self).spec_items() == old(self).spec_items(),
            final(self).spec_nav() == first_state(),
    {
        self.counter = 0;
        self.selected_line = 1;
        self.start_index = 0;
    }

    /// The selected item.
    pub fn select(&self) -> (item: &ListItem)
        requires
            self.wf(),
            self.spec_items().len() > 0,
        ensures
            *item == self.spec_items()[self.spec_cursor()],
    {
        &self.items[self.counter as usize]
    }

    /// Updates the geometry, clamping the selected row into the new
    /// viewport and scrolling so the selected item stays visible.
    pub fn resize(&mut self, rows: i32, cols: i32)
        requires
            old(self).wf(),
            rows >= 2,
        ensures
            final(self).wf(),
            final(self).spec_rows() == rows,
            final(self).spec_cols() == cols,
            final(self).spec_primary() == old(self).spec_primary(),
            final(self).spec_secondary() == old(self).spec_secondary(),
            final(self).spec_sort_key() == old(self).spec_sort_key(),
            final(self).spec_ordering() == old(self).spec_ordering(),
            final(self).spec_items() == old(self).spec_items(),
            old(self).spec_items().len() == 0 ==> final(self).spec_nav() == first_state(),
            old(self).spec_items().len() > 0 ==> {
                let sel_prop = if old(self).spec_sel() > rows - 1 {
                    rows - 1
                } else {
                    old(self).spec_sel()
                };
                let vp = viewport_after(
                    old(self).spec_cursor(),
                    sel_prop,
                    rows as int,
                    old(self).spec_items().len() as int,
                );
                final(self).spec_nav() == (old(self).spec_cursor(), vp.0, vp.1)
            },
    {
        self.rows = rows;
        self.cols = cols;
        let n: usize = self.items.len();
        if n == 0 {
            self.counter = 0;
            self.selected_line = 1;
            self.start_index = 0;
        } else {
            let mut sel: i32 = self.selected_line;
            if sel > rows - 1 {
                sel = rows - 1;
            }
            let maxstart: i32 = if (n as i32) > rows - 1 {
                (n as i32) - (rows - 1)
            } else {
                0
            };
            let mut start: i32 = self.counter - sel + 1;
            if start > maxstart {
                start = maxstart;
            }
            if start < 0 {
                start = 0;
            }
            self.start_index = start;
            self.selected_line = self.counter - start + 1;
        }
    }

    /// Replaces the backing collection. When it shrank past the
    /// selected index, the cursor moves back onto the new last item and
    /// the viewport follows.
    pub fn update_items(&mut self, items: Vec<ListItem>)
        requires
            old(self).wf(),
            items@.len() < 0x8000_0000,
        ensures
            final(self).wf(),
            final(self).same_config(old(self)),
            final(self).spec_items() == sort_applied(
                items@,
                old(self).spec_sort_key(),
                old(self).spec_ordering(),
                old(self).spec_primary(),
                old(self).spec_secondary(),
            ),
            items@.len() == 0 ==> final(self).spec_nav() == first_state(),
            items@.len() > 0 ==> {
                let cursor = if old(self).spec_cursor() >= items@.len() {
                    items@.len() as int - 1
                } else {
                    old(self).spec_cursor()
                };
                let vp = viewport_after(
                    cursor,
                    old(self).spec_sel(),
                    old(self).spec_rows(),
                    items@.len() as int,
                );
                final(self).spec_nav() == (cursor, vp.0, vp.1)
            },
    {
        let n: usize = items.len();
        self.items = items;
        if n == 0 {
            self.counter = 0;
            self.selected_line = 1;
            self.start_index = 0;
        } else {
            if self.counter >= n as i32 {
                self.counter = (n as i32) - 1;
            }
            let sel: i32 = self.selected_line;
            let maxstart: i32 = if (n as i32) > self.rows - 1 {
                (n as i32) - (self.rows - 1)
            } else {
                0
            };
            let mut start: i32 = self.counter - sel + 1;
            if start > maxstart {
                start = maxstart;
            }
            if start < 0 {
                start = 0;
            }
            self.start_index = start;
            self.selected_line = self.counter - start + 1;
        }
        self.sort();
    }

    /// Sets the sort column and direction and re-sorts; the selection
    /// triple is untouched, so the same row stays highlighted.
    pub fn sort_by(&mut self, key: Option<String>, ordering: Option<Ordering>)
        requires
            old(self).wf(),
        ensures
            final(self).wf(),
            final(self).spec_cols() == old(self).spec_cols(),
            final(self).spec_rows() == old(self).spec_rows(),
            final(self).spec_primary() == old(self).spec_primary(),
            final(self).spec_secondary() == old(self).spec_secondary(),
            final(self).spec_sort_key() == (match key {
                Option::Some(k) => Option::Some(k@),
                Option::None => Option::<Seq<char>>::None,
            }),
            final(self).spec_ordering() == ordering,
            final(self).spec_nav() == old(self).spec_nav(),
            final(self).spec_items() == sort_applied(
                old(self).spec_items(),
                (match key {
                    Option::Some(k) => Option::Some(k@),
                    Option::None => Option::<Seq<char>>::None,
                }),
                ordering,
                old(self).spec_primary(),
                old(self).spec_secondary(),
            ),
    {
        self.sort_key = key;
        self.ordering = ordering;
        self.sort();
    }

    /// Sorts the items under the active sort setting, if one is active
    /// and its column is known; see [`sort_applied`] for what remains.
    fn sort(&mut self)
        requires
            old(self).wf(),
        ensures
            final(self).wf(),
            final(self).same_config(old(self)),
            final(self).spec_nav() == old(self).spec_nav(),
            final(self).spec_items() == sort_applied(
                old(self).spec_items(),
                old(self).spec_sort_key(),
                old(self).spec_ordering(),
                old(self).spec_primary(),
                old(self).spec_secondary(),
            ),
    {
        let ghost orig = self.items@;
        let k: String = match &self.sort_key {
            Option::Some(kk) => kk.clone(),
            Option::None => {
                return;
            },
        };
        let inv: bool = match &self.ordering {
            Option::Some(Ordering::Inversed) => true,
            Option::Some(Ordering::Default) => false,
            Option::None => {
                return;
            },
        };
        let prim: String = self.primary_key.clone();
        let valid: bool = prim.eq(&k) || contains_string(&self.secondary_keys, &k);
        if !valid {
            return;
        }
        let sorted: bool = sort_in_place(&mut self.items, &k, &prim);
        if !sorted {
            return;
        }
        proof {
            crate::components::sorting::lemma_sort_items_len(orig, k@, prim@);
        }
        if inv {
            reverse_items(&mut self.items);
        }
    }
}

/// The widest value listed under column `k` among the first `n` pairs,
/// two padding cells included; zero when none matches.
pub open spec fn entry_width_upto(data: Seq<(String, String)>, k: Seq<char>, n: int) -> int
    decreases n,
{
    if n <= 0 {
        0
    } else {
        let prev = entry_width_upto(data, k, n - 1);
        if data[n - 1].0@ == k && data[n - 1].1@.len() + 2 > prev {
            data[n - 1].1@.len() as int + 2
        } else {
            prev
        }
    }
}

/// The widest value listed under column `k` among the first `n` items.
pub open spec fn items_width_upto(items: Seq<ListItem>, k: Seq<char>, n: int) -> int
    decreases n,
{
    if n <= 0 {
        0
    } else {
        let prev = items_width_upto(items, k, n - 1);
        let w = entry_width_upto(items[n - 1].data@, k, items[n - 1].data@.len() as int);
        if w > prev {
            w
        } else {
            prev
        }
    }
}

/// The width of secondary column `k`: two more than the wider of its
/// label and its widest listed value.
pub open spec fn col_width(items: Seq<ListItem>, k: Seq<char>) -> int {
    let w = items_width_upto(items, k, items.len() as int);
    if w > k.len() + 2 {
        w
    } else {
        k.len() as int + 2
    }
}

/// The combined width of the first `n` secondary columns.
pub open spec fn total_width_upto(items: Seq<ListItem>, keys: Seq<Seq<char>>, n: int) -> int
    decreases n,
{
    if n <= 0 {
        0
    } else {
        total_width_upto(items, keys, n - 1) + col_width(items, keys[n - 1])
    }
}

/// The combined width of all secondary columns.
pub open spec fn total_sec_width(items: Seq<ListItem>, keys: Seq<Seq<char>>) -> int {
    total_width_upto(items, keys, keys.len() as int)
}

proof fn lemma_entry_width_mono(data: Seq<(String, String)>, k: Seq<char>, m1: int, m2: int)
    requires
        m1 <= m2,
    ensures
        entry_width_upto(data, k, m1) <= entry_width_upto(data, k, m2),
    decreases m2,
{
    if m1 < m2 && m2 > 0 {
        lemma_entry_width_mono(data, k, m1, m2 - 1);
    }
}

proof fn lemma_entry_width_bound(data: Seq<(String, String)>, k: Seq<char>, j: int)
    requires
        0 <= j < data.len(),
        data[j].0@ == k,
    ensures
        data[j].1@.len() + 2 <= entry_width_upto(data, k, data.len() as int),
{
    assert(data[j].1@.len() + 2 <= entry_width_upto(data, k, j + 1));
    lemma_entry_width_mono(data, k, j + 1, data.len() as int);
}

proof fn lemma_items_width_mono(items: Seq<ListItem>, k: Seq<char>, m1: int, m2: int)
    requires
        m1 <= m2,
    ensures
        items_width_upto(items, k, m1) <= items_width_upto(items, k, m2),
    decreases m2,
{
    if m1 < m2 && m2 > 0 {
        lemma_items_width_mono(items, k, m1, m2 - 1);
    }
}

proof fn lemma_items_width_bound(items: Seq<ListItem>, k: Seq<char>, idx: int)
    requires
        0 <= idx < items.len(),
    ensures
        entry_width_upto(items[idx].data@, k, items[idx].data@.len() as int) <= items_width_upto(
            items,
            k,
            items.len() as int,
        ),
{
    assert(entry_width_upto(items[idx].data@, k, items[idx].data@.len() as int)
        <= items_width_upto(items, k, idx + 1));
    lemma_items_width_mono(items, k, idx + 1, items.len() as int);
}

proof fn lemma_entry_width_nonneg(data: Seq<(String, String)>, k: Seq<char>, n: int)
    ensures
        entry_width_upto(data, k, n) >= 0,
    decreases n,
{
    if n > 0 {
        lemma_entry_width_nonneg(data, k, n - 1);
    }
}

proof fn lemma_total_width_mono(items: Seq<ListItem>, keys: Seq<Seq<char>>, m1: int, m2: int)
    requires
        0 <= m1 <= m2,
    ensures
        total_width_upto(items, keys, m1) <= total_width_upto(items, keys, m2),
    decreases m2,
{
    if m1 < m2 && m2 > 0 {
        lemma_total_width_mono(items, keys, m1, m2 - 1);
        assert(col_width(items, keys[m2 - 1]) >= 2);
    }
}

proof fn lemma_col_width_le_total(items: Seq<ListItem>, keys: Seq<Seq<char>>, j: int)
    requires
        0 <= j < keys.len(),
    ensures
        2 <= col_width(items, keys[j]) <= total_sec_width(items, keys),
{
    lemma_total_width_mono(items, keys, 0, j);
    assert(total_width_upto(items, keys, j + 1) == total_width_upto(items, keys, j) + col_width(
        items,
        keys[j],
    ));
    lemma_total_width_mono(items, keys, j + 1, keys.len() as int);
}

/// The first matching pair is an entry of the data, so the shown value
/// always fits its column.
proof fn lemma_lookup_is_entry(data: Seq<(String, String)>, k: Seq<char>)
    requires
        has_key(data, k),
    ensures
        exists|j: int|
            0 <= j < data.len() && #[trigger] data[j].0@ == k && data[j].1@ == lookup(data, k),
    decreases data.len(),
{
    if data.len() > 0 {
        if data[0].0@ == k {
            assert(data[0].0@ == k && data[0].1@ == lookup(data, k));
        } else {
            lemma_lookup_is_entry(data.drop_first(), k);
            let j0 = choose|j: int|
                0 <= j < data.drop_first().len() && #[trigger] data.drop_first()[j].0@ == k
                    && data.drop_first()[j].1@ == lookup(data.drop_first(), k);
            assert(data[j0 + 1].0@ == k && data[j0 + 1].1@ == lookup(data, k));
        }
    }
}

proof fn lemma_lookup_width(data: Seq<(String, String)>, k: Seq<char>)
    requires
        has_key(data, k),
    ensures
        lookup(data, k).len() + 2 <= entry_width_upto(data, k, data.len() as int),
{
    lemma_lookup_is_entry(data, k);
    let j = choose|j: int|
        0 <= j < data.len() && #[trigger] data[j].0@ == k && data[j].1@ == lookup(data, k);
    lemma_entry_width_bound(data, k, j);
}

/// A column label, wrapped in the bold token pair under an ascending
/// sort and the italic pair under a descending one, when it is the
/// active sort column.
pub open spec fn styled_label(label: Seq<char>, active: bool, ordering: Option<Ordering>) -> Seq<
    char,
> {
    if active {
        match ordering {
            Option::Some(Ordering::Default) => "[[EFFECT_BOLD]]"@ + label + "[[EFFECT_BOLD]]"@,
            Option::Some(Ordering::Inversed) => "[[EFFECT_ITALIC]]"@ + label
                + "[[EFFECT_ITALIC]]"@,
            Option::None => label,
        }
    } else {
        label
    }
}

/// The concatenated headers of the first `n` secondary columns, each
/// padded to its column width.
pub open spec fn sec_header_upto(
    items: Seq<ListItem>,
    keys: Seq<Seq<char>>,
    sk: Option<Seq<char>>,
    ord: Option<Ordering>,
    n: int,
) -> Seq<char>
    decreases n,
{
    if n <= 0 {
        Seq::empty()
    } else {
        sec_header_upto(items, keys, sk, ord, n - 1) + styled_label(
            keys[n - 1],
            sk == Option::Some(keys[n - 1]),
            ord,
        ) + sp(col_width(items, keys[n - 1]) - keys[n - 1].len())
    }
}

/// The header line: the primary label, the gap, the secondary column
/// headers, and the newline.
pub open spec fn header_line(
    items: Seq<ListItem>,
    primary: Seq<char>,
    keys: Seq<Seq<char>>,
    sk: Option<Seq<char>>,
    ord: Option<Ordering>,
    cols: int,
) -> Seq<char> {
    styled_label(primary, sk == Option::Some(primary), ord) + sp(
        cols - primary.len() - total_sec_width(items, keys),
    ) + sec_header_upto(items, keys, sk, ord, keys.len() as int) + "\n"@
}

/// The secondary-column cells of one row: each value padded to its
/// column width, a blank cell where the item lists no value.
pub open spec fn row_values_upto(
    item: ListItem,
    items: Seq<ListItem>,
    keys: Seq<Seq<char>>,
    n: int,
) -> Seq<char>
    decreases n,
{
    if n <= 0 {
        Seq::empty()
    } else {
        row_values_upto(item, items, keys, n - 1) + (if has_key(item.data@, keys[n - 1]) {
            lookup(item.data@, keys[n - 1]) + sp(
                col_width(items, keys[n - 1]) - lookup(item.data@, keys[n - 1]).len(),
            )
        } else {
            sp(col_width(items, keys[n - 1]))
        })
    }
}

/// The name column's text: the name, truncated to the width left of
/// the secondary columns.
pub open spec fn trunc_name(name: Seq<char>, budget: int) -> Seq<char> {
    if name.len() > budget {
        name.take(budget)
    } else {
        name
    }
}

/// One item row: the truncated name, padding, the secondary cells, and
/// the reverse-video token pair around the selected row.
pub open spec fn item_row(
    item: ListItem,
    items: Seq<ListItem>,
    keys: Seq<Seq<char>>,
    cols: int,
    selected: bool,
) -> Seq<char> {
    let budget = cols - total_sec_width(items, keys);
    let name_t = trunc_name(item.name@, budget);
    (if selected {
        "[[EFFECT_REVERSE]]"@
    } else {
        Seq::<char>::empty()
    }) + name_t + sp(budget - name_t.len()) + row_values_upto(item, items, keys, keys.len() as int)
        + (if selected {
        "[[EFFECT_REVERSE]]"@
    } else {
        Seq::<char>::empty()
    }) + "\n"@
}

/// The slice of the collection inside the viewport: everything when it
/// fits, else the `rows - 1` items from the viewport start.
pub open spec fn visible_slice(items: Seq<ListItem>, start: int, rows: int) -> Seq<ListItem> {
    if items.len() > rows - 1 {
        items.subrange(start, start + rows - 1)
    } else {
        items
    }
}

/// The whole list view text: the header line, then one line per
/// visible item.
pub open spec fn listview_render(
    items: Seq<ListItem>,
    primary: Seq<char>,
    keys: Seq<Seq<char>>,
    sk: Option<Seq<char>>,
    ord: Option<Ordering>,
    cols: int,
    rows: int,
    start: int,
    sel: int,
) -> Seq<char> {
    let vis = visible_slice(items, start, rows);
    header_line(items, primary, keys, sk, ord, cols) + cat(
        Seq::new(vis.len(), |i: int| item_row(vis[i], items, keys, cols, i + 1 == sel)),
        vis.len() as int,
    )
}

/// Appends `label`, wrapped in the fitting style token pair when it is
/// the active sort column.
fn append_styled(out: &mut String, label: &str, active: bool, ordering: &Option<Ordering>)
    ensures
        final(out)@ == old(out)@ + styled_label(label@, active, *ordering),
{
    if active {
        match ordering {
            Option::Some(Ordering::Default) => {
                out.append("[[EFFECT_BOLD]]");
                out.append(label);
                out.append("[[EFFECT_BOLD]]");
            },
            Option::Some(Ordering::Inversed) => {
                out.append("[[EFFECT_ITALIC]]");
                out.append(label);
                out.append("[[EFFECT_ITALIC]]");
            },
            Option::None => {
                out.append(label);
            },
        }
    } else {
        out.append(label);
    }
}

/// Computes the width of one secondary column over the collection.
fn col_width_exec(items: &Vec<ListItem>, key: &String) -> (w: usize)
    requires
        col_width(items@, key@) <= 0x8000_0000,
    ensures
        w as int == col_width(items@, key@),
{
    let ghost itemsv = items@;
    let ghost kv = key@;
    let base: usize = key.as_str().unicode_len();
    proof {
        assert(kv.len() as int + 2 <= col_width(itemsv, kv));
    }
    let mut acc: usize = base + 2;
    let n = items.len();
    let mut i: usize = 0;
    while i < n
        invariant
            0 <= i <= n,
            n == itemsv.len(),
            itemsv == items@,
            kv == key@,
            col_width(itemsv, kv) <= 0x8000_0000,
            acc as int == vstd::math::max(kv.len() as int + 2, items_width_upto(itemsv, kv, i as int)),
        decreases n - i,
    {
        let data = &items[i].data;
        let m = data.len();
        let mut j: usize = 0;
        while j < m
            invariant
                0 <= j <= m,
                0 <= i < n,
                n == itemsv.len(),
                itemsv == items@,
                kv == key@,
                m == itemsv[i as int].data@.len(),
                data@ == itemsv[i as int].data@,
                col_width(itemsv, kv) <= 0x8000_0000,
                acc as int == vstd::math::max(
                    vstd::math::max(kv.len() as int + 2, items_width_upto(itemsv, kv, i as int)),
                    entry_width_upto(itemsv[i as int].data@, kv, j as int),
                ),
            decreases m - j,
        {
            if data[j].0.eq(key) {
                let l: usize = data[j].1.as_str().unicode_len();
                proof {
                    lemma_entry_width_bound(itemsv[i as int].data@, kv, j as int);
                    lemma_items_width_bound(itemsv, kv, i as int);
                }
                if l + 2 > acc {
                    acc = l + 2;
                }
            }
            j = j + 1;
        }
        proof {
            lemma_entry_width_nonneg(itemsv[i as int].data@, kv, m as int);
        }
        i = i + 1;
    }
    acc
}

impl ListView {
    /// Renders the header line and the visible rows: each line holds
    /// exactly `cols` printable characters beside its style tokens,
    /// and the selected row is wrapped in the reverse-video pair.
    pub fn display(&mut self) -> (out: String)
        requires
            old(self).wf(),
            old(self).spec_cols() >= old(self).spec_primary().len() + total_sec_width(
                old(self).spec_items(),
                old(self).spec_secondary(),
            ),
        ensures
            *final(self) == *old(self),
            out@ == listview_render(
                old(self).spec_items(),
                old(self).spec_primary(),
                old(self).spec_secondary(),
                old(self).spec_sort_key(),
                old(self).spec_ordering(),
                old(self).spec_cols(),
                old(self).spec_rows(),
                old(self).spec_start(),
                old(self).spec_sel(),
            ),
    {
        let ghost itemsv = self.items@;
        let ghost keysv = self.secondary_keys@.map_values(|s: String| s@);
        let ghost skv = self.spec_sort_key();
        let ghost ordv = self.ordering;
        let ghost colsv = self.cols as int;
        let ghost selv = self.selected_line as int;
        let nk: usize = self.secondary_keys.len();
        let cols_u: usize = self.cols as usize;
        let mut widths: Vec<usize> = Vec::new();
        let mut ki: usize = 0;
        while ki < nk
            invariant
                *self == *old(self),
                0 <= ki <= nk,
                nk == keysv.len(),
                keysv == self.secondary_keys@.map_values(|s: String| s@),
                itemsv == self.items@,
                self.spec_cols() >= self.spec_primary().len() + total_sec_width(itemsv, keysv),
                widths@.len() == ki,
                forall|j: int|
                    0 <= j < ki ==> #[trigger] widths@[j] as int == col_width(itemsv, keysv[j]),
            decreases nk - ki,
        {
            proof {
                lemma_col_width_le_total(itemsv, keysv, ki as int);
                lemma_total_width_mono(itemsv, keysv, keysv.len() as int, keysv.len() as int);
                assert(keysv[ki as int] == self.secondary_keys@[ki as int]@);
            }
            let w = col_width_exec(&self.items, &self.secondary_keys[ki]);
            widths.push(w);
            ki = ki + 1;
        }
        let mut total: usize = 0;
        let mut kt: usize = 0;
        while kt < nk
            invariant
                *self == *old(self),
                0 <= kt <= nk,
                nk == keysv.len(),
                keysv == self.secondary_keys@.map_values(|s: String| s@),
                itemsv == self.items@,
                self.spec_cols() >= self.spec_primary().len() + total_sec_width(itemsv, keysv),
                widths@.len() == nk,
                forall|j: int|
                    0 <= j < nk ==> #[trigger] widths@[j] as int == col_width(itemsv, keysv[j]),
                total as int == total_width_upto(itemsv, keysv, kt as int),
            decreases nk - kt,
        {
            proof {
                lemma_total_width_mono(itemsv, keysv, kt as int + 1, keysv.len() as int);
            }
            total = total + widths[kt];
            kt = kt + 1;
        }
        let mut out = String::new();
        let p_active: bool = match &self.sort_key {
            Option::Some(sk) => self.primary_key.eq(sk),
            Option::None => false,
        };
        proof {
            assert(p_active == (skv == Option::Some(self.primary_key@)));
        }
        append_styled(&mut out, self.primary_key.as_str(), p_active, &self.ordering);
        let plen: usize = self.primary_key.as_str().unicode_len();
        let gap: usize = cols_u - plen - total;
        let gap_s = spaces(gap);
        out.append(gap_s.as_str());
        let ghost head_pfx = styled_label(self.primary_key@, skv == Option::Some(self.primary_key@), ordv)
            + sp(colsv - self.primary_key@.len() - total_sec_width(itemsv, keysv));
        proof {
            assert(out@ == head_pfx + sec_header_upto(itemsv, keysv, skv, ordv, 0));
        }
        let mut kh: usize = 0;
        while kh < nk
            invariant
                *self == *old(self),
                0 <= kh <= nk,
                nk == keysv.len(),
                keysv == self.secondary_keys@.map_values(|s: String| s@),
                itemsv == self.items@,
                skv == self.spec_sort_key(),
                ordv == self.ordering,
                widths@.len() == nk,
                forall|j: int|
                    0 <= j < nk ==> #[trigger] widths@[j] as int == col_width(itemsv, keysv[j]),
                out@ == head_pfx + sec_header_upto(itemsv, keysv, skv, ordv, kh as int),
            decreases nk - kh,
        {
            let key = &self.secondary_keys[kh];
            let active: bool = match &self.sort_key {
                Option::Some(sk) => key.eq(sk),
                Option::None => false,
            };
            proof {
                assert(keysv[kh as int] == key@);
                assert(active == (skv == Option::Some(keysv[kh as int])));
            }
            append_styled(&mut out, key.as_str(), active, &self.ordering);
            let klen: usize = key.as_str().unicode_len();
            proof {
                assert(klen as int + 2 <= widths@[kh as int] as int);
            }
            let pad_s = spaces(widths[kh] - klen);
            out.append(pad_s.as_str());
            kh = kh + 1;
        }
        out.append("\n");
        let ghost headerv = header_line(itemsv, self.primary_key@, keysv, skv, ordv, colsv);
        proof {
            assert(out@ =~= headerv);
        }
        let n_items: usize = self.items.len();
        let rows_u: usize = self.rows as usize;
        let vs: usize = if n_items > rows_u - 1 {
            self.start_index as usize
        } else {
            0
        };
        let vcount: usize = if n_items > rows_u - 1 {
            rows_u - 1
        } else {
            n_items
        };
        let ghost vis = visible_slice(itemsv, self.start_index as int, self.rows as int);
        proof {
            assert(vis.len() == vcount);
            assert(forall|i: int| 0 <= i < vis.len() ==> vis[i] == itemsv[vs + i]);
        }
        let ghost rowseq = Seq::new(
            vis.len(),
            |i: int| item_row(vis[i], itemsv, keysv, colsv, i + 1 == selv),
        );
        proof {
            assert(out@ == headerv + cat(rowseq, 0));
        }
        let mut ri: usize = 0;
        while ri < vcount
            invariant
                *self == *old(self),
                0 <= ri <= vcount,
                nk == keysv.len(),
                keysv == self.secondary_keys@.map_values(|s: String| s@),
                itemsv == self.items@,
                skv == self.spec_sort_key(),
                ordv == self.ordering,
                colsv == self.cols as int,
                selv == self.selected_line as int,
                cols_u == self.cols as int,
                self.spec_cols() >= self.spec_primary().len() + total_sec_width(itemsv, keysv),
                total as int == total_sec_width(itemsv, keysv),
                widths@.len() == nk,
                forall|j: int|
                    0 <= j < nk ==> #[trigger] widths@[j] as int == col_width(itemsv, keysv[j]),
                n_items == itemsv.len(),
                vs + vcount <= n_items,
                vcount < 0x8000_0000,
                vis == visible_slice(itemsv, self.start_index as int, self.rows as int),
                vis.len() == vcount,
                forall|i: int| 0 <= i < vis.len() ==> vis[i] == itemsv[vs + i],
                rowseq == Seq::new(
                    vis.len(),
                    |i: int| item_row(vis[i], itemsv, keysv, colsv, i + 1 == selv),
                ),
                out@ == headerv + cat(rowseq, ri as int),
            decreases vcount - ri,
        {
            let item = &self.items[vs + ri];
            let selected: bool = (ri as i32) + 1 == self.selected_line;
            let mut line = String::new();
            if selected {
                line.append("[[EFFECT_REVERSE]]");
            }
            let ghost rev_pfx = if selected {
                "[[EFFECT_REVERSE]]"@
            } else {
                Seq::<char>::empty()
            };
            let budget: usize = cols_u - total;
            let namelen: usize = item.name.as_str().unicode_len();
            let taken: usize = if namelen > budget {
                budget
            } else {
                namelen
            };
            if namelen > budget {
                let nt = item.name.as_str().substring_char(0, budget);
                line.append(nt);
            } else {
                line.append(item.name.as_str());
            }
            let ghost name_t = trunc_name(item.name@, colsv - total_sec_width(itemsv, keysv));
            proof {
                assert(item.name@.take(budget as int) == item.name@.subrange(0, budget as int));
                assert(line@ == rev_pfx + name_t);
            }
            let pad_s = spaces(budget - taken);
            line.append(pad_s.as_str());
            proof {
                assert(line@ == rev_pfx + name_t + sp(
                    colsv - total_sec_width(itemsv, keysv) - name_t.len(),
                ));
                assert(line@ == rev_pfx + name_t + sp(
                    colsv - total_sec_width(itemsv, keysv) - name_t.len(),
                ) + row_values_upto(*item, itemsv, keysv, 0));
            }
            let mut kv4: usize = 0;
            while kv4 < nk
                invariant
                    *self == *old(self),
                    0 <= kv4 <= nk,
                    nk == keysv.len(),
                    keysv == self.secondary_keys@.map_values(|s: String| s@),
                    itemsv == self.items@,
                    colsv == self.cols as int,
                    widths@.len() == nk,
                    forall|j: int|
                        0 <= j < nk ==> #[trigger] widths@[j] as int == col_width(itemsv, keysv[j]),
                    vs + ri < itemsv.len(),
                    *item == itemsv[vs + ri],
                    line@ == rev_pfx + name_t + sp(
                        colsv - total_sec_width(itemsv, keysv) - name_t.len(),
                    ) + row_values_upto(*item, itemsv, keysv, kv4 as int),
                decreases nk - kv4,
            {
                proof {
                    assert(keysv[kv4 as int] == self.secondary_keys@[kv4 as int]@);
                }
                let found = lookup_value(&item.data, &self.secondary_keys[kv4]);
                if found.1 {
                    let vlen: usize = found.0.as_str().unicode_len();
                    proof {
                        lemma_lookup_width(item.data@, keysv[kv4 as int]);
                        lemma_items_width_bound(itemsv, keysv[kv4 as int], vs + ri);
                        assert(vlen as int + 2 <= widths@[kv4 as int] as int);
                    }
                    line.append(found.0.as_str());
                    let pad2 = spaces(widths[kv4] - vlen);
                    line.append(pad2.as_str());
                } else {
                    let pad2 = spaces(widths[kv4]);
                    line.append(pad2.as_str());
                }
                kv4 = kv4 + 1;
            }
            if selected {
                line.append("[[EFFECT_REVERSE]]");
            }
            line.append("\n");
            proof {
                assert(line@ =~= item_row(vis[ri as int], itemsv, keysv, colsv, ri as int + 1 == selv));
                assert(rowseq[ri as int] == item_row(
                    vis[ri as int],
                    itemsv,
                    keysv,
                    colsv,
                    ri as int + 1 == selv,
                ));
            }
            out.append(line.as_str());
            ri = ri + 1;
        }
        proof {
            assert(out@ == listview_render(
                itemsv,
                self.primary_key@,
                keysv,
                skv,
                ordv,
                colsv,
                self.rows as int,
                self.start_index as int,
                selv,
            ));
        }
        out
    }
}

/// Law: stepping to the next item and straight back restores the exact
/// selection triple. This holds whenever the forward step moves without
/// scrolling, and for a viewport of exactly one item row, whose scroll
/// the backward step undoes exactly.
pub proof fn lemma_next_previous_roundtrip(s: (int, int, int), len: int, rows: int)
    requires
        nav_wf(s, len, rows),
        (s.0 < len - 1 && (s.2 < rows - 1 || rows == 2)) || (s.0 == 0 && len <= 1),
    ensures
        prev_state(next_state(s, len, rows), len, rows) == s,
{
}

/// Law: jumping to the end always lands the cursor on the collection's
/// last item, so selecting right afterwards yields exactly that item.
pub proof fn lemma_to_last_selects_last(items: Seq<ListItem>, s: (int, int, int), rows: int)
    requires
        nav_wf(s, items.len() as int, rows),
        items.len() > 0,
    ensures
        last_state(s, items.len() as int, rows).0 == items.len() - 1,
        items[last_state(s, items.len() as int, rows).0] == items.last(),
        nav_wf(last_state(s, items.len() as int, rows), items.len() as int, rows),
{
}

} // verus!
