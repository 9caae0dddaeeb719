//! Stable human-aware sorting for the list view: items are ordered by
//! a chosen column, case-insensitively, with embedded numerals compared
//! by value; descending order is the ascending order reversed.

use vstd::prelude::*;
use crate::components::listview::{has_key, lookup, lookup_value, ListItem, Ordering};

verus! {

/// What `human_sort::compare` answers for a pair of strings, as a
/// signed value: negative for less, zero for equal, positive for
/// greater.
pub uninterp spec fn human_cmp(a: Seq<char>, b: Seq<char>) -> int;

/// What `str::to_lowercase` returns: the result depends on the
/// characters alone.
pub uninterp spec fn lower_of(s: Seq<char>) -> Seq<char>;

/// An ASCII decimal digit.
pub open spec fn is_digit(c: char) -> bool {
    48 <= c as int && c as int <= 57
}

/// Every character of `s` in the index range `[a, b)` is a digit.
pub open spec fn all_digits(s: Seq<char>, a: int, b: int) -> bool {
    forall|k: int| a <= k < b ==> is_digit(#[trigger] s[k])
}

/// The string holds no run of ten or more consecutive digits, so every
/// numeral embedded in it fits the comparison crate's accumulator.
pub open spec fn no_long_digit_run(s: Seq<char>) -> bool {
    forall|i: int| 0 <= i && i + 10 <= s.len() ==> !#[trigger] all_digits(s, i, i + 10)
}

/// Checks that no ten consecutive characters of `s` are all digits.
pub fn digit_runs_ok(s: &str) -> (ok: bool)
    ensures
        ok == no_long_digit_run(s@),
{
    let n = s.unicode_len();
    let mut i: usize = 0;
    let mut streak: usize = 0;
    while i < n
        invariant
            i <= n,
            n == s@.len(),
            streak <= i,
            streak <= 9,
            all_digits(s@, i as int - streak, i as int),
            streak == i || !is_digit(s@[i as int - streak - 1]),
            forall|a: int| 0 <= a && a + 10 <= i ==> !#[trigger] all_digits(s@, a, a + 10),
        decreases n - i,
    {
        let c = s.get_char(i);
        let u: u32 = c as u32;
        if u >= 48 && u <= 57 {
            streak = streak + 1;
            if streak >= 10 {
                proof {
                    let a = i as int + 1 - 10;
                    assert(all_digits(s@, a, a + 10));
                    assert(!no_long_digit_run(s@));
                }
                return false;
            }
            proof {
                assert(all_digits(s@, i as int + 1 - streak, i as int + 1));
                assert forall|a: int| 0 <= a && a + 10 <= i + 1 implies !#[trigger] all_digits(
                    s@,
                    a,
                    a + 10,
                ) by {
                    if a + 10 == i + 1 {
                        assert(streak < i + 1);
                        assert(!is_digit(s@[i as int - streak]));
                        assert(a <= i as int - streak && i as int - streak < a + 10);
                    }
                }
            }
        } else {
            streak = 0;
            proof {
                assert(!is_digit(s@[i as int]));
                assert forall|a: int| 0 <= a && a + 10 <= i + 1 implies !#[trigger] all_digits(
                    s@,
                    a,
                    a + 10,
                ) by {
                    if a + 10 == i + 1 {
                        assert(a <= i as int && (i as int) < a + 10);
                    }
                }
            }
        }
        i = i + 1;
    }
    true
}

/// Relies on `str::to_lowercase`: the lowercase form of a string is a
/// function of its characters alone.
#[verifier::external_body]
fn lowercase(s: &str) -> (r: String)
    ensures
        r@ == lower_of(s@),
{
    s.to_lowercase()
}

/// Relies on `human_sort::compare`: a deterministic human-friendly
/// ordering; swapping the arguments flips the answer, and equal strings
/// answer zero. The digit-run bound keeps the crate's numeral
/// accumulator inside its integer type, so the call cannot panic.
#[verifier::external_body]
fn human_compare(a: &str, b: &str) -> (r: i8)
    requires
        no_long_digit_run(a@),
        no_long_digit_run(b@),
    ensures
        -1 <= r <= 1,
        r as int == human_cmp(a@, b@),
        human_cmp(b@, a@) == -(r as int),
        a@ == b@ ==> r == 0,
{
    match human_sort::compare(a, b) {
        std::cmp::Ordering::Less => -1,
        std::cmp::Ordering::Equal => 0,
        std::cmp::Ordering::Greater => 1,
    }
}

/// The string an item is keyed by when sorting under column `col`: the
/// lowercased name for the primary column, else the lowercased value
/// listed under the column, the empty string when none is.
pub open spec fn sort_key_of(item: ListItem, col: Seq<char>, primary: Seq<char>) -> Seq<char> {
    if col == primary {
        lower_of(item.name@)
    } else {
        lower_of(lookup(item.data@, col))
    }
}

/// Every item's sort key respects the digit-run bound, so every needed
/// comparison is available.
pub open spec fn keys_sortable(items: Seq<ListItem>, col: Seq<char>, primary: Seq<char>) -> bool {
    forall|i: int|
        0 <= i < items.len() ==> no_long_digit_run(
            #[trigger] sort_key_of(items[i], col, primary),
        )
}

/// Stable insertion of `x` into `s` from the right: `x` lands after
/// every element whose key does not compare above its own.
pub open spec fn sorted_insert(
    s: Seq<ListItem>,
    x: ListItem,
    col: Seq<char>,
    primary: Seq<char>,
) -> Seq<ListItem>
    decreases s.len(),
{
    if s.len() == 0 {
        seq![x]
    } else if human_cmp(sort_key_of(x, col, primary), sort_key_of(s.last(), col, primary)) < 0 {
        sorted_insert(s.drop_last(), x, col, primary).push(s.last())
    } else {
        s.push(x)
    }
}

/// The stable ascending human-order sort of `s` under column `col`.
pub open spec fn sort_items(s: Seq<ListItem>, col: Seq<char>, primary: Seq<char>) -> Seq<ListItem>
    decreases s.len(),
{
    if s.len() == 0 {
        Seq::empty()
    } else {
        sorted_insert(sort_items(s.drop_last(), col, primary), s.last(), col, primary)
    }
}

/// What one sorting pass leaves behind: the stable ascending sort,
/// reversed wholesale for descending order; the collection is untouched
/// when no full sort setting is active, when the key is neither the
/// primary label nor a secondary column, or when a key overruns the
/// digit-run bound.
pub open spec fn sort_applied(
    items: Seq<ListItem>,
    key: Option<Seq<char>>,
    ordering: Option<Ordering>,
    primary: Seq<char>,
    secondary: Seq<Seq<char>>,
) -> Seq<ListItem> {
    match (key, ordering) {
        (Option::Some(k), Option::Some(o)) => {
            if (k == primary || secondary.contains(k)) && keys_sortable(items, k, primary) {
                if o == Ordering::Inversed {
                    sort_items(items, k, primary).reverse()
                } else {
                    sort_items(items, k, primary)
                }
            } else {
                items
            }
        },
        _ => items,
    }
}

/// Inserting at the scan position is the stable insertion: all keys at
/// or after `j` compare above `x`, the key before `j` does not.
proof fn lemma_sorted_insert_at(
    s: Seq<ListItem>,
    x: ListItem,
    col: Seq<char>,
    primary: Seq<char>,
    j: int,
)
    requires
        0 <= j <= s.len(),
        forall|k: int|
            j <= k < s.len() ==> human_cmp(
                sort_key_of(x, col, primary),
                #[trigger] sort_key_of(s[k], col, primary),
            ) < 0,
        j > 0 ==> human_cmp(sort_key_of(x, col, primary), sort_key_of(s[j - 1], col, primary))
            >= 0,
    ensures
        sorted_insert(s, x, col, primary) == s.take(j) + seq![x] + s.skip(j),
    decreases s.len(),
{
    if s.len() == 0 {
        assert(sorted_insert(s, x, col, primary) =~= s.take(j) + seq![x] + s.skip(j));
    } else if human_cmp(sort_key_of(x, col, primary), sort_key_of(s.last(), col, primary)) < 0 {
        assert(j < s.len());
        lemma_sorted_insert_at(s.drop_last(), x, col, primary, j);
        assert(sorted_insert(s, x, col, primary) =~= s.take(j) + seq![x] + s.skip(j));
    } else {
        assert(j == s.len()) by {
            if j < s.len() {
                assert(human_cmp(
                    sort_key_of(x, col, primary),
                    sort_key_of(s[s.len() - 1], col, primary),
                ) < 0);
            }
        }
        assert(sorted_insert(s, x, col, primary) =~= s.take(j) + seq![x] + s.skip(j));
    }
}

/// Sorts `items` stably into ascending human order under column `col`.
/// When some key overruns the digit-run bound, nothing is touched and
/// the answer is false.
pub fn sort_in_place(items: &mut Vec<ListItem>, col: &String, primary: &String) -> (ok: bool)
    ensures
        ok == keys_sortable(old(items)@, col@, primary@),
        ok ==> final(items)@ == sort_items(old(items)@, col@, primary@),
        !ok ==> final(items)@ == old(items)@,
{
    let ghost orig = items@;
    let ghost colv = col@;
    let ghost prim = primary@;
    let n = items.len();
    let is_primary = col.eq(primary);
    let mut keys: Vec<String> = Vec::new();
    let mut i: usize = 0;
    while i < n
        invariant
            0 <= i <= n,
            n == items@.len(),
            n == orig.len(),
            items@ == orig,
            is_primary == (colv == prim),
            colv == col@,
            prim == primary@,
            keys@.len() == i,
            forall|j: int|
                0 <= j < i ==> #[trigger] keys@[j]@ == sort_key_of(orig[j], colv, prim)
                    && no_long_digit_run(keys@[j]@),
        decreases n - i,
    {
        let raw: String = if is_primary {
            items[i].name.clone()
        } else {
            let found = lookup_value(&items[i].data, col);
            found.0
        };
        let low = lowercase(raw.as_str());
        if !digit_runs_ok(low.as_str()) {
            proof {
                assert(low@ == sort_key_of(orig[i as int], colv, prim));
                assert(!keys_sortable(orig, colv, prim));
            }
            return false;
        }
        keys.push(low);
        i = i + 1;
    }
    proof {
        assert forall|k: int| 0 <= k < orig.len() implies no_long_digit_run(
            #[trigger] sort_key_of(orig[k], colv, prim),
        ) by {
            assert(keys@[k]@ == sort_key_of(orig[k], colv, prim));
            assert(no_long_digit_run(keys@[k]@));
        }
        assert(keys_sortable(orig, colv, prim));
    }
    if n <= 1 {
        proof {
            if n == 1 {
                assert(orig.drop_last().len() == 0);
                assert(sort_items(orig.drop_last(), colv, prim) == Seq::<ListItem>::empty());
                assert(sorted_insert(Seq::<ListItem>::empty(), orig.last(), colv, prim)
                    == seq![orig.last()]);
                assert(sort_items(orig, colv, prim) =~= orig);
            } else {
                assert(sort_items(orig, colv, prim) =~= orig);
            }
        }
        return true;
    }
    let mut idx: usize = 1;
    proof {
        let t1 = orig.take(1);
        assert(t1.len() == 1);
        assert(t1.drop_last().len() == 0);
        assert(sort_items(t1.drop_last(), colv, prim) == Seq::<ListItem>::empty());
        assert(sorted_insert(Seq::<ListItem>::empty(), t1.last(), colv, prim) == seq![t1.last()]);
        assert(sort_items(t1, colv, prim) =~= t1);
        assert(items@.take(1) =~= orig.take(1));
    }
    while idx < n
        invariant
            1 <= idx <= n,
            n == items@.len(),
            n == keys@.len(),
            n == orig.len(),
            colv == col@,
            prim == primary@,
            keys_sortable(orig, colv, prim),
            forall|j: int| idx <= j < n ==> items@[j] == orig[j],
            items@.take(idx as int) == sort_items(orig.take(idx as int), colv, prim),
            forall|j: int|
                0 <= j < n ==> #[trigger] keys@[j]@ == sort_key_of(items@[j], colv, prim)
                    && no_long_digit_run(keys@[j]@),
        decreases n - idx,
    {
        let ghost pre_items = items@;
        let key_x = keys.remove(idx);
        let x = items.remove(idx);
        let ghost prefix = items@.take(idx as int);
        proof {
            assert(items@ =~= pre_items.remove(idx as int));
            assert(prefix =~= pre_items.take(idx as int));
            assert(prefix == sort_items(orig.take(idx as int), colv, prim));
            assert(x == orig[idx as int]);
            assert(key_x@ == sort_key_of(x, colv, prim));
        }
        let mut j: usize = idx;
        let mut scanning: bool = true;
        while scanning && j > 0
            invariant
                0 <= j <= idx,
                idx < n,
                n - 1 == items@.len(),
                n - 1 == keys@.len(),
                colv == col@,
                prim == primary@,
                key_x@ == sort_key_of(x, colv, prim),
                no_long_digit_run(key_x@),
                forall|k: int|
                    0 <= k < idx ==> #[trigger] keys@[k]@ == sort_key_of(items@[k], colv, prim)
                        && no_long_digit_run(keys@[k]@),
                forall|k: int|
                    j <= k < idx ==> human_cmp(
                        key_x@,
                        #[trigger] sort_key_of(items@[k], colv, prim),
                    ) < 0,
                !scanning ==> j > 0 && human_cmp(
                    key_x@,
                    sort_key_of(items@[j - 1], colv, prim),
                ) >= 0,
            decreases j + (if scanning { 1int } else { 0int }),
        {
            let c = human_compare(key_x.as_str(), keys[j - 1].as_str());
            if c < 0 {
                j = j - 1;
            } else {
                scanning = false;
            }
        }
        keys.insert(j, key_x);
        items.insert(j, x);
        proof {
            lemma_sorted_insert_at(prefix, x, colv, prim, j as int);
            assert(items@.take(idx as int + 1) =~= prefix.take(j as int) + seq![x] + prefix.skip(
                j as int,
            ));
            assert(items@.take(idx as int + 1) == sorted_insert(prefix, x, colv, prim));
            assert(orig.take(idx as int + 1).drop_last() =~= orig.take(idx as int));
            assert(orig.take(idx as int + 1).last() == orig[idx as int]);
            assert(items@.take(idx as int + 1) == sort_items(
                orig.take(idx as int + 1),
                colv,
                prim,
            ));
            assert forall|k: int| idx + 1 <= k < n implies items@[k] == orig[k] by {
                assert(items@[k] == pre_items[k]);
            }
        }
        idx = idx + 1;
    }
    proof {
        assert(orig.take(n as int) =~= orig);
        assert(items@.take(n as int) =~= items@);
    }
    true
}

/// Stable insertion grows the collection by exactly the new item.
proof fn lemma_sorted_insert_len(s: Seq<ListItem>, x: ListItem, col: Seq<char>, primary: Seq<char>)
    ensures
        sorted_insert(s, x, col, primary).len() == s.len() + 1,
    decreases s.len(),
{
    if s.len() > 0 && human_cmp(sort_key_of(x, col, primary), sort_key_of(s.last(), col, primary))
        < 0 {
        lemma_sorted_insert_len(s.drop_last(), x, col, primary);
    }
}

/// Law: sorting keeps the collection's length.
pub proof fn lemma_sort_items_len(s: Seq<ListItem>, col: Seq<char>, primary: Seq<char>)
    ensures
        sort_items(s, col, primary).len() == s.len(),
    decreases s.len(),
{
    if s.len() > 0 {
        lemma_sort_items_len(s.drop_last(), col, primary);
        lemma_sorted_insert_len(sort_items(s.drop_last(), col, primary), s.last(), col, primary);
    }
}

/// Law: a sorting pass permutes the collection and nothing more: the
/// sorted collection holds exactly the same items, multiplicity
/// included.
pub proof fn lemma_sort_items_multiset(s: Seq<ListItem>, col: Seq<char>, primary: Seq<char>)
    ensures
        sort_items(s, col, primary).to_multiset() == s.to_multiset(),
    decreases s.len(),
{
    broadcast use vstd::seq_lib::group_to_multiset_ensures;

    if s.len() > 0 {
        lemma_sort_items_multiset(s.drop_last(), col, primary);
        lemma_sorted_insert_multiset(sort_items(s.drop_last(), col, primary), s.last(), col, primary);
        assert(s.drop_last().push(s.last()) =~= s);
    }
}

proof fn lemma_sorted_insert_multiset(s: Seq<ListItem>, x: ListItem, col: Seq<char>, primary: Seq<char>)
    ensures
        sorted_insert(s, x, col, primary).to_multiset() == s.push(x).to_multiset(),
    decreases s.len(),
{
    broadcast use vstd::seq_lib::group_to_multiset_ensures;

    if s.len() > 0 && human_cmp(sort_key_of(x, col, primary), sort_key_of(s.last(), col, primary))
        < 0 {
        let dl = s.drop_last();
        let last = s.last();
        lemma_sorted_insert_multiset(dl, x, col, primary);
        assert(sorted_insert(s, x, col, primary) == sorted_insert(dl, x, col, primary).push(last));
        assert(sorted_insert(dl, x, col, primary).push(last).to_multiset() == sorted_insert(
            dl,
            x,
            col,
            primary,
        ).to_multiset().insert(last));
        assert(dl.push(x).to_multiset() == dl.to_multiset().insert(x));
        assert(dl.to_multiset().insert(x).insert(last) =~= dl.to_multiset().insert(last).insert(x));
        assert(dl.push(last) =~= s);
        assert(dl.push(last).to_multiset() == dl.to_multiset().insert(last));
        assert(s.push(x).to_multiset() == s.to_multiset().insert(x));
    }
}

/// The item is one of the collection's elements.
pub open spec fn among(s: Seq<ListItem>, x: ListItem) -> bool {
    exists|i: int| 0 <= i < s.len() && s[i] == x
}

/// Every element of `r` is an element of `s`.
pub open spec fn all_among(r: Seq<ListItem>, s: Seq<ListItem>) -> bool {
    forall|i: int| 0 <= i < r.len() ==> among(s, #[trigger] r[i])
}

/// The comparison behaves as an order on the keys of `s`: swapping the
/// arguments flips the answer, and the at-most relation is transitive.
pub open spec fn cmp_lawful(s: Seq<ListItem>, col: Seq<char>, primary: Seq<char>) -> bool {
    &&& (forall|x: ListItem, y: ListItem|
        among(s, x) && among(s, y) ==> human_cmp(
            #[trigger] sort_key_of(x, col, primary),
            #[trigger] sort_key_of(y, col, primary),
        ) == -human_cmp(sort_key_of(y, col, primary), sort_key_of(x, col, primary)))
    &&& (forall|x: ListItem, y: ListItem, z: ListItem|
        #![trigger sort_key_of(x, col, primary), sort_key_of(y, col, primary), sort_key_of(z, col, primary)]
        among(s, x) && among(s, y) && among(s, z) && human_cmp(
            sort_key_of(x, col, primary),
            sort_key_of(y, col, primary),
        ) <= 0 && human_cmp(sort_key_of(y, col, primary), sort_key_of(z, col, primary)) <= 0
            ==> human_cmp(sort_key_of(x, col, primary), sort_key_of(z, col, primary)) <= 0)
}

/// No two elements of `s` share a sort key.
pub open spec fn keys_distinct(s: Seq<ListItem>, col: Seq<char>, primary: Seq<char>) -> bool {
    forall|i: int, j: int|
        0 <= i < s.len() && 0 <= j < s.len() && i != j ==> human_cmp(
            #[trigger] sort_key_of(s[i], col, primary),
            #[trigger] sort_key_of(s[j], col, primary),
        ) != 0
}

/// The collection is in ascending key order.
pub open spec fn pairwise_sorted(r: Seq<ListItem>, col: Seq<char>, primary: Seq<char>) -> bool {
    forall|i: int, j: int|
        0 <= i < j < r.len() ==> human_cmp(
            #[trigger] sort_key_of(r[i], col, primary),
            #[trigger] sort_key_of(r[j], col, primary),
        ) <= 0
}

proof fn lemma_sorted_insert_elems(r: Seq<ListItem>, x: ListItem, col: Seq<char>, primary: Seq<char>)
    ensures
        all_among(sorted_insert(r, x, col, primary), r.push(x)),
    decreases r.len(),
{
    let res = sorted_insert(r, x, col, primary);
    if r.len() == 0 {
        assert(r.push(x)[0] == x);
        assert(among(r.push(x), x));
    } else if human_cmp(sort_key_of(x, col, primary), sort_key_of(r.last(), col, primary)) < 0 {
        lemma_sorted_insert_elems(r.drop_last(), x, col, primary);
        let sub = sorted_insert(r.drop_last(), x, col, primary);
        assert forall|i: int| 0 <= i < res.len() implies among(r.push(x), #[trigger] res[i]) by {
            if i < sub.len() {
                assert(among(r.drop_last().push(x), sub[i]));
                let w = choose|w: int|
                    0 <= w < r.drop_last().push(x).len() && r.drop_last().push(x)[w] == sub[i];
                if w < r.len() - 1 {
                    assert(r.push(x)[w] == sub[i]);
                } else {
                    assert(r.push(x)[r.len() as int] == sub[i]);
                }
                assert(among(r.push(x), sub[i]));
            } else {
                assert(res[i] == r.last());
                assert(r.push(x)[r.len() - 1] == r.last());
                assert(among(r.push(x), r.last()));
            }
        }
    } else {
        assert forall|i: int| 0 <= i < res.len() implies among(r.push(x), #[trigger] res[i]) by {
            assert(r.push(x)[i] == res[i]);
        }
    }
}

proof fn lemma_among_push(r: Seq<ListItem>, s: Seq<ListItem>, x: ListItem)
    requires
        all_among(r, s),
        among(s, x),
    ensures
        all_among(r.push(x), s),
{
    assert forall|i: int| 0 <= i < r.push(x).len() implies among(s, #[trigger] r.push(x)[i]) by {
        if i < r.len() {
            assert(r.push(x)[i] == r[i]);
        } else {
            assert(r.push(x)[i] == x);
        }
    }
}

proof fn lemma_all_among_trans(r: Seq<ListItem>, m: Seq<ListItem>, s: Seq<ListItem>)
    requires
        all_among(r, m),
        all_among(m, s),
    ensures
        all_among(r, s),
{
    assert forall|i: int| 0 <= i < r.len() implies among(s, #[trigger] r[i]) by {
        let w = choose|w: int| 0 <= w < m.len() && m[w] == r[i];
        assert(among(s, m[w]));
    }
}

proof fn lemma_drop_last_among(s: Seq<ListItem>)
    requires
        s.len() > 0,
    ensures
        all_among(s.drop_last(), s),
{
    assert forall|i: int| 0 <= i < s.drop_last().len() implies among(
        s,
        #[trigger] s.drop_last()[i],
    ) by {
        assert(s[i] == s.drop_last()[i]);
    }
}

proof fn lemma_sorted_insert_sorted(
    r: Seq<ListItem>,
    x: ListItem,
    s: Seq<ListItem>,
    col: Seq<char>,
    primary: Seq<char>,
)
    requires
        pairwise_sorted(r, col, primary),
        all_among(r, s),
        among(s, x),
        cmp_lawful(s, col, primary),
    ensures
        pairwise_sorted(sorted_insert(r, x, col, primary), col, primary),
    decreases r.len(),
{
    let res = sorted_insert(r, x, col, primary);
    let kx = sort_key_of(x, col, primary);
    if r.len() == 0 {
    } else {
        let last = r.last();
        let klast = sort_key_of(last, col, primary);
        if human_cmp(kx, klast) < 0 {
            lemma_drop_last_among(r);
            lemma_all_among_trans(r.drop_last(), r, s);
            lemma_sorted_insert_sorted(r.drop_last(), x, s, col, primary);
            let sub = sorted_insert(r.drop_last(), x, col, primary);
            lemma_sorted_insert_elems(r.drop_last(), x, col, primary);
            assert forall|i: int, j: int| 0 <= i < j < res.len() implies human_cmp(
                sort_key_of(res[i], col, primary),
                sort_key_of(res[j], col, primary),
            ) <= 0 by {
                if j < sub.len() {
                    assert(res[i] == sub[i] && res[j] == sub[j]);
                } else {
                    assert(res[j] == last);
                    assert(res[i] == sub[i]);
                    assert(among(r.drop_last().push(x), sub[i]));
                    let w = choose|w: int|
                        0 <= w < r.drop_last().push(x).len() && r.drop_last().push(x)[w] == sub[i];
                    if w < r.len() - 1 {
                        assert(sub[i] == r[w]);
                        assert(human_cmp(sort_key_of(r[w], col, primary), klast) <= 0);
                    } else {
                        assert(sub[i] == x);
                        assert(human_cmp(kx, klast) <= 0);
                    }
                }
            }
        } else {
            assert(human_cmp(klast, kx) <= 0) by {
                assert(among(s, x) && among(s, last));
            }
            assert forall|i: int, j: int| 0 <= i < j < res.len() implies human_cmp(
                sort_key_of(res[i], col, primary),
                sort_key_of(res[j], col, primary),
            ) <= 0 by {
                if j < r.len() {
                    assert(res[i] == r[i] && res[j] == r[j]);
                } else {
                    assert(res[j] == x);
                    assert(res[i] == r[i]);
                    if i < r.len() - 1 {
                        assert(human_cmp(sort_key_of(r[i], col, primary), klast) <= 0);
                        assert(human_cmp(sort_key_of(r[i], col, primary), kx) <= 0) by {
                            assert(among(s, r[i]) && among(s, last) && among(s, x));
                        }
                    }
                }
            }
        }
    }
}

/// Law: under a lawful comparison, sorting leaves the collection in
/// ascending key order, and every element of the result is an element
/// of the input.
pub proof fn lemma_sort_items_sorted(s: Seq<ListItem>, col: Seq<char>, primary: Seq<char>)
    requires
        cmp_lawful(s, col, primary),
    ensures
        pairwise_sorted(sort_items(s, col, primary), col, primary),
        all_among(sort_items(s, col, primary), s),
    decreases s.len(),
{
    if s.len() > 0 {
        let dl = s.drop_last();
        assert(cmp_lawful(dl, col, primary)) by {
            lemma_drop_last_among(s);
            assert forall|x: ListItem, y: ListItem| among(dl, x) && among(dl, y) implies human_cmp(
                #[trigger] sort_key_of(x, col, primary),
                #[trigger] sort_key_of(y, col, primary),
            ) == -human_cmp(sort_key_of(y, col, primary), sort_key_of(x, col, primary)) by {
                assert(among(s, x) && among(s, y)) by {
                    let wx = choose|w: int| 0 <= w < dl.len() && dl[w] == x;
                    let wy = choose|w: int| 0 <= w < dl.len() && dl[w] == y;
                    assert(s[wx] == x && s[wy] == y);
                }
            }
            assert forall|x: ListItem, y: ListItem, z: ListItem|
                #![trigger sort_key_of(x, col, primary), sort_key_of(y, col, primary), sort_key_of(z, col, primary)]
                among(dl, x) && among(dl, y) && among(dl, z) && human_cmp(
                    sort_key_of(x, col, primary),
                    sort_key_of(y, col, primary),
                ) <= 0 && human_cmp(sort_key_of(y, col, primary), sort_key_of(z, col, primary))
                    <= 0 implies human_cmp(sort_key_of(x, col, primary), sort_key_of(z, col, primary))
                <= 0 by {
                assert(among(s, x) && among(s, y) && among(s, z)) by {
                    let wx = choose|w: int| 0 <= w < dl.len() && dl[w] == x;
                    let wy = choose|w: int| 0 <= w < dl.len() && dl[w] == y;
                    let wz = choose|w: int| 0 <= w < dl.len() && dl[w] == z;
                    assert(s[wx] == x && s[wy] == y && s[wz] == z);
                }
            }
        }
        lemma_sort_items_sorted(dl, col, primary);
        lemma_drop_last_among(s);
        lemma_all_among_trans(sort_items(dl, col, primary), dl, s);
        assert(among(s, s.last())) by {
            assert(s[s.len() - 1] == s.last());
        }
        lemma_sorted_insert_sorted(sort_items(dl, col, primary), s.last(), s, col, primary);
        lemma_sorted_insert_elems(sort_items(dl, col, primary), s.last(), col, primary);
        lemma_among_push(sort_items(dl, col, primary), s, s.last());
        lemma_all_among_trans(
            sort_items(s, col, primary),
            sort_items(dl, col, primary).push(s.last()),
            s,
        );
    }
}

/// Law: sorting a collection that is already in ascending key order
/// changes nothing: the sort is stable.
pub proof fn lemma_sort_sorted_identity(a: Seq<ListItem>, s: Seq<ListItem>, col: Seq<char>, primary: Seq<char>)
    requires
        pairwise_sorted(a, col, primary),
        all_among(a, s),
        cmp_lawful(s, col, primary),
    ensures
        sort_items(a, col, primary) == a,
    decreases a.len(),
{
    if a.len() > 0 {
        let dl = a.drop_last();
        assert(pairwise_sorted(dl, col, primary)) by {
            assert forall|i: int, j: int| 0 <= i < j < dl.len() implies human_cmp(
                sort_key_of(#[trigger] dl[i], col, primary),
                sort_key_of(#[trigger] dl[j], col, primary),
            ) <= 0 by {
                assert(dl[i] == a[i] && dl[j] == a[j]);
            }
        }
        lemma_drop_last_among(a);
        lemma_all_among_trans(dl, a, s);
        lemma_sort_sorted_identity(dl, s, col, primary);
        if dl.len() > 0 {
            assert(human_cmp(
                sort_key_of(dl.last(), col, primary),
                sort_key_of(a.last(), col, primary),
            ) <= 0) by {
                assert(dl.last() == a[a.len() - 2] && a.last() == a[a.len() - 1]);
            }
            assert(human_cmp(
                sort_key_of(a.last(), col, primary),
                sort_key_of(dl.last(), col, primary),
            ) >= 0) by {
                assert(among(s, a.last())) by {
                    assert(a[a.len() - 1] == a.last());
                }
                assert(among(s, dl.last())) by {
                    assert(a[a.len() - 2] == dl.last());
                }
            }
            assert(sorted_insert(dl, a.last(), col, primary) == dl.push(a.last()));
        }
        assert(dl.push(a.last()) =~= a);
    }
}

/// Law: sorting the reverse of a strictly ascending collection
/// restores that collection.
pub proof fn lemma_sort_of_reverse(a: Seq<ListItem>, s: Seq<ListItem>, col: Seq<char>, primary: Seq<char>)
    requires
        pairwise_sorted(a, col, primary),
        all_among(a, s),
        cmp_lawful(s, col, primary),
        forall|i: int, j: int|
            0 <= i < j < a.len() ==> human_cmp(
                sort_key_of(#[trigger] a[i], col, primary),
                sort_key_of(#[trigger] a[j], col, primary),
            ) != 0,
    ensures
        sort_items(a.reverse(), col, primary) == a,
    decreases a.len(),
{
    if a.len() == 0 {
        assert(a.reverse() =~= a);
    } else {
        let df = a.drop_first();
        let r = a.reverse();
        assert(r.drop_last() =~= df.reverse());
        assert(r.last() == a[0]);
        assert(pairwise_sorted(df, col, primary)) by {
            assert forall|i: int, j: int| 0 <= i < j < df.len() implies human_cmp(
                sort_key_of(#[trigger] df[i], col, primary),
                sort_key_of(#[trigger] df[j], col, primary),
            ) <= 0 by {
                assert(df[i] == a[i + 1] && df[j] == a[j + 1]);
            }
        }
        assert(all_among(df, s)) by {
            assert forall|i: int| 0 <= i < df.len() implies among(s, #[trigger] df[i]) by {
                assert(df[i] == a[i + 1]);
                assert(among(a, a[i + 1]));
                let w = choose|w: int| 0 <= w < a.len() && #[trigger] a[w] == a[i + 1];
                assert(among(s, a[w]));
            }
        }
        assert(forall|i: int, j: int|
            0 <= i < j < df.len() ==> human_cmp(
                sort_key_of(#[trigger] df[i], col, primary),
                sort_key_of(#[trigger] df[j], col, primary),
            ) != 0) by {
            assert forall|i: int, j: int| 0 <= i < j < df.len() implies human_cmp(
                sort_key_of(#[trigger] df[i], col, primary),
                sort_key_of(#[trigger] df[j], col, primary),
            ) != 0 by {
                assert(df[i] == a[i + 1] && df[j] == a[j + 1]);
            }
        }
        lemma_sort_of_reverse(df, s, col, primary);
        assert(sort_items(r, col, primary) == sorted_insert(
            sort_items(r.drop_last(), col, primary),
            r.last(),
            col,
            primary,
        ));
        assert(sort_items(r.drop_last(), col, primary) == df);
        assert forall|k: int| 0 <= k < df.len() implies human_cmp(
            sort_key_of(a[0], col, primary),
            #[trigger] sort_key_of(df[k], col, primary),
        ) < 0 by {
            assert(df[k] == a[k + 1]);
            assert(human_cmp(sort_key_of(a[0], col, primary), sort_key_of(a[k + 1], col, primary))
                <= 0);
            assert(human_cmp(sort_key_of(a[0], col, primary), sort_key_of(a[k + 1], col, primary))
                != 0);
        }
        lemma_sorted_insert_at(df, a[0], col, primary, 0);
        assert(df.take(0) + seq![a[0]] + df.skip(0) =~= a);
    }
}

/// Law: sorting a column ascending, then descending, then ascending
/// again reproduces the first ascending order exactly, order of rows
/// included, whenever the comparison is lawful on the collection's
/// keys and no two keys tie.
pub proof fn lemma_sort_round_trip(s: Seq<ListItem>, col: Seq<char>, primary: Seq<char>)
    requires
        cmp_lawful(s, col, primary),
        keys_distinct(s, col, primary),
    ensures
        sort_items(sort_items(s, col, primary).reverse(), col, primary) == sort_items(
            s,
            col,
            primary,
        ),
{
    let a = sort_items(s, col, primary);
    lemma_sort_items_sorted(s, col, primary);
    assert(forall|i: int, j: int|
        0 <= i < j < a.len() ==> human_cmp(
            sort_key_of(#[trigger] a[i], col, primary),
            sort_key_of(#[trigger] a[j], col, primary),
        ) != 0) by {
        lemma_sort_distinct_positions(s, col, primary);
    }
    lemma_sort_of_reverse(a, s, col, primary);
}

/// Elements at different positions of the sort result never tie, when
/// the input's keys are distinct.
proof fn lemma_sort_distinct_positions(s: Seq<ListItem>, col: Seq<char>, primary: Seq<char>)
    requires
        cmp_lawful(s, col, primary),
        keys_distinct(s, col, primary),
    ensures
        forall|i: int, j: int|
            0 <= i < j < sort_items(s, col, primary).len() ==> human_cmp(
                sort_key_of(#[trigger] sort_items(s, col, primary)[i], col, primary),
                sort_key_of(#[trigger] sort_items(s, col, primary)[j], col, primary),
            ) != 0,
{
    let a = sort_items(s, col, primary);
    lemma_sort_items_sorted(s, col, primary);
    lemma_sort_items_multiset(s, col, primary);
    broadcast use vstd::seq_lib::group_to_multiset_ensures;

    assert forall|i: int, j: int| 0 <= i < j < a.len() implies human_cmp(
        sort_key_of(#[trigger] a[i], col, primary),
        sort_key_of(#[trigger] a[j], col, primary),
    ) != 0 by {
        let wi = choose|w: int| 0 <= w < s.len() && s[w] == a[i];
        let wj = choose|w: int| 0 <= w < s.len() && s[w] == a[j];
        if wi == wj {
            assert(a[i] == a[j]);
            lemma_multiset_two_positions(a, i, j);
            assert(a.to_multiset().count(a[i]) >= 2);
            assert(s.to_multiset().count(a[i]) >= 2);
            lemma_multiset_count_two_positions(s, a[i]);
            let (p1, p2) = choose|p1: int, p2: int|
                0 <= p1 < p2 < s.len() && s[p1] == a[i] && s[p2] == a[i];
            assert(human_cmp(
                sort_key_of(s[p1], col, primary),
                sort_key_of(s[p2], col, primary),
            ) != 0);
            assert(among(s, a[i])) by {
                assert(s[p1] == a[i]);
            }
            assert(human_cmp(sort_key_of(a[i], col, primary), sort_key_of(a[i], col, primary))
                == -human_cmp(sort_key_of(a[i], col, primary), sort_key_of(a[i], col, primary)));
            assert(false);
        } else {
            assert(human_cmp(sort_key_of(s[wi], col, primary), sort_key_of(s[wj], col, primary))
                != 0);
        }
    }
}

proof fn lemma_multiset_two_positions(a: Seq<ListItem>, i: int, j: int)
    requires
        0 <= i < j < a.len(),
        a[i] == a[j],
    ensures
        a.to_multiset().count(a[i]) >= 2,
{
    broadcast use vstd::seq_lib::group_to_multiset_ensures;

    let x = a[i];
    let without = a.remove(j);
    assert(a.to_multiset() =~= without.to_multiset().insert(a[j]));
    assert(without[i] == x);
    assert(without.to_multiset().count(x) >= 1) by {
        assert(without.contains(x));
    }
}

proof fn lemma_multiset_count_two_positions(s: Seq<ListItem>, x: ListItem)
    requires
        s.to_multiset().count(x) >= 2,
    ensures
        exists|p1: int, p2: int| 0 <= p1 < p2 < s.len() && s[p1] == x && s[p2] == x,
{
    broadcast use vstd::seq_lib::group_to_multiset_ensures;

    assert(s.contains(x));
    let p1 = s.index_of(x);
    let rest = s.remove(p1);
    assert(s.to_multiset() =~= rest.to_multiset().insert(x));
    assert(rest.to_multiset().count(x) >= 1);
    assert(rest.contains(x));
    let q = choose|q: int| 0 <= q < rest.len() && rest[q] == x;
    if q < p1 {
        assert(s[q] == x && s[p1] == x);
        assert(0 <= q < p1 < s.len() && s[q] == x && s[p1] == x);
    } else {
        assert(s[q + 1] == x);
        assert(0 <= p1 < q + 1 < s.len() && s[p1] == x && s[q + 1] == x);
    }
}

proof fn lemma_keys_sortable_among(r: Seq<ListItem>, s: Seq<ListItem>, col: Seq<char>, primary: Seq<char>)
    requires
        all_among(r, s),
        keys_sortable(s, col, primary),
    ensures
        keys_sortable(r, col, primary),
{
    assert forall|i: int| 0 <= i < r.len() implies no_long_digit_run(
        #[trigger] sort_key_of(r[i], col, primary),
    ) by {
        let w = choose|w: int| 0 <= w < s.len() && s[w] == r[i];
        assert(no_long_digit_run(sort_key_of(s[w], col, primary)));
    }
}

proof fn lemma_reverse_among(a: Seq<ListItem>)
    ensures
        all_among(a.reverse(), a),
{
    assert forall|i: int| 0 <= i < a.reverse().len() implies among(a, #[trigger] a.reverse()[i]) by {
        assert(a[a.len() - 1 - i] == a.reverse()[i]);
    }
}

/// Law: through the view's own sort semantics — the same column sorted
/// ascending, then descending, then ascending again — the rows come
/// back in exactly the first ascending order, order of equal rows
/// included, whenever the comparison is lawful on the collection's
/// keys and no two keys tie.
pub proof fn lemma_sort_by_round_trip(
    items: Seq<ListItem>,
    col: Seq<char>,
    primary: Seq<char>,
    secondary: Seq<Seq<char>>,
)
    requires
        cmp_lawful(items, col, primary),
        keys_distinct(items, col, primary),
        keys_sortable(items, col, primary),
        col == primary || secondary.contains(col),
    ensures
        sort_applied(
            sort_applied(
                sort_applied(
                    items,
                    Option::Some(col),
                    Option::Some(Ordering::Default),
                    primary,
                    secondary,
                ),
                Option::Some(col),
                Option::Some(Ordering::Inversed),
                primary,
                secondary,
            ),
            Option::Some(col),
            Option::Some(Ordering::Default),
            primary,
            secondary,
        ) == sort_applied(
            items,
            Option::Some(col),
            Option::Some(Ordering::Default),
            primary,
            secondary,
        ),
{
    let a = sort_items(items, col, primary);
    lemma_sort_items_sorted(items, col, primary);
    assert(sort_applied(
        items,
        Option::Some(col),
        Option::Some(Ordering::Default),
        primary,
        secondary,
    ) == a);
    lemma_keys_sortable_among(a, items, col, primary);
    lemma_sort_sorted_identity(a, items, col, primary);
    assert(sort_applied(a, Option::Some(col), Option::Some(Ordering::Inversed), primary, secondary)
        == a.reverse());
    lemma_reverse_among(a);
    lemma_all_among_trans(a.reverse(), a, items);
    lemma_keys_sortable_among(a.reverse(), items, col, primary);
    lemma_sort_distinct_positions(items, col, primary);
    lemma_sort_of_reverse(a, items, col, primary);
    assert(sort_applied(
        a.reverse(),
        Option::Some(col),
        Option::Some(Ordering::Default),
        primary,
        secondary,
    ) == a);
}

} // verus!
