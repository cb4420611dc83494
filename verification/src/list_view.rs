//! What the file list does when the user selects all rows, searches by
//! name, sorts by a column, or starts copying the checked files.
use vstd::prelude::*;
use vstd::set_lib::{lemma_int_range, lemma_subset_equality, set_int_range};

use crate::enums::{ProgressStatus, StaticVarsType};
use crate::file_opt::ProgressUpdate;
use crate::structs::{file_info_of, FileInfo, FileInfoView, ListItemProgress, ListViewItem};
use crate::text::{
    chars_of, contains_str, contains_text, lemma_text_less_asymmetric, lemma_text_less_total,
    lemma_text_less_transitive, lowercase_text, str_less, text_less, to_lowercase, is_ascii_text,
    ascii_lowercase, all_ascii, ascii_lowercase_of,
};

verus! {

impl ListViewItem {
    /// A copy of this row, field by field.
    pub fn duplicate(&self) -> (r: ListViewItem)
        ensures
            r == *self,
    {
        ListViewItem {
            checked: self.checked,
            name: self.name.clone(),
            size: self.size,
            modified_time: self.modified_time.clone(),
            create_time: self.create_time.clone(),
            size_show: self.size_show.clone(),
            file_type: self.file_type.clone(),
            show: self.show,
        }
    }
}

/// The row `item` with its check mark set to `checked`.
pub open spec fn with_checked(item: ListViewItem, checked: bool) -> ListViewItem {
    ListViewItem { checked: checked, ..item }
}

/// "Select all": with `has_select_all` the state of the select-all switch,
/// sets every row's check mark to the switch's new state, `!has_select_all`,
/// and returns that new state.
pub fn toggle_select_all(items: &Vec<ListViewItem>, has_select_all: bool) -> (r: (Vec<ListViewItem>, bool))
    ensures
        r.1 == !has_select_all,
        r.0@ == items@.map_values(|x: ListViewItem| with_checked(x, !has_select_all)),
{
    let checked = !has_select_all;
    let mut out: Vec<ListViewItem> = Vec::new();
    let mut i: usize = 0;
    while i < items.len()
        invariant
            i <= items.len(),
            out@ == items@.take(i as int).map_values(|x: ListViewItem| with_checked(x, checked)),
        decreases items.len() - i,
    {
        let mut row = items[i].duplicate();
        row.checked = checked;
        out.push(row);
        i = i + 1;
        assert(out@ =~= items@.take(i as int).map_values(|x: ListViewItem| with_checked(x, checked)));
    }
    assert(items@.take(items.len() as int) =~= items@);
    (out, checked)
}

/// The row `item` after a search for `text`: when `text` is not empty and
/// occurs in the row's name, the row is shown and checked; otherwise it is
/// not shown and keeps its check mark.
pub open spec fn search_marked(item: ListViewItem, text: Seq<char>) -> ListViewItem {
    if text.len() > 0 && contains_text(item.name@, text) {
        ListViewItem { show: true, checked: true, ..item }
    } else {
        ListViewItem { show: false, ..item }
    }
}

/// The rows of `s` that are shown, in their order.
pub open spec fn shown_rows(s: Seq<ListViewItem>) -> Seq<ListViewItem>
    decreases s.len(),
{
    if s.len() == 0 {
        s
    } else if s.last().show {
        shown_rows(s.drop_last()).push(s.last())
    } else {
        shown_rows(s.drop_last())
    }
}

/// The rows of `s` that are not shown, in their order.
pub open spec fn hidden_rows(s: Seq<ListViewItem>) -> Seq<ListViewItem>
    decreases s.len(),
{
    if s.len() == 0 {
        s
    } else if s.last().show {
        hidden_rows(s.drop_last())
    } else {
        hidden_rows(s.drop_last()).push(s.last())
    }
}

/// The list after a search: every row marked for `text`, then the shown
/// rows moved to the front, each group keeping its order.
pub open spec fn search_result(items: Seq<ListViewItem>, text: Seq<char>) -> Seq<ListViewItem> {
    let marked = items.map_values(|x: ListViewItem| search_marked(x, text));
    shown_rows(marked) + hidden_rows(marked)
}

/// "Search by name": marks each row by whether its name contains `text`
/// (see `search_marked`) and puts the matching rows first, in a stable order.
pub fn search_by_name(items: &Vec<ListViewItem>, text: &str) -> (r: Vec<ListViewItem>)
    ensures
        r@ == search_result(items@, text@),
        r.len() == items.len(),
        text@.len() > 0 ==> forall|k: int|
            0 <= k < r.len() ==> (#[trigger] r@[k]).show == contains_text(r@[k].name@, text@) && (r@[k].show
                ==> r@[k].checked),
        text@.len() == 0 ==> forall|k: int| 0 <= k < r.len() ==> !(#[trigger] r@[k]).show,
{
    proof {
        lemma_search_keeps_rows(items@, text@);
        if text@.len() > 0 {
            lemma_search_marks_by_name(items@, text@);
        } else {
            lemma_search_empty_text(items@);
            assert(text@ =~= Seq::<char>::empty());
        }
    }
    let nonempty = chars_of(text).len() > 0;
    let ghost marked = items@.map_values(|x: ListViewItem| search_marked(x, text@));
    let mut shown: Vec<ListViewItem> = Vec::new();
    let mut hidden: Vec<ListViewItem> = Vec::new();
    let mut i: usize = 0;
    while i < items.len()
        invariant
            i <= items.len(),
            nonempty == (text@.len() > 0),
            marked == items@.map_values(|x: ListViewItem| search_marked(x, text@)),
            shown@ == shown_rows(marked.take(i as int)),
            hidden@ == hidden_rows(marked.take(i as int)),
        decreases items.len() - i,
    {
        let mut row = items[i].duplicate();
        if nonempty && contains_str(row.name.as_str(), text) {
            row.show = true;
            row.checked = true;
        } else {
            row.show = false;
        }
        assert(row == marked[i as int]);
        assert(marked.take(i + 1).drop_last() =~= marked.take(i as int));
        assert(marked.take(i + 1).last() == marked[i as int]);
        if row.show {
            shown.push(row);
        } else {
            hidden.push(row);
        }
        i = i + 1;
    }
    assert(marked.take(items.len() as int) =~= marked);
    shown.append(&mut hidden);
    shown
}

/// The text by which column `idx` sorts a row: the lowercase name for 0
/// (for an ASCII name, its letters `'A'..='Z'` lowered, as `to_lowercase` does
/// there),
/// the creation time for 2, the modification time for any other column but
/// 1 (which sorts by size).
pub open spec fn text_key(item: ListViewItem, idx: i32) -> Seq<char> {
    if idx == 0 {
        if is_ascii_text(item.name@) {
            ascii_lowercase(item.name@)
        } else {
            lowercase_text(item.name@)
        }
    } else if idx == 2 {
        item.create_time@
    } else {
        item.modified_time@
    }
}

/// Row `a` has a smaller key than row `b` in column `idx`.
pub open spec fn key_less(a: ListViewItem, b: ListViewItem, idx: i32) -> bool {
    if idx == 1 {
        a.size < b.size
    } else {
        text_less(text_key(a, idx), text_key(b, idx))
    }
}

/// Rows `a` and `b` have the same key in column `idx`.
pub open spec fn key_same(a: ListViewItem, b: ListViewItem, idx: i32) -> bool {
    if idx == 1 {
        a.size == b.size
    } else {
        text_key(a, idx) == text_key(b, idx)
    }
}

/// In the list sorted by column `idx`, ascending or not, the row at
/// position `x` of `items` comes before the row at position `y`: its key is
/// smaller (larger when descending), or the keys are the same and `x < y`.
pub open spec fn sorts_before(items: Seq<ListViewItem>, idx: i32, ascending: bool, x: int, y: int) -> bool {
    let a = items[x];
    let b = items[y];
    if ascending {
        key_less(a, b, idx) || (key_same(a, b, idx) && x < y)
    } else {
        key_less(b, a, idx) || (key_same(a, b, idx) && x < y)
    }
}

/// `p` lists every position of `items` once, in sorted order.
pub open spec fn sorted_order(items: Seq<ListViewItem>, idx: i32, ascending: bool, p: Seq<usize>) -> bool {
    &&& p.len() == items.len()
    &&& forall|k: int| 0 <= k < p.len() ==> p[k] < items.len()
    &&& forall|k: int, l: int| 0 <= k < l < p.len() ==> p[k] != p[l]
    &&& forall|k: int, l: int|
        0 <= k < l < p.len() ==> sorts_before(items, idx, ascending, p[k] as int, p[l] as int)
}

/// The rows of `items` at the positions `p`, in that order.
pub open spec fn rows_at(items: Seq<ListViewItem>, p: Seq<usize>) -> Seq<ListViewItem> {
    Seq::new(p.len(), |k: int| items[p[k] as int])
}

/// Of two different positions, one sorts before the other.
proof fn lemma_sorts_before_total(items: Seq<ListViewItem>, idx: i32, ascending: bool, x: int, y: int)
    requires
        x != y,
    ensures
        sorts_before(items, idx, ascending, x, y) || sorts_before(items, idx, ascending, y, x),
{
    lemma_text_less_total(text_key(items[x], idx), text_key(items[y], idx));
}

/// Sorting before is transitive.
proof fn lemma_sorts_before_transitive(
    items: Seq<ListViewItem>,
    idx: i32,
    ascending: bool,
    x: int,
    y: int,
    z: int,
)
    requires
        sorts_before(items, idx, ascending, x, y),
        sorts_before(items, idx, ascending, y, z),
    ensures
        sorts_before(items, idx, ascending, x, z),
{
    let (a, b, c) = (text_key(items[x], idx), text_key(items[y], idx), text_key(items[z], idx));
    if ascending {
        if text_less(a, b) && text_less(b, c) {
            lemma_text_less_transitive(a, b, c);
        }
    } else {
        if text_less(c, b) && text_less(b, a) {
            lemma_text_less_transitive(c, b, a);
        }
    }
}

/// No position sorts before itself, and of two positions at most one sorts
/// before the other.
proof fn lemma_sorts_before_asymmetric(items: Seq<ListViewItem>, idx: i32, ascending: bool, x: int, y: int)
    ensures
        sorts_before(items, idx, ascending, x, y) ==> !sorts_before(items, idx, ascending, y, x),
{
    let (a, b) = (text_key(items[x], idx), text_key(items[y], idx));
    lemma_text_less_asymmetric(a, b);
    lemma_text_less_asymmetric(b, a);
}

/// In a sorted list no row has a key strictly beyond that of a row after
/// it: ascending, the keys never go down; descending, they never go up.
pub proof fn lemma_sorted_rows_ordered(items: Seq<ListViewItem>, idx: i32, ascending: bool, p: Seq<usize>)
    requires
        sorted_order(items, idx, ascending, p),
    ensures
        forall|k: int, l: int|
            0 <= k < l < p.len() ==> if ascending {
                !key_less(#[trigger] rows_at(items, p)[l], #[trigger] rows_at(items, p)[k], idx)
            } else {
                !key_less(rows_at(items, p)[k], rows_at(items, p)[l], idx)
            },
{
    assert forall|k: int, l: int| 0 <= k < l < p.len() implies if ascending {
        !key_less(#[trigger] rows_at(items, p)[l], #[trigger] rows_at(items, p)[k], idx)
    } else {
        !key_less(rows_at(items, p)[k], rows_at(items, p)[l], idx)
    } by {
        let (a, b) = (items[p[k] as int], items[p[l] as int]);
        assert(sorts_before(items, idx, ascending, p[k] as int, p[l] as int));
        lemma_text_less_asymmetric(text_key(a, idx), text_key(b, idx));
        lemma_text_less_asymmetric(text_key(b, idx), text_key(a, idx));
    }
}

/// Sorting by name, a list whose names are all ASCII comes out with the
/// ASCII-lowercased names in order of their characters, whatever the case of
/// the letters: non-decreasing ascending (so `"_a.txt"` comes before
/// `"b.txt"`, as `'_'` is below `'b'`), non-increasing descending.
pub proof fn lemma_sort_by_ascii_name(items: Seq<ListViewItem>, ascending: bool, p: Seq<usize>)
    requires
        sorted_order(items, 0, ascending, p),
        forall|k: int| 0 <= k < items.len() ==> is_ascii_text(#[trigger] items[k].name@),
    ensures
        forall|k: int, l: int|
            0 <= k < l < p.len() ==> if ascending {
                !text_less(
                    ascii_lowercase(#[trigger] rows_at(items, p)[l].name@),
                    ascii_lowercase(#[trigger] rows_at(items, p)[k].name@),
                )
            } else {
                !text_less(ascii_lowercase(rows_at(items, p)[k].name@), ascii_lowercase(rows_at(items, p)[l].name@))
            },
{
    lemma_sorted_rows_ordered(items, 0, ascending, p);
    assert forall|k: int, l: int| 0 <= k < l < p.len() implies if ascending {
        !text_less(
            ascii_lowercase(#[trigger] rows_at(items, p)[l].name@),
            ascii_lowercase(#[trigger] rows_at(items, p)[k].name@),
        )
    } else {
        !text_less(ascii_lowercase(rows_at(items, p)[k].name@), ascii_lowercase(rows_at(items, p)[l].name@))
    } by {
        assert(rows_at(items, p)[k] == items[p[k] as int]);
        assert(rows_at(items, p)[l] == items[p[l] as int]);
        assert(is_ascii_text(items[p[k] as int].name@));
        assert(is_ascii_text(items[p[l] as int].name@));
    }
}

/// The characters of the key by which column `idx` sorts the row (empty
/// for the size column).
fn key_chars(item: &ListViewItem, idx: i32) -> (r: Vec<char>)
    ensures
        idx != 1 ==> r@ == text_key(*item, idx),
{
    if idx == 0 {
        let name = chars_of(item.name.as_str());
        if all_ascii(&name) {
            ascii_lowercase_of(&name)
        } else {
            let lower = to_lowercase(item.name.as_str());
            chars_of(lower.as_str())
        }
    } else if idx == 2 {
        chars_of(item.create_time.as_str())
    } else if idx == 1 {
        Vec::new()
    } else {
        chars_of(item.modified_time.as_str())
    }
}

/// Does position `x` sort before position `y`?
fn sorts_before_exec(
    items: &Vec<ListViewItem>,
    keys: &Vec<Vec<char>>,
    idx: i32,
    ascending: bool,
    x: usize,
    y: usize,
) -> (r: bool)
    requires
        x < items.len(),
        y < items.len(),
        keys.len() == items.len(),
        idx != 1 ==> forall|k: int| 0 <= k < items.len() ==> #[trigger] keys@[k]@ == text_key(items@[k], idx),
    ensures
        r == sorts_before(items@, idx, ascending, x as int, y as int),
{
    let (lt, gt) = if idx == 1 {
        (items[x].size < items[y].size, items[y].size < items[x].size)
    } else {
        (str_less(&keys[x], &keys[y]), str_less(&keys[y], &keys[x]))
    };
    proof {
        let (a, b) = (text_key(items@[x as int], idx), text_key(items@[y as int], idx));
        lemma_text_less_total(a, b);
        lemma_text_less_asymmetric(a, b);
    }
    if ascending {
        lt || (!gt && !lt && x < y)
    } else {
        gt || (!gt && !lt && x < y)
    }
}

/// "Sort by": the rows sorted by column `idx` (0 the name, ignoring case;
/// 1 the size; 2 the creation time; any other the modification time),
/// ascending or descending, rows with the same key keeping their order.
pub fn sort_by(items: &Vec<ListViewItem>, idx: i32, ascending: bool) -> (r: Vec<ListViewItem>)
    ensures
        exists|p: Seq<usize>| sorted_order(items@, idx, ascending, p) && r@ == rows_at(items@, p),
        r.len() == items.len(),
        idx == 0 && (forall|k: int| 0 <= k < items.len() ==> is_ascii_text(#[trigger] items@[k].name@))
            ==> forall|k: int, l: int|
            0 <= k < l < r.len() ==> if ascending {
                !text_less(ascii_lowercase(#[trigger] r@[l].name@), ascii_lowercase(#[trigger] r@[k].name@))
            } else {
                !text_less(ascii_lowercase(r@[k].name@), ascii_lowercase(r@[l].name@))
            },
        idx == 1 ==> forall|k: int, l: int|
            0 <= k < l < r.len() ==> if ascending {
                (#[trigger] r@[k]).size <= (#[trigger] r@[l]).size
            } else {
                r@[k].size >= r@[l].size
            },
        forall|k: int, l: int|
            0 <= k < l < r.len() ==> if ascending {
                !key_less(#[trigger] r@[l], #[trigger] r@[k], idx)
            } else {
                !key_less(r@[k], r@[l], idx)
            },
{
    let n = items.len();
    let mut keys: Vec<Vec<char>> = Vec::new();
    let mut i: usize = 0;
    while i < n
        invariant
            n == items.len(),
            i <= n,
            keys.len() == i,
            idx != 1 ==> forall|k: int| 0 <= k < i ==> #[trigger] keys@[k]@ == text_key(items@[k], idx),
        decreases n - i,
    {
        keys.push(key_chars(&items[i], idx));
        i = i + 1;
    }
    let mut order: Vec<usize> = Vec::new();
    let mut i: usize = 0;
    while i < n
        invariant
            n == items.len(),
            i <= n,
            keys.len() == n,
            idx != 1 ==> forall|k: int| 0 <= k < n ==> #[trigger] keys@[k]@ == text_key(items@[k], idx),
            order.len() == i,
            forall|k: int| 0 <= k < order.len() ==> order@[k] < i,
            forall|k: int, l: int| 0 <= k < l < order.len() ==> order@[k] != order@[l],
            forall|k: int, l: int|
                0 <= k < l < order.len() ==> sorts_before(
                    items@,
                    idx,
                    ascending,
                    order@[k] as int,
                    order@[l] as int,
                ),
        decreases n - i,
    {
        let mut j = order.len();
        while j > 0 && sorts_before_exec(items, &keys, idx, ascending, i, order[j - 1])
            invariant
                n == items.len(),
                i < n,
                keys.len() == n,
                idx != 1 ==> forall|k: int| 0 <= k < n ==> #[trigger] keys@[k]@ == text_key(items@[k], idx),
                order.len() == i,
                forall|k: int| 0 <= k < order.len() ==> order@[k] < i,
                j <= order.len(),
                forall|m: int|
                    j <= m < order.len() ==> sorts_before(items@, idx, ascending, i as int, #[trigger] order@[m] as int),
            decreases j,
        {
            j = j - 1;
        }
        let ghost old_order = order@;
        proof {
            if j > 0 {
                lemma_sorts_before_total(items@, idx, ascending, i as int, old_order[j - 1] as int);
                assert forall|k: int| 0 <= k < j implies sorts_before(
                    items@,
                    idx,
                    ascending,
                    #[trigger] old_order[k] as int,
                    i as int,
                ) by {
                    if k < j - 1 {
                        lemma_sorts_before_transitive(
                            items@,
                            idx,
                            ascending,
                            old_order[k] as int,
                            old_order[j - 1] as int,
                            i as int,
                        );
                    }
                }
            }
        }
        order.insert(j, i);
        assert forall|k: int, l: int| 0 <= k < l < order.len() implies sorts_before(
            items@,
            idx,
            ascending,
            order@[k] as int,
            order@[l] as int,
        ) by {
            if l < j {
                assert(order@[k] == old_order[k] && order@[l] == old_order[l]);
            } else if l == j {
                assert(order@[k] == old_order[k]);
            } else if k < j {
                assert(order@[k] == old_order[k] && order@[l] == old_order[l - 1]);
                assert(sorts_before(items@, idx, ascending, i as int, old_order[l - 1] as int));
                lemma_sorts_before_transitive(
                    items@,
                    idx,
                    ascending,
                    old_order[k] as int,
                    i as int,
                    old_order[l - 1] as int,
                );
            } else if k == j {
                assert(order@[l] == old_order[l - 1]);
            } else {
                assert(order@[k] == old_order[k - 1] && order@[l] == old_order[l - 1]);
            }
        }
        assert forall|k: int, l: int| 0 <= k < l < order.len() implies order@[k] != order@[l] by {
            if k < j && l > j {
                assert(order@[k] == old_order[k] && order@[l] == old_order[l - 1]);
            } else if k > j {
                assert(order@[k] == old_order[k - 1] && order@[l] == old_order[l - 1]);
            } else if l < j {
                assert(order@[k] == old_order[k] && order@[l] == old_order[l]);
            } else if k == j {
                assert(order@[l] == old_order[l - 1]);
            } else {
                assert(order@[k] == old_order[k]);
            }
        }
        assert forall|k: int| 0 <= k < order.len() implies order@[k] < i + 1 by {
            if k < j {
                assert(order@[k] == old_order[k]);
            } else if k > j {
                assert(order@[k] == old_order[k - 1]);
            }
        }
        i = i + 1;
    }
    let mut r: Vec<ListViewItem> = Vec::new();
    let mut k: usize = 0;
    while k < n
        invariant
            n == items.len(),
            order.len() == n,
            forall|m: int| 0 <= m < order.len() ==> order@[m] < n,
            k <= n,
            r@ == rows_at(items@, order@.take(k as int)),
        decreases n - k,
    {
        r.push(items[order[k]].duplicate());
        k = k + 1;
        assert(r@ =~= rows_at(items@, order@.take(k as int)));
    }
    assert(order@.take(n as int) =~= order@);
    assert(sorted_order(items@, idx, ascending, order@));
    proof {
        lemma_sorted_rows_ordered(items@, idx, ascending, order@);
        if idx == 0 && (forall|k: int| 0 <= k < items.len() ==> is_ascii_text(#[trigger] items@[k].name@)) {
            lemma_sort_by_ascii_name(items@, ascending, order@);
        }
    }
    r
}

/// The rows of `s` fall apart into its shown and its hidden rows.
proof fn lemma_shown_hidden_split(s: Seq<ListViewItem>)
    ensures
        shown_rows(s).len() + hidden_rows(s).len() == s.len(),
        forall|k: int| 0 <= k < shown_rows(s).len() ==> (#[trigger] shown_rows(s)[k]).show,
        forall|k: int| 0 <= k < hidden_rows(s).len() ==> !(#[trigger] hidden_rows(s)[k]).show,
        (forall|k: int| 0 <= k < s.len() ==> !(#[trigger] s[k]).show) ==> shown_rows(s).len() == 0
            && hidden_rows(s) == s,
    decreases s.len(),
{
    if s.len() > 0 {
        lemma_shown_hidden_split(s.drop_last());
        if forall|k: int| 0 <= k < s.len() ==> !(#[trigger] s[k]).show {
            assert(forall|k: int| 0 <= k < s.drop_last().len() ==> !(#[trigger] s.drop_last()[k]).show);
            assert(!s.last().show);
            assert(hidden_rows(s) =~= s);
        }
    }
}

/// Every shown or hidden row of `s` is a row of `s`.
proof fn lemma_parts_from(s: Seq<ListViewItem>)
    ensures
        forall|k: int| 0 <= k < shown_rows(s).len() ==> exists|j: int| 0 <= j < s.len() && #[trigger] shown_rows(s)[k] == s[j],
        forall|k: int| 0 <= k < hidden_rows(s).len() ==> exists|j: int| 0 <= j < s.len() && #[trigger] hidden_rows(s)[k] == s[j],
    decreases s.len(),
{
    if s.len() > 0 {
        let t = s.drop_last();
        lemma_parts_from(t);
        assert forall|k: int| 0 <= k < shown_rows(s).len() implies exists|j: int| 0 <= j < s.len() && #[trigger] shown_rows(s)[k] == s[j] by {
            if k < shown_rows(t).len() {
                let j = choose|j: int| 0 <= j < t.len() && shown_rows(t)[k] == t[j];
                assert(s[j] == t[j]);
            } else {
                assert(shown_rows(s)[k] == s[s.len() - 1]);
            }
        }
        assert forall|k: int| 0 <= k < hidden_rows(s).len() implies exists|j: int| 0 <= j < s.len() && #[trigger] hidden_rows(s)[k] == s[j] by {
            if k < hidden_rows(t).len() {
                let j = choose|j: int| 0 <= j < t.len() && hidden_rows(t)[k] == t[j];
                assert(s[j] == t[j]);
            } else {
                assert(hidden_rows(s)[k] == s[s.len() - 1]);
            }
        }
    }
}

/// The row that a search for a non-empty `text` makes of `item`: shown
/// exactly when its name contains the text, checked when it was checked or
/// is shown, every other field as it was.
pub open spec fn searched_row(item: ListViewItem, text: Seq<char>) -> ListViewItem {
    ListViewItem {
        show: contains_text(item.name@, text),
        checked: item.checked || contains_text(item.name@, text),
        ..item
    }
}

/// A search for a non-empty text shows a row exactly when the row's name
/// contains the text, and checks every row it shows. Each row of the result
/// is a row of the list with only its `show` and `checked` changed, and these
/// depend on nothing but the row's name and its old check mark.
pub proof fn lemma_search_marks_by_name(items: Seq<ListViewItem>, text: Seq<char>)
    requires
        text.len() > 0,
    ensures
        forall|k: int|
            0 <= k < search_result(items, text).len() ==> (#[trigger] search_result(items, text)[k]).show
                == contains_text(search_result(items, text)[k].name@, text),
        forall|k: int|
            0 <= k < search_result(items, text).len() ==> (#[trigger] search_result(items, text)[k]).show
                ==> search_result(items, text)[k].checked,
        forall|k: int|
            0 <= k < search_result(items, text).len() ==> exists|j: int|
                0 <= j < items.len() && #[trigger] search_result(items, text)[k] == searched_row(items[j], text),
{
    let marked = items.map_values(|x: ListViewItem| search_marked(x, text));
    lemma_parts_from(marked);
    let r = search_result(items, text);
    let m = shown_rows(marked).len() as int;
    assert forall|k: int| 0 <= k < r.len() implies exists|j: int| 0 <= j < items.len() && #[trigger] r[k] == searched_row(items[j], text) by {
        let j = if k < m {
            assert(r[k] == shown_rows(marked)[k]);
            choose|j: int| 0 <= j < marked.len() && shown_rows(marked)[k] == marked[j]
        } else {
            assert(r[k] == hidden_rows(marked)[k - m]);
            choose|j: int| 0 <= j < marked.len() && hidden_rows(marked)[k - m] == marked[j]
        };
        assert(r[k] == marked[j]);
        assert(marked[j] == searched_row(items[j], text));
    }
    assert forall|k: int| 0 <= k < r.len() implies (#[trigger] r[k]).show == contains_text(r[k].name@, text)
        && (r[k].show ==> r[k].checked) by {
        let j = choose|j: int| 0 <= j < items.len() && r[k] == searched_row(items[j], text);
    }
}

/// How many rows a search for `text` shows.
pub open spec fn shown_count(items: Seq<ListViewItem>, text: Seq<char>) -> int {
    shown_rows(items.map_values(|x: ListViewItem| search_marked(x, text))).len() as int
}

/// A search keeps every row: the result has as many rows as the list, the
/// shown rows first and then the others.
pub proof fn lemma_search_keeps_rows(items: Seq<ListViewItem>, text: Seq<char>)
    ensures
        search_result(items, text).len() == items.len(),
        0 <= shown_count(items, text) <= items.len(),
        forall|k: int|
            0 <= k < items.len() ==> (#[trigger] search_result(items, text)[k]).show == (k
                < shown_count(items, text)),
{
    let marked = items.map_values(|x: ListViewItem| search_marked(x, text));
    lemma_shown_hidden_split(marked);
    let m = shown_count(items, text);
    assert forall|k: int| 0 <= k < items.len() implies (#[trigger] search_result(items, text)[k]).show == (k < m) by {
        if k < m {
            assert(search_result(items, text)[k] == shown_rows(marked)[k]);
        } else {
            assert(search_result(items, text)[k] == hidden_rows(marked)[k - m]);
        }
    }
}

/// Searching for the empty text hides every row and keeps the order and the
/// check marks of the list.
pub proof fn lemma_search_empty_text(items: Seq<ListViewItem>)
    ensures
        search_result(items, Seq::empty()) == items.map_values(|x: ListViewItem| ListViewItem { show: false, ..x }),
{
    let marked = items.map_values(|x: ListViewItem| search_marked(x, Seq::empty()));
    lemma_shown_hidden_split(marked);
    assert(shown_rows(marked) + hidden_rows(marked) =~= marked);
    assert(marked =~= items.map_values(|x: ListViewItem| ListViewItem { show: false, ..x }));
}

/// Every position below `n` occurs in `p`, which lists `n` different
/// positions below `n`.
proof fn lemma_order_covers(p: Seq<usize>, n: int, x: int)
    requires
        p.len() == n,
        forall|k: int| 0 <= k < n ==> p[k] < n,
        forall|k: int, l: int| 0 <= k < l < n ==> p[k] != p[l],
        0 <= x < n,
    ensures
        exists|k: int| 0 <= k < n && p[k] == x,
{
    let ip = p.map_values(|v: usize| v as int);
    assert(ip.no_duplicates()) by {
        assert forall|i: int, j: int| 0 <= i < ip.len() && 0 <= j < ip.len() && i != j implies ip[i] != ip[j] by {
            if i < j {
                assert(p[i] != p[j]);
            } else {
                assert(p[j] != p[i]);
            }
        }
    }
    ip.unique_seq_to_set();
    lemma_int_range(0, n);
    assert(ip.to_set().subset_of(set_int_range(0, n)));
    lemma_subset_equality(ip.to_set(), set_int_range(0, n));
    assert(set_int_range(0, n).contains(x));
    assert(ip.to_set().contains(x));
    let k = choose|k: int| 0 <= k < ip.len() && ip[k] == x;
    assert(p[k] == x);
}

/// Two sorted orders of the same list agree on their first `k + 1` positions.
proof fn lemma_sorted_prefix_equal(
    items: Seq<ListViewItem>,
    idx: i32,
    ascending: bool,
    p: Seq<usize>,
    q: Seq<usize>,
    k: int,
)
    requires
        sorted_order(items, idx, ascending, p),
        sorted_order(items, idx, ascending, q),
        0 <= k < p.len(),
    ensures
        forall|j: int| 0 <= j <= k ==> p[j] == q[j],
    decreases k,
{
    let n = p.len() as int;
    if k > 0 {
        lemma_sorted_prefix_equal(items, idx, ascending, p, q, k - 1);
    }
    lemma_order_covers(p, n, q[k] as int);
    lemma_order_covers(q, n, p[k] as int);
    let l = choose|l: int| 0 <= l < n && p[l] == q[k];
    let m = choose|m: int| 0 <= m < n && q[m] == p[k];
    if p[k] != q[k] {
        if l < k {
            assert(p[l] == q[l]);
        }
        if m < k {
            assert(q[m] == p[m]);
        }
        assert(l > k && m > k);
        assert(sorts_before(items, idx, ascending, p[k] as int, p[l] as int));
        assert(sorts_before(items, idx, ascending, q[k] as int, q[m] as int));
        lemma_sorts_before_asymmetric(items, idx, ascending, p[k] as int, q[k] as int);
    }
}

/// There is only one sorted order of a list: rows with the same key keep
/// their order, so sorting by a column gives one result.
pub proof fn lemma_sorted_order_unique(
    items: Seq<ListViewItem>,
    idx: i32,
    ascending: bool,
    p: Seq<usize>,
    q: Seq<usize>,
)
    requires
        sorted_order(items, idx, ascending, p),
        sorted_order(items, idx, ascending, q),
    ensures
        p == q,
{
    if p.len() > 0 {
        lemma_sorted_prefix_equal(items, idx, ascending, p, q, p.len() - 1);
    }
    assert(p =~= q);
}

/// The checked rows of `s`, in their order.
pub open spec fn checked_rows(s: Seq<ListViewItem>) -> Seq<ListViewItem>
    decreases s.len(),
{
    if s.len() == 0 {
        s
    } else if s.last().checked {
        checked_rows(s.drop_last()).push(s.last())
    } else {
        checked_rows(s.drop_last())
    }
}

/// The checked rows are exactly the rows whose check mark is set, in the
/// order of the list.
pub proof fn lemma_checked_rows_are_filter(s: Seq<ListViewItem>)
    ensures
        checked_rows(s) == s.filter(|x: ListViewItem| x.checked),
    decreases s.len(),
{
    reveal_with_fuel(Seq::filter, 1);
    if s.len() > 0 {
        lemma_checked_rows_are_filter(s.drop_last());
    }
}

/// The files that the checked rows of `items` stand for.
pub open spec fn checked_files(items: Seq<ListViewItem>) -> Seq<FileInfoView> {
    checked_rows(items).map_values(|x: ListViewItem| file_info_of(x@))
}

/// The kilobytes of a file as the progress bar counts them: its size in
/// whole kilobytes, cut to `i32`.
pub open spec fn file_kb(f: FileInfoView) -> int {
    ((f.size / 1024) as i32) as int
}

/// The sum of the kilobytes of the files.
pub open spec fn kb_total(fs: Seq<FileInfoView>) -> int
    decreases fs.len(),
{
    if fs.len() == 0 {
        0
    } else {
        kb_total(fs.drop_last()) + file_kb(fs.last())
    }
}

/// The path of the file `name` in the folder `dir`.
pub open spec fn joined_path(dir: Seq<char>, name: Seq<char>) -> Seq<char> {
    dir + "/"@ + name
}

/// One file to copy: where from, where to, and the status to leave in the
/// shared progress when it is done.
#[derive(Debug, Clone)]
pub struct CopyJob {
    pub source: String,
    pub target: String,
    pub state: ProgressStatus,
}

/// What "copy" sets off: the progress bar to show at once, the update that
/// starts the shared progress (none when no row is checked), and the files
/// to copy, in order.
#[derive(Debug, Clone)]
pub struct CopyPlan {
    pub progress_bar: ListItemProgress,
    pub start: Option<ProgressUpdate>,
    pub jobs: Vec<CopyJob>,
}

/// The path of the file `name` in the folder `dir`.
pub fn join_path(dir: &str, name: &str) -> (r: String)
    ensures
        r@ == joined_path(dir@, name@),
{
    dir.to_owned().concat("/").concat(name)
}

/// "Copy": plans copying the checked rows from the folder `origin` to the
/// folder `target`. Each checked row becomes a file of its megabytes; the
/// progress bar's total is the sum of the files' kilobytes. The sum is taken
/// in `i32` and must not overflow on the way, and when some row is checked it
/// must not be negative, as it is turned into bytes in `u64`.
pub fn plan_copy(items: &Vec<ListViewItem>, origin: &str, target: &str) -> (r: CopyPlan)
    requires
        forall|k: int| 0 <= k < checked_rows(items@).len() ==> #[trigger] checked_rows(items@)[k].size >= 0,
        forall|k: int|
            0 <= k <= checked_files(items@).len() ==> i32::MIN <= #[trigger] kb_total(
                checked_files(items@).take(k),
            ) <= i32::MAX,
        checked_rows(items@).len() > 0 ==> kb_total(checked_files(items@)) >= 0,
    ensures
        r.progress_bar == (ListItemProgress { moved: 0, total: kb_total(checked_files(items@)) as i32, status: 0 }),
        checked_rows(items@).len() == 0 ==> r.start is None,
        checked_rows(items@).len() > 0 ==> r.start == Some(
            ProgressUpdate {
                moved: StaticVarsType::Update(0),
                total: StaticVarsType::Update((kb_total(checked_files(items@)) * 1024) as u64),
                status: StaticVarsType::Update(ProgressStatus::Start),
            },
        ),
        r.jobs.len() == checked_rows(items@).len(),
        r.jobs.len() == items@.filter(|x: ListViewItem| x.checked).len(),
        forall|i: int|
            0 <= i < r.jobs.len() ==> (#[trigger] r.jobs@[i]).source@ == joined_path(
                origin@,
                items@.filter(|x: ListViewItem| x.checked)[i].name@,
            ),
        forall|i: int|
            0 <= i < r.jobs.len() ==> {
                &&& (#[trigger] r.jobs@[i]).source@ == joined_path(origin@, checked_rows(items@)[i].name@)
                &&& r.jobs@[i].target@ == joined_path(target@, checked_rows(items@)[i].name@)
                &&& r.jobs@[i].state == if i == r.jobs.len() {
                    ProgressStatus::Finish
                } else {
                    ProgressStatus::Continue
                }
            },
        forall|i: int| 0 <= i < r.jobs.len() ==> (#[trigger] r.jobs@[i]).state == ProgressStatus::Continue,
{
    proof {
        lemma_checked_rows_are_filter(items@);
    }
    let ghost rows = checked_rows(items@);
    let ghost files = checked_files(items@);
    let mut chosen: Vec<FileInfo> = Vec::new();
    let mut data_size: i32 = 0;
    let mut i: usize = 0;
    while i < items.len()
        invariant
            i <= items.len(),
            rows == checked_rows(items@),
            files == checked_files(items@),
            forall|k: int| 0 <= k < rows.len() ==> #[trigger] rows[k].size >= 0,
            forall|k: int|
                0 <= k <= files.len() ==> i32::MIN <= #[trigger] kb_total(files.take(k)) <= i32::MAX,
            chosen@.map_values(|f: FileInfo| f@) == checked_rows(items@.take(i as int)).map_values(
                |x: ListViewItem| file_info_of(x@),
            ),
            checked_rows(items@.take(i as int)) == rows.take(checked_rows(items@.take(i as int)).len() as int),
            checked_rows(items@.take(i as int)).len() <= rows.len(),
            data_size == kb_total(chosen@.map_values(|f: FileInfo| f@)),
        decreases items.len() - i,
    {
        proof {
            lemma_checked_rows_prefix(items@, i as int);
            lemma_checked_rows_prefix(items@, i + 1);
        }
        assert(items@.take(i + 1).drop_last() =~= items@.take(i as int));
        assert(items@.take(i + 1).last() == items@[i as int]);
        if items[i].checked {
            let ghost c: int = checked_rows(items@.take(i as int)).len() as int;
            assert(checked_rows(items@.take(i + 1)) == checked_rows(items@.take(i as int)).push(items@[i as int]));
            assert(checked_rows(items@.take(i + 1))[c] == rows[c]);
            assert(rows[c] == items@[i as int]);
            let f = FileInfo::from_list_item(items[i].duplicate());
            let ghost before = chosen@.map_values(|f: FileInfo| f@);
            assert(files.take(c + 1) =~= before.push(f@));
            assert(files.take(c + 1).drop_last() =~= before);
            let kb = (f.size / 1024) as i32;
            assert(c + 1 <= files.len());
            assert(kb_total(files.take(c + 1)) == kb_total(before) + file_kb(f@));
            assert(i32::MIN <= kb_total(files.take(c + 1)) <= i32::MAX);
            data_size = data_size + kb;
            chosen.push(f);
            assert(chosen@.map_values(|f: FileInfo| f@) =~= before.push(f@));
        }
        i = i + 1;
    }
    assert(items@.take(items.len() as int) =~= items@);
    assert(files =~= chosen@.map_values(|f: FileInfo| f@));
    let count = chosen.len();
    let start = if count > 0 {
        Some(
            ProgressUpdate {
                moved: StaticVarsType::Update(0),
                total: StaticVarsType::Update((data_size as u64) * 1024),
                status: StaticVarsType::Update(ProgressStatus::Start),
            },
        )
    } else {
        None
    };
    let mut jobs: Vec<CopyJob> = Vec::new();
    let mut k: usize = 0;
    while k < count
        invariant
            count == chosen.len(),
            count == rows.len(),
            rows == checked_rows(items@),
            chosen@.map_values(|f: FileInfo| f@) == rows.map_values(|x: ListViewItem| file_info_of(x@)),
            k <= count,
            jobs.len() == k,
            forall|m: int|
                0 <= m < k ==> {
                    &&& (#[trigger] jobs@[m]).source@ == joined_path(origin@, rows[m].name@)
                    &&& jobs@[m].target@ == joined_path(target@, rows[m].name@)
                    &&& jobs@[m].state == if m == count {
                        ProgressStatus::Finish
                    } else {
                        ProgressStatus::Continue
                    }
                },
        decreases count - k,
    {
        let each = &chosen[k];
        assert(chosen@.map_values(|f: FileInfo| f@)[k as int] == file_info_of(rows[k as int]@));
        let state = if k == count {
            ProgressStatus::Finish
        } else {
            ProgressStatus::Continue
        };
        jobs.push(
            CopyJob {
                source: join_path(origin, each.name.as_str()),
                target: join_path(target, each.name.as_str()),
                state: state,
            },
        );
        k = k + 1;
    }
    CopyPlan { progress_bar: ListItemProgress { moved: 0, total: data_size, status: 0 }, start: start, jobs: jobs }
}

/// The checked rows of a prefix of `s` are a prefix of the checked rows of `s`.
proof fn lemma_checked_rows_prefix(s: Seq<ListViewItem>, i: int)
    requires
        0 <= i <= s.len(),
    ensures
        checked_rows(s.take(i)).len() <= checked_rows(s).len(),
        checked_rows(s.take(i)) == checked_rows(s).take(checked_rows(s.take(i)).len() as int),
    decreases s.len() - i,
{
    if i == s.len() {
        assert(s.take(i) =~= s);
    } else {
        lemma_checked_rows_prefix(s, i + 1);
        assert(s.take(i + 1).drop_last() =~= s.take(i));
        let a = checked_rows(s.take(i));
        let b = checked_rows(s.take(i + 1));
        let all = checked_rows(s);
        if s[i].checked {
            assert(b == a.push(s[i]));
            assert(a =~= b.take(a.len() as int));
            assert(all.take(b.len() as int).take(a.len() as int) =~= all.take(a.len() as int));
        } else {
            assert(b == a);
        }
    }
}

} // verus!
