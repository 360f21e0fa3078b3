//! Lists: markers, indentation and the item tree.
use vstd::prelude::*;

use crate::inline::{parse_chars, parse_inlines};
use crate::lines::{all_digits, find_pair, index_of_pair, is_digit, lines_view};
use crate::model::{
    lemma_view_items_push, view_item, view_items, ListItem, ListItemV, ListMarker,
};
use crate::text::{leading_ws, slice, trim, trim_chars, trim_start};

verus! {

pub open spec fn marker_of(c: char) -> Option<ListMarker> {
    if c == '-' {
        Some(ListMarker::Static)
    } else if c == '+' {
        Some(ListMarker::NextStep)
    } else if c == '*' {
        Some(ListMarker::WithPrev)
    } else {
        None
    }
}

/// Whether the trimmed line `t` opens an unordered item: `-`, `+` or `*`, then a space.
pub open spec fn is_list_start(t: Seq<char>) -> bool {
    t.len() >= 2 && marker_of(t[0]) is Some && t[1] == ' '
}

/// Whether the trimmed line `t` looks like an ordered item: digits, then `. `.
pub open spec fn is_ordered_start(t: Seq<char>) -> bool {
    match index_of_pair(t, '.', ' ') {
        Some(d) => d > 0 && all_digits(trim(t.subrange(0, d))),
        None => false,
    }
}

pub open spec fn unordered_item(t: Seq<char>) -> Option<(Seq<char>, ListMarker)> {
    if t.len() >= 2 && t[1] == ' ' && marker_of(t[0]) is Some {
        Some((t.subrange(2, t.len() as int), marker_of(t[0])->0))
    } else {
        None
    }
}

pub open spec fn ordered_item(t: Seq<char>) -> Option<(Seq<char>, ListMarker)> {
    match index_of_pair(t, '.', ' ') {
        Some(d) => if d > 0 && all_digits(t.subrange(0, d)) {
            Some((t.subrange(d + 2, t.len() as int), ListMarker::Ordered))
        } else {
            None
        },
        None => None,
    }
}

pub open spec fn any_item(t: Seq<char>) -> Option<(Seq<char>, ListMarker)> {
    match unordered_item(t) {
        Some(x) => Some(x),
        None => ordered_item(t),
    }
}

/// Width of the leading whitespace of `line`.
pub open spec fn indent(line: Seq<char>) -> int {
    line.len() - trim_start(line).len()
}

/// Index of the first non-blank line at or after `i`.
pub open spec fn next_nonblank(ls: Seq<Seq<char>>, i: int) -> int
    decreases ls.len() - i,
{
    if i < 0 || i >= ls.len() {
        ls.len() as int
    } else if trim(ls[i]).len() == 0 {
        next_nonblank(ls, i + 1)
    } else {
        i
    }
}

pub open spec fn item_v(text: Seq<char>, marker: ListMarker, children: Seq<ListItemV>) -> ListItemV {
    ListItemV { marker, inlines: parse_inlines(text), children }
}

/// The items nested deeper than `parent`, from line `i`: the items found so
/// far are `acc`; returns the items and the first line not taken.
pub open spec fn children_scan(ls: Seq<Seq<char>>, i: int, parent: int, acc: Seq<ListItemV>) -> (
    Seq<ListItemV>,
    int,
)
    decreases ls.len() - i, 0int,
{
    if i < 0 || i >= ls.len() {
        (acc, i)
    } else if trim(ls[i]).len() == 0 {
        children_scan(ls, i + 1, parent, acc)
    } else if indent(ls[i]) <= parent {
        (acc, i)
    } else {
        match any_item(trim(ls[i])) {
            Some((text, marker)) => {
                let sub = collect(ls, i + 1, indent(ls[i]));
                let item = item_v(text, marker, sub.0);
                if i < sub.1 <= ls.len() {
                    children_scan(ls, sub.1, parent, acc.push(item))
                } else {
                    (acc.push(item), sub.1)
                }
            },
            None => (acc, i),
        }
    }
}

/// The subtree of items nested deeper than `parent`, starting at line `i`.
pub open spec fn collect(ls: Seq<Seq<char>>, i: int, parent: int) -> (Seq<ListItemV>, int)
    decreases ls.len() - i, 1int,
{
    children_scan(ls, i, parent, Seq::empty())
}

/// `acc` with `x` added to the children of its last item (unchanged when empty).
pub open spec fn add_child(acc: Seq<ListItemV>, x: ListItemV) -> Seq<ListItemV> {
    if acc.len() == 0 {
        acc
    } else {
        acc.update(
            acc.len() - 1,
            ListItemV {
                marker: acc.last().marker,
                inlines: acc.last().inlines,
                children: acc.last().children.push(x),
            },
        )
    }
}

/// The top-level items of a list from line `i`, with `acc` found so far.
pub open spec fn list_scan(ls: Seq<Seq<char>>, i: int, ordered: bool, acc: Seq<ListItemV>) -> (
    Seq<ListItemV>,
    int,
)
    decreases ls.len() - i,
{
    if i < 0 || i >= ls.len() {
        (acc, i)
    } else if trim(ls[i]).len() == 0 {
        let j = next_nonblank(ls, i + 1);
        if i < j < ls.len() && (is_list_start(trim(ls[j])) || is_ordered_start(trim(ls[j]))) {
            list_scan(ls, j, ordered, acc)
        } else {
            (acc, i)
        }
    } else if indent(ls[i]) == 0 {
        let t = trim(ls[i]);
        match (if ordered {
            ordered_item(t)
        } else {
            unordered_item(t)
        }) {
            Some((text, marker)) => {
                let sub = collect(ls, i + 1, 0);
                let item = item_v(text, marker, sub.0);
                if i < sub.1 <= ls.len() {
                    list_scan(ls, sub.1, ordered, acc.push(item))
                } else {
                    (acc.push(item), sub.1)
                }
            },
            None => (acc, i),
        }
    } else {
        match any_item(trim(ls[i])) {
            Some((text, marker)) => list_scan(
                ls,
                i + 1,
                ordered,
                add_child(acc, item_v(text, marker, Seq::empty())),
            ),
            None => (acc, i),
        }
    }
}

pub fn is_list_start_line(t: &Vec<char>) -> (r: bool)
    ensures
        r == is_list_start(t@),
{
    t.len() >= 2 && (t[0] == '-' || t[0] == '+' || t[0] == '*') && t[1] == ' '
}

fn digits_only(s: &Vec<char>) -> (r: bool)
    ensures
        r == all_digits(s@),
{
    let mut i: usize = 0;
    while i < s.len()
        invariant
            i <= s.len(),
            forall|k: int| 0 <= k < i ==> is_digit(#[trigger] s@[k]),
        decreases s.len() - i,
    {
        if !('0' <= s[i] && s[i] <= '9') {
            return false;
        }
        i = i + 1;
    }
    true
}

pub fn is_ordered_start_line(t: &Vec<char>) -> (r: bool)
    ensures
        r == is_ordered_start(t@),
{
    match find_pair(t, '.', ' ') {
        Some(d) => d > 0 && digits_only(&trim_chars(&slice(t, 0, d))),
        None => false,
    }
}

fn marker_char(c: char) -> (r: Option<ListMarker>)
    ensures
        r == marker_of(c),
{
    if c == '-' {
        Some(ListMarker::Static)
    } else if c == '+' {
        Some(ListMarker::NextStep)
    } else if c == '*' {
        Some(ListMarker::WithPrev)
    } else {
        None
    }
}

fn extract_unordered_item(t: &Vec<char>) -> (r: Option<(Vec<char>, ListMarker)>)
    ensures
        match r {
            Some((text, m)) => unordered_item(t@) == Some((text@, m)),
            None => unordered_item(t@) is None,
        },
{
    if t.len() < 2 || t[1] != ' ' {
        return None;
    }
    match marker_char(t[0]) {
        Some(m) => Some((slice(t, 2, t.len()), m)),
        None => None,
    }
}

fn extract_ordered_item(t: &Vec<char>) -> (r: Option<(Vec<char>, ListMarker)>)
    ensures
        match r {
            Some((text, m)) => ordered_item(t@) == Some((text@, m)),
            None => ordered_item(t@) is None,
        },
{
    match find_pair(t, '.', ' ') {
        Some(d) => {
            if d > 0 && digits_only(&slice(t, 0, d)) {
                Some((slice(t, d + 2, t.len()), ListMarker::Ordered))
            } else {
                None
            }
        },
        None => None,
    }
}

fn extract_any_list_item(t: &Vec<char>) -> (r: Option<(Vec<char>, ListMarker)>)
    ensures
        match r {
            Some((text, m)) => any_item(t@) == Some((text@, m)),
            None => any_item(t@) is None,
        },
{
    match extract_unordered_item(t) {
        Some(x) => Some(x),
        None => extract_ordered_item(t),
    }
}

pub fn line_indent(line: &Vec<char>) -> (r: usize)
    ensures
        r == indent(line@),
{
    let a = leading_ws(line);
    a
}

fn make_item(text: &Vec<char>, marker: ListMarker, children: Vec<ListItem>) -> (r: ListItem)
    ensures
        view_item(r) == item_v(text@, marker, view_items(children@)),
{
    let inlines = parse_chars(text);
    ListItem { marker, inlines, children }
}

/// The items nested deeper than `parent_indent`, from line `start`, and the
/// first line not taken.
fn collect_children(ls: &Vec<Vec<char>>, start: usize, parent_indent: usize) -> (r: (
    Vec<ListItem>,
    usize,
))
    requires
        start <= ls.len(),
    ensures
        (view_items(r.0@), r.1 as int) == collect(lines_view(ls@), start as int, parent_indent as int),
        start <= r.1 <= ls.len(),
    decreases ls.len() - start,
{
    let ghost lv = lines_view(ls@);
    let mut children: Vec<ListItem> = Vec::new();
    let mut i = start;
    assert(view_items(children@) =~= Seq::<ListItemV>::empty());
    while i < ls.len()
        invariant
            start <= i <= ls.len(),
            lv == lines_view(ls@),
            children_scan(lv, i as int, parent_indent as int, view_items(children@)) == collect(
                lv,
                start as int,
                parent_indent as int,
            ),
        ensures
            start <= i <= ls.len(),
            (view_items(children@), i as int) == collect(lv, start as int, parent_indent as int),
        decreases ls.len() - i,
    {
        let line = &ls[i];
        assert(line@ == lv[i as int]);
        let t = trim_chars(line);
        if t.len() == 0 {
            i = i + 1;
            continue ;
        }
        let ind = line_indent(line);
        if ind <= parent_indent {
            break ;
        }
        match extract_any_list_item(&t) {
            Some((text, marker)) => {
                let (sub, e) = collect_children(ls, i + 1, ind);
                let item = make_item(&text, marker, sub);
                proof {
                    lemma_view_items_push(children@, item);
                }
                children.push(item);
                i = e;
            },
            None => {
                break ;
            },
        }
    }
    (children, i)
}

fn next_nonblank_line(ls: &Vec<Vec<char>>, start: usize) -> (r: usize)
    requires
        start <= ls.len(),
    ensures
        r as int == next_nonblank(lines_view(ls@), start as int),
        start <= r <= ls.len(),
{
    let ghost lv = lines_view(ls@);
    let mut j = start;
    while j < ls.len()
        invariant
            start <= j <= ls.len(),
            lv == lines_view(ls@),
            next_nonblank(lv, start as int) == next_nonblank(lv, j as int),
        ensures
            start <= j <= ls.len(),
            next_nonblank(lv, start as int) == j,
        decreases ls.len() - j,
    {
        assert(ls[j as int]@ == lv[j as int]);
        if trim_chars(&ls[j]).len() != 0 {
            break ;
        }
        j = j + 1;
    }
    j
}

fn add_child_item(items: &mut Vec<ListItem>, child: ListItem)
    ensures
        view_items(final(items)@) == add_child(view_items(old(items)@), view_item(child)),
{
    if items.len() == 0 {
        return ;
    }
    let ghost before = items@;
    let mut last = items.pop().unwrap();
    assert(before =~= items@.push(last));
    proof {
        lemma_view_items_push(items@, last);
        lemma_view_items_push(last.children@, child);
    }
    let ghost rest = items@;
    last.children.push(child);
    proof {
        lemma_view_items_push(rest, last);
    }
    items.push(last);
    assert(view_items(items@) =~= add_child(view_items(before), view_item(child)));
}

/// The items of a list that starts at line `start`, and the first line not taken.
pub fn parse_list(ls: &Vec<Vec<char>>, start: usize, ordered: bool) -> (r: (Vec<ListItem>, usize))
    requires
        start <= ls.len(),
    ensures
        (view_items(r.0@), r.1 as int) == list_scan(
            lines_view(ls@),
            start as int,
            ordered,
            Seq::empty(),
        ),
        start <= r.1 <= ls.len(),
{
    let ghost lv = lines_view(ls@);
    let mut items: Vec<ListItem> = Vec::new();
    let mut i = start;
    assert(view_items(items@) =~= Seq::<ListItemV>::empty());
    while i < ls.len()
        invariant
            start <= i <= ls.len(),
            lv == lines_view(ls@),
            list_scan(lv, i as int, ordered, view_items(items@)) == list_scan(
                lv,
                start as int,
                ordered,
                Seq::empty(),
            ),
        ensures
            start <= i <= ls.len(),
            (view_items(items@), i as int) == list_scan(lv, start as int, ordered, Seq::empty()),
        decreases ls.len() - i,
    {
        let line = &ls[i];
        assert(line@ == lv[i as int]);
        let t = trim_chars(line);
        if t.len() == 0 {
            let j = next_nonblank_line(ls, i + 1);
            if j < ls.len() {
                assert(ls[j as int]@ == lv[j as int]);
                let next = trim_chars(&ls[j]);
                if is_list_start_line(&next) || is_ordered_start_line(&next) {
                    i = j;
                    continue ;
                }
            }
            break ;
        }
        let ind = line_indent(line);
        if ind == 0 {
            let found = if ordered {
                extract_ordered_item(&t)
            } else {
                extract_unordered_item(&t)
            };
            match found {
                Some((text, marker)) => {
                    let (sub, e) = collect_children(ls, i + 1, 0);
                    let item = make_item(&text, marker, sub);
                    proof {
                        lemma_view_items_push(items@, item);
                    }
                    items.push(item);
                    i = e;
                },
                None => {
                    break ;
                },
            }
        } else {
            match extract_any_list_item(&t) {
                Some((text, marker)) => {
                    let empty: Vec<ListItem> = Vec::new();
                    assert(view_items(empty@) =~= Seq::<ListItemV>::empty());
                    let child = make_item(&text, marker, empty);
                    add_child_item(&mut items, child);
                    i = i + 1;
                },
                None => {
                    break ;
                },
            }
        }
    }
    (items, i)
}

} // verus!
