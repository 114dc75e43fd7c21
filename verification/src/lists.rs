//! Selecting from lists, and writing lists out.

use crate::text::{
    contains_text, join, join_of, lemma_contains_half, lemma_contains_itself, lines, lines_of, same,
    views, Text,
};
use vstd::prelude::*;

verus! {

/// The items behind references.
pub open spec fn items<T>(list: Seq<&T>) -> Seq<T> {
    list.map_values(|x: &T| *x)
}

/// The items of `list` of which `keep` holds, in order.
pub open spec fn kept<T>(list: Seq<T>, keep: spec_fn(T) -> bool) -> Seq<T>
    decreases list.len(),
{
    if list.len() == 0 {
        Seq::empty()
    } else if keep(list.last()) {
        kept(list.drop_last(), keep).push(list.last())
    } else {
        kept(list.drop_last(), keep)
    }
}

/// The first `n` items of `list`, or all of them where it is shorter.
pub open spec fn first_of<T>(list: Seq<T>, n: int) -> Seq<T> {
    if n < list.len() {
        list.take(n)
    } else {
        list
    }
}

/// What `line` writes of each item of `list`, one after another.
pub open spec fn written_out<T>(list: Seq<T>, line: spec_fn(T) -> Text) -> Text
    decreases list.len(),
{
    if list.len() == 0 {
        Seq::empty()
    } else {
        written_out(list.drop_last(), line) + line(list.last())
    }
}

/// What `line` writes of each item of `list` and its number, counted from one.
pub open spec fn numbered_out<T>(list: Seq<T>, line: spec_fn(nat, T) -> Text) -> Text
    decreases list.len(),
{
    if list.len() == 0 {
        Seq::empty()
    } else {
        numbered_out(list.drop_last(), line) + line(list.len(), list.last())
    }
}

/// The first `n` lines of `s`.
pub open spec fn head_lines_of(s: Text, n: int) -> Text {
    join_of(first_of(lines_of(s), n), "\n"@)
}

/// Whether `hit` holds of some item of `list`.
pub open spec fn any_of<T>(list: Seq<T>, hit: spec_fn(T) -> bool) -> bool {
    exists|i: int| 0 <= i < list.len() && hit(#[trigger] list[i])
}

/// Keeping items of a longer list only appends.
pub proof fn lemma_kept_grows<T>(list: Seq<T>, keep: spec_fn(T) -> bool, i: int)
    requires
        0 <= i <= list.len(),
    ensures
        kept(list.take(i), keep).len() <= kept(list, keep).len(),
        kept(list.take(i), keep) == kept(list, keep).take(kept(list.take(i), keep).len() as int),
        kept(list, keep).len() <= list.len(),
    decreases list.len(),
{
    if i < list.len() {
        let start = list.drop_last();
        lemma_kept_grows(start, keep, i);
        assert(start.take(i) == list.take(i));
        let a = kept(list.take(i), keep);
        assert(kept(list, keep).take(a.len() as int) == kept(start, keep).take(a.len() as int));
    } else {
        assert(list.take(i) == list);
        assert(kept(list, keep).take(kept(list, keep).len() as int) == kept(list, keep));
        if list.len() > 0 {
            lemma_kept_grows(list.drop_last(), keep, list.len() - 1);
        }
    }
}

/// Every item kept is an item of the list of which the condition holds.
pub proof fn lemma_kept_holds<T>(list: Seq<T>, keep: spec_fn(T) -> bool, i: int)
    requires
        0 <= i < kept(list, keep).len(),
    ensures
        keep(kept(list, keep)[i]),
        list.contains(kept(list, keep)[i]),
    decreases list.len(),
{
    let start = list.drop_last();
    if i < kept(start, keep).len() {
        lemma_kept_holds(start, keep, i);
        let k = choose|k: int| 0 <= k < start.len() && start[k] == kept(start, keep)[i];
        assert(list[k] == kept(list, keep)[i]);
    } else {
        assert(list[list.len() - 1] == kept(list, keep)[i]);
    }
}

/// An item of which the condition holds is kept.
pub proof fn lemma_kept_finds<T>(list: Seq<T>, keep: spec_fn(T) -> bool, i: int)
    requires
        0 <= i < list.len(),
        keep(list[i]),
    ensures
        kept(list, keep).len() > 0,
        kept(list, keep).contains(list[i]),
    decreases list.len(),
{
    let all = kept(list, keep);
    if i < list.len() - 1 {
        let start = list.drop_last();
        assert(start[i] == list[i]);
        lemma_kept_finds(start, keep, i);
        let k = choose|k: int| 0 <= k < kept(start, keep).len() && kept(start, keep)[k] == list[i];
        assert(all[k] == list[i]);
    } else {
        assert(all[all.len() - 1] == list[i]);
    }
}

/// Whether `set` holds `s`.
pub(crate) fn holds(set: &Vec<String>, s: &str) -> (r: bool)
    ensures
        r == views(set@).contains(s@),
{
    let ghost all = views(set@);
    let mut i: usize = 0;
    while i < set.len()
        invariant
            i <= set@.len() == all.len(),
            all == views(set@),
            forall|k: int| 0 <= k < i ==> #[trigger] all[k] != s@,
        decreases set@.len() - i,
    {
        assert(all[i as int] == set@[i as int]@);
        if same(set[i].as_str(), s) {
            return true;
        }
        i = i + 1;
    }
    false
}

/// References to the items of a list.
pub(crate) fn refs_of<'a, T>(list: &'a Vec<T>) -> (r: Vec<&'a T>)
    ensures
        items(r@) == list@,
        r@.len() == list@.len(),
{
    let mut refs: Vec<&'a T> = Vec::new();
    let mut i: usize = 0;
    assert(items(refs@) == list@.take(0));
    while i < list.len()
        invariant
            i <= list@.len(),
            refs@.len() == i,
            items(refs@) == list@.take(i as int),
        decreases list@.len() - i,
    {
        let ghost before = refs@;
        refs.push(&list[i]);
        assert(items(refs@) == items(before).push(list@[i as int]));
        assert(list@.take(i + 1) == list@.take(i as int).push(list@[i as int]));
        i = i + 1;
    }
    assert(list@.take(i as int) == list@);
    refs
}

/// The first `limit` items of `list` of which `f` holds.
pub(crate) fn select<'a, T, F: Fn(&T) -> bool>(
    list: &'a Vec<T>,
    limit: usize,
    f: F,
    Ghost(keep): Ghost<spec_fn(T) -> bool>,
) -> (r: Vec<&'a T>)
    requires
        forall|x: &T| #[trigger] f.requires((x,)),
        forall|x: &T, b: bool| #[trigger] f.ensures((x,), b) ==> b == keep(*x),
    ensures
        items(r@) == first_of(kept(list@, keep), limit as int),
{
    let mut out: Vec<&'a T> = Vec::new();
    let mut i: usize = 0;
    assert(items(out@) == kept(list@.take(0), keep));
    while i < list.len() && out.len() < limit
        invariant
            i <= list@.len(),
            forall|x: &T| #[trigger] f.requires((x,)),
            forall|x: &T, b: bool| #[trigger] f.ensures((x,), b) ==> b == keep(*x),
            out@.len() <= limit,
            items(out@) == kept(list@.take(i as int), keep),
        decreases list@.len() - i,
    {
        let ghost before = out@;
        assert(list@.take(i + 1).drop_last() == list@.take(i as int));
        let item = &list[i];
        if f(item) {
            out.push(item);
            assert(items(out@) == items(before).push(*item));
        }
        i = i + 1;
    }
    proof {
        assert(items(out@).len() == out@.len());
        lemma_kept_grows(list@, keep, i as int);
        if i == list@.len() {
            assert(list@.take(i as int) == list@);
        } else {
            assert(out@.len() == limit);
        }
        assert(kept(list@, keep).take(kept(list@, keep).len() as int) == kept(list@, keep));
    }
    out
}

/// The items of `list` of which `f` holds.
pub(crate) fn select_all<'a, T, F: Fn(&T) -> bool>(
    list: &'a Vec<T>,
    f: F,
    Ghost(keep): Ghost<spec_fn(T) -> bool>,
) -> (r: Vec<&'a T>)
    requires
        forall|x: &T| #[trigger] f.requires((x,)),
        forall|x: &T, b: bool| #[trigger] f.ensures((x,), b) ==> b == keep(*x),
    ensures
        items(r@) == kept(list@, keep),
        r@.len() <= list@.len(),
{
    let r = select(list, list.len(), f, Ghost(keep));
    proof {
        lemma_kept_grows(list@, keep, 0);
        assert(items(r@).len() == r@.len());
    }
    r
}

/// The references of `list` to items of which `f` holds.
pub(crate) fn select_refs<'a, T, F: Fn(&T) -> bool>(
    list: &Vec<&'a T>,
    f: F,
    Ghost(keep): Ghost<spec_fn(T) -> bool>,
) -> (r: Vec<&'a T>)
    requires
        forall|x: &T| #[trigger] f.requires((x,)),
        forall|x: &T, b: bool| #[trigger] f.ensures((x,), b) ==> b == keep(*x),
    ensures
        items(r@) == kept(items(list@), keep),
{
    let ghost all = items(list@);
    let mut out: Vec<&'a T> = Vec::new();
    let mut i: usize = 0;
    assert(items(out@) == kept(all.take(0), keep));
    while i < list.len()
        invariant
            i <= list@.len() == all.len(),
            all == items(list@),
            forall|x: &T| #[trigger] f.requires((x,)),
            forall|x: &T, b: bool| #[trigger] f.ensures((x,), b) ==> b == keep(*x),
            items(out@) == kept(all.take(i as int), keep),
        decreases list@.len() - i,
    {
        let ghost before = out@;
        assert(all.take(i + 1).drop_last() == all.take(i as int));
        assert(all.take(i + 1).last() == *list@[i as int]);
        if f(list[i]) {
            out.push(list[i]);
            assert(items(out@) == items(before).push(*list@[i as int]));
        }
        i = i + 1;
    }
    assert(all.take(i as int) == all);
    out
}

/// The first item of `list` of which `f` holds, if there is one.
pub(crate) fn find_first<'a, T, F: Fn(&T) -> bool>(
    list: &'a Vec<T>,
    f: F,
    Ghost(keep): Ghost<spec_fn(T) -> bool>,
) -> (r: Option<&'a T>)
    requires
        forall|x: &T| #[trigger] f.requires((x,)),
        forall|x: &T, b: bool| #[trigger] f.ensures((x,), b) ==> b == keep(*x),
    ensures
        match r {
            Some(x) => kept(list@, keep).len() > 0 && *x == kept(list@, keep)[0],
            None => kept(list@, keep).len() == 0,
        },
{
    let found = select(list, 1, f, Ghost(keep));
    assert(items(found@).len() == found@.len());
    if found.len() > 0 {
        assert(items(found@)[0] == *found@[0]);
        Some(found[0])
    } else {
        None
    }
}

/// What `f` writes of each item of `list`, one after another.
pub(crate) fn write_refs<T, F: Fn(&T) -> String>(
    list: &Vec<&T>,
    f: F,
    Ghost(line): Ghost<spec_fn(T) -> Text>,
) -> (r: String)
    requires
        forall|x: &T| #[trigger] f.requires((x,)),
        forall|x: &T, s: String| #[trigger] f.ensures((x,), s) ==> s@ == line(*x),
    ensures
        r@ == written_out(items(list@), line),
{
    let ghost all = items(list@);
    let mut out = String::new();
    let mut i: usize = 0;
    while i < list.len()
        invariant
            i <= list@.len() == all.len(),
            all == items(list@),
            forall|x: &T| #[trigger] f.requires((x,)),
            forall|x: &T, s: String| #[trigger] f.ensures((x,), s) ==> s@ == line(*x),
            out@ == written_out(all.take(i as int), line),
        decreases list@.len() - i,
    {
        let s = f(list[i]);
        out.append(s.as_str());
        assert(all.take(i + 1).drop_last() == all.take(i as int));
        i = i + 1;
    }
    assert(all.take(i as int) == all);
    out
}

/// What `f` writes of each item of `list`, one after another.
pub(crate) fn write_all<T, F: Fn(&T) -> String>(
    list: &Vec<T>,
    f: F,
    Ghost(line): Ghost<spec_fn(T) -> Text>,
) -> (r: String)
    requires
        forall|x: &T| #[trigger] f.requires((x,)),
        forall|x: &T, s: String| #[trigger] f.ensures((x,), s) ==> s@ == line(*x),
    ensures
        r@ == written_out(list@, line),
{
    let mut out = String::new();
    let mut i: usize = 0;
    while i < list.len()
        invariant
            i <= list@.len(),
            forall|x: &T| #[trigger] f.requires((x,)),
            forall|x: &T, s: String| #[trigger] f.ensures((x,), s) ==> s@ == line(*x),
            out@ == written_out(list@.take(i as int), line),
        decreases list@.len() - i,
    {
        let s = f(&list[i]);
        out.append(s.as_str());
        assert(list@.take(i + 1).drop_last() == list@.take(i as int));
        i = i + 1;
    }
    assert(list@.take(i as int) == list@);
    out
}

/// What `f` writes of each item of `list` and its number, counted from one.
pub(crate) fn write_numbered<T, F: Fn(usize, &T) -> String>(
    list: &Vec<T>,
    f: F,
    Ghost(line): Ghost<spec_fn(nat, T) -> Text>,
) -> (r: String)
    requires
        forall|n: usize, x: &T| #[trigger] f.requires((n, x)),
        forall|n: usize, x: &T, s: String| #[trigger]
            f.ensures((n, x), s) ==> s@ == line(n as nat, *x),
    ensures
        r@ == numbered_out(list@, line),
{
    let mut out = String::new();
    let mut i: usize = 0;
    while i < list.len()
        invariant
            i <= list@.len(),
            forall|n: usize, x: &T| #[trigger] f.requires((n, x)),
            forall|n: usize, x: &T, s: String| #[trigger]
                f.ensures((n, x), s) ==> s@ == line(n as nat, *x),
            out@ == numbered_out(list@.take(i as int), line),
        decreases list@.len() - i,
    {
        let s = f(i + 1, &list[i]);
        out.append(s.as_str());
        assert(list@.take(i + 1).drop_last() == list@.take(i as int));
        i = i + 1;
    }
    assert(list@.take(i as int) == list@);
    out
}

/// What `f` writes of each item of `list` and its number, counted from one.
pub(crate) fn write_numbered_refs<T, F: Fn(usize, &T) -> String>(
    list: &Vec<&T>,
    f: F,
    Ghost(line): Ghost<spec_fn(nat, T) -> Text>,
) -> (r: String)
    requires
        forall|n: usize, x: &T| #[trigger] f.requires((n, x)),
        forall|n: usize, x: &T, s: String| #[trigger]
            f.ensures((n, x), s) ==> s@ == line(n as nat, *x),
    ensures
        r@ == numbered_out(items(list@), line),
{
    let ghost all = items(list@);
    let mut out = String::new();
    let mut i: usize = 0;
    while i < list.len()
        invariant
            i <= list@.len() == all.len(),
            all == items(list@),
            forall|n: usize, x: &T| #[trigger] f.requires((n, x)),
            forall|n: usize, x: &T, s: String| #[trigger]
                f.ensures((n, x), s) ==> s@ == line(n as nat, *x),
            out@ == numbered_out(all.take(i as int), line),
        decreases list@.len() - i,
    {
        let s = f(i + 1, list[i]);
        out.append(s.as_str());
        assert(all.take(i + 1).drop_last() == all.take(i as int));
        assert(all.take(i + 1).last() == *list@[i as int]);
        i = i + 1;
    }
    assert(all.take(i as int) == all);
    out
}

/// The first `n` lines of `s`.
pub fn head_lines(s: &str, n: usize) -> (r: String)
    ensures
        r@ == head_lines_of(s@, n as int),
{
    let mut all = lines(s);
    let ghost seen = views(all@);
    all.truncate(n);
    assert(views(all@) == first_of(seen, n as int));
    join(&all, "\n")
}

/// What `f` writes of each item of `list`, as a list.
pub(crate) fn texts_of<T, F: Fn(&T) -> String>(
    list: &Vec<T>,
    f: F,
    Ghost(line): Ghost<spec_fn(T) -> Text>,
) -> (r: Vec<String>)
    requires
        forall|x: &T| #[trigger] f.requires((x,)),
        forall|x: &T, s: String| #[trigger] f.ensures((x,), s) ==> s@ == line(*x),
    ensures
        views(r@) == list@.map_values(line),
{
    let mut out: Vec<String> = Vec::new();
    let mut i: usize = 0;
    while i < list.len()
        invariant
            i <= list@.len(),
            forall|x: &T| #[trigger] f.requires((x,)),
            forall|x: &T, s: String| #[trigger] f.ensures((x,), s) ==> s@ == line(*x),
            views(out@) == list@.take(i as int).map_values(line),
        decreases list@.len() - i,
    {
        let ghost before = out@;
        let s = f(&list[i]);
        out.push(s);
        assert(views(out@) == views(before).push(s@));
        assert(list@.take(i + 1) == list@.take(i as int).push(list@[i as int]));
        i = i + 1;
        assert(views(out@) == list@.take(i as int).map_values(line));
    }
    assert(list@.take(i as int) == list@);
    out
}

/// What `f` writes of each item of `list`, as a list.
pub(crate) fn texts_of_refs<T, F: Fn(&T) -> String>(
    list: &Vec<&T>,
    f: F,
    Ghost(line): Ghost<spec_fn(T) -> Text>,
) -> (r: Vec<String>)
    requires
        forall|x: &T| #[trigger] f.requires((x,)),
        forall|x: &T, s: String| #[trigger] f.ensures((x,), s) ==> s@ == line(*x),
    ensures
        views(r@) == items(list@).map_values(line),
{
    let ghost all = items(list@);
    let mut out: Vec<String> = Vec::new();
    let mut i: usize = 0;
    while i < list.len()
        invariant
            i <= list@.len() == all.len(),
            all == items(list@),
            forall|x: &T| #[trigger] f.requires((x,)),
            forall|x: &T, s: String| #[trigger] f.ensures((x,), s) ==> s@ == line(*x),
            views(out@) == all.take(i as int).map_values(line),
        decreases list@.len() - i,
    {
        let ghost before = out@;
        let s = f(list[i]);
        out.push(s);
        assert(views(out@) == views(before).push(s@));
        assert(all.take(i + 1) == all.take(i as int).push(all[i as int]));
        i = i + 1;
        assert(views(out@) == all.take(i as int).map_values(line));
    }
    assert(all.take(i as int) == all);
    out
}

/// Whether `f` holds of some item of `list`.
pub(crate) fn any<T, F: Fn(&T) -> bool>(
    list: &Vec<T>,
    f: F,
    Ghost(hit): Ghost<spec_fn(T) -> bool>,
) -> (r: bool)
    requires
        forall|x: &T| #[trigger] f.requires((x,)),
        forall|x: &T, b: bool| #[trigger] f.ensures((x,), b) ==> b == hit(*x),
    ensures
        r == any_of(list@, hit),
{
    let mut i: usize = 0;
    while i < list.len()
        invariant
            i <= list@.len(),
            forall|x: &T| #[trigger] f.requires((x,)),
            forall|x: &T, b: bool| #[trigger] f.ensures((x,), b) ==> b == hit(*x),
            forall|k: int| 0 <= k < i ==> !hit(#[trigger] list@[k]),
        decreases list@.len() - i,
    {
        if f(&list[i]) {
            return true;
        }
        i = i + 1;
    }
    false
}

/// What is written of a list holds what is written of each of its items.
pub proof fn lemma_written_out_holds<T>(list: Seq<T>, line: spec_fn(T) -> Text, i: int)
    requires
        0 <= i < list.len(),
    ensures
        contains_text(written_out(list, line), line(list[i])),
    decreases list.len(),
{
    let start = list.drop_last();
    if i < list.len() - 1 {
        lemma_written_out_holds(start, line, i);
        assert(start[i] == list[i]);
    } else {
        lemma_contains_itself(line(list.last()));
    }
    lemma_contains_half(written_out(start, line), line(list.last()), line(list[i]));
}

/// Selecting goes item by item: one more item comes last where the condition holds of it, and
/// changes nothing where it does not; of nothing, nothing is kept.
pub proof fn law_selecting_goes_item_by_item<T>(list: Seq<T>, keep: spec_fn(T) -> bool, x: T)
    ensures
        kept(Seq::<T>::empty(), keep).len() == 0,
        keep(x) ==> kept(list.push(x), keep) == kept(list, keep).push(x),
        !keep(x) ==> kept(list.push(x), keep) == kept(list, keep),
{
    assert(list.push(x).drop_last() == list);
}

/// Writing goes item by item: what is written of one more item comes last.
pub proof fn law_writing_goes_item_by_item<T>(list: Seq<T>, line: spec_fn(T) -> Text, x: T)
    ensures
        written_out(Seq::<T>::empty(), line).len() == 0,
        written_out(list.push(x), line) == written_out(list, line) + line(x),
{
    assert(list.push(x).drop_last() == list);
}

/// What is kept of a list is an item of it of which the condition holds, and each such item is kept.
pub proof fn lemma_kept_is<T>(list: Seq<T>, keep: spec_fn(T) -> bool, x: T)
    ensures
        kept(list, keep).contains(x) <==> list.contains(x) && keep(x),
{
    if kept(list, keep).contains(x) {
        let k = choose|k: int| 0 <= k < kept(list, keep).len() && kept(list, keep)[k] == x;
        lemma_kept_holds(list, keep, k);
    }
    if list.contains(x) && keep(x) {
        let k = choose|k: int| 0 <= k < list.len() && list[k] == x;
        lemma_kept_finds(list, keep, k);
    }
}

/// Conditions that agree on every item keep the same items.
pub proof fn lemma_kept_agree<T>(list: Seq<T>, f: spec_fn(T) -> bool, g: spec_fn(T) -> bool)
    requires
        forall|x: T| #[trigger] f(x) == g(x),
    ensures
        kept(list, f) == kept(list, g),
    decreases list.len(),
{
    if list.len() > 0 {
        lemma_kept_agree(list.drop_last(), f, g);
        assert(f(list.last()) == g(list.last()));
    }
}

/// What is written of a numbered list holds what is written of each of its items.
pub proof fn lemma_numbered_out_holds<T>(list: Seq<T>, line: spec_fn(nat, T) -> Text, i: int)
    requires
        0 <= i < list.len(),
    ensures
        contains_text(numbered_out(list, line), line((i + 1) as nat, list[i])),
    decreases list.len(),
{
    let start = list.drop_last();
    if i < list.len() - 1 {
        lemma_numbered_out_holds(start, line, i);
        assert(start[i] == list[i]);
    } else {
        lemma_contains_itself(line(list.len(), list.last()));
    }
    lemma_contains_half(
        numbered_out(start, line),
        line(list.len(), list.last()),
        line((i + 1) as nat, list[i]),
    );
}

/// Where the condition holds of no item, none is kept.
pub proof fn lemma_none_kept<T>(list: Seq<T>, keep: spec_fn(T) -> bool)
    requires
        forall|i: int| 0 <= i < list.len() ==> !keep(#[trigger] list[i]),
    ensures
        kept(list, keep).len() == 0,
{
    if kept(list, keep).len() > 0 {
        lemma_kept_holds(list, keep, 0);
    }
}

/// The first item of which the condition holds is the first that is kept.
pub proof fn lemma_first_kept<T>(list: Seq<T>, keep: spec_fn(T) -> bool, i: int)
    requires
        0 <= i < list.len(),
        keep(list[i]),
        forall|k: int| 0 <= k < i ==> !keep(#[trigger] list[k]),
    ensures
        kept(list, keep).len() > 0,
        kept(list, keep)[0] == list[i],
{
    let front = list.take(i + 1);
    assert(front.drop_last() == list.take(i));
    assert forall|k: int| 0 <= k < list.take(i).len() implies !keep(#[trigger] list.take(i)[k]) by {
        assert(list.take(i)[k] == list[k]);
    }
    lemma_none_kept(list.take(i), keep);
    assert(front.last() == list[i]);
    assert(kept(front, keep) == seq![list[i]]);
    lemma_kept_grows(list, keep, i + 1);
    assert(kept(front, keep)[0] == kept(list, keep).take(kept(front, keep).len() as int)[0]);
}

/// Where the condition holds of every item, all are kept.
pub proof fn lemma_all_kept<T>(list: Seq<T>, keep: spec_fn(T) -> bool)
    requires
        forall|i: int| 0 <= i < list.len() ==> keep(#[trigger] list[i]),
    ensures
        kept(list, keep) == list,
    decreases list.len(),
{
    if list.len() > 0 {
        let start = list.drop_last();
        assert forall|i: int| 0 <= i < start.len() implies keep(#[trigger] start[i]) by {
            assert(start[i] == list[i]);
        }
        lemma_all_kept(start, keep);
        assert(keep(list[list.len() - 1]));
        assert(start.push(list.last()) == list);
    }
}

/// Numbers count from one: what is written of one more item comes last, under the next number.
pub proof fn law_numbers_count_from_one<T>(list: Seq<T>, line: spec_fn(nat, T) -> Text, x: T)
    ensures
        numbered_out(Seq::<T>::empty(), line).len() == 0,
        numbered_out(list.push(x), line) == numbered_out(list, line) + line(list.len() + 1, x),
{
    assert(list.push(x).drop_last() == list);
}

/// The first few items of a list are as many as are asked for, or all of them.
pub proof fn law_first_few_are_at_the_front<T>(list: Seq<T>, n: int)
    requires
        n >= 0,
    ensures
        first_of(list, n).len() == n || first_of(list, n).len() == list.len() < n,
        first_of(list, n).is_prefix_of(list),
{
}

/// A text of no more than `n` lines is shown whole, line by line; of a longer one the first `n`.
pub proof fn law_head_is_cut_after_its_lines(s: Text, n: int)
    requires
        n >= 0,
    ensures
        lines_of(s).len() <= n ==> head_lines_of(s, n) == join_of(lines_of(s), "\n"@),
        lines_of(s).len() > n ==> head_lines_of(s, n) == join_of(lines_of(s).take(n), "\n"@),
{
}

} // verus!
