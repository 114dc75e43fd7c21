//! Putting lists in order, and the alphabetical order of texts.

use crate::lists::items;
use crate::text::{chars_of, same, views, Text};
use vstd::prelude::*;

verus! {

/// `a` stands before `b` in the order of their characters' code points.
pub open spec fn text_lt(a: Text, b: Text) -> bool
    decreases a.len(),
{
    if b.len() == 0 {
        false
    } else if a.len() == 0 {
        true
    } else if a[0] != b[0] {
        a[0] < b[0]
    } else {
        text_lt(a.drop_first(), b.drop_first())
    }
}

/// Of two texts one stands before the other, or they are equal.
pub proof fn lemma_text_total(a: Text, b: Text)
    ensures
        text_lt(a, b) || text_lt(b, a) || a == b,
        !(text_lt(a, b) && text_lt(b, a)),
        a == b ==> !text_lt(a, b),
    decreases a.len(),
{
    if a.len() > 0 && b.len() > 0 && a[0] == b[0] {
        lemma_text_total(a.drop_first(), b.drop_first());
        if a.drop_first() == b.drop_first() {
            assert(a == seq![a[0]] + a.drop_first());
            assert(b == seq![b[0]] + b.drop_first());
        }
    }
}

/// The order is transitive.
pub proof fn lemma_text_transitive(a: Text, b: Text, c: Text)
    requires
        text_lt(a, b),
        text_lt(b, c),
    ensures
        text_lt(a, c),
    decreases a.len(),
{
    if a.len() > 0 && b.len() > 0 && c.len() > 0 && a[0] == b[0] && b[0] == c[0] {
        lemma_text_transitive(a.drop_first(), b.drop_first(), c.drop_first());
    }
}

/// Whether `a` stands before `b`.
pub fn before(a: &str, b: &str) -> (r: bool)
    ensures
        r == text_lt(a@, b@),
{
    let v = chars_of(a);
    let w = chars_of(b);
    let mut i: usize = 0;
    assert(v@.skip(0) == v@);
    assert(w@.skip(0) == w@);
    while i < v.len() && i < w.len()
        invariant
            i <= v@.len(),
            i <= w@.len(),
            text_lt(v@, w@) == text_lt(v@.skip(i as int), w@.skip(i as int)),
            v@ == a@,
            w@ == b@,
        decreases v@.len() - i,
    {
        assert(v@.skip(i as int)[0] == v@[i as int]);
        assert(w@.skip(i as int)[0] == w@[i as int]);
        if v[i] != w[i] {
            return v[i] < w[i];
        }
        assert(v@.skip(i as int).drop_first() == v@.skip(i + 1));
        assert(w@.skip(i as int).drop_first() == w@.skip(i + 1));
        i = i + 1;
    }
    i < w.len()
}

/// `sorted` with `x` put in its place, behind what stands level with it.
pub open spec fn placed<T>(sorted: Seq<T>, ahead: spec_fn(T, T) -> bool, x: T) -> Seq<T>
    decreases sorted.len(),
{
    if sorted.len() == 0 || !ahead(x, sorted.last()) {
        sorted.push(x)
    } else {
        placed(sorted.drop_last(), ahead, x).push(sorted.last())
    }
}

/// `list` with what goes ahead in front; what stands level stays in its order.
pub open spec fn ranked<T>(list: Seq<T>, ahead: spec_fn(T, T) -> bool) -> Seq<T>
    decreases list.len(),
{
    if list.len() == 0 {
        Seq::empty()
    } else {
        placed(ranked(list.drop_last(), ahead), ahead, list.last())
    }
}

/// Among the items that `ok` admits, of two items at most one goes ahead of the other, and where
/// neither a second goes ahead of a first nor a third of the second, the third does not go ahead
/// of the first.
pub open spec fn is_ranking<T>(ahead: spec_fn(T, T) -> bool, ok: spec_fn(T) -> bool) -> bool {
    &&& forall|a: T, b: T| ok(a) && ok(b) ==> !(#[trigger] ahead(a, b) && ahead(b, a))
    &&& forall|a: T, b: T, c: T|
        ok(a) && ok(b) && ok(c) && !#[trigger] ahead(b, a) && !#[trigger] ahead(c, b) ==> !ahead(
            c,
            a,
        )
}

/// Every item of `list` is admitted.
pub open spec fn all_ok<T>(list: Seq<T>, ok: spec_fn(T) -> bool) -> bool {
    forall|i: int| 0 <= i < list.len() ==> ok(#[trigger] list[i])
}

/// No item of `list` goes ahead of one in front of it.
pub open spec fn in_rank<T>(list: Seq<T>, ahead: spec_fn(T, T) -> bool) -> bool {
    forall|i: int, j: int|
        0 <= i < j < list.len() ==> !ahead(#[trigger] list[j], #[trigger] list[i])
}

/// The order of the keys.
pub open spec fn by_key<T>(key: spec_fn(T) -> Text) -> spec_fn(T, T) -> bool {
    |a: T, b: T| text_lt(key(a), key(b))
}

/// `list` in the order of the keys; what stands level stays in its order.
pub open spec fn sorted_by<T>(list: Seq<T>, key: spec_fn(T) -> Text) -> Seq<T> {
    ranked(list, by_key(key))
}

/// The keys of `list` do not fall.
pub open spec fn in_order<T>(list: Seq<T>, key: spec_fn(T) -> Text) -> bool {
    forall|i: int, j: int|
        0 <= i < j < list.len() ==> !text_lt(key(#[trigger] list[j]), key(#[trigger] list[i]))
}

/// Putting an item in its place keeps the order and adds just that item.
proof fn lemma_placed<T>(
    sorted: Seq<T>,
    ahead: spec_fn(T, T) -> bool,
    ok: spec_fn(T) -> bool,
    x: T,
)
    requires
        is_ranking(ahead, ok),
        in_rank(sorted, ahead),
        all_ok(sorted, ok),
        ok(x),
    ensures
        in_rank(placed(sorted, ahead, x), ahead),
        all_ok(placed(sorted, ahead, x), ok),
        placed(sorted, ahead, x).to_multiset() == sorted.to_multiset().insert(x),
        placed(sorted, ahead, x).len() == sorted.len() + 1,
        forall|k: int|
            0 <= k <= sorted.len() ==> (#[trigger] placed(sorted, ahead, x)[k]) == x
                || sorted.contains(placed(sorted, ahead, x)[k]),
    decreases sorted.len(),
{
    broadcast use vstd::seq_lib::group_to_multiset_ensures;

    if sorted.len() == 0 || !ahead(x, sorted.last()) {
        let all = sorted.push(x);
        assert forall|i: int, j: int| 0 <= i < j < all.len() implies !ahead(
            #[trigger] all[j],
            #[trigger] all[i],
        ) by {
            if j == sorted.len() {
                if i < sorted.len() - 1 {
                    assert(!ahead(sorted[sorted.len() - 1], sorted[i]));
                }
            } else {
                assert(all[i] == sorted[i]);
                assert(all[j] == sorted[j]);
            }
        }
    } else {
        let start = sorted.drop_last();
        assert(in_rank(start, ahead)) by {
            assert forall|i: int, j: int| 0 <= i < j < start.len() implies !ahead(
                #[trigger] start[j],
                #[trigger] start[i],
            ) by {
                assert(start[i] == sorted[i]);
                assert(start[j] == sorted[j]);
            }
        }
        assert(all_ok(start, ok)) by {
            assert forall|i: int| 0 <= i < start.len() implies ok(#[trigger] start[i]) by {
                assert(start[i] == sorted[i]);
            }
        }
        lemma_placed(start, ahead, ok, x);
        let head = placed(start, ahead, x);
        let all = head.push(sorted.last());
        assert(start.push(sorted.last()) == sorted);
        assert forall|k: int| 0 <= k <= sorted.len() implies (#[trigger] placed(
            sorted,
            ahead,
            x,
        )[k]) == x || sorted.contains(placed(sorted, ahead, x)[k]) by {
            if k < head.len() {
                assert(all[k] == head[k]);
                if head[k] != x {
                    let m = choose|m: int| 0 <= m < start.len() && start[m] == head[k];
                    assert(sorted[m] == head[k]);
                }
            } else {
                assert(sorted[sorted.len() - 1] == all[k]);
            }
        }
        assert forall|i: int, j: int| 0 <= i < j < all.len() implies !ahead(
            #[trigger] all[j],
            #[trigger] all[i],
        ) by {
            if j == head.len() {
                assert(all[i] == head[i]);
                if head[i] != x {
                    let m = choose|m: int| 0 <= m < start.len() && start[m] == head[i];
                    assert(sorted[m] == head[i]);
                    assert(!ahead(sorted[sorted.len() - 1], sorted[m]));
                }
            } else {
                assert(all[i] == head[i]);
                assert(all[j] == head[j]);
            }
        }
        assert(all.to_multiset() == sorted.to_multiset().insert(x));
    }
}

/// Ranking puts the list in order and neither loses nor adds an item.
pub proof fn law_ranking_orders<T>(
    list: Seq<T>,
    ahead: spec_fn(T, T) -> bool,
    ok: spec_fn(T) -> bool,
)
    requires
        is_ranking(ahead, ok),
        all_ok(list, ok),
    ensures
        in_rank(ranked(list, ahead), ahead),
        all_ok(ranked(list, ahead), ok),
        ranked(list, ahead).to_multiset() == list.to_multiset(),
        ranked(list, ahead).len() == list.len(),
    decreases list.len(),
{
    broadcast use vstd::seq_lib::group_to_multiset_ensures;

    if list.len() > 0 {
        let start = list.drop_last();
        assert(all_ok(start, ok)) by {
            assert forall|i: int| 0 <= i < start.len() implies ok(#[trigger] start[i]) by {
                assert(start[i] == list[i]);
            }
        }
        assert(ok(list[list.len() - 1]));
        law_ranking_orders(start, ahead, ok);
        lemma_placed(ranked(start, ahead), ahead, ok, list.last());
        assert(list.drop_last().push(list.last()) == list);
    } else {
        assert(list == Seq::<T>::empty());
    }
}

/// Sorting orders the list and neither loses nor adds an item.
pub proof fn law_sorting_orders<T>(list: Seq<T>, key: spec_fn(T) -> Text)
    ensures
        in_order(sorted_by(list, key), key),
        sorted_by(list, key).to_multiset() == list.to_multiset(),
        sorted_by(list, key).len() == list.len(),
{
    let ahead = by_key(key);
    let ok = |x: T| true;
    assert(is_ranking(ahead, ok)) by {
        assert forall|a: T, b: T| ok(a) && ok(b) implies !(#[trigger] ahead(a, b) && ahead(
            b,
            a,
        )) by {
            lemma_text_total(key(a), key(b));
        }
        assert forall|a: T, b: T, c: T|
            ok(a) && ok(b) && ok(c) && !#[trigger] ahead(b, a) && !#[trigger] ahead(
                c,
                b,
            ) implies !ahead(c, a) by {
            if ahead(c, a) {
                lemma_text_total(key(a), key(b));
                if text_lt(key(a), key(b)) {
                    lemma_text_transitive(key(c), key(a), key(b));
                }
            }
        }
    }
    law_ranking_orders(list, ahead, ok);
    let all = sorted_by(list, key);
    assert forall|i: int, j: int| 0 <= i < j < all.len() implies !text_lt(
        key(#[trigger] all[j]),
        key(#[trigger] all[i]),
    ) by {
        assert(!ahead(all[j], all[i]));
    }
}

/// Where `x` belongs in `sorted`.
fn place_of<'a, T, F: Fn(&T, &T) -> bool>(
    sorted: &Vec<&'a T>,
    f: &F,
    x: &T,
    Ghost(ahead): Ghost<spec_fn(T, T) -> bool>,
) -> (r: usize)
    requires
        forall|y: &T, z: &T| #[trigger] f.requires((y, z)),
        forall|y: &T, z: &T, b: bool| #[trigger] f.ensures((y, z), b) ==> b == ahead(*y, *z),
    ensures
        r <= sorted@.len(),
        placed(items(sorted@), ahead, *x) == items(sorted@).insert(r as int, *x),
{
    let ghost all = items(sorted@);
    let ghost item = *x;
    let mut r = sorted.len();
    assert(all.take(r as int) == all);
    assert(all.skip(r as int) == Seq::<T>::empty());
    assert(placed(all, ahead, item) == placed(all.take(r as int), ahead, item) + all.skip(
        r as int,
    ));
    while r > 0 && f(x, sorted[r - 1])
        invariant
            r <= sorted@.len() == all.len(),
            all == items(sorted@),
            item == *x,
            forall|y: &T, z: &T| #[trigger] f.requires((y, z)),
            forall|y: &T, z: &T, b: bool| #[trigger] f.ensures((y, z), b) ==> b == ahead(*y, *z),
            placed(all, ahead, item) == placed(all.take(r as int), ahead, item) + all.skip(
                r as int,
            ),
        decreases r,
    {
        assert(all.take(r as int).last() == all[r - 1]);
        assert(all.take(r as int).drop_last() == all.take(r - 1));
        assert(placed(all.take(r - 1), ahead, item).push(all[r - 1]) + all.skip(r as int)
            == placed(all.take(r - 1), ahead, item) + all.skip(r - 1));
        r = r - 1;
    }
    assert(placed(all.take(r as int), ahead, item) == all.take(r as int).push(item)) by {
        if r > 0 {
            assert(all.take(r as int).last() == all[r - 1]);
        }
    }
    assert(all.take(r as int).push(item) + all.skip(r as int) == all.insert(r as int, item));
    r
}

/// Puts references in rank; what stands level stays in its order.
pub(crate) fn rank_refs<'a, T, F: Fn(&T, &T) -> bool>(
    list: &Vec<&'a T>,
    f: F,
    Ghost(ahead): Ghost<spec_fn(T, T) -> bool>,
) -> (r: Vec<&'a T>)
    requires
        forall|y: &T, z: &T| #[trigger] f.requires((y, z)),
        forall|y: &T, z: &T, b: bool| #[trigger] f.ensures((y, z), b) ==> b == ahead(*y, *z),
    ensures
        items(r@) == ranked(items(list@), ahead),
{
    let ghost all = items(list@);
    let mut out: Vec<&'a T> = Vec::new();
    let mut i: usize = 0;
    assert(items(out@) == ranked(all.take(0), ahead));
    while i < list.len()
        invariant
            i <= list@.len() == all.len(),
            all == items(list@),
            forall|y: &T, z: &T| #[trigger] f.requires((y, z)),
            forall|y: &T, z: &T, b: bool| #[trigger] f.ensures((y, z), b) ==> b == ahead(*y, *z),
            items(out@) == ranked(all.take(i as int), ahead),
        decreases list@.len() - i,
    {
        let ghost old_out = out@;
        assert(all.take(i + 1).drop_last() == all.take(i as int));
        assert(all.take(i + 1).last() == all[i as int]);
        let at = place_of(&out, &f, list[i], Ghost(ahead));
        out.insert(at, list[i]);
        assert(items(out@) == items(old_out).insert(at as int, all[i as int]));
        i = i + 1;
    }
    assert(all.take(i as int) == all);
    out
}

/// `x` put among texts in strict order, unless it is among them.
pub open spec fn inserted(sorted: Seq<Text>, x: Text) -> Seq<Text>
    decreases sorted.len(),
{
    if sorted.len() == 0 || text_lt(sorted.last(), x) {
        sorted.push(x)
    } else if sorted.last() == x {
        sorted
    } else {
        inserted(sorted.drop_last(), x).push(sorted.last())
    }
}

/// The texts of `list` in order, each once.
pub open spec fn sorted_set(list: Seq<Text>) -> Seq<Text>
    decreases list.len(),
{
    if list.len() == 0 {
        Seq::empty()
    } else {
        inserted(sorted_set(list.drop_last()), list.last())
    }
}

/// Each text stands before the next.
pub open spec fn strictly_ordered(list: Seq<Text>) -> bool {
    forall|i: int, j: int|
        0 <= i < j < list.len() ==> text_lt(#[trigger] list[i], #[trigger] list[j])
}

/// Inserting a text keeps the strict order and the other texts.
proof fn lemma_inserted(sorted: Seq<Text>, x: Text)
    requires
        strictly_ordered(sorted),
    ensures
        strictly_ordered(inserted(sorted, x)),
        forall|t: Text|
            (#[trigger] inserted(sorted, x).contains(t)) <==> (sorted.contains(t) || t == x),
    decreases sorted.len(),
{
    let all = inserted(sorted, x);
    if sorted.len() == 0 || text_lt(sorted.last(), x) {
        assert forall|i: int, j: int| 0 <= i < j < all.len() implies text_lt(
            #[trigger] all[i],
            #[trigger] all[j],
        ) by {
            if j == sorted.len() {
                if i < sorted.len() - 1 {
                    lemma_text_transitive(sorted[i], sorted[sorted.len() - 1], x);
                }
            } else {
                assert(all[i] == sorted[i] && all[j] == sorted[j]);
            }
        }
        assert forall|t: Text| (#[trigger] all.contains(t)) <==> (sorted.contains(t) || t == x) by {
            if sorted.contains(t) {
                let k = choose|k: int| 0 <= k < sorted.len() && sorted[k] == t;
                assert(all[k] == t);
            }
            assert(all[sorted.len() as int] == x);
        }
    } else if sorted.last() == x {
        assert(sorted[sorted.len() - 1] == x);
    } else {
        let start = sorted.drop_last();
        assert(strictly_ordered(start)) by {
            assert forall|i: int, j: int| 0 <= i < j < start.len() implies text_lt(
                #[trigger] start[i],
                #[trigger] start[j],
            ) by {
                assert(start[i] == sorted[i] && start[j] == sorted[j]);
            }
        }
        lemma_inserted(start, x);
        lemma_text_total(sorted.last(), x);
        let head = inserted(start, x);
        assert forall|i: int, j: int| 0 <= i < j < all.len() implies text_lt(
            #[trigger] all[i],
            #[trigger] all[j],
        ) by {
            assert(all[i] == head[i]);
            if j == head.len() {
                assert(head.contains(head[i]));
                if head[i] != x {
                    let m = choose|m: int| 0 <= m < start.len() && start[m] == head[i];
                    assert(text_lt(sorted[m], sorted[sorted.len() - 1]));
                }
            } else {
                assert(all[j] == head[j]);
            }
        }
        assert forall|t: Text| (#[trigger] all.contains(t)) <==> (sorted.contains(t) || t == x) by {
            if head.contains(t) {
                let k = choose|k: int| 0 <= k < head.len() && head[k] == t;
                assert(all[k] == t);
            }
            if all.contains(t) {
                let k = choose|k: int| 0 <= k < all.len() && all[k] == t;
                if k < head.len() {
                    assert(head[k] == t);
                    assert(head.contains(t));
                    if t != x {
                        let m = choose|m: int| 0 <= m < start.len() && start[m] == t;
                        assert(sorted[m] == t);
                    }
                } else {
                    assert(sorted[sorted.len() - 1] == t);
                }
            }
            if sorted.contains(t) {
                let k = choose|k: int| 0 <= k < sorted.len() && sorted[k] == t;
                if k < start.len() {
                    assert(start[k] == t);
                    assert(start.contains(t));
                    assert(head.contains(t));
                } else {
                    assert(all[head.len() as int] == t);
                }
            }
            if t == x {
                assert(head.contains(x));
            }
        }
    }
}

/// The set of a list holds its texts, each once and in order.
pub proof fn law_sorted_set(list: Seq<Text>)
    ensures
        strictly_ordered(sorted_set(list)),
        forall|t: Text| (#[trigger] sorted_set(list).contains(t)) <==> list.contains(t),
    decreases list.len(),
{
    if list.len() > 0 {
        let start = list.drop_last();
        law_sorted_set(start);
        lemma_inserted(sorted_set(start), list.last());
        assert forall|t: Text| (#[trigger] sorted_set(list).contains(t)) <==> list.contains(t) by {
            if start.contains(t) {
                let k = choose|k: int| 0 <= k < start.len() && start[k] == t;
                assert(list[k] == t);
            }
            if list.contains(t) {
                let k = choose|k: int| 0 <= k < list.len() && list[k] == t;
                if k < start.len() {
                    assert(start[k] == t);
                }
            }
            assert(list[list.len() - 1] == list.last());
            assert(sorted_set(start).contains(t) <==> start.contains(t));
        }
    }
}

/// Puts `x` among texts in strict order, unless it is among them.
pub fn insert_text(sorted: &mut Vec<String>, x: &str)
    ensures
        views(final(sorted)@) == inserted(views(old(sorted)@), x@),
{
    let ghost all = views(sorted@);
    let mut r = sorted.len();
    assert(all.take(r as int) == all);
    assert(inserted(all, x@) == inserted(all.take(r as int), x@) + all.skip(r as int));
    while r > 0 && !before(sorted[r - 1].as_str(), x)
        invariant
            r <= sorted@.len() == all.len(),
            all == views(sorted@),
            all == views(old(sorted)@),
            inserted(all, x@) == inserted(all.take(r as int), x@) + all.skip(r as int),
        decreases r,
    {
        assert(all.take(r as int).last() == all[r - 1]);
        assert(all.take(r as int).drop_last() == all.take(r - 1));
        if same(sorted[r - 1].as_str(), x) {
            assert(all.take(r as int) + all.skip(r as int) == all);
            return ;
        }
        assert(inserted(all.take(r - 1), x@).push(all[r - 1]) + all.skip(r as int) == inserted(
            all.take(r - 1),
            x@,
        ) + all.skip(r - 1));
        r = r - 1;
    }
    assert(inserted(all.take(r as int), x@) == all.take(r as int).push(x@)) by {
        if r > 0 {
            assert(all.take(r as int).last() == all[r - 1]);
        }
    }
    assert(all.take(r as int).push(x@) + all.skip(r as int) == all.insert(r as int, x@));
    let item = x.to_owned();
    sorted.insert(r, item);
    assert(views(sorted@) == all.insert(r as int, item@));
}

/// Texts are ordered by the first character in which they differ, and a text goes before every
/// longer one that it begins.
pub proof fn law_texts_are_ordered_by_their_first_difference(
    start: Text,
    a: char,
    rest_a: Text,
    b: char,
    rest_b: Text,
)
    requires
        a != b,
    ensures
        text_lt(start.push(a) + rest_a, start.push(b) + rest_b) <==> a < b,
        text_lt(start, start.push(a) + rest_a),
        !text_lt(start.push(a) + rest_a, start),
    decreases start.len(),
{
    let x = start.push(a) + rest_a;
    let y = start.push(b) + rest_b;
    if start.len() > 0 {
        let tail = start.drop_first();
        assert(x.drop_first() =~= tail.push(a) + rest_a);
        assert(y.drop_first() =~= tail.push(b) + rest_b);
        assert(x[0] == start[0] && y[0] == start[0]);
        law_texts_are_ordered_by_their_first_difference(tail, a, rest_a, b, rest_b);
    }
}

} // verus!
