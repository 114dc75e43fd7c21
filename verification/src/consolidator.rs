//! Patterns that say nearly the same, and merging them.

use crate::lists::{
    items, lemma_numbered_out_holds, lemma_written_out_holds, numbered_out, refs_of, write_all,
    written_out,
};
use crate::model::{Pattern, StoredRate};
use crate::numbers::{count_text, decimal_of, signed_decimal, signed_decimal_of};
use crate::order::{in_rank, law_ranking_orders, placed, rank_refs, ranked};
use crate::rates::{rate_below, rate_is_below, rate_lower, rate_order, TENTH};
use crate::text::{
    contains_text, join, join_of, lemma_contains_half, lemma_contains_middle, lemma_join_holds, views,
    Text,
};
use vstd::prelude::*;

verus! {

/// Two patterns whose content is similar: the one to keep and the one to merge into it. The score
/// is the bit pattern of a single-precision number.
#[derive(Debug, Clone)]
pub struct Duplicate {
    pub kept_id: i64,
    pub merged_id: i64,
    pub score: u32,
    pub kept_name: String,
    pub merged_name: String,
}

/// The model of two similar patterns.
#[verifier::ext_equal]
pub struct DuplicateView {
    pub kept_id: i64,
    pub merged_id: i64,
    pub score: u32,
    pub kept_name: Text,
    pub merged_name: Text,
}

impl View for Duplicate {
    type V = DuplicateView;

    open spec fn view(&self) -> DuplicateView {
        DuplicateView {
            kept_id: self.kept_id,
            merged_id: self.merged_id,
            score: self.score,
            kept_name: self.kept_name@,
            merged_name: self.merged_name@,
        }
    }
}

/// The models of a list.
pub open spec fn models(list: Seq<Duplicate>) -> Seq<DuplicateView> {
    list.map_values(|d: Duplicate| d@)
}

/// A pattern that is not dead: a tenth of its uses survived, or more.
pub open spec fn is_alive(p: Pattern) -> bool {
    !rate_is_below(p.survival_rate.bits, TENTH)
}

/// What of a pattern is compared: its intent, its body and what it uses.
pub open spec fn content_of(p: Pattern) -> Text {
    p.intent@ + " "@ + p.body@ + " "@ + join_of(views(p.uses@), " "@)
}

/// What of a pattern is compared.
pub fn pattern_content(p: &Pattern) -> (r: String)
    ensures
        r@ == content_of(*p),
{
    let mut s = p.intent.clone();
    s.append(" ");
    s.append(p.body.as_str());
    s.append(" ");
    s.append(join(&p.uses, " ").as_str());
    s
}

/// The places behind `i` and before `end` of patterns that are not dead, each paired with `i`.
pub open spec fn row_of(patterns: Seq<Pattern>, i: int, end: int) -> Seq<(usize, usize)>
    decreases end,
{
    if end <= i + 1 || end <= 0 {
        Seq::empty()
    } else if is_alive(patterns[end - 1]) {
        row_of(patterns, i, end - 1).push((i as usize, (end - 1) as usize))
    } else {
        row_of(patterns, i, end - 1)
    }
}

/// The pairs of places before `end` and behind it that are compared.
pub open spec fn rows_of(patterns: Seq<Pattern>, end: int) -> Seq<(usize, usize)>
    decreases end,
{
    if end <= 0 {
        Seq::empty()
    } else if is_alive(patterns[end - 1]) {
        rows_of(patterns, end - 1) + row_of(patterns, end - 1, patterns.len() as int)
    } else {
        rows_of(patterns, end - 1)
    }
}

/// The pairs of places that are compared: every two patterns that are not dead, once.
pub open spec fn compared(patterns: Seq<Pattern>) -> Seq<(usize, usize)> {
    rows_of(patterns, patterns.len() as int)
}

/// The pairs of places that are compared.
pub fn pairs_to_compare(patterns: &Vec<Pattern>) -> (r: Vec<(usize, usize)>)
    ensures
        r@ == compared(patterns@),
{
    let n = patterns.len();
    let mut out: Vec<(usize, usize)> = Vec::new();
    let mut i: usize = 0;
    while i < n
        invariant
            i <= n == patterns@.len(),
            out@ == rows_of(patterns@, i as int),
        decreases n - i,
    {
        if !rate_below(patterns[i].survival_rate.bits, TENTH) {
            let ghost front = out@;
            let mut j: usize = i + 1;
            assert(front + row_of(patterns@, i as int, j as int) == front);
            while j < n
                invariant
                    i < j <= n == patterns@.len(),
                    out@ == front + row_of(patterns@, i as int, j as int),
                decreases n - j,
            {
                if !rate_below(patterns[j].survival_rate.bits, TENTH) {
                    let ghost part = row_of(patterns@, i as int, j as int);
                    out.push((i, j));
                    assert(out@ == front + part.push((i, j)));
                }
                j = j + 1;
            }
        }
        i = i + 1;
    }
    out
}

/// A bit pattern of a number, the infinities among them.
pub open spec fn is_number(bits: u32) -> bool {
    bits <= 0x7f80_0000 || 0x8000_0000 <= bits <= 0xff80_0000
}

/// A score is at least as high as the threshold.
pub open spec fn is_similar(score: u32, threshold: u32) -> bool {
    is_number(score) && is_number(threshold) && rate_order(score) >= rate_order(threshold)
}

/// The pair as similar patterns, where both have a number and the score reaches the threshold.
pub open spec fn duplicate_of(
    patterns: Seq<Pattern>,
    pair: (usize, usize),
    score: u32,
    threshold: u32,
) -> Option<DuplicateView> {
    match (patterns[pair.0 as int].id, patterns[pair.1 as int].id) {
        (Some(a), Some(b)) => if is_similar(score, threshold) {
            Some(
                DuplicateView {
                    kept_id: a,
                    merged_id: b,
                    score,
                    kept_name: patterns[pair.0 as int].name@,
                    merged_name: patterns[pair.1 as int].name@,
                },
            )
        } else {
            None
        },
        _ => None,
    }
}

/// The similar patterns among the first `n` pairs.
pub open spec fn similar_in(
    patterns: Seq<Pattern>,
    pairs: Seq<(usize, usize)>,
    scores: Seq<u32>,
    threshold: u32,
    n: int,
) -> Seq<DuplicateView>
    decreases n,
{
    if n <= 0 {
        Seq::empty()
    } else {
        let front = similar_in(patterns, pairs, scores, threshold, n - 1);
        match duplicate_of(patterns, pairs[n - 1], scores[n - 1], threshold) {
            Some(d) => front.push(d),
            None => front,
        }
    }
}

/// The order of a report: the higher score goes first.
pub open spec fn more_similar() -> spec_fn(DuplicateView, DuplicateView) -> bool {
    |a: DuplicateView, b: DuplicateView| rate_order(a.score) > rate_order(b.score)
}

/// The order of a report on the entries themselves.
pub open spec fn entry_more_similar() -> spec_fn(Duplicate, Duplicate) -> bool {
    |a: Duplicate, b: Duplicate| rate_order(a.score) > rate_order(b.score)
}

/// The similar patterns, the most similar first. `scores` holds the similarity of the content of
/// each pair that is compared.
pub open spec fn candidates(patterns: Seq<Pattern>, scores: Seq<u32>, threshold: u32) -> Seq<
    DuplicateView,
> {
    ranked(
        similar_in(
            patterns,
            compared(patterns),
            scores,
            threshold,
            compared(patterns).len() as int,
        ),
        more_similar(),
    )
}

/// Every pair that is compared is a pair of two places, in their order, of patterns that are not
/// dead.
proof fn lemma_row_sound(patterns: Seq<Pattern>, i: int, end: int)
    requires
        0 <= i < patterns.len() <= usize::MAX,
        end <= patterns.len(),
    ensures
        forall|k: int|
            0 <= k < row_of(patterns, i, end).len() ==> {
                let p = #[trigger] row_of(patterns, i, end)[k];
                p.0 == i && i < p.1 < end && is_alive(patterns[p.1 as int])
            },
    decreases end,
{
    if end > i + 1 && end > 0 {
        lemma_row_sound(patterns, i, end - 1);
        let front = row_of(patterns, i, end - 1);
        assert forall|k: int| 0 <= k < row_of(patterns, i, end).len() implies {
            let p = #[trigger] row_of(patterns, i, end)[k];
            p.0 == i && i < p.1 < end && is_alive(patterns[p.1 as int])
        } by {
            if k < front.len() {
                assert(row_of(patterns, i, end)[k] == front[k]);
            }
        }
    }
}

/// The same of the pairs of several rows.
proof fn lemma_rows_sound(patterns: Seq<Pattern>, end: int)
    requires
        end <= patterns.len() <= usize::MAX,
    ensures
        forall|k: int|
            0 <= k < rows_of(patterns, end).len() ==> {
                let p = #[trigger] rows_of(patterns, end)[k];
                p.0 < end && p.0 < p.1 < patterns.len() && is_alive(patterns[p.0 as int])
                    && is_alive(patterns[p.1 as int])
            },
    decreases end,
{
    if end > 0 {
        lemma_rows_sound(patterns, end - 1);
        lemma_row_sound(patterns, end - 1, patterns.len() as int);
        let all = rows_of(patterns, end);
        let front = rows_of(patterns, end - 1);
        let row = row_of(patterns, end - 1, patterns.len() as int);
        assert forall|k: int| 0 <= k < all.len() implies {
            let p = #[trigger] all[k];
            p.0 < end && p.0 < p.1 < patterns.len() && is_alive(patterns[p.0 as int]) && is_alive(
                patterns[p.1 as int],
            )
        } by {
            if k < front.len() {
                assert(all[k] == front[k]);
            } else {
                assert(all[k] == row[k - front.len()]);
            }
        }
    }
}

/// Every place behind `i` of a pattern that is not dead stands in its row.
proof fn lemma_row_complete(patterns: Seq<Pattern>, i: int, end: int, j: int)
    requires
        0 <= i < j < end <= patterns.len() <= usize::MAX,
        is_alive(patterns[j]),
    ensures
        row_of(patterns, i, end).contains((i as usize, j as usize)),
    decreases end,
{
    let row = row_of(patterns, i, end);
    if j == end - 1 {
        assert(row[row.len() - 1] == (i as usize, j as usize));
    } else {
        lemma_row_complete(patterns, i, end - 1, j);
        let front = row_of(patterns, i, end - 1);
        let k = choose|k: int| 0 <= k < front.len() && front[k] == (i as usize, j as usize);
        assert(row[k] == (i as usize, j as usize));
    }
}

/// Every row stands among the rows.
proof fn lemma_rows_complete(patterns: Seq<Pattern>, end: int, i: int, j: int)
    requires
        0 <= i < end <= patterns.len() <= usize::MAX,
        i < j < patterns.len(),
        is_alive(patterns[i]),
        is_alive(patterns[j]),
    ensures
        rows_of(patterns, end).contains((i as usize, j as usize)),
    decreases end,
{
    let all = rows_of(patterns, end);
    let front = rows_of(patterns, end - 1);
    if i == end - 1 {
        lemma_row_complete(patterns, i, patterns.len() as int, j);
        let row = row_of(patterns, i, patterns.len() as int);
        let k = choose|k: int| 0 <= k < row.len() && row[k] == (i as usize, j as usize);
        assert(all[front.len() + k] == (i as usize, j as usize));
    } else {
        lemma_rows_complete(patterns, end - 1, i, j);
        let k = choose|k: int| 0 <= k < front.len() && front[k] == (i as usize, j as usize);
        assert(all[k] == (i as usize, j as usize));
    }
}

/// Two places are compared just where both patterns are not dead and the first stands in front of
/// the second.
pub proof fn law_all_living_are_compared(patterns: Seq<Pattern>, i: int, j: int)
    requires
        patterns.len() <= usize::MAX,
        0 <= i < patterns.len(),
        0 <= j < patterns.len(),
    ensures
        compared(patterns).contains((i as usize, j as usize)) <==> i < j && is_alive(patterns[i])
            && is_alive(patterns[j]),
{
    let n = patterns.len() as int;
    lemma_rows_sound(patterns, n);
    if i < j && is_alive(patterns[i]) && is_alive(patterns[j]) {
        lemma_rows_complete(patterns, n, i, j);
    }
    if compared(patterns).contains((i as usize, j as usize)) {
        let k = choose|k: int|
            0 <= k < compared(patterns).len() && compared(patterns)[k] == (i as usize, j as usize);
        assert(rows_of(patterns, n)[k] == (i as usize, j as usize));
    }
}

/// Whether a score is at least as high as the threshold.
fn similar(score: u32, threshold: u32) -> (r: bool)
    ensures
        r == is_similar(score, threshold),
{
    let score_ok = score <= 0x7f80_0000 || (0x8000_0000 <= score && score <= 0xff80_0000);
    let limit_ok = threshold <= 0x7f80_0000 || (0x8000_0000 <= threshold && threshold
        <= 0xff80_0000);
    score_ok && limit_ok && !rate_lower(score, threshold)
}

/// Putting the entries in order and taking their models are interchangeable.
proof fn lemma_ranked_models(list: Seq<Duplicate>)
    ensures
        models(ranked(list, entry_more_similar())) == ranked(models(list), more_similar()),
    decreases list.len(),
{
    if list.len() > 0 {
        let start = list.drop_last();
        lemma_ranked_models(start);
        lemma_placed_models(ranked(start, entry_more_similar()), list.last());
        assert(models(list).drop_last() == models(start));
    } else {
        assert(models(ranked(list, entry_more_similar())) == ranked(models(list), more_similar()));
    }
}

/// Putting an entry in its place and taking models are interchangeable.
proof fn lemma_placed_models(sorted: Seq<Duplicate>, x: Duplicate)
    ensures
        models(placed(sorted, entry_more_similar(), x)) == placed(
            models(sorted),
            more_similar(),
            x@,
        ),
    decreases sorted.len(),
{
    if sorted.len() > 0 && rate_order(x.score) > rate_order(sorted.last().score) {
        let start = sorted.drop_last();
        lemma_placed_models(start, x);
        assert(models(sorted).drop_last() == models(start));
        let head = placed(start, entry_more_similar(), x);
        assert(models(head.push(sorted.last())) == models(head).push(sorted.last()@));
    } else {
        assert(models(sorted.push(x)) == models(sorted).push(x@));
    }
}

/// Copies entries.
fn copied(list: &Vec<&Duplicate>) -> (r: Vec<Duplicate>)
    ensures
        models(r@) == models(items(list@)),
{
    let ghost all = models(items(list@));
    let mut out: Vec<Duplicate> = Vec::new();
    let mut i: usize = 0;
    assert(models(out@) == all.take(0));
    while i < list.len()
        invariant
            i <= list@.len() == all.len(),
            all == models(items(list@)),
            models(out@) == all.take(i as int),
        decreases list@.len() - i,
    {
        let ghost before = out@;
        let d = list[i];
        out.push(
            Duplicate {
                kept_id: d.kept_id,
                merged_id: d.merged_id,
                score: d.score,
                kept_name: d.kept_name.clone(),
                merged_name: d.merged_name.clone(),
            },
        );
        assert(models(out@) == models(before).push(all[i as int]));
        assert(all.take(i + 1) == all.take(i as int).push(all[i as int]));
        i = i + 1;
    }
    assert(all.take(i as int) == all);
    out
}

/// The similar patterns, the most similar first. `scores` holds the similarity of the content of
/// each pair of places that is compared.
pub fn find_candidates(patterns: &Vec<Pattern>, scores: &Vec<u32>, threshold: u32) -> (r: Vec<
    Duplicate,
>)
    requires
        scores@.len() == compared(patterns@).len(),
    ensures
        models(r@) == candidates(patterns@, scores@, threshold),
{
    let pairs = pairs_to_compare(patterns);
    let mut found: Vec<Duplicate> = Vec::new();
    let mut k: usize = 0;
    let n = patterns.len();
    proof {
        assert(patterns@.len() == n);
        lemma_rows_sound(patterns@, n as int);
    }
    assert(models(found@) == similar_in(patterns@, pairs@, scores@, threshold, 0));
    while k < pairs.len()
        invariant
            k <= pairs@.len() == scores@.len(),
            pairs@ == compared(patterns@),
            forall|m: int|
                0 <= m < pairs@.len() ==> (#[trigger] pairs@[m]).0 < pairs@[m].1
                    && pairs@[m].1 < patterns@.len(),
            models(found@) == similar_in(patterns@, pairs@, scores@, threshold, k as int),
        decreases pairs@.len() - k,
    {
        let (i, j) = pairs[k];
        assert(pairs@[k as int] == (i, j));
        match (patterns[i].id, patterns[j].id) {
            (Some(a), Some(b)) => {
                if similar(scores[k], threshold) {
                    let ghost before = found@;
                    let d = Duplicate {
                        kept_id: a,
                        merged_id: b,
                        score: scores[k],
                        kept_name: patterns[i].name.clone(),
                        merged_name: patterns[j].name.clone(),
                    };
                    found.push(d);
                    assert(models(found@) == models(before).push(d@));
                }
            },
            _ => {},
        }
        k = k + 1;
    }
    let refs = refs_of(&found);
    let ahead = |a: &Duplicate, b: &Duplicate| -> (r: bool)
        ensures
            r == entry_more_similar()(*a, *b),
        { rate_lower(b.score, a.score) };
    let sorted = rank_refs(&refs, ahead, Ghost(entry_more_similar()));
    proof {
        lemma_ranked_models(found@);
    }
    copied(&sorted)
}

/// What merging a pattern into another does: the standing that the merged pattern is left with,
/// and the entry in the log of merges.
#[derive(Debug, Clone)]
pub struct Merge {
    pub keep_id: i64,
    pub discard_id: i64,
    pub score: u32,
    pub reverted_count: i64,
    pub survival_rate: StoredRate,
    pub reason: String,
}

/// The lowest survival there is.
pub open spec fn is_floor(rate: StoredRate) -> bool {
    rate.bits == 0 && rate.number@ == "0.0"@ && rate.percent@ == "0"@
}

/// A pattern as a merge into another leaves it: its standing is the lowest, all else stays.
pub open spec fn is_discarded(after: Pattern, before: Pattern) -> bool {
    &&& after.id == before.id
    &&& after.name == before.name
    &&& after.intent == before.intent
    &&& after.body == before.body
    &&& after.uses == before.uses
    &&& after.tags == before.tags
    &&& after.approved_at == before.approved_at
    &&& after.use_count == before.use_count
    &&& after.reverted_count == 999
    &&& is_floor(after.survival_rate)
}

/// The patterns after a merge: the one that was merged is discarded, the others are as they were.
pub open spec fn is_merged(after: Seq<Pattern>, before: Seq<Pattern>, discard_id: i64) -> bool {
    &&& after.len() == before.len()
    &&& forall|i: int|
        0 <= i < before.len() ==> if before[i].id == Some(discard_id) {
            is_discarded(#[trigger] after[i], before[i])
        } else {
            after[i] == before[i]
        }
}

/// The lowest survival there is.
fn floor() -> (r: StoredRate)
    ensures
        is_floor(r),
{
    StoredRate { bits: 0, number: "0.0".to_owned(), percent: "0".to_owned() }
}

/// Merges a pattern into another: it stays, with the lowest survival there is. The result is the
/// change to its row, and the entry in the log of merges.
pub fn merge_patterns(
    patterns: &mut Vec<Pattern>,
    keep_id: i64,
    discard_id: i64,
    score: u32,
) -> (r: Merge)
    ensures
        is_merged(final(patterns)@, old(patterns)@, discard_id),
        r.keep_id == keep_id,
        r.discard_id == discard_id,
        r.score == score,
        r.reverted_count == 999,
        is_floor(r.survival_rate),
        r.reason@ == "consolidated via cosine similarity"@,
{
    let mut i: usize = 0;
    while i < patterns.len()
        invariant
            i <= patterns@.len() == old(patterns)@.len(),
            forall|k: int|
                0 <= k < i ==> if old(patterns)@[k].id == Some(discard_id) {
                    is_discarded(#[trigger] patterns@[k], old(patterns)@[k])
                } else {
                    patterns@[k] == old(patterns)@[k]
                },
            forall|k: int| i <= k < patterns@.len() ==> patterns@[k] == old(patterns)@[k],
        decreases patterns@.len() - i,
    {
        let found = match patterns[i].id {
            Some(id) => id == discard_id,
            None => false,
        };
        if found {
            patterns[i].reverted_count = 999;
            patterns[i].survival_rate = floor();
        }
        i = i + 1;
    }
    Merge {
        keep_id,
        discard_id,
        score,
        reverted_count: 999,
        survival_rate: floor(),
        reason: "consolidated via cosine similarity".to_owned(),
    }
}

/// No pair is compared twice in a row.
proof fn lemma_row_distinct(patterns: Seq<Pattern>, i: int, end: int)
    requires
        0 <= i < patterns.len() <= usize::MAX,
        end <= patterns.len(),
    ensures
        row_of(patterns, i, end).no_duplicates(),
    decreases end,
{
    if end > i + 1 && end > 0 {
        lemma_row_distinct(patterns, i, end - 1);
        lemma_row_sound(patterns, i, end - 1);
        let front = row_of(patterns, i, end - 1);
        let row = row_of(patterns, i, end);
        assert forall|a: int, b: int| 0 <= a < row.len() && 0 <= b < row.len() && a != b implies
            row[a] != row[b] by {
            if a < front.len() {
                assert(row[a] == front[a]);
            }
            if b < front.len() {
                assert(row[b] == front[b]);
            }
        }
    }
}

/// No pair is compared twice.
proof fn lemma_rows_distinct(patterns: Seq<Pattern>, end: int)
    requires
        end <= patterns.len() <= usize::MAX,
    ensures
        rows_of(patterns, end).no_duplicates(),
    decreases end,
{
    if end > 0 {
        lemma_rows_distinct(patterns, end - 1);
        lemma_rows_sound(patterns, end - 1);
        let front = rows_of(patterns, end - 1);
        let row = row_of(patterns, end - 1, patterns.len() as int);
        lemma_row_distinct(patterns, end - 1, patterns.len() as int);
        lemma_row_sound(patterns, end - 1, patterns.len() as int);
        let all = rows_of(patterns, end);
        assert forall|a: int, b: int| 0 <= a < all.len() && 0 <= b < all.len() && a != b implies
            all[a] != all[b] by {
            if all == front + row {
                if a < front.len() {
                    assert(all[a] == front[a]);
                } else {
                    assert(all[a] == row[a - front.len()]);
                }
                if b < front.len() {
                    assert(all[b] == front[b]);
                } else {
                    assert(all[b] == row[b - front.len()]);
                }
            }
        }
    }
}

/// No two patterns have the same number.
pub open spec fn ids_differ(patterns: Seq<Pattern>) -> bool {
    forall|i: int, j: int|
        0 <= i < patterns.len() && 0 <= j < patterns.len() && i != j && (
        #[trigger] patterns[i]).id is Some ==> patterns[i].id != (#[trigger] patterns[j]).id
}

/// The pair at place `k` of those compared, as similar patterns where it is one.
pub open spec fn duplicate_at(
    patterns: Seq<Pattern>,
    scores: Seq<u32>,
    threshold: u32,
    k: int,
) -> Option<DuplicateView> {
    duplicate_of(patterns, compared(patterns)[k], scores[k], threshold)
}

/// What is found among the first `n` pairs comes from one of them.
proof fn lemma_similar_sound(patterns: Seq<Pattern>, scores: Seq<u32>, threshold: u32, n: int)
    requires
        0 <= n <= compared(patterns).len(),
    ensures
        ({
            let found = similar_in(patterns, compared(patterns), scores, threshold, n);
            forall|m: int|
                0 <= m < found.len() ==> exists|k: int|
                    0 <= k < n && duplicate_at(patterns, scores, threshold, k) == Some(
                        #[trigger] found[m],
                    )
        }),
    decreases n,
{
    if n > 0 {
        lemma_similar_sound(patterns, scores, threshold, n - 1);
        let front = similar_in(patterns, compared(patterns), scores, threshold, n - 1);
        let found = similar_in(patterns, compared(patterns), scores, threshold, n);
        assert forall|m: int| 0 <= m < found.len() implies exists|k: int|
            0 <= k < n && duplicate_at(patterns, scores, threshold, k) == Some(
                #[trigger] found[m],
            ) by {
            if m < front.len() {
                assert(found[m] == front[m]);
                let k = choose|k: int|
                    0 <= k < n - 1 && duplicate_at(patterns, scores, threshold, k) == Some(
                        front[m],
                    );
                assert(duplicate_at(patterns, scores, threshold, k) == Some(found[m]));
            } else {
                assert(duplicate_at(patterns, scores, threshold, n - 1) == Some(found[m]));
            }
        }
    }
}

/// Every similar pair among the first `n` is found.
proof fn lemma_similar_complete(
    patterns: Seq<Pattern>,
    scores: Seq<u32>,
    threshold: u32,
    n: int,
    k: int,
)
    requires
        0 <= k < n <= compared(patterns).len(),
        duplicate_at(patterns, scores, threshold, k) is Some,
    ensures
        similar_in(patterns, compared(patterns), scores, threshold, n).contains(
            duplicate_at(patterns, scores, threshold, k)->0,
        ),
    decreases n,
{
    let front = similar_in(patterns, compared(patterns), scores, threshold, n - 1);
    let found = similar_in(patterns, compared(patterns), scores, threshold, n);
    let d = duplicate_at(patterns, scores, threshold, k)->0;
    if k == n - 1 {
        assert(found[found.len() - 1] == d);
    } else {
        lemma_similar_complete(patterns, scores, threshold, n - 1, k);
        let m = choose|m: int| 0 <= m < front.len() && front[m] == d;
        assert(found[m] == d);
    }
}

/// Similar pairs that name the same two patterns are one.
proof fn lemma_named_once(
    patterns: Seq<Pattern>,
    scores: Seq<u32>,
    threshold: u32,
    a: int,
    b: int,
)
    requires
        patterns.len() <= usize::MAX,
        ids_differ(patterns),
        0 <= a < compared(patterns).len(),
        0 <= b < compared(patterns).len(),
        duplicate_at(patterns, scores, threshold, a) is Some,
        duplicate_at(patterns, scores, threshold, b) is Some,
        duplicate_at(patterns, scores, threshold, a)->0.kept_id == duplicate_at(
            patterns,
            scores,
            threshold,
            b,
        )->0.kept_id,
        duplicate_at(patterns, scores, threshold, a)->0.merged_id == duplicate_at(
            patterns,
            scores,
            threshold,
            b,
        )->0.merged_id,
    ensures
        a == b,
{
    lemma_rows_sound(patterns, patterns.len() as int);
    lemma_rows_distinct(patterns, patterns.len() as int);
    let p = compared(patterns)[a];
    let q = compared(patterns)[b];
    assert(patterns[p.0 as int].id == patterns[q.0 as int].id);
    assert(patterns[p.1 as int].id == patterns[q.1 as int].id);
    assert(p == q);
}

/// What is found among the first `n` pairs has no two entries alike.
proof fn lemma_similar_distinct(patterns: Seq<Pattern>, scores: Seq<u32>, threshold: u32, n: int)
    requires
        patterns.len() <= usize::MAX,
        ids_differ(patterns),
        0 <= n <= compared(patterns).len(),
    ensures
        similar_in(patterns, compared(patterns), scores, threshold, n).no_duplicates(),
    decreases n,
{
    if n > 0 {
        lemma_similar_distinct(patterns, scores, threshold, n - 1);
        lemma_similar_sound(patterns, scores, threshold, n - 1);
        let front = similar_in(patterns, compared(patterns), scores, threshold, n - 1);
        let found = similar_in(patterns, compared(patterns), scores, threshold, n);
        if duplicate_at(patterns, scores, threshold, n - 1) is Some {
            let d = duplicate_at(patterns, scores, threshold, n - 1)->0;
            assert forall|m: int| 0 <= m < front.len() implies front[m] != d by {
                let k = choose|k: int|
                    0 <= k < n - 1 && duplicate_at(patterns, scores, threshold, k) == Some(
                        front[m],
                    );
                if front[m] == d {
                    lemma_named_once(patterns, scores, threshold, k, n - 1);
                }
            }
            assert forall|x: int, y: int|
                0 <= x < found.len() && 0 <= y < found.len() && x != y implies found[x]
                != found[y] by {
                if x < front.len() {
                    assert(found[x] == front[x]);
                }
                if y < front.len() {
                    assert(found[y] == front[y]);
                }
            }
        }
    }
}

/// Ranking by similarity orders the pairs and keeps each.
proof fn lemma_candidates_ranked(patterns: Seq<Pattern>, scores: Seq<u32>, threshold: u32)
    ensures
        ({
            let n = compared(patterns).len() as int;
            let found = similar_in(patterns, compared(patterns), scores, threshold, n);
            let listed = candidates(patterns, scores, threshold);
            &&& in_rank(listed, more_similar())
            &&& listed.to_multiset() == found.to_multiset()
        }),
{
    let n = compared(patterns).len() as int;
    let found = similar_in(patterns, compared(patterns), scores, threshold, n);
    law_ranking_orders(found, more_similar(), |d: DuplicateView| true);
}

/// Each two patterns that are not dead and whose score reaches the threshold stand in the list
/// exactly once, the one in front as the one to keep; no other pair does; and the scores fall along
/// the list.
pub proof fn law_each_similar_pair_is_listed_once(
    patterns: Seq<Pattern>,
    scores: Seq<u32>,
    threshold: u32,
)
    requires
        patterns.len() <= usize::MAX,
        ids_differ(patterns),
    ensures
        compared(patterns).no_duplicates(),
        forall|k: int|
            0 <= k < compared(patterns).len() && (#[trigger] duplicate_at(
                patterns,
                scores,
                threshold,
                k,
            )) is Some ==> candidates(patterns, scores, threshold).contains(
                duplicate_at(patterns, scores, threshold, k)->0,
            ),
        forall|m: int|
            0 <= m < candidates(patterns, scores, threshold).len() ==> exists|k: int|
                0 <= k < compared(patterns).len() && duplicate_at(patterns, scores, threshold, k)
                    == Some(#[trigger] candidates(patterns, scores, threshold)[m]),
        forall|a: int, b: int|
            0 <= a < b < candidates(patterns, scores, threshold).len() ==> {
                let x = #[trigger] candidates(patterns, scores, threshold)[a];
                let y = #[trigger] candidates(patterns, scores, threshold)[b];
                &&& x.kept_id != y.kept_id || x.merged_id != y.merged_id
                &&& rate_order(x.score) >= rate_order(y.score)
            },
{
    broadcast use vstd::seq_lib::group_to_multiset_ensures;

    let n = compared(patterns).len() as int;
    let found = similar_in(patterns, compared(patterns), scores, threshold, n);
    let listed = candidates(patterns, scores, threshold);
    lemma_rows_distinct(patterns, patterns.len() as int);
    lemma_candidates_ranked(patterns, scores, threshold);
    lemma_similar_sound(patterns, scores, threshold, n);
    lemma_similar_distinct(patterns, scores, threshold, n);
    found.lemma_multiset_has_no_duplicates();
    listed.lemma_multiset_has_no_duplicates_conv();
    assert forall|k: int|
        0 <= k < n && (#[trigger] duplicate_at(
            patterns,
            scores,
            threshold,
            k,
        )) is Some implies listed.contains(duplicate_at(patterns, scores, threshold, k)->0) by {
        lemma_similar_complete(patterns, scores, threshold, n, k);
        let d = duplicate_at(patterns, scores, threshold, k)->0;
        assert(found.to_multiset().count(d) > 0);
        assert(listed.to_multiset().count(d) > 0);
    }
    assert forall|m: int| 0 <= m < listed.len() implies exists|k: int|
        0 <= k < n && duplicate_at(patterns, scores, threshold, k) == Some(
            #[trigger] listed[m],
        ) by {
        lemma_listed_is_found(patterns, scores, threshold, m);
    }
    assert forall|a: int, b: int| 0 <= a < b < listed.len() implies {
        let x = #[trigger] listed[a];
        let y = #[trigger] listed[b];
        &&& x.kept_id != y.kept_id || x.merged_id != y.merged_id
        &&& rate_order(x.score) >= rate_order(y.score)
    } by {
        let x = listed[a];
        let y = listed[b];
        assert(!more_similar()(y, x));
        let i = choose|k: int|
            0 <= k < n && duplicate_at(patterns, scores, threshold, k) == Some(x);
        let j = choose|k: int|
            0 <= k < n && duplicate_at(patterns, scores, threshold, k) == Some(y);
        if x.kept_id == y.kept_id && x.merged_id == y.merged_id {
            lemma_named_once(patterns, scores, threshold, i, j);
            assert(x == y);
        }
    }
}

/// What is listed comes from a pair that is compared.
proof fn lemma_listed_is_found(patterns: Seq<Pattern>, scores: Seq<u32>, threshold: u32, m: int)
    requires
        0 <= m < candidates(patterns, scores, threshold).len(),
    ensures
        exists|k: int|
            0 <= k < compared(patterns).len() && duplicate_at(patterns, scores, threshold, k)
                == Some(#[trigger] candidates(patterns, scores, threshold)[m]),
{
    broadcast use vstd::seq_lib::group_to_multiset_ensures;

    let n = compared(patterns).len() as int;
    let found = similar_in(patterns, compared(patterns), scores, threshold, n);
    let d = candidates(patterns, scores, threshold)[m];
    lemma_candidates_ranked(patterns, scores, threshold);
    lemma_similar_sound(patterns, scores, threshold, n);
    assert(candidates(patterns, scores, threshold).contains(d));
    assert(candidates(patterns, scores, threshold).to_multiset().count(d) > 0);
    assert(found.to_multiset().count(d) > 0);
    assert(found.contains(d));
    let x = choose|x: int| 0 <= x < found.len() && found[x] == d;
    let k = choose|k: int|
        0 <= k < n && duplicate_at(patterns, scores, threshold, k) == Some(found[x]);
    assert(duplicate_at(patterns, scores, threshold, k) == Some(
        candidates(patterns, scores, threshold)[m],
    ));
}

/// After a merge no candidate names the pattern that was merged, whatever the threshold.
pub proof fn law_merged_is_no_candidate(
    after: Seq<Pattern>,
    before: Seq<Pattern>,
    discard_id: i64,
    scores: Seq<u32>,
    threshold: u32,
    m: int,
)
    requires
        before.len() <= usize::MAX,
        is_merged(after, before, discard_id),
        0 <= m < candidates(after, scores, threshold).len(),
    ensures
        candidates(after, scores, threshold)[m].kept_id != discard_id,
        candidates(after, scores, threshold)[m].merged_id != discard_id,
{
    lemma_listed_is_found(after, scores, threshold, m);
    lemma_rows_sound(after, after.len() as int);
    let d = candidates(after, scores, threshold)[m];
    let k = choose|k: int|
        0 <= k < compared(after).len() && duplicate_at(after, scores, threshold, k) == Some(d);
    let p = compared(after)[k];
    assert(is_alive(after[p.0 as int]) && is_alive(after[p.1 as int]));
    if d.kept_id == discard_id {
        law_merged_is_dead(after, before, discard_id, p.0 as int);
    }
    if d.merged_id == discard_id {
        law_merged_is_dead(after, before, discard_id, p.1 as int);
    }
}

/// A pattern that was merged is dead, so that it is not compared again.
pub proof fn law_merged_is_dead(
    after: Seq<Pattern>,
    before: Seq<Pattern>,
    discard_id: i64,
    i: int,
)
    requires
        is_merged(after, before, discard_id),
        0 <= i < after.len(),
        after[i].id == Some(discard_id),
    ensures
        !is_alive(after[i]),
{
}

/// One line of the report.
pub open spec fn candidate_line(percents: Seq<Text>) -> spec_fn(nat, Duplicate) -> Text {
    |n: nat, d: Duplicate|
        "  ["@ + signed_decimal_of(d.kept_id as int) + "] "@ + d.kept_name@ + "  <=>  ["@
            + signed_decimal_of(d.merged_id as int) + "] "@ + d.merged_name@ + "  ("@ + percents[n - 1]
            + "%)\n"@
}

/// One line about a merge.
pub open spec fn merge_line() -> spec_fn(Duplicate) -> Text {
    |d: Duplicate|
        "  Merged ["@ + signed_decimal_of(d.merged_id as int) + "] "@ + d.merged_name@ + " -> ["@
            + signed_decimal_of(d.kept_id as int) + "] "@ + d.kept_name@ + "\n"@
}

/// What is told of similar patterns and, unless it is only a report, of merging them. `limit` is
/// the threshold in percent, and `percents` are the scores.
pub open spec fn consolidation_text(
    found: Seq<Duplicate>,
    limit: Text,
    percents: Seq<Text>,
    report: bool,
) -> Text {
    if found.len() == 0 {
        "No duplicate pattern candidates found at threshold "@ + limit + "%.\n"@
    } else {
        let head = decimal_of(found.len()) + " candidate pair(s) above "@ + limit
            + "% similarity:\n\n"@ + numbered_out(found, candidate_line(percents));
        if report {
            head + "\nReport-only mode. No patterns were modified.\n"@
        } else {
            head + "\nMerging: keeping higher-use pattern in each pair...\n"@ + written_out(
                found,
                merge_line(),
            ) + "Done. Run `cortex index` to rebuild FTS from updated patterns.\n"@
        }
    }
}

/// What is told of similar patterns and of merging them.
pub fn run_consolidate(
    found: &Vec<Duplicate>,
    limit: &str,
    percents: &Vec<String>,
    report: bool,
) -> (r: String)
    requires
        percents@.len() == found@.len(),
    ensures
        r@ == consolidation_text(found@, limit@, views(percents@), report),
{
    if found.len() == 0 {
        let mut s = "No duplicate pattern candidates found at threshold ".to_owned();
        s.append(limit);
        s.append("%.\n");
        return s;
    }
    let mut out = count_text(found.len());
    out.append(" candidate pair(s) above ");
    out.append(limit);
    out.append("% similarity:\n\n");
    out.append(candidate_lines(found, percents).as_str());
    if report {
        out.append("\nReport-only mode. No patterns were modified.\n");
    } else {
        let line = |d: &Duplicate| -> (t: String)
            ensures
                t@ == merge_line()(*d),
            {
                let mut s = "  Merged [".to_owned();
                s.append(signed_decimal(d.merged_id).as_str());
                s.append("] ");
                s.append(d.merged_name.as_str());
                s.append(" -> [");
                s.append(signed_decimal(d.kept_id).as_str());
                s.append("] ");
                s.append(d.kept_name.as_str());
                s.append("\n");
                s
            };
        out.append("\nMerging: keeping higher-use pattern in each pair...\n");
        out.append(write_all(found, line, Ghost(merge_line())).as_str());
        out.append("Done. Run `cortex index` to rebuild FTS from updated patterns.\n");
    }
    out
}

/// The lines of the report.
fn candidate_lines(found: &Vec<Duplicate>, percents: &Vec<String>) -> (r: String)
    requires
        percents@.len() == found@.len(),
    ensures
        r@ == numbered_out(found@, candidate_line(views(percents@))),
{
    let ghost line = candidate_line(views(percents@));
    let mut out = String::new();
    let mut i: usize = 0;
    assert(out@ == numbered_out(found@.take(0), line));
    while i < found.len()
        invariant
            i <= found@.len() == percents@.len(),
            line == candidate_line(views(percents@)),
            out@ == numbered_out(found@.take(i as int), line),
        decreases found@.len() - i,
    {
        assert(found@.take(i + 1).drop_last() == found@.take(i as int));
        assert(found@.take(i + 1).last() == found@[i as int]);
        let d = &found[i];
        let mut s = "  [".to_owned();
        s.append(signed_decimal(d.kept_id).as_str());
        s.append("] ");
        s.append(d.kept_name.as_str());
        s.append("  <=>  [");
        s.append(signed_decimal(d.merged_id).as_str());
        s.append("] ");
        s.append(d.merged_name.as_str());
        s.append("  (");
        s.append(percents[i].as_str());
        s.append("%)\n");
        out.append(s.as_str());
        i = i + 1;
    }
    assert(found@.take(i as int) == found@);
    out
}

/// What is compared of a pattern holds its intent, its body and everything that it uses.
pub proof fn law_whole_content_is_compared(p: Pattern, k: int)
    ensures
        p.intent@.is_prefix_of(content_of(p)),
        contains_text(content_of(p), " "@ + p.body@ + " "@),
        0 <= k < p.uses@.len() ==> contains_text(content_of(p), p.uses@[k]@),
{
    let all = content_of(p);
    let uses = join_of(views(p.uses@), " "@);
    assert(all.take(p.intent@.len() as int) =~= p.intent@);
    assert(all =~= p.intent@ + (" "@ + p.body@ + " "@) + uses);
    lemma_contains_middle(p.intent@, " "@ + p.body@ + " "@, uses);
    if 0 <= k < p.uses@.len() {
        lemma_join_holds(views(p.uses@), " "@, k);
        lemma_contains_half(p.intent@ + " "@ + p.body@ + " "@, uses, views(p.uses@)[k]);
    }
}

/// A pattern is dead just where less than a tenth of its uses survived: its rate, given as the bits
/// of a single-precision number, lies below those of a tenth, or is negative.
pub proof fn law_pattern_dies_below_a_tenth(p: Pattern)
    ensures
        p.survival_rate.bits < 0x8000_0000 ==> (is_alive(p) <==> p.survival_rate.bits
            >= 0x3dcc_cccd),
        0x8000_0000 <= p.survival_rate.bits <= 0xff80_0000 ==> !is_alive(p),
{
}

/// Two patterns that are compared are listed as similar just where both have a number and the score
/// is no lower than the threshold, both taken as numbers; the one that stands in front is kept.
pub proof fn law_pair_is_similar_from_the_threshold_on(
    patterns: Seq<Pattern>,
    pair: (usize, usize),
    score: u32,
    threshold: u32,
)
    requires
        score <= 0x7f80_0000,
        threshold <= 0x7f80_0000,
    ensures
        ({
            let d = duplicate_of(patterns, pair, score, threshold);
            let (a, b) = (patterns[pair.0 as int], patterns[pair.1 as int]);
            &&& d is Some <==> a.id is Some && b.id is Some && score >= threshold
            &&& d is Some ==> d->0.kept_id == a.id->0 && d->0.merged_id == b.id->0
                && d->0.kept_name == a.name@ && d->0.merged_name == b.name@ && d->0.score == score
        }),
{
}

/// Merging sets the pattern that is merged to the lowest standing and leaves its texts and every
/// other pattern as they were.
pub proof fn law_merge_touches_one_pattern(
    after: Seq<Pattern>,
    before: Seq<Pattern>,
    discard_id: i64,
    i: int,
)
    requires
        is_merged(after, before, discard_id),
        0 <= i < before.len(),
    ensures
        after.len() == before.len(),
        before[i].id != Some(discard_id) ==> after[i] == before[i],
        before[i].id == Some(discard_id) ==> after[i].reverted_count == 999
            && after[i].survival_rate.bits == 0 && after[i].name == before[i].name
            && after[i].body == before[i].body && after[i].intent == before[i].intent
            && after[i].uses == before[i].uses && after[i].use_count == before[i].use_count,
{
}

/// The report tells every pair with its score, and merges are told only where they are made.
pub proof fn law_every_pair_is_told(
    found: Seq<Duplicate>,
    limit: Text,
    percents: Seq<Text>,
    report: bool,
    i: int,
)
    requires
        0 <= i < found.len(),
    ensures
        contains_text(
            consolidation_text(found, limit, percents, report),
            "  ["@ + signed_decimal_of(found[i].kept_id as int) + "] "@ + found[i].kept_name@
                + "  <=>  ["@ + signed_decimal_of(found[i].merged_id as int) + "] "@
                + found[i].merged_name@ + "  ("@ + percents[i] + "%)\n"@,
        ),
        !report ==> contains_text(
            consolidation_text(found, limit, percents, report),
            "  Merged ["@ + signed_decimal_of(found[i].merged_id as int) + "] "@
                + found[i].merged_name@ + " -> ["@ + signed_decimal_of(found[i].kept_id as int)
                + "] "@ + found[i].kept_name@ + "\n"@,
        ),
        report ==> "\nReport-only mode. No patterns were modified.\n"@.is_suffix_of(
            consolidation_text(found, limit, percents, report),
        ),
{
    let lines = numbered_out(found, candidate_line(percents));
    let front = decimal_of(found.len()) + " candidate pair(s) above "@ + limit
        + "% similarity:\n\n"@;
    let head = front + lines;
    let part = candidate_line(percents)((i + 1) as nat, found[i]);
    lemma_numbered_out_holds(found, candidate_line(percents), i);
    lemma_contains_half(front, lines, part);
    let note = "\nReport-only mode. No patterns were modified.\n"@;
    lemma_contains_half(head, note, part);
    let title = "\nMerging: keeping higher-use pattern in each pair...\n"@;
    let merges = written_out(found, merge_line());
    let done = "Done. Run `cortex index` to rebuild FTS from updated patterns.\n"@;
    lemma_contains_half(head, title, part);
    lemma_contains_half(head + title, merges, part);
    lemma_contains_half(head + title + merges, done, part);
    lemma_written_out_holds(found, merge_line(), i);
    let merged = merge_line()(found[i]);
    lemma_contains_half(head + title, merges, merged);
    lemma_contains_half(head + title + merges, done, merged);
    if report {
        let all = head + note;
        assert(all.skip(all.len() - note.len()) =~= note);
    }
}

} // verus!
