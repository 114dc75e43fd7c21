//! How the proposals of the pipeline fare, and what that suggests.

use crate::floats::{above, is_above, percent_of, percent_text};
use crate::hash::{text_hash, text_hash_of};
use crate::json::{
    add_field, json_of_text, no_entries, no_fields, object, parse_json, text, Json, JsonView,
};
use crate::lists::{items, kept, lemma_kept_agree, refs_of};
use crate::numbers::{decimal, decimal_of};
use crate::order::{in_rank, law_ranking_orders, placed, rank_refs, ranked};
use crate::rates::Ratio;
use crate::text::{lines, lines_of, occurs_at, starts_with, views, Text};
use vstd::prelude::*;

verus! {

/// How many proposals there are, in all and by status.
#[derive(Debug, Clone, Copy, PartialEq, Eq, Structural)]
pub struct ProposalCounts {
    pub total: u64,
    pub approved: u64,
    pub rejected: u64,
    pub pending: u64,
    pub trial: u64,
}

/// A kind of rejection and how often it came.
#[derive(Debug, Clone)]
pub struct Rejection {
    pub kind: String,
    pub count: u64,
}

/// The model of a list of rejections.
pub open spec fn pairs(list: Seq<Rejection>) -> Seq<(Text, u64)> {
    list.map_values(|r: Rejection| (r.kind@, r.count))
}

/// How the proposals fared.
#[derive(Debug, Clone)]
pub struct MetaReport {
    pub generated_at: String,
    pub total_proposals: u64,
    pub approved: u64,
    pub rejected: u64,
    pub pending: u64,
    pub trial: u64,
    pub approval_rate: Ratio,
    pub gate_rejection_rate: Ratio,
    pub top_rejected_types: Vec<Rejection>,
}

impl Default for MetaReport {
    fn default() -> (r: Self)
        ensures
            r.generated_at@.len() == 0,
            r.total_proposals == 0,
            r.approved == 0,
            r.rejected == 0,
            r.pending == 0,
            r.trial == 0,
            r.approval_rate == (Ratio { num: 0, den: 1 }),
            r.gate_rejection_rate == (Ratio { num: 0, den: 1 }),
            r.top_rejected_types@.len() == 0,
    {
        MetaReport {
            generated_at: String::new(),
            total_proposals: 0,
            approved: 0,
            rejected: 0,
            pending: 0,
            trial: 0,
            approval_rate: Ratio { num: 0, den: 1 },
            gate_rejection_rate: Ratio { num: 0, den: 1 },
            top_rejected_types: Vec::new(),
        }
    }
}

/// A gate at which a proposal can fail.
#[derive(Debug, Clone, Copy, PartialEq, Eq, Structural)]
pub enum Gate {
    Duplicate,
    RustSyntax,
    Credibility,
    GapTrial,
    SurvivalTrend,
    Other,
}

impl Gate {
    /// The name of a gate.
    pub open spec fn name_of(self) -> Text {
        match self {
            Gate::Duplicate => "duplicate"@,
            Gate::RustSyntax => "rust_syntax"@,
            Gate::Credibility => "credibility"@,
            Gate::GapTrial => "gap_trial"@,
            Gate::SurvivalTrend => "survival_trend"@,
            Gate::Other => "other"@,
        }
    }

    /// The name of a gate.
    pub fn name(self) -> (r: String)
        ensures
            r@ == self.name_of(),
    {
        match self {
            Gate::Duplicate => "duplicate".to_owned(),
            Gate::RustSyntax => "rust_syntax".to_owned(),
            Gate::Credibility => "credibility".to_owned(),
            Gate::GapTrial => "gap_trial".to_owned(),
            Gate::SurvivalTrend => "survival_trend".to_owned(),
            Gate::Other => "other".to_owned(),
        }
    }

    /// Where the proposal failed that gave this reason.
    pub open spec fn of(reason: Text) -> Gate {
        if occurs_at(reason, "duplicate:"@, 0) {
            Gate::Duplicate
        } else if occurs_at(reason, "rust_syntax:"@, 0) {
            Gate::RustSyntax
        } else if occurs_at(reason, "credibility:"@, 0) {
            Gate::Credibility
        } else if occurs_at(reason, "gap_trial:"@, 0) {
            Gate::GapTrial
        } else if occurs_at(reason, "survival_trend:"@, 0) {
            Gate::SurvivalTrend
        } else {
            Gate::Other
        }
    }

    /// Where the proposal failed that gave this reason.
    pub fn of_reason(reason: &str) -> (r: Gate)
        ensures
            r == Gate::of(reason@),
    {
        if starts_with(reason, "duplicate:") {
            Gate::Duplicate
        } else if starts_with(reason, "rust_syntax:") {
            Gate::RustSyntax
        } else if starts_with(reason, "credibility:") {
            Gate::Credibility
        } else if starts_with(reason, "gap_trial:") {
            Gate::GapTrial
        } else if starts_with(reason, "survival_trend:") {
            Gate::SurvivalTrend
        } else {
            Gate::Other
        }
    }
}

/// The reason that a line of the rejection log gives.
pub open spec fn reason_of(line: Text) -> Option<Text> {
    match json_of_text(line) {
        Some(v) => v.text_field("reason"@),
        None => None,
    }
}

/// The gates of the reasons that the lines give, in their order.
pub open spec fn gates_of(lines: Seq<Text>) -> Seq<Gate>
    decreases lines.len(),
{
    if lines.len() == 0 {
        Seq::empty()
    } else {
        match reason_of(lines.last()) {
            Some(reason) => gates_of(lines.drop_last()).push(Gate::of(reason)),
            None => gates_of(lines.drop_last()),
        }
    }
}

/// The gates at which the proposals of a rejection log failed.
pub fn gates_in(log: &str) -> (r: Vec<Gate>)
    ensures
        r@ == gates_of(lines_of(log@)),
{
    let all_lines = lines(log);
    let ghost all = views(all_lines@);
    let mut out: Vec<Gate> = Vec::new();
    let mut i: usize = 0;
    while i < all_lines.len()
        invariant
            i <= all_lines@.len() == all.len(),
            all == views(all_lines@),
            out@ == gates_of(all.take(i as int)),
        decreases all_lines@.len() - i,
    {
        assert(all.take(i + 1).drop_last() == all.take(i as int));
        assert(all.take(i + 1).last() == all_lines@[i as int]@);
        match parse_json(all_lines[i].as_str()) {
            Some(v) => match v.str_at("reason") {
                Some(reason) => {
                    out.push(Gate::of_reason(reason));
                },
                None => {},
            },
            None => {},
        }
        i = i + 1;
    }
    assert(all.take(i as int) == all);
    out
}

/// How often `gate` occurs.
pub open spec fn count_of(gates: Seq<Gate>, gate: Gate) -> nat
    decreases gates.len(),
{
    if gates.len() == 0 {
        0
    } else if gates.last() == gate {
        count_of(gates.drop_last(), gate) + 1
    } else {
        count_of(gates.drop_last(), gate)
    }
}

/// `list` with the entry of `gate`, if it occurs.
pub open spec fn with_gate(list: Seq<(Text, u64)>, gates: Seq<Gate>, gate: Gate) -> Seq<
    (Text, u64),
> {
    if count_of(gates, gate) == 0 {
        list
    } else {
        list.push(("gate:"@ + gate.name_of(), count_of(gates, gate) as u64))
    }
}

/// `list` with an entry for each gate that occurs.
pub open spec fn with_gates(list: Seq<(Text, u64)>, gates: Seq<Gate>) -> Seq<(Text, u64)> {
    with_gate(
        with_gate(
            with_gate(
                with_gate(
                    with_gate(with_gate(list, gates, Gate::Duplicate), gates, Gate::RustSyntax),
                    gates,
                    Gate::Credibility,
                ),
                gates,
                Gate::GapTrial,
            ),
            gates,
            Gate::SurvivalTrend,
        ),
        gates,
        Gate::Other,
    )
}

/// How often `gate` occurs.
fn count(gates: &Vec<Gate>, gate: Gate) -> (r: u64)
    ensures
        r == count_of(gates@, gate),
{
    let mut n: u64 = 0;
    let mut i: usize = 0;
    while i < gates.len()
        invariant
            i <= gates@.len(),
            n <= i,
            n == count_of(gates@.take(i as int), gate),
        decreases gates@.len() - i,
    {
        assert(gates@.take(i + 1).drop_last() == gates@.take(i as int));
        if gates[i] == gate {
            n = n + 1;
        }
        i = i + 1;
    }
    assert(gates@.take(i as int) == gates@);
    n
}

/// Adds the entry of `gate`, if it occurs.
fn add_gate(list: &mut Vec<Rejection>, gates: &Vec<Gate>, gate: Gate)
    ensures
        pairs(final(list)@) == with_gate(pairs(old(list)@), gates@, gate),
{
    let n = count(gates, gate);
    if n > 0 {
        let mut kind = "gate:".to_owned();
        kind.append(gate.name().as_str());
        let ghost before = list@;
        list.push(Rejection { kind, count: n });
        assert(pairs(list@) == pairs(before).push((kind@, n)));
    }
}

/// The order of a report: what came more often goes first.
pub open spec fn more_often() -> spec_fn((Text, u64), (Text, u64)) -> bool {
    |a: (Text, u64), b: (Text, u64)| a.1 > b.1
}

/// The order of a report on the entries themselves.
pub open spec fn entry_more_often() -> spec_fn(Rejection, Rejection) -> bool {
    |a: Rejection, b: Rejection| a.count > b.count
}

/// What is said of the kinds of rejection: those of the table and those of the gates, what came
/// more often first.
pub open spec fn top_of(by_type: Seq<(Text, u64)>, gates: Option<Seq<Gate>>) -> Seq<(Text, u64)> {
    match gates {
        Some(g) => ranked(with_gates(by_type, g), more_often()),
        None => ranked(by_type, more_often()),
    }
}

/// Putting the entries in order and taking their models are interchangeable.
proof fn lemma_ranked_pairs(list: Seq<Rejection>)
    ensures
        pairs(ranked(list, entry_more_often())) == ranked(pairs(list), more_often()),
    decreases list.len(),
{
    if list.len() > 0 {
        let start = list.drop_last();
        lemma_ranked_pairs(start);
        lemma_placed_pairs(ranked(start, entry_more_often()), list.last());
        assert(pairs(list).drop_last() == pairs(start));
    } else {
        assert(pairs(ranked(list, entry_more_often())) == ranked(pairs(list), more_often()));
    }
}

/// Putting an entry in its place and taking models are interchangeable.
proof fn lemma_placed_pairs(sorted: Seq<Rejection>, x: Rejection)
    ensures
        pairs(placed(sorted, entry_more_often(), x)) == placed(
            pairs(sorted),
            more_often(),
            (x.kind@, x.count),
        ),
    decreases sorted.len(),
{
    if sorted.len() > 0 && x.count > sorted.last().count {
        let start = sorted.drop_last();
        lemma_placed_pairs(start, x);
        assert(pairs(sorted).drop_last() == pairs(start));
        let head = placed(start, entry_more_often(), x);
        assert(pairs(head.push(sorted.last())) == pairs(head).push(
            (sorted.last().kind@, sorted.last().count),
        ));
    } else {
        assert(pairs(sorted.push(x)) == pairs(sorted).push((x.kind@, x.count)));
    }
}

/// A kind of the table, and none of a gate.
pub open spec fn is_of_table() -> spec_fn((Text, u64)) -> bool {
    |p: (Text, u64)| !occurs_at(p.0, "gate:"@, 0)
}

/// The sum of the counts.
pub open spec fn total_of(list: Seq<(Text, u64)>) -> nat
    decreases list.len(),
{
    if list.len() == 0 {
        0
    } else {
        total_of(list.drop_last()) + list.last().1 as nat
    }
}

/// The sum of the counts of the kinds of the table.
pub open spec fn table_total(list: Seq<(Text, u64)>) -> nat {
    total_of(kept(list, is_of_table()))
}

/// What is left of `a` after `b` is taken away.
pub open spec fn left_over(a: nat, b: nat) -> nat {
    if a > b {
        (a - b) as nat
    } else {
        0
    }
}

/// `num` by `den`, or nothing where there is nothing to divide by.
pub open spec fn rate_of(num: nat, den: nat) -> Ratio {
    if den == 0 {
        Ratio { num: 0, den: 1 }
    } else {
        Ratio { num: num as u64, den: den as u64 }
    }
}

/// `r` reports on the proposals.
pub open spec fn reports(
    r: MetaReport,
    counts: ProposalCounts,
    by_type: Seq<(Text, u64)>,
    gates: Option<Seq<Gate>>,
    generated_at: Text,
) -> bool {
    let top = top_of(by_type, gates);
    &&& r.generated_at@ == generated_at
    &&& r.total_proposals == counts.total
    &&& r.approved == counts.approved
    &&& r.rejected == counts.rejected
    &&& r.pending == counts.pending
    &&& r.trial == counts.trial
    &&& r.approval_rate == rate_of(counts.approved as nat, counts.total as nat)
    &&& r.gate_rejection_rate == rate_of(
        left_over(counts.rejected as nat, table_total(top)),
        counts.total as nat,
    )
    &&& pairs(r.top_rejected_types@) == top
}

/// What is left of `rejected` after the counts of the table are taken away.
fn gate_rejections(list: &Vec<Rejection>, rejected: u64) -> (r: u64)
    ensures
        r == left_over(rejected as nat, table_total(pairs(list@))),
        r <= rejected,
{
    let ghost all = pairs(list@);
    let mut rest: u64 = rejected;
    let mut i: usize = 0;
    while i < list.len()
        invariant
            i <= list@.len() == all.len(),
            all == pairs(list@),
            rest == left_over(rejected as nat, table_total(all.take(i as int))),
            rest <= rejected,
        decreases list@.len() - i,
    {
        assert(all.take(i + 1).drop_last() == all.take(i as int));
        assert(all.take(i + 1).last() == (list@[i as int].kind@, list@[i as int].count));
        let ghost before = kept(all.take(i as int), is_of_table());
        if !starts_with(list[i].kind.as_str(), "gate:") {
            let n = list[i].count;
            assert(before.push(all[i as int]).drop_last() == before);
            rest = if rest > n {
                rest - n
            } else {
                0
            };
        }
        i = i + 1;
    }
    assert(all.take(i as int) == all);
    rest
}

/// Copies rejections.
fn copied(list: &Vec<&Rejection>) -> (r: Vec<Rejection>)
    ensures
        pairs(r@) == pairs(items(list@)),
{
    let ghost all = pairs(items(list@));
    let mut out: Vec<Rejection> = Vec::new();
    let mut i: usize = 0;
    assert(pairs(out@) == all.take(0));
    while i < list.len()
        invariant
            i <= list@.len() == all.len(),
            all == pairs(items(list@)),
            pairs(out@) == all.take(i as int),
        decreases list@.len() - i,
    {
        let ghost before = out@;
        out.push(Rejection { kind: list[i].kind.clone(), count: list[i].count });
        assert(pairs(out@) == pairs(before).push(all[i as int]));
        assert(all.take(i + 1) == all.take(i as int).push(all[i as int]));
        i = i + 1;
    }
    assert(all.take(i as int) == all);
    out
}

/// The report on the proposals, given the counts of rejections by type and, where there is a
/// rejection log, the gates that it tells of.
pub fn meta_report(
    counts: &ProposalCounts,
    by_type: &Vec<Rejection>,
    gates: Option<&Vec<Gate>>,
    generated_at: &str,
) -> (r: MetaReport)
    ensures
        reports(
            r,
            *counts,
            pairs(by_type@),
            match gates {
                Some(g) => Some(g@),
                None => None,
            },
            generated_at@,
        ),
{
    let refs = refs_of(by_type);
    let mut list = copied(&refs);
    match gates {
        Some(g) => {
            add_gate(&mut list, g, Gate::Duplicate);
            add_gate(&mut list, g, Gate::RustSyntax);
            add_gate(&mut list, g, Gate::Credibility);
            add_gate(&mut list, g, Gate::GapTrial);
            add_gate(&mut list, g, Gate::SurvivalTrend);
            add_gate(&mut list, g, Gate::Other);
        },
        None => {},
    }
    let ahead = |a: &Rejection, b: &Rejection| -> (r: bool)
        ensures
            r == entry_more_often()(*a, *b),
        { a.count > b.count };
    let all_refs = refs_of(&list);
    let sorted = rank_refs(&all_refs, ahead, Ghost(entry_more_often()));
    proof {
        lemma_ranked_pairs(list@);
    }
    let top = copied(&sorted);
    let at_gates = gate_rejections(&top, counts.rejected);
    let total = counts.total;
    let none = Ratio { num: 0, den: 1 };
    MetaReport {
        generated_at: generated_at.to_owned(),
        total_proposals: total,
        approved: counts.approved,
        rejected: counts.rejected,
        pending: counts.pending,
        trial: counts.trial,
        approval_rate: if total > 0 {
            Ratio { num: counts.approved, den: total }
        } else {
            none
        },
        gate_rejection_rate: if total > 0 {
            Ratio { num: at_gates, den: total }
        } else {
            none
        },
        top_rejected_types: top,
    }
}

/// The report on the proposals, given the counts of rejections by type and the content of the
/// rejection log, where there is one.
pub fn build_meta_report(
    counts: &ProposalCounts,
    by_type: &Vec<Rejection>,
    rejected_log: Option<&str>,
    generated_at: &str,
) -> (r: MetaReport)
    ensures
        reports(
            r,
            *counts,
            pairs(by_type@),
            match rejected_log {
                Some(log) => Some(gates_of(lines_of(log@))),
                None => None,
            },
            generated_at@,
        ),
{
    match rejected_log {
        Some(log) => {
            let gates = gates_in(log);
            meta_report(counts, by_type, Some(&gates), generated_at)
        },
        None => meta_report(counts, by_type, None, generated_at),
    }
}

/// A kind of a gate.
pub open spec fn is_of_gate() -> spec_fn((Text, u64)) -> bool {
    |p: (Text, u64)| occurs_at(p.0, "gate:"@, 0)
}

/// The sum of the counts of the kinds of gates.
pub open spec fn gate_total(list: Seq<(Text, u64)>) -> nat {
    total_of(kept(list, is_of_gate()))
}

/// A line of the rejection log that gives a reason.
pub open spec fn gives_reason() -> spec_fn(Text) -> bool {
    |line: Text| reason_of(line) is Some
}

/// What an entry adds to the sum of the counts of gates.
spec fn gate_weight(p: (Text, u64)) -> nat {
    if is_of_gate()(p) {
        p.1 as nat
    } else {
        0
    }
}

/// An entry adds its weight to the sum.
proof fn lemma_gate_total_push(list: Seq<(Text, u64)>, p: (Text, u64))
    ensures
        gate_total(list.push(p)) == gate_total(list) + gate_weight(p),
{
    assert(list.push(p).drop_last() == list);
    assert(list.push(p).last() == p);
    if is_of_gate()(p) {
        let front = kept(list, is_of_gate());
        assert(front.push(p).drop_last() == front);
    }
}

/// Putting an entry in its place adds its weight to the sum.
proof fn lemma_gate_total_placed(sorted: Seq<(Text, u64)>, p: (Text, u64))
    ensures
        gate_total(placed(sorted, more_often(), p)) == gate_total(sorted) + gate_weight(p),
    decreases sorted.len(),
{
    if sorted.len() == 0 || !more_often()(p, sorted.last()) {
        lemma_gate_total_push(sorted, p);
    } else {
        let start = sorted.drop_last();
        lemma_gate_total_placed(start, p);
        lemma_gate_total_push(placed(start, more_often(), p), sorted.last());
        lemma_gate_total_push(start, sorted.last());
        assert(start.push(sorted.last()) == sorted);
    }
}

/// Putting entries in order leaves the sum as it is.
proof fn lemma_gate_total_ranked(list: Seq<(Text, u64)>)
    ensures
        gate_total(ranked(list, more_often())) == gate_total(list),
    decreases list.len(),
{
    if list.len() > 0 {
        let start = list.drop_last();
        lemma_gate_total_ranked(start);
        lemma_gate_total_placed(ranked(start, more_often()), list.last());
        lemma_gate_total_push(start, list.last());
        assert(start.push(list.last()) == list);
    }
}

/// The kinds of the table add nothing to the sum.
proof fn lemma_gate_total_of_table(list: Seq<(Text, u64)>)
    requires
        forall|i: int| 0 <= i < list.len() ==> is_of_table()(#[trigger] list[i]),
    ensures
        gate_total(list) == 0,
    decreases list.len(),
{
    if list.len() > 0 {
        let start = list.drop_last();
        assert forall|i: int| 0 <= i < start.len() implies is_of_table()(#[trigger] start[i]) by {
            assert(start[i] == list[i]);
        }
        lemma_gate_total_of_table(start);
        lemma_gate_total_push(start, list.last());
        assert(is_of_table()(list[list.len() - 1]));
        assert(start.push(list.last()) == list);
    }
}

/// The entry of a gate adds how often it occurs.
proof fn lemma_gate_total_with(list: Seq<(Text, u64)>, gates: Seq<Gate>, gate: Gate)
    requires
        gates.len() <= u64::MAX,
    ensures
        gate_total(with_gate(list, gates, gate)) == gate_total(list) + count_of(gates, gate),
{
    lemma_count_bound(gates, gate);
    let kind = "gate:"@ + gate.name_of();
    assert(kind.subrange(0, "gate:"@.len() as int) == "gate:"@);
    if count_of(gates, gate) > 0 {
        lemma_gate_total_push(list, (kind, count_of(gates, gate) as u64));
    }
}

/// A gate occurs at most as often as there are gates.
proof fn lemma_count_bound(gates: Seq<Gate>, gate: Gate)
    ensures
        count_of(gates, gate) <= gates.len(),
    decreases gates.len(),
{
    if gates.len() > 0 {
        lemma_count_bound(gates.drop_last(), gate);
    }
}

/// Every gate is one of six.
proof fn lemma_counts_add_up(gates: Seq<Gate>)
    ensures
        count_of(gates, Gate::Duplicate) + count_of(gates, Gate::RustSyntax) + count_of(
            gates,
            Gate::Credibility,
        ) + count_of(gates, Gate::GapTrial) + count_of(gates, Gate::SurvivalTrend) + count_of(
            gates,
            Gate::Other,
        ) == gates.len(),
    decreases gates.len(),
{
    if gates.len() > 0 {
        lemma_counts_add_up(gates.drop_last());
    }
}

/// There are as many gates as lines that give a reason.
proof fn lemma_gates_of_reasons(lines: Seq<Text>)
    ensures
        gates_of(lines).len() == kept(lines, gives_reason()).len(),
        gates_of(lines).len() <= lines.len(),
    decreases lines.len(),
{
    if lines.len() > 0 {
        lemma_gates_of_reasons(lines.drop_last());
    }
}

/// The counts of the gates in a report add up to the lines of the rejection log that give a reason,
/// where no kind of the table reads like one of a gate.
pub proof fn law_gate_counts_add_up(by_type: Seq<(Text, u64)>, lines: Seq<Text>)
    requires
        lines.len() <= u64::MAX,
        forall|i: int| 0 <= i < by_type.len() ==> is_of_table()(#[trigger] by_type[i]),
    ensures
        gate_total(top_of(by_type, Some(gates_of(lines)))) == kept(lines, gives_reason()).len(),
{
    let g = gates_of(lines);
    lemma_gates_of_reasons(lines);
    lemma_counts_add_up(g);
    lemma_gate_total_ranked(with_gates(by_type, g));
    lemma_gate_total_of_table(by_type);
    let a = with_gate(by_type, g, Gate::Duplicate);
    let b = with_gate(a, g, Gate::RustSyntax);
    let c = with_gate(b, g, Gate::Credibility);
    let d = with_gate(c, g, Gate::GapTrial);
    let e = with_gate(d, g, Gate::SurvivalTrend);
    lemma_gate_total_with(by_type, g, Gate::Duplicate);
    lemma_gate_total_with(a, g, Gate::RustSyntax);
    lemma_gate_total_with(b, g, Gate::Credibility);
    lemma_gate_total_with(c, g, Gate::GapTrial);
    lemma_gate_total_with(d, g, Gate::SurvivalTrend);
    lemma_gate_total_with(e, g, Gate::Other);
}

/// What came more often stands in front, and no entry is lost or added.
pub proof fn law_kinds_fall_in_count(by_type: Seq<(Text, u64)>, gates: Option<Seq<Gate>>)
    ensures
        in_rank(top_of(by_type, gates), more_often()),
        top_of(by_type, gates).to_multiset() == match gates {
            Some(g) => with_gates(by_type, g).to_multiset(),
            None => by_type.to_multiset(),
        },
{
    let ok = |p: (Text, u64)| true;
    match gates {
        Some(g) => law_ranking_orders(with_gates(by_type, g), more_often(), ok),
        None => law_ranking_orders(by_type, more_often(), ok),
    }
}

/// A proposal about the pipeline itself.
pub struct MetaProposal {
    pub proposal_type: String,
    pub content_hash: String,
    pub target_file: String,
    pub proposed_text: String,
    pub evidence: Json,
    pub status: String,
    pub gate_signals: String,
}

/// The model of a proposal about the pipeline.
#[verifier::ext_equal]
pub struct MetaProposalView {
    pub proposal_type: Text,
    pub content_hash: Text,
    pub target_file: Text,
    pub proposed_text: Text,
    pub evidence: JsonView,
    pub status: Text,
    pub gate_signals: Text,
}

impl View for MetaProposal {
    type V = MetaProposalView;

    open spec fn view(&self) -> MetaProposalView {
        MetaProposalView {
            proposal_type: self.proposal_type@,
            content_hash: self.content_hash@,
            target_file: self.target_file@,
            proposed_text: self.proposed_text@,
            evidence: self.evidence@,
            status: self.status@,
            gate_signals: self.gate_signals@,
        }
    }
}

/// The models of proposals.
pub open spec fn proposals(list: Seq<MetaProposal>) -> Seq<MetaProposalView> {
    list.map_values(|p: MetaProposal| p@)
}

/// The rates of a report in the notation of JSON.
#[derive(Debug, Clone)]
pub struct RateTexts {
    pub approval_rate: String,
    pub gate_rejection_rate: String,
}

/// A waiting proposal about the thresholds.
pub open spec fn threshold_proposal(key: Text, told: Text, evidence: JsonView) -> MetaProposalView {
    MetaProposalView {
        proposal_type: "meta_threshold"@,
        content_hash: text_hash_of(key),
        target_file: ".cortex/prefs.toml"@,
        proposed_text: told,
        evidence,
        status: "pending"@,
        gate_signals: "{\"gate\":\"meta_analysis\"}"@,
    }
}

/// There are enough proposals to judge by.
pub open spec fn is_telling(report: MetaReport) -> bool {
    report.total_proposals >= 5
}

/// Six tenths as a single-precision number, in parts of those that one has.
pub const SIX_TENTHS: u32 = 10_066_330;

/// Seven tenths as a single-precision number, in parts of those that one has.
pub const SEVEN_TENTHS: u32 = 11_744_051;

/// The gates reject more than three fifths of the proposals.
pub open spec fn gates_are_harsh(report: MetaReport) -> bool {
    is_telling(report) && is_above(
        report.gate_rejection_rate.wide_single(),
        SIX_TENTHS as nat,
    )
}

/// No proposal was approved.
pub open spec fn nothing_is_approved(report: MetaReport) -> bool {
    is_telling(report) && report.approval_rate.num == 0
}

/// A kind of rejection makes up more than seven tenths of the proposals.
pub open spec fn is_dominant(report: MetaReport, count: u64) -> bool {
    is_telling(report) && is_above(
        (Ratio { num: count, den: report.total_proposals }).single(),
        SEVEN_TENTHS as nat,
    )
}

/// The proposal where the gates reject too much.
pub open spec fn harsh_gates(report: MetaReport, rates: RateTexts) -> MetaProposalView {
    threshold_proposal(
        "meta:gate_rejection_rate"@,
        "Meta: Gate rejection rate is "@ + percent_of(
            report.gate_rejection_rate.wide_single(),
        )
            + "% across "@ + decimal_of(report.total_proposals as nat)
            + " proposals. Review verification thresholds (credibility filter, gap trial)."@,
        JsonView::Object(
            no_fields().push(("source"@, JsonView::Text("meta_analysis"@))).push(
                ("gate_rejection_rate"@, JsonView::Float(rates.gate_rejection_rate@)),
            ).push(("approval_rate"@, JsonView::Float(rates.approval_rate@))).push(
                ("total_proposals"@, JsonView::Unsigned(report.total_proposals as nat)),
            ),
        ),
    )
}

/// The proposal where nothing is approved.
pub open spec fn no_approval(report: MetaReport) -> MetaProposalView {
    threshold_proposal(
        "meta:zero_approval"@,
        "Meta: Zero proposals approved out of "@ + decimal_of(report.total_proposals as nat)
            + " total. Pipeline may be generating low-quality proposals — review gate thresholds."@,
        JsonView::Object(
            no_fields().push(("source"@, JsonView::Text("meta_analysis"@))).push(
                ("total_proposals"@, JsonView::Unsigned(report.total_proposals as nat)),
            ).push(("approved"@, JsonView::Unsigned(0))),
        ),
    )
}

/// The proposal where one kind of rejection dominates.
pub open spec fn dominance(total: u64, kind: Text, count: u64) -> MetaProposalView {
    threshold_proposal(
        "meta:dominant_rejection:"@ + kind,
        "Meta: '"@ + kind + "' accounts for "@ + decimal_of(count as nat) + "/"@ + decimal_of(
            total as nat,
        ) + " rejections ("@ + (Ratio { num: count, den: total }).percent_text_of()
            + "%). Consider adjusting this gate threshold."@,
        JsonView::Object(
            no_fields().push(("source"@, JsonView::Text("meta_analysis"@))).push(
                ("dominant_type"@, JsonView::Text(kind)),
            ).push(("count"@, JsonView::Unsigned(count as nat))).push(
                ("total"@, JsonView::Unsigned(total as nat)),
            ),
        ),
    )
}

/// The proposals for the kinds of rejection that dominate.
pub open spec fn dominances(report: MetaReport, list: Seq<(Text, u64)>) -> Seq<MetaProposalView>
    decreases list.len(),
{
    if list.len() == 0 {
        Seq::empty()
    } else if is_dominant(report, list.last().1) {
        dominances(report, list.drop_last()).push(
            dominance(report.total_proposals, list.last().0, list.last().1),
        )
    } else {
        dominances(report, list.drop_last())
    }
}

/// The proposal on the gates, unless the like was rejected of late.
pub open spec fn gate_part(
    report: MetaReport,
    recently_rejected: bool,
    rates: RateTexts,
) -> Seq<MetaProposalView> {
    if gates_are_harsh(report) && !recently_rejected {
        Seq::empty().push(harsh_gates(report, rates))
    } else {
        Seq::empty()
    }
}

/// The proposal on approval.
pub open spec fn approval_part(report: MetaReport) -> Seq<MetaProposalView> {
    if nothing_is_approved(report) {
        Seq::empty().push(no_approval(report))
    } else {
        Seq::empty()
    }
}

/// What a report suggests.
pub open spec fn suggestions(
    report: MetaReport,
    recently_rejected: bool,
    rates: RateTexts,
) -> Seq<MetaProposalView> {
    gate_part(report, recently_rejected, rates) + approval_part(report) + dominances(
        report,
        pairs(report.top_rejected_types@),
    )
}

/// A waiting proposal about the thresholds.
fn threshold(key: &str, told: String, evidence: Json) -> (r: MetaProposal)
    ensures
        r@ == threshold_proposal(key@, told@, evidence@),
{
    MetaProposal {
        proposal_type: "meta_threshold".to_owned(),
        content_hash: text_hash(key),
        target_file: ".cortex/prefs.toml".to_owned(),
        proposed_text: told,
        evidence,
        status: "pending".to_owned(),
        gate_signals: "{\"gate\":\"meta_analysis\"}".to_owned(),
    }
}

/// The proposal where the gates reject too much.
fn on_gates(report: &MetaReport, rates: &RateTexts) -> (r: MetaProposal)
    requires
        report.gate_rejection_rate.wf(),
    ensures
        r@ == harsh_gates(*report, *rates),
{
    let mut told = "Meta: Gate rejection rate is ".to_owned();
    told.append(percent_text(report.gate_rejection_rate.to_wide_single()).as_str());
    told.append("% across ");
    told.append(decimal(report.total_proposals).as_str());
    told.append(" proposals. Review verification thresholds (credibility filter, gap trial).");
    let mut e = no_entries();
    add_field(&mut e, "source", text("meta_analysis"));
    add_field(&mut e, "gate_rejection_rate", Json::Float(rates.gate_rejection_rate.clone()));
    add_field(&mut e, "approval_rate", Json::Float(rates.approval_rate.clone()));
    add_field(&mut e, "total_proposals", Json::Unsigned(report.total_proposals));
    threshold("meta:gate_rejection_rate", told, object(e))
}

/// The proposal where nothing is approved.
fn on_approval(report: &MetaReport) -> (r: MetaProposal)
    ensures
        r@ == no_approval(*report),
{
    let mut told = "Meta: Zero proposals approved out of ".to_owned();
    told.append(decimal(report.total_proposals).as_str());
    told.append(
        " total. Pipeline may be generating low-quality proposals — review gate thresholds.",
    );
    let mut e = no_entries();
    add_field(&mut e, "source", text("meta_analysis"));
    add_field(&mut e, "total_proposals", Json::Unsigned(report.total_proposals));
    add_field(&mut e, "approved", Json::Unsigned(0));
    threshold("meta:zero_approval", told, object(e))
}

/// The proposal where one kind of rejection dominates.
fn on_dominance(total: u64, kind: &str, count: u64) -> (r: MetaProposal)
    requires
        total > 0,
    ensures
        r@ == dominance(total, kind@, count),
{
    let mut key = "meta:dominant_rejection:".to_owned();
    key.append(kind);
    let share = Ratio { num: count, den: total };
    let mut told = "Meta: '".to_owned();
    told.append(kind);
    told.append("' accounts for ");
    told.append(decimal(count).as_str());
    told.append("/");
    told.append(decimal(total).as_str());
    told.append(" rejections (");
    told.append(share.percent_text().as_str());
    told.append("%). Consider adjusting this gate threshold.");
    let mut e = no_entries();
    add_field(&mut e, "source", text("meta_analysis"));
    add_field(&mut e, "dominant_type", text(kind));
    add_field(&mut e, "count", Json::Unsigned(count));
    add_field(&mut e, "total", Json::Unsigned(total));
    threshold(key.as_str(), told, object(e))
}

/// What a report suggests. `recently_rejected` tells whether a proposal on the gates was rejected
/// of late.
pub fn stage_meta_proposals(
    report: &MetaReport,
    recently_rejected: bool,
    rates: &RateTexts,
) -> (r: Vec<MetaProposal>)
    requires
        report.gate_rejection_rate.wf(),
    ensures
        proposals(r@) == suggestions(*report, recently_rejected, *rates),
{
    let mut out: Vec<MetaProposal> = Vec::new();
    let enough = report.total_proposals >= 5;
    assert(proposals(out@) == Seq::<MetaProposalView>::empty());
    if enough && above(report.gate_rejection_rate.to_wide_single(), SIX_TENTHS)
        && !recently_rejected {
        let ghost before = out@;
        out.push(on_gates(report, rates));
        assert(proposals(out@) == proposals(before).push(harsh_gates(*report, *rates)));
    }
    let ghost first = gate_part(*report, recently_rejected, *rates);
    assert(proposals(out@) == first);
    if enough && report.approval_rate.num == 0 {
        let ghost before = out@;
        out.push(on_approval(report));
        assert(proposals(out@) == proposals(before).push(no_approval(*report)));
    }
    let ghost head = first + approval_part(*report);
    assert(proposals(out@) == head);
    let ghost all = pairs(report.top_rejected_types@);
    let mut i: usize = 0;
    assert(head + dominances(*report, all.take(0)) == head);
    while i < report.top_rejected_types.len()
        invariant
            i <= report.top_rejected_types@.len() == all.len(),
            all == pairs(report.top_rejected_types@),
            enough == is_telling(*report),
            proposals(out@) == head + dominances(*report, all.take(i as int)),
        decreases report.top_rejected_types@.len() - i,
    {
        assert(all.take(i + 1).drop_last() == all.take(i as int));
        assert(all.take(i + 1).last() == all[i as int]);
        let kind = report.top_rejected_types[i].kind.as_str();
        let count = report.top_rejected_types[i].count;
        let share = Ratio { num: count, den: report.total_proposals };
        let ghost part = dominances(*report, all.take(i as int));
        if enough && above(share.to_single(), SEVEN_TENTHS) {
            let ghost before = out@;
            let p = on_dominance(report.total_proposals, kind, count);
            out.push(p);
            assert(proposals(out@) == proposals(before).push(p@));
            assert(head + part.push(p@) == (head + part).push(p@));
        }
        i = i + 1;
    }
    assert(all.take(i as int) == all);
    out
}

/// What is suggested only ever waits for a review, and concerns the preferences alone.
pub proof fn law_nothing_is_applied(
    report: MetaReport,
    recently_rejected: bool,
    rates: RateTexts,
    i: int,
)
    requires
        0 <= i < suggestions(report, recently_rejected, rates).len(),
    ensures
        suggestions(report, recently_rejected, rates)[i].status == "pending"@,
        suggestions(report, recently_rejected, rates)[i].proposal_type == "meta_threshold"@,
        suggestions(report, recently_rejected, rates)[i].target_file == ".cortex/prefs.toml"@,
{
    lemma_dominances_wait(report, pairs(report.top_rejected_types@));
}

/// The proposals on dominating kinds wait.
proof fn lemma_dominances_wait(report: MetaReport, list: Seq<(Text, u64)>)
    ensures
        forall|i: int|
            #![trigger dominances(report, list)[i]]
            0 <= i < dominances(report, list).len() ==> {
                &&& dominances(report, list)[i].status == "pending"@
                &&& dominances(report, list)[i].proposal_type == "meta_threshold"@
                &&& dominances(report, list)[i].target_file == ".cortex/prefs.toml"@
            },
    decreases list.len(),
{
    if list.len() > 0 {
        lemma_dominances_wait(report, list.drop_last());
    }
}

/// Of fewer than five proposals nothing is made.
pub proof fn law_few_proposals_tell_nothing(
    report: MetaReport,
    recently_rejected: bool,
    rates: RateTexts,
)
    requires
        report.total_proposals < 5,
    ensures
        suggestions(report, recently_rejected, rates).len() == 0,
{
    lemma_no_dominance(report, pairs(report.top_rejected_types@));
}

/// Among few proposals no kind of rejection dominates.
proof fn lemma_no_dominance(report: MetaReport, list: Seq<(Text, u64)>)
    requires
        report.total_proposals < 5,
    ensures
        dominances(report, list).len() == 0,
    decreases list.len(),
{
    if list.len() > 0 {
        lemma_no_dominance(report, list.drop_last());
    }
}

/// The rates of a report are shares of its proposals.
pub proof fn law_rates_are_shares(
    r: MetaReport,
    counts: ProposalCounts,
    by_type: Seq<(Text, u64)>,
    gates: Option<Seq<Gate>>,
    generated_at: Text,
)
    requires
        reports(r, counts, by_type, gates, generated_at),
        counts.approved <= counts.total,
        counts.rejected <= counts.total,
    ensures
        r.approval_rate.is_share(),
        r.gate_rejection_rate.is_share(),
{
}

/// A reason begins with a word before a colon, and that word tells where the proposal was held up.
pub proof fn law_gate_is_told_by_the_reason(reason: Text)
    ensures
        Gate::of(reason) == Gate::Duplicate <==> "duplicate:"@.is_prefix_of(reason),
        Gate::of(reason) == Gate::RustSyntax <==> "rust_syntax:"@.is_prefix_of(reason),
        Gate::of(reason) == Gate::Credibility <==> "credibility:"@.is_prefix_of(reason),
        Gate::of(reason) == Gate::GapTrial <==> "gap_trial:"@.is_prefix_of(reason),
        Gate::of(reason) == Gate::SurvivalTrend <==> "survival_trend:"@.is_prefix_of(reason),
{
    lemma_begins(reason, "duplicate:"@);
    lemma_begins(reason, "rust_syntax:"@);
    lemma_begins(reason, "credibility:"@);
    lemma_begins(reason, "gap_trial:"@);
    lemma_begins(reason, "survival_trend:"@);
    reveal_strlit("duplicate:");
    reveal_strlit("rust_syntax:");
    reveal_strlit("credibility:");
    reveal_strlit("gap_trial:");
    reveal_strlit("survival_trend:");
    assert("duplicate:"@[0] == 'd' && "rust_syntax:"@[0] == 'r' && "credibility:"@[0] == 'c'
        && "gap_trial:"@[0] == 'g' && "survival_trend:"@[0] == 's');
}

/// A text begins with a part where the part occurs at its start.
proof fn lemma_begins(s: Text, part: Text)
    ensures
        occurs_at(s, part, 0) <==> part.is_prefix_of(s),
        part.is_prefix_of(s) && part.len() > 0 ==> s.len() > 0 && s[0] == part[0],
{
    if part.is_prefix_of(s) && part.len() > 0 {
        assert(s.take(part.len() as int)[0] == s[0]);
    }
}

/// Every line of the rejection log that gives a reason is counted for its gate, and no other line.
pub proof fn law_every_reason_is_counted(lines: Seq<Text>, line: Text)
    ensures
        gates_of(Seq::empty()).len() == 0,
        json_of_text(line) is Some && json_of_text(line)->0.text_field("reason"@) is Some
            ==> gates_of(lines.push(line)) == gates_of(lines).push(
            Gate::of(json_of_text(line)->0.text_field("reason"@)->0),
        ),
        json_of_text(line) is None || json_of_text(line)->0.text_field("reason"@) is None
            ==> gates_of(lines.push(line)) == gates_of(lines),
{
    assert(lines.push(line).drop_last() == lines);
}

/// A gate is counted as often as it occurs, and told under its name where it does; of one that does
/// not occur nothing is told.
pub proof fn law_gates_are_counted(gates: Seq<Gate>, gate: Gate, by_type: Seq<(Text, u64)>)
    ensures
        count_of(Seq::empty(), gate) == 0,
        count_of(gates.push(gate), gate) == count_of(gates, gate) + 1,
        forall|other: Gate|
            other != gate ==> #[trigger] count_of(gates.push(other), gate) == count_of(gates, gate),
        count_of(gates, gate) > 0 ==> with_gates(by_type, gates).contains(
            ("gate:"@ + gate.name_of(), count_of(gates, gate) as u64),
        ),
        by_type.is_prefix_of(with_gates(by_type, gates)),
        Gate::Duplicate.name_of() == "duplicate"@,
        Gate::RustSyntax.name_of() == "rust_syntax"@,
        Gate::Credibility.name_of() == "credibility"@,
        Gate::GapTrial.name_of() == "gap_trial"@,
        Gate::SurvivalTrend.name_of() == "survival_trend"@,
        Gate::Other.name_of() == "other"@,
{
    assert(gates.push(gate).drop_last() == gates);
    assert forall|other: Gate| other != gate implies #[trigger] count_of(gates.push(other), gate)
        == count_of(gates, gate) by {
        assert(gates.push(other).drop_last() == gates);
    }
    let a = with_gate(by_type, gates, Gate::Duplicate);
    let b = with_gate(a, gates, Gate::RustSyntax);
    let c = with_gate(b, gates, Gate::Credibility);
    let d = with_gate(c, gates, Gate::GapTrial);
    let e = with_gate(d, gates, Gate::SurvivalTrend);
    let f = with_gate(e, gates, Gate::Other);
    lemma_with_gate_keeps(by_type, gates, Gate::Duplicate);
    lemma_with_gate_keeps(a, gates, Gate::RustSyntax);
    lemma_with_gate_keeps(b, gates, Gate::Credibility);
    lemma_with_gate_keeps(c, gates, Gate::GapTrial);
    lemma_with_gate_keeps(d, gates, Gate::SurvivalTrend);
    lemma_with_gate_keeps(e, gates, Gate::Other);
    assert(by_type =~= f.take(by_type.len() as int));
    if count_of(gates, gate) > 0 {
        let entry = ("gate:"@ + gate.name_of(), count_of(gates, gate) as u64);
        let n: int = match gate {
            Gate::Duplicate => by_type.len() as int,
            Gate::RustSyntax => a.len() as int,
            Gate::Credibility => b.len() as int,
            Gate::GapTrial => c.len() as int,
            Gate::SurvivalTrend => d.len() as int,
            Gate::Other => e.len() as int,
        };
        assert(f[n] == entry);
    }
}

/// Adding the entry of a gate leaves those before it.
proof fn lemma_with_gate_keeps(list: Seq<(Text, u64)>, gates: Seq<Gate>, gate: Gate)
    ensures
        list.len() <= with_gate(list, gates, gate).len(),
        forall|i: int| 0 <= i < list.len() ==> with_gate(list, gates, gate)[i] == #[trigger] list[i],
        count_of(gates, gate) > 0 ==> with_gate(list, gates, gate).len() == list.len() + 1
            && with_gate(list, gates, gate).last() == (
            "gate:"@ + gate.name_of(),
            count_of(gates, gate) as u64,
        ),
{
}

/// The approval rate sets the approved proposals against all; the rate of rejections sets against
/// all the rejected ones that no kind of the table accounts for.
pub proof fn law_rates_set_counts_against_all(
    r: MetaReport,
    counts: ProposalCounts,
    by_type: Seq<(Text, u64)>,
    gates: Option<Seq<Gate>>,
    at: Text,
)
    requires
        reports(r, counts, by_type, gates, at),
    ensures
        ({
            let table = total_of(
                kept(top_of(by_type, gates), |p: (Text, u64)| !"gate:"@.is_prefix_of(p.0)),
            );
            &&& r.total_proposals == counts.total
            &&& r.approved == counts.approved
            &&& r.rejected == counts.rejected
            &&& r.pending == counts.pending
            &&& r.trial == counts.trial
            &&& counts.total > 0 ==> r.approval_rate == (Ratio {
                num: counts.approved,
                den: counts.total,
            })
            &&& counts.total == 0 ==> r.approval_rate.num == 0 && r.gate_rejection_rate.num == 0
            &&& counts.total > 0 ==> r.gate_rejection_rate.den == counts.total
            &&& counts.total > 0 && counts.rejected >= table ==> r.gate_rejection_rate.num
                == counts.rejected - table
            &&& counts.total > 0 && counts.rejected < table ==> r.gate_rejection_rate.num == 0
        }),
{
    let top = top_of(by_type, gates);
    let cond = |p: (Text, u64)| !"gate:"@.is_prefix_of(p.0);
    assert forall|p: (Text, u64)| #[trigger] is_of_table()(p) == cond(p) by {
        lemma_begins(p.0, "gate:"@);
    }
    lemma_kept_agree(top, is_of_table(), cond);
}

/// Counts are summed up one by one.
pub proof fn law_counts_are_summed_up(list: Seq<(Text, u64)>, p: (Text, u64))
    ensures
        total_of(Seq::empty()) == 0,
        total_of(list.push(p)) == total_of(list) + p.1,
{
    assert(list.push(p).drop_last() == list);
}

/// From five proposals on, a gate rejection rate above six tenths suggests a review of the
/// thresholds, unless the like was rejected of late; and no approval at all suggests a look at the
/// proposals. Each tells the numbers that it rests on.
pub proof fn law_rates_suggest_a_review(
    report: MetaReport,
    recently_rejected: bool,
    rates: RateTexts,
)
    ensures
        ({
            let harsh = report.total_proposals >= 5 && is_above(
                report.gate_rejection_rate.wide_single(),
                10_066_330,
            ) && !recently_rejected;
            let barren = report.total_proposals >= 5 && report.approval_rate.num == 0;
            let all = suggestions(report, recently_rejected, rates);
            let rest = dominances(report, pairs(report.top_rejected_types@));
            let first: int = if harsh {
                1
            } else {
                0
            };
            &&& all.len() == rest.len() + first + if barren {
                1int
            } else {
                0int
            }
            &&& harsh ==> all[0].proposed_text == "Meta: Gate rejection rate is "@ + percent_of(
                report.gate_rejection_rate.wide_single(),
            ) + "% across "@ + decimal_of(report.total_proposals as nat)
                + " proposals. Review verification thresholds (credibility filter, gap trial)."@
            &&& barren ==> all[first].proposed_text == "Meta: Zero proposals approved out of "@
                + decimal_of(report.total_proposals as nat)
                + " total. Pipeline may be generating low-quality proposals — review gate thresholds."@
            &&& harsh ==> all[0].content_hash == text_hash_of("meta:gate_rejection_rate"@)
            &&& barren ==> all[first].content_hash == text_hash_of("meta:zero_approval"@)
        }),
{
}

/// From five proposals on, each kind of rejection that makes up more than seven tenths of them
/// suggests that its threshold be adjusted, and names the kind and both counts; no other does.
pub proof fn law_dominant_rejection_is_told(
    report: MetaReport,
    list: Seq<(Text, u64)>,
    kind: Text,
    count: u64,
)
    ensures
        ({
            let much = report.total_proposals >= 5 && is_above(
                (Ratio { num: count, den: report.total_proposals }).single(),
                11_744_051,
            );
            let before = dominances(report, list);
            let after = dominances(report, list.push((kind, count)));
            &&& !much ==> after == before
            &&& much ==> after.len() == before.len() + 1 && after.drop_last() == before
                && after.last().proposed_text == "Meta: '"@ + kind + "' accounts for "@
                + decimal_of(count as nat) + "/"@ + decimal_of(report.total_proposals as nat)
                + " rejections ("@ + (Ratio {
                num: count,
                den: report.total_proposals,
            }).percent_text_of() + "%). Consider adjusting this gate threshold."@
                && after.last().content_hash == text_hash_of(
                "meta:dominant_rejection:"@ + kind,
            )
            &&& dominances(report, Seq::empty()).len() == 0
        }),
{
    assert(list.push((kind, count)).drop_last() == list);
    let before = dominances(report, list);
    let p = dominance(report.total_proposals, kind, count);
    assert(before.push(p).drop_last() =~= before);
}

} // verus!
