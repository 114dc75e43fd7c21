//! The consolidation pipeline: what it proposes, and the review of proposals.

use crate::clock::{rfc3339_seconds, rfc3339_seconds_of};
use crate::hash::{text_hash, text_hash_of};
use crate::json::{
    add_field, integer, integer_view, list, no_entries, no_fields, object, opt_view, text,
    views_of, Json, JsonView,
};
use crate::lists::{
    first_of, items, kept, lemma_kept_agree, lemma_written_out_holds, select_all, write_all,
    written_out,
};
use crate::model::{Annotation, StoredRate};
use crate::numbers::{
    count_text, decimal_of, fill_zeros, signed_decimal, signed_decimal_of, zero_fill,
};
use crate::order::{in_rank, law_ranking_orders, rank_refs, ranked};
use crate::rates::{rate_below, rate_is_below, rate_lower, rate_order, FOUR_TENTHS};
use crate::text::{
    chars_of, clip, clipped, contains_text, lemma_contains_half, lemma_contains_itself,
    lemma_contains_through, same, Text,
};
use vstd::prelude::*;

verus! {

/// What a run of the pipeline did.
#[derive(Debug, Clone, Copy, PartialEq, Eq, Structural)]
pub struct PipelineResult {
    pub snapshots_read: usize,
    pub clusters_found: usize,
    pub skill_candidates_new: usize,
    pub skill_drafts_written: usize,
    pub gap_proposals: usize,
    pub survival_proposals: usize,
    pub last_run_updated: bool,
}

impl PipelineResult {
    /// Nothing was done.
    pub open spec fn is_default(self) -> bool {
        &&& self.snapshots_read == 0
        &&& self.clusters_found == 0
        &&& self.skill_candidates_new == 0
        &&& self.skill_drafts_written == 0
        &&& self.gap_proposals == 0
        &&& self.survival_proposals == 0
        &&& !self.last_run_updated
    }

    /// The result in one line.
    pub open spec fn summary_of(self) -> Text {
        "Pipeline complete: "@ + decimal_of(self.snapshots_read as nat) + " snapshots → "@
            + decimal_of(self.clusters_found as nat) + " clusters → "@ + decimal_of(
            self.skill_candidates_new as nat,
        ) + " skill candidates ("@ + decimal_of(self.skill_drafts_written as nat) + " drafts) | "@
            + decimal_of(self.gap_proposals as nat) + " gap proposals | "@ + decimal_of(
            self.survival_proposals as nat,
        ) + " survival proposals"@
    }

    /// The result in one line.
    pub fn summary(&self) -> (r: String)
        ensures
            r@ == self.summary_of(),
    {
        let mut s = "Pipeline complete: ".to_owned();
        s.append(count_text(self.snapshots_read).as_str());
        s.append(" snapshots → ");
        s.append(count_text(self.clusters_found).as_str());
        s.append(" clusters → ");
        s.append(count_text(self.skill_candidates_new).as_str());
        s.append(" skill candidates (");
        s.append(count_text(self.skill_drafts_written).as_str());
        s.append(" drafts) | ");
        s.append(count_text(self.gap_proposals).as_str());
        s.append(" gap proposals | ");
        s.append(count_text(self.survival_proposals).as_str());
        s.append(" survival proposals");
        s
    }
}

impl Default for PipelineResult {
    fn default() -> (r: Self)
        ensures
            r.is_default(),
    {
        PipelineResult {
            snapshots_read: 0,
            clusters_found: 0,
            skill_candidates_new: 0,
            skill_drafts_written: 0,
            gap_proposals: 0,
            survival_proposals: 0,
            last_run_updated: false,
        }
    }
}

/// A query that found too little, and the note proposed for it.
#[derive(Debug, Clone)]
pub struct GapProposal {
    pub tool_name: String,
    pub query_text: String,
    pub seen_count: i64,
    pub proposed_note: String,
}

/// A pattern and how it fared. `rate_whole` is the survival rate, a number from zero to one,
/// rounded to a whole number.
#[derive(Debug, Clone)]
pub struct PatternUse {
    pub id: i64,
    pub name: String,
    pub intent: String,
    pub body: String,
    pub use_count: i64,
    pub reverted_count: i64,
    pub rate: StoredRate,
    pub rate_whole: String,
}

/// A proposal: the document kept in the directory of proposals, and the entry for the review.
pub struct ProposalRecord {
    pub file_name: String,
    pub document: Json,
    pub proposal_type: String,
    pub content_hash: String,
    pub target_file: String,
    pub proposed_text: String,
    pub evidence: Json,
}

/// The model of a proposal.
#[verifier::ext_equal]
pub struct ProposalView {
    pub file_name: Text,
    pub document: JsonView,
    pub proposal_type: Text,
    pub content_hash: Text,
    pub target_file: Text,
    pub proposed_text: Text,
    pub evidence: JsonView,
}

impl View for ProposalRecord {
    type V = ProposalView;

    open spec fn view(&self) -> ProposalView {
        ProposalView {
            file_name: self.file_name@,
            document: self.document@,
            proposal_type: self.proposal_type@,
            content_hash: self.content_hash@,
            target_file: self.target_file@,
            proposed_text: self.proposed_text@,
            evidence: self.evidence@,
        }
    }
}

/// The models of proposals.
pub open spec fn records(list: Seq<ProposalRecord>) -> Seq<ProposalView> {
    list.map_values(|p: ProposalRecord| p@)
}

/// The proposal for the gap at place `i`.
pub open spec fn gap_record_of(i: int, gap: GapProposal) -> ProposalView {
    ProposalView {
        file_name: "pref_gap_"@ + zero_fill(decimal_of(i as nat), 2) + ".json"@,
        document: JsonView::Object(
            no_fields().push(("proposal_type"@, JsonView::Text("pref_note"@))).push(
                ("tool_name"@, JsonView::Text(gap.tool_name@)),
            ).push(("query_text"@, JsonView::Text(gap.query_text@))).push(
                ("seen_count"@, integer_view(gap.seen_count as int)),
            ).push(("proposed_note"@, JsonView::Text(gap.proposed_note@))),
        ),
        proposal_type: "pref_note"@,
        content_hash: text_hash_of("gap:"@ + gap.tool_name@ + ":"@ + gap.query_text@),
        target_file: ".cortex/prefs.toml"@,
        proposed_text: gap.proposed_note@,
        evidence: JsonView::Object(
            no_fields().push(("source"@, JsonView::Text("query_gap_log"@))).push(
                ("seen_count"@, integer_view(gap.seen_count as int)),
            ),
        ),
    }
}

/// The proposals for gaps.
pub open spec fn gap_records(gaps: Seq<GapProposal>) -> Seq<ProposalView> {
    Seq::new(gaps.len(), |i: int| gap_record_of(i, gaps[i]))
}

/// The proposal for the gap at place `i`.
fn gap_record(i: usize, gap: &GapProposal) -> (r: ProposalRecord)
    ensures
        r@ == gap_record_of(i as int, *gap),
{
    let mut name = "pref_gap_".to_owned();
    name.append(fill_zeros(count_text(i).as_str(), 2).as_str());
    name.append(".json");
    let mut doc = no_entries();
    add_field(&mut doc, "proposal_type", text("pref_note"));
    add_field(&mut doc, "tool_name", text(gap.tool_name.as_str()));
    add_field(&mut doc, "query_text", text(gap.query_text.as_str()));
    add_field(&mut doc, "seen_count", integer(gap.seen_count));
    add_field(&mut doc, "proposed_note", text(gap.proposed_note.as_str()));
    let mut key = "gap:".to_owned();
    key.append(gap.tool_name.as_str());
    key.append(":");
    key.append(gap.query_text.as_str());
    let mut why = no_entries();
    add_field(&mut why, "source", text("query_gap_log"));
    add_field(&mut why, "seen_count", integer(gap.seen_count));
    ProposalRecord {
        file_name: name,
        document: object(doc),
        proposal_type: "pref_note".to_owned(),
        content_hash: text_hash(key.as_str()),
        target_file: ".cortex/prefs.toml".to_owned(),
        proposed_text: gap.proposed_note.clone(),
        evidence: object(why),
    }
}

/// The proposals for gaps.
pub fn propose_gaps(gaps: &Vec<GapProposal>) -> (r: Vec<ProposalRecord>)
    ensures
        records(r@) == gap_records(gaps@),
{
    let ghost all = gap_records(gaps@);
    let mut out: Vec<ProposalRecord> = Vec::new();
    let mut i: usize = 0;
    assert(records(out@) == all.take(0));
    while i < gaps.len()
        invariant
            i <= gaps@.len() == all.len(),
            all == gap_records(gaps@),
            records(out@) == all.take(i as int),
        decreases gaps@.len() - i,
    {
        let ghost before = out@;
        out.push(gap_record(i, &gaps[i]));
        assert(records(out@) == records(before).push(all[i as int]));
        assert(all.take(i + 1) == all.take(i as int).push(all[i as int]));
        i = i + 1;
    }
    assert(all.take(i as int) == all);
    out
}

/// A pattern used three times or more of which less than two fifths survived.
pub open spec fn is_dying() -> spec_fn(PatternUse) -> bool {
    |p: PatternUse| p.use_count >= 3 && rate_is_below(p.rate.bits, FOUR_TENTHS)
}

/// The order of the proposals: the lower rate goes first.
pub open spec fn lower_rate() -> spec_fn(PatternUse, PatternUse) -> bool {
    |a: PatternUse, b: PatternUse| rate_order(a.rate.bits) < rate_order(b.rate.bits)
}

/// The patterns that are proposed: the ten that fare worst.
pub open spec fn dying(patterns: Seq<PatternUse>) -> Seq<PatternUse> {
    first_of(ranked(kept(patterns, is_dying()), lower_rate()), 10)
}

/// A character that file names do without.
pub open spec fn is_awkward(c: char) -> bool {
    c == '/' || c == '\\' || c == ' '
}

/// A name as it may stand in a file name.
pub open spec fn safe_name_of(name: Text) -> Text {
    name.map_values(
        |c: char|
            if is_awkward(c) {
                '-'
            } else {
                c
            },
    )
}

/// The proposal for a dying pattern.
pub open spec fn dying_record_of(p: PatternUse) -> ProposalView {
    ProposalView {
        file_name: "ap_dying_"@ + safe_name_of(p.name@) + ".json"@,
        document: JsonView::Object(
            no_fields().push(("proposal_type"@, JsonView::Text("dying_pattern"@))).push(
                ("pattern_id"@, integer_view(p.id as int)),
            ).push(("name"@, JsonView::Text(p.name@))).push(
                ("intent"@, JsonView::Text(p.intent@)),
            ).push(("body_preview"@, JsonView::Text(clip(p.body@, 200)))).push(
                ("use_count"@, integer_view(p.use_count as int)),
            ).push(("reverted_count"@, integer_view(p.reverted_count as int))).push(
                ("survival_rate"@, JsonView::Float(p.rate.number@)),
            ).push(
                (
                    "suggested_action"@,
                    JsonView::Text(
                        "Consider converting to anti-pattern or removing if superseded."@,
                    ),
                ),
            ),
        ),
        proposal_type: "anti_pattern"@,
        content_hash: text_hash_of("dying:"@ + signed_decimal_of(p.id as int) + ":"@ + p.name@),
        target_file: "patterns"@,
        proposed_text: "Pattern '"@ + p.name@ + "' has "@ + p.rate_whole@ + "% survival after "@
            + signed_decimal_of(p.use_count as int)
            + " uses — review for removal or anti-pattern conversion"@,
        evidence: JsonView::Object(
            no_fields().push(("pattern_id"@, integer_view(p.id as int))).push(
                ("use_count"@, integer_view(p.use_count as int)),
            ).push(("reverted_count"@, integer_view(p.reverted_count as int))),
        ),
    }
}

/// The proposals for dying patterns.
pub open spec fn dying_records(patterns: Seq<PatternUse>) -> Seq<ProposalView> {
    dying(patterns).map_values(|p: PatternUse| dying_record_of(p))
}

/// A name as it may stand in a file name.
fn safe_name(name: &str) -> (r: String)
    ensures
        r@ == safe_name_of(name@),
{
    let all = chars_of(name);
    let mut out = String::new();
    let mut i: usize = 0;
    assert(safe_name_of(all@.take(0)) == out@);
    while i < all.len()
        invariant
            i <= all@.len(),
            all@ == name@,
            out@ == safe_name_of(all@.take(i as int)),
        decreases all@.len() - i,
    {
        let c = all[i];
        assert(all@.take(i + 1) == all@.take(i as int).push(c));
        if c == '/' || c == '\\' || c == ' ' {
            out.push('-');
            assert(safe_name_of(all@.take(i + 1)) == safe_name_of(all@.take(i as int)).push('-'));
        } else {
            out.push(c);
            assert(safe_name_of(all@.take(i + 1)) == safe_name_of(all@.take(i as int)).push(c));
        }
        i = i + 1;
    }
    assert(all@.take(i as int) == all@);
    out
}

/// The document of a dying pattern.
fn dying_document(p: &PatternUse) -> (r: Json)
    ensures
        r@ == dying_record_of(*p).document,
{
    let mut doc = no_entries();
    add_field(&mut doc, "proposal_type", text("dying_pattern"));
    add_field(&mut doc, "pattern_id", integer(p.id));
    add_field(&mut doc, "name", text(p.name.as_str()));
    add_field(&mut doc, "intent", text(p.intent.as_str()));
    add_field(&mut doc, "body_preview", text(clipped(p.body.as_str(), 200).as_str()));
    add_field(&mut doc, "use_count", integer(p.use_count));
    add_field(&mut doc, "reverted_count", integer(p.reverted_count));
    add_field(&mut doc, "survival_rate", Json::Float(p.rate.number.clone()));
    add_field(
        &mut doc,
        "suggested_action",
        text("Consider converting to anti-pattern or removing if superseded."),
    );
    object(doc)
}

/// The proposal for a dying pattern.
fn dying_record(p: &PatternUse) -> (r: ProposalRecord)
    ensures
        r@ == dying_record_of(*p),
{
    let mut name = "ap_dying_".to_owned();
    name.append(safe_name(p.name.as_str()).as_str());
    name.append(".json");
    let mut key = "dying:".to_owned();
    key.append(signed_decimal(p.id).as_str());
    key.append(":");
    key.append(p.name.as_str());
    let mut told = "Pattern '".to_owned();
    told.append(p.name.as_str());
    told.append("' has ");
    told.append(p.rate_whole.as_str());
    told.append("% survival after ");
    told.append(signed_decimal(p.use_count).as_str());
    told.append(" uses — review for removal or anti-pattern conversion");
    let mut why = no_entries();
    add_field(&mut why, "pattern_id", integer(p.id));
    add_field(&mut why, "use_count", integer(p.use_count));
    add_field(&mut why, "reverted_count", integer(p.reverted_count));
    ProposalRecord {
        file_name: name,
        document: dying_document(p),
        proposal_type: "anti_pattern".to_owned(),
        content_hash: text_hash(key.as_str()),
        target_file: "patterns".to_owned(),
        proposed_text: told,
        evidence: object(why),
    }
}

/// The proposals for the patterns that fare worst.
pub fn propose_survival_pub(patterns: &Vec<PatternUse>) -> (r: Vec<ProposalRecord>)
    ensures
        records(r@) == dying_records(patterns@),
{
    let fails = |p: &PatternUse| -> (b: bool)
        ensures
            b == is_dying()(*p),
        { p.use_count >= 3 && rate_below(p.rate.bits, FOUR_TENTHS) };
    let found = select_all(patterns, fails, Ghost(is_dying()));
    let ahead = |a: &PatternUse, b: &PatternUse| -> (r: bool)
        ensures
            r == lower_rate()(*a, *b),
        { rate_lower(a.rate.bits, b.rate.bits) };
    let sorted = rank_refs(&found, ahead, Ghost(lower_rate()));
    let ghost all = items(sorted@);
    let ghost chosen = dying(patterns@);
    let mut out: Vec<ProposalRecord> = Vec::new();
    let mut i: usize = 0;
    assert(all.len() == sorted@.len());
    assert(records(out@) == dying_records(patterns@).take(0));
    while i < sorted.len() && i < 10
        invariant
            i <= sorted@.len() == all.len(),
            i <= 10,
            all == items(sorted@),
            all == ranked(kept(patterns@, is_dying()), lower_rate()),
            chosen == first_of(all, 10),
            chosen == dying(patterns@),
            records(out@) == dying_records(patterns@).take(i as int),
        decreases sorted@.len() - i,
    {
        let ghost before = out@;
        assert(chosen[i as int] == *sorted@[i as int]);
        out.push(dying_record(sorted[i]));
        assert(records(out@) == records(before).push(dying_records(patterns@)[i as int]));
        assert(dying_records(patterns@).take(i + 1) == dying_records(patterns@).take(
            i as int,
        ).push(dying_records(patterns@)[i as int]));
        i = i + 1;
    }
    assert(dying_records(patterns@).take(i as int) == dying_records(patterns@));
    out
}

/// How many things the memory holds, as the health report tells it.
#[derive(Debug, Clone)]
pub struct HealthCounts {
    pub patterns: i64,
    pub low_survival: i64,
    pub anti_patterns: i64,
    pub pending_obs: i64,
    pub pending_proposals: i64,
    pub orphaned_sessions: i64,
    /// Queries that found too little, and how often.
    pub hot_gaps: Vec<(String, i64)>,
}

/// A query that found too little.
pub open spec fn gap_json(gap: (String, i64)) -> JsonView {
    JsonView::Object(
        no_fields().push(("query"@, JsonView::Text(gap.0@))).push(
            ("count"@, integer_view(gap.1 as int)),
        ),
    )
}

/// The health report.
pub open spec fn health_json(h: HealthCounts, generated_at: Text) -> JsonView {
    JsonView::Object(
        no_fields().push(("generated_at"@, JsonView::Text(generated_at))).push(
            ("patterns"@, integer_view(h.patterns as int)),
        ).push(("low_survival"@, integer_view(h.low_survival as int))).push(
            ("anti_patterns"@, integer_view(h.anti_patterns as int)),
        ).push(("pending_obs"@, integer_view(h.pending_obs as int))).push(
            ("pending_proposals"@, integer_view(h.pending_proposals as int)),
        ).push(("orphaned_sessions"@, integer_view(h.orphaned_sessions as int))).push(
            (
                "hot_gaps"@,
                JsonView::List(h.hot_gaps@.map_values(|g: (String, i64)| gap_json(g))),
            ),
        ),
    )
}

/// The health report.
pub fn build_health_report(h: &HealthCounts, generated_at: &str) -> (r: Json)
    ensures
        r@ == health_json(*h, generated_at@),
{
    let ghost all = h.hot_gaps@.map_values(|g: (String, i64)| gap_json(g));
    let mut gaps: Vec<Json> = Vec::new();
    let mut i: usize = 0;
    assert(views_of(gaps@) == all.take(0));
    while i < h.hot_gaps.len()
        invariant
            i <= h.hot_gaps@.len() == all.len(),
            all == h.hot_gaps@.map_values(|g: (String, i64)| gap_json(g)),
            views_of(gaps@) == all.take(i as int),
        decreases h.hot_gaps@.len() - i,
    {
        let ghost before = gaps@;
        let mut g = no_entries();
        add_field(&mut g, "query", text(h.hot_gaps[i].0.as_str()));
        add_field(&mut g, "count", integer(h.hot_gaps[i].1));
        gaps.push(object(g));
        assert(views_of(gaps@) == views_of(before).push(all[i as int]));
        assert(all.take(i + 1) == all.take(i as int).push(all[i as int]));
        i = i + 1;
    }
    assert(all.take(i as int) == all);
    let mut e = no_entries();
    add_field(&mut e, "generated_at", text(generated_at));
    add_field(&mut e, "patterns", integer(h.patterns));
    add_field(&mut e, "low_survival", integer(h.low_survival));
    add_field(&mut e, "anti_patterns", integer(h.anti_patterns));
    add_field(&mut e, "pending_obs", integer(h.pending_obs));
    add_field(&mut e, "pending_proposals", integer(h.pending_proposals));
    add_field(&mut e, "orphaned_sessions", integer(h.orphaned_sessions));
    add_field(&mut e, "hot_gaps", list(gaps));
    object(e)
}

/// What a run of the pipeline finds in the memory.
#[derive(Debug, Clone)]
pub struct PipelineInput {
    pub health: HealthCounts,
    pub snapshots_read: usize,
    pub clusters_found: usize,
    /// For each new skill candidate, whether its draft could be written.
    pub drafts: Vec<bool>,
    pub gaps: Vec<GapProposal>,
    pub patterns: Vec<PatternUse>,
}

/// What a run of the pipeline leaves behind.
pub struct PipelineOutput {
    pub health: Json,
    pub gaps: Vec<ProposalRecord>,
    pub survival: Vec<ProposalRecord>,
    pub result: PipelineResult,
}

/// How many of the drafts were written.
pub open spec fn written(drafts: Seq<bool>) -> nat
    decreases drafts.len(),
{
    if drafts.len() == 0 {
        0
    } else if drafts.last() {
        written(drafts.drop_last()) + 1
    } else {
        written(drafts.drop_last())
    }
}

/// A proposal as the review keeps it. Times are seconds after the Unix epoch.
pub struct ProposalEntry {
    /// The number of the row, once it has one.
    pub id: Option<i64>,
    pub proposal_type: String,
    pub content_hash: String,
    pub target_file: String,
    pub proposed_text: String,
    pub evidence: Json,
    pub status: String,
    pub created_at: i64,
    pub reviewed_at: Option<i64>,
    pub committed_at: Option<i64>,
}

/// The model of a proposal that the review keeps.
#[verifier::ext_equal]
pub struct EntryView {
    pub id: Option<i64>,
    pub proposal_type: Text,
    pub content_hash: Text,
    pub target_file: Text,
    pub proposed_text: Text,
    pub evidence: JsonView,
    pub status: Text,
    pub created_at: i64,
    pub reviewed_at: Option<i64>,
    pub committed_at: Option<i64>,
}

impl View for ProposalEntry {
    type V = EntryView;

    open spec fn view(&self) -> EntryView {
        EntryView {
            id: self.id,
            proposal_type: self.proposal_type@,
            content_hash: self.content_hash@,
            target_file: self.target_file@,
            proposed_text: self.proposed_text@,
            evidence: self.evidence@,
            status: self.status@,
            created_at: self.created_at,
            reviewed_at: self.reviewed_at,
            committed_at: self.committed_at,
        }
    }
}

/// The models of the proposals that the review keeps.
pub open spec fn entries(list: Seq<ProposalEntry>) -> Seq<EntryView> {
    list.map_values(|e: ProposalEntry| e@)
}

/// A proposal as it is entered at the time `at`: it waits for the review.
pub open spec fn entry_of(p: ProposalView, at: i64) -> EntryView {
    EntryView {
        id: None,
        proposal_type: p.proposal_type,
        content_hash: p.content_hash,
        target_file: p.target_file,
        proposed_text: p.proposed_text,
        evidence: p.evidence,
        status: "pending"@,
        created_at: at,
        reviewed_at: None,
        committed_at: None,
    }
}

/// A proposal with this hash was entered.
pub open spec fn is_known(rows: Seq<EntryView>, hash: Text) -> bool {
    exists|i: int| 0 <= i < rows.len() && (#[trigger] rows[i]).content_hash == hash
}

/// The entries once proposals were entered, one after another. One that has the hash of an entry
/// is not entered, so that an entry, whatever became of it, stays as it is.
pub open spec fn entered(rows: Seq<EntryView>, new: Seq<ProposalView>, at: i64) -> Seq<EntryView>
    decreases new.len(),
{
    if new.len() == 0 {
        rows
    } else {
        let before = entered(rows, new.drop_last(), at);
        if is_known(before, new.last().content_hash) {
            before
        } else {
            before.push(entry_of(new.last(), at))
        }
    }
}

/// Whether a proposal with this hash was entered.
fn knows(rows: &Vec<ProposalEntry>, hash: &str) -> (r: bool)
    ensures
        r == is_known(entries(rows@), hash@),
{
    let ghost all = entries(rows@);
    let mut i: usize = 0;
    while i < rows.len()
        invariant
            i <= rows@.len() == all.len(),
            all == entries(rows@),
            forall|k: int| 0 <= k < i ==> (#[trigger] all[k]).content_hash != hash@,
        decreases rows@.len() - i,
    {
        assert(all[i as int] == rows@[i as int]@);
        if same(rows[i].content_hash.as_str(), hash) {
            return true;
        }
        i = i + 1;
    }
    false
}

/// Enters proposals for the review, unless they are known.
pub fn enter_proposals(rows: &mut Vec<ProposalEntry>, new: &Vec<ProposalRecord>, at: i64)
    ensures
        entries(final(rows)@) == entered(entries(old(rows)@), records(new@), at),
{
    let ghost all = records(new@);
    let mut i: usize = 0;
    assert(entries(rows@) == entered(entries(old(rows)@), all.take(0), at));
    while i < new.len()
        invariant
            i <= new@.len() == all.len(),
            all == records(new@),
            entries(rows@) == entered(entries(old(rows)@), all.take(i as int), at),
        decreases new@.len() - i,
    {
        let p = &new[i];
        assert(all.take(i + 1).drop_last() == all.take(i as int));
        assert(all.take(i + 1).last() == p@);
        if !knows(rows, p.content_hash.as_str()) {
            let ghost before = rows@;
            let e = ProposalEntry {
                id: None,
                proposal_type: p.proposal_type.clone(),
                content_hash: p.content_hash.clone(),
                target_file: p.target_file.clone(),
                proposed_text: p.proposed_text.clone(),
                evidence: p.evidence.copy(),
                status: "pending".to_owned(),
                created_at: at,
                reviewed_at: None,
                committed_at: None,
            };
            rows.push(e);
            assert(entries(rows@) == entries(before).push(e@));
        }
        i = i + 1;
    }
    assert(all.take(i as int) == all);
}

/// A note that tells when the pipeline ran last.
pub open spec fn is_run_note() -> spec_fn(Annotation) -> bool {
    |a: Annotation| a.topic@ == "consolidation-last-run"@
}

/// Some note tells when the pipeline ran last.
pub open spec fn has_run_note(notes: Seq<Annotation>) -> bool {
    exists|i: int| 0 <= i < notes.len() && is_run_note()(#[trigger] notes[i])
}

/// The notes once a run was noted: where there is a note on the last run it tells of this one, and
/// else there is one more. All other notes stay.
pub open spec fn is_noted(
    after: Seq<Annotation>,
    before: Seq<Annotation>,
    now: Text,
    at: i64,
) -> bool {
    if has_run_note(before) {
        &&& after.len() == before.len()
        &&& forall|i: int|
            0 <= i < before.len() ==> if is_run_note()(before[i]) {
                let a = #[trigger] after[i];
                &&& a.id == before[i].id
                &&& a.topic == before[i].topic
                &&& a.tags == before[i].tags
                &&& a.body@ == now
                &&& a.added_at == at
            } else {
                after[i] == before[i]
            }
    } else {
        &&& after.len() == before.len() + 1
        &&& after.drop_last() == before
        &&& after.last().id is None
        &&& is_run_note()(after.last())
        &&& after.last().tags@.len() == 0
        &&& after.last().body@ == now
        &&& after.last().added_at == at
    }
}

/// Notes a run at the time `at`, which reads `now`.
pub fn note_run(notes: &mut Vec<Annotation>, now: &str, at: i64)
    ensures
        is_noted(final(notes)@, old(notes)@, now@, at),
{
    let mut found = false;
    let mut i: usize = 0;
    while i < notes.len()
        invariant
            i <= notes@.len() == old(notes)@.len(),
            found == exists|k: int| 0 <= k < i && is_run_note()(#[trigger] old(notes)@[k]),
            forall|k: int|
                0 <= k < i ==> if is_run_note()(old(notes)@[k]) {
                    let a = #[trigger] notes@[k];
                    &&& a.id == old(notes)@[k].id
                    &&& a.topic == old(notes)@[k].topic
                    &&& a.tags == old(notes)@[k].tags
                    &&& a.body@ == now@
                    &&& a.added_at == at
                } else {
                    notes@[k] == old(notes)@[k]
                },
            forall|k: int| i <= k < notes@.len() ==> notes@[k] == old(notes)@[k],
        decreases notes@.len() - i,
    {
        if same(notes[i].topic.as_str(), "consolidation-last-run") {
            assert(is_run_note()(old(notes)@[i as int]));
            notes[i].body = now.to_owned();
            notes[i].added_at = at;
            found = true;
        }
        i = i + 1;
    }
    if !found {
        assert(notes@ == old(notes)@);
        notes.push(
            Annotation {
                id: None,
                topic: "consolidation-last-run".to_owned(),
                body: now.to_owned(),
                tags: Vec::new(),
                added_at: at,
            },
        );
        assert(notes@.drop_last() == old(notes)@);
    }
}

/// What runs of the pipeline keep in the memory: the proposals, and the notes.
pub struct PipelineState {
    pub proposals: Vec<ProposalEntry>,
    pub notes: Vec<Annotation>,
}

/// The proposals of a run.
pub open spec fn run_records(input: PipelineInput) -> Seq<ProposalView> {
    gap_records(input.gaps@) + dying_records(input.patterns@)
}

/// A run of the pipeline at the time `at`, which reads `now`: the health report, the proposals for
/// gaps and for dying patterns, which are entered unless they are known, and the tally.
pub fn run(input: &PipelineInput, state: &mut PipelineState, now: &str, at: i64) -> (r:
    PipelineOutput)
    ensures
        r.health@ == health_json(input.health, now@),
        records(r.gaps@) == gap_records(input.gaps@),
        records(r.survival@) == dying_records(input.patterns@),
        entries(final(state).proposals@) == entered(
            entries(old(state).proposals@),
            run_records(*input),
            at,
        ),
        is_noted(final(state).notes@, old(state).notes@, now@, at),
        r.result.snapshots_read == input.snapshots_read,
        r.result.clusters_found == input.clusters_found,
        r.result.skill_candidates_new == input.drafts@.len(),
        r.result.skill_drafts_written == written(input.drafts@),
        r.result.gap_proposals == input.gaps@.len(),
        r.result.survival_proposals == dying(input.patterns@).len(),
        r.result.last_run_updated,
{
    let health = build_health_report(&input.health, now);
    let mut result = PipelineResult::default();
    result.snapshots_read = input.snapshots_read;
    result.clusters_found = input.clusters_found;
    result.skill_candidates_new = input.drafts.len();
    let mut n: usize = 0;
    let mut i: usize = 0;
    while i < input.drafts.len()
        invariant
            i <= input.drafts@.len(),
            n <= i,
            n == written(input.drafts@.take(i as int)),
        decreases input.drafts@.len() - i,
    {
        assert(input.drafts@.take(i + 1).drop_last() == input.drafts@.take(i as int));
        if input.drafts[i] {
            n = n + 1;
        }
        i = i + 1;
    }
    assert(input.drafts@.take(i as int) == input.drafts@);
    result.skill_drafts_written = n;
    let gaps = propose_gaps(&input.gaps);
    result.gap_proposals = gaps.len();
    let survival = propose_survival_pub(&input.patterns);
    result.survival_proposals = survival.len();
    enter_proposals(&mut state.proposals, &gaps, at);
    enter_proposals(&mut state.proposals, &survival, at);
    note_run(&mut state.notes, now, at);
    result.last_run_updated = true;
    proof {
        lemma_entered_in_turn(
            entries(old(state).proposals@),
            gap_records(input.gaps@),
            dying_records(input.patterns@),
            at,
        );
        assert(records(gaps@).len() == gaps@.len());
        assert(records(survival@).len() == survival@.len());
    }
    PipelineOutput { health, gaps, survival, result }
}

/// The last run lies more than `hours` before `now`; so it does where there was none. A time that
/// cannot be read counts as the beginning of time.
pub open spec fn is_stale_at(last_run: Option<Text>, hours: u32, now: i64) -> bool {
    match last_run {
        None => true,
        Some(t) => {
            let last = match rfc3339_seconds_of(t) {
                Some(s) => s as int,
                None => 0,
            };
            last < now - hours * 3600
        },
    }
}

/// Whether the last run lies more than `staleness_hours` before `now`.
pub fn is_stale(last_run: Option<&str>, staleness_hours: u32, now: i64) -> (r: bool)
    ensures
        r == is_stale_at(opt_view(last_run), staleness_hours, now),
{
    match last_run {
        None => true,
        Some(t) => {
            let last: i64 = match rfc3339_seconds(t) {
                Some(s) => s,
                None => 0,
            };
            (last as i128) < now as i128 - (staleness_hours as i128) * 3600
        },
    }
}

/// A proposal that waits for a review.
#[derive(Debug, Clone)]
pub struct ProposalRow {
    pub id: i64,
    pub proposal_type: String,
    pub proposed_text: String,
    pub evidence: String,
    /// Seconds after the Unix epoch.
    pub created_at: i64,
}

/// What changes with the status of a proposal. A time that is missing stays as it is.
#[derive(Debug, Clone)]
pub struct StatusChange {
    pub status: String,
    pub reviewed_at: Option<i64>,
    pub committed_at: Option<i64>,
}

/// A new time, or the old one where there is none.
pub open spec fn time_or(new: Option<i64>, old_time: Option<i64>) -> Option<i64> {
    match new {
        Some(t) => Some(t),
        None => old_time,
    }
}

/// The time at which a status counts as reviewed: approving and rejecting review.
pub open spec fn review_time(status: Text, now: i64) -> Option<i64> {
    if status == "approved"@ || status == "rejected"@ {
        Some(now)
    } else {
        None
    }
}

/// The time at which a status counts as committed: approving commits.
pub open spec fn commit_time(status: Text, now: i64) -> Option<i64> {
    if status == "approved"@ {
        Some(now)
    } else {
        None
    }
}

/// An entry with a new status.
pub open spec fn with_status(e: EntryView, status: Text, now: i64) -> EntryView {
    EntryView {
        status,
        reviewed_at: time_or(review_time(status, now), e.reviewed_at),
        committed_at: time_or(commit_time(status, now), e.committed_at),
        ..e
    }
}

/// The entries once the one with the number `id` has a new status.
pub open spec fn status_set(rows: Seq<EntryView>, id: i64, status: Text, now: i64) -> Seq<
    EntryView,
> {
    rows.map_values(
        |e: EntryView|
            if e.id == Some(id) {
                with_status(e, status, now)
            } else {
                e
            },
    )
}

/// Sets the status of the proposal with the number `id`: approving reviews and commits, rejecting
/// reviews. The result is the change to its row.
pub fn set_proposal_status(rows: &mut Vec<ProposalEntry>, id: i64, status: &str, now: i64) -> (r:
    StatusChange)
    ensures
        entries(final(rows)@) == status_set(entries(old(rows)@), id, status@, now),
        r.status@ == status@,
        r.reviewed_at == review_time(status@, now),
        r.committed_at == commit_time(status@, now),
{
    let approved = same(status, "approved");
    let rejected = same(status, "rejected");
    let reviewed_at: Option<i64> = if approved || rejected {
        Some(now)
    } else {
        None
    };
    let committed_at: Option<i64> = if approved {
        Some(now)
    } else {
        None
    };
    let ghost all = status_set(entries(old(rows)@), id, status@, now);
    let mut i: usize = 0;
    while i < rows.len()
        invariant
            i <= rows@.len() == old(rows)@.len(),
            reviewed_at == review_time(status@, now),
            committed_at == commit_time(status@, now),
            all == status_set(entries(old(rows)@), id, status@, now),
            forall|k: int| 0 <= k < i ==> (#[trigger] rows@[k])@ == all[k],
            forall|k: int| i <= k < rows@.len() ==> rows@[k] == old(rows)@[k],
        decreases rows@.len() - i,
    {
        let found = match rows[i].id {
            Some(n) => n == id,
            None => false,
        };
        assert(entries(old(rows)@)[i as int] == old(rows)@[i as int]@);
        if found {
            rows[i].status = status.to_owned();
            if let Some(t) = reviewed_at {
                rows[i].reviewed_at = Some(t);
            }
            if let Some(t) = committed_at {
                rows[i].committed_at = Some(t);
            }
        }
        i = i + 1;
    }
    assert(entries(rows@) == all);
    StatusChange { status: status.to_owned(), reviewed_at, committed_at }
}

/// A proposal that waits for the review.
pub open spec fn is_pending() -> spec_fn(ProposalEntry) -> bool {
    |e: ProposalEntry| e.status@ == "pending"@
}

/// The order of the list: what was entered earlier goes first.
pub open spec fn earlier() -> spec_fn(ProposalEntry, ProposalEntry) -> bool {
    |a: ProposalEntry, b: ProposalEntry| a.created_at < b.created_at
}

/// The proposals that wait for the review, the earliest first.
pub open spec fn pending_of(rows: Seq<ProposalEntry>) -> Seq<ProposalEntry> {
    ranked(kept(rows, is_pending()), earlier())
}

/// The proposals that wait for the review, the earliest first.
pub fn load_pending_proposals<'a>(rows: &'a Vec<ProposalEntry>) -> (r: Vec<&'a ProposalEntry>)
    ensures
        items(r@) == pending_of(rows@),
{
    let waits = |e: &ProposalEntry| -> (b: bool)
        ensures
            b == is_pending()(*e),
        { same(e.status.as_str(), "pending") };
    let found = select_all(rows, waits, Ghost(is_pending()));
    let ahead = |a: &ProposalEntry, b: &ProposalEntry| -> (r: bool)
        ensures
            r == earlier()(*a, *b),
        { a.created_at < b.created_at };
    rank_refs(&found, ahead, Ghost(earlier()))
}

/// What is kept is just what is there and wanted.
proof fn lemma_kept_holds(rows: Seq<ProposalEntry>, e: ProposalEntry)
    ensures
        kept(rows, is_pending()).contains(e) <==> rows.contains(e) && is_pending()(e),
    decreases rows.len(),
{
    let all = kept(rows, is_pending());
    if rows.len() > 0 {
        let start = rows.drop_last();
        let front = kept(start, is_pending());
        lemma_kept_holds(start, e);
        if front.contains(e) {
            let k = choose|k: int| 0 <= k < front.len() && front[k] == e;
            assert(all[k] == e);
        }
        if all.contains(e) {
            let k = choose|k: int| 0 <= k < all.len() && all[k] == e;
            if k < front.len() {
                assert(front[k] == e);
            } else {
                assert(e == rows.last());
            }
        }
        if rows.contains(e) {
            let k = choose|k: int| 0 <= k < rows.len() && rows[k] == e;
            if k < start.len() {
                assert(start[k] == e);
            } else if is_pending()(e) {
                assert(all[all.len() - 1] == e);
            }
        }
        if start.contains(e) {
            let k = choose|k: int| 0 <= k < start.len() && start[k] == e;
            assert(rows[k] == e);
        }
        assert(rows[rows.len() - 1] == rows.last());
    }
}

/// The list of the proposals that wait holds just the rows whose status says so, the earliest first.
pub proof fn law_pending_are_listed(rows: Seq<ProposalEntry>, e: ProposalEntry)
    ensures
        pending_of(rows).contains(e) <==> rows.contains(e) && e.status@ == "pending"@,
        in_rank(pending_of(rows), earlier()),
{
    broadcast use vstd::seq_lib::group_to_multiset_ensures;

    let found = kept(rows, is_pending());
    let listed = pending_of(rows);
    lemma_kept_holds(rows, e);
    law_ranking_orders(found, earlier(), |x: ProposalEntry| true);
    assert(listed.contains(e) <==> listed.to_multiset().count(e) > 0);
    assert(found.contains(e) <==> found.to_multiset().count(e) > 0);
}

/// Setting a status changes that row alone, and there the status and its times alone; and the row
/// is listed as waiting afterwards just where the status says so.
pub proof fn law_status_decides_the_list(
    after: Seq<ProposalEntry>,
    before: Seq<ProposalEntry>,
    id: i64,
    status: Text,
    now: i64,
    i: int,
)
    requires
        entries(after) == status_set(entries(before), id, status, now),
        0 <= i < before.len(),
    ensures
        after.len() == before.len(),
        before[i].id != Some(id) ==> after[i]@ == before[i]@,
        before[i].id == Some(id) ==> {
            &&& after[i]@ == with_status(before[i]@, status, now)
            &&& pending_of(after).contains(after[i]) <==> status == "pending"@
            &&& (exists|k: int|
                0 <= k < pending_of(after).len() && (#[trigger] pending_of(after)[k]).id == Some(
                    id,
                )) <==> status == "pending"@
        },
{
    assert(entries(after).len() == after.len());
    assert(entries(after)[i] == after[i]@);
    assert(entries(before)[i] == before[i]@);
    law_pending_are_listed(after, after[i]);
    assert(after.contains(after[i]));
    if before[i].id == Some(id) {
        let listed = pending_of(after);
        if status == "pending"@ {
            let k = choose|k: int| 0 <= k < listed.len() && listed[k] == after[i];
            assert(listed[k].id == Some(id));
        } else {
            assert forall|k: int| 0 <= k < listed.len() implies (#[trigger] listed[k]).id != Some(
                id,
            ) by {
                law_pending_are_listed(after, listed[k]);
                assert(listed.contains(listed[k]));
                let j = choose|j: int| 0 <= j < after.len() && after[j] == listed[k];
                assert(entries(after)[j] == after[j]@);
                assert(entries(before)[j] == before[j]@);
            }
        }
    }
}

/// The whole hours from `then` to `now`, counted towards zero.
pub open spec fn hours_between(then: i64, now: i64) -> int {
    if now >= then {
        (now - then) / 3600
    } else {
        -((then - now) / 3600)
    }
}

/// The whole hours from `then` to `now`.
fn hours(then: i64, now: i64) -> (r: i64)
    ensures
        r == hours_between(then, now),
{
    if now >= then {
        let d: u128 = (now as i128 - then as i128) as u128;
        (d / 3600) as i64
    } else {
        let d: u128 = (then as i128 - now as i128) as u128;
        -((d / 3600) as i64)
    }
}

/// A waiting proposal in the list.
pub open spec fn proposal_lines(now: i64) -> spec_fn(ProposalRow) -> Text {
    |p: ProposalRow|
        "  ["@ + signed_decimal_of(p.id as int) + "] type:"@ + p.proposal_type@ + " ("@
            + signed_decimal_of(hours_between(p.created_at, now)) + " hours ago)\n  "@ + clip(
            p.proposed_text@,
            120,
        ) + "\n\n"@
}

/// The waiting proposals as a list for the eye.
pub open spec fn pending_text(proposals: Seq<ProposalRow>, now: i64) -> Text {
    if proposals.len() == 0 {
        "No pending cross-session proposals. Run consolidation first.\n"@
    } else {
        decimal_of(proposals.len()) + " pending proposal(s):\n\n"@ + written_out(
            proposals,
            proposal_lines(now),
        )
    }
}

/// The waiting proposals as a list for the eye.
pub fn format_pending_proposals(proposals: &Vec<ProposalRow>, now: i64) -> (r: String)
    ensures
        r@ == pending_text(proposals@, now),
{
    if proposals.len() == 0 {
        return "No pending cross-session proposals. Run consolidation first.\n".to_owned();
    }
    let line = |p: &ProposalRow| -> (t: String)
        ensures
            t@ == proposal_lines(now)(*p),
        {
            let mut s = "  [".to_owned();
            s.append(signed_decimal(p.id).as_str());
            s.append("] type:");
            s.append(p.proposal_type.as_str());
            s.append(" (");
            s.append(signed_decimal(hours(p.created_at, now)).as_str());
            s.append(" hours ago)\n  ");
            s.append(clipped(p.proposed_text.as_str(), 120).as_str());
            s.append("\n\n");
            s
        };
    let mut out = count_text(proposals.len());
    out.append(" pending proposal(s):\n\n");
    out.append(write_all(proposals, line, Ghost(proposal_lines(now))).as_str());
    out
}

/// A safe name is as long as the name and holds no awkward character, and is safe already.
pub proof fn law_safe_name(name: Text)
    ensures
        safe_name_of(name).len() == name.len(),
        forall|i: int| 0 <= i < name.len() ==> !is_awkward(#[trigger] safe_name_of(name)[i]),
        safe_name_of(safe_name_of(name)) == safe_name_of(name),
{
    assert(safe_name_of(safe_name_of(name)) == safe_name_of(name));
}

/// A gap seen again, or a pattern that fared on, is proposed under the hash it had, so that a
/// later run does not enter it again.
pub proof fn law_second_run_is_known(
    i: int,
    j: int,
    gap: GapProposal,
    later_gap: GapProposal,
    pattern: PatternUse,
    later_pattern: PatternUse,
)
    requires
        gap.tool_name@ == later_gap.tool_name@,
        gap.query_text@ == later_gap.query_text@,
        pattern.id == later_pattern.id,
        pattern.name@ == later_pattern.name@,
    ensures
        gap_record_of(i, gap).content_hash == gap_record_of(j, later_gap).content_hash,
        dying_record_of(pattern).content_hash == dying_record_of(later_pattern).content_hash,
        dying_record_of(pattern).file_name == dying_record_of(later_pattern).file_name,
{
}

/// Entering two lists of proposals in turn is entering them as one.
proof fn lemma_entered_in_turn(
    rows: Seq<EntryView>,
    first: Seq<ProposalView>,
    second: Seq<ProposalView>,
    at: i64,
)
    ensures
        entered(entered(rows, first, at), second, at) == entered(rows, first + second, at),
    decreases second.len(),
{
    if second.len() > 0 {
        lemma_entered_in_turn(rows, first, second.drop_last(), at);
        assert((first + second).drop_last() == first + second.drop_last());
    } else {
        assert(first + second == first);
    }
}

/// Entering only adds entries, and makes every proposal known.
proof fn lemma_entered(rows: Seq<EntryView>, new: Seq<ProposalView>, at: i64)
    ensures
        rows.is_prefix_of(entered(rows, new, at)),
        forall|i: int|
            0 <= i < new.len() ==> is_known(
                entered(rows, new, at),
                (#[trigger] new[i]).content_hash,
            ),
    decreases new.len(),
{
    if new.len() > 0 {
        let start = new.drop_last();
        lemma_entered(rows, start, at);
        let before = entered(rows, start, at);
        let all = entered(rows, new, at);
        assert(before.is_prefix_of(all));
        assert forall|i: int| 0 <= i < new.len() implies is_known(
            all,
            (#[trigger] new[i]).content_hash,
        ) by {
            let hash = new[i].content_hash;
            if i < start.len() {
                assert(start[i] == new[i]);
            }
            if is_known(before, hash) {
                let k = choose|k: int|
                    0 <= k < before.len() && (#[trigger] before[k]).content_hash == hash;
                assert(all[k] == before[k]);
            } else {
                assert(all[before.len() as int].content_hash == hash);
            }
        }
    }
}

/// Proposals that are all known leave the entries as they are.
proof fn lemma_known_is_not_entered(rows: Seq<EntryView>, new: Seq<ProposalView>, at: i64)
    requires
        forall|i: int|
            0 <= i < new.len() ==> is_known(rows, (#[trigger] new[i]).content_hash),
    ensures
        entered(rows, new, at) == rows,
    decreases new.len(),
{
    if new.len() > 0 {
        let start = new.drop_last();
        assert forall|i: int| 0 <= i < start.len() implies is_known(
            rows,
            (#[trigger] start[i]).content_hash,
        ) by {
            assert(start[i] == new[i]);
        }
        lemma_known_is_not_entered(rows, start, at);
        assert(is_known(rows, new[new.len() - 1].content_hash));
    }
}

/// A second run on the same input enters nothing, whatever became of the proposals in between: the
/// proposals are the same rows as before it. A first run only adds rows.
pub proof fn law_second_run_enters_nothing(
    rows: Seq<EntryView>,
    reviewed: Seq<EntryView>,
    input: PipelineInput,
    at: i64,
    later: i64,
)
    requires
        reviewed.len() == entered(rows, run_records(input), at).len(),
        forall|i: int|
            0 <= i < reviewed.len() ==> (#[trigger] reviewed[i]).content_hash == entered(
                rows,
                run_records(input),
                at,
            )[i].content_hash,
    ensures
        rows.is_prefix_of(entered(rows, run_records(input), at)),
        entered(reviewed, run_records(input), later) == reviewed,
{
    let new = run_records(input);
    let after = entered(rows, new, at);
    lemma_entered(rows, new, at);
    assert forall|i: int| 0 <= i < new.len() implies is_known(
        reviewed,
        (#[trigger] new[i]).content_hash,
    ) by {
        let hash = new[i].content_hash;
        let k = choose|k: int| 0 <= k < after.len() && (#[trigger] after[k]).content_hash == hash;
        assert(reviewed[k].content_hash == hash);
    }
    lemma_known_is_not_entered(reviewed, new, later);
}

/// No two proposals are entered under one hash.
pub proof fn law_hashes_are_entered_once(
    rows: Seq<EntryView>,
    new: Seq<ProposalView>,
    at: i64,
    i: int,
    j: int,
)
    requires
        0 <= i < j < entered(rows, new, at).len(),
        rows.len() <= j,
    ensures
        entered(rows, new, at)[i].content_hash != entered(rows, new, at)[j].content_hash,
    decreases new.len(),
{
    if new.len() > 0 {
        let before = entered(rows, new.drop_last(), at);
        let all = entered(rows, new, at);
        if j < before.len() {
            law_hashes_are_entered_once(rows, new.drop_last(), at, i, j);
            assert(all[i] == before[i] && all[j] == before[j]);
        } else {
            assert(all[i] == before[i]);
        }
    }
}

/// Notes that agree in their topics hold as many notes on the last run.
proof fn lemma_run_notes_agree(a: Seq<Annotation>, b: Seq<Annotation>)
    requires
        a.len() == b.len(),
        forall|i: int| 0 <= i < a.len() ==> (#[trigger] a[i]).topic@ == b[i].topic@,
    ensures
        kept(a, is_run_note()).len() == kept(b, is_run_note()).len(),
    decreases a.len(),
{
    if a.len() > 0 {
        assert forall|i: int| 0 <= i < a.drop_last().len() implies (
        #[trigger] a.drop_last()[i]).topic@ == b.drop_last()[i].topic@ by {
            assert(a[i].topic@ == b[i].topic@);
        }
        lemma_run_notes_agree(a.drop_last(), b.drop_last());
        assert(a[a.len() - 1].topic@ == b[a.len() - 1].topic@);
    }
}

/// Where no note is on the last run, none is counted.
proof fn lemma_no_run_note(notes: Seq<Annotation>)
    ensures
        kept(notes, is_run_note()).len() == 0 <==> !has_run_note(notes),
    decreases notes.len(),
{
    if notes.len() > 0 {
        let start = notes.drop_last();
        lemma_no_run_note(start);
        if has_run_note(start) {
            let k = choose|k: int| 0 <= k < start.len() && is_run_note()(#[trigger] start[k]);
            assert(is_run_note()(notes[k]));
        }
        if is_run_note()(notes.last()) {
            assert(is_run_note()(notes[notes.len() - 1]));
        }
        if has_run_note(notes) && !is_run_note()(notes.last()) {
            let k = choose|k: int| 0 <= k < notes.len() && is_run_note()(#[trigger] notes[k]);
            assert(is_run_note()(start[k]));
        }
    }
}

/// After a first run there is exactly one note on the last run, and every further run leaves as
/// many as there are.
pub proof fn law_one_note_on_the_last_run(
    after: Seq<Annotation>,
    before: Seq<Annotation>,
    now: Text,
    at: i64,
)
    requires
        is_noted(after, before, now, at),
    ensures
        kept(after, is_run_note()).len() == if kept(before, is_run_note()).len() == 0 {
            1
        } else {
            kept(before, is_run_note()).len()
        },
{
    lemma_no_run_note(before);
    if has_run_note(before) {
        assert forall|i: int| 0 <= i < after.len() implies (#[trigger] after[i]).topic@
            == before[i].topic@ by {}
        lemma_run_notes_agree(after, before);
    }
}

/// A consolidation that is stale stays so as time goes on.
pub proof fn law_staleness_lasts(last_run: Option<Text>, hours: u32, now: i64, later: i64)
    requires
        is_stale_at(last_run, hours, now),
        now <= later,
    ensures
        is_stale_at(last_run, hours, later),
{
}

/// Every gap is proposed, in order, as a note for the preferences, with its tool, its query and the
/// note to be made.
pub proof fn law_every_gap_is_proposed(gaps: Seq<GapProposal>, i: int)
    requires
        0 <= i < gaps.len(),
    ensures
        gap_records(gaps).len() == gaps.len(),
        ({
            let p = gap_records(gaps)[i];
            &&& p.proposal_type == "pref_note"@
            &&& p.target_file == ".cortex/prefs.toml"@
            &&& p.proposed_text == gaps[i].proposed_note@
            &&& p.document->Object_0.contains(("tool_name"@, JsonView::Text(gaps[i].tool_name@)))
            &&& p.document->Object_0.contains(("query_text"@, JsonView::Text(gaps[i].query_text@)))
            &&& p.document->Object_0.contains(
                ("proposed_note"@, JsonView::Text(gaps[i].proposed_note@)),
            )
            &&& p.document->Object_0.contains(
                ("seen_count"@, integer_view(gaps[i].seen_count as int)),
            )
            &&& p.content_hash == text_hash_of(
                "gap:"@ + gaps[i].tool_name@ + ":"@ + gaps[i].query_text@,
            )
        }),
{
    let fields = gap_records(gaps)[i].document->Object_0;
    assert(fields[1].0 == "tool_name"@ && fields[2].0 == "query_text"@ && fields[3].0
        == "seen_count"@ && fields[4].0 == "proposed_note"@);
}

/// A pattern is proposed for removal just where it was used three times or more and less than two
/// fifths of its uses survived, up to ten of them, the worst first; where there are more, those left
/// out fare no worse than any that is proposed.
pub proof fn law_worst_patterns_are_proposed(patterns: Seq<PatternUse>, i: int, j: int)
    ensures
        ({
            let bad = kept(
                patterns,
                |p: PatternUse| p.use_count >= 3 && rate_is_below(p.rate.bits, 0x3ecc_cccd),
            );
            let all = ranked(bad, lower_rate());
            &&& all.to_multiset() == bad.to_multiset()
            &&& dying(patterns).len() == if bad.len() < 10 {
                bad.len()
            } else {
                10
            }
            &&& dying_records(patterns).len() == dying(patterns).len()
            &&& 0 <= i < dying(patterns).len() ==> dying(patterns)[i] == all[i] && bad.contains(
                dying(patterns)[i],
            )
            &&& 0 <= i < dying(patterns).len() && i < j < all.len() ==> rate_order(
                dying(patterns)[i].rate.bits,
            ) <= rate_order(all[j].rate.bits)
        }),
{
    broadcast use vstd::seq_lib::group_to_multiset_ensures;

    let cond = |p: PatternUse| p.use_count >= 3 && rate_is_below(p.rate.bits, 0x3ecc_cccd);
    let bad = kept(patterns, cond);
    lemma_kept_agree(patterns, is_dying(), cond);
    law_ranking_orders(bad, lower_rate(), |p: PatternUse| true);
    let all = ranked(bad, lower_rate());
    if 0 <= i < dying(patterns).len() {
        assert(all.contains(all[i]));
        assert(bad.to_multiset().count(all[i]) > 0);
        if i < j < all.len() {
            assert(!lower_rate()(all[j], all[i]));
        }
    }
}

/// The proposal for a pattern tells its number, name and uses, how it fared, and what to consider.
pub proof fn law_proposal_tells_the_pattern(p: PatternUse)
    ensures
        dying_record_of(p).proposal_type == "anti_pattern"@,
        dying_record_of(p).target_file == "patterns"@,
        dying_record_of(p).proposed_text == "Pattern '"@ + p.name@ + "' has "@ + p.rate_whole@
            + "% survival after "@ + signed_decimal_of(p.use_count as int)
            + " uses — review for removal or anti-pattern conversion"@,
        dying_record_of(p).content_hash == text_hash_of(
            "dying:"@ + signed_decimal_of(p.id as int) + ":"@ + p.name@,
        ),
        dying_record_of(p).document->Object_0.contains(
            ("pattern_id"@, integer_view(p.id as int)),
        ),
        dying_record_of(p).document->Object_0.contains(("name"@, JsonView::Text(p.name@))),
        dying_record_of(p).document->Object_0.contains(("intent"@, JsonView::Text(p.intent@))),
        dying_record_of(p).document->Object_0.contains(
            ("use_count"@, integer_view(p.use_count as int)),
        ),
        dying_record_of(p).document->Object_0.contains(
            ("reverted_count"@, integer_view(p.reverted_count as int)),
        ),
        dying_record_of(p).document->Object_0.contains(
            ("survival_rate"@, JsonView::Float(p.rate.number@)),
        ),
{
    let fields = dying_record_of(p).document->Object_0;
    assert(fields[1].0 == "pattern_id"@ && fields[2].0 == "name"@ && fields[3].0 == "intent"@
        && fields[5].0 == "use_count"@ && fields[6].0 == "reverted_count"@ && fields[7].0
        == "survival_rate"@);
}

/// A proposal is entered as waiting, behind those that are there, unless one with its hash was
/// entered before, whatever became of that.
pub proof fn law_proposal_is_entered_once(
    rows: Seq<EntryView>,
    new: Seq<ProposalView>,
    p: ProposalView,
    at: i64,
)
    ensures
        entered(rows, Seq::empty(), at) == rows,
        (exists|i: int|
            0 <= i < entered(rows, new, at).len() && (#[trigger] entered(
                rows,
                new,
                at,
            )[i]).content_hash == p.content_hash) ==> entered(rows, new.push(p), at) == entered(
            rows,
            new,
            at,
        ),
        !(exists|i: int|
            0 <= i < entered(rows, new, at).len() && (#[trigger] entered(
                rows,
                new,
                at,
            )[i]).content_hash == p.content_hash) ==> entered(rows, new.push(p), at) == entered(
            rows,
            new,
            at,
        ).push(
            EntryView {
                id: None,
                proposal_type: p.proposal_type,
                content_hash: p.content_hash,
                target_file: p.target_file,
                proposed_text: p.proposed_text,
                evidence: p.evidence,
                status: "pending"@,
                created_at: at,
                reviewed_at: None,
                committed_at: None,
            },
        ),
{
    assert(new.push(p).drop_last() == new);
}

/// Approving a proposal reviews and commits it, rejecting it reviews it, and any other status leaves
/// its times; the proposals of other numbers, and all else of it, stay as they were.
pub proof fn law_status_brings_its_times(
    rows: Seq<EntryView>,
    id: i64,
    status: Text,
    now: i64,
    i: int,
)
    requires
        0 <= i < rows.len(),
    ensures
        ({
            let e = status_set(rows, id, status, now)[i];
            &&& status_set(rows, id, status, now).len() == rows.len()
            &&& rows[i].id != Some(id) ==> e == rows[i]
            &&& rows[i].id == Some(id) ==> e.status == status
            &&& rows[i].id == Some(id) && status == "approved"@ ==> e.reviewed_at == Some(now)
                && e.committed_at == Some(now)
            &&& rows[i].id == Some(id) && status == "rejected"@ ==> e.reviewed_at == Some(now)
                && e.committed_at == rows[i].committed_at
            &&& status != "approved"@ && status != "rejected"@ ==> e.reviewed_at
                == rows[i].reviewed_at && e.committed_at == rows[i].committed_at
            &&& e == (EntryView {
                status: e.status,
                reviewed_at: e.reviewed_at,
                committed_at: e.committed_at,
                ..rows[i]
            })
        }),
{
    reveal_strlit("approved");
    reveal_strlit("rejected");
    assert("approved"@[0] == 'a' && "rejected"@[0] == 'r');
}

/// The pipeline is stale where it never ran, or where it last ran longer ago than the hours allowed;
/// a time that cannot be read counts as the beginning of time.
pub proof fn law_pipeline_goes_stale(t: Text, hours: u32, now: i64)
    ensures
        is_stale_at(None, hours, now),
        rfc3339_seconds_of(t) is Some ==> (is_stale_at(Some(t), hours, now) <==> now
            - rfc3339_seconds_of(t)->0 > 3600 * hours),
        rfc3339_seconds_of(t) is None ==> (is_stale_at(Some(t), hours, now) <==> now > 3600
            * hours),
{
}

/// The drafts that were written are counted one by one.
pub proof fn law_written_drafts_are_counted(drafts: Seq<bool>, done: bool)
    ensures
        written(Seq::empty()) == 0,
        written(drafts.push(done)) == written(drafts) + if done {
            1nat
        } else {
            0nat
        },
{
    assert(drafts.push(done).drop_last() == drafts);
}

/// A run is noted: afterwards there is a note that tells its time, and no note on anything else has
/// changed or gone.
pub proof fn law_run_is_noted(
    after: Seq<Annotation>,
    before: Seq<Annotation>,
    now: Text,
    at: i64,
    i: int,
)
    requires
        is_noted(after, before, now, at),
    ensures
        exists|k: int|
            0 <= k < after.len() && (#[trigger] after[k]).topic@ == "consolidation-last-run"@
                && after[k].body@ == now && after[k].added_at == at,
        0 <= i < before.len() && before[i].topic@ != "consolidation-last-run"@ ==> i < after.len()
            && after[i] == before[i],
        before.len() <= after.len() <= before.len() + 1,
{
    if has_run_note(before) {
        let k = choose|k: int| 0 <= k < before.len() && is_run_note()(#[trigger] before[k]);
        assert(after[k].topic@ == "consolidation-last-run"@);
    } else {
        assert(after[after.len() - 1].topic@ == "consolidation-last-run"@);
        if 0 <= i < before.len() {
            assert(after.drop_last()[i] == before[i]);
        }
    }
}

/// The list of waiting proposals tells of each its number, its type and its text, up to a hundred
/// and twenty characters.
pub proof fn law_every_waiting_proposal_is_shown(proposals: Seq<ProposalRow>, now: i64, i: int)
    requires
        0 <= i < proposals.len(),
    ensures
        ({
            let p = proposals[i];
            let shown = if p.proposed_text@.len() <= 120 {
                p.proposed_text@
            } else {
                p.proposed_text@.take(120)
            };
            &&& contains_text(
                pending_text(proposals, now),
                "  ["@ + signed_decimal_of(p.id as int) + "] type:"@ + p.proposal_type@ + " ("@,
            )
            &&& contains_text(pending_text(proposals, now), " hours ago)\n  "@ + shown + "\n\n"@)
        }),
{
    let p = proposals[i];
    let all = pending_text(proposals, now);
    let line = proposal_lines(now)(p);
    let head = decimal_of(proposals.len()) + " pending proposal(s):\n\n"@;
    let body = written_out(proposals, proposal_lines(now));
    lemma_written_out_holds(proposals, proposal_lines(now), i);
    lemma_contains_half(head, body, line);
    let front = "  ["@ + signed_decimal_of(p.id as int) + "] type:"@ + p.proposal_type@ + " ("@;
    let age = signed_decimal_of(hours_between(p.created_at, now));
    let tail = " hours ago)\n  "@ + clip(p.proposed_text@, 120) + "\n\n"@;
    assert(line =~= front + (age + tail));
    assert(line =~= (front + age) + tail);
    lemma_contains_itself(front);
    lemma_contains_half(front, age + tail, front);
    lemma_contains_itself(tail);
    lemma_contains_half(front + age, tail, tail);
    lemma_contains_through(all, line, front);
    lemma_contains_through(all, line, tail);
}

/// The health report tells every count that it is given.
pub proof fn law_health_tells_every_count(h: HealthCounts, at: Text)
    ensures
        ({
            let fields = health_json(h, at)->Object_0;
            &&& fields.contains(("generated_at"@, JsonView::Text(at)))
            &&& fields.contains(("patterns"@, integer_view(h.patterns as int)))
            &&& fields.contains(("low_survival"@, integer_view(h.low_survival as int)))
            &&& fields.contains(("anti_patterns"@, integer_view(h.anti_patterns as int)))
            &&& fields.contains(("pending_obs"@, integer_view(h.pending_obs as int)))
            &&& fields.contains(("pending_proposals"@, integer_view(h.pending_proposals as int)))
            &&& fields.contains(("orphaned_sessions"@, integer_view(h.orphaned_sessions as int)))
            &&& fields[7].0 == "hot_gaps"@
            &&& fields[7].1->List_0.len() == h.hot_gaps@.len()
        }),
{
    let fields = health_json(h, at)->Object_0;
    assert(fields[0].0 == "generated_at"@ && fields[1].0 == "patterns"@ && fields[2].0
        == "low_survival"@ && fields[3].0 == "anti_patterns"@ && fields[4].0 == "pending_obs"@
        && fields[5].0 == "pending_proposals"@ && fields[6].0 == "orphaned_sessions"@);
}

/// The proposal for a gap is filed under its place, in two digits at least; the proposal for a
/// pattern shows its body, of which just the first two hundred characters where it is longer.
pub proof fn law_proposals_are_filed_and_cut(i: int, gap: GapProposal, p: PatternUse)
    requires
        0 <= i,
    ensures
        i < 10 ==> gap_record_of(i, gap).file_name == "pref_gap_"@ + "0"@ + decimal_of(i as nat)
            + ".json"@,
        10 <= i ==> gap_record_of(i, gap).file_name == "pref_gap_"@ + decimal_of(i as nat)
            + ".json"@,
        p.body@.len() <= 200 ==> dying_record_of(p).document->Object_0.contains(
            ("body_preview"@, JsonView::Text(p.body@)),
        ),
        p.body@.len() > 200 ==> dying_record_of(p).document->Object_0.contains(
            ("body_preview"@, JsonView::Text(p.body@.take(200))),
        ),
{
    let fields = dying_record_of(p).document->Object_0;
    assert(fields[4] == ("body_preview"@, JsonView::Text(clip(p.body@, 200))));
    reveal_strlit("0");
    let d = decimal_of(i as nat);
    assert("0"@ =~= seq!['0']);
    if i < 10 {
        assert(d.len() == 1);
        assert(zero_fill(seq!['0'] + d, 2) == seq!['0'] + d);
        assert(zero_fill(d, 2) == seq!['0'] + d);
        assert("pref_gap_"@ + (seq!['0'] + d) + ".json"@ =~= "pref_gap_"@ + "0"@ + d + ".json"@);
    } else {
        crate::numbers::law_decimal_stands_for_its_number((i / 10) as nat);
        assert(d.len() >= 2);
    }
}

} // verus!
