//! Closing a session: what becomes of the knowledge that was marked in it.
//!
//! With approval every marker is committed at once; without it every marker is only staged for a
//! later review, and nothing is committed.

use crate::clock::{utc_text, utc_text_of, DAY, SNAPSHOT_STAMP};
use crate::json::{
    add_field, list_text, no_entries, no_fields, object, strings_json_of, text, text_list,
    text_views, Json, JsonView,
};
use crate::lists::{items, kept, lemma_written_out_holds, refs_of, write_all, written_out};
use crate::model::{
    full_rate, is_full, Adr, Annotation, AntiPattern, KnowledgeMarker, Pattern, StoredRate,
};
use crate::order::{before, by_key, in_order, law_sorting_orders, rank_refs, sorted_by, text_lt};
use crate::text::{
    chars_of, clip, clipped, contains_text, lemma_contains_half, lemma_contains_itself,
    lemma_contains_middle, replace, replace_of, same, views, Text,
};
use vstd::prelude::*;

verus! {

/// What closing a session did.
#[derive(Debug, Clone, Copy, PartialEq, Eq, Structural)]
pub struct CloseoutResult {
    pub patterns_committed: usize,
    pub anti_patterns_committed: usize,
    pub corrections_committed: usize,
    pub adrs_committed: usize,
    pub prefs_notes_committed: usize,
    pub skill_candidates_staged: usize,
    pub markers_staged: usize,
    pub outcome_logged: bool,
    pub graph_snapshot_written: bool,
    pub session_snapshot_written: bool,
    pub mirror_written: bool,
}

impl Default for CloseoutResult {
    /// Nothing was done yet.
    fn default() -> (r: CloseoutResult)
        ensures
            r == nothing_done(),
    {
        CloseoutResult {
            patterns_committed: 0,
            anti_patterns_committed: 0,
            corrections_committed: 0,
            adrs_committed: 0,
            prefs_notes_committed: 0,
            skill_candidates_staged: 0,
            markers_staged: 0,
            outcome_logged: false,
            graph_snapshot_written: false,
            session_snapshot_written: false,
            mirror_written: false,
        }
    }
}

/// Nothing was done yet.
pub open spec fn nothing_done() -> CloseoutResult {
    CloseoutResult {
        patterns_committed: 0,
        anti_patterns_committed: 0,
        corrections_committed: 0,
        adrs_committed: 0,
        prefs_notes_committed: 0,
        skill_candidates_staged: 0,
        markers_staged: 0,
        outcome_logged: false,
        graph_snapshot_written: false,
        session_snapshot_written: false,
        mirror_written: false,
    }
}

impl CloseoutResult {
    /// How many markers were handled with success, of whatever kind.
    pub open spec fn committed(self) -> int {
        self.patterns_committed + self.anti_patterns_committed + self.corrections_committed
            + self.adrs_committed + self.prefs_notes_committed + self.skill_candidates_staged
    }
}

/// Where the closing of a session stands.
#[derive(Debug, Clone, Copy, PartialEq, Eq, Structural)]
pub enum Phase {
    /// The marker at this position is next.
    Markers(usize),
    Flush,
    Outcome,
    Graph,
    Snapshot,
    Mirror,
    Close,
    Done,
}

/// What is to be done next.
#[derive(Debug, Clone, Copy, PartialEq, Eq, Structural)]
pub enum Action {
    /// Commit the marker at this position to its table.
    Commit(usize),
    /// Stage the marker at this position for a review.
    Stage(usize),
    /// Note that the markers are flushed; `approved` says whether they were committed.
    MarkFlushed { approved: bool },
    LogOutcome,
    CopyGraph,
    WriteSnapshot,
    WriteMirror,
    CloseSession,
    Nothing,
}

/// The closing of a session.
#[derive(Debug)]
pub struct Closeout {
    pub approved: bool,
    pub markers: Vec<KnowledgeMarker>,
    pub phase: Phase,
    pub result: CloseoutResult,
}

/// The phase in which the marker at `i` is next, or the one behind it where there is none.
pub open spec fn phase_at(i: int, n: int) -> Phase {
    if i < n {
        Phase::Markers(i as usize)
    } else {
        Phase::Flush
    }
}

/// The result with one more marker of the kind of `m` handled.
pub open spec fn counted(r: CloseoutResult, m: KnowledgeMarker) -> CloseoutResult {
    match m {
        KnowledgeMarker::Pattern { .. } => CloseoutResult {
            patterns_committed: (r.patterns_committed + 1) as usize,
            ..r
        },
        KnowledgeMarker::AntiPattern { .. } => CloseoutResult {
            anti_patterns_committed: (r.anti_patterns_committed + 1) as usize,
            ..r
        },
        KnowledgeMarker::Correction { .. } => CloseoutResult {
            corrections_committed: (r.corrections_committed + 1) as usize,
            ..r
        },
        KnowledgeMarker::Adr { .. } => CloseoutResult {
            adrs_committed: (r.adrs_committed + 1) as usize,
            ..r
        },
        KnowledgeMarker::PrefsNote { .. } => CloseoutResult {
            prefs_notes_committed: (r.prefs_notes_committed + 1) as usize,
            ..r
        },
        KnowledgeMarker::SkillCandidate { .. } => CloseoutResult {
            skill_candidates_staged: (r.skill_candidates_staged + 1) as usize,
            ..r
        },
    }
}

/// The result once the action of the phase was tried, with success or not.
pub open spec fn result_after(c: Closeout, success: bool) -> CloseoutResult {
    let r = c.result;
    match c.phase {
        Phase::Markers(i) => if c.approved {
            if success {
                counted(r, c.markers@[i as int])
            } else {
                r
            }
        } else {
            CloseoutResult { markers_staged: (r.markers_staged + 1) as usize, ..r }
        },
        Phase::Outcome => CloseoutResult { outcome_logged: success, ..r },
        Phase::Graph => CloseoutResult { graph_snapshot_written: success, ..r },
        Phase::Snapshot => CloseoutResult { session_snapshot_written: success, ..r },
        Phase::Mirror => CloseoutResult { mirror_written: success, ..r },
        _ => r,
    }
}

/// The phase behind a phase, for `n` markers.
pub open spec fn phase_after(phase: Phase, n: int) -> Phase {
    match phase {
        Phase::Markers(i) => phase_at(i + 1, n),
        Phase::Flush => Phase::Outcome,
        Phase::Outcome => Phase::Graph,
        Phase::Graph => Phase::Snapshot,
        Phase::Snapshot => Phase::Mirror,
        Phase::Mirror => Phase::Close,
        Phase::Close => Phase::Done,
        Phase::Done => Phase::Done,
    }
}

/// How many steps are left.
pub open spec fn steps_left(phase: Phase, n: int) -> int {
    match phase {
        Phase::Markers(i) => 6 + n - i,
        Phase::Flush => 6,
        Phase::Outcome => 5,
        Phase::Graph => 4,
        Phase::Snapshot => 3,
        Phase::Mirror => 2,
        Phase::Close => 1,
        Phase::Done => 0,
    }
}

impl Closeout {
    /// The marker that is next exists, and no more was counted than was handled.
    pub open spec fn wf(self) -> bool {
        &&& self.phase matches Phase::Markers(i) ==> i < self.markers@.len()
        &&& self.result.committed() <= self.handled()
        &&& self.result.markers_staged <= self.handled()
        &&& self.approved ==> self.result.markers_staged == 0
        &&& !self.approved ==> self.result.committed() == 0 && self.result.markers_staged
            == self.handled()
    }

    /// How many markers were handled.
    pub open spec fn handled(self) -> int {
        match self.phase {
            Phase::Markers(i) => i as int,
            _ => self.markers@.len() as int,
        }
    }

    /// What is to be done next.
    pub open spec fn action(self) -> Action {
        match self.phase {
            Phase::Markers(i) => if self.approved {
                Action::Commit(i)
            } else {
                Action::Stage(i)
            },
            Phase::Flush => Action::MarkFlushed { approved: self.approved },
            Phase::Outcome => Action::LogOutcome,
            Phase::Graph => Action::CopyGraph,
            Phase::Snapshot => Action::WriteSnapshot,
            Phase::Mirror => Action::WriteMirror,
            Phase::Close => Action::CloseSession,
            Phase::Done => Action::Nothing,
        }
    }

    /// Starts to close a session with these markers.
    pub fn new(markers: Vec<KnowledgeMarker>, approved: bool) -> (r: Closeout)
        ensures
            r.wf(),
            r.approved == approved,
            r.markers == markers,
            r.phase == phase_at(0, markers@.len() as int),
            r.result == nothing_done(),
    {
        let phase = if markers.len() > 0 {
            Phase::Markers(0)
        } else {
            Phase::Flush
        };
        Closeout { approved, markers, phase, result: CloseoutResult::default() }
    }

    /// What is to be done next.
    pub fn next_action(&self) -> (r: Action)
        requires
            self.wf(),
        ensures
            r == self.action(),
            r matches Action::Commit(i) ==> i < self.markers@.len(),
            r matches Action::Stage(i) ==> i < self.markers@.len(),
    {
        match self.phase {
            Phase::Markers(i) => if self.approved {
                Action::Commit(i)
            } else {
                Action::Stage(i)
            },
            Phase::Flush => Action::MarkFlushed { approved: self.approved },
            Phase::Outcome => Action::LogOutcome,
            Phase::Graph => Action::CopyGraph,
            Phase::Snapshot => Action::WriteSnapshot,
            Phase::Mirror => Action::WriteMirror,
            Phase::Close => Action::CloseSession,
            Phase::Done => Action::Nothing,
        }
    }

    /// Goes on once the action was tried; `success` says whether it did what it should: a marker
    /// that was committed, an outcome that was logged, a file that was written.
    pub fn advance(&mut self, success: bool)
        requires
            old(self).wf(),
        ensures
            final(self).wf(),
            final(self).approved == old(self).approved,
            final(self).markers == old(self).markers,
            final(self).phase == phase_after(old(self).phase, old(self).markers@.len() as int),
            final(self).result == result_after(*old(self), success),
    {
        let n = self.markers.len();
        match self.phase {
            Phase::Markers(i) => {
                if self.approved {
                    if success {
                        match &self.markers[i] {
                            KnowledgeMarker::Pattern { .. } => {
                                self.result.patterns_committed = self.result.patterns_committed + 1;
                            },
                            KnowledgeMarker::AntiPattern { .. } => {
                                self.result.anti_patterns_committed =
                                self.result.anti_patterns_committed + 1;
                            },
                            KnowledgeMarker::Correction { .. } => {
                                self.result.corrections_committed =
                                self.result.corrections_committed + 1;
                            },
                            KnowledgeMarker::Adr { .. } => {
                                self.result.adrs_committed = self.result.adrs_committed + 1;
                            },
                            KnowledgeMarker::PrefsNote { .. } => {
                                self.result.prefs_notes_committed =
                                self.result.prefs_notes_committed + 1;
                            },
                            KnowledgeMarker::SkillCandidate { .. } => {
                                self.result.skill_candidates_staged =
                                self.result.skill_candidates_staged + 1;
                            },
                        }
                    }
                } else {
                    self.result.markers_staged = self.result.markers_staged + 1;
                }
                self.phase = if i + 1 < n {
                    Phase::Markers(i + 1)
                } else {
                    Phase::Flush
                };
            },
            Phase::Flush => {
                self.phase = Phase::Outcome;
            },
            Phase::Outcome => {
                self.result.outcome_logged = success;
                self.phase = Phase::Graph;
            },
            Phase::Graph => {
                self.result.graph_snapshot_written = success;
                self.phase = Phase::Snapshot;
            },
            Phase::Snapshot => {
                self.result.session_snapshot_written = success;
                self.phase = Phase::Mirror;
            },
            Phase::Mirror => {
                self.result.mirror_written = success;
                self.phase = Phase::Close;
            },
            Phase::Close => {
                self.phase = Phase::Done;
            },
            Phase::Done => {},
        }
    }
}

/// The closing once its next action was tried.
pub open spec fn stepped(c: Closeout, success: bool) -> Closeout {
    Closeout {
        phase: phase_after(c.phase, c.markers@.len() as int),
        result: result_after(c, success),
        ..c
    }
}

/// What comes of a closing whose actions succeed or not as `successes` says, one after another.
pub open spec fn outcome_of(c: Closeout, successes: Seq<bool>) -> CloseoutResult
    decreases successes.len(),
{
    if successes.len() == 0 {
        c.result
    } else {
        outcome_of(stepped(c, successes[0]), successes.drop_first())
    }
}

/// Closes a session: `successes` says of each action, one after another, whether it did what it
/// should. There is one for each marker, and six that follow.
pub fn run_closeout(markers: Vec<KnowledgeMarker>, approved: bool, successes: &Vec<bool>) -> (r:
    CloseoutResult)
    requires
        successes@.len() == markers@.len() + 6,
    ensures
        r == outcome_of(
            Closeout {
                approved,
                markers,
                phase: phase_at(0, markers@.len() as int),
                result: nothing_done(),
            },
            successes@,
        ),
        r.markers_staged == if approved {
            0
        } else {
            markers@.len()
        },
        r.committed() <= markers@.len(),
        !approved ==> r.committed() == 0,
{
    let ghost n = markers@.len() as int;
    let mut closing = Closeout::new(markers, approved);
    let ghost start = closing;
    let mut i: usize = 0;
    assert(successes@.skip(0) == successes@);
    while i < successes.len()
        invariant
            i <= successes@.len() == n + 6,
            closing.wf(),
            closing.approved == approved,
            closing.markers == markers,
            n == markers@.len(),
            steps_left(closing.phase, n) == successes@.len() - i,
            outcome_of(start, successes@) == outcome_of(closing, successes@.skip(i as int)),
        decreases successes@.len() - i,
    {
        let ghost before = closing;
        assert(successes@.skip(i as int)[0] == successes@[i as int]);
        assert(successes@.skip(i as int).drop_first() == successes@.skip(i + 1));
        proof {
            law_closeout_ends(closing.phase, n);
        }
        closing.advance(successes[i]);
        assert(closing == stepped(before, successes@[i as int]));
        i = i + 1;
    }
    assert(successes@.skip(i as int).len() == 0);
    closing.result
}

/// Without approval nothing is ever committed: no step asks for it, and the counts stay zero.
pub proof fn law_nothing_committed_without_approval(c: Closeout)
    requires
        c.wf(),
        !c.approved,
    ensures
        !(c.action() is Commit),
        c.action() != (Action::MarkFlushed { approved: true }),
        c.result.committed() == 0,
        c.phase == Phase::Done ==> c.result.markers_staged == c.markers@.len(),
{
}

/// With approval nothing is left staged.
pub proof fn law_nothing_staged_with_approval(c: Closeout)
    requires
        c.wf(),
        c.approved,
    ensures
        !(c.action() is Stage),
        c.result.markers_staged == 0,
        c.result.committed() <= c.markers@.len(),
{
}

/// The closing ends: each step leaves one step less.
pub proof fn law_closeout_ends(phase: Phase, n: int)
    requires
        phase != Phase::Done,
        phase matches Phase::Markers(i) ==> i < n <= usize::MAX,
        0 <= n,
    ensures
        0 <= steps_left(phase_after(phase, n), n) == steps_left(phase, n) - 1,
        steps_left(phase, n) <= n + 6,
{
}

/// The staged marker that is to count as promoted: of which kind, under which name, or with which
/// text in its body.
#[derive(Debug)]
pub struct Promotion {
    pub kind: String,
    pub name: String,
    pub body_like: String,
}

/// What is to be written to commit a marker.
#[derive(Debug)]
pub enum Commit {
    /// There is such an entry already.
    Skip,
    Pattern(Pattern, Promotion),
    AntiPattern(AntiPattern, Promotion),
    Correction {
        attempted: String,
        reason: String,
        fix: String,
        tags: Vec<String>,
        promotion: Promotion,
    },
    Adr(Adr, Promotion),
    /// A note for the preferences file.
    PrefsNote { note: String, promotion: Promotion },
    /// A note for the annotations, where there is no preferences file.
    Annotation(Annotation),
    /// A candidate for a skill, which is never more than staged.
    SkillCandidate { name: String, trigger: String },
}

impl Promotion {
    /// The promotion of a marker of a kind under a name.
    pub open spec fn is_for(self, kind: Text, name: Text) -> bool {
        &&& self.kind@ == kind
        &&& self.name@ == name
        &&& self.body_like@ == "%"@ + clip(name, 30) + "%"@
    }

    /// The promotion of a marker of a kind under a name.
    fn of(kind: &str, name: &str) -> (r: Promotion)
        ensures
            r.is_for(kind@, name@),
    {
        let mut like = "%".to_owned();
        like.append(clipped(name, 30).as_str());
        like.append("%");
        Promotion { kind: kind.to_owned(), name: name.to_owned(), body_like: like }
    }
}

/// `c` is what is to be written to commit `m` on the day `today`, at the second `now`: `duplicate`
/// says whether a pattern of that name, or an anti-pattern of that description, exists; `number`
/// is the next number of a decision, and `prefs` says whether there is a preferences file.
pub open spec fn commits(
    c: Commit,
    m: KnowledgeMarker,
    duplicate: bool,
    today: Text,
    now: i64,
    number: i64,
    prefs: bool,
) -> bool {
    match m {
        KnowledgeMarker::Pattern { name, intent, body, trust, uses, tags } => if duplicate {
            c is Skip
        } else {
            &&& c matches Commit::Pattern(p, promotion)
            &&& p.id is None
            &&& p.name@ == name@
            &&& p.intent@ == intent@
            &&& p.body@ == body@ + "\nTrust: "@ + trust@ + " "@ + today
            &&& views(p.uses@) == views(uses@)
            &&& views(p.tags@) == views(tags@)
            &&& p.approved_at == now
            &&& p.use_count == 0
            &&& p.reverted_count == 0
            &&& is_full(p.survival_rate)
            &&& promotion.is_for("pattern"@, name@)
        },
        KnowledgeMarker::AntiPattern { description, wrong, correct, tags } => if duplicate {
            c is Skip
        } else {
            &&& c matches Commit::AntiPattern(a, promotion)
            &&& a.id is None
            &&& a.description@ == description@
            &&& a.wrong@ == wrong@
            &&& a.correct@ == correct@
            &&& views(a.tags@) == views(tags@)
            &&& a.added_at == now
            &&& promotion.is_for("anti_pattern"@, description@)
        },
        KnowledgeMarker::Correction { attempted, reason, fix, tags } => {
            &&& c matches Commit::Correction {
                attempted: a,
                reason: r,
                fix: f,
                tags: t,
                promotion,
            }
            &&& a@ == attempted@
            &&& r@ == reason@
            &&& f@ == fix@
            &&& views(t@) == views(tags@)
            &&& promotion.is_for("correction"@, attempted@)
        },
        KnowledgeMarker::Adr { title, context, decision, tags } => {
            &&& c matches Commit::Adr(a, promotion)
            &&& a.id is None
            &&& a.adr_number == number
            &&& a.title@ == title@
            &&& a.status@ == "accepted"@
            &&& a.context@ == context@
            &&& a.decision@ == decision@
            &&& a.reasoning@.len() == 0
            &&& a.alternatives@.len() == 0
            &&& a.consequences@.len() == 0
            &&& views(a.concept_tags@) == views(tags@)
            &&& a.superseded_by is None
            &&& promotion.is_for("adr"@, title@)
        },
        KnowledgeMarker::PrefsNote { body, tags } => if prefs {
            &&& c matches Commit::PrefsNote { note, promotion }
            &&& note@ == body@ + " Trust: annotated "@ + today
            &&& promotion.is_for("prefs_note"@, clip(body@, 60))
        } else {
            &&& c matches Commit::Annotation(a)
            &&& a.id is None
            &&& a.topic@ == "prefs-note: "@ + clip(body@, 60)
            &&& a.body@ == body@
            &&& views(a.tags@) == views(tags@)
            &&& a.added_at == now
        },
        KnowledgeMarker::SkillCandidate { name, trigger, summary } => {
            &&& c matches Commit::SkillCandidate { name: n, trigger: t }
            &&& n@ == name@
            &&& t@ == trigger@
        },
    }
}

/// A copy of a list of strings.
pub fn copy_texts(list: &Vec<String>) -> (r: Vec<String>)
    ensures
        views(r@) == views(list@),
{
    let mut out: Vec<String> = Vec::new();
    let mut i: usize = 0;
    while i < list.len()
        invariant
            i <= list@.len(),
            views(out@) == views(list@).take(i as int),
        decreases list@.len() - i,
    {
        let ghost before = out@;
        out.push(list[i].clone());
        assert(views(out@) == views(before).push(list@[i as int]@));
        assert(views(list@).take(i + 1) == views(list@).take(i as int).push(list@[i as int]@));
        i = i + 1;
    }
    assert(views(list@).take(i as int) == views(list@));
    out
}

/// What is to be written to commit a marker on the day `today`.
pub fn commit_on(
    marker: &KnowledgeMarker,
    duplicate: bool,
    today: &str,
    now: i64,
    next_adr: i64,
    has_prefs: bool,
) -> (r: Commit)
    ensures
        commits(r, *marker, duplicate, today@, now, next_adr, has_prefs),
{
    match marker {
        KnowledgeMarker::Pattern { name, intent, body, trust, uses, tags } => {
            if duplicate {
                return Commit::Skip;
            }
            let mut trusted = body.clone();
            trusted.append("\nTrust: ");
            trusted.append(trust.as_str());
            trusted.append(" ");
            trusted.append(today);
            let p = Pattern {
                id: None,
                name: name.clone(),
                intent: intent.clone(),
                body: trusted,
                uses: copy_texts(uses),
                tags: copy_texts(tags),
                approved_at: now,
                use_count: 0,
                reverted_count: 0,
                survival_rate: full_rate(),
            };
            Commit::Pattern(p, Promotion::of("pattern", name.as_str()))
        },
        KnowledgeMarker::AntiPattern { description, wrong, correct, tags } => {
            if duplicate {
                return Commit::Skip;
            }
            let a = AntiPattern {
                id: None,
                description: description.clone(),
                wrong: wrong.clone(),
                correct: correct.clone(),
                tags: copy_texts(tags),
                added_at: now,
            };
            Commit::AntiPattern(a, Promotion::of("anti_pattern", description.as_str()))
        },
        KnowledgeMarker::Correction { attempted, reason, fix, tags } => Commit::Correction {
            attempted: attempted.clone(),
            reason: reason.clone(),
            fix: fix.clone(),
            tags: copy_texts(tags),
            promotion: Promotion::of("correction", attempted.as_str()),
        },
        KnowledgeMarker::Adr { title, context, decision, tags } => {
            let a = Adr {
                id: None,
                adr_number: next_adr,
                title: title.clone(),
                status: "accepted".to_owned(),
                context: context.clone(),
                decision: decision.clone(),
                reasoning: String::new(),
                alternatives: String::new(),
                consequences: String::new(),
                concept_tags: copy_texts(tags),
                superseded_by: None,
            };
            Commit::Adr(a, Promotion::of("adr", title.as_str()))
        },
        KnowledgeMarker::PrefsNote { body, tags } => {
            let short = clipped(body.as_str(), 60);
            if has_prefs {
                let mut note = body.clone();
                note.append(" Trust: annotated ");
                note.append(today);
                Commit::PrefsNote { note, promotion: Promotion::of("prefs_note", short.as_str()) }
            } else {
                let mut topic = "prefs-note: ".to_owned();
                topic.append(short.as_str());
                Commit::Annotation(
                    Annotation {
                        id: None,
                        topic,
                        body: body.clone(),
                        tags: copy_texts(tags),
                        added_at: now,
                    },
                )
            }
        },
        KnowledgeMarker::SkillCandidate { name, trigger, summary } => Commit::SkillCandidate {
            name: name.clone(),
            trigger: trigger.clone(),
        },
    }
}

/// A pattern of the name of the marker, or an anti-pattern of its description, is there already.
pub open spec fn is_there(
    m: KnowledgeMarker,
    patterns: Seq<Pattern>,
    anti_patterns: Seq<AntiPattern>,
) -> bool {
    match m {
        KnowledgeMarker::Pattern { name, .. } => exists|i: int|
            0 <= i < patterns.len() && (#[trigger] patterns[i]).name@ == name@,
        KnowledgeMarker::AntiPattern { description, .. } => exists|i: int|
            0 <= i < anti_patterns.len() && (#[trigger] anti_patterns[i]).description@
                == description@,
        _ => false,
    }
}

/// `q` holds what `p` holds.
pub open spec fn same_pattern(q: Pattern, p: Pattern) -> bool {
    &&& q.id == p.id
    &&& q.name@ == p.name@
    &&& q.intent@ == p.intent@
    &&& q.body@ == p.body@
    &&& views(q.uses@) == views(p.uses@)
    &&& views(q.tags@) == views(p.tags@)
    &&& q.approved_at == p.approved_at
    &&& q.use_count == p.use_count
    &&& q.reverted_count == p.reverted_count
    &&& q.survival_rate.bits == p.survival_rate.bits
    &&& q.survival_rate.number@ == p.survival_rate.number@
    &&& q.survival_rate.percent@ == p.survival_rate.percent@
}

/// `b` holds what `a` holds.
pub open spec fn same_anti_pattern(b: AntiPattern, a: AntiPattern) -> bool {
    &&& b.id == a.id
    &&& b.description@ == a.description@
    &&& b.wrong@ == a.wrong@
    &&& b.correct@ == a.correct@
    &&& views(b.tags@) == views(a.tags@)
    &&& b.added_at == a.added_at
}

/// The patterns once `c` was written: a pattern comes behind those that are there, and nothing else
/// changes them.
pub open spec fn patterns_with(after: Seq<Pattern>, before: Seq<Pattern>, c: Commit) -> bool {
    match c {
        Commit::Pattern(p, _) => {
            &&& after.len() == before.len() + 1
            &&& after.drop_last() == before
            &&& same_pattern(after.last(), p)
        },
        _ => after == before,
    }
}

/// The anti-patterns once `c` was written.
pub open spec fn anti_patterns_with(
    after: Seq<AntiPattern>,
    before: Seq<AntiPattern>,
    c: Commit,
) -> bool {
    match c {
        Commit::AntiPattern(a, _) => {
            &&& after.len() == before.len() + 1
            &&& after.drop_last() == before
            &&& same_anti_pattern(after.last(), a)
        },
        _ => after == before,
    }
}

/// Whether a pattern has a name.
fn knows_name(patterns: &Vec<Pattern>, name: &str) -> (r: bool)
    ensures
        r == exists|i: int| 0 <= i < patterns@.len() && (#[trigger] patterns@[i]).name@ == name@,
{
    let mut i: usize = 0;
    while i < patterns.len()
        invariant
            i <= patterns@.len(),
            forall|k: int| 0 <= k < i ==> (#[trigger] patterns@[k]).name@ != name@,
        decreases patterns@.len() - i,
    {
        if same(patterns[i].name.as_str(), name) {
            return true;
        }
        i = i + 1;
    }
    false
}

/// Whether an anti-pattern has a description.
fn knows_description(anti_patterns: &Vec<AntiPattern>, description: &str) -> (r: bool)
    ensures
        r == exists|i: int|
            0 <= i < anti_patterns@.len() && (#[trigger] anti_patterns@[i]).description@
                == description@,
{
    let mut i: usize = 0;
    while i < anti_patterns.len()
        invariant
            i <= anti_patterns@.len(),
            forall|k: int|
                0 <= k < i ==> (#[trigger] anti_patterns@[k]).description@ != description@,
        decreases anti_patterns@.len() - i,
    {
        if same(anti_patterns[i].description.as_str(), description) {
            return true;
        }
        i = i + 1;
    }
    false
}

/// Whether a pattern of the name of the marker, or an anti-pattern of its description, is there.
pub fn is_known(
    marker: &KnowledgeMarker,
    patterns: &Vec<Pattern>,
    anti_patterns: &Vec<AntiPattern>,
) -> (r: bool)
    ensures
        r == is_there(*marker, patterns@, anti_patterns@),
{
    match marker {
        KnowledgeMarker::Pattern { name, .. } => knows_name(patterns, name.as_str()),
        KnowledgeMarker::AntiPattern { description, .. } => knows_description(
            anti_patterns,
            description.as_str(),
        ),
        _ => false,
    }
}

/// Writes what is to be written to the patterns and the anti-patterns.
pub fn write_commit(
    c: &Commit,
    patterns: &mut Vec<Pattern>,
    anti_patterns: &mut Vec<AntiPattern>,
)
    ensures
        patterns_with(final(patterns)@, old(patterns)@, *c),
        anti_patterns_with(final(anti_patterns)@, old(anti_patterns)@, *c),
{
    match c {
        Commit::Pattern(p, _) => {
            let survival_rate = StoredRate {
                bits: p.survival_rate.bits,
                number: p.survival_rate.number.clone(),
                percent: p.survival_rate.percent.clone(),
            };
            patterns.push(
                Pattern {
                    id: p.id,
                    name: p.name.clone(),
                    intent: p.intent.clone(),
                    body: p.body.clone(),
                    uses: copy_texts(&p.uses),
                    tags: copy_texts(&p.tags),
                    approved_at: p.approved_at,
                    use_count: p.use_count,
                    reverted_count: p.reverted_count,
                    survival_rate,
                },
            );
            assert(patterns@.drop_last() == old(patterns)@);
        },
        Commit::AntiPattern(a, _) => {
            anti_patterns.push(
                AntiPattern {
                    id: a.id,
                    description: a.description.clone(),
                    wrong: a.wrong.clone(),
                    correct: a.correct.clone(),
                    tags: copy_texts(&a.tags),
                    added_at: a.added_at,
                },
            );
            assert(anti_patterns@.drop_last() == old(anti_patterns)@);
        },
        _ => {},
    }
}

/// Commits a marker at the second `now` after the Unix epoch: gives what is to be written, and
/// writes it to the patterns and the anti-patterns where it belongs there. Nothing is committed
/// where no calendar date belongs to that second.
pub fn commit_marker(
    marker: &KnowledgeMarker,
    patterns: &mut Vec<Pattern>,
    anti_patterns: &mut Vec<AntiPattern>,
    now: i64,
    next_adr: i64,
    has_prefs: bool,
) -> (r: Option<Commit>)
    ensures
        match r {
            Some(c) => {
                &&& utc_text_of(now, DAY@) is Some
                &&& commits(
                    c,
                    *marker,
                    is_there(*marker, old(patterns)@, old(anti_patterns)@),
                    utc_text_of(now, DAY@)->0,
                    now,
                    next_adr,
                    has_prefs,
                )
                &&& patterns_with(final(patterns)@, old(patterns)@, c)
                &&& anti_patterns_with(final(anti_patterns)@, old(anti_patterns)@, c)
            },
            None => {
                &&& utc_text_of(now, DAY@) is None
                &&& final(patterns)@ == old(patterns)@
                &&& final(anti_patterns)@ == old(anti_patterns)@
            },
        },
{
    match utc_text(now, DAY) {
        Some(today) => {
            let duplicate = is_known(marker, patterns, anti_patterns);
            let c = commit_on(marker, duplicate, today.as_str(), now, next_adr, has_prefs);
            write_commit(&c, patterns, anti_patterns);
            Some(c)
        },
        None => None,
    }
}

/// The patterns and the anti-patterns that are there.
#[verifier::ext_equal]
pub struct Tables {
    pub patterns: Seq<Pattern>,
    pub anti_patterns: Seq<AntiPattern>,
}

/// `after` is what is there once `c` was written.
pub open spec fn is_written(after: Tables, before: Tables, c: Commit) -> bool {
    &&& patterns_with(after.patterns, before.patterns, c)
    &&& anti_patterns_with(after.anti_patterns, before.anti_patterns, c)
}

/// Nothing that was there is gone: each name and each description is still there.
pub open spec fn nothing_is_gone(later: Tables, before: Tables) -> bool {
    &&& forall|i: int|
        0 <= i < before.patterns.len() ==> later.patterns.map_values(
            |p: Pattern| p.name@,
        ).contains((#[trigger] before.patterns[i]).name@)
    &&& forall|i: int|
        0 <= i < before.anti_patterns.len() ==> later.anti_patterns.map_values(
            |a: AntiPattern| a.description@,
        ).contains((#[trigger] before.anti_patterns[i]).description@)
}

/// Once a pattern or an anti-pattern was committed it is there.
pub proof fn law_committed_is_there(
    m: KnowledgeMarker,
    c: Commit,
    before: Tables,
    after: Tables,
    today: Text,
    now: i64,
    number: i64,
    prefs: bool,
)
    requires
        m is Pattern || m is AntiPattern,
        commits(
            c,
            m,
            is_there(m, before.patterns, before.anti_patterns),
            today,
            now,
            number,
            prefs,
        ),
        is_written(after, before, c),
    ensures
        is_there(m, after.patterns, after.anti_patterns),
{
    if !is_there(m, before.patterns, before.anti_patterns) {
        match m {
            KnowledgeMarker::Pattern { name, .. } => {
                assert(after.patterns[after.patterns.len() - 1].name@ == name@);
            },
            KnowledgeMarker::AntiPattern { description, .. } => {
                let n = after.anti_patterns.len();
                assert(after.anti_patterns[n - 1].description@ == description@);
            },
            _ => {},
        }
    }
}

/// A pattern or an anti-pattern that is there, and of which nothing is gone since, is not committed
/// again: the commit is skipped and leaves both tables as they are.
pub proof fn law_committed_once(
    m: KnowledgeMarker,
    d: Commit,
    before: Tables,
    later: Tables,
    last: Tables,
    today: Text,
    now: i64,
    number: i64,
    prefs: bool,
)
    requires
        m is Pattern || m is AntiPattern,
        is_there(m, before.patterns, before.anti_patterns),
        nothing_is_gone(later, before),
        commits(
            d,
            m,
            is_there(m, later.patterns, later.anti_patterns),
            today,
            now,
            number,
            prefs,
        ),
        is_written(last, later, d),
    ensures
        d is Skip,
        last == later,
{
    match m {
        KnowledgeMarker::Pattern { name, .. } => {
            let i = choose|i: int|
                0 <= i < before.patterns.len() && (#[trigger] before.patterns[i]).name@ == name@;
            let names = later.patterns.map_values(|p: Pattern| p.name@);
            assert(names.contains(before.patterns[i].name@));
            let k = choose|k: int| 0 <= k < names.len() && names[k] == name@;
            assert(later.patterns[k].name@ == name@);
        },
        KnowledgeMarker::AntiPattern { description, .. } => {
            let i = choose|i: int|
                0 <= i < before.anti_patterns.len() && (
                #[trigger] before.anti_patterns[i]).description@ == description@;
            let names = later.anti_patterns.map_values(|a: AntiPattern| a.description@);
            assert(names.contains(before.anti_patterns[i].description@));
            let k = choose|k: int| 0 <= k < names.len() && names[k] == description@;
            assert(later.anti_patterns[k].description@ == description@);
        },
        _ => {},
    }
}

/// A candidate for a skill is never more than staged, and a duplicate is never written again.
pub proof fn law_commits_keep_what_is_there(
    c: Commit,
    m: KnowledgeMarker,
    duplicate: bool,
    today: Text,
    now: i64,
    number: i64,
    prefs: bool,
)
    requires
        commits(c, m, duplicate, today, now, number, prefs),
    ensures
        m is SkillCandidate ==> c is SkillCandidate,
        duplicate && (m is Pattern || m is AntiPattern) ==> c is Skip,
        c is Pattern ==> m is Pattern,
        c is AntiPattern ==> m is AntiPattern,
{
}

/// What a marker says in one text.
pub open spec fn body_of(m: KnowledgeMarker) -> Text {
    match m {
        KnowledgeMarker::Pattern { body, .. } => body@,
        KnowledgeMarker::AntiPattern { description, wrong, correct, .. } => description@
            + "\nwrong: "@ + wrong@ + "\ncorrect: "@ + correct@,
        KnowledgeMarker::Correction { attempted, reason, fix, .. } => "attempted: "@ + attempted@
            + "\nreason: "@ + reason@ + "\nfix: "@ + fix@,
        KnowledgeMarker::Adr { context, decision, .. } => "Context: "@ + context@ + "\nDecision: "@
            + decision@,
        KnowledgeMarker::PrefsNote { body, .. } => body@,
        KnowledgeMarker::SkillCandidate { summary, .. } => summary@,
    }
}

/// What a marker says in one text.
pub fn marker_body(marker: &KnowledgeMarker) -> (r: String)
    ensures
        r@ == body_of(*marker),
{
    match marker {
        KnowledgeMarker::Pattern { body, .. } => body.clone(),
        KnowledgeMarker::AntiPattern { description, wrong, correct, .. } => {
            let mut s = description.clone();
            s.append("\nwrong: ");
            s.append(wrong.as_str());
            s.append("\ncorrect: ");
            s.append(correct.as_str());
            s
        },
        KnowledgeMarker::Correction { attempted, reason, fix, .. } => {
            let mut s = "attempted: ".to_owned();
            s.append(attempted.as_str());
            s.append("\nreason: ");
            s.append(reason.as_str());
            s.append("\nfix: ");
            s.append(fix.as_str());
            s
        },
        KnowledgeMarker::Adr { context, decision, .. } => {
            let mut s = "Context: ".to_owned();
            s.append(context.as_str());
            s.append("\nDecision: ");
            s.append(decision.as_str());
            s
        },
        KnowledgeMarker::PrefsNote { body, .. } => body.clone(),
        KnowledgeMarker::SkillCandidate { summary, .. } => summary.clone(),
    }
}

/// The tags of a marker.
pub open spec fn tags_of(m: KnowledgeMarker) -> Seq<Text> {
    match m {
        KnowledgeMarker::Pattern { tags, .. } => views(tags@),
        KnowledgeMarker::AntiPattern { tags, .. } => views(tags@),
        KnowledgeMarker::Correction { tags, .. } => views(tags@),
        KnowledgeMarker::Adr { tags, .. } => views(tags@),
        KnowledgeMarker::PrefsNote { tags, .. } => views(tags@),
        KnowledgeMarker::SkillCandidate { .. } => Seq::empty(),
    }
}

/// The tags of a marker, as a JSON text.
pub fn marker_tags_json(marker: &KnowledgeMarker) -> (r: String)
    ensures
        r@ == strings_json_of(tags_of(*marker)),
{
    match marker {
        KnowledgeMarker::Pattern { tags, .. } => list_text(tags),
        KnowledgeMarker::AntiPattern { tags, .. } => list_text(tags),
        KnowledgeMarker::Correction { tags, .. } => list_text(tags),
        KnowledgeMarker::Adr { tags, .. } => list_text(tags),
        KnowledgeMarker::PrefsNote { tags, .. } => list_text(tags),
        KnowledgeMarker::SkillCandidate { .. } => {
            let none: Vec<String> = Vec::new();
            assert(views(none@) == Seq::<Text>::empty());
            list_text(&none)
        },
    }
}

/// How far a marker is trusted.
pub open spec fn trust_of(m: KnowledgeMarker) -> Text {
    match m {
        KnowledgeMarker::Pattern { trust, .. } => trust@,
        _ => "annotated"@,
    }
}

/// A marker as it is staged for a review.
#[derive(Debug)]
pub struct StagedMarker {
    pub kind: String,
    pub name: String,
    pub body: String,
    pub tags: String,
    pub trust: String,
}

/// A marker as it is staged for a review.
pub fn stage_marker(marker: &KnowledgeMarker) -> (r: StagedMarker)
    ensures
        r.kind@ == marker.kind(),
        r.name@ == marker.label(),
        r.body@ == body_of(*marker),
        r.tags@ == strings_json_of(tags_of(*marker)),
        r.trust@ == trust_of(*marker),
{
    let trust = match marker {
        KnowledgeMarker::Pattern { trust, .. } => trust.clone(),
        _ => "annotated".to_owned(),
    };
    StagedMarker {
        kind: marker.marker_type().to_owned(),
        name: marker.display_name(),
        body: marker_body(marker),
        tags: marker_tags_json(marker),
        trust,
    }
}

/// How many markers are of a kind.
pub open spec fn kind_count(markers: Seq<KnowledgeMarker>, kind: Text) -> nat
    decreases markers.len(),
{
    if markers.len() == 0 {
        0
    } else {
        kind_count(markers.drop_last(), kind) + if markers.last().kind() == kind {
            1nat
        } else {
            0nat
        }
    }
}

/// How many markers are of a kind.
fn count_kind(markers: &Vec<KnowledgeMarker>, kind: &str) -> (r: usize)
    ensures
        r == kind_count(markers@, kind@),
{
    let mut n: usize = 0;
    let mut i: usize = 0;
    while i < markers.len()
        invariant
            i <= markers@.len(),
            n <= i,
            n == kind_count(markers@.take(i as int), kind@),
        decreases markers@.len() - i,
    {
        assert(markers@.take(i + 1).drop_last() == markers@.take(i as int));
        assert(markers@.take(i + 1).last() == markers@[i as int]);
        if same(markers[i].marker_type(), kind) {
            n = n + 1;
        }
        i = i + 1;
    }
    assert(markers@.take(i as int) == markers@);
    n
}

/// How many markers there are of each kind, as JSON.
pub open spec fn counts_view(markers: Seq<KnowledgeMarker>) -> JsonView {
    JsonView::Object(
        no_fields().push(
            ("pattern"@, JsonView::Unsigned(kind_count(markers, "pattern"@))),
        ).push(
            ("anti_pattern"@, JsonView::Unsigned(kind_count(markers, "anti_pattern"@))),
        ).push(("correction"@, JsonView::Unsigned(kind_count(markers, "correction"@)))).push(
            ("adr"@, JsonView::Unsigned(kind_count(markers, "adr"@))),
        ).push(("prefs_note"@, JsonView::Unsigned(kind_count(markers, "prefs_note"@)))).push(
            ("skill_candidate"@, JsonView::Unsigned(kind_count(markers, "skill_candidate"@))),
        ),
    )
}

/// How many markers there are of each kind, as JSON.
pub fn marker_counts(markers: &Vec<KnowledgeMarker>) -> (r: Json)
    ensures
        r@ == counts_view(markers@),
{
    let mut e = no_entries();
    add_field(&mut e, "pattern", Json::Unsigned(count_kind(markers, "pattern") as u64));
    add_field(&mut e, "anti_pattern", Json::Unsigned(count_kind(markers, "anti_pattern") as u64));
    add_field(&mut e, "correction", Json::Unsigned(count_kind(markers, "correction") as u64));
    add_field(&mut e, "adr", Json::Unsigned(count_kind(markers, "adr") as u64));
    add_field(&mut e, "prefs_note", Json::Unsigned(count_kind(markers, "prefs_note") as u64));
    add_field(
        &mut e,
        "skill_candidate",
        Json::Unsigned(count_kind(markers, "skill_candidate") as u64),
    );
    object(e)
}

/// The texts that are not empty.
pub open spec fn not_empty(list: Seq<Text>) -> Seq<Text>
    decreases list.len(),
{
    if list.len() == 0 {
        Seq::empty()
    } else if list.last().len() > 0 {
        not_empty(list.drop_last()).push(list.last())
    } else {
        not_empty(list.drop_last())
    }
}

/// The texts that are not empty.
pub fn drop_empty(list: &Vec<String>) -> (r: Vec<String>)
    ensures
        views(r@) == not_empty(views(list@)),
{
    let ghost all = views(list@);
    let mut out: Vec<String> = Vec::new();
    let mut i: usize = 0;
    assert(views(out@) == not_empty(all.take(0)));
    while i < list.len()
        invariant
            i <= list@.len() == all.len(),
            all == views(list@),
            views(out@) == not_empty(all.take(i as int)),
        decreases list@.len() - i,
    {
        let ghost before = out@;
        assert(all.take(i + 1).drop_last() == all.take(i as int));
        assert(all.take(i + 1).last() == list@[i as int]@);
        if chars_of(list[i].as_str()).len() > 0 {
            out.push(list[i].clone());
            assert(views(out@) == views(before).push(list@[i as int]@));
        }
        i = i + 1;
    }
    assert(all.take(i as int) == all);
    out
}

/// The snapshot of a session as JSON: `tools` are the tools that it called, `created_at` is when
/// the snapshot was made.
pub open spec fn snapshot_view(
    session: Text,
    outcome: Text,
    markers: Seq<KnowledgeMarker>,
    tools: Seq<Text>,
    created_at: Text,
) -> JsonView {
    JsonView::Object(
        no_fields().push(("session_key"@, JsonView::Text(session))).push(
            ("outcome_type"@, JsonView::Text(outcome)),
        ).push(("marker_counts"@, counts_view(markers))).push(
            ("tool_sequence"@, JsonView::List(text_views(not_empty(tools)))),
        ).push(("domain_tags"@, JsonView::List(Seq::empty()))).push(
            ("created_at"@, JsonView::Text(created_at)),
        ),
    )
}

/// The snapshot of a session as JSON.
pub fn session_snapshot(
    session_key: &str,
    outcome_type: &str,
    markers: &Vec<KnowledgeMarker>,
    tools: &Vec<String>,
    created_at: &str,
) -> (r: Json)
    ensures
        r@ == snapshot_view(
            session_key@,
            outcome_type@,
            markers@,
            views(tools@),
            created_at@,
        ),
{
    let none: Vec<String> = Vec::new();
    assert(text_views(views(none@)) == Seq::<JsonView>::empty());
    let mut e = no_entries();
    add_field(&mut e, "session_key", text(session_key));
    add_field(&mut e, "outcome_type", text(outcome_type));
    add_field(&mut e, "marker_counts", marker_counts(markers));
    add_field(&mut e, "tool_sequence", text_list(&drop_empty(tools)));
    add_field(&mut e, "domain_tags", text_list(&none));
    add_field(&mut e, "created_at", text(created_at));
    object(e)
}

/// The name of the file that holds the snapshot of a session.
pub fn snapshot_file(session_key: &str) -> (r: String)
    ensures
        r@ == "session_"@ + replace_of(session_key@, "/"@, "_"@) + ".json"@,
{
    proof {
        reveal_strlit("/");
    }
    let mut s = "session_".to_owned();
    s.append(replace(session_key, "/", "_").as_str());
    s.append(".json");
    s
}

/// A marker in the mirror of a session.
pub open spec fn mirror_line() -> spec_fn(KnowledgeMarker) -> Text {
    |m: KnowledgeMarker| "- ["@ + m.kind() + "] "@ + m.label() + "\n"@
}

/// The mirror of a session that was closed on the day `today`.
pub open spec fn mirror_text(
    today: Text,
    session: Text,
    outcome: Text,
    markers: Seq<KnowledgeMarker>,
    approved: bool,
) -> Text {
    let head = "# Session Closeout — "@ + today + "\n\n"@ + "**Session:** "@ + session + "  \n"@
        + "**Outcome:** "@ + outcome + "  \n"@ + "**Knowledge committed:** "@ + (if approved {
        "✓ KNOWLEDGE COMMITTED"@
    } else {
        "staged only"@
    }) + "  \n\n"@;
    if markers.len() == 0 {
        head
    } else {
        head + "## Knowledge captured\n\n"@ + written_out(markers, mirror_line())
    }
}

/// The mirror of a session that was closed on the day `today`.
pub fn mirror_on(
    today: &str,
    session_key: &str,
    outcome_type: &str,
    markers: &Vec<KnowledgeMarker>,
    inline_approved: bool,
) -> (r: String)
    ensures
        r@ == mirror_text(today@, session_key@, outcome_type@, markers@, inline_approved),
{
    let mut out = "# Session Closeout — ".to_owned();
    out.append(today);
    out.append("\n\n");
    out.append("**Session:** ");
    out.append(session_key);
    out.append("  \n");
    out.append("**Outcome:** ");
    out.append(outcome_type);
    out.append("  \n");
    out.append("**Knowledge committed:** ");
    let word = if inline_approved {
        "✓ KNOWLEDGE COMMITTED"
    } else {
        "staged only"
    };
    out.append(word);
    out.append("  \n\n");
    if markers.len() > 0 {
        out.append("## Knowledge captured\n\n");
        let line = |m: &KnowledgeMarker| -> (s: String)
            ensures
                s@ == mirror_line()(*m),
            {
                let mut s = "- [".to_owned();
                s.append(m.marker_type());
                s.append("] ");
                s.append(m.display_name().as_str());
                s.append("\n");
                s
            };
        out.append(write_all(markers, line, Ghost(mirror_line())).as_str());
    }
    out
}

/// The mirror of a session and the name of its file, for the second `now` after the Unix epoch;
/// nothing where no calendar date belongs to that second.
pub fn build_mirror_content(
    session_key: &str,
    outcome_type: &str,
    markers: &Vec<KnowledgeMarker>,
    inline_approved: bool,
    now: i64,
) -> (r: Option<(String, String)>)
    ensures
        match r {
            Some((file, content)) => {
                &&& utc_text_of(now, DAY@) is Some
                &&& file@ == "session-closeout-"@ + utc_text_of(now, DAY@)->0 + ".md"@
                &&& content@ == mirror_text(
                    utc_text_of(now, DAY@)->0,
                    session_key@,
                    outcome_type@,
                    markers@,
                    inline_approved,
                )
            },
            None => utc_text_of(now, DAY@) is None,
        },
{
    match utc_text(now, DAY) {
        Some(today) => {
            let mut file = "session-closeout-".to_owned();
            file.append(today.as_str());
            file.append(".md");
            let content = mirror_on(
                today.as_str(),
                session_key,
                outcome_type,
                markers,
                inline_approved,
            );
            Some((file, content))
        },
        None => None,
    }
}

/// The name of the file that keeps the graph as it is at the second `now` after the Unix epoch;
/// nothing where no calendar date belongs to that second.
pub fn graph_snapshot_file(now: i64) -> (r: Option<String>)
    ensures
        match r {
            Some(file) => utc_text_of(now, SNAPSHOT_STAMP@) is Some && file@ == "graph_"@
                + utc_text_of(now, SNAPSHOT_STAMP@)->0 + ".json"@,
            None => utc_text_of(now, SNAPSHOT_STAMP@) is None,
        },
{
    match utc_text(now, SNAPSHOT_STAMP) {
        Some(stamp) => {
            let mut file = "graph_".to_owned();
            file.append(stamp.as_str());
            file.append(".json");
            Some(file)
        },
        None => None,
    }
}

/// How many snapshots are kept.
pub const MAX_SNAPSHOTS: usize = 50;

/// For how many days a snapshot is kept.
pub const MAX_SNAPSHOT_DAYS: u64 = 30;

/// The nanoseconds of a day.
pub const DAY_NANOS: i128 = 86_400_000_000_000;

/// A snapshot that was last written at `written` is too old at `now`, both in nanoseconds.
pub open spec fn is_expired(written: int, now: int, days: int) -> bool {
    written < now - days * DAY_NANOS
}

/// Whether a snapshot is too old.
pub fn snapshot_expired(written: i64, written_nanos: u32, now: i64, now_nanos: u32, days: u32) -> (r:
    bool)
    ensures
        r == is_expired(
            written * 1_000_000_000 + written_nanos,
            now * 1_000_000_000 + now_nanos,
            days as int,
        ),
{
    let w: i128 = (written as i128) * 1_000_000_000 + (written_nanos as i128);
    let n: i128 = (now as i128) * 1_000_000_000 + (now_nanos as i128);
    w < n - (days as i128) * DAY_NANOS
}

/// A name as its own key.
pub open spec fn own_key() -> spec_fn(String) -> Text {
    |s: String| s@
}

/// The snapshots that go once there are too many: all but the last in the order of their names,
/// which begins with the oldest.
pub open spec fn surplus(names: Seq<String>) -> Seq<String> {
    if names.len() > MAX_SNAPSHOTS {
        sorted_by(names, own_key()).take(names.len() - MAX_SNAPSHOTS)
    } else {
        Seq::empty()
    }
}

/// The snapshots that go once there are too many.
pub fn prune_surplus(names: &Vec<String>) -> (r: Vec<String>)
    ensures
        views(r@) == views(surplus(names@)),
{
    let mut out: Vec<String> = Vec::new();
    assert(views(out@) == views(Seq::<String>::empty()));
    if names.len() > MAX_SNAPSHOTS {
        let refs = refs_of(names);
        let ahead = |a: &String, b: &String| -> (r: bool)
            ensures
                r == text_lt(a@, b@),
            { before(a.as_str(), b.as_str()) };
        let sorted = rank_refs(&refs, ahead, Ghost(by_key(own_key())));
        proof {
            law_sorting_orders(names@, own_key());
            assert(items(sorted@).len() == sorted@.len());
        }
        let n = names.len() - MAX_SNAPSHOTS;
        let ghost gone = surplus(names@);
        let mut k: usize = 0;
        assert(views(out@) == views(gone.take(0)));
        while k < n
            invariant
                k <= n <= sorted@.len(),
                items(sorted@) == sorted_by(names@, own_key()),
                gone == sorted_by(names@, own_key()).take(n as int),
                views(out@) == views(gone.take(k as int)),
            decreases n - k,
        {
            let ghost before = out@;
            assert(items(sorted@)[k as int] == *sorted@[k as int]);
            out.push(sorted[k].clone());
            assert(views(out@) == views(before).push(gone[k as int]@));
            assert(gone.take(k + 1) == gone.take(k as int).push(gone[k as int]));
            assert(views(gone.take(k + 1)) == views(gone.take(k as int)).push(gone[k as int]@));
            k = k + 1;
        }
        assert(gone.take(k as int) == gone);
    }
    out
}

/// Pruning leaves no more snapshots than are to be kept, and of two snapshots the one that goes is
/// not the later one.
pub proof fn law_pruning_keeps_the_newest(names: Seq<String>, i: int, j: int)
    requires
        0 <= i < surplus(names).len() <= j < names.len(),
    ensures
        names.len() - surplus(names).len() == MAX_SNAPSHOTS,
        surplus(names)[i] == sorted_by(names, own_key())[i],
        !crate::order::text_lt(
            sorted_by(names, own_key())[j]@,
            surplus(names)[i]@,
        ),
{
    law_sorting_orders(names, own_key());
    let all = sorted_by(names, own_key());
    assert(in_order(all, own_key()));
    assert(!crate::order::text_lt(own_key()(all[j]), own_key()(all[i])));
}

/// How many of the first `n` markers are of a kind and were handled with success.
pub open spec fn tally(
    markers: Seq<KnowledgeMarker>,
    ok: Seq<bool>,
    kind: spec_fn(KnowledgeMarker) -> bool,
    n: int,
) -> nat
    decreases n,
{
    if n <= 0 {
        0
    } else {
        tally(markers, ok, kind, n - 1) + if kind(markers[n - 1]) && ok[n - 1] {
            1nat
        } else {
            0nat
        }
    }
}

/// A tally is no larger than the number of markers.
proof fn lemma_tally_bound(
    markers: Seq<KnowledgeMarker>,
    ok: Seq<bool>,
    kind: spec_fn(KnowledgeMarker) -> bool,
    n: int,
)
    requires
        0 <= n,
    ensures
        tally(markers, ok, kind, n) <= n,
    decreases n,
{
    if n > 0 {
        lemma_tally_bound(markers, ok, kind, n - 1);
    }
}

/// `r` counts the first `n` markers that were committed, each under its kind.
pub open spec fn tallied(
    r: CloseoutResult,
    markers: Seq<KnowledgeMarker>,
    ok: Seq<bool>,
    n: int,
) -> bool {
    &&& r.patterns_committed == tally(markers, ok, |m: KnowledgeMarker| m is Pattern, n)
    &&& r.anti_patterns_committed == tally(markers, ok, |m: KnowledgeMarker| m is AntiPattern, n)
    &&& r.corrections_committed == tally(markers, ok, |m: KnowledgeMarker| m is Correction, n)
    &&& r.adrs_committed == tally(markers, ok, |m: KnowledgeMarker| m is Adr, n)
    &&& r.prefs_notes_committed == tally(markers, ok, |m: KnowledgeMarker| m is PrefsNote, n)
    &&& r.skill_candidates_staged == tally(markers, ok, |m: KnowledgeMarker| m is SkillCandidate, n)
}

/// From the marker at `i` on, an approved closing counts every marker that is committed.
proof fn lemma_approved_counts(c: Closeout, ok: Seq<bool>, i: int)
    requires
        c.approved,
        0 <= i <= c.markers@.len(),
        c.markers@.len() <= usize::MAX,
        c.phase == phase_at(i, c.markers@.len() as int),
        ok.len() == c.markers@.len() + 6,
        tallied(c.result, c.markers@, ok, i),
        c.result.markers_staged == 0,
    ensures
        ({
            let n = c.markers@.len() as int;
            let r = outcome_of(c, ok.skip(i));
            &&& tallied(r, c.markers@, ok, n)
            &&& r.markers_staged == 0
            &&& r.outcome_logged == ok[n + 1]
            &&& r.graph_snapshot_written == ok[n + 2]
            &&& r.session_snapshot_written == ok[n + 3]
            &&& r.mirror_written == ok[n + 4]
        }),
    decreases c.markers@.len() - i,
{
    let n = c.markers@.len() as int;
    let rest = ok.skip(i);
    assert(rest[0] == ok[i]);
    assert(rest.drop_first() == ok.skip(i + 1));
    if i < n {
        let next = stepped(c, ok[i]);
        let markers = c.markers@;
        lemma_tally_bound(markers, ok, |m: KnowledgeMarker| m is Pattern, i);
        lemma_tally_bound(markers, ok, |m: KnowledgeMarker| m is AntiPattern, i);
        lemma_tally_bound(markers, ok, |m: KnowledgeMarker| m is Correction, i);
        lemma_tally_bound(markers, ok, |m: KnowledgeMarker| m is Adr, i);
        lemma_tally_bound(markers, ok, |m: KnowledgeMarker| m is PrefsNote, i);
        lemma_tally_bound(markers, ok, |m: KnowledgeMarker| m is SkillCandidate, i);
        assert(tallied(next.result, markers, ok, i + 1));
        lemma_approved_counts(next, ok, i + 1);
    } else {
        lemma_tail(c, ok);
    }
}

/// Behind the markers come six steps, four of which are noted.
proof fn lemma_tail(c: Closeout, ok: Seq<bool>)
    requires
        c.phase == Phase::Flush,
        ok.len() == c.markers@.len() + 6,
    ensures
        outcome_of(c, ok.skip(c.markers@.len() as int)) == (CloseoutResult {
            outcome_logged: ok[c.markers@.len() as int + 1],
            graph_snapshot_written: ok[c.markers@.len() as int + 2],
            session_snapshot_written: ok[c.markers@.len() as int + 3],
            mirror_written: ok[c.markers@.len() as int + 4],
            ..c.result
        }),
{
    let n = c.markers@.len() as int;
    let s0 = ok.skip(n);
    let s1 = ok.skip(n + 1);
    let s2 = ok.skip(n + 2);
    let s3 = ok.skip(n + 3);
    let s4 = ok.skip(n + 4);
    let s5 = ok.skip(n + 5);
    assert(s0.drop_first() =~= s1 && s1.drop_first() =~= s2 && s2.drop_first() =~= s3);
    assert(s3.drop_first() =~= s4 && s4.drop_first() =~= s5);
    assert(s5.drop_first().len() == 0);
    let c1 = stepped(c, s0[0]);
    let c2 = stepped(c1, s1[0]);
    let c3 = stepped(c2, s2[0]);
    let c4 = stepped(c3, s3[0]);
    let c5 = stepped(c4, s4[0]);
    let c6 = stepped(c5, s5[0]);
    assert(outcome_of(c6, s5.drop_first()) == c6.result);
    assert(outcome_of(c5, s5) == c6.result);
    assert(outcome_of(c4, s4) == outcome_of(c5, s5));
    assert(outcome_of(c3, s3) == outcome_of(c4, s4));
    assert(outcome_of(c2, s2) == outcome_of(c3, s3));
    assert(outcome_of(c1, s1) == outcome_of(c2, s2));
    assert(outcome_of(c, s0) == outcome_of(c1, s1));
}

/// With approval a closing counts, of each kind, the markers that were committed with success, and
/// notes of the outcome, the two snapshots and the mirror whether each was written.
pub proof fn law_approved_closing_counts_what_was_committed(
    markers: Vec<KnowledgeMarker>,
    ok: Seq<bool>,
)
    requires
        ok.len() == markers@.len() + 6,
        markers@.len() <= usize::MAX,
    ensures
        ({
            let n = markers@.len() as int;
            let r = outcome_of(
                Closeout {
                    approved: true,
                    markers,
                    phase: phase_at(0, n),
                    result: nothing_done(),
                },
                ok,
            );
            &&& r.patterns_committed == tally(markers@, ok, |m: KnowledgeMarker| m is Pattern, n)
            &&& r.anti_patterns_committed == tally(markers@, ok, |m: KnowledgeMarker| m is AntiPattern, n)
            &&& r.corrections_committed == tally(markers@, ok, |m: KnowledgeMarker| m is Correction, n)
            &&& r.adrs_committed == tally(markers@, ok, |m: KnowledgeMarker| m is Adr, n)
            &&& r.prefs_notes_committed == tally(markers@, ok, |m: KnowledgeMarker| m is PrefsNote, n)
            &&& r.skill_candidates_staged == tally(markers@, ok, |m: KnowledgeMarker| m is SkillCandidate, n)
            &&& r.markers_staged == 0
            &&& r.outcome_logged == ok[n + 1]
            &&& r.graph_snapshot_written == ok[n + 2]
            &&& r.session_snapshot_written == ok[n + 3]
            &&& r.mirror_written == ok[n + 4]
        }),
{
    let n = markers@.len() as int;
    let c = Closeout { approved: true, markers, phase: phase_at(0, n), result: nothing_done() };
    assert(ok.skip(0) =~= ok);
    lemma_approved_counts(c, ok, 0);
}

/// Without approval a closing stages every marker and commits none, whatever succeeds.
pub proof fn law_closing_without_approval_stages_all(
    markers: Vec<KnowledgeMarker>,
    ok: Seq<bool>,
)
    requires
        ok.len() == markers@.len() + 6,
        markers@.len() <= usize::MAX,
    ensures
        ({
            let n = markers@.len() as int;
            let r = outcome_of(
                Closeout {
                    approved: false,
                    markers,
                    phase: phase_at(0, n),
                    result: nothing_done(),
                },
                ok,
            );
            &&& r.markers_staged == n
            &&& r.patterns_committed == 0
            &&& r.anti_patterns_committed == 0
            &&& r.corrections_committed == 0
            &&& r.adrs_committed == 0
            &&& r.prefs_notes_committed == 0
            &&& r.skill_candidates_staged == 0
            &&& r.outcome_logged == ok[n + 1]
            &&& r.graph_snapshot_written == ok[n + 2]
            &&& r.session_snapshot_written == ok[n + 3]
            &&& r.mirror_written == ok[n + 4]
        }),
{
    let n = markers@.len() as int;
    let c = Closeout { approved: false, markers, phase: phase_at(0, n), result: nothing_done() };
    assert(ok.skip(0) =~= ok);
    lemma_staged_counts(c, ok, 0);
}

/// From the marker at `i` on, a closing without approval stages every marker.
proof fn lemma_staged_counts(c: Closeout, ok: Seq<bool>, i: int)
    requires
        !c.approved,
        0 <= i <= c.markers@.len(),
        c.markers@.len() <= usize::MAX,
        c.phase == phase_at(i, c.markers@.len() as int),
        ok.len() == c.markers@.len() + 6,
        c.result == (CloseoutResult { markers_staged: i as usize, ..nothing_done() }),
    ensures
        ({
            let n = c.markers@.len() as int;
            outcome_of(c, ok.skip(i)) == (CloseoutResult {
                markers_staged: n as usize,
                outcome_logged: ok[n + 1],
                graph_snapshot_written: ok[n + 2],
                session_snapshot_written: ok[n + 3],
                mirror_written: ok[n + 4],
                ..nothing_done()
            })
        }),
    decreases c.markers@.len() - i,
{
    let n = c.markers@.len() as int;
    let rest = ok.skip(i);
    assert(rest[0] == ok[i]);
    assert(rest.drop_first() == ok.skip(i + 1));
    if i < n {
        lemma_staged_counts(stepped(c, ok[i]), ok, i + 1);
    } else {
        lemma_tail(c, ok);
    }
}

/// Each marker has its turn, one after another; then the markers are noted as flushed, the outcome
/// is logged, the graph copied, the snapshot and the mirror written, and the session closed.
pub proof fn law_closing_goes_step_by_step(c: Closeout, i: usize)
    ensures
        c.phase == Phase::Markers(i) && c.approved ==> c.action() == Action::Commit(i),
        c.phase == Phase::Markers(i) && !c.approved ==> c.action() == Action::Stage(i),
        c.phase == Phase::Markers(i) && i + 1 < c.markers@.len() <= usize::MAX ==> stepped(
            c,
            true,
        ).phase == Phase::Markers((i + 1) as usize) && stepped(c, false).phase == Phase::Markers(
            (i + 1) as usize,
        ),
        c.phase == Phase::Markers(i) && i + 1 >= c.markers@.len() ==> stepped(c, true).phase
            == Phase::Flush && stepped(c, false).phase == Phase::Flush,
        c.phase == Phase::Flush ==> c.action() == (Action::MarkFlushed { approved: c.approved })
            && stepped(c, true).action() == Action::LogOutcome && stepped(c, false).action()
            == Action::LogOutcome,
        c.phase == Phase::Outcome ==> stepped(c, true).action() == Action::CopyGraph,
        c.phase == Phase::Graph ==> stepped(c, true).action() == Action::WriteSnapshot,
        c.phase == Phase::Snapshot ==> stepped(c, true).action() == Action::WriteMirror,
        c.phase == Phase::Mirror ==> stepped(c, true).action() == Action::CloseSession,
        c.phase == Phase::Close ==> stepped(c, true).action() == Action::Nothing,
{
}

/// A pattern is committed as it was marked, with how far it is trusted and since when behind its
/// body; it starts out unused, with a full survival.
pub proof fn law_pattern_is_committed_as_marked(
    c: Commit,
    name: String,
    intent: String,
    body: String,
    trust: String,
    uses: Vec<String>,
    tags: Vec<String>,
    today: Text,
    now: i64,
    number: i64,
    prefs: bool,
)
    requires
        commits(
            c,
            KnowledgeMarker::Pattern { name, intent, body, trust, uses, tags },
            false,
            today,
            now,
            number,
            prefs,
        ),
    ensures
        c is Pattern,
        c->Pattern_0.name@ == name@,
        c->Pattern_0.intent@ == intent@,
        c->Pattern_0.body@ == body@ + "\nTrust: "@ + trust@ + " "@ + today,
        views(c->Pattern_0.uses@) == views(uses@),
        views(c->Pattern_0.tags@) == views(tags@),
        c->Pattern_0.approved_at == now,
        c->Pattern_0.use_count == 0,
        c->Pattern_0.reverted_count == 0,
        c->Pattern_0.survival_rate.bits == 0x3f80_0000,
        c->Pattern_1.kind@ == "pattern"@,
        c->Pattern_1.name@ == name@,
{
}

/// An anti-pattern is committed as it was marked.
pub proof fn law_anti_pattern_is_committed_as_marked(
    c: Commit,
    description: String,
    wrong: String,
    correct: String,
    tags: Vec<String>,
    today: Text,
    now: i64,
    number: i64,
    prefs: bool,
)
    requires
        commits(
            c,
            KnowledgeMarker::AntiPattern { description, wrong, correct, tags },
            false,
            today,
            now,
            number,
            prefs,
        ),
    ensures
        c is AntiPattern,
        c->AntiPattern_0.description@ == description@,
        c->AntiPattern_0.wrong@ == wrong@,
        c->AntiPattern_0.correct@ == correct@,
        views(c->AntiPattern_0.tags@) == views(tags@),
        c->AntiPattern_0.added_at == now,
        c->AntiPattern_1.kind@ == "anti_pattern"@,
        c->AntiPattern_1.name@ == description@,
{
}

/// A decision is committed as accepted, under the next number, and a correction as it was marked.
pub proof fn law_decision_and_correction_are_committed_as_marked(
    c: Commit,
    a: String,
    b: String,
    d: String,
    tags: Vec<String>,
    duplicate: bool,
    today: Text,
    now: i64,
    number: i64,
    prefs: bool,
)
    ensures
        commits(
            c,
            KnowledgeMarker::Adr { title: a, context: b, decision: d, tags },
            duplicate,
            today,
            now,
            number,
            prefs,
        ) ==> c is Adr && c->Adr_0.adr_number == number && c->Adr_0.status@ == "accepted"@
            && c->Adr_0.title@ == a@ && c->Adr_0.context@ == b@ && c->Adr_0.decision@ == d@
            && views(c->Adr_0.concept_tags@) == views(tags@),
        commits(
            c,
            KnowledgeMarker::Correction { attempted: a, reason: b, fix: d, tags },
            duplicate,
            today,
            now,
            number,
            prefs,
        ) ==> c is Correction && c->attempted@ == a@ && c->reason@ == b@ && c->fix@ == d@ && views(
            c->Correction_tags@,
        ) == views(tags@),
{
}

/// A note goes to the preferences where there are any, with the day behind it, and else to the
/// annotations.
pub proof fn law_note_goes_to_the_preferences(
    c: Commit,
    body: String,
    tags: Vec<String>,
    duplicate: bool,
    today: Text,
    now: i64,
    number: i64,
    prefs: bool,
)
    requires
        commits(
            c,
            KnowledgeMarker::PrefsNote { body, tags },
            duplicate,
            today,
            now,
            number,
            prefs,
        ),
    ensures
        prefs ==> c is PrefsNote && c->note@ == body@ + " Trust: annotated "@ + today,
        !prefs ==> c is Annotation && c->Annotation_0.body@ == body@ && (
        "prefs-note: "@).is_prefix_of(c->Annotation_0.topic@) && views(c->Annotation_0.tags@)
            == views(tags@) && c->Annotation_0.added_at == now,
{
    if !prefs {
        let t = c->Annotation_0.topic@;
        assert(t.take(("prefs-note: "@).len() as int) =~= "prefs-note: "@);
    }
}

/// A marker that is staged keeps every text that it came with.
pub proof fn law_staged_marker_keeps_its_texts(m: KnowledgeMarker)
    ensures
        match m {
            KnowledgeMarker::Pattern { name, body, trust, tags, .. } => m.kind() == "pattern"@
                && m.label() == name@ && body_of(m) == body@ && trust_of(m) == trust@ && tags_of(m)
                == views(tags@),
            KnowledgeMarker::AntiPattern { description, wrong, correct, tags } => m.kind()
                == "anti_pattern"@ && m.label() == description@ && description@.is_prefix_of(
                body_of(m),
            ) && contains_text(body_of(m), wrong@) && contains_text(body_of(m), correct@)
                && tags_of(m) == views(tags@),
            KnowledgeMarker::Correction { attempted, reason, fix, tags } => m.kind()
                == "correction"@ && m.label() == attempted@ && contains_text(body_of(m), attempted@)
                && contains_text(body_of(m), reason@) && contains_text(body_of(m), fix@)
                && tags_of(m) == views(tags@),
            KnowledgeMarker::Adr { title, context, decision, tags } => m.kind() == "adr"@
                && m.label() == title@ && contains_text(body_of(m), context@) && contains_text(
                body_of(m),
                decision@,
            ) && tags_of(m) == views(tags@),
            KnowledgeMarker::PrefsNote { body, tags } => m.kind() == "prefs_note"@ && body_of(m)
                == body@ && m.label().is_prefix_of(body@) && tags_of(m) == views(tags@),
            KnowledgeMarker::SkillCandidate { name, summary, .. } => m.kind() == "skill_candidate"@
                && m.label() == name@ && body_of(m) == summary@ && tags_of(m).len() == 0,
        },
        !(m is Pattern) ==> trust_of(m) == "annotated"@,
{
    match m {
        KnowledgeMarker::AntiPattern { description, wrong, correct, .. } => {
            let b = body_of(m);
            assert(b.take(description@.len() as int) =~= description@);
            let front = description@ + "\nwrong: "@;
            let tail = "\ncorrect: "@ + correct@;
            assert(b =~= front + wrong@ + tail);
            lemma_contains_middle(front, wrong@, tail);
            lemma_contains_itself(correct@);
            lemma_contains_half(
                description@ + "\nwrong: "@ + wrong@ + "\ncorrect: "@,
                correct@,
                correct@,
            );
        },
        KnowledgeMarker::Correction { attempted, reason, fix, .. } => {
            let b = body_of(m);
            let tail = "\nreason: "@ + reason@ + "\nfix: "@ + fix@;
            assert(b =~= "attempted: "@ + attempted@ + tail);
            lemma_contains_middle("attempted: "@, attempted@, tail);
            let front = "attempted: "@ + attempted@ + "\nreason: "@;
            assert(b =~= front + reason@ + ("\nfix: "@ + fix@));
            lemma_contains_middle(front, reason@, "\nfix: "@ + fix@);
            lemma_contains_itself(fix@);
            lemma_contains_half(front + reason@ + "\nfix: "@, fix@, fix@);
        },
        KnowledgeMarker::Adr { context, decision, .. } => {
            let b = body_of(m);
            assert(b =~= "Context: "@ + context@ + ("\nDecision: "@ + decision@));
            lemma_contains_middle("Context: "@, context@, "\nDecision: "@ + decision@);
            lemma_contains_itself(decision@);
            lemma_contains_half(
                "Context: "@ + context@ + "\nDecision: "@,
                decision@,
                decision@,
            );
        },
        KnowledgeMarker::PrefsNote { body, .. } => {
            let l = m.label();
            assert(body@.take(l.len() as int) =~= l);
        },
        _ => {},
    }
}

/// The mirror of a session tells its day, its name and its outcome, whether its knowledge was
/// committed, and every marker by kind and name.
pub proof fn law_mirror_tells_every_marker(
    today: Text,
    session: Text,
    outcome: Text,
    markers: Seq<KnowledgeMarker>,
    approved: bool,
    i: int,
)
    ensures
        ("# Session Closeout — "@ + today + "\n\n"@ + "**Session:** "@ + session + "  \n"@
            + "**Outcome:** "@ + outcome + "  \n"@ + "**Knowledge committed:** "@ + (if approved {
            "✓ KNOWLEDGE COMMITTED"@
        } else {
            "staged only"@
        })).is_prefix_of(mirror_text(today, session, outcome, markers, approved)),
        0 <= i < markers.len() ==> contains_text(
            mirror_text(today, session, outcome, markers, approved),
            "- ["@ + markers[i].kind() + "] "@ + markers[i].label() + "\n"@,
        ),
{
    let all = mirror_text(today, session, outcome, markers, approved);
    let front = "# Session Closeout — "@ + today + "\n\n"@ + "**Session:** "@ + session + "  \n"@
        + "**Outcome:** "@ + outcome + "  \n"@ + "**Knowledge committed:** "@ + (if approved {
        "✓ KNOWLEDGE COMMITTED"@
    } else {
        "staged only"@
    });
    assert(all.take(front.len() as int) =~= front);
    if 0 <= i < markers.len() {
        let head = front + "  \n\n"@ + "## Knowledge captured\n\n"@;
        lemma_written_out_holds(markers, mirror_line(), i);
        lemma_contains_half(head, written_out(markers, mirror_line()), mirror_line()(markers[i]));
    }
}

/// The markers of a session are counted kind by kind.
pub proof fn law_markers_are_counted_by_kind(
    markers: Seq<KnowledgeMarker>,
    m: KnowledgeMarker,
    kind: Text,
)
    ensures
        kind_count(Seq::empty(), kind) == 0,
        kind_count(markers.push(m), kind) == kind_count(markers, kind) + if m.kind() == kind {
            1nat
        } else {
            0nat
        },
        counts_view(markers)->Object_0.contains(
            ("pattern"@, JsonView::Unsigned(kind_count(markers, "pattern"@))),
        ),
        counts_view(markers)->Object_0.contains(
            ("anti_pattern"@, JsonView::Unsigned(kind_count(markers, "anti_pattern"@))),
        ),
        counts_view(markers)->Object_0.contains(
            ("correction"@, JsonView::Unsigned(kind_count(markers, "correction"@))),
        ),
        counts_view(markers)->Object_0.contains(
            ("adr"@, JsonView::Unsigned(kind_count(markers, "adr"@))),
        ),
        counts_view(markers)->Object_0.contains(
            ("prefs_note"@, JsonView::Unsigned(kind_count(markers, "prefs_note"@))),
        ),
        counts_view(markers)->Object_0.contains(
            ("skill_candidate"@, JsonView::Unsigned(kind_count(markers, "skill_candidate"@))),
        ),
{
    assert(markers.push(m).drop_last() == markers);
    let fields = counts_view(markers)->Object_0;
    assert(fields[0].0 == "pattern"@ && fields[1].0 == "anti_pattern"@ && fields[2].0
        == "correction"@ && fields[3].0 == "adr"@ && fields[4].0 == "prefs_note"@ && fields[5].0
        == "skill_candidate"@);
}

/// The snapshot of a session holds its name, its outcome, the counts of its markers and the tools
/// that it called, in order and without empty names.
pub proof fn law_snapshot_holds_the_session(
    session: Text,
    outcome: Text,
    markers: Seq<KnowledgeMarker>,
    tools: Seq<Text>,
    tool: Text,
    created_at: Text,
)
    ensures
        ({
            let fields = snapshot_view(session, outcome, markers, tools, created_at)->Object_0;
            &&& fields.contains(("session_key"@, JsonView::Text(session)))
            &&& fields.contains(("outcome_type"@, JsonView::Text(outcome)))
            &&& fields.contains(("marker_counts"@, counts_view(markers)))
            &&& fields.contains(
                ("tool_sequence"@, JsonView::List(text_views(not_empty(tools)))),
            )
            &&& fields.contains(("created_at"@, JsonView::Text(created_at)))
        }),
        not_empty(Seq::empty()).len() == 0,
        tool.len() > 0 ==> not_empty(tools.push(tool)) == not_empty(tools).push(tool),
        tool.len() == 0 ==> not_empty(tools.push(tool)) == not_empty(tools),
{
    assert(tools.push(tool).drop_last() == tools);
    let fields = snapshot_view(session, outcome, markers, tools, created_at)->Object_0;
    assert(fields[0].0 == "session_key"@ && fields[1].0 == "outcome_type"@ && fields[2].0
        == "marker_counts"@ && fields[3].0 == "tool_sequence"@ && fields[5].0 == "created_at"@);
}

/// A snapshot goes once it is older than the days that it is kept for, to the nanosecond; and of
/// more than fifty as many go as are too many.
pub proof fn law_old_snapshots_go(written: int, now: int, days: int, names: Seq<String>)
    ensures
        is_expired(written, now, days) <==> now - written > days * 86_400_000_000_000,
        names.len() > 50 ==> surplus(names).len() == names.len() - 50,
        names.len() <= 50 ==> surplus(names).len() == 0,
{
    law_sorting_orders(names, own_key());
}

/// A note is shown by its text, of which just the first sixty characters where it is longer; what
/// was staged of a marker is looked for by the first thirty characters of its name.
pub proof fn law_long_names_are_cut(
    c: Commit,
    body: String,
    tags: Vec<String>,
    duplicate: bool,
    today: Text,
    now: i64,
    number: i64,
    prefs: bool,
    promotion: Promotion,
    kind: Text,
    name: Text,
)
    requires
        commits(
            c,
            KnowledgeMarker::PrefsNote { body, tags },
            duplicate,
            today,
            now,
            number,
            prefs,
        ),
        promotion.is_for(kind, name),
    ensures
        !prefs && body@.len() <= 60 ==> c->Annotation_0.topic@ == "prefs-note: "@ + body@,
        !prefs && body@.len() > 60 ==> c->Annotation_0.topic@ == "prefs-note: "@ + body@.take(60),
        prefs && body@.len() <= 60 ==> c->PrefsNote_promotion.name@ == body@,
        prefs && body@.len() > 60 ==> c->PrefsNote_promotion.name@ == body@.take(60),
        promotion.kind@ == kind && promotion.name@ == name,
        name.len() <= 30 ==> promotion.body_like@ == "%"@ + name + "%"@,
        name.len() > 30 ==> promotion.body_like@ == "%"@ + name.take(30) + "%"@,
{
}

} // verus!
