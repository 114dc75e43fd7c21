//! The rows of the store, and how patterns fare in it.

use crate::clock::{rfc3339_seconds, rfc3339_seconds_of};
use crate::json::{list_of_text, list_text, strings_in_json, strings_json_of};
use crate::model::{
    full_rate, is_full, Annotation, AntiPattern, CodeUnit, Pattern, PendingObservation, StoredRate,
};
use crate::rates::Ratio;
use crate::text::{views, Text};
use vstd::prelude::*;

verus! {

/// The share of the uses of a pattern that survived: all of them before it was ever used or
/// reverted, and else the uses among uses and reversals.
pub open spec fn survival_of(use_count: nat, reverted_count: nat) -> Ratio {
    if use_count + reverted_count == 0 {
        Ratio { num: 1, den: 1 }
    } else {
        Ratio { num: use_count as u64, den: (use_count + reverted_count) as u64 }
    }
}

/// The share of the uses of a pattern that survived.
pub fn recompute_pattern_survival(use_count: i64, reverted_count: i64) -> (r: Ratio)
    requires
        0 <= use_count,
        0 <= reverted_count,
    ensures
        r == survival_of(use_count as nat, reverted_count as nat),
        r.is_share(),
{
    if use_count == 0 && reverted_count == 0 {
        Ratio { num: 1, den: 1 }
    } else {
        Ratio { num: use_count as u64, den: use_count as u64 + reverted_count as u64 }
    }
}

/// What is kept of how a pattern fared.
#[derive(Debug, Clone, Copy, PartialEq, Eq, Structural)]
pub struct Standing {
    pub use_count: i64,
    pub reverted_count: i64,
    pub survival: Ratio,
}

impl Standing {
    /// The counts make sense.
    pub open spec fn wf(self) -> bool {
        self.use_count >= 0 && self.reverted_count >= 0 && self.survival.is_share()
    }

    /// A pattern that was just approved.
    pub fn new() -> (r: Standing)
        ensures
            r.wf(),
            r.use_count == 0,
            r.reverted_count == 0,
            r.survival == survival_of(0, 0),
    {
        Standing { use_count: 0, reverted_count: 0, survival: Ratio { num: 1, den: 1 } }
    }

    /// The pattern was used. The survival is not looked at anew.
    pub fn pattern_used(&mut self)
        requires
            old(self).wf(),
            old(self).use_count < i64::MAX,
        ensures
            final(self).wf(),
            final(self).use_count == old(self).use_count + 1,
            final(self).reverted_count == old(self).reverted_count,
            final(self).survival == old(self).survival,
    {
        self.use_count = self.use_count + 1;
    }

    /// A use of the pattern was reverted. The survival is looked at anew.
    pub fn pattern_reverted(&mut self)
        requires
            old(self).wf(),
            old(self).reverted_count < i64::MAX,
        ensures
            final(self).wf(),
            final(self).use_count == old(self).use_count,
            final(self).reverted_count == old(self).reverted_count + 1,
            final(self).survival == survival_of(
                old(self).use_count as nat,
                (old(self).reverted_count + 1) as nat,
            ),
    {
        self.reverted_count = self.reverted_count + 1;
        self.survival = recompute_pattern_survival(self.use_count, self.reverted_count);
    }
}

/// A row of indexed code.
#[derive(Debug, Clone)]
pub struct UnitRow {
    pub id: String,
    pub kind: String,
    pub name: String,
    pub module: String,
    pub summary: String,
    pub compressed: String,
    /// An RFC 3339 text.
    pub indexed_at: String,
}

/// A row of a pattern, but for its number. Lists are JSON texts.
#[derive(Debug, Clone)]
pub struct PatternRow {
    pub name: String,
    pub intent: String,
    pub body: String,
    pub uses: String,
    pub tags: String,
    /// An RFC 3339 text.
    pub approved_at: String,
    pub use_count: i64,
    pub reverted_count: i64,
    pub survival_rate: StoredRate,
}

/// A row of an anti-pattern, but for its number. The tags are a JSON text.
#[derive(Debug, Clone)]
pub struct AntiPatternRow {
    pub description: String,
    pub wrong: String,
    pub correct: String,
    pub tags: String,
    /// An RFC 3339 text.
    pub added_at: String,
}

/// A row of a note, but for its number. The tags are a JSON text.
#[derive(Debug, Clone)]
pub struct AnnotationRow {
    pub topic: String,
    pub body: String,
    pub tags: String,
    /// An RFC 3339 text.
    pub added_at: String,
}

/// A row of an observation.
#[derive(Debug, Clone)]
pub struct ObservationRow {
    pub id: i64,
    pub path: String,
    pub summary: String,
    pub diff_hint: String,
    /// An RFC 3339 text.
    pub observed_at: String,
}

/// The list that a JSON text holds; empty where it holds none.
pub open spec fn list_in(text: Text) -> Seq<Text> {
    match strings_in_json(text) {
        Some(list) => list,
        None => Seq::empty(),
    }
}

/// The row of a new pattern, which was not used yet. Reading the row gives its lists back.
pub fn insert_pattern(p: &Pattern, approved_at: &str) -> (r: PatternRow)
    ensures
        r.name@ == p.name@,
        r.intent@ == p.intent@,
        r.body@ == p.body@,
        list_in(r.uses@) == views(p.uses@),
        list_in(r.tags@) == views(p.tags@),
        r.uses@ == strings_json_of(views(p.uses@)),
        r.tags@ == strings_json_of(views(p.tags@)),
        r.approved_at@ == approved_at@,
        r.use_count == 0,
        r.reverted_count == 0,
        is_full(r.survival_rate),
{
    PatternRow {
        name: p.name.clone(),
        intent: p.intent.clone(),
        body: p.body.clone(),
        uses: list_text(&p.uses),
        tags: list_text(&p.tags),
        approved_at: approved_at.to_owned(),
        use_count: 0,
        reverted_count: 0,
        survival_rate: full_rate(),
    }
}

/// The row of a new anti-pattern. Reading the row gives its tags back.
pub fn insert_anti_pattern(a: &AntiPattern, added_at: &str) -> (r: AntiPatternRow)
    ensures
        r.description@ == a.description@,
        r.wrong@ == a.wrong@,
        r.correct@ == a.correct@,
        list_in(r.tags@) == views(a.tags@),
        r.tags@ == strings_json_of(views(a.tags@)),
        r.added_at@ == added_at@,
{
    AntiPatternRow {
        description: a.description.clone(),
        wrong: a.wrong.clone(),
        correct: a.correct.clone(),
        tags: list_text(&a.tags),
        added_at: added_at.to_owned(),
    }
}

/// The row of a new note. Reading the row gives its tags back.
pub fn insert_annotation(a: &Annotation, added_at: &str) -> (r: AnnotationRow)
    ensures
        r.topic@ == a.topic@,
        r.body@ == a.body@,
        list_in(r.tags@) == views(a.tags@),
        r.tags@ == strings_json_of(views(a.tags@)),
        r.added_at@ == added_at@,
{
    AnnotationRow {
        topic: a.topic.clone(),
        body: a.body.clone(),
        tags: list_text(&a.tags),
        added_at: added_at.to_owned(),
    }
}

/// The unit of a row; none where the time cannot be read.
pub fn row_to_unit(row: UnitRow) -> (r: Option<CodeUnit>)
    ensures
        r is Some <==> rfc3339_seconds_of(row.indexed_at@) is Some,
        r matches Some(u) ==> {
            &&& u.id@ == row.id@
            &&& u.kind@ == row.kind@
            &&& u.name@ == row.name@
            &&& u.module@ == row.module@
            &&& u.summary@ == row.summary@
            &&& u.compressed@ == row.compressed@
        },
{
    match rfc3339_seconds(row.indexed_at.as_str()) {
        Some(_) => Some(
            CodeUnit {
                id: row.id,
                kind: row.kind,
                name: row.name,
                module: row.module,
                summary: row.summary,
                compressed: row.compressed,
            },
        ),
        None => None,
    }
}

/// The pattern of a row; none where the time cannot be read.
pub fn row_to_pattern(id: i64, row: PatternRow) -> (r: Option<Pattern>)
    ensures
        r is Some <==> rfc3339_seconds_of(row.approved_at@) is Some,
        r matches Some(p) ==> {
            &&& p.id == Some(id)
            &&& p.name@ == row.name@
            &&& p.intent@ == row.intent@
            &&& p.body@ == row.body@
            &&& views(p.uses@) == list_in(row.uses@)
            &&& views(p.tags@) == list_in(row.tags@)
            &&& Some(p.approved_at) == rfc3339_seconds_of(row.approved_at@)
            &&& p.use_count == row.use_count
            &&& p.reverted_count == row.reverted_count
            &&& p.survival_rate == row.survival_rate
        },
{
    match rfc3339_seconds(row.approved_at.as_str()) {
        Some(approved_at) => Some(
            Pattern {
                id: Some(id),
                name: row.name,
                intent: row.intent,
                body: row.body,
                uses: list_of_text(row.uses.as_str()),
                tags: list_of_text(row.tags.as_str()),
                approved_at,
                use_count: row.use_count,
                reverted_count: row.reverted_count,
                survival_rate: row.survival_rate,
            },
        ),
        None => None,
    }
}

/// The anti-pattern of a row; none where the time cannot be read.
pub fn row_to_anti_pattern(id: i64, row: AntiPatternRow) -> (r: Option<AntiPattern>)
    ensures
        r is Some <==> rfc3339_seconds_of(row.added_at@) is Some,
        r matches Some(a) ==> {
            &&& a.id == Some(id)
            &&& a.description@ == row.description@
            &&& a.wrong@ == row.wrong@
            &&& a.correct@ == row.correct@
            &&& views(a.tags@) == list_in(row.tags@)
            &&& Some(a.added_at) == rfc3339_seconds_of(row.added_at@)
        },
{
    match rfc3339_seconds(row.added_at.as_str()) {
        Some(added_at) => Some(
            AntiPattern {
                id: Some(id),
                description: row.description,
                wrong: row.wrong,
                correct: row.correct,
                tags: list_of_text(row.tags.as_str()),
                added_at,
            },
        ),
        None => None,
    }
}

/// The note of a row; none where the time cannot be read.
pub fn row_to_annotation(id: i64, row: AnnotationRow) -> (r: Option<Annotation>)
    ensures
        r is Some <==> rfc3339_seconds_of(row.added_at@) is Some,
        r matches Some(a) ==> {
            &&& a.id == Some(id)
            &&& a.topic@ == row.topic@
            &&& a.body@ == row.body@
            &&& views(a.tags@) == list_in(row.tags@)
            &&& Some(a.added_at) == rfc3339_seconds_of(row.added_at@)
        },
{
    match rfc3339_seconds(row.added_at.as_str()) {
        Some(added_at) => Some(
            Annotation {
                id: Some(id),
                topic: row.topic,
                body: row.body,
                tags: list_of_text(row.tags.as_str()),
                added_at,
            },
        ),
        None => None,
    }
}

/// The observation of a row; none where the time cannot be read.
pub fn row_to_observation(row: ObservationRow) -> (r: Option<PendingObservation>)
    ensures
        r is Some <==> rfc3339_seconds_of(row.observed_at@) is Some,
        r matches Some(o) ==> {
            &&& o.id == Some(row.id)
            &&& o.path@ == row.path@
            &&& o.summary@ == row.summary@
            &&& o.diff_hint@ == row.diff_hint@
            &&& Some(o.observed_at) == rfc3339_seconds_of(row.observed_at@)
        },
{
    match rfc3339_seconds(row.observed_at.as_str()) {
        Some(observed_at) => Some(
            PendingObservation {
                id: Some(row.id),
                path: row.path,
                summary: row.summary,
                diff_hint: row.diff_hint,
                observed_at,
            },
        ),
        None => None,
    }
}

/// A further reversal never raises the survival of a pattern, and a further use never lowers it
/// once the pattern was used or reverted.
pub proof fn law_survival_follows_use(uses: nat, reversals: nat)
    requires
        uses + reversals < u64::MAX,
    ensures
        !survival_of(uses, reversals + 1).exceeds(
            survival_of(uses, reversals).num as int,
            survival_of(uses, reversals).den as int,
        ),
        !survival_of(uses, reversals).exceeds(
            survival_of(uses + 1, reversals).num as int,
            survival_of(uses + 1, reversals).den as int,
        ),
{
    let n = uses as int;
    let d = uses + reversals;
    assert(n * d <= n * (d + 1)) by (nonlinear_arith)
        requires
            n >= 0,
            d >= 0,
    ;
    assert(n * (d + 1) <= (n + 1) * d) by (nonlinear_arith)
        requires
            0 <= n <= d,
    ;
}

/// A pattern that was never reverted has lost nothing, and one that was reverted and never used
/// has lost everything.
pub proof fn law_survival_at_the_ends(n: nat)
    requires
        0 < n <= u64::MAX,
    ensures
        survival_of(n, 0).num == survival_of(n, 0).den,
        survival_of(0, 0).num == survival_of(0, 0).den,
        survival_of(0, n).num == 0,
{
}

} // verus!
