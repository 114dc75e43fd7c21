//! What the memory holds: indexed code, patterns, anti-patterns, notes and decisions.

use crate::text::{clip, clipped, same, Text};
use vstd::prelude::*;

verus! {

/// An indexed item of source code in its dense form.
#[derive(Debug, Clone)]
pub struct CodeUnit {
    pub id: String,
    pub kind: String,
    pub name: String,
    pub module: String,
    pub summary: String,
    pub compressed: String,
}

/// A rate as the store keeps it: the bit pattern of the single-precision number, the text of the
/// number, and its text in whole percent.
#[derive(Debug, Clone)]
pub struct StoredRate {
    pub bits: u32,
    pub number: String,
    pub percent: String,
}

/// The rate is one.
pub open spec fn is_full(rate: StoredRate) -> bool {
    rate.bits == 0x3f80_0000 && rate.number@ == "1.0"@ && rate.percent@ == "100"@
}

/// The rate of a pattern that nobody used or reverted yet.
pub(crate) fn full_rate() -> (r: StoredRate)
    ensures
        is_full(r),
{
    StoredRate { bits: 0x3f80_0000, number: "1.0".to_owned(), percent: "100".to_owned() }
}

/// An approved code pattern.
#[derive(Debug, Clone)]
pub struct Pattern {
    pub id: Option<i64>,
    pub name: String,
    pub intent: String,
    pub body: String,
    pub uses: Vec<String>,
    pub tags: Vec<String>,
    /// Seconds after the Unix epoch.
    pub approved_at: i64,
    pub use_count: i64,
    pub reverted_count: i64,
    pub survival_rate: StoredRate,
}

/// A known bad approach.
#[derive(Debug, Clone)]
pub struct AntiPattern {
    pub id: Option<i64>,
    pub description: String,
    pub wrong: String,
    pub correct: String,
    pub tags: Vec<String>,
    /// Seconds after the Unix epoch.
    pub added_at: i64,
}

/// A free note on a topic.
#[derive(Debug, Clone)]
pub struct Annotation {
    pub id: Option<i64>,
    pub topic: String,
    pub body: String,
    pub tags: Vec<String>,
    /// Seconds after the Unix epoch.
    pub added_at: i64,
}

/// Something seen that waits for a review.
#[derive(Debug, Clone)]
pub struct PendingObservation {
    pub id: Option<i64>,
    pub path: String,
    pub summary: String,
    pub diff_hint: String,
    /// Seconds after the Unix epoch.
    pub observed_at: i64,
}

/// An architecture decision record.
#[derive(Debug, Clone)]
pub struct Adr {
    pub id: Option<i64>,
    pub adr_number: i64,
    pub title: String,
    pub status: String,
    pub context: String,
    pub decision: String,
    pub reasoning: String,
    pub alternatives: String,
    pub consequences: String,
    pub concept_tags: Vec<String>,
    pub superseded_by: Option<i64>,
}

/// A field in an API graph.
#[derive(Debug, Clone)]
pub struct ApiField {
    pub name: String,
    pub ty: String,
    pub doc: String,
}

/// A variant of an enum in an API graph.
#[derive(Debug, Clone)]
pub struct ApiVariant {
    pub name: String,
    pub doc: String,
    pub fields: Vec<ApiField>,
}

/// A method in an API graph.
#[derive(Debug, Clone)]
pub struct ApiMethod {
    pub signature: String,
    pub doc: String,
}

/// An item of an API graph.
#[derive(Debug, Clone)]
pub struct ApiGraphItem {
    pub kind: String,
    pub name: String,
    pub module: Vec<String>,
    pub doc: String,
    pub signature: String,
    pub fields: Vec<ApiField>,
    pub variants: Vec<ApiVariant>,
    pub methods: Vec<ApiMethod>,
    pub traits_impl: Vec<String>,
}

/// How two items of the graph are related.
#[derive(Debug, Clone, Copy, PartialEq, Eq, Structural)]
pub enum RelationType {
    Pairs,
    Owns,
    Uses,
    Calls,
    Implements,
    Conflicts,
    DerivedFrom,
}

impl RelationType {
    /// The name of the relation.
    pub open spec fn name(self) -> Text {
        match self {
            RelationType::Pairs => "pairs"@,
            RelationType::Owns => "owns"@,
            RelationType::Uses => "uses"@,
            RelationType::Calls => "calls"@,
            RelationType::Implements => "implements"@,
            RelationType::Conflicts => "conflicts"@,
            RelationType::DerivedFrom => "derived_from"@,
        }
    }

    /// The name of the relation.
    pub fn as_str(&self) -> (r: &'static str)
        ensures
            r@ == self.name(),
    {
        match self {
            RelationType::Pairs => "pairs",
            RelationType::Owns => "owns",
            RelationType::Uses => "uses",
            RelationType::Calls => "calls",
            RelationType::Implements => "implements",
            RelationType::Conflicts => "conflicts",
            RelationType::DerivedFrom => "derived_from",
        }
    }

    /// The relation of a name, where it is the name of one.
    pub fn from_name(name: &str) -> (r: Option<RelationType>)
        ensures
            match r {
                Some(rel) => rel.name() == name@,
                None => forall|rel: RelationType| (#[trigger] rel.name()) != name@,
            },
    {
        if same(name, "pairs") {
            Some(RelationType::Pairs)
        } else if same(name, "owns") {
            Some(RelationType::Owns)
        } else if same(name, "uses") {
            Some(RelationType::Uses)
        } else if same(name, "calls") {
            Some(RelationType::Calls)
        } else if same(name, "implements") {
            Some(RelationType::Implements)
        } else if same(name, "conflicts") {
            Some(RelationType::Conflicts)
        } else if same(name, "derived_from") {
            Some(RelationType::DerivedFrom)
        } else {
            None
        }
    }
}

/// A piece of knowledge that was marked in a session.
#[derive(Debug, Clone)]
pub enum KnowledgeMarker {
    Pattern {
        name: String,
        intent: String,
        body: String,
        trust: String,
        uses: Vec<String>,
        tags: Vec<String>,
    },
    AntiPattern { description: String, wrong: String, correct: String, tags: Vec<String> },
    Correction { attempted: String, reason: String, fix: String, tags: Vec<String> },
    Adr { title: String, context: String, decision: String, tags: Vec<String> },
    PrefsNote { body: String, tags: Vec<String> },
    SkillCandidate { name: String, trigger: String, summary: String },
}

impl KnowledgeMarker {
    /// The name of the kind of marker.
    pub open spec fn kind(self) -> Text {
        match self {
            KnowledgeMarker::Pattern { .. } => "pattern"@,
            KnowledgeMarker::AntiPattern { .. } => "anti_pattern"@,
            KnowledgeMarker::Correction { .. } => "correction"@,
            KnowledgeMarker::Adr { .. } => "adr"@,
            KnowledgeMarker::PrefsNote { .. } => "prefs_note"@,
            KnowledgeMarker::SkillCandidate { .. } => "skill_candidate"@,
        }
    }

    /// The name under which the marker is shown; of a note the first sixty characters.
    pub open spec fn label(self) -> Text {
        match self {
            KnowledgeMarker::Pattern { name, .. } => name@,
            KnowledgeMarker::AntiPattern { description, .. } => description@,
            KnowledgeMarker::Correction { attempted, .. } => attempted@,
            KnowledgeMarker::Adr { title, .. } => title@,
            KnowledgeMarker::PrefsNote { body, .. } => clip(body@, 60),
            KnowledgeMarker::SkillCandidate { name, .. } => name@,
        }
    }

    /// The name of the kind of marker.
    pub fn marker_type(&self) -> (r: &'static str)
        ensures
            r@ == self.kind(),
    {
        match self {
            KnowledgeMarker::Pattern { .. } => "pattern",
            KnowledgeMarker::AntiPattern { .. } => "anti_pattern",
            KnowledgeMarker::Correction { .. } => "correction",
            KnowledgeMarker::Adr { .. } => "adr",
            KnowledgeMarker::PrefsNote { .. } => "prefs_note",
            KnowledgeMarker::SkillCandidate { .. } => "skill_candidate",
        }
    }

    /// The name under which the marker is shown.
    pub fn display_name(&self) -> (r: String)
        ensures
            r@ == self.label(),
    {
        match self {
            KnowledgeMarker::Pattern { name, .. } => name.clone(),
            KnowledgeMarker::AntiPattern { description, .. } => description.clone(),
            KnowledgeMarker::Correction { attempted, .. } => attempted.clone(),
            KnowledgeMarker::Adr { title, .. } => title.clone(),
            KnowledgeMarker::PrefsNote { body, .. } => clipped(body.as_str(), 60),
            KnowledgeMarker::SkillCandidate { name, .. } => name.clone(),
        }
    }
}

} // verus!
