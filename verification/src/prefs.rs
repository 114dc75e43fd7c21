//! The preferences of a project and of its author.

use crate::numbers::{decimal, decimal_of};
use crate::text::{
    contains_text, join, join_of, lemma_contains_half, lemma_contains_itself, views, Text,
};
use vstd::prelude::*;

verus! {

/// The preferences, section by section.
#[derive(Debug, Clone)]
pub struct Preferences {
    pub style: StylePrefs,
    pub patterns: PatternPrefs,
    pub api: ApiPrefs,
    pub project: ProjectPrefs,
    pub enforcement: EnforcementPrefs,
    pub consolidation: ConsolidationPrefs,
    pub skills: SkillsPrefs,
    pub memory: MemoryPrefs,
}

/// How code is to look. A length of zero and an empty text stand for no preference.
#[derive(Debug, Clone)]
pub struct StylePrefs {
    pub line_length: u32,
    pub indent: String,
    pub naming: String,
    pub error_handling: String,
    pub comments: String,
}

/// Patterns that are welcome and patterns that are not.
#[derive(Debug, Clone)]
pub struct PatternPrefs {
    pub preferred: Vec<String>,
    pub avoid: Vec<String>,
}

/// What to build with, and what never to use bare.
#[derive(Debug, Clone)]
pub struct ApiPrefs {
    pub primary_building_blocks: Vec<String>,
    pub never_raw: Vec<String>,
}

/// The project itself.
#[derive(Debug, Clone)]
pub struct ProjectPrefs {
    pub name: String,
    pub language: String,
    pub min_rust: String,
    pub notes: Vec<String>,
}

/// Enforcement of the session protocol.
#[derive(Debug, Clone)]
pub struct EnforcementPrefs {
    /// `protocol_session_only`: work is held back only in sessions that began the protocol.
    /// `always`: in every session.
    pub protocol_gate_mode: String,
    /// Warn where the session before has no closeout record.
    pub closeout_warning_enabled: bool,
    /// Hours after which a session without closeout counts as orphaned.
    pub closeout_grace_period_hours: u32,
}

/// The consolidation pipeline.
#[derive(Debug, Clone)]
pub struct ConsolidationPrefs {
    /// Hours after which consolidation runs again.
    pub staleness_hours: u32,
    /// The most proposals committed in one run.
    pub max_commits_per_run: u32,
    /// The fewest sessions of a cluster that gives proposals.
    pub min_cluster_sessions: u32,
    /// The fewest occurrences of a sequence that becomes a skill candidate.
    pub skill_candidate_min_occurrences: u32,
    /// Days for which graph snapshots are kept.
    pub graph_snapshot_days: u32,
}

/// Skill files.
#[derive(Debug, Clone)]
pub struct SkillsPrefs {
    /// Their directory below the workspace root.
    pub skills_dir: String,
    /// Rewrite them when a revision is approved.
    pub auto_update_skills: bool,
}

/// Mirror files of the memory.
#[derive(Debug, Clone)]
pub struct MemoryPrefs {
    /// The number of mirror files above which consolidation is recommended.
    pub max_mirror_files: u32,
    /// The similarity from which mirrors are proposed for merging, as the bit pattern of a
    /// single-precision number.
    pub mirror_consolidation_threshold: u32,
}

/// The bit pattern of 0.75 as a single-precision number.
pub const THREE_QUARTERS: u32 = 0x3f40_0000;

impl StylePrefs {
    /// Nothing is preferred.
    pub open spec fn is_default(&self) -> bool {
        &&& self.line_length == 0
        &&& self.indent@.len() == 0
        &&& self.naming@.len() == 0
        &&& self.error_handling@.len() == 0
        &&& self.comments@.len() == 0
    }
}

impl PatternPrefs {
    /// Nothing is preferred.
    pub open spec fn is_default(&self) -> bool {
        self.preferred@.len() == 0 && self.avoid@.len() == 0
    }
}

impl ApiPrefs {
    /// Nothing is preferred.
    pub open spec fn is_default(&self) -> bool {
        self.primary_building_blocks@.len() == 0 && self.never_raw@.len() == 0
    }
}

impl ProjectPrefs {
    /// Nothing is known of the project.
    pub open spec fn is_default(&self) -> bool {
        &&& self.name@.len() == 0
        &&& self.language@.len() == 0
        &&& self.min_rust@.len() == 0
        &&& self.notes@.len() == 0
    }
}

impl EnforcementPrefs {
    /// Only sessions that began the protocol are held to it.
    pub open spec fn is_default(&self) -> bool {
        &&& self.protocol_gate_mode@ == "protocol_session_only"@
        &&& self.closeout_warning_enabled
        &&& self.closeout_grace_period_hours == 2
    }
}

impl ConsolidationPrefs {
    /// The limits that hold unless others are given.
    pub open spec fn is_default(&self) -> bool {
        &&& self.staleness_hours == 8
        &&& self.max_commits_per_run == 5
        &&& self.min_cluster_sessions == 3
        &&& self.skill_candidate_min_occurrences == 3
        &&& self.graph_snapshot_days == 30
    }
}

impl SkillsPrefs {
    /// The directory that is used unless another is given.
    pub open spec fn is_default(&self) -> bool {
        self.skills_dir@ == "agent_customization/skills"@ && self.auto_update_skills
    }
}

impl MemoryPrefs {
    /// The limits that hold unless others are given.
    pub open spec fn is_default(&self) -> bool {
        self.max_mirror_files == 200 && self.mirror_consolidation_threshold == THREE_QUARTERS
    }
}

impl Preferences {
    /// Every section is as it is where no preferences are given.
    pub open spec fn is_default(&self) -> bool {
        &&& self.style.is_default()
        &&& self.patterns.is_default()
        &&& self.api.is_default()
        &&& self.project.is_default()
        &&& self.enforcement.is_default()
        &&& self.consolidation.is_default()
        &&& self.skills.is_default()
        &&& self.memory.is_default()
    }
}

impl Default for StylePrefs {
    fn default() -> (r: Self)
        ensures
            r.is_default(),
    {
        StylePrefs {
            line_length: 0,
            indent: String::new(),
            naming: String::new(),
            error_handling: String::new(),
            comments: String::new(),
        }
    }
}

impl Default for PatternPrefs {
    fn default() -> (r: Self)
        ensures
            r.is_default(),
    {
        PatternPrefs { preferred: Vec::new(), avoid: Vec::new() }
    }
}

impl Default for ApiPrefs {
    fn default() -> (r: Self)
        ensures
            r.is_default(),
    {
        ApiPrefs { primary_building_blocks: Vec::new(), never_raw: Vec::new() }
    }
}

impl Default for ProjectPrefs {
    fn default() -> (r: Self)
        ensures
            r.is_default(),
    {
        ProjectPrefs {
            name: String::new(),
            language: String::new(),
            min_rust: String::new(),
            notes: Vec::new(),
        }
    }
}

impl Default for EnforcementPrefs {
    fn default() -> (r: Self)
        ensures
            r.is_default(),
    {
        EnforcementPrefs {
            protocol_gate_mode: "protocol_session_only".to_owned(),
            closeout_warning_enabled: true,
            closeout_grace_period_hours: 2,
        }
    }
}

impl Default for ConsolidationPrefs {
    fn default() -> (r: Self)
        ensures
            r.is_default(),
    {
        ConsolidationPrefs {
            staleness_hours: 8,
            max_commits_per_run: 5,
            min_cluster_sessions: 3,
            skill_candidate_min_occurrences: 3,
            graph_snapshot_days: 30,
        }
    }
}

impl Default for SkillsPrefs {
    fn default() -> (r: Self)
        ensures
            r.is_default(),
    {
        SkillsPrefs {
            skills_dir: "agent_customization/skills".to_owned(),
            auto_update_skills: true,
        }
    }
}

impl Default for MemoryPrefs {
    fn default() -> (r: Self)
        ensures
            r.is_default(),
    {
        MemoryPrefs { max_mirror_files: 200, mirror_consolidation_threshold: THREE_QUARTERS }
    }
}

impl Default for Preferences {
    fn default() -> (r: Self)
        ensures
            r.is_default(),
    {
        Preferences {
            style: StylePrefs::default(),
            patterns: PatternPrefs::default(),
            api: ApiPrefs::default(),
            project: ProjectPrefs::default(),
            enforcement: EnforcementPrefs::default(),
            consolidation: ConsolidationPrefs::default(),
            skills: SkillsPrefs::default(),
            memory: MemoryPrefs::default(),
        }
    }
}

/// The line of one preference; none where the value is empty.
pub open spec fn line_of(label: Text, value: Text) -> Text {
    if value.len() == 0 {
        Seq::empty()
    } else {
        label + ": "@ + value + "\n"@
    }
}

/// The line of a list; none where the list is empty.
pub open spec fn list_line_of(label: Text, list: Seq<Text>, sep: Text) -> Text {
    if list.len() == 0 {
        Seq::empty()
    } else {
        label + ": "@ + join_of(list, sep) + "\n"@
    }
}

/// The line of the line length; none where there is no limit.
pub open spec fn length_line_of(n: u32) -> Text {
    if n == 0 {
        Seq::empty()
    } else {
        "line_length"@ + ": "@ + decimal_of(n as nat) + "\n"@
    }
}

/// The preferences as a text for an assistant: a heading and a line for each that is given.
pub open spec fn preferences_text(p: &Preferences) -> Text {
    "=== PREFERENCES ===\n"@ + length_line_of(p.style.line_length) + line_of(
        "indent"@,
        p.style.indent@,
    ) + line_of("naming"@, p.style.naming@) + line_of("error_handling"@, p.style.error_handling@)
        + line_of("comments"@, p.style.comments@) + list_line_of(
        "preferred_patterns"@,
        views(p.patterns.preferred@),
        ", "@,
    ) + list_line_of("avoid_patterns"@, views(p.patterns.avoid@), ", "@) + list_line_of(
        "primary_api"@,
        views(p.api.primary_building_blocks@),
        ", "@,
    ) + list_line_of("never_raw"@, views(p.api.never_raw@), ", "@) + line_of(
        "project"@,
        p.project.name@,
    ) + line_of("language"@, p.project.language@) + line_of("min_rust"@, p.project.min_rust@)
        + list_line_of("notes"@, views(p.project.notes@), " | "@)
}

/// Writes the line of one preference.
fn line(label: &str, value: &str) -> (r: String)
    ensures
        r@ == line_of(label@, value@),
{
    let mut out = String::new();
    if value.unicode_len() > 0 {
        out.append(label);
        out.append(": ");
        out.append(value);
        out.append("\n");
        assert(out@ == label@ + ": "@ + value@ + "\n"@);
    }
    out
}

/// Writes the line of a list.
fn list_line(label: &str, values: &Vec<String>, sep: &str) -> (r: String)
    ensures
        r@ == list_line_of(label@, views(values@), sep@),
{
    let mut out = String::new();
    if values.len() > 0 {
        out.append(label);
        out.append(": ");
        out.append(join(values, sep).as_str());
        out.append("\n");
        assert(out@ == label@ + ": "@ + join_of(views(values@), sep@) + "\n"@);
    }
    out
}

/// Writes the line of the line length.
fn length_line(n: u32) -> (r: String)
    ensures
        r@ == length_line_of(n),
{
    let mut out = String::new();
    if n > 0 {
        out.append("line_length");
        out.append(": ");
        out.append(decimal(n as u64).as_str());
        out.append("\n");
        assert(out@ == "line_length"@ + ": "@ + decimal_of(n as nat) + "\n"@);
    }
    out
}

/// The preferences as a text for an assistant.
pub fn render_for_copilot(prefs: &Preferences) -> (r: String)
    ensures
        r@ == preferences_text(prefs),
{
    let mut out = "=== PREFERENCES ===\n".to_owned();
    out.append(length_line(prefs.style.line_length).as_str());
    out.append(line("indent", prefs.style.indent.as_str()).as_str());
    out.append(line("naming", prefs.style.naming.as_str()).as_str());
    out.append(line("error_handling", prefs.style.error_handling.as_str()).as_str());
    out.append(line("comments", prefs.style.comments.as_str()).as_str());
    out.append(list_line("preferred_patterns", &prefs.patterns.preferred, ", ").as_str());
    out.append(list_line("avoid_patterns", &prefs.patterns.avoid, ", ").as_str());
    out.append(list_line("primary_api", &prefs.api.primary_building_blocks, ", ").as_str());
    out.append(list_line("never_raw", &prefs.api.never_raw, ", ").as_str());
    out.append(line("project", prefs.project.name.as_str()).as_str());
    out.append(line("language", prefs.project.language.as_str()).as_str());
    out.append(line("min_rust", prefs.project.min_rust.as_str()).as_str());
    out.append(list_line("notes", &prefs.project.notes, " | ").as_str());
    out
}

/// Without preferences the text is the heading alone.
pub proof fn law_no_preferences_no_lines(p: &Preferences)
    requires
        p.is_default(),
    ensures
        preferences_text(p) == "=== PREFERENCES ===\n"@,
{
    let none = Seq::<char>::empty();
    assert(line_of("indent"@, p.style.indent@) == none);
    assert(preferences_text(p) == "=== PREFERENCES ===\n"@);
}

/// What one of several parts holds, all of them together hold.
proof fn lemma_parts_hold(s: Seq<Text>, i: int)
    requires
        s.len() == 14,
        0 <= i < 14,
    ensures
        contains_text(
            s[0] + s[1] + s[2] + s[3] + s[4] + s[5] + s[6] + s[7] + s[8] + s[9] + s[10] + s[11]
                + s[12] + s[13],
            s[i],
        ),
{
    let part = s[i];
    lemma_contains_itself(part);
    let t0 = s[0];
    let t1 = t0 + s[1];
    lemma_contains_half(t0, s[1], part);
    let t2 = t1 + s[2];
    lemma_contains_half(t1, s[2], part);
    let t3 = t2 + s[3];
    lemma_contains_half(t2, s[3], part);
    let t4 = t3 + s[4];
    lemma_contains_half(t3, s[4], part);
    let t5 = t4 + s[5];
    lemma_contains_half(t4, s[5], part);
    let t6 = t5 + s[6];
    lemma_contains_half(t5, s[6], part);
    let t7 = t6 + s[7];
    lemma_contains_half(t6, s[7], part);
    let t8 = t7 + s[8];
    lemma_contains_half(t7, s[8], part);
    let t9 = t8 + s[9];
    lemma_contains_half(t8, s[9], part);
    let t10 = t9 + s[10];
    lemma_contains_half(t9, s[10], part);
    let t11 = t10 + s[11];
    lemma_contains_half(t10, s[11], part);
    let t12 = t11 + s[12];
    lemma_contains_half(t11, s[12], part);
    let t13 = t12 + s[13];
    lemma_contains_half(t12, s[13], part);
}

/// Every preference that is given is told under its name: a text as it is, a list joined, and the
/// line length as a number.
#[verifier::rlimit(40)]
pub proof fn law_every_preference_is_told(p: &Preferences)
    ensures
        p.style.line_length > 0 ==> contains_text(
            preferences_text(p),
            "line_length"@ + ": "@ + decimal_of(p.style.line_length as nat) + "\n"@,
        ),
        p.style.indent@.len() > 0 ==> contains_text(
            preferences_text(p),
            "indent"@ + ": "@ + p.style.indent@ + "\n"@,
        ),
        p.style.naming@.len() > 0 ==> contains_text(
            preferences_text(p),
            "naming"@ + ": "@ + p.style.naming@ + "\n"@,
        ),
        p.style.error_handling@.len() > 0 ==> contains_text(
            preferences_text(p),
            "error_handling"@ + ": "@ + p.style.error_handling@ + "\n"@,
        ),
        p.style.comments@.len() > 0 ==> contains_text(
            preferences_text(p),
            "comments"@ + ": "@ + p.style.comments@ + "\n"@,
        ),
        p.patterns.preferred@.len() > 0 ==> contains_text(
            preferences_text(p),
            "preferred_patterns"@ + ": "@ + join_of(views(p.patterns.preferred@), ", "@) + "\n"@,
        ),
        p.patterns.avoid@.len() > 0 ==> contains_text(
            preferences_text(p),
            "avoid_patterns"@ + ": "@ + join_of(views(p.patterns.avoid@), ", "@) + "\n"@,
        ),
        p.api.primary_building_blocks@.len() > 0 ==> contains_text(
            preferences_text(p),
            "primary_api"@ + ": "@ + join_of(views(p.api.primary_building_blocks@), ", "@) + "\n"@,
        ),
        p.api.never_raw@.len() > 0 ==> contains_text(
            preferences_text(p),
            "never_raw"@ + ": "@ + join_of(views(p.api.never_raw@), ", "@) + "\n"@,
        ),
        p.project.name@.len() > 0 ==> contains_text(
            preferences_text(p),
            "project"@ + ": "@ + p.project.name@ + "\n"@,
        ),
        p.project.language@.len() > 0 ==> contains_text(
            preferences_text(p),
            "language"@ + ": "@ + p.project.language@ + "\n"@,
        ),
        p.project.min_rust@.len() > 0 ==> contains_text(
            preferences_text(p),
            "min_rust"@ + ": "@ + p.project.min_rust@ + "\n"@,
        ),
        p.project.notes@.len() > 0 ==> contains_text(
            preferences_text(p),
            "notes"@ + ": "@ + join_of(views(p.project.notes@), " | "@) + "\n"@,
        ),
{
    let s = seq![
        "=== PREFERENCES ===\n"@,
        length_line_of(p.style.line_length),
        line_of("indent"@, p.style.indent@),
        line_of("naming"@, p.style.naming@),
        line_of("error_handling"@, p.style.error_handling@),
        line_of("comments"@, p.style.comments@),
        list_line_of("preferred_patterns"@, views(p.patterns.preferred@), ", "@),
        list_line_of("avoid_patterns"@, views(p.patterns.avoid@), ", "@),
        list_line_of("primary_api"@, views(p.api.primary_building_blocks@), ", "@),
        list_line_of("never_raw"@, views(p.api.never_raw@), ", "@),
        line_of("project"@, p.project.name@),
        line_of("language"@, p.project.language@),
        line_of("min_rust"@, p.project.min_rust@),
        list_line_of("notes"@, views(p.project.notes@), " | "@),
    ];
    assert(preferences_text(p) == s[0] + s[1] + s[2] + s[3] + s[4] + s[5] + s[6] + s[7] + s[8] + s[9]
        + s[10] + s[11] + s[12] + s[13]);
    lemma_parts_hold(s, 1);
    lemma_parts_hold(s, 2);
    lemma_parts_hold(s, 3);
    lemma_parts_hold(s, 4);
    lemma_parts_hold(s, 5);
    lemma_parts_hold(s, 6);
    lemma_parts_hold(s, 7);
    lemma_parts_hold(s, 8);
    lemma_parts_hold(s, 9);
    lemma_parts_hold(s, 10);
    lemma_parts_hold(s, 11);
    lemma_parts_hold(s, 12);
    lemma_parts_hold(s, 13);
}

} // verus!
