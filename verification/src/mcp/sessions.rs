//! The tools that open and close a session and gather what was learnt in it.

use crate::closeout::CloseoutResult;
use crate::json::{Json, JsonView};
use crate::lists::{lemma_written_out_holds, write_all, written_out};
use crate::mcp::reply::{text_or, text_or_of};
use crate::model::KnowledgeMarker;
use crate::numbers::{count_text, decimal_of};
use crate::text::{
    chars_of, clip, clipped, contains_text, join, join_of, lemma_contains_half,
    lemma_contains_itself, lemma_contains_middle, opt_text, split_char, split_char_of, trim, trim_of,
    views, Text,
};
use vstd::prelude::*;

verus! {

/// The report that opens a session: the task, the state of the memory, and what comes first.
pub open spec fn opening_report(args: JsonView, status: Text) -> Text {
    "PROTOCOL session started — task: \""@ + clip(
        text_or_of(args, "task"@, "unspecified task"@),
        120,
    ) + "\"\n\n"@ + status
        + "\n\nPhase 0 required: call get_delta → get_preferences → get_anti_patterns → get_context\nWork tools are gated until Phase 0 is complete."@
}

/// Opens a session; `status` is the state of the memory.
pub fn tool_begin_protocol_session(args: &Json, status: &str) -> (r: String)
    ensures
        r@ == opening_report(args@, status@),
{
    let task = text_or(args, "task", "unspecified task");
    let mut out = "PROTOCOL session started — task: \"".to_owned();
    out.append(clipped(task, 120).as_str());
    out.append("\"\n\n");
    out.append(status);
    out.append(
        "\n\nPhase 0 required: call get_delta → get_preferences → get_anti_patterns → get_context\nWork tools are gated until Phase 0 is complete.",
    );
    out
}

/// The text in which markers are looked for: the answers of a session, set apart.
pub fn join_responses(responses: &Vec<String>) -> (r: String)
    ensures
        r@ == join_of(views(responses@), "\n\n---\n\n"@),
{
    join(responses, "\n\n---\n\n")
}

/// A marker in a listing.
pub open spec fn marker_line() -> spec_fn(KnowledgeMarker) -> Text {
    |m: KnowledgeMarker| "  ["@ + m.kind() + "] "@ + m.label() + "\n"@
}

/// What gathering markers is answered with: `responses` is how many answers of the session were
/// read, where its store was found.
pub open spec fn flush_report(responses: Option<usize>, markers: Seq<KnowledgeMarker>) -> Text {
    match responses {
        None => "VS Code session store not found. Ensure VS Code is installed and has been used. No markers extracted."@,
        Some(n) => if n == 0 {
            "No recent assistant responses found in session store. No markers extracted."@
        } else if markers.len() == 0 {
            "No CORTEX-* markers found in recent responses. Write markers like [CORTEX-PATTERN: ...] to capture knowledge."@
        } else {
            "Extracted "@ + decimal_of(markers.len()) + " marker(s) from recent responses:\n"@
                + written_out(markers, marker_line())
                + "\nMarkers staged (not yet committed). Call closeout_session(inline_approve=true) with KNOWLEDGE COMMITTED to commit them."@
        },
    }
}

/// Answers which markers were gathered.
pub fn tool_flush_knowledge_markers(responses: Option<usize>, markers: &Vec<KnowledgeMarker>) -> (r:
    String)
    ensures
        r@ == flush_report(responses, markers@),
{
    match responses {
        None => "VS Code session store not found. Ensure VS Code is installed and has been used. No markers extracted.".to_owned(),
        Some(n) => {
            if n == 0 {
                return "No recent assistant responses found in session store. No markers extracted.".to_owned();
            }
            if markers.len() == 0 {
                return "No CORTEX-* markers found in recent responses. Write markers like [CORTEX-PATTERN: ...] to capture knowledge.".to_owned();
            }
            let mut out = "Extracted ".to_owned();
            out.append(count_text(markers.len()).as_str());
            out.append(" marker(s) from recent responses:\n");
            let line = |m: &KnowledgeMarker| -> (s: String)
                ensures
                    s@ == marker_line()(*m),
                {
                    let mut s = "  [".to_owned();
                    s.append(m.marker_type());
                    s.append("] ");
                    s.append(m.display_name().as_str());
                    s.append("\n");
                    s
                };
            out.append(write_all(markers, line, Ghost(marker_line())).as_str());
            out.append(
                "\nMarkers staged (not yet committed). Call closeout_session(inline_approve=true) with KNOWLEDGE COMMITTED to commit them.",
            );
            out
        },
    }
}

/// How a session is to be closed.
#[derive(Debug)]
pub struct CloseoutRequest {
    pub outcome_type: String,
    pub inline_approve: bool,
    pub error_text: Option<String>,
    pub diff_symbols: Option<String>,
}

/// An optional text of its own.
fn owned(s: Option<&str>) -> (r: Option<String>)
    ensures
        opt_text(r) == crate::json::opt_view(s),
{
    match s {
        Some(s) => Some(s.to_owned()),
        None => None,
    }
}

/// How the arguments of `closeout_session` ask for a session to be closed. Without the word of the
/// arguments nothing is approved.
pub fn closeout_request(args: &Json) -> (r: Result<CloseoutRequest, String>)
    ensures
        match args@.text_field("outcome_type"@) {
            None => r matches Err(e) && e@ == "missing `outcome_type`"@,
            Some(outcome) => {
                &&& r is Ok
                &&& r->Ok_0.outcome_type@ == outcome
                &&& r->Ok_0.inline_approve == (args@.bool_field("inline_approve"@) == Some(true))
                &&& opt_text(r->Ok_0.error_text) == args@.text_field("error_text"@)
                &&& opt_text(r->Ok_0.diff_symbols) == args@.text_field("diff_symbols"@)
            },
        },
{
    match args.str_at("outcome_type") {
        None => Err("missing `outcome_type`".to_owned()),
        Some(outcome) => Ok(
            CloseoutRequest {
                outcome_type: outcome.to_owned(),
                inline_approve: match args.bool_at("inline_approve") {
                    Some(b) => b,
                    None => false,
                },
                error_text: owned(args.str_at("error_text")),
                diff_symbols: owned(args.str_at("diff_symbols")),
            },
        ),
    }
}

/// A line with a count.
pub open spec fn count_line(n: usize, what: Text) -> Text {
    "  "@ + decimal_of(n as nat) + what
}

/// What was committed.
pub open spec fn committed_report(c: CloseoutResult) -> Text {
    let head = "✓ KNOWLEDGE COMMITTED — session closed.\n\nCommitted to Cortex DB:\n"@ + count_line(
        c.patterns_committed,
        " patterns\n"@,
    ) + count_line(c.anti_patterns_committed, " anti-patterns\n"@) + count_line(
        c.corrections_committed,
        " corrections\n"@,
    ) + count_line(c.adrs_committed, " ADRs\n"@) + count_line(
        c.prefs_notes_committed,
        " prefs notes\n"@,
    );
    if c.skill_candidates_staged > 0 {
        head + count_line(
            c.skill_candidates_staged,
            " skill candidates staged for Tier 2 consolidation\n"@,
        )
    } else {
        head
    }
}

/// What was staged.
pub open spec fn staged_report(c: CloseoutResult) -> Text {
    if c.markers_staged > 0 {
        "Session closed (staged mode).\n\n"@ + decimal_of(c.markers_staged as nat)
            + " markers staged (not committed).\nTo commit, call closeout_session again with inline_approve=true after user types KNOWLEDGE COMMITTED.\n"@
    } else {
        "Session closed (staged mode).\n\nNo markers found in recent responses. Write CORTEX-* markers to capture knowledge next session.\n"@
    }
}

/// A line that stands only where something was done.
pub open spec fn if_done(done: bool, line: Text) -> Text {
    if done {
        line
    } else {
        Seq::empty()
    }
}

/// The report of a session that was closed.
pub open spec fn closing_report(c: CloseoutResult, approved: bool, outcome: Text) -> Text {
    (if approved {
        committed_report(c)
    } else {
        staged_report(c)
    }) + "\nOutcome logged: "@ + outcome + " ("@ + (if c.outcome_logged {
        "✓"@
    } else {
        "failed"@
    }) + ")\n"@ + if_done(c.graph_snapshot_written, "Graph snapshot: ✓ written\n"@) + if_done(
        c.session_snapshot_written,
        "Session snapshot: ✓ written to .cortex/mined-tasks/\n"@,
    ) + if_done(c.mirror_written, "Mirror: ✓ written to .agent-memory/mirrors/repo/\n"@)
}

/// A line with a count.
fn write_count(n: usize, what: &str) -> (r: String)
    ensures
        r@ == count_line(n, what@),
{
    let mut s = "  ".to_owned();
    s.append(count_text(n).as_str());
    s.append(what);
    s
}

/// A line that stands only where something was done.
fn write_if(done: bool, line: &str) -> (r: String)
    ensures
        r@ == if_done(done, line@),
{
    if done {
        line.to_owned()
    } else {
        String::new()
    }
}

/// The report of a session that was closed.
pub fn tool_closeout_session(result: &CloseoutResult, inline_approve: bool, outcome_type: &str) -> (r:
    String)
    ensures
        r@ == closing_report(*result, inline_approve, outcome_type@),
{
    let mut out = String::new();
    if inline_approve {
        out =
        "✓ KNOWLEDGE COMMITTED — session closed.\n\nCommitted to Cortex DB:\n".to_owned();
        out.append(write_count(result.patterns_committed, " patterns\n").as_str());
        out.append(write_count(result.anti_patterns_committed, " anti-patterns\n").as_str());
        out.append(write_count(result.corrections_committed, " corrections\n").as_str());
        out.append(write_count(result.adrs_committed, " ADRs\n").as_str());
        out.append(write_count(result.prefs_notes_committed, " prefs notes\n").as_str());
        if result.skill_candidates_staged > 0 {
            let line = write_count(
                result.skill_candidates_staged,
                " skill candidates staged for Tier 2 consolidation\n",
            );
            out.append(line.as_str());
        }
    } else if result.markers_staged > 0 {
        out = "Session closed (staged mode).\n\n".to_owned();
        out.append(count_text(result.markers_staged).as_str());
        out.append(
            " markers staged (not committed).\nTo commit, call closeout_session again with inline_approve=true after user types KNOWLEDGE COMMITTED.\n",
        );
    } else {
        out =
        "Session closed (staged mode).\n\nNo markers found in recent responses. Write CORTEX-* markers to capture knowledge next session.\n".to_owned();
    }
    out.append("\nOutcome logged: ");
    out.append(outcome_type);
    out.append(" (");
    let word = if result.outcome_logged {
        "✓"
    } else {
        "failed"
    };
    out.append(word);
    out.append(")\n");
    out.append(write_if(result.graph_snapshot_written, "Graph snapshot: ✓ written\n").as_str());
    out.append(
        write_if(
            result.session_snapshot_written,
            "Session snapshot: ✓ written to .cortex/mined-tasks/\n",
        ).as_str(),
    );
    out.append(
        write_if(
            result.mirror_written,
            "Mirror: ✓ written to .agent-memory/mirrors/repo/\n",
        ).as_str(),
    );
    out
}

/// The pieces of a list, each trimmed.
pub open spec fn trimmed(list: Seq<Text>) -> Seq<Text> {
    list.map_values(|s: Text| trim_of(s))
}

/// The tools that a text names, set apart by commas; an empty text names none.
pub open spec fn tool_sequence_of(tools: Text) -> Seq<Text> {
    if tools.len() == 0 {
        Seq::empty()
    } else {
        trimmed(split_char_of(tools, ','))
    }
}

/// The tools that a text names.
pub fn tool_sequence(tools: &str) -> (r: Vec<String>)
    ensures
        views(r@) == tool_sequence_of(tools@),
{
    let mut out: Vec<String> = Vec::new();
    assert(views(out@) == Seq::<Text>::empty());
    if chars_of(tools).len() == 0 {
        return out;
    }
    let pieces = split_char(tools, ',');
    let ghost all = views(pieces@);
    let mut i: usize = 0;
    while i < pieces.len()
        invariant
            i <= pieces@.len() == all.len(),
            all == views(pieces@),
            views(out@) == trimmed(all.take(i as int)),
        decreases pieces@.len() - i,
    {
        let ghost before = out@;
        let t = trim(pieces[i].as_str());
        out.push(t);
        assert(views(out@) == views(before).push(t@));
        assert(all.take(i + 1) == all.take(i as int).push(all[i as int]));
        assert(trimmed(all.take(i + 1)) == trimmed(all.take(i as int)).push(t@));
        i = i + 1;
    }
    assert(all.take(i as int) == all);
    out
}

/// A skill that is to be drafted.
#[derive(Debug)]
pub struct SkillRequest {
    pub name: String,
    pub trigger: String,
    pub procedure: String,
    pub tools: Vec<String>,
}

/// The skill that the arguments of `propose_skill` ask for.
pub fn skill_request(args: &Json) -> (r: Result<SkillRequest, String>)
    ensures
        match (args@.text_field("name"@), args@.text_field("procedure"@)) {
            (None, _) => r matches Err(e) && e@ == "missing `name`"@,
            (_, None) => r matches Err(e) && e@ == "missing `procedure`"@,
            (Some(name), Some(procedure)) => {
                &&& r is Ok
                &&& r->Ok_0.name@ == name
                &&& r->Ok_0.procedure@ == procedure
                &&& r->Ok_0.trigger@ == text_or_of(args@, "trigger"@, ""@)
                &&& views(r->Ok_0.tools@) == tool_sequence_of(text_or_of(args@, "tools"@, ""@))
            },
        },
{
    let name = match args.str_at("name") {
        Some(s) => s,
        None => {
            return Err("missing `name`".to_owned());
        },
    };
    let procedure = match args.str_at("procedure") {
        Some(s) => s,
        None => {
            return Err("missing `procedure`".to_owned());
        },
    };
    Ok(
        SkillRequest {
            name: name.to_owned(),
            trigger: text_or(args, "trigger", "").to_owned(),
            procedure: procedure.to_owned(),
            tools: tool_sequence(text_or(args, "tools", "")),
        },
    )
}

/// Answers that a skill was drafted, or why it was not: `draft` is the path of the draft, or the
/// error.
pub fn tool_propose_skill(request: &SkillRequest, draft: Result<&str, &str>) -> (r: Result<
    String,
    String,
>)
    ensures
        match draft {
            Ok(path) => r matches Ok(s) && s@ == "Skill draft written: "@ + path@ + "\nName: "@
                + request.name@ + "\nTrigger: "@ + request.trigger@
                + "\nTo publish: cortex.ps1 skill-approve "@ + request.name@
                + "\nThe draft is in .cortex/proposals/ — review and edit before approving."@,
            Err(why) => r matches Err(s) && s@ == "failed to draft skill '"@ + request.name@ + "': "@
                + why@,
        },
{
    match draft {
        Ok(path) => {
            let mut s = "Skill draft written: ".to_owned();
            s.append(path);
            s.append("\nName: ");
            s.append(request.name.as_str());
            s.append("\nTrigger: ");
            s.append(request.trigger.as_str());
            s.append("\nTo publish: cortex.ps1 skill-approve ");
            s.append(request.name.as_str());
            s.append("\nThe draft is in .cortex/proposals/ — review and edit before approving.");
            Ok(s)
        },
        Err(why) => {
            let mut s = "failed to draft skill '".to_owned();
            s.append(request.name.as_str());
            s.append("': ");
            s.append(why);
            Err(s)
        },
    }
}

/// A session opens with the task, the first of it where it is long, and with the state of the
/// memory; where no task is given, that is told.
pub proof fn law_opening_tells_task_and_status(args: JsonView, status: Text)
    ensures
        ({
            let task = match args.text_field("task"@) {
                Some(t) => t,
                None => "unspecified task"@,
            };
            let report = opening_report(args, status);
            &&& task.len() <= 120 ==> contains_text(report, task + "\"\n\n"@ + status)
            &&& task.len() > 120 ==> contains_text(report, task.take(120) + "\"\n\n"@ + status)
            &&& contains_text(
                report,
                "\n\nPhase 0 required: call get_delta → get_preferences → get_anti_patterns → get_context\nWork tools are gated until Phase 0 is complete."@,
            )
        }),
{
    let shown = clip(text_or_of(args, "task"@, "unspecified task"@), 120);
    let open = "PROTOCOL session started — task: \""@;
    let phase =
        "\n\nPhase 0 required: call get_delta → get_preferences → get_anti_patterns → get_context\nWork tools are gated until Phase 0 is complete."@;
    let part = shown + "\"\n\n"@ + status;
    assert(opening_report(args, status) == open + part + phase);
    lemma_contains_middle(open, part, phase);
    lemma_contains_itself(phase);
    lemma_contains_half(open + part, phase, phase);
}

/// Every marker that was gathered is told with its kind and its name, behind their count, and as
/// not committed yet.
pub proof fn law_every_gathered_marker_is_told(n: usize, markers: Seq<KnowledgeMarker>, i: int)
    requires
        n > 0,
        0 <= i < markers.len(),
    ensures
        ({
            let report = flush_report(Some(n), markers);
            &&& contains_text(
                report,
                decimal_of(markers.len()) + " marker(s) from recent responses:\n"@,
            )
            &&& contains_text(
                report,
                "  ["@ + markers[i].kind() + "] "@ + markers[i].label() + "\n"@,
            )
            &&& contains_text(
                report,
                "\nMarkers staged (not yet committed). Call closeout_session(inline_approve=true) with KNOWLEDGE COMMITTED to commit them."@,
            )
        }),
{
    let last =
        "\nMarkers staged (not yet committed). Call closeout_session(inline_approve=true) with KNOWLEDGE COMMITTED to commit them."@;
    let count = decimal_of(markers.len()) + " marker(s) from recent responses:\n"@;
    let listing = written_out(markers, marker_line());
    let report = flush_report(Some(n), markers);
    assert(report == "Extracted "@ + count + (listing + last));
    lemma_contains_middle("Extracted "@, count, listing + last);
    lemma_written_out_holds(markers, marker_line(), i);
    let line = marker_line()(markers[i]);
    assert(report == ("Extracted "@ + count) + listing + last);
    lemma_contains_half("Extracted "@ + count, listing, line);
    lemma_contains_half("Extracted "@ + count + listing, last, line);
    lemma_contains_itself(last);
    lemma_contains_half("Extracted "@ + count + listing, last, last);
}

/// An approved closing tells how many of each kind were committed, and the skills that were staged
/// where there are any.
#[verifier::rlimit(60)]
pub proof fn law_approved_closing_tells_every_count(c: CloseoutResult, outcome: Text)
    ensures
        ({
            let report = closing_report(c, true, outcome);
            let skills = "  "@ + decimal_of(c.skill_candidates_staged as nat)
                + " skill candidates staged for Tier 2 consolidation\n"@;
            &&& ("✓ KNOWLEDGE COMMITTED — session closed.\n\nCommitted to Cortex DB:\n"@ + "  "@
                + decimal_of(c.patterns_committed as nat) + " patterns\n"@ + "  "@ + decimal_of(
                c.anti_patterns_committed as nat,
            ) + " anti-patterns\n"@ + "  "@ + decimal_of(c.corrections_committed as nat)
                + " corrections\n"@ + "  "@ + decimal_of(c.adrs_committed as nat) + " ADRs\n"@
                + "  "@ + decimal_of(c.prefs_notes_committed as nat) + " prefs notes\n"@
                + (if c.skill_candidates_staged > 0 {
                skills
            } else {
                Seq::<char>::empty()
            })).is_prefix_of(report)
        }),
{
    let first = "✓ KNOWLEDGE COMMITTED — session closed.\n\nCommitted to Cortex DB:\n"@;
    let skills = "  "@ + decimal_of(c.skill_candidates_staged as nat)
        + " skill candidates staged for Tier 2 consolidation\n"@;
    let counts = first + "  "@ + decimal_of(c.patterns_committed as nat) + " patterns\n"@ + "  "@
        + decimal_of(c.anti_patterns_committed as nat) + " anti-patterns\n"@ + "  "@ + decimal_of(
        c.corrections_committed as nat,
    ) + " corrections\n"@ + "  "@ + decimal_of(c.adrs_committed as nat) + " ADRs\n"@ + "  "@
        + decimal_of(c.prefs_notes_committed as nat) + " prefs notes\n"@ + (if c.skill_candidates_staged
        > 0 {
        skills
    } else {
        Seq::<char>::empty()
    });
    assert(committed_report(c) == counts);
    lemma_closing_begins(c, true, outcome);
}

/// A text behind which others are written begins with itself and ends with those.
#[verifier::rlimit(60)]
proof fn lemma_written_behind(
    head: Text,
    a: Text,
    b: Text,
    c: Text,
    d: Text,
    e: Text,
    f: Text,
    g: Text,
    h: Text,
)
    ensures
        head.is_prefix_of(head + a + b + c + d + e + f + g + h),
        (a + b + (c + d + e) + f + g + h).is_suffix_of(head + a + b + c + d + e + f + g + h),
{
    let tail = a + b + (c + d + e) + f + g + h;
    let whole = head + a + b + c + d + e + f + g + h;
    assert(whole =~= head + tail);
    assert(whole.subrange(0, head.len() as int) =~= head);
    assert(whole.subrange(whole.len() - tail.len(), whole.len() as int) =~= tail);
}

/// A report begins with what became of the markers.
proof fn lemma_closing_begins(c: CloseoutResult, approved: bool, outcome: Text)
    ensures
        approved ==> committed_report(c).is_prefix_of(closing_report(c, approved, outcome)),
        !approved ==> staged_report(c).is_prefix_of(closing_report(c, approved, outcome)),
{
    let head = if approved {
        committed_report(c)
    } else {
        staged_report(c)
    };
    lemma_written_behind(
        head,
        "\nOutcome logged: "@,
        outcome,
        " ("@,
        if c.outcome_logged {
            "✓"@
        } else {
            "failed"@
        },
        ")\n"@,
        if_done(c.graph_snapshot_written, "Graph snapshot: ✓ written\n"@),
        if_done(
            c.session_snapshot_written,
            "Session snapshot: ✓ written to .cortex/mined-tasks/\n"@,
        ),
        if_done(c.mirror_written, "Mirror: ✓ written to .agent-memory/mirrors/repo/\n"@),
    );
}

/// A closing without approval says that nothing is committed: how many markers are staged, or that
/// there are none.
pub proof fn law_staged_closing_commits_nothing(c: CloseoutResult, outcome: Text)
    ensures
        ({
            let report = closing_report(c, false, outcome);
            &&& c.markers_staged > 0 ==> ("Session closed (staged mode).\n\n"@ + decimal_of(
                c.markers_staged as nat,
            )
                + " markers staged (not committed).\nTo commit, call closeout_session again with inline_approve=true after user types KNOWLEDGE COMMITTED.\n"@).is_prefix_of(
            report)
            &&& c.markers_staged == 0
                ==> "Session closed (staged mode).\n\nNo markers found in recent responses. Write CORTEX-* markers to capture knowledge next session.\n"@.is_prefix_of(
            report)
        }),
{
    lemma_closing_begins(c, false, outcome);
}

/// Every closing tells its outcome and whether that was logged, and each thing that was written, and
/// no other, in turn.
#[verifier::rlimit(60)]
pub proof fn law_closing_tells_what_was_written(c: CloseoutResult, approved: bool, outcome: Text)
    ensures
        ({
            let tail = "\nOutcome logged: "@ + outcome + (if c.outcome_logged {
                " ("@ + "✓"@ + ")\n"@
            } else {
                " ("@ + "failed"@ + ")\n"@
            }) + (if c.graph_snapshot_written {
                "Graph snapshot: ✓ written\n"@
            } else {
                Seq::<char>::empty()
            }) + (if c.session_snapshot_written {
                "Session snapshot: ✓ written to .cortex/mined-tasks/\n"@
            } else {
                Seq::<char>::empty()
            }) + (if c.mirror_written {
                "Mirror: ✓ written to .agent-memory/mirrors/repo/\n"@
            } else {
                Seq::<char>::empty()
            });
            tail.is_suffix_of(closing_report(c, approved, outcome))
        }),
{
    let head = if approved {
        committed_report(c)
    } else {
        staged_report(c)
    };
    lemma_written_behind(
        head,
        "\nOutcome logged: "@,
        outcome,
        " ("@,
        if c.outcome_logged {
            "✓"@
        } else {
            "failed"@
        },
        ")\n"@,
        if_done(c.graph_snapshot_written, "Graph snapshot: ✓ written\n"@),
        if_done(
            c.session_snapshot_written,
            "Session snapshot: ✓ written to .cortex/mined-tasks/\n"@,
        ),
        if_done(c.mirror_written, "Mirror: ✓ written to .agent-memory/mirrors/repo/\n"@),
    );
}

/// Tools are named one by one: what stands before a comma is trimmed and comes first, and an empty
/// text names none.
pub proof fn law_tools_are_named_between_commas(tool: Text, rest: Text)
    requires
        forall|i: int| 0 <= i < tool.len() ==> #[trigger] tool[i] != ',',
    ensures
        tool_sequence_of(Seq::empty()).len() == 0,
        tool.len() > 0 ==> tool_sequence_of(tool) == seq![trim_of(tool)],
        rest.len() > 0 ==> tool_sequence_of(tool.push(',') + rest) == seq![trim_of(tool)]
            + tool_sequence_of(rest),
{
    crate::text::law_pieces_are_split_one_by_one(tool, ',', rest);
    let one = seq![tool];
    assert(trimmed(one) == seq![trim_of(tool)]);
    assert(trimmed(one + split_char_of(rest, ',')) == seq![trim_of(tool)] + trimmed(
        split_char_of(rest, ','),
    ));
}

} // verus!
