//! The tool that refines a hypothesis in loops.

use crate::json::{Json, JsonView};
use crate::lists::{lemma_written_out_holds, written_out};
use crate::mcp::graph_tools::low_byte;
use crate::mcp::reply::{number_or, number_or_of, text_or, text_or_of};
use crate::numbers::{decimal, decimal_of};
use crate::rates::Ratio;
use crate::reasoner::recurrent::{
    confidence_of, critiques_of, halt_prompt, halt_reason_of, refine_prompt, run_recurrent_loop,
    RecurrentContext,
};
use crate::reasoner::scratchpad::{HypothesisView, PadView, Scratchpad};
use crate::reasoner::simulator::pairs;
use crate::text::{
    contains_text, lemma_contains_half, lemma_contains_middle, opt_text, same, views, Text,
};
use vstd::prelude::*;

verus! {

/// No mode allows more loops than this.
pub const LOOP_CAP: u64 = 16;

/// How many loops the arguments allow: two where they are to be shallow, else what they ask for,
/// or twelve where they are to be deep and six where not, but never more than the cap.
pub open spec fn loops_of(args: JsonView) -> nat {
    let mode = text_or_of(args, "depth_mode"@, "auto"@);
    if mode == "shallow"@ {
        2
    } else {
        let wanted = number_or_of(
            args,
            "max_loops"@,
            if mode == "deep"@ {
                12
            } else {
                6
            },
        );
        if wanted < LOOP_CAP {
            wanted
        } else {
            LOOP_CAP as nat
        }
    }
}

/// How many loops the arguments allow.
pub fn max_loops(args: &Json) -> (r: u8)
    ensures
        r as nat == loops_of(args@),
        r <= LOOP_CAP,
{
    let mode = text_or(args, "depth_mode", "auto");
    if same(mode, "shallow") {
        return 2;
    }
    let default: u64 = if same(mode, "deep") {
        12
    } else {
        6
    };
    let wanted = number_or(args, "max_loops", default);
    if wanted < LOOP_CAP {
        wanted as u8
    } else {
        16
    }
}

/// The pad for a task on which nothing stands yet.
pub open spec fn empty_pad(task: Text, session_key: Option<Text>) -> PadView {
    PadView {
        task,
        session_key,
        hypotheses: Seq::empty(),
        critiques: Seq::empty(),
        loop_index: 0,
        confidence: Ratio { num: 0, den: 1 },
        halt_reason: None,
    }
}

/// A pad with one more hypothesis, put forward in the loop `at`.
pub open spec fn put_forward(pad: PadView, at: u8, hypothesis: Text) -> PadView {
    PadView { hypotheses: pad.hypotheses.push((at, hypothesis)), loop_index: at, ..pad }
}

/// The loop behind the loop `at`.
pub open spec fn loop_behind(at: u8) -> u8 {
    if at == u8::MAX {
        at
    } else {
        (at + 1) as u8
    }
}

/// The pad on which a step of thinking starts, given the pad that was kept. A hypothesis in the
/// arguments comes behind those on the pad, in the loop that the arguments name or else in the
/// next one; where there is none at all, the task itself makes the first.
pub open spec fn start_of(args: JsonView, task: Text, stored: Option<PadView>) -> PadView {
    let pad = match stored {
        Some(p) => p,
        None => empty_pad(task, args.text_field("session_key"@)),
    };
    let named = (number_or_of(args, "loop"@, 0) % 256) as u8;
    match args.text_field("hypothesis"@) {
        Some(h) => put_forward(
            pad,
            if named == 0 {
                loop_behind(pad.loop_index)
            } else {
                named
            },
            h,
        ),
        None => if pad.hypotheses.len() == 0 {
            put_forward(pad, 1, "Initial hypothesis for task: "@ + task)
        } else {
            pad
        },
    }
}

/// The last two hypotheses say the same.
pub open spec fn settled(said: Seq<HypothesisView>) -> bool {
    said.len() >= 2 && said[said.len() - 1].1 == said[said.len() - 2].1
}

/// A critique in the report.
pub open spec fn critique_line() -> spec_fn(Text) -> Text {
    |c: Text| "  • "@ + c + "\n"@
}

/// The report of a step of thinking.
pub open spec fn thinking_report(
    at: u8,
    confidence: Ratio,
    mode: Text,
    critiques: Seq<Text>,
    reason: Option<Text>,
    prompt: Text,
) -> Text {
    let head = "=== RECURRENT THINKING (Loop "@ + decimal_of(at as nat) + ") ===\n\nConfidence: "@
        + confidence.percent_text_of() + "%\nDepth Mode: "@ + mode + "\nContinue: "@
        + if reason is None {
        "true"@
    } else {
        "false"@
    } + "\n\n"@;
    let listed = if critiques.len() == 0 {
        head
    } else {
        head + "Critiques:\n"@ + written_out(critiques, critique_line()) + "\n"@
    };
    let halted = match reason {
        Some(why) => listed + "HALTED: "@ + why + "\n\n"@,
        None => listed,
    };
    halted + "Next Prompt:\n"@ + prompt
}

/// The critiques in the report.
fn write_critiques(list: &Vec<String>) -> (r: String)
    ensures
        r@ == written_out(views(list@), critique_line()),
{
    let ghost all = views(list@);
    let mut out = String::new();
    let mut i: usize = 0;
    while i < list.len()
        invariant
            i <= list@.len() == all.len(),
            all == views(list@),
            out@ == written_out(all.take(i as int), critique_line()),
        decreases list@.len() - i,
    {
        let mut line = "  • ".to_owned();
        line.append(list[i].as_str());
        line.append("\n");
        out.append(line.as_str());
        assert(all.take(i + 1).drop_last() == all.take(i as int));
        assert(all.take(i + 1).last() == list@[i as int]@);
        i = i + 1;
    }
    assert(all.take(i as int) == all);
    out
}

/// The report of a step of thinking.
pub fn render_thinking(context: &RecurrentContext, mode: &str) -> (r: String)
    requires
        context.confidence.is_share(),
        context.should_continue == (context.halt_reason is None),
    ensures
        r@ == thinking_report(
            context.loop_index,
            context.confidence,
            mode@,
            views(context.critiques@),
            opt_text(context.halt_reason),
            context.next_prompt@,
        ),
{
    let mut out = "=== RECURRENT THINKING (Loop ".to_owned();
    out.append(decimal(context.loop_index as u64).as_str());
    out.append(") ===\n\nConfidence: ");
    out.append(context.confidence.percent_text().as_str());
    out.append("%\nDepth Mode: ");
    out.append(mode);
    out.append("\nContinue: ");
    let goes_on = if context.should_continue {
        "true"
    } else {
        "false"
    };
    out.append(goes_on);
    out.append("\n\n");
    if context.critiques.len() > 0 {
        out.append("Critiques:\n");
        out.append(write_critiques(&context.critiques).as_str());
        out.append("\n");
    }
    if let Some(why) = &context.halt_reason {
        out.append("HALTED: ");
        out.append(why.as_str());
        out.append("\n\n");
    }
    out.append("Next Prompt:\n");
    out.append(context.next_prompt.as_str());
    out
}

/// The pad on which the step starts.
fn prepare_pad(args: &Json, task: &str, stored: Option<Scratchpad>) -> (r: Scratchpad)
    ensures
        r@ == start_of(args@, task@, pad_view(stored)),
        r.hypotheses@.len() > 0,
{
    let mut pad = match stored {
        Some(p) => p,
        None => {
            let p = Scratchpad::new(task, args.str_at("session_key"));
            assert(p@ == empty_pad(task@, args@.text_field("session_key"@)));
            p
        },
    };
    let ghost before = pad;
    assert(before@.hypotheses.len() == before.hypotheses@.len());
    match args.str_at("hypothesis") {
        Some(h) => {
            let named = low_byte(number_or(args, "loop", 0));
            let at = if named != 0 {
                named
            } else if pad.loop_index == u8::MAX {
                u8::MAX
            } else {
                pad.loop_index + 1
            };
            let _ = pad.add_hypothesis(at, h);
            assert(pad.hypotheses@ == before.hypotheses@.push(pad.hypotheses@.last()));
            assert(pad@ == put_forward(before@, at, h@));
        },
        None => {
            if pad.hypotheses.len() == 0 {
                let mut seed = "Initial hypothesis for task: ".to_owned();
                seed.append(task);
                let _ = pad.add_hypothesis(1, seed.as_str());
                assert(pad.hypotheses@ == before.hypotheses@.push(pad.hypotheses@.last()));
                assert(pad@ == put_forward(before@, 1, seed@));
            }
        },
    }
    pad
}

/// The model of a pad that may be missing.
pub open spec fn pad_view(pad: Option<Scratchpad>) -> Option<PadView> {
    match pad {
        Some(p) => Some(p@),
        None => None,
    }
}

/// What a step of thinking answers, and the pad that it leaves behind.
pub open spec fn thought_of(
    args: JsonView,
    task: Text,
    stored: Option<PadView>,
    anti_patterns: Seq<(Text, Text)>,
    conflicts: Seq<(Text, Text)>,
    checks: int,
) -> (Text, PadView) {
    let start = start_of(args, task, stored);
    let found = critiques_of(start.hypotheses.last().1, anti_patterns, conflicts);
    let confidence = confidence_of(found.len() as int, checks);
    let reason = halt_reason_of(
        confidence,
        start.loop_index,
        loops_of(args) as u8,
        settled(start.hypotheses),
    );
    let at = if start.loop_index == 0 {
        1u8
    } else {
        start.loop_index
    };
    let prompt = match reason {
        Some(why) => halt_prompt(why),
        None => refine_prompt(confidence, at + 1, found),
    };
    (
        thinking_report(
            at,
            confidence,
            text_or_of(args, "depth_mode"@, "auto"@),
            found,
            reason,
            prompt,
        ),
        PadView {
            critiques: start.critiques + found,
            confidence,
            halt_reason: match reason {
                Some(why) => Some(why),
                None => start.halt_reason,
            },
            ..start
        },
    )
}

/// Answers with one step of thinking, and gives the pad to be kept for the next. `stored` is the
/// pad that was kept, `anti_patterns` and `conflicts` are what hypotheses are held against, and the
/// two counts say how many of each are on record.
pub fn tool_recurrent_think(
    args: &Json,
    stored: Option<Scratchpad>,
    anti_patterns: &Vec<(String, String)>,
    conflicts: &Vec<(String, String)>,
    anti_pattern_checks: u64,
    conflict_checks: u64,
) -> (r: Result<(String, Scratchpad), String>)
    requires
        anti_pattern_checks + conflict_checks <= u64::MAX,
    ensures
        match args@.text_field("task"@) {
            None => r is Err && r->Err_0@ == "missing `task`"@,
            Some(task) => r is Ok && (r->Ok_0.0@, r->Ok_0.1@) == thought_of(
                args@,
                task,
                pad_view(stored),
                pairs(anti_patterns@),
                pairs(conflicts@),
                anti_pattern_checks + conflict_checks,
            ),
        },
{
    let task = match args.str_at("task") {
        Some(s) => s,
        None => {
            return Err("missing `task`".to_owned());
        },
    };
    let mode = text_or(args, "depth_mode", "auto");
    let loops = max_loops(args);
    let mut pad = prepare_pad(args, task, stored);
    let ghost start = pad@;
    assert(start.hypotheses.last().1 == pad.hypotheses@.last().content@);
    assert(settled(start.hypotheses) == pad.stable());
    let at = if pad.loop_index == 0 {
        1u8
    } else {
        pad.loop_index
    };
    match run_recurrent_loop(
        &mut pad,
        anti_patterns,
        conflicts,
        anti_pattern_checks,
        conflict_checks,
        at,
        loops,
    ) {
        Err(e) => Err(e),
        Ok(context) => {
            let out = render_thinking(&context, mode);
            assert(pad@ == thought_of(
                args@,
                task@,
                pad_view(stored),
                pairs(anti_patterns@),
                pairs(conflicts@),
                anti_pattern_checks + conflict_checks,
            ).1);
            Ok((out, pad))
        },
    }
}

/// Thinking never takes back what stands on a pad: its task and its session stay, hypotheses and
/// critiques only come behind those that are there.
pub proof fn law_thinking_only_adds(
    args: JsonView,
    task: Text,
    stored: PadView,
    anti_patterns: Seq<(Text, Text)>,
    conflicts: Seq<(Text, Text)>,
    checks: int,
)
    ensures
        ({
            let after = thought_of(args, task, Some(stored), anti_patterns, conflicts, checks).1;
            &&& after.task == stored.task
            &&& after.session_key == stored.session_key
            &&& stored.hypotheses.is_prefix_of(after.hypotheses)
            &&& stored.critiques.is_prefix_of(after.critiques)
        }),
{
}

/// No arguments allow more loops than the cap.
pub proof fn law_loops_are_capped(args: JsonView)
    ensures
        loops_of(args) <= LOOP_CAP,
{
}

/// Shallow thinking has two loops, whatever else is asked. Else what is asked for counts up to the
/// cap of sixteen; without it there are twelve loops for deep thinking and six for any other.
pub proof fn law_depth_sets_the_loops(args: JsonView)
    ensures
        args.text_field("depth_mode"@) == Some("shallow"@) ==> loops_of(args) == 2,
        args.text_field("depth_mode"@) != Some("shallow"@) ==> match args.number_field("max_loops"@) {
            Some(n) => loops_of(args) <= n && loops_of(args) <= 16 && (loops_of(args) == n
                || loops_of(args) == 16),
            None => loops_of(args) == if args.text_field("depth_mode"@) == Some("deep"@) {
                12nat
            } else {
                6nat
            },
        },
{
    reveal_strlit("auto");
    reveal_strlit("shallow");
    reveal_strlit("deep");
    assert("auto"@.len() == 4 && "shallow"@.len() == 7);
    assert("auto"@[0] != "deep"@[0]);
}

/// A hypothesis that is handed in comes last, in the loop that is named, or in the next one where
/// none is; it stands alone where no pad was kept.
pub proof fn law_hypothesis_comes_last(args: JsonView, task: Text, stored: Option<PadView>, h: Text)
    requires
        args.text_field("hypothesis"@) == Some(h),
    ensures
        ({
            let pad = start_of(args, task, stored);
            let named = match args.number_field("loop"@) {
                Some(n) => n % 256,
                None => 0,
            };
            &&& pad.hypotheses.len() > 0
            &&& pad.hypotheses.last().1 == h
            &&& pad.hypotheses.last().0 == pad.loop_index
            &&& named != 0 ==> pad.loop_index == named
            &&& named == 0 && stored is None ==> pad.loop_index == 1
            &&& named == 0 && stored is Some && stored->0.loop_index < 255 ==> pad.loop_index
                == stored->0.loop_index + 1
            &&& stored is None ==> pad.hypotheses.len() == 1 && pad.task == task && pad.session_key
                == args.text_field("session_key"@)
            &&& stored is Some ==> pad.hypotheses.drop_last() == stored->0.hypotheses && pad.task
                == stored->0.task
        }),
{
    if stored is Some {
        let kept = stored->0.hypotheses;
        assert(start_of(args, task, stored).hypotheses.drop_last() == kept);
    }
}

/// Without a hypothesis a kept pad that has one is gone on with as it is; else the task makes the
/// first.
pub proof fn law_task_makes_the_first_hypothesis(args: JsonView, task: Text, stored: Option<PadView>)
    requires
        args.text_field("hypothesis"@) is None,
    ensures
        ({
            let pad = start_of(args, task, stored);
            &&& stored is Some && stored->0.hypotheses.len() > 0 ==> pad == stored->0
            &&& stored is None || stored->0.hypotheses.len() == 0 ==> pad.hypotheses == seq![
                (1u8, "Initial hypothesis for task: "@ + task),
            ] && pad.loop_index == 1
        }),
{
    if stored is None || stored->0.hypotheses.len() == 0 {
        let kept = match stored {
            Some(p) => p.hypotheses,
            None => Seq::empty(),
        };
        assert(kept.push((1u8, "Initial hypothesis for task: "@ + task)) == seq![
            (1u8, "Initial hypothesis for task: "@ + task),
        ]);
    }
}

/// The report tells the loop and the confidence, every critique, why the loop halts where it does,
/// and ends with the next prompt.
#[verifier::rlimit(60)]
pub proof fn law_thinking_is_told_whole(
    at: u8,
    confidence: Ratio,
    mode: Text,
    critiques: Seq<Text>,
    reason: Option<Text>,
    prompt: Text,
    i: int,
)
    ensures
        ({
            let report = thinking_report(at, confidence, mode, critiques, reason, prompt);
            &&& contains_text(
                report,
                decimal_of(at as nat) + ") ===\n\nConfidence: "@ + confidence.percent_text_of()
                    + "%\nDepth Mode: "@ + mode + "\nContinue: "@ + (if reason is None {
                    "true"@
                } else {
                    "false"@
                }),
            )
            &&& 0 <= i < critiques.len() ==> contains_text(report, "  • "@ + critiques[i] + "\n"@)
            &&& reason matches Some(why) ==> contains_text(report, "HALTED: "@ + why + "\n\n"@)
            &&& ("Next Prompt:\n"@ + prompt).is_suffix_of(report)
        }),
{
    let word = if reason is None {
        "true"@
    } else {
        "false"@
    };
    let open = "=== RECURRENT THINKING (Loop "@;
    let what = decimal_of(at as nat) + ") ===\n\nConfidence: "@ + confidence.percent_text_of()
        + "%\nDepth Mode: "@ + mode + "\nContinue: "@ + word;
    let lines = written_out(critiques, critique_line());
    let list = if critiques.len() == 0 {
        Seq::empty()
    } else {
        "Critiques:\n"@ + lines + "\n"@
    };
    let halt = match reason {
        Some(why) => "HALTED: "@ + why + "\n\n"@,
        None => Seq::empty(),
    };
    let next = "Next Prompt:\n"@ + prompt;
    let report = thinking_report(at, confidence, mode, critiques, reason, prompt);
    let head = open + what + "\n\n"@;
    lemma_report_parts(at, confidence, mode, critiques, reason, prompt);
    assert(report == head + list + halt + next);
    lemma_contains_middle(open, what, "\n\n"@);
    lemma_contains_half(head, list, what);
    lemma_contains_half(head + list, halt, what);
    lemma_contains_half(head + list + halt, next, what);
    if 0 <= i < critiques.len() {
        let line = critique_line()(critiques[i]);
        lemma_written_out_holds(critiques, critique_line(), i);
        lemma_contains_half("Critiques:\n"@, lines, line);
        lemma_contains_half("Critiques:\n"@ + lines, "\n"@, line);
        lemma_contains_half(head, list, line);
        lemma_contains_half(head + list, halt, line);
        lemma_contains_half(head + list + halt, next, line);
    }
    lemma_contains_middle(head + list, halt, next);
    assert(report.subrange(report.len() - next.len(), report.len() as int) =~= next);
}

/// The parts of which the report is made.
#[verifier::rlimit(60)]
proof fn lemma_report_parts(
    at: u8,
    confidence: Ratio,
    mode: Text,
    critiques: Seq<Text>,
    reason: Option<Text>,
    prompt: Text,
)
    ensures
        thinking_report(at, confidence, mode, critiques, reason, prompt) == (
        "=== RECURRENT THINKING (Loop "@ + (decimal_of(at as nat) + ") ===\n\nConfidence: "@
            + confidence.percent_text_of() + "%\nDepth Mode: "@ + mode + "\nContinue: "@ + (
        if reason is None {
            "true"@
        } else {
            "false"@
        })) + "\n\n"@) + (if critiques.len() == 0 {
            Seq::<char>::empty()
        } else {
            "Critiques:\n"@ + written_out(critiques, critique_line()) + "\n"@
        }) + (match reason {
            Some(why) => "HALTED: "@ + why + "\n\n"@,
            None => Seq::<char>::empty(),
        }) + ("Next Prompt:\n"@ + prompt),
{
    let word = if reason is None {
        "true"@
    } else {
        "false"@
    };
    let d = decimal_of(at as nat);
    let p = confidence.percent_text_of();
    let l = written_out(critiques, critique_line());
    let open = "=== RECURRENT THINKING (Loop "@;
    let head = open + d + ") ===\n\nConfidence: "@ + p + "%\nDepth Mode: "@ + mode
        + "\nContinue: "@ + word + "\n\n"@;
    assert(head =~= open + (d + ") ===\n\nConfidence: "@ + p + "%\nDepth Mode: "@ + mode
        + "\nContinue: "@ + word) + "\n\n"@);
    let list = if critiques.len() == 0 {
        Seq::<char>::empty()
    } else {
        "Critiques:\n"@ + l + "\n"@
    };
    let listed = if critiques.len() == 0 {
        head
    } else {
        head + "Critiques:\n"@ + l + "\n"@
    };
    assert(listed =~= head + list);
    let halt = match reason {
        Some(why) => "HALTED: "@ + why + "\n\n"@,
        None => Seq::<char>::empty(),
    };
    let halted = match reason {
        Some(why) => listed + "HALTED: "@ + why + "\n\n"@,
        None => listed,
    };
    assert(halted =~= listed + halt);
    assert(halted + "Next Prompt:\n"@ + prompt =~= halted + ("Next Prompt:\n"@ + prompt));
}

/// A step keeps what it found: its critiques come behind those on the pad, its confidence replaces
/// the one before, and a reason to halt stays noted once there is one.
pub proof fn law_step_keeps_what_it_found(
    args: JsonView,
    task: Text,
    stored: Option<PadView>,
    anti_patterns: Seq<(Text, Text)>,
    conflicts: Seq<(Text, Text)>,
    checks: int,
)
    ensures
        ({
            let start = start_of(args, task, stored);
            let found = critiques_of(start.hypotheses.last().1, anti_patterns, conflicts);
            let after = thought_of(args, task, stored, anti_patterns, conflicts, checks).1;
            &&& after.hypotheses == start.hypotheses
            &&& after.loop_index == start.loop_index
            &&& after.critiques == start.critiques + found
            &&& after.confidence == confidence_of(found.len() as int, checks)
            &&& start.halt_reason is Some ==> after.halt_reason is Some
            &&& halt_reason_of(
                after.confidence,
                start.loop_index,
                loops_of(args) as u8,
                start.hypotheses.len() >= 2 && start.hypotheses.last().1
                    == start.hypotheses[start.hypotheses.len() - 2].1,
            ) matches Some(why) ==> after.halt_reason == Some(why)
        }),
{
}

} // verus!
