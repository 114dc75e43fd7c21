//! Iterative refinement of a hypothesis: propose, critique, refine, assess, then halt or go on.

use crate::floats::{
    law_quotient_grows, lemma_rest_at_its_ends, lemma_rest_falls, quotient, quotient_of, rest,
    rest_of, SINGLE, SINGLE_PARTS,
};
use crate::numbers::{decimal, decimal_of};
use crate::rates::Ratio;
use crate::reasoner::scratchpad::Scratchpad;
use crate::reasoner::simulator::pairs;
use crate::text::{
    chars_of, contains, contains_text, find_part, join, join_of, lemma_contains_half,
    lemma_contains_itself, lemma_contains_middle, lemma_contains_through, lemma_find_from,
    lemma_join_holds, lowercase_of, occurs_at, opt_text, slice_text, views, Text,
};
use vstd::prelude::*;

verus! {

/// What one step of the loop found and decided.
#[derive(Debug, Clone)]
pub struct RecurrentContext {
    pub loop_index: u8,
    pub confidence: Ratio,
    pub critiques: Vec<String>,
    pub should_continue: bool,
    pub halt_reason: Option<String>,
    pub next_prompt: String,
}

/// A text, written small, that holds a word of negation.
pub open spec fn has_negation(low: Text) -> bool {
    ||| contains_text(low, "not "@)
    ||| contains_text(low, "n't "@)
    ||| contains_text(low, "avoid "@)
    ||| contains_text(low, "never "@)
    ||| contains_text(low, "instead of "@)
    ||| contains_text(low, "shouldn't "@)
    ||| contains_text(low, "should not "@)
    ||| contains_text(low, "don't "@)
    ||| contains_text(low, "do not "@)
    ||| contains_text(low, "without "@)
    ||| contains_text(low, "except "@)
    ||| contains_text(low, "skip "@)
    ||| contains_text(low, "omit "@)
}

/// How many characters before a match are looked at.
pub const NEGATION_WINDOW: usize = 30;

/// The characters before the position `at` that are looked at for a negation.
pub open spec fn negation_window(text: Text, at: int) -> Text {
    text.subrange(
        if at > NEGATION_WINDOW {
            at - NEGATION_WINDOW
        } else {
            0
        },
        at,
    )
}

/// What stands in `text` at the position `at` is negated by what stands before it.
pub open spec fn negated(text: Text, at: int) -> bool {
    has_negation(lowercase_of(negation_window(text, at)))
}

/// The hypothesis uses `wrong` at some place where nothing negates it.
pub open spec fn violates(hypothesis: Text, wrong: Text) -> bool {
    exists|at: int| #[trigger] occurs_at(hypothesis, wrong, at) && !negated(hypothesis, at)
}

/// The critique of a use of an anti-pattern.
pub open spec fn anti_pattern_critique(wrong: Text, right: Text) -> Text {
    "Anti-pattern detected: uses '"@ + wrong + "'. Should use '"@ + right + "' instead."@
}

/// The critique of two items that conflict.
pub open spec fn conflict_critique(from: Text, to: Text) -> Text {
    "Graph conflict: '"@ + from + "' and '"@ + to + "' marked as conflicting. Reconsider usage."@
}

/// The critiques of a hypothesis by anti-patterns, each a wrong and a right form.
pub open spec fn anti_pattern_critiques(hypothesis: Text, list: Seq<(Text, Text)>) -> Seq<Text>
    decreases list.len(),
{
    if list.len() == 0 {
        Seq::empty()
    } else {
        let start = anti_pattern_critiques(hypothesis, list.drop_last());
        if violates(hypothesis, list.last().0) {
            start.push(anti_pattern_critique(list.last().0, list.last().1))
        } else {
            start
        }
    }
}

/// The critiques of a hypothesis by pairs of items that conflict.
pub open spec fn conflict_critiques(hypothesis: Text, list: Seq<(Text, Text)>) -> Seq<Text>
    decreases list.len(),
{
    if list.len() == 0 {
        Seq::empty()
    } else {
        let start = conflict_critiques(hypothesis, list.drop_last());
        if contains_text(hypothesis, list.last().0) && contains_text(hypothesis, list.last().1) {
            start.push(conflict_critique(list.last().0, list.last().1))
        } else {
            start
        }
    }
}

/// All critiques of a hypothesis.
pub open spec fn critiques_of(
    hypothesis: Text,
    anti_patterns: Seq<(Text, Text)>,
    conflicts: Seq<(Text, Text)>,
) -> Seq<Text> {
    anti_pattern_critiques(hypothesis, anti_patterns) + conflict_critiques(hypothesis, conflicts)
}

/// Four fifths as a single-precision number, in parts of those that one has.
pub const MODERATE: u64 = 13_421_773;

/// The confidence that halts the loop, 0.92 as a single-precision number, in parts of those that
/// one has.
pub const SUFFICIENT: u32 = 15_435_039;

/// The confidence that `violations` violations among `checks` checks leave: one less the share of
/// checks that were violated, in single precision, or four fifths where there is nothing to check.
pub open spec fn confidence_of(violations: int, checks: int) -> Ratio {
    Ratio {
        num: if checks == 0 {
            MODERATE
        } else {
            rest_of(quotient_of(violations as nat, checks as nat, SINGLE as nat)) as u64
        },
        den: SINGLE_PARTS,
    }
}

/// Why the loop halts, if it does: the confidence suffices, the loops are used up, or the
/// hypothesis no longer changes.
pub open spec fn halt_reason_of(confidence: Ratio, at: u8, max_loops: u8, stable: bool) -> Option<
    Text,
> {
    if confidence.reaches(SUFFICIENT as int, SINGLE_PARTS as int) {
        Some("confidence threshold reached (≥0.92)"@)
    } else if at >= max_loops {
        Some("max loops ("@ + decimal_of(max_loops as nat) + ") reached"@)
    } else if stable {
        Some("hypothesis stable — no further refinement needed"@)
    } else {
        None
    }
}

/// The critiques as the items of a list.
pub open spec fn bullets(critiques: Seq<Text>) -> Seq<Text> {
    critiques.map_values(|c: Text| "  • "@ + c)
}

/// The first three critiques, or a word that there is none.
pub open spec fn critique_summary(critiques: Seq<Text>) -> Text {
    if critiques.len() == 0 {
        "No critiques found. Refine for completeness."@
    } else {
        "Address these issues:\n"@ + join_of(
            bullets(
                critiques.take(
                    if critiques.len() < 3 {
                        critiques.len() as int
                    } else {
                        3
                    },
                ),
            ),
            "\n"@,
        )
    }
}

/// The prompt for the loop `next_loop`.
pub open spec fn refine_prompt(confidence: Ratio, next_loop: int, critiques: Seq<Text>) -> Text {
    "Refine hypothesis (loop "@ + decimal_of(next_loop as nat) + "): Current confidence: "@
        + confidence.percent_text_of() + "%\n"@ + critique_summary(critiques)
        + "\n\nGenerate improved hypothesis:"@
}

/// The prompt that ends the loop.
pub open spec fn halt_prompt(reason: Text) -> Text {
    "HALT: "@ + reason + ". Final hypothesis ready."@
}

/// Whether what stands in `text` at the position `match_start` is negated by what stands before.
pub fn is_negated(text: &str, match_start: usize) -> (r: bool)
    requires
        match_start <= text@.len(),
    ensures
        r == negated(text@, match_start as int),
{
    let v = chars_of(text);
    let from: usize = if match_start > NEGATION_WINDOW {
        match_start - NEGATION_WINDOW
    } else {
        0
    };
    let low = slice_text(&v, from, match_start).as_str().to_lowercase();
    let low = low.as_str();
    contains(low, "not ") || contains(low, "n't ") || contains(low, "avoid ") || contains(
        low,
        "never ",
    ) || contains(low, "instead of ") || contains(low, "shouldn't ") || contains(low, "should not ")
        || contains(low, "don't ") || contains(low, "do not ") || contains(low, "without ")
        || contains(low, "except ") || contains(low, "skip ") || contains(low, "omit ")
}

/// Whether some occurrence of `wrong` in `hypothesis` is not negated.
fn has_plain_use(hypothesis: &str, wrong: &str) -> (r: bool)
    ensures
        r == violates(hypothesis@, wrong@),
{
    let v = chars_of(hypothesis);
    let p = chars_of(wrong);
    let mut from: usize = 0;
    loop
        invariant
            v@ == hypothesis@,
            p@ == wrong@,
            from <= v@.len(),
            forall|k: int|
                0 <= k < from && #[trigger] occurs_at(hypothesis@, wrong@, k) ==> negated(
                    hypothesis@,
                    k,
                ),
        decreases v@.len() - from,
    {
        proof {
            lemma_find_from(v@, p@, from as int);
        }
        match find_part(&v, &p, from) {
            Some(at) => {
                assert(occurs_at(hypothesis@, wrong@, at as int));
                if !is_negated(hypothesis, at) {
                    return true;
                }
                if at >= v.len() {
                    assert forall|k: int| #[trigger]
                        occurs_at(hypothesis@, wrong@, k) implies negated(hypothesis@, k) by {}
                    return false;
                }
                from = at + 1;
            },
            None => {
                return false;
            },
        }
    }
}

/// The critiques of a hypothesis by anti-patterns, each a wrong and a right form, and by pairs of
/// items that conflict. A wrong form is criticised where at least one of its uses is not negated.
pub fn critique_hypothesis(
    hypothesis: &str,
    anti_patterns: &Vec<(String, String)>,
    conflicts: &Vec<(String, String)>,
) -> (r: Vec<String>)
    ensures
        views(r@) == critiques_of(hypothesis@, pairs(anti_patterns@), pairs(conflicts@)),
{
    let ghost aps = pairs(anti_patterns@);
    let ghost cons = pairs(conflicts@);
    let mut out: Vec<String> = Vec::new();
    let mut i: usize = 0;
    assert(views(out@) == anti_pattern_critiques(hypothesis@, aps.take(0)));
    while i < anti_patterns.len()
        invariant
            i <= anti_patterns@.len() == aps.len(),
            aps == pairs(anti_patterns@),
            views(out@) == anti_pattern_critiques(hypothesis@, aps.take(i as int)),
        decreases anti_patterns@.len() - i,
    {
        let ghost before = out@;
        let wrong = anti_patterns[i].0.as_str();
        let right = anti_patterns[i].1.as_str();
        assert(aps.take(i + 1).drop_last() == aps.take(i as int));
        assert(aps.take(i + 1).last() == (wrong@, right@));
        if has_plain_use(hypothesis, wrong) {
            let mut s = "Anti-pattern detected: uses '".to_owned();
            s.append(wrong);
            s.append("'. Should use '");
            s.append(right);
            s.append("' instead.");
            out.push(s);
            assert(views(out@) == views(before).push(s@));
        }
        i = i + 1;
    }
    assert(aps.take(i as int) == aps);
    let ghost first = views(out@);
    let mut j: usize = 0;
    assert(conflict_critiques(hypothesis@, cons.take(0)) == Seq::<Text>::empty());
    assert(first + Seq::<Text>::empty() == first);
    while j < conflicts.len()
        invariant
            j <= conflicts@.len() == cons.len(),
            cons == pairs(conflicts@),
            views(out@) == first + conflict_critiques(hypothesis@, cons.take(j as int)),
        decreases conflicts@.len() - j,
    {
        let ghost before = out@;
        let from = conflicts[j].0.as_str();
        let to = conflicts[j].1.as_str();
        assert(cons.take(j + 1).drop_last() == cons.take(j as int));
        assert(cons.take(j + 1).last() == (from@, to@));
        if contains(hypothesis, from) && contains(hypothesis, to) {
            let mut s = "Graph conflict: '".to_owned();
            s.append(from);
            s.append("' and '");
            s.append(to);
            s.append("' marked as conflicting. Reconsider usage.");
            out.push(s);
            assert(views(out@) == views(before).push(s@));
            assert(views(out@) == first + conflict_critiques(
                hypothesis@,
                cons.take(j as int),
            ).push(s@));
        }
        j = j + 1;
    }
    assert(cons.take(j as int) == cons);
    out
}

/// The confidence that the critiques leave, measured against the number of anti-patterns and of
/// conflicts on record.
pub fn score_confidence(critiques: &Vec<String>, anti_pattern_checks: u64, conflict_checks: u64)
    -> (r: Ratio)
    requires
        anti_pattern_checks + conflict_checks <= u64::MAX,
    ensures
        r == confidence_of(critiques@.len() as int, anti_pattern_checks + conflict_checks),
        r.is_share(),
{
    let total = anti_pattern_checks + conflict_checks;
    if total == 0 {
        return Ratio { num: MODERATE, den: SINGLE_PARTS };
    }
    let share = quotient(critiques.len() as u64, total, SINGLE);
    Ratio { num: rest(share), den: SINGLE_PARTS }
}

/// Why the loop halts, if it does.
pub fn should_halt(scratchpad: &Scratchpad, max_loops: u8) -> (r: Option<String>)
    ensures
        opt_text(r) == halt_reason_of(
            scratchpad.confidence,
            scratchpad.loop_index,
            max_loops,
            scratchpad.stable(),
        ),
{
    if scratchpad.confidence.at_least(SUFFICIENT, SINGLE_PARTS as u32) {
        return Some("confidence threshold reached (≥0.92)".to_owned());
    }
    if scratchpad.loop_index >= max_loops {
        let mut s = "max loops (".to_owned();
        s.append(decimal(max_loops as u64).as_str());
        s.append(") reached");
        return Some(s);
    }
    if scratchpad.is_stable() {
        return Some("hypothesis stable — no further refinement needed".to_owned());
    }
    None
}

/// The prompt for the next loop.
pub fn generate_refine_prompt(scratchpad: &Scratchpad, next_loop: u8, critiques: &Vec<String>) -> (r:
    String)
    requires
        scratchpad.wf(),
    ensures
        r@ == refine_prompt(scratchpad.confidence, next_loop as int, views(critiques@)),
{
    let summary = if critiques.len() == 0 {
        "No critiques found. Refine for completeness.".to_owned()
    } else {
        let n: usize = if critiques.len() < 3 {
            critiques.len()
        } else {
            3
        };
        let ghost shown = bullets(views(critiques@).take(n as int));
        let mut top: Vec<String> = Vec::new();
        let mut i: usize = 0;
        while i < n
            invariant
                i <= n <= critiques@.len(),
                shown == bullets(views(critiques@).take(n as int)),
                views(top@) == shown.take(i as int),
            decreases n - i,
        {
            let ghost before = top@;
            let mut s = "  • ".to_owned();
            s.append(critiques[i].as_str());
            top.push(s);
            assert(views(top@) == views(before).push(s@));
            assert(shown.take(i + 1) == shown.take(i as int).push(shown[i as int]));
            i = i + 1;
        }
        assert(shown.take(i as int) == shown);
        let mut s = "Address these issues:\n".to_owned();
        s.append(join(&top, "\n").as_str());
        s
    };
    let mut out = "Refine hypothesis (loop ".to_owned();
    out.append(decimal(next_loop as u64).as_str());
    out.append("): Current confidence: ");
    out.append(scratchpad.confidence.percent_text().as_str());
    out.append("%\n");
    out.append(summary.as_str());
    out.append("\n\nGenerate improved hypothesis:");
    out
}

/// Runs one step of the loop: critiques the last hypothesis, scores the confidence, decides
/// whether to halt, and writes the next prompt. It fails exactly where there is no hypothesis.
pub fn run_recurrent_loop(
    scratchpad: &mut Scratchpad,
    anti_patterns: &Vec<(String, String)>,
    conflicts: &Vec<(String, String)>,
    anti_pattern_checks: u64,
    conflict_checks: u64,
    loop_index: u8,
    max_loops: u8,
) -> (r: Result<RecurrentContext, String>)
    requires
        anti_pattern_checks + conflict_checks <= u64::MAX,
        loop_index < u8::MAX || old(scratchpad).loop_index >= max_loops,
    ensures
        old(scratchpad).hypotheses@.len() == 0 ==> {
            &&& r matches Err(e) && e@ == "No hypothesis to critique"@
            &&& *final(scratchpad) == *old(scratchpad)
        },
        old(scratchpad).hypotheses@.len() > 0 ==> {
            let found = critiques_of(
                old(scratchpad).hypotheses@.last().content@,
                pairs(anti_patterns@),
                pairs(conflicts@),
            );
            let confidence = confidence_of(
                found.len() as int,
                anti_pattern_checks + conflict_checks,
            );
            let reason = halt_reason_of(
                confidence,
                old(scratchpad).loop_index,
                max_loops,
                old(scratchpad).stable(),
            );
            &&& r is Ok
            &&& r->Ok_0.loop_index == loop_index
            &&& r->Ok_0.confidence == confidence
            &&& views(r->Ok_0.critiques@) == found
            &&& r->Ok_0.should_continue == (reason is None)
            &&& opt_text(r->Ok_0.halt_reason) == reason
            &&& r->Ok_0.next_prompt@ == match reason {
                Some(why) => halt_prompt(why),
                None => refine_prompt(confidence, loop_index + 1, found),
            }
            &&& final(scratchpad).wf()
            &&& final(scratchpad).task == old(scratchpad).task
            &&& final(scratchpad).session_key == old(scratchpad).session_key
            &&& final(scratchpad).hypotheses == old(scratchpad).hypotheses
            &&& final(scratchpad).loop_index == old(scratchpad).loop_index
            &&& views(final(scratchpad).critiques@) == views(old(scratchpad).critiques@) + found
            &&& final(scratchpad).confidence == confidence
            &&& opt_text(final(scratchpad).halt_reason) == match reason {
                Some(why) => Some(why),
                None => opt_text(old(scratchpad).halt_reason),
            }
        },
{
    let n = scratchpad.hypotheses.len();
    if n == 0 {
        return Err("No hypothesis to critique".to_owned());
    }
    let hypothesis = scratchpad.hypotheses[n - 1].content.clone();
    let critiques = critique_hypothesis(hypothesis.as_str(), anti_patterns, conflicts);
    let ghost found = views(critiques@);
    let mut i: usize = 0;
    assert(views(old(scratchpad).critiques@) + found.take(0) == views(old(scratchpad).critiques@));
    while i < critiques.len()
        invariant
            i <= critiques@.len(),
            found == views(critiques@),
            views(scratchpad.critiques@) == views(old(scratchpad).critiques@) + found.take(
                i as int,
            ),
            scratchpad.task == old(scratchpad).task,
            scratchpad.session_key == old(scratchpad).session_key,
            scratchpad.hypotheses == old(scratchpad).hypotheses,
            scratchpad.loop_index == old(scratchpad).loop_index,
            scratchpad.halt_reason == old(scratchpad).halt_reason,
        decreases critiques@.len() - i,
    {
        scratchpad.add_critique(critiques[i].as_str());
        assert(found.take(i + 1) == found.take(i as int).push(found[i as int]));
        assert(views(old(scratchpad).critiques@) + found.take(i as int).push(found[i as int])
            == (views(old(scratchpad).critiques@) + found.take(i as int)).push(found[i as int]));
        i = i + 1;
    }
    assert(found.take(i as int) == found);
    assert(found.len() == critiques@.len());
    let confidence = score_confidence(&critiques, anti_pattern_checks, conflict_checks);
    scratchpad.set_confidence(confidence);
    let halt = should_halt(scratchpad, max_loops);
    match halt {
        Some(reason) => {
            scratchpad.set_halted(reason.as_str());
            let mut prompt = "HALT: ".to_owned();
            prompt.append(reason.as_str());
            prompt.append(". Final hypothesis ready.");
            Ok(
                RecurrentContext {
                    loop_index,
                    confidence,
                    critiques,
                    should_continue: false,
                    halt_reason: Some(reason),
                    next_prompt: prompt,
                },
            )
        },
        None => {
            let prompt = generate_refine_prompt(scratchpad, loop_index + 1, &critiques);
            Ok(
                RecurrentContext {
                    loop_index,
                    confidence,
                    critiques,
                    should_continue: true,
                    halt_reason: None,
                    next_prompt: prompt,
                },
            )
        },
    }
}

/// One use of a wrong form that is not negated is enough for a violation, whatever is negated
/// elsewhere.
pub proof fn law_plain_use_is_a_violation(hypothesis: Text, wrong: Text, at: int)
    requires
        occurs_at(hypothesis, wrong, at),
        !negated(hypothesis, at),
    ensures
        violates(hypothesis, wrong),
{
}

/// A hypothesis that negates every use of a wrong form, or does not use it, is not criticised for
/// it.
pub proof fn law_negated_uses_are_no_violation(hypothesis: Text, wrong: Text)
    requires
        forall|at: int| #[trigger] occurs_at(hypothesis, wrong, at) ==> negated(hypothesis, at),
    ensures
        !violates(hypothesis, wrong),
{
}

/// A wrong form that a hypothesis violates is one that it holds.
pub proof fn law_violation_is_a_use(hypothesis: Text, wrong: Text)
    requires
        violates(hypothesis, wrong),
    ensures
        contains_text(hypothesis, wrong),
{
}

/// The confidence lies between nothing and certainty, and more violations never raise it.
pub proof fn law_confidence_falls_with_violations(a: int, b: int, checks: int)
    requires
        0 <= a <= b,
        0 <= checks <= u64::MAX,
    ensures
        confidence_of(a, checks).is_share(),
        confidence_of(b, checks).is_share(),
        confidence_of(a, checks).reaches(
            confidence_of(b, checks).num as int,
            confidence_of(b, checks).den as int,
        ),
{
    if checks > 0 {
        let f = quotient_of(a as nat, checks as nat, SINGLE as nat);
        let g = quotient_of(b as nat, checks as nat, SINGLE as nat);
        law_quotient_grows(a as nat, b as nat, checks as nat, SINGLE as nat);
        lemma_rest_falls(f, g);
    }
}

/// The loop ends: once the loops are used up it halts, whatever else holds.
pub proof fn law_loop_ends(confidence: Ratio, at: u8, max_loops: u8, stable: bool)
    requires
        at >= max_loops,
    ensures
        halt_reason_of(confidence, at, max_loops, stable) is Some,
{
}

/// A pair of items that conflict is told just where the hypothesis holds both: one more pair adds
/// one critique, which names the two, where it does, and none where it lacks either.
pub proof fn law_conflict_is_told_where_both_are_used(
    hypothesis: Text,
    anti_patterns: Seq<(Text, Text)>,
    conflicts: Seq<(Text, Text)>,
    from: Text,
    to: Text,
)
    ensures
        contains_text(hypothesis, from) && contains_text(hypothesis, to) ==> critiques_of(
            hypothesis,
            anti_patterns,
            conflicts.push((from, to)),
        ) == critiques_of(hypothesis, anti_patterns, conflicts).push(
            "Graph conflict: '"@ + from + "' and '"@ + to
                + "' marked as conflicting. Reconsider usage."@,
        ),
        !contains_text(hypothesis, from) || !contains_text(hypothesis, to) ==> critiques_of(
            hypothesis,
            anti_patterns,
            conflicts.push((from, to)),
        ) == critiques_of(hypothesis, anti_patterns, conflicts),
{
    assert(conflicts.push((from, to)).drop_last() == conflicts);
    let a = anti_pattern_critiques(hypothesis, anti_patterns);
    let c = conflict_critiques(hypothesis, conflicts);
    assert(a + c.push(conflict_critique(from, to)) == (a + c).push(conflict_critique(from, to)));
}

/// An anti-pattern is told just where the hypothesis uses its wrong form at some place that nothing
/// negates: one more anti-pattern adds one critique there, which names the wrong form and the right
/// one, and none elsewhere.
pub proof fn law_anti_pattern_is_told_where_it_is_used(
    hypothesis: Text,
    anti_patterns: Seq<(Text, Text)>,
    wrong: Text,
    right: Text,
)
    ensures
        (exists|at: int| #[trigger] occurs_at(hypothesis, wrong, at) && !negated(hypothesis, at))
            ==> critiques_of(hypothesis, anti_patterns.push((wrong, right)), Seq::empty())
            == critiques_of(hypothesis, anti_patterns, Seq::empty()).push(
            "Anti-pattern detected: uses '"@ + wrong + "'. Should use '"@ + right + "' instead."@,
        ),
        (forall|at: int| #[trigger] occurs_at(hypothesis, wrong, at) ==> negated(hypothesis, at))
            ==> critiques_of(hypothesis, anti_patterns.push((wrong, right)), Seq::empty())
            == critiques_of(hypothesis, anti_patterns, Seq::empty()),
{
    let more = anti_patterns.push((wrong, right));
    assert(more.drop_last() == anti_patterns);
    let none = Seq::<(Text, Text)>::empty();
    let a = anti_pattern_critiques(hypothesis, anti_patterns);
    let b = anti_pattern_critiques(hypothesis, more);
    assert(conflict_critiques(hypothesis, none).len() == 0);
    assert(a + conflict_critiques(hypothesis, none) == a);
    assert(b + conflict_critiques(hypothesis, none) == b);
}

/// The critiques by anti-patterns come first, those by conflicts behind them; without either there
/// is none.
pub proof fn law_anti_patterns_are_told_first(
    hypothesis: Text,
    anti_patterns: Seq<(Text, Text)>,
    conflicts: Seq<(Text, Text)>,
)
    ensures
        critiques_of(hypothesis, anti_patterns, conflicts) == critiques_of(
            hypothesis,
            anti_patterns,
            Seq::empty(),
        ) + critiques_of(hypothesis, Seq::empty(), conflicts),
        critiques_of(hypothesis, Seq::empty(), Seq::empty()).len() == 0,
{
    let none = Seq::<(Text, Text)>::empty();
    let a = anti_pattern_critiques(hypothesis, anti_patterns);
    let c = conflict_critiques(hypothesis, conflicts);
    assert(anti_pattern_critiques(hypothesis, none) + c == c);
    assert(a + conflict_critiques(hypothesis, none) == a);
}

/// Every critique of a hypothesis by conflicts is that of a pair of which it holds both items.
pub proof fn law_every_conflict_told_is_a_conflict(
    hypothesis: Text,
    conflicts: Seq<(Text, Text)>,
    i: int,
)
    requires
        0 <= i < critiques_of(hypothesis, Seq::empty(), conflicts).len(),
    ensures
        exists|k: int|
            0 <= k < conflicts.len() && contains_text(hypothesis, (#[trigger] conflicts[k]).0)
                && contains_text(hypothesis, conflicts[k].1) && critiques_of(
                hypothesis,
                Seq::empty(),
                conflicts,
            )[i] == "Graph conflict: '"@ + conflicts[k].0 + "' and '"@ + conflicts[k].1
                + "' marked as conflicting. Reconsider usage."@,
    decreases conflicts.len(),
{
    let none = Seq::<(Text, Text)>::empty();
    let all = conflict_critiques(hypothesis, conflicts);
    assert(critiques_of(hypothesis, none, conflicts) == all);
    let start = conflicts.drop_last();
    let before = conflict_critiques(hypothesis, start);
    assert(critiques_of(hypothesis, none, start) == before);
    if i < before.len() {
        law_every_conflict_told_is_a_conflict(hypothesis, start, i);
        let k = choose|k: int|
            0 <= k < start.len() && contains_text(hypothesis, (#[trigger] start[k]).0)
                && contains_text(hypothesis, start[k].1) && critiques_of(hypothesis, none, start)[i]
                == "Graph conflict: '"@ + start[k].0 + "' and '"@ + start[k].1
                + "' marked as conflicting. Reconsider usage."@;
        assert(conflicts[k] == start[k]);
    } else {
        assert(conflicts[conflicts.len() - 1] == conflicts.last());
    }
}

/// What stands in a text is negated just where one of the words of negation stands, in whatever
/// case, among the thirty characters before it.
pub proof fn law_negation_stands_close_before(text: Text, at: int)
    requires
        0 <= at <= text.len(),
    ensures
        ({
            let before = lowercase_of(
                text.subrange(
                    if at <= 30 {
                        0
                    } else {
                        at - 30
                    },
                    at,
                ),
            );
            negated(text, at) <==> contains_text(before, "not "@) || contains_text(before, "n't "@)
                || contains_text(before, "avoid "@) || contains_text(before, "never "@)
                || contains_text(before, "instead of "@) || contains_text(before, "shouldn't "@)
                || contains_text(before, "should not "@) || contains_text(before, "don't "@)
                || contains_text(before, "do not "@) || contains_text(before, "without "@)
                || contains_text(before, "except "@) || contains_text(before, "skip "@)
                || contains_text(before, "omit "@)
        }),
{
}

/// Without a violation the confidence is whole, and it is nothing where the violations are as many
/// as the checks, or more; where there is nothing to check it is four fifths.
pub proof fn law_confidence_at_its_ends(violations: int, checks: int)
    requires
        0 <= violations,
        0 <= checks <= u64::MAX,
    ensures
        checks > 0 && violations == 0 ==> confidence_of(violations, checks).num == confidence_of(
            violations,
            checks,
        ).den,
        checks > 0 && violations >= checks ==> confidence_of(violations, checks).num == 0,
        checks == 0 ==> -5 < 10 * confidence_of(violations, checks).num - 8 * confidence_of(
            violations,
            checks,
        ).den < 5,
        confidence_of(violations, checks).den == 0x100_0000,
{
    if checks > 0 {
        lemma_rest_at_its_ends(violations as nat, checks as nat);
    }
}

/// The loop halts just where the confidence reaches ninety-two hundredths, the loops are used up, or
/// the hypothesis no longer changes, and says which of them it was, in that order.
pub proof fn law_loop_halts_for_a_reason(confidence: Ratio, at: u8, max_loops: u8, stable: bool)
    requires
        confidence.den == 0x100_0000,
    ensures
        ({
            let sure = 100 * confidence.num >= 92 * 0x100_0000;
            let why = halt_reason_of(confidence, at, max_loops, stable);
            &&& why is None <==> !sure && at < max_loops && !stable
            &&& sure ==> why == Some("confidence threshold reached (≥0.92)"@)
            &&& !sure && at >= max_loops ==> why == Some(
                "max loops ("@ + decimal_of(max_loops as nat) + ") reached"@,
            )
            &&& !sure && at < max_loops && stable ==> why == Some(
                "hypothesis stable — no further refinement needed"@,
            )
        }),
{
    let n = confidence.num as int;
    assert(confidence.reaches(15_435_039, 0x100_0000) <==> n >= 15_435_039) by (nonlinear_arith)
        requires
            confidence.num == n,
            confidence.den == 0x100_0000,
            confidence.reaches(15_435_039, 0x100_0000) <==> confidence.num * 0x100_0000
                >= 15_435_039 * confidence.den,
    ;
}

/// The prompt for the next loop tells its number, the confidence in percent and each of the first
/// three critiques; without a critique it asks for completeness.
pub proof fn law_prompt_tells_what_to_mend(
    confidence: Ratio,
    next_loop: int,
    critiques: Seq<Text>,
    i: int,
)
    ensures
        contains_text(
            refine_prompt(confidence, next_loop, critiques),
            "loop "@ + decimal_of(next_loop as nat),
        ),
        contains_text(
            refine_prompt(confidence, next_loop, critiques),
            confidence.percent_text_of() + "%\n"@,
        ),
        0 <= i < 3 && i < critiques.len() ==> contains_text(
            refine_prompt(confidence, next_loop, critiques),
            "  • "@ + critiques[i],
        ),
        critiques.len() == 0 ==> contains_text(
            refine_prompt(confidence, next_loop, critiques),
            "No critiques found."@,
        ),
{
    let prompt = refine_prompt(confidence, next_loop, critiques);
    let number = decimal_of(next_loop as nat);
    let percent = confidence.percent_text_of();
    let summary = critique_summary(critiques);
    let tail = "\n\nGenerate improved hypothesis:"@;
    reveal_strlit("Refine hypothesis (loop ");
    reveal_strlit("Refine hypothesis (");
    reveal_strlit("loop ");
    assert("Refine hypothesis (loop "@ == "Refine hypothesis ("@ + "loop "@);
    let a = "): Current confidence: "@;
    assert(prompt == "Refine hypothesis ("@ + ("loop "@ + number) + (a + percent + "%\n"@ + summary
        + tail));
    lemma_contains_middle(
        "Refine hypothesis ("@,
        "loop "@ + number,
        a + percent + "%\n"@ + summary + tail,
    );
    assert(prompt == ("Refine hypothesis (loop "@ + number + a) + (percent + "%\n"@) + (summary
        + tail));
    lemma_contains_middle(
        "Refine hypothesis (loop "@ + number + a,
        percent + "%\n"@,
        summary + tail,
    );
    let front = "Refine hypothesis (loop "@ + number + a + percent + "%\n"@;
    assert(prompt == front + summary + tail);
    lemma_contains_middle(front, summary, tail);
    if 0 <= i < 3 && i < critiques.len() {
        let n: int = if critiques.len() < 3 {
            critiques.len() as int
        } else {
            3
        };
        let shown = bullets(critiques.take(n));
        assert(shown[i] == "  • "@ + critiques[i]);
        lemma_join_holds(shown, "\n"@, i);
        lemma_contains_half("Address these issues:\n"@, join_of(shown, "\n"@), shown[i]);
        lemma_contains_through(prompt, summary, shown[i]);
    }
    if critiques.len() == 0 {
        reveal_strlit("No critiques found. Refine for completeness.");
        reveal_strlit("No critiques found.");
        reveal_strlit(" Refine for completeness.");
        assert(summary == "No critiques found."@ + " Refine for completeness."@);
        lemma_contains_itself("No critiques found."@);
        lemma_contains_half(
            "No critiques found."@,
            " Refine for completeness."@,
            "No critiques found."@,
        );
        lemma_contains_through(prompt, summary, "No critiques found."@);
    }
}

} // verus!
