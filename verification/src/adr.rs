//! Architecture decision records.

use crate::lists::{lemma_written_out_holds, write_all, written_out};
use crate::model::Adr;
use crate::numbers::{filled_decimal, filled_decimal_of, signed_decimal, signed_decimal_of};
use crate::text::{
    chars_of, contains_text, join, join_of, lemma_contains_half, lemma_contains_middle,
    lemma_contains_through, lemma_join_holds, split_tags, tags_of_text, views, Text,
};
use vstd::prelude::*;

verus! {

/// The name of a decision: its number with at least three digits.
pub open spec fn label_of(number: i64) -> Text {
    "ADR-"@ + filled_decimal_of(number as int, 3)
}

/// The name of a decision.
pub fn label(number: i64) -> (r: String)
    ensures
        r@ == label_of(number),
{
    let mut s = "ADR-".to_owned();
    s.append(filled_decimal(number, 3).as_str());
    s
}

/// What is said of a decision when it is taken.
#[derive(Debug)]
pub struct NewAdr {
    pub title: String,
    pub context: String,
    pub decision: String,
    pub reasoning: String,
    pub alternatives: String,
    pub consequences: String,
    pub tags: String,
}

/// The record of a decision that is taken as number `number`.
pub fn record(new: NewAdr, number: i64) -> (r: Adr)
    ensures
        r.id is None,
        r.adr_number == number,
        r.title@ == new.title@,
        r.status@ == "accepted"@,
        r.context@ == new.context@,
        r.decision@ == new.decision@,
        r.reasoning@ == new.reasoning@,
        r.alternatives@ == new.alternatives@,
        r.consequences@ == new.consequences@,
        views(r.concept_tags@) == tags_of_text(new.tags@),
        r.superseded_by is None,
{
    let concept_tags = split_tags(new.tags.as_str());
    Adr {
        id: None,
        adr_number: number,
        title: new.title,
        status: "accepted".to_owned(),
        context: new.context,
        decision: new.decision,
        reasoning: new.reasoning,
        alternatives: new.alternatives,
        consequences: new.consequences,
        concept_tags,
        superseded_by: None,
    }
}

/// The word that a decision was recorded under `id`.
pub fn recorded(number: i64, title: &str, id: i64) -> (r: String)
    ensures
        r@ == label_of(number) + ": "@ + title@ + " (id="@ + signed_decimal_of(id as int) + ")\n"@,
{
    let mut s = label(number);
    s.append(": ");
    s.append(title);
    s.append(" (id=");
    s.append(signed_decimal(id).as_str());
    s.append(")\n");
    s
}

/// A decision in a listing.
pub open spec fn listed() -> spec_fn(Adr) -> Text {
    |a: Adr| label_of(a.adr_number) + " ["@ + a.status@ + "] "@ + a.title@ + "\n"@
}

/// The listing of all decisions.
pub fn list_adrs(adrs: &Vec<Adr>) -> (r: String)
    ensures
        r@ == if adrs@.len() == 0 {
            "No ADRs recorded yet.\n"@
        } else {
            written_out(adrs@, listed())
        },
{
    if adrs.len() == 0 {
        return "No ADRs recorded yet.\n".to_owned();
    }
    let line = |a: &Adr| -> (s: String)
        ensures
            s@ == listed()(*a),
        {
            let mut s = label(a.adr_number);
            s.append(" [");
            s.append(a.status.as_str());
            s.append("] ");
            s.append(a.title.as_str());
            s.append("\n");
            s
        };
    write_all(adrs, line, Ghost(listed()))
}

/// The word that there is no such decision.
pub open spec fn missing_text(number: i64) -> Text {
    label_of(number) + " not found.\n"@
}

/// A line that stands only where there is something to say.
pub open spec fn line_if(title: Text, body: Text) -> Text {
    if body.len() == 0 {
        Seq::empty()
    } else {
        title + body + "\n"@
    }
}

/// The text of a decision: `summary` is how it reads in a context.
pub open spec fn shown(a: Adr, summary: Text) -> Text {
    summary + "\nReasoning: "@ + a.reasoning@ + "\n"@ + line_if(
        "Alternatives considered: "@,
        a.alternatives@,
    ) + line_if("Consequences: "@, a.consequences@) + (if a.concept_tags@.len() == 0 {
        Seq::empty()
    } else {
        "Tags: "@ + join_of(views(a.concept_tags@), ", "@) + "\n"@
    })
}

/// A line that stands only where there is something to say.
fn write_line_if(title: &str, body: &str) -> (r: String)
    ensures
        r@ == line_if(title@, body@),
{
    if chars_of(body).len() == 0 {
        String::new()
    } else {
        let mut s = title.to_owned();
        s.append(body);
        s.append("\n");
        s
    }
}

/// The text of the decision with number `number`, with how it reads in a context.
pub fn show_adr(number: i64, found: Option<(&Adr, &str)>) -> (r: String)
    ensures
        r@ == match found {
            Some((a, summary)) => shown(*a, summary@),
            None => missing_text(number),
        },
{
    match found {
        None => {
            let mut s = label(number);
            s.append(" not found.\n");
            s
        },
        Some((a, summary)) => {
            let mut s = summary.to_owned();
            s.append("\nReasoning: ");
            s.append(a.reasoning.as_str());
            s.append("\n");
            s.append(
                write_line_if("Alternatives considered: ", a.alternatives.as_str()).as_str(),
            );
            s.append(write_line_if("Consequences: ", a.consequences.as_str()).as_str());
            let mut tags = String::new();
            if a.concept_tags.len() > 0 {
                tags = "Tags: ".to_owned();
                tags.append(join(&a.concept_tags, ", ").as_str());
                tags.append("\n");
            }
            s.append(tags.as_str());
            s
        },
    }
}

/// The state that a decision goes into: superseded where another takes its place.
pub open spec fn retired_status(superseded_by: Option<i64>) -> Text {
    match superseded_by {
        Some(_) => "superseded"@,
        None => "deprecated"@,
    }
}

/// The state that a decision goes into.
pub fn retire_status(superseded_by: Option<i64>) -> (r: &'static str)
    ensures
        r@ == retired_status(superseded_by),
{
    match superseded_by {
        Some(_) => "superseded",
        None => "deprecated",
    }
}

/// The word on a decision that was to be retired, where it was found.
pub fn retired(number: i64, found: bool, superseded_by: Option<i64>) -> (r: String)
    ensures
        r@ == if found {
            label_of(number) + " marked as "@ + retired_status(superseded_by) + ".\n"@
        } else {
            missing_text(number)
        },
{
    let mut s = label(number);
    if found {
        s.append(" marked as ");
        s.append(retire_status(superseded_by));
        s.append(".\n");
    } else {
        s.append(" not found.\n");
    }
    s
}

/// A decision is shown with its reasoning, and with its alternatives, consequences and tags where it
/// has any.
pub proof fn law_decision_is_shown_whole(a: Adr, summary: Text, k: int)
    ensures
        (summary + "\nReasoning: "@ + a.reasoning@ + "\n"@).is_prefix_of(shown(a, summary)),
        a.alternatives@.len() > 0 ==> contains_text(
            shown(a, summary),
            "Alternatives considered: "@ + a.alternatives@ + "\n"@,
        ),
        a.consequences@.len() > 0 ==> contains_text(
            shown(a, summary),
            "Consequences: "@ + a.consequences@ + "\n"@,
        ),
        0 <= k < a.concept_tags@.len() ==> contains_text(
            shown(a, summary),
            a.concept_tags@[k]@,
        ),
{
    let front = summary + "\nReasoning: "@ + a.reasoning@ + "\n"@;
    let b = line_if("Alternatives considered: "@, a.alternatives@);
    let c = line_if("Consequences: "@, a.consequences@);
    let d = if a.concept_tags@.len() == 0 {
        Seq::empty()
    } else {
        "Tags: "@ + join_of(views(a.concept_tags@), ", "@) + "\n"@
    };
    let all = shown(a, summary);
    assert(all == front + b + c + d);
    assert(all.take(front.len() as int) =~= front);
    assert(all =~= front + b + (c + d));
    lemma_contains_middle(front, b, c + d);
    lemma_contains_middle(front + b, c, d);
    if 0 <= k < a.concept_tags@.len() {
        let names = views(a.concept_tags@);
        lemma_join_holds(names, ", "@, k);
        lemma_contains_middle("Tags: "@, join_of(names, ", "@), "\n"@);
        lemma_contains_through(d, join_of(names, ", "@), names[k]);
        lemma_contains_half(front + b + c, d, names[k]);
    }
}

/// A listing tells of every decision its number, its state and its title.
pub proof fn law_every_decision_is_listed(adrs: Seq<Adr>, i: int)
    requires
        0 <= i < adrs.len(),
    ensures
        contains_text(
            written_out(adrs, listed()),
            "ADR-"@ + filled_decimal_of(adrs[i].adr_number as int, 3) + " ["@ + adrs[i].status@
                + "] "@ + adrs[i].title@ + "\n"@,
        ),
{
    lemma_written_out_holds(adrs, listed(), i);
}

} // verus!
