//! Everything that the memory knows of a topic.

use crate::json::{
    add_field, integer, integer_view, list, no_entries, no_fields, object, text, text_list,
    text_views, views_of, Json, JsonView,
};
use crate::lists::{
    any, any_of, first_of, items, kept, lemma_kept_agree, lemma_kept_finds, lemma_kept_is, lemma_written_out_holds,
    select, select_all, write_refs, written_out,
};
use crate::model::{Annotation, AntiPattern, CodeUnit, Pattern};
use crate::text::{
    clip, clipped, contains, contains_text, lemma_contains_half, lemma_contains_itself,
    lemma_contains_through, lowercase_of, views, Text,
};
use vstd::prelude::*;

verus! {

/// `s` holds the topic, written small as `low`, whatever its own case.
pub open spec fn mentions(s: Text, low: Text) -> bool {
    contains_text(lowercase_of(s), low)
}

/// The text holds the topic `low`.
pub open spec fn mentioning(low: Text) -> spec_fn(String) -> bool {
    |s: String| mentions(s@, low)
}

/// The units of which the name or the dense form holds the topic.
pub open spec fn units_on(topic: Text) -> spec_fn(CodeUnit) -> bool {
    |u: CodeUnit|
        mentions(u.name@, lowercase_of(topic)) || mentions(u.compressed@, lowercase_of(topic))
}

/// The patterns of which the name, the intent, a used item or a tag holds the topic.
pub open spec fn patterns_on(topic: Text) -> spec_fn(Pattern) -> bool {
    |p: Pattern|
        mentions(p.name@, lowercase_of(topic)) || mentions(p.intent@, lowercase_of(topic))
            || any_of(p.uses@, mentioning(lowercase_of(topic))) || any_of(
            p.tags@,
            mentioning(lowercase_of(topic)),
        )
}

/// The anti-patterns of which the description, the wrong form or a tag holds the topic.
pub open spec fn anti_patterns_on(topic: Text) -> spec_fn(AntiPattern) -> bool {
    |a: AntiPattern|
        mentions(a.description@, lowercase_of(topic)) || mentions(a.wrong@, lowercase_of(topic))
            || any_of(a.tags@, mentioning(lowercase_of(topic)))
}

/// The notes of which the topic, the body or a tag holds the topic.
pub open spec fn annotations_on(topic: Text) -> spec_fn(Annotation) -> bool {
    |a: Annotation|
        mentions(a.topic@, lowercase_of(topic)) || mentions(a.body@, lowercase_of(topic))
            || any_of(a.tags@, mentioning(lowercase_of(topic)))
}

/// Whether `s` holds the topic `low`.
fn mentions_topic(s: &str, low: &str) -> (r: bool)
    ensures
        r == mentions(s@, low@),
{
    contains(s.to_lowercase().as_str(), low)
}

/// Whether one of the texts holds the topic `low`.
fn some_mention(texts: &Vec<String>, low: &str) -> (r: bool)
    ensures
        r == any_of(texts@, mentioning(low@)),
{
    let hit = |s: &String| -> (b: bool)
        ensures
            b == mentioning(low@)(*s),
        { mentions_topic(s.as_str(), low) };
    any(texts, hit, Ghost(mentioning(low@)))
}

/// The first `limit` units on a topic.
pub fn matching_units<'a>(topic: &str, units: &'a Vec<CodeUnit>, limit: usize) -> (r: Vec<
    &'a CodeUnit,
>)
    ensures
        items(r@) == first_of(kept(units@, units_on(topic@)), limit as int),
{
    let low = topic.to_lowercase();
    let on = |u: &CodeUnit| -> (b: bool)
        ensures
            b == units_on(topic@)(*u),
        {
            mentions_topic(u.name.as_str(), low.as_str()) || mentions_topic(
                u.compressed.as_str(),
                low.as_str(),
            )
        };
    select(units, limit, on, Ghost(units_on(topic@)))
}

/// The patterns on a topic.
pub fn matching_patterns<'a>(topic: &str, patterns: &'a Vec<Pattern>) -> (r: Vec<&'a Pattern>)
    ensures
        items(r@) == kept(patterns@, patterns_on(topic@)),
{
    let low = topic.to_lowercase();
    let on = |p: &Pattern| -> (b: bool)
        ensures
            b == patterns_on(topic@)(*p),
        {
            mentions_topic(p.name.as_str(), low.as_str()) || mentions_topic(
                p.intent.as_str(),
                low.as_str(),
            ) || some_mention(&p.uses, low.as_str()) || some_mention(&p.tags, low.as_str())
        };
    select_all(patterns, on, Ghost(patterns_on(topic@)))
}

/// The anti-patterns on a topic.
pub fn matching_anti_patterns<'a>(topic: &str, anti_patterns: &'a Vec<AntiPattern>) -> (r: Vec<
    &'a AntiPattern,
>)
    ensures
        items(r@) == kept(anti_patterns@, anti_patterns_on(topic@)),
{
    let low = topic.to_lowercase();
    let on = |a: &AntiPattern| -> (b: bool)
        ensures
            b == anti_patterns_on(topic@)(*a),
        {
            mentions_topic(a.description.as_str(), low.as_str()) || mentions_topic(
                a.wrong.as_str(),
                low.as_str(),
            ) || some_mention(&a.tags, low.as_str())
        };
    select_all(anti_patterns, on, Ghost(anti_patterns_on(topic@)))
}

/// The notes on a topic.
pub fn matching_annotations<'a>(topic: &str, annotations: &'a Vec<Annotation>) -> (r: Vec<
    &'a Annotation,
>)
    ensures
        items(r@) == kept(annotations@, annotations_on(topic@)),
{
    let low = topic.to_lowercase();
    let on = |a: &Annotation| -> (b: bool)
        ensures
            b == annotations_on(topic@)(*a),
        {
            mentions_topic(a.topic.as_str(), low.as_str()) || mentions_topic(
                a.body.as_str(),
                low.as_str(),
            ) || some_mention(&a.tags, low.as_str())
        };
    select_all(annotations, on, Ghost(annotations_on(topic@)))
}

/// How many units a recall shows at most.
pub const RECALL_UNITS: usize = 6;

/// A unit in a recall.
pub open spec fn recalled_unit() -> spec_fn(CodeUnit) -> Text {
    |u: CodeUnit|
        "### "@ + u.name@ + " ("@ + u.kind@ + ")\n"@ + clip(u.compressed@, 300) + "\n\n"@
}

/// A pattern in a recall.
pub open spec fn recalled_pattern() -> spec_fn(Pattern) -> Text {
    |p: Pattern|
        "### "@ + p.name@ + " — "@ + p.intent@ + "\n"@ + p.body@ + "\n  survival: "@
            + p.survival_rate.percent@ + "%\n\n"@
}

/// An anti-pattern in a recall.
pub open spec fn recalled_anti_pattern() -> spec_fn(AntiPattern) -> Text {
    |a: AntiPattern|
        "### "@ + a.description@ + "\n  WRONG:   "@ + a.wrong@ + "\n  CORRECT: "@ + a.correct@
            + "\n\n"@
}

/// A note in a recall.
pub open spec fn recalled_annotation() -> spec_fn(Annotation) -> Text {
    |a: Annotation| "### "@ + a.topic@ + "\n"@ + a.body@ + "\n\n"@
}

/// A section of a recall, left out where it would be empty.
pub open spec fn recall_section<T>(
    before: Text,
    title: Text,
    found: Seq<T>,
    line: spec_fn(T) -> Text,
) -> Text {
    if found.len() == 0 {
        before
    } else {
        before + title + written_out(found, line)
    }
}

/// The recall of a topic as a text.
pub open spec fn recall_report(
    topic: Text,
    units: Seq<CodeUnit>,
    patterns: Seq<Pattern>,
    anti_patterns: Seq<AntiPattern>,
    annotations: Seq<Annotation>,
) -> Text {
    let us = first_of(kept(units, units_on(topic)), RECALL_UNITS as int);
    let ps = kept(patterns, patterns_on(topic));
    let aps = kept(anti_patterns, anti_patterns_on(topic));
    let ans = kept(annotations, annotations_on(topic));
    let head = "# Recall: `"@ + topic + "`\n\n"@;
    let a = recall_section(head, "## Indexed Units\n"@, us, recalled_unit());
    let b = recall_section(a, "## Patterns\n"@, ps, recalled_pattern());
    let c = recall_section(b, "## Anti-Patterns\n"@, aps, recalled_anti_pattern());
    let d = recall_section(c, "## Annotations\n"@, ans, recalled_annotation());
    if us.len() == 0 && ps.len() == 0 && aps.len() == 0 && ans.len() == 0 {
        d + "No results found for `"@ + topic + "`.\n"@
    } else {
        d
    }
}

/// The recall of a topic as a text.
pub fn run_recall(
    topic: &str,
    units: &Vec<CodeUnit>,
    patterns: &Vec<Pattern>,
    anti_patterns: &Vec<AntiPattern>,
    annotations: &Vec<Annotation>,
) -> (r: String)
    ensures
        r@ == recall_report(topic@, units@, patterns@, anti_patterns@, annotations@),
{
    let us = matching_units(topic, units, RECALL_UNITS);
    let ps = matching_patterns(topic, patterns);
    let aps = matching_anti_patterns(topic, anti_patterns);
    let ans = matching_annotations(topic, annotations);
    assert(items(us@).len() == us@.len());
    assert(items(ps@).len() == ps@.len());
    assert(items(aps@).len() == aps@.len());
    assert(items(ans@).len() == ans@.len());
    let mut out = "# Recall: `".to_owned();
    out.append(topic);
    out.append("`\n\n");
    if us.len() > 0 {
        out.append("## Indexed Units\n");
        let line = |u: &CodeUnit| -> (s: String)
            ensures
                s@ == recalled_unit()(*u),
            {
                let mut s = "### ".to_owned();
                s.append(u.name.as_str());
                s.append(" (");
                s.append(u.kind.as_str());
                s.append(")\n");
                s.append(clipped(u.compressed.as_str(), 300).as_str());
                s.append("\n\n");
                s
            };
        out.append(write_refs(&us, line, Ghost(recalled_unit())).as_str());
    }
    if ps.len() > 0 {
        out.append("## Patterns\n");
        let line = |p: &Pattern| -> (s: String)
            ensures
                s@ == recalled_pattern()(*p),
            {
                let mut s = "### ".to_owned();
                s.append(p.name.as_str());
                s.append(" — ");
                s.append(p.intent.as_str());
                s.append("\n");
                s.append(p.body.as_str());
                s.append("\n  survival: ");
                s.append(p.survival_rate.percent.as_str());
                s.append("%\n\n");
                s
            };
        out.append(write_refs(&ps, line, Ghost(recalled_pattern())).as_str());
    }
    if aps.len() > 0 {
        out.append("## Anti-Patterns\n");
        let line = |a: &AntiPattern| -> (s: String)
            ensures
                s@ == recalled_anti_pattern()(*a),
            {
                let mut s = "### ".to_owned();
                s.append(a.description.as_str());
                s.append("\n  WRONG:   ");
                s.append(a.wrong.as_str());
                s.append("\n  CORRECT: ");
                s.append(a.correct.as_str());
                s.append("\n\n");
                s
            };
        out.append(write_refs(&aps, line, Ghost(recalled_anti_pattern())).as_str());
    }
    if ans.len() > 0 {
        out.append("## Annotations\n");
        let line = |a: &Annotation| -> (s: String)
            ensures
                s@ == recalled_annotation()(*a),
            {
                let mut s = "### ".to_owned();
                s.append(a.topic.as_str());
                s.append("\n");
                s.append(a.body.as_str());
                s.append("\n\n");
                s
            };
        out.append(write_refs(&ans, line, Ghost(recalled_annotation())).as_str());
    }
    if us.len() == 0 && ps.len() == 0 && aps.len() == 0 && ans.len() == 0 {
        out.append("No results found for `");
        out.append(topic);
        out.append("`.\n");
    }
    out
}

/// An id as JSON; null where there is none.
pub open spec fn id_view(id: Option<i64>) -> JsonView {
    match id {
        Some(n) => integer_view(n as int),
        None => JsonView::Null,
    }
}

/// An id as JSON.
pub fn id_json(id: Option<i64>) -> (r: Json)
    ensures
        r@ == id_view(id),
{
    match id {
        Some(n) => integer(n),
        None => Json::Null,
    }
}

/// A unit as JSON: of its dense form the first two hundred characters.
pub open spec fn unit_view() -> spec_fn(CodeUnit) -> JsonView {
    |u: CodeUnit|
        JsonView::Object(
            no_fields()
                .push(("id"@, JsonView::Text(u.id@)))
                .push(("name"@, JsonView::Text(u.name@)))
                .push(("kind"@, JsonView::Text(u.kind@)))
                .push(("summary"@, JsonView::Text(clip(u.compressed@, 200))))
        )
}

/// A pattern as JSON.
pub open spec fn pattern_view() -> spec_fn(Pattern) -> JsonView {
    |p: Pattern|
        JsonView::Object(
            no_fields()
                .push(("id"@, id_view(p.id)))
                .push(("name"@, JsonView::Text(p.name@)))
                .push(("intent"@, JsonView::Text(p.intent@)))
                .push(("body"@, JsonView::Text(p.body@)))
                .push(("survival_rate"@, JsonView::Float(p.survival_rate.number@)))
        )
}

/// An anti-pattern as JSON.
pub open spec fn anti_pattern_view() -> spec_fn(AntiPattern) -> JsonView {
    |a: AntiPattern|
        JsonView::Object(
            no_fields()
                .push(("id"@, id_view(a.id)))
                .push(("description"@, JsonView::Text(a.description@)))
                .push(("wrong"@, JsonView::Text(a.wrong@)))
                .push(("correct"@, JsonView::Text(a.correct@)))
        )
}

/// A note as JSON.
pub open spec fn annotation_view() -> spec_fn(Annotation) -> JsonView {
    |a: Annotation|
        JsonView::Object(
            no_fields()
                .push(("id"@, id_view(a.id)))
                .push(("topic"@, JsonView::Text(a.topic@)))
                .push(("body"@, JsonView::Text(a.body@)))
                .push(("tags"@, JsonView::List(text_views(views(a.tags@)))))
        )
}

/// The recall of a topic as JSON.
pub open spec fn recall_view(
    topic: Text,
    units: Seq<CodeUnit>,
    patterns: Seq<Pattern>,
    anti_patterns: Seq<AntiPattern>,
    annotations: Seq<Annotation>,
) -> JsonView {
    let found_units = first_of(kept(units, units_on(topic)), RECALL_UNITS as int);
    let found_patterns = kept(patterns, patterns_on(topic));
    let found_anti_patterns = kept(anti_patterns, anti_patterns_on(topic));
    let found_annotations = kept(annotations, annotations_on(topic));
    JsonView::Object(
        no_fields()
            .push(("topic"@, JsonView::Text(topic)))
            .push(("units"@, JsonView::List(found_units.map_values(unit_view()))))
            .push(("patterns"@, JsonView::List(found_patterns.map_values(pattern_view()))))
            .push((
                "anti_patterns"@,
                JsonView::List(found_anti_patterns.map_values(anti_pattern_view())),
            ))
            .push(("annotations"@, JsonView::List(found_annotations.map_values(annotation_view())))),
    )
}

/// The JSON that `f` makes of each item.
pub(crate) fn json_list<T, F: Fn(&T) -> Json>(
    list_of: &Vec<&T>,
    f: F,
    Ghost(entry): Ghost<spec_fn(T) -> JsonView>,
) -> (r: Json)
    requires
        forall|x: &T| #[trigger] f.requires((x,)),
        forall|x: &T, j: Json| #[trigger] f.ensures((x,), j) ==> j@ == entry(*x),
    ensures
        r@ == JsonView::List(items(list_of@).map_values(entry)),
{
    let ghost all = items(list_of@);
    let mut out: Vec<Json> = Vec::new();
    let mut i: usize = 0;
    while i < list_of.len()
        invariant
            i <= list_of@.len() == all.len(),
            all == items(list_of@),
            forall|x: &T| #[trigger] f.requires((x,)),
            forall|x: &T, j: Json| #[trigger] f.ensures((x,), j) ==> j@ == entry(*x),
            views_of(out@) == all.take(i as int).map_values(entry),
        decreases list_of@.len() - i,
    {
        let ghost before = out@;
        let j = f(list_of[i]);
        out.push(j);
        assert(views_of(out@) == views_of(before).push(j@));
        assert(all.take(i + 1) == all.take(i as int).push(all[i as int]));
        i = i + 1;
        assert(views_of(out@) == all.take(i as int).map_values(entry));
    }
    assert(all.take(i as int) == all);
    list(out)
}

/// A unit as JSON.
fn unit_json(u: &CodeUnit) -> (j: Json)
    ensures
        j@ == unit_view()(*u),
{
    let mut e = no_entries();
    add_field(&mut e, "id", text(u.id.as_str()));
    add_field(&mut e, "name", text(u.name.as_str()));
    add_field(&mut e, "kind", text(u.kind.as_str()));
    add_field(&mut e, "summary", text(clipped(u.compressed.as_str(), 200).as_str()));
    object(e)
}

/// A pattern as JSON.
fn pattern_json(p: &Pattern) -> (j: Json)
    ensures
        j@ == pattern_view()(*p),
{
    let mut e = no_entries();
    add_field(&mut e, "id", id_json(p.id));
    add_field(&mut e, "name", text(p.name.as_str()));
    add_field(&mut e, "intent", text(p.intent.as_str()));
    add_field(&mut e, "body", text(p.body.as_str()));
    add_field(&mut e, "survival_rate", Json::Float(p.survival_rate.number.clone()));
    object(e)
}

/// An anti-pattern as JSON.
fn anti_pattern_json(a: &AntiPattern) -> (j: Json)
    ensures
        j@ == anti_pattern_view()(*a),
{
    let mut e = no_entries();
    add_field(&mut e, "id", id_json(a.id));
    add_field(&mut e, "description", text(a.description.as_str()));
    add_field(&mut e, "wrong", text(a.wrong.as_str()));
    add_field(&mut e, "correct", text(a.correct.as_str()));
    object(e)
}

/// A note as JSON.
fn annotation_json(a: &Annotation) -> (j: Json)
    ensures
        j@ == annotation_view()(*a),
{
    let mut e = no_entries();
    add_field(&mut e, "id", id_json(a.id));
    add_field(&mut e, "topic", text(a.topic.as_str()));
    add_field(&mut e, "body", text(a.body.as_str()));
    add_field(&mut e, "tags", text_list(&a.tags));
    object(e)
}

/// The recall of a topic as JSON.
pub fn recall_json(
    topic: &str,
    units: &Vec<CodeUnit>,
    patterns: &Vec<Pattern>,
    anti_patterns: &Vec<AntiPattern>,
    annotations: &Vec<Annotation>,
) -> (r: Json)
    ensures
        r@ == recall_view(topic@, units@, patterns@, anti_patterns@, annotations@),
{
    let us = matching_units(topic, units, RECALL_UNITS);
    let ps = matching_patterns(topic, patterns);
    let aps = matching_anti_patterns(topic, anti_patterns);
    let ans = matching_annotations(topic, annotations);
    let unit_json_of = |u: &CodeUnit| -> (j: Json)
        ensures
            j@ == unit_view()(*u),
        { unit_json(u) };
    let pattern_json_of = |p: &Pattern| -> (j: Json)
        ensures
            j@ == pattern_view()(*p),
        { pattern_json(p) };
    let anti_pattern_json_of = |a: &AntiPattern| -> (j: Json)
        ensures
            j@ == anti_pattern_view()(*a),
        { anti_pattern_json(a) };
    let annotation_json_of = |a: &Annotation| -> (j: Json)
        ensures
            j@ == annotation_view()(*a),
        { annotation_json(a) };
    let mut e = no_entries();
    add_field(&mut e, "topic", text(topic));
    add_field(&mut e, "units", json_list(&us, unit_json_of, Ghost(unit_view())));
    add_field(&mut e, "patterns", json_list(&ps, pattern_json_of, Ghost(pattern_view())));
    add_field(
        &mut e,
        "anti_patterns",
        json_list(&aps, anti_pattern_json_of, Ghost(anti_pattern_view())),
    );
    add_field(
        &mut e,
        "annotations",
        json_list(&ans, annotation_json_of, Ghost(annotation_view())),
    );
    object(e)
}

/// The case of a topic's letters does not matter: topics that are equal when written small recall
/// the same units, patterns, anti-patterns and notes.
pub proof fn law_topic_case_is_ignored(
    a: Text,
    b: Text,
    units: Seq<CodeUnit>,
    patterns: Seq<Pattern>,
    anti_patterns: Seq<AntiPattern>,
    annotations: Seq<Annotation>,
)
    requires
        lowercase_of(a) == lowercase_of(b),
    ensures
        kept(units, units_on(a)) == kept(units, units_on(b)),
        kept(patterns, patterns_on(a)) == kept(patterns, patterns_on(b)),
        kept(anti_patterns, anti_patterns_on(a)) == kept(anti_patterns, anti_patterns_on(b)),
        kept(annotations, annotations_on(a)) == kept(annotations, annotations_on(b)),
{
    lemma_kept_agree(units, units_on(a), units_on(b));
    lemma_kept_agree(patterns, patterns_on(a), patterns_on(b));
    lemma_kept_agree(anti_patterns, anti_patterns_on(a), anti_patterns_on(b));
    lemma_kept_agree(annotations, annotations_on(a), annotations_on(b));
}

/// A unit is recalled for a topic that its name holds, whatever the case of the letters.
pub proof fn law_unit_is_recalled_by_its_name(topic: Text, units: Seq<CodeUnit>, i: int)
    requires
        0 <= i < units.len(),
        contains_text(lowercase_of(units[i].name@), lowercase_of(topic)),
    ensures
        kept(units, units_on(topic)).contains(units[i]),
{
    lemma_kept_finds(units, units_on(topic), i);
}

/// A unit is recalled for a topic that its dense form holds, whatever the case of the letters.
pub proof fn law_unit_is_recalled_by_its_form(topic: Text, units: Seq<CodeUnit>, i: int)
    requires
        0 <= i < units.len(),
        contains_text(lowercase_of(units[i].compressed@), lowercase_of(topic)),
    ensures
        kept(units, units_on(topic)).contains(units[i]),
{
    lemma_kept_finds(units, units_on(topic), i);
}

/// A unit that holds a topic nowhere is not recalled for it.
pub proof fn law_other_units_are_not_recalled(topic: Text, units: Seq<CodeUnit>, i: int)
    requires
        0 <= i < units.len(),
        !contains_text(lowercase_of(units[i].name@), lowercase_of(topic)),
        !contains_text(lowercase_of(units[i].compressed@), lowercase_of(topic)),
    ensures
        !kept(units, units_on(topic)).contains(units[i]),
{
    lemma_kept_is(units, units_on(topic), units[i]);
}

/// A pattern is recalled for a topic that its name holds, whatever the case of the letters.
pub proof fn law_pattern_is_recalled_by_its_name(topic: Text, patterns: Seq<Pattern>, i: int)
    requires
        0 <= i < patterns.len(),
        contains_text(lowercase_of(patterns[i].name@), lowercase_of(topic)),
    ensures
        kept(patterns, patterns_on(topic)).contains(patterns[i]),
{
    lemma_kept_finds(patterns, patterns_on(topic), i);
}

/// A pattern is recalled for a topic that its intent holds, whatever the case of the letters.
pub proof fn law_pattern_is_recalled_by_its_intent(topic: Text, patterns: Seq<Pattern>, i: int)
    requires
        0 <= i < patterns.len(),
        contains_text(lowercase_of(patterns[i].intent@), lowercase_of(topic)),
    ensures
        kept(patterns, patterns_on(topic)).contains(patterns[i]),
{
    lemma_kept_finds(patterns, patterns_on(topic), i);
}

/// A pattern is recalled for a topic that a used item of it holds, whatever the case of the letters.
pub proof fn law_pattern_is_recalled_by_a_use(topic: Text, patterns: Seq<Pattern>, i: int, k: int)
    requires
        0 <= i < patterns.len(),
        0 <= k < patterns[i].uses@.len(),
        contains_text(lowercase_of(patterns[i].uses@[k]@), lowercase_of(topic)),
    ensures
        kept(patterns, patterns_on(topic)).contains(patterns[i]),
{
    assert(mentioning(lowercase_of(topic))(patterns[i].uses@[k]));
    lemma_kept_finds(patterns, patterns_on(topic), i);
}

/// A pattern is recalled for a topic that a tag of it holds, whatever the case of the letters.
pub proof fn law_pattern_is_recalled_by_a_tag(topic: Text, patterns: Seq<Pattern>, i: int, k: int)
    requires
        0 <= i < patterns.len(),
        0 <= k < patterns[i].tags@.len(),
        contains_text(lowercase_of(patterns[i].tags@[k]@), lowercase_of(topic)),
    ensures
        kept(patterns, patterns_on(topic)).contains(patterns[i]),
{
    assert(mentioning(lowercase_of(topic))(patterns[i].tags@[k]));
    lemma_kept_finds(patterns, patterns_on(topic), i);
}

/// A pattern that holds a topic nowhere is not recalled for it.
pub proof fn law_other_patterns_are_not_recalled(topic: Text, patterns: Seq<Pattern>, i: int)
    requires
        0 <= i < patterns.len(),
        !contains_text(lowercase_of(patterns[i].name@), lowercase_of(topic)),
        !contains_text(lowercase_of(patterns[i].intent@), lowercase_of(topic)),
        forall|k: int|
            0 <= k < patterns[i].uses@.len() ==> !contains_text(
                lowercase_of((#[trigger] patterns[i].uses@[k])@),
                lowercase_of(topic),
            ),
        forall|k: int|
            0 <= k < patterns[i].tags@.len() ==> !contains_text(
                lowercase_of((#[trigger] patterns[i].tags@[k])@),
                lowercase_of(topic),
            ),
    ensures
        !kept(patterns, patterns_on(topic)).contains(patterns[i]),
{
    lemma_kept_is(patterns, patterns_on(topic), patterns[i]);
}

/// A anti-pattern is recalled for a topic that its description holds, whatever the case of the letters.
pub proof fn law_anti_pattern_is_recalled_by_its_description(topic: Text, anti_patterns: Seq<AntiPattern>, i: int)
    requires
        0 <= i < anti_patterns.len(),
        contains_text(lowercase_of(anti_patterns[i].description@), lowercase_of(topic)),
    ensures
        kept(anti_patterns, anti_patterns_on(topic)).contains(anti_patterns[i]),
{
    lemma_kept_finds(anti_patterns, anti_patterns_on(topic), i);
}

/// A anti-pattern is recalled for a topic that its wrong form holds, whatever the case of the letters.
pub proof fn law_anti_pattern_is_recalled_by_its_wrong_form(topic: Text, anti_patterns: Seq<AntiPattern>, i: int)
    requires
        0 <= i < anti_patterns.len(),
        contains_text(lowercase_of(anti_patterns[i].wrong@), lowercase_of(topic)),
    ensures
        kept(anti_patterns, anti_patterns_on(topic)).contains(anti_patterns[i]),
{
    lemma_kept_finds(anti_patterns, anti_patterns_on(topic), i);
}

/// A anti-pattern is recalled for a topic that a tag of it holds, whatever the case of the letters.
pub proof fn law_anti_pattern_is_recalled_by_a_tag(topic: Text, anti_patterns: Seq<AntiPattern>, i: int, k: int)
    requires
        0 <= i < anti_patterns.len(),
        0 <= k < anti_patterns[i].tags@.len(),
        contains_text(lowercase_of(anti_patterns[i].tags@[k]@), lowercase_of(topic)),
    ensures
        kept(anti_patterns, anti_patterns_on(topic)).contains(anti_patterns[i]),
{
    assert(mentioning(lowercase_of(topic))(anti_patterns[i].tags@[k]));
    lemma_kept_finds(anti_patterns, anti_patterns_on(topic), i);
}

/// A anti-pattern that holds a topic nowhere is not recalled for it.
pub proof fn law_other_anti_patterns_are_not_recalled(topic: Text, anti_patterns: Seq<AntiPattern>, i: int)
    requires
        0 <= i < anti_patterns.len(),
        !contains_text(lowercase_of(anti_patterns[i].description@), lowercase_of(topic)),
        !contains_text(lowercase_of(anti_patterns[i].wrong@), lowercase_of(topic)),
        forall|k: int|
            0 <= k < anti_patterns[i].tags@.len() ==> !contains_text(
                lowercase_of((#[trigger] anti_patterns[i].tags@[k])@),
                lowercase_of(topic),
            ),
    ensures
        !kept(anti_patterns, anti_patterns_on(topic)).contains(anti_patterns[i]),
{
    lemma_kept_is(anti_patterns, anti_patterns_on(topic), anti_patterns[i]);
}

/// A note is recalled for a topic that its topic holds, whatever the case of the letters.
pub proof fn law_annotation_is_recalled_by_its_topic(topic: Text, annotations: Seq<Annotation>, i: int)
    requires
        0 <= i < annotations.len(),
        contains_text(lowercase_of(annotations[i].topic@), lowercase_of(topic)),
    ensures
        kept(annotations, annotations_on(topic)).contains(annotations[i]),
{
    lemma_kept_finds(annotations, annotations_on(topic), i);
}

/// A note is recalled for a topic that its body holds, whatever the case of the letters.
pub proof fn law_annotation_is_recalled_by_its_body(topic: Text, annotations: Seq<Annotation>, i: int)
    requires
        0 <= i < annotations.len(),
        contains_text(lowercase_of(annotations[i].body@), lowercase_of(topic)),
    ensures
        kept(annotations, annotations_on(topic)).contains(annotations[i]),
{
    lemma_kept_finds(annotations, annotations_on(topic), i);
}

/// A note is recalled for a topic that a tag of it holds, whatever the case of the letters.
pub proof fn law_annotation_is_recalled_by_a_tag(topic: Text, annotations: Seq<Annotation>, i: int, k: int)
    requires
        0 <= i < annotations.len(),
        0 <= k < annotations[i].tags@.len(),
        contains_text(lowercase_of(annotations[i].tags@[k]@), lowercase_of(topic)),
    ensures
        kept(annotations, annotations_on(topic)).contains(annotations[i]),
{
    assert(mentioning(lowercase_of(topic))(annotations[i].tags@[k]));
    lemma_kept_finds(annotations, annotations_on(topic), i);
}

/// A note that holds a topic nowhere is not recalled for it.
pub proof fn law_other_annotations_are_not_recalled(topic: Text, annotations: Seq<Annotation>, i: int)
    requires
        0 <= i < annotations.len(),
        !contains_text(lowercase_of(annotations[i].topic@), lowercase_of(topic)),
        !contains_text(lowercase_of(annotations[i].body@), lowercase_of(topic)),
        forall|k: int|
            0 <= k < annotations[i].tags@.len() ==> !contains_text(
                lowercase_of((#[trigger] annotations[i].tags@[k])@),
                lowercase_of(topic),
            ),
    ensures
        !kept(annotations, annotations_on(topic)).contains(annotations[i]),
{
    lemma_kept_is(annotations, annotations_on(topic), annotations[i]);
}

/// What is written of a section stands in what follows it.
proof fn lemma_section_holds<T>(
    before: Text,
    title: Text,
    found: Seq<T>,
    line: spec_fn(T) -> Text,
    part: Text,
)
    ensures
        contains_text(before, part) ==> contains_text(
            recall_section(before, title, found, line),
            part,
        ),
        contains_text(written_out(found, line), part) && found.len() > 0 ==> contains_text(
            recall_section(before, title, found, line),
            part,
        ),
{
    lemma_contains_half(before, title, part);
    lemma_contains_half(before + title, written_out(found, line), part);
}

/// A recall shows what it finds: the pattern's name, intent and body, each word for word.
pub proof fn law_recall_shows_patterns(
    topic: Text,
    units: Seq<CodeUnit>,
    patterns: Seq<Pattern>,
    anti_patterns: Seq<AntiPattern>,
    annotations: Seq<Annotation>,
    i: int,
)
    requires
        0 <= i < patterns.len(),
        contains_text(lowercase_of(patterns[i].name@), lowercase_of(topic)) || contains_text(
            lowercase_of(patterns[i].intent@),
            lowercase_of(topic),
        ),
    ensures
        contains_text(
            recall_report(topic, units, patterns, anti_patterns, annotations),
            "### "@ + patterns[i].name@ + " — "@ + patterns[i].intent@ + "\n"@ + patterns[i].body@
                + "\n"@,
        ),
{
    let p = patterns[i];
    let ps = kept(patterns, patterns_on(topic));
    lemma_kept_finds(patterns, patterns_on(topic), i);
    let k = choose|k: int| 0 <= k < ps.len() && ps[k] == p;
    let us = first_of(kept(units, units_on(topic)), RECALL_UNITS as int);
    let aps = kept(anti_patterns, anti_patterns_on(topic));
    let ans = kept(annotations, annotations_on(topic));
    let head = "# Recall: `"@ + topic + "`\n\n"@;
    let part = "### "@ + p.name@ + " — "@ + p.intent@ + "\n"@ + p.body@ + "\n"@;
    let whole = recalled_pattern()(p);
    reveal_strlit("\n");
    reveal_strlit("\n  survival: ");
    reveal_strlit("  survival: ");
    assert("\n  survival: "@ == "\n"@ + "  survival: "@);
    let tail = "  survival: "@ + p.survival_rate.percent@ + "%\n\n"@;
    assert(whole == part + tail);
    lemma_contains_itself(part);
    lemma_contains_half(part, tail, part);
    lemma_written_out_holds(ps, recalled_pattern(), k);
    lemma_contains_through(written_out(ps, recalled_pattern()), whole, part);
    let a = recall_section(head, "## Indexed Units\n"@, us, recalled_unit());
    let b = recall_section(a, "## Patterns\n"@, ps, recalled_pattern());
    let c = recall_section(b, "## Anti-Patterns\n"@, aps, recalled_anti_pattern());
    lemma_section_holds(a, "## Patterns\n"@, ps, recalled_pattern(), part);
    lemma_section_holds(b, "## Anti-Patterns\n"@, aps, recalled_anti_pattern(), part);
    lemma_section_holds(c, "## Annotations\n"@, ans, recalled_annotation(), part);
}

/// A recall shows what it finds: of an anti-pattern the wrong form and the correct one, each word
/// for word.
pub proof fn law_recall_shows_anti_patterns(
    topic: Text,
    units: Seq<CodeUnit>,
    patterns: Seq<Pattern>,
    anti_patterns: Seq<AntiPattern>,
    annotations: Seq<Annotation>,
    i: int,
)
    requires
        0 <= i < anti_patterns.len(),
        contains_text(lowercase_of(anti_patterns[i].description@), lowercase_of(topic))
            || contains_text(lowercase_of(anti_patterns[i].wrong@), lowercase_of(topic)),
    ensures
        contains_text(
            recall_report(topic, units, patterns, anti_patterns, annotations),
            "### "@ + anti_patterns[i].description@ + "\n  WRONG:   "@ + anti_patterns[i].wrong@
                + "\n  CORRECT: "@ + anti_patterns[i].correct@ + "\n\n"@,
        ),
{
    let part = recalled_anti_pattern()(anti_patterns[i]);
    lemma_kept_finds(anti_patterns, anti_patterns_on(topic), i);
    let us = first_of(kept(units, units_on(topic)), RECALL_UNITS as int);
    let ps = kept(patterns, patterns_on(topic));
    let aps = kept(anti_patterns, anti_patterns_on(topic));
    let ans = kept(annotations, annotations_on(topic));
    let k = choose|k: int| 0 <= k < aps.len() && aps[k] == anti_patterns[i];
    let head = "# Recall: `"@ + topic + "`\n\n"@;
    lemma_written_out_holds(aps, recalled_anti_pattern(), k);
    let a = recall_section(head, "## Indexed Units\n"@, us, recalled_unit());
    let b = recall_section(a, "## Patterns\n"@, ps, recalled_pattern());
    let c = recall_section(b, "## Anti-Patterns\n"@, aps, recalled_anti_pattern());
    lemma_section_holds(b, "## Anti-Patterns\n"@, aps, recalled_anti_pattern(), part);
    lemma_section_holds(c, "## Annotations\n"@, ans, recalled_annotation(), part);
}

/// A recall shows what it finds: each note, word for word.
pub proof fn law_recall_shows_annotations(
    topic: Text,
    units: Seq<CodeUnit>,
    patterns: Seq<Pattern>,
    anti_patterns: Seq<AntiPattern>,
    annotations: Seq<Annotation>,
    i: int,
)
    requires
        0 <= i < annotations.len(),
        contains_text(lowercase_of(annotations[i].topic@), lowercase_of(topic)) || contains_text(
            lowercase_of(annotations[i].body@),
            lowercase_of(topic),
        ),
    ensures
        contains_text(
            recall_report(topic, units, patterns, anti_patterns, annotations),
            "### "@ + annotations[i].topic@ + "\n"@ + annotations[i].body@ + "\n\n"@,
        ),
{
    let part = recalled_annotation()(annotations[i]);
    lemma_kept_finds(annotations, annotations_on(topic), i);
    let us = first_of(kept(units, units_on(topic)), RECALL_UNITS as int);
    let ps = kept(patterns, patterns_on(topic));
    let aps = kept(anti_patterns, anti_patterns_on(topic));
    let ans = kept(annotations, annotations_on(topic));
    let k = choose|k: int| 0 <= k < ans.len() && ans[k] == annotations[i];
    let head = "# Recall: `"@ + topic + "`\n\n"@;
    lemma_written_out_holds(ans, recalled_annotation(), k);
    let a = recall_section(head, "## Indexed Units\n"@, us, recalled_unit());
    let b = recall_section(a, "## Patterns\n"@, ps, recalled_pattern());
    let c = recall_section(b, "## Anti-Patterns\n"@, aps, recalled_anti_pattern());
    lemma_section_holds(c, "## Annotations\n"@, ans, recalled_annotation(), part);
}

/// A recall shows the first six units that it finds: name, kind and the first three hundred
/// characters of the dense form.
pub proof fn law_recall_shows_the_first_six_units(
    topic: Text,
    units: Seq<CodeUnit>,
    patterns: Seq<Pattern>,
    anti_patterns: Seq<AntiPattern>,
    annotations: Seq<Annotation>,
    k: int,
)
    requires
        0 <= k < 6,
        k < kept(units, units_on(topic)).len(),
    ensures
        ({
            let u = kept(units, units_on(topic))[k];
            let shown = if u.compressed@.len() <= 300 {
                u.compressed@
            } else {
                u.compressed@.take(300)
            };
            contains_text(
                recall_report(topic, units, patterns, anti_patterns, annotations),
                "### "@ + u.name@ + " ("@ + u.kind@ + ")\n"@ + shown + "\n\n"@,
            )
        }),
{
    let all = kept(units, units_on(topic));
    let us = first_of(all, RECALL_UNITS as int);
    assert(us[k] == all[k]);
    let part = recalled_unit()(all[k]);
    let ps = kept(patterns, patterns_on(topic));
    let aps = kept(anti_patterns, anti_patterns_on(topic));
    let ans = kept(annotations, annotations_on(topic));
    let head = "# Recall: `"@ + topic + "`\n\n"@;
    lemma_written_out_holds(us, recalled_unit(), k);
    let a = recall_section(head, "## Indexed Units\n"@, us, recalled_unit());
    let b = recall_section(a, "## Patterns\n"@, ps, recalled_pattern());
    let c = recall_section(b, "## Anti-Patterns\n"@, aps, recalled_anti_pattern());
    lemma_section_holds(head, "## Indexed Units\n"@, us, recalled_unit(), part);
    lemma_section_holds(a, "## Patterns\n"@, ps, recalled_pattern(), part);
    lemma_section_holds(b, "## Anti-Patterns\n"@, aps, recalled_anti_pattern(), part);
    lemma_section_holds(c, "## Annotations\n"@, ans, recalled_annotation(), part);
}

/// Where nothing is found a recall says just that.
pub proof fn law_empty_recall_says_so(topic: Text)
    ensures
        recall_report(topic, Seq::empty(), Seq::empty(), Seq::empty(), Seq::empty())
            == "# Recall: `"@ + topic + "`\n\n"@ + "No results found for `"@ + topic + "`.\n"@,
{
}

/// The recall as JSON names the topic, and of every pattern found its name, intent and body.
pub proof fn law_recall_json_tells_patterns(
    topic: Text,
    units: Seq<CodeUnit>,
    patterns: Seq<Pattern>,
    anti_patterns: Seq<AntiPattern>,
    annotations: Seq<Annotation>,
    k: int,
)
    requires
        0 <= k < kept(patterns, patterns_on(topic)).len(),
    ensures
        ({
            let p = kept(patterns, patterns_on(topic))[k];
            let fields = recall_view(topic, units, patterns, anti_patterns, annotations)->Object_0;
            let entry = fields[2].1->List_0[k]->Object_0;
            &&& fields[0] == ("topic"@, JsonView::Text(topic))
            &&& fields[2].0 == "patterns"@
            &&& fields[2].1->List_0.len() == kept(patterns, patterns_on(topic)).len()
            &&& entry.contains(("name"@, JsonView::Text(p.name@)))
            &&& entry.contains(("intent"@, JsonView::Text(p.intent@)))
            &&& entry.contains(("body"@, JsonView::Text(p.body@)))
        }),
{
    let p = kept(patterns, patterns_on(topic))[k];
    let fields = recall_view(topic, units, patterns, anti_patterns, annotations)->Object_0;
    let entry = fields[2].1->List_0[k]->Object_0;
    assert(entry == pattern_view()(p)->Object_0);
    assert(entry[1] == ("name"@, JsonView::Text(p.name@)));
    assert(entry[2] == ("intent"@, JsonView::Text(p.intent@)));
    assert(entry[3] == ("body"@, JsonView::Text(p.body@)));
}

/// Recall as JSON tells every unit that it shows by its id, its name and its kind, and of its dense
/// form all where it has no more than two hundred characters, else just so many.
pub proof fn law_recall_json_tells_units(
    topic: Text,
    units: Seq<CodeUnit>,
    patterns: Seq<Pattern>,
    anti_patterns: Seq<AntiPattern>,
    annotations: Seq<Annotation>,
    k: int,
)
    requires
        0 <= k < kept(units, units_on(topic)).len(),
        k < RECALL_UNITS,
    ensures
        ({
            let u = kept(units, units_on(topic))[k];
            let fields = recall_view(topic, units, patterns, anti_patterns, annotations)->Object_0;
            let entry = fields[1].1->List_0[k]->Object_0;
            &&& fields[1].0 == "units"@
            &&& entry.contains(("id"@, JsonView::Text(u.id@)))
            &&& entry.contains(("name"@, JsonView::Text(u.name@)))
            &&& entry.contains(("kind"@, JsonView::Text(u.kind@)))
            &&& u.compressed@.len() <= 200 ==> entry.contains(
                ("summary"@, JsonView::Text(u.compressed@)),
            )
            &&& u.compressed@.len() > 200 ==> entry.contains(
                ("summary"@, JsonView::Text(u.compressed@.take(200))),
            )
        }),
{
    let u = kept(units, units_on(topic))[k];
    let fields = recall_view(topic, units, patterns, anti_patterns, annotations)->Object_0;
    let entry = fields[1].1->List_0[k]->Object_0;
    assert(entry == unit_view()(u)->Object_0);
    assert(entry[0] == ("id"@, JsonView::Text(u.id@)));
    assert(entry[1] == ("name"@, JsonView::Text(u.name@)));
    assert(entry[2] == ("kind"@, JsonView::Text(u.kind@)));
    assert(entry[3] == ("summary"@, JsonView::Text(clip(u.compressed@, 200))));
}

/// Recall as JSON tells every anti-pattern with what is wrong and what is right, and every note with
/// its topic, its text and its tags.
pub proof fn law_recall_json_tells_warnings_and_notes(
    topic: Text,
    units: Seq<CodeUnit>,
    patterns: Seq<Pattern>,
    anti_patterns: Seq<AntiPattern>,
    annotations: Seq<Annotation>,
    k: int,
)
    ensures
        ({
            let aps = kept(anti_patterns, anti_patterns_on(topic));
            let ans = kept(annotations, annotations_on(topic));
            let fields = recall_view(topic, units, patterns, anti_patterns, annotations)->Object_0;
            &&& fields[3].0 == "anti_patterns"@
            &&& fields[3].1->List_0.len() == aps.len()
            &&& 0 <= k < aps.len() ==> {
                let entry = fields[3].1->List_0[k]->Object_0;
                &&& entry.contains(("description"@, JsonView::Text(aps[k].description@)))
                &&& entry.contains(("wrong"@, JsonView::Text(aps[k].wrong@)))
                &&& entry.contains(("correct"@, JsonView::Text(aps[k].correct@)))
            }
            &&& fields[4].0 == "annotations"@
            &&& fields[4].1->List_0.len() == ans.len()
            &&& 0 <= k < ans.len() ==> {
                let entry = fields[4].1->List_0[k]->Object_0;
                &&& entry.contains(("topic"@, JsonView::Text(ans[k].topic@)))
                &&& entry.contains(("body"@, JsonView::Text(ans[k].body@)))
                &&& entry.contains(
                    (
                        "tags"@,
                        JsonView::List(views(ans[k].tags@).map_values(|s: Text| JsonView::Text(s))),
                    ),
                )
            }
        }),
{
    let aps = kept(anti_patterns, anti_patterns_on(topic));
    let ans = kept(annotations, annotations_on(topic));
    let fields = recall_view(topic, units, patterns, anti_patterns, annotations)->Object_0;
    if 0 <= k < aps.len() {
        let entry = fields[3].1->List_0[k]->Object_0;
        assert(entry == anti_pattern_view()(aps[k])->Object_0);
        assert(entry[1] == ("description"@, JsonView::Text(aps[k].description@)));
        assert(entry[2] == ("wrong"@, JsonView::Text(aps[k].wrong@)));
        assert(entry[3] == ("correct"@, JsonView::Text(aps[k].correct@)));
    }
    if 0 <= k < ans.len() {
        let entry = fields[4].1->List_0[k]->Object_0;
        assert(entry == annotation_view()(ans[k])->Object_0);
        let tags = views(ans[k].tags@).map_values(|s: Text| JsonView::Text(s));
        assert(text_views(views(ans[k].tags@)) =~= tags);
        assert(entry[1] == ("topic"@, JsonView::Text(ans[k].topic@)));
        assert(entry[2] == ("body"@, JsonView::Text(ans[k].body@)));
        assert(entry[3] == ("tags"@, JsonView::List(tags)));
    }
}

} // verus!
