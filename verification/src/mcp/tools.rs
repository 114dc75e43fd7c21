//! The tools that answer out of the memory.

use crate::json::{opt_view, Json, JsonView};
use crate::lists::{
    first_of, head_lines, head_lines_of, items, kept, lemma_first_kept, lemma_kept_agree,
    lemma_kept_finds, lemma_kept_grows, lemma_kept_holds, lemma_none_kept, lemma_written_out_holds,
    select, select_all, select_refs, texts_of_refs, write_all, write_refs, written_out,
};
use crate::mcp::reply::{
    detail_of, entries, list_detail_tier, number_or, number_or_of, plain_answer, plain_refusal,
    with_gap, Detail, GapView, QueryGap, Reply, ReplyView, Retrieval,
};
use crate::mcp::symbols::has_name;
use crate::model::{Annotation, AntiPattern, CodeUnit, Pattern, PendingObservation};
use crate::numbers::{count_text, decimal_of, signed_decimal, signed_decimal_of};
use crate::order::{insert_text, sorted_set};
use crate::rates::{rate_below, rate_is_below, EIGHT_TENTHS, FOUR_TENTHS};
use crate::recall::{
    annotations_on, anti_patterns_on, matching_annotations, matching_anti_patterns,
    matching_patterns, matching_units, patterns_on, units_on,
};
use crate::text::{
    blank, contains, contains_text, is_blank, join, join_of, lemma_contains_half,
    lemma_contains_itself, lemma_contains_middle, lemma_contains_through, lemma_join_holds,
    lowercase_of, opt_text, replace,
    replace_of, same, views, Text,
};
use vstd::prelude::*;

verus! {

/// A unit that a search by meaning found, with how well it matches in whole percent.
#[derive(Debug, Clone)]
pub struct SemanticMatch {
    pub unit: CodeUnit,
    pub percent: String,
}

/// What is to be searched for.
#[derive(Debug)]
pub struct SearchRequest {
    pub query: String,
    pub limit: u64,
}

/// The search that the arguments of `semantic_search` ask for.
pub fn search_request(args: &Json) -> (r: Result<SearchRequest, String>)
    ensures
        match args@.text_field("query"@) {
            None => r matches Err(e) && e@ == "missing `query`"@,
            Some(query) => r is Ok && r->Ok_0.query@ == query && r->Ok_0.limit as nat
                == number_or_of(args@, "limit"@, 5),
        },
{
    match args.str_at("query") {
        None => Err("missing `query`".to_owned()),
        Some(q) => Ok(SearchRequest { query: q.to_owned(), limit: number_or(args, "limit", 5) }),
    }
}

/// The entry for a unit that a search by meaning found.
pub open spec fn match_entry() -> spec_fn(SemanticMatch) -> Text {
    |m: SemanticMatch|
        "### `"@ + m.unit.name@ + "` ("@ + m.percent@ + "% match)\n"@ + m.unit.compressed@ + "\n"@
}

/// The entries for the units that a search by meaning found.
pub fn semantic_entries(found: &Vec<SemanticMatch>) -> (r: Vec<String>)
    ensures
        views(r@) == found@.map_values(match_entry()),
{
    let entry = |m: &SemanticMatch| -> (s: String)
        ensures
            s@ == match_entry()(*m),
        {
            let mut s = "### `".to_owned();
            s.append(m.unit.name.as_str());
            s.append("` (");
            s.append(m.percent.as_str());
            s.append("% match)\n");
            s.append(m.unit.compressed.as_str());
            s.append("\n");
            s
        };
    crate::lists::texts_of(found, entry, Ghost(match_entry()))
}

/// The unit is none of those that the search by meaning found.
pub open spec fn is_extra(found: Seq<SemanticMatch>) -> spec_fn(CodeUnit) -> bool {
    |u: CodeUnit|
        !exists|i: int| 0 <= i < found.len() && (#[trigger] found[i]).unit.id@ == u.id@
}

/// The line for a unit that only a keyword found.
pub open spec fn extra_line() -> spec_fn(CodeUnit) -> Text {
    |u: CodeUnit| "- `"@ + u.name@ + "` ("@ + u.kind@ + "): "@ + u.summary@ + "\n"@
}

/// What `semantic_search` answers: `found` are the matches by meaning, `keyword` those by keyword,
/// and `rendered` is how the entries of `found` read in this session.
pub open spec fn search_reply(
    args: JsonView,
    found: Seq<SemanticMatch>,
    keyword: Seq<CodeUnit>,
    rendered: Text,
) -> ReplyView {
    match args.text_field("query"@) {
        None => plain_refusal("missing `query`"@),
        Some(query) => if found.len() == 0 && keyword.len() == 0 {
            with_gap(
                plain_answer("No results for `"@ + query + "`."@),
                "semantic_search"@,
                query,
                "no semantic or keyword matches"@,
            )
        } else {
            let head = "Search: `"@ + query + "`\n\n"@;
            let titled = if found.len() == 0 {
                head
            } else {
                head + "## Semantic matches\n"@
            };
            let body = titled + rendered;
            let extras = first_of(kept(keyword, is_extra(found)), 3);
            plain_answer(
                if extras.len() == 0 {
                    body
                } else {
                    body + "## Keyword matches\n"@ + written_out(extras, extra_line())
                },
            )
        },
    }
}

/// Whether a unit is none of those that the search by meaning found.
fn extra(found: &Vec<SemanticMatch>, u: &CodeUnit) -> (r: bool)
    ensures
        r == is_extra(found@)(*u),
{
    let mut i: usize = 0;
    while i < found.len()
        invariant
            i <= found@.len(),
            forall|k: int| 0 <= k < i ==> (#[trigger] found@[k]).unit.id@ != u.id@,
        decreases found@.len() - i,
    {
        if same(found[i].unit.id.as_str(), u.id.as_str()) {
            return false;
        }
        i = i + 1;
    }
    true
}

/// Answers a search by meaning and by keyword.
pub fn tool_semantic_search(
    args: &Json,
    found: &Vec<SemanticMatch>,
    keyword: &Vec<CodeUnit>,
    rendered: &str,
) -> (r: Reply)
    ensures
        r@ == search_reply(args@, found@, keyword@, rendered@),
{
    let query = match args.str_at("query") {
        Some(q) => q,
        None => {
            return Reply::refusal("missing `query`".to_owned());
        },
    };
    if found.len() == 0 && keyword.len() == 0 {
        let mut s = "No results for `".to_owned();
        s.append(query);
        s.append("`.");
        return Reply::answer(s).noting("semantic_search", query, "no semantic or keyword matches");
    }
    let mut out = "Search: `".to_owned();
    out.append(query);
    out.append("`\n\n");
    if found.len() > 0 {
        out.append("## Semantic matches\n");
    }
    out.append(rendered);
    let other = |u: &CodeUnit| -> (b: bool)
        ensures
            b == is_extra(found@)(*u),
        { extra(found, u) };
    let extras = select(keyword, 3, other, Ghost(is_extra(found@)));
    assert(items(extras@).len() == extras@.len());
    if extras.len() > 0 {
        out.append("## Keyword matches\n");
        let line = |u: &CodeUnit| -> (s: String)
            ensures
                s@ == extra_line()(*u),
            {
                let mut s = "- `".to_owned();
                s.append(u.name.as_str());
                s.append("` (");
                s.append(u.kind.as_str());
                s.append("): ");
                s.append(u.summary.as_str());
                s.append("\n");
                s
            };
        out.append(write_refs(&extras, line, Ghost(extra_line())).as_str());
    }
    Reply::answer(out)
}

/// What `get_item` answers; `rendered` is how the dense form of the unit reads in this session.
pub open spec fn item_reply(args: JsonView, units: Seq<CodeUnit>, rendered: Text) -> ReplyView {
    match args.text_field("name"@) {
        None => plain_refusal("missing `name`"@),
        Some(name) => {
            let found = kept(units, has_name(name));
            if found.len() == 0 {
                with_gap(
                    plain_refusal("no item named `"@ + name + "`"@),
                    "get_item"@,
                    name,
                    "no indexed item with exact name"@,
                )
            } else {
                plain_answer(
                    "# `"@ + found[0].name@ + "` ("@ + found[0].kind@ + ")\n\nmodule: `"@
                        + found[0].module@ + "`\n\n"@ + rendered,
                )
            }
        },
    }
}

/// The first unit with the name `name`.
pub fn unit_named<'a>(name: &str, units: &'a Vec<CodeUnit>) -> (r: Option<&'a CodeUnit>)
    ensures
        match r {
            Some(u) => kept(units@, has_name(name@)).len() > 0 && *u == kept(
                units@,
                has_name(name@),
            )[0],
            None => kept(units@, has_name(name@)).len() == 0,
        },
{
    let named = |u: &CodeUnit| -> (b: bool)
        ensures
            b == has_name(name@)(*u),
        { same(u.name.as_str(), name) };
    crate::lists::find_first(units, named, Ghost(has_name(name@)))
}

/// Answers with the details of a named unit.
pub fn tool_get_item(args: &Json, units: &Vec<CodeUnit>, rendered: &str) -> (r: Reply)
    ensures
        r@ == item_reply(args@, units@, rendered@),
{
    let name = match args.str_at("name") {
        Some(n) => n,
        None => {
            return Reply::refusal("missing `name`".to_owned());
        },
    };
    match unit_named(name, units) {
        None => {
            let mut why = "no item named `".to_owned();
            why.append(name);
            why.append("`");
            Reply::refusal(why).noting("get_item", name, "no indexed item with exact name")
        },
        Some(u) => {
            let mut out = "# `".to_owned();
            out.append(u.name.as_str());
            out.append("` (");
            out.append(u.kind.as_str());
            out.append(")\n\nmodule: `");
            out.append(u.module.as_str());
            out.append("`\n\n");
            out.append(rendered);
            Reply::answer(out)
        },
    }
}

/// The unit is named in the hint, whatever the case.
pub open spec fn named_in(hint: Text) -> spec_fn(CodeUnit) -> bool {
    |u: CodeUnit| contains_text(lowercase_of(hint), lowercase_of(u.name@))
}

/// The summary of a unit.
pub open spec fn unit_summary() -> spec_fn(CodeUnit) -> Text {
    |u: CodeUnit| u.summary@
}

/// The hint with the summaries of the units that it names.
pub open spec fn augmented_hint(hint: Text, units: Seq<CodeUnit>) -> Text {
    let extras = kept(units, named_in(hint)).map_values(unit_summary());
    if extras.len() == 0 {
        hint
    } else {
        hint + " "@ + join_of(extras, " "@)
    }
}

/// The hint with the summaries of the units that it names.
pub fn augment_hint(hint: &str, units: &Vec<CodeUnit>) -> (r: String)
    ensures
        r@ == augmented_hint(hint@, units@),
{
    let low = hint.to_lowercase();
    let named = |u: &CodeUnit| -> (b: bool)
        ensures
            b == named_in(hint@)(*u),
        { contains(low.as_str(), u.name.as_str().to_lowercase().as_str()) };
    let found = select_all(units, named, Ghost(named_in(hint@)));
    assert(items(found@).len() == found@.len());
    if found.len() == 0 {
        return hint.to_owned();
    }
    let summary = |u: &CodeUnit| -> (s: String)
        ensures
            s@ == unit_summary()(*u),
        { u.summary.clone() };
    let extras = texts_of_refs(&found, summary, Ghost(unit_summary()));
    let mut out = hint.to_owned();
    out.append(" ");
    out.append(join(&extras, " ").as_str());
    out
}

/// Which changes are to be looked at.
#[derive(Debug)]
pub struct DeltaOptions {
    pub include_part: Option<String>,
    pub exclude_part: Option<String>,
    pub max_files: u64,
    pub max_patch_lines: u64,
}

/// An optional text of its own.
fn owned(s: Option<&str>) -> (r: Option<String>)
    ensures
        opt_text(r) == opt_view(s),
{
    match s {
        Some(s) => Some(s.to_owned()),
        None => None,
    }
}

/// What a context packet is to be made for.
#[derive(Debug)]
pub struct ContextRequest {
    pub hint: String,
    pub augmented: String,
    pub budget: u64,
    pub deltas: DeltaOptions,
}

/// The context that the arguments of `get_context` ask for.
pub fn context_request(args: &Json, units: &Vec<CodeUnit>) -> (r: Result<ContextRequest, String>)
    ensures
        match args@.text_field("hint"@) {
            None => r matches Err(e) && e@ == "missing `hint`"@,
            Some(hint) => {
                &&& r is Ok
                &&& r->Ok_0.hint@ == hint
                &&& r->Ok_0.augmented@ == augmented_hint(hint, units@)
                &&& r->Ok_0.budget as nat == number_or_of(args@, "token_budget"@, 2000)
                &&& opt_text(r->Ok_0.deltas.include_part) == args@.text_field("delta_include"@)
                &&& opt_text(r->Ok_0.deltas.exclude_part) == args@.text_field("delta_exclude"@)
                &&& r->Ok_0.deltas.max_files as nat == number_or_of(args@, "delta_max_files"@, 8)
                &&& r->Ok_0.deltas.max_patch_lines as nat == number_or_of(
                    args@,
                    "delta_max_patch_lines"@,
                    40,
                )
            },
        },
{
    match args.str_at("hint") {
        None => Err("missing `hint`".to_owned()),
        Some(hint) => Ok(
            ContextRequest {
                hint: hint.to_owned(),
                augmented: augment_hint(hint, units),
                budget: number_or(args, "token_budget", 2000),
                deltas: DeltaOptions {
                    include_part: owned(args.str_at("delta_include")),
                    exclude_part: owned(args.str_at("delta_exclude")),
                    max_files: number_or(args, "delta_max_files", 8),
                    max_patch_lines: number_or(args, "delta_max_patch_lines", 40),
                },
            },
        ),
    }
}

/// What `get_context` answers; `packet` is the rendered packet, where it holds anything.
pub open spec fn context_reply(args: JsonView, packet: Option<Text>, prefs: Text) -> ReplyView {
    match args.text_field("hint"@) {
        None => plain_refusal("missing `hint`"@),
        Some(hint) => match packet {
            None => ReplyView {
                gap: Some(
                    GapView {
                        tool: "get_context"@,
                        query: hint,
                        in_session: false,
                        note: "context packet resolved empty across units/patterns/anti-patterns/annotations"@,
                    },
                ),
                ..plain_answer(
                    "No context found for `"@ + hint
                        + "`. Run `cortex index` if the index is empty."@,
                )
            },
            Some(text) => plain_answer(
                if is_blank(prefs) {
                    ""@ + text
                } else {
                    ""@ + prefs + "\n"@ + text
                },
            ),
        },
    }
}

/// Answers with a context packet.
pub fn tool_get_context(args: &Json, packet: Option<&str>, prefs_summary: &str) -> (r: Reply)
    ensures
        r@ == context_reply(args@, opt_view(packet), prefs_summary@),
{
    let hint = match args.str_at("hint") {
        Some(h) => h,
        None => {
            return Reply::refusal("missing `hint`".to_owned());
        },
    };
    match packet {
        None => {
            let mut s = "No context found for `".to_owned();
            s.append(hint);
            s.append("`. Run `cortex index` if the index is empty.");
            let a = Reply::answer(s);
            Reply {
                result: a.result,
                gap: Some(
                    QueryGap {
                        tool: "get_context".to_owned(),
                        query: hint.to_owned(),
                        in_session: false,
                        note: "context packet resolved empty across units/patterns/anti-patterns/annotations".to_owned(),
                    },
                ),
                used: a.used,
                retrieved: a.retrieved,
            }
        },
        Some(text) => {
            let mut out = "".to_owned();
            if !blank(prefs_summary) {
                out.append(prefs_summary);
                out.append("\n");
            }
            out.append(text);
            Reply::answer(out)
        },
    }
}

/// Which changes the arguments of `get_delta` ask for: since when, and which.
pub fn delta_request(args: &Json) -> (r: (Option<String>, DeltaOptions))
    ensures
        opt_text(r.0) == args@.text_field("since"@),
        opt_text(r.1.include_part) == args@.text_field("include"@),
        opt_text(r.1.exclude_part) == args@.text_field("exclude"@),
        r.1.max_files as nat == number_or_of(args@, "max_files"@, 128),
        r.1.max_patch_lines as nat == number_or_of(args@, "max_patch_lines"@, 40),
{
    (
        owned(args.str_at("since")),
        DeltaOptions {
            include_part: owned(args.str_at("include")),
            exclude_part: owned(args.str_at("exclude")),
            max_files: number_or(args, "max_files", 128),
            max_patch_lines: number_or(args, "max_patch_lines", 40),
        },
    )
}

/// A changed file in its dense form.
#[derive(Debug, Clone)]
pub struct DeltaEntry {
    pub change: String,
    pub path: String,
    pub summary: String,
}

/// The line for a changed file.
pub open spec fn delta_line() -> spec_fn(DeltaEntry) -> Text {
    |d: DeltaEntry| d.change@ + " "@ + d.path@ + " - "@ + d.summary@ + "\n"@
}

/// Answers with the changed files.
pub fn tool_get_delta(deltas: &Vec<DeltaEntry>) -> (r: Reply)
    ensures
        r@ == plain_answer(
            if deltas@.len() == 0 {
                "No git deltas found."@
            } else {
                written_out(deltas@, delta_line())
            },
        ),
{
    if deltas.len() == 0 {
        return Reply::answer("No git deltas found.".to_owned());
    }
    let line = |d: &DeltaEntry| -> (s: String)
        ensures
            s@ == delta_line()(*d),
        {
            let mut s = d.change.clone();
            s.append(" ");
            s.append(d.path.as_str());
            s.append(" - ");
            s.append(d.summary.as_str());
            s.append("\n");
            s
        };
    Reply::answer(write_all(deltas, line, Ghost(delta_line())))
}

/// Answers with the preferences.
pub fn tool_get_preferences(prefs_summary: &str) -> (r: Reply)
    ensures
        r@ == plain_answer(
            if is_blank(prefs_summary@) {
                "No preferences configured."@
            } else {
                prefs_summary@
            },
        ),
{
    if blank(prefs_summary) {
        return Reply::answer("No preferences configured.".to_owned());
    }
    Reply::answer(prefs_summary.to_owned())
}

/// The ids that items have.
pub open spec fn ids_of<T>(list: Seq<T>, id: spec_fn(T) -> Option<i64>) -> Seq<i64>
    decreases list.len(),
{
    if list.len() == 0 {
        Seq::empty()
    } else {
        match id(list.last()) {
            Some(n) => ids_of(list.drop_last(), id).push(n),
            None => ids_of(list.drop_last(), id),
        }
    }
}

/// Entries of `table` that `tool` handed out.
pub open spec fn handed_out(ids: Seq<i64>, table: Text, tool: Text) -> Seq<(Text, i64, Text)> {
    ids.map_values(|id: i64| (table, id, tool))
}

/// The id of a pattern.
pub open spec fn pattern_id() -> spec_fn(Pattern) -> Option<i64> {
    |p: Pattern| p.id
}

/// The id of an anti-pattern.
pub open spec fn anti_pattern_id() -> spec_fn(AntiPattern) -> Option<i64> {
    |a: AntiPattern| a.id
}

/// The id of a note.
pub open spec fn annotation_id() -> spec_fn(Annotation) -> Option<i64> {
    |a: Annotation| a.id
}

/// The ids that items have.
fn collect_ids<T, F: Fn(&T) -> Option<i64>>(
    list: &Vec<&T>,
    f: F,
    Ghost(id): Ghost<spec_fn(T) -> Option<i64>>,
) -> (r: Vec<i64>)
    requires
        forall|x: &T| #[trigger] f.requires((x,)),
        forall|x: &T, n: Option<i64>| #[trigger] f.ensures((x,), n) ==> n == id(*x),
    ensures
        r@ == ids_of(items(list@), id),
{
    let ghost all = items(list@);
    let mut out: Vec<i64> = Vec::new();
    let mut i: usize = 0;
    while i < list.len()
        invariant
            i <= list@.len() == all.len(),
            all == items(list@),
            forall|x: &T| #[trigger] f.requires((x,)),
            forall|x: &T, n: Option<i64>| #[trigger] f.ensures((x,), n) ==> n == id(*x),
            out@ == ids_of(all.take(i as int), id),
        decreases list@.len() - i,
    {
        assert(all.take(i + 1).drop_last() == all.take(i as int));
        assert(all.take(i + 1).last() == *list@[i as int]);
        if let Some(n) = f(list[i]) {
            out.push(n);
        }
        i = i + 1;
    }
    assert(all.take(i as int) == all);
    out
}

/// Notes that `tool` handed out the entries `ids` of `table`.
fn note_entries(list: &mut Vec<Retrieval>, ids: &Vec<i64>, table: &str, tool: &str)
    ensures
        entries(final(list)@) == entries(old(list)@) + handed_out(ids@, table@, tool@),
{
    let ghost all = handed_out(ids@, table@, tool@);
    let mut i: usize = 0;
    assert(entries(list@) + all.take(0) == entries(list@));
    while i < ids.len()
        invariant
            i <= ids@.len() == all.len(),
            all == handed_out(ids@, table@, tool@),
            entries(list@) == entries(old(list)@) + all.take(i as int),
        decreases ids@.len() - i,
    {
        let ghost before = list@;
        let item = Retrieval { table: table.to_owned(), id: ids[i], tool: tool.to_owned() };
        list.push(item);
        assert(entries(list@) == entries(before).push(all[i as int]));
        assert(all.take(i + 1) == all.take(i as int).push(all[i as int]));
        assert((entries(old(list)@) + all.take(i as int)).push(all[i as int]) == entries(old(list)@)
            + all.take(i + 1));
        i = i + 1;
    }
    assert(all.take(i as int) == all);
}

/// How many units `recall` shows at most.
pub const TOPIC_UNITS: usize = 4;

/// The units that `recall` shows for a topic.
pub fn recall_units<'a>(topic: &str, units: &'a Vec<CodeUnit>) -> (r: Vec<&'a CodeUnit>)
    ensures
        items(r@) == first_of(kept(units@, units_on(topic@)), TOPIC_UNITS as int),
{
    matching_units(topic, units, TOPIC_UNITS)
}

/// A pattern in the answer of `recall`.
pub open spec fn topic_pattern() -> spec_fn(Pattern) -> Text {
    |p: Pattern| "### "@ + p.name@ + " — "@ + p.intent@ + "\n"@ + p.body@ + "\n"@
}

/// An anti-pattern in the answer of `recall`.
pub open spec fn topic_anti_pattern() -> spec_fn(AntiPattern) -> Text {
    |a: AntiPattern|
        "✗ "@ + a.description@ + "\n  wrong:   "@ + a.wrong@ + "\n  correct: "@ + a.correct@
            + "\n\n"@
}

/// A note in the answer of `recall`.
pub open spec fn topic_annotation() -> spec_fn(Annotation) -> Text {
    |a: Annotation| "["@ + a.topic@ + "] "@ + a.body@ + "\n"@
}

/// What `recall` answers; `rendered` is how the units that it shows read in this session. The use
/// of each pattern shown is counted, and every entry shown is recorded for the session.
pub open spec fn recall_reply(
    args: JsonView,
    units: Seq<CodeUnit>,
    rendered: Text,
    patterns: Seq<Pattern>,
    anti_patterns: Seq<AntiPattern>,
    annotations: Seq<Annotation>,
) -> ReplyView {
    match args.text_field("topic"@) {
        None => plain_refusal("missing `topic`"@),
        Some(topic) => {
            let us = first_of(kept(units, units_on(topic)), TOPIC_UNITS as int);
            let ps = kept(patterns, patterns_on(topic));
            let aps = kept(anti_patterns, anti_patterns_on(topic));
            let ans = kept(annotations, annotations_on(topic));
            let head = "# Recall: `"@ + topic + "`\n\n"@;
            let a = if us.len() == 0 {
                head
            } else {
                head + "## API\n"@ + rendered
            };
            let b = if ps.len() == 0 {
                a
            } else {
                a + "## Patterns\n"@ + written_out(ps, topic_pattern())
            };
            let c = if aps.len() == 0 {
                b
            } else {
                b + "## ⚠ Anti-patterns\n"@ + written_out(aps, topic_anti_pattern())
            };
            let d = if ans.len() == 0 {
                c
            } else {
                c + "## Notes\n"@ + written_out(ans, topic_annotation())
            };
            let none = us.len() == 0 && ps.len() == 0 && aps.len() == 0 && ans.len() == 0;
            ReplyView {
                result: Ok(
                    if none {
                        d + "Nothing found. Consider adding an annotation.\n"@
                    } else {
                        d
                    },
                ),
                gap: if none {
                    Some(
                        GapView {
                            tool: "recall"@,
                            query: topic,
                            in_session: true,
                            note: "no matching api units, patterns, anti-patterns, or annotations"@,
                        },
                    )
                } else {
                    None
                },
                used: ids_of(ps, pattern_id()),
                retrieved: handed_out(ids_of(ps, pattern_id()), "patterns"@, "recall"@)
                    + handed_out(ids_of(aps, anti_pattern_id()), "anti_patterns"@, "recall"@)
                    + handed_out(ids_of(ans, annotation_id()), "annotations"@, "recall"@),
            }
        },
    }
}

/// The patterns in the answer of `recall`.
fn write_topic_patterns(list: &Vec<&Pattern>) -> (r: String)
    ensures
        r@ == written_out(items(list@), topic_pattern()),
{
    let line = |p: &Pattern| -> (s: String)
        ensures
            s@ == topic_pattern()(*p),
        {
            let mut s = "### ".to_owned();
            s.append(p.name.as_str());
            s.append(" — ");
            s.append(p.intent.as_str());
            s.append("\n");
            s.append(p.body.as_str());
            s.append("\n");
            s
        };
    write_refs(list, line, Ghost(topic_pattern()))
}

/// The anti-patterns in the answer of `recall`.
fn write_topic_anti_patterns(list: &Vec<&AntiPattern>) -> (r: String)
    ensures
        r@ == written_out(items(list@), topic_anti_pattern()),
{
    let line = |a: &AntiPattern| -> (s: String)
        ensures
            s@ == topic_anti_pattern()(*a),
        {
            let mut s = "✗ ".to_owned();
            s.append(a.description.as_str());
            s.append("\n  wrong:   ");
            s.append(a.wrong.as_str());
            s.append("\n  correct: ");
            s.append(a.correct.as_str());
            s.append("\n\n");
            s
        };
    write_refs(list, line, Ghost(topic_anti_pattern()))
}

/// The notes in the answer of `recall`.
fn write_topic_annotations(list: &Vec<&Annotation>) -> (r: String)
    ensures
        r@ == written_out(items(list@), topic_annotation()),
{
    let line = |a: &Annotation| -> (s: String)
        ensures
            s@ == topic_annotation()(*a),
        {
            let mut s = "[".to_owned();
            s.append(a.topic.as_str());
            s.append("] ");
            s.append(a.body.as_str());
            s.append("\n");
            s
        };
    write_refs(list, line, Ghost(topic_annotation()))
}

/// Answers with everything that the memory knows of a topic.
pub fn tool_recall(
    args: &Json,
    units: &Vec<CodeUnit>,
    rendered: &str,
    patterns: &Vec<Pattern>,
    anti_patterns: &Vec<AntiPattern>,
    annotations: &Vec<Annotation>,
) -> (r: Reply)
    ensures
        r@ == recall_reply(
            args@,
            units@,
            rendered@,
            patterns@,
            anti_patterns@,
            annotations@,
        ),
{
    let topic = match args.str_at("topic") {
        Some(t) => t,
        None => {
            return Reply::refusal("missing `topic`".to_owned());
        },
    };
    let us = recall_units(topic, units);
    let ps = matching_patterns(topic, patterns);
    let aps = matching_anti_patterns(topic, anti_patterns);
    let ans = matching_annotations(topic, annotations);
    assert(items(us@).len() == us@.len());
    assert(items(ps@).len() == ps@.len());
    assert(items(aps@).len() == aps@.len());
    assert(items(ans@).len() == ans@.len());
    let mut out = "# Recall: `".to_owned();
    out.append(topic);
    out.append("`\n\n");
    if us.len() > 0 {
        out.append("## API\n");
        out.append(rendered);
    }
    if ps.len() > 0 {
        out.append("## Patterns\n");
        out.append(write_topic_patterns(&ps).as_str());
    }
    if aps.len() > 0 {
        out.append("## ⚠ Anti-patterns\n");
        out.append(write_topic_anti_patterns(&aps).as_str());
    }
    if ans.len() > 0 {
        out.append("## Notes\n");
        out.append(write_topic_annotations(&ans).as_str());
    }
    let pid = |p: &Pattern| -> (n: Option<i64>)
        ensures
            n == pattern_id()(*p),
        { p.id };
    let aid = |a: &AntiPattern| -> (n: Option<i64>)
        ensures
            n == anti_pattern_id()(*a),
        { a.id };
    let nid = |a: &Annotation| -> (n: Option<i64>)
        ensures
            n == annotation_id()(*a),
        { a.id };
    let used = collect_ids(&ps, pid, Ghost(pattern_id()));
    let shown_aps = collect_ids(&aps, aid, Ghost(anti_pattern_id()));
    let shown_notes = collect_ids(&ans, nid, Ghost(annotation_id()));
    let mut retrieved: Vec<Retrieval> = Vec::new();
    assert(entries(retrieved@) == Seq::<(Text, i64, Text)>::empty());
    note_entries(&mut retrieved, &used, "patterns", "recall");
    assert(entries(retrieved@) == handed_out(used@, "patterns"@, "recall"@));
    note_entries(&mut retrieved, &shown_aps, "anti_patterns", "recall");
    note_entries(&mut retrieved, &shown_notes, "annotations", "recall");
    let mut gap: Option<QueryGap> = None;
    if us.len() == 0 && ps.len() == 0 && aps.len() == 0 && ans.len() == 0 {
        out.append("Nothing found. Consider adding an annotation.\n");
        gap = Some(
            QueryGap {
                tool: "recall".to_owned(),
                query: topic.to_owned(),
                in_session: true,
                note: "no matching api units, patterns, anti-patterns, or annotations".to_owned(),
            },
        );
    }
    Reply { result: Ok(out), gap, used, retrieved }
}

/// The sign for a survival rate: below two fifths, below four fifths, or neither.
pub open spec fn survival_sign(bits: u32) -> Text {
    if rate_is_below(bits, FOUR_TENTHS) {
        "⚠"@
    } else if rate_is_below(bits, EIGHT_TENTHS) {
        "!"@
    } else {
        "✓"@
    }
}

/// What a listing shows of the items that a pattern uses.
pub open spec fn uses_line(p: Pattern, detail: Detail) -> Text {
    if detail != Detail::Summary && p.uses@.len() > 0 {
        "Uses: "@ + join_of(views(p.uses@), ", "@) + "\n"@
    } else {
        Seq::empty()
    }
}

/// What a listing shows of the body of a pattern: all of it, its first four lines, or nothing.
pub open spec fn body_lines(p: Pattern, detail: Detail) -> Text {
    match detail {
        Detail::Full => p.body@ + "\n"@,
        Detail::Standard => if is_blank(head_lines_of(p.body@, 4)) {
            Seq::empty()
        } else {
            head_lines_of(p.body@, 4) + "\n"@
        },
        Detail::Summary => Seq::empty(),
    }
}

/// A pattern in a listing.
pub open spec fn listed_pattern(detail: Detail) -> spec_fn(Pattern) -> Text {
    |p: Pattern|
        "## "@ + survival_sign(p.survival_rate.bits) + " "@ + p.name@ + " (used "@
            + signed_decimal_of(p.use_count as int) + "x, reverted "@ + signed_decimal_of(
            p.reverted_count as int,
        ) + ", survival "@ + p.survival_rate.percent@ + "%)\nIntent: "@ + p.intent@ + "\n"@
            + uses_line(p, detail) + body_lines(p, detail) + "\n"@
}

/// What `list_patterns` answers.
pub open spec fn patterns_reply(args: JsonView, patterns: Seq<Pattern>) -> ReplyView {
    if patterns.len() == 0 {
        plain_answer("No approved patterns yet."@)
    } else {
        ReplyView {
            retrieved: handed_out(ids_of(patterns, pattern_id()), "patterns"@, "list_patterns"@),
            ..plain_answer(
                decimal_of(patterns.len()) + " approved pattern(s):\n\n"@ + written_out(
                    patterns,
                    listed_pattern(detail_of(args)),
                ),
            )
        }
    }
}

/// References to all items of a list.
fn all_refs<'a, T>(list: &'a Vec<T>) -> (r: Vec<&'a T>)
    ensures
        items(r@) == list@,
        r@.len() == list@.len(),
{
    let mut out: Vec<&'a T> = Vec::new();
    let mut i: usize = 0;
    while i < list.len()
        invariant
            i <= list@.len(),
            items(out@) == list@.take(i as int),
        decreases list@.len() - i,
    {
        let ghost before = out@;
        out.push(&list[i]);
        assert(items(out@) == items(before).push(list@[i as int]));
        assert(list@.take(i + 1) == list@.take(i as int).push(list@[i as int]));
        i = i + 1;
    }
    assert(list@.take(i as int) == list@);
    assert(items(out@).len() == out@.len());
    out
}

/// A pattern in a listing.
fn list_pattern(p: &Pattern, detail: Detail) -> (r: String)
    ensures
        r@ == listed_pattern(detail)(*p),
{
    let sign = if rate_below(p.survival_rate.bits, FOUR_TENTHS) {
        "⚠"
    } else if rate_below(p.survival_rate.bits, EIGHT_TENTHS) {
        "!"
    } else {
        "✓"
    };
    let mut uses = String::new();
    if detail != Detail::Summary && p.uses.len() > 0 {
        uses = "Uses: ".to_owned();
        uses.append(join(&p.uses, ", ").as_str());
        uses.append("\n");
    }
    let body = match detail {
        Detail::Full => {
            let mut b = p.body.clone();
            b.append("\n");
            b
        },
        Detail::Standard => {
            let mut b = head_lines(p.body.as_str(), 4);
            if blank(b.as_str()) {
                String::new()
            } else {
                b.append("\n");
                b
            }
        },
        Detail::Summary => String::new(),
    };
    let mut s = "## ".to_owned();
    s.append(sign);
    s.append(" ");
    s.append(p.name.as_str());
    s.append(" (used ");
    s.append(signed_decimal(p.use_count).as_str());
    s.append("x, reverted ");
    s.append(signed_decimal(p.reverted_count).as_str());
    s.append(", survival ");
    s.append(p.survival_rate.percent.as_str());
    s.append("%)\nIntent: ");
    s.append(p.intent.as_str());
    s.append("\n");
    s.append(uses.as_str());
    s.append(body.as_str());
    s.append("\n");
    s
}

/// Answers with all approved patterns.
pub fn tool_list_patterns(args: &Json, patterns: &Vec<Pattern>) -> (r: Reply)
    ensures
        r@ == patterns_reply(args@, patterns@),
{
    if patterns.len() == 0 {
        return Reply::answer("No approved patterns yet.".to_owned());
    }
    let detail = list_detail_tier(args);
    let mut out = count_text(patterns.len());
    out.append(" approved pattern(s):\n\n");
    let line = |p: &Pattern| -> (s: String)
        ensures
            s@ == listed_pattern(detail)(*p),
        { list_pattern(p, detail) };
    out.append(write_all(patterns, line, Ghost(listed_pattern(detail))).as_str());
    let pid = |p: &Pattern| -> (n: Option<i64>)
        ensures
            n == pattern_id()(*p),
        { p.id };
    let ids = collect_ids(&all_refs(patterns), pid, Ghost(pattern_id()));
    let mut retrieved: Vec<Retrieval> = Vec::new();
    assert(entries(retrieved@) == Seq::<(Text, i64, Text)>::empty());
    note_entries(&mut retrieved, &ids, "patterns", "list_patterns");
    assert(entries(retrieved@) == handed_out(ids@, "patterns"@, "list_patterns"@));
    Reply { result: Ok(out), gap: None, used: Vec::new(), retrieved }
}

/// An anti-pattern in a listing.
pub open spec fn listed_anti_pattern() -> spec_fn(AntiPattern) -> Text {
    |a: AntiPattern|
        "### "@ + a.description@ + "\n✗ wrong:   "@ + a.wrong@ + "\n✓ correct: "@ + a.correct@
            + "\n\n"@
}

/// What `get_anti_patterns` answers.
pub open spec fn anti_patterns_reply(anti_patterns: Seq<AntiPattern>) -> ReplyView {
    if anti_patterns.len() == 0 {
        plain_answer("No anti-patterns recorded yet."@)
    } else {
        ReplyView {
            retrieved: handed_out(
                ids_of(anti_patterns, anti_pattern_id()),
                "anti_patterns"@,
                "get_anti_patterns"@,
            ),
            ..plain_answer(
                decimal_of(anti_patterns.len()) + " anti-pattern(s) — DO NOT do these:\n\n"@
                    + written_out(anti_patterns, listed_anti_pattern()),
            )
        }
    }
}

/// Answers with all anti-patterns.
pub fn tool_get_anti_patterns(anti_patterns: &Vec<AntiPattern>) -> (r: Reply)
    ensures
        r@ == anti_patterns_reply(anti_patterns@),
{
    if anti_patterns.len() == 0 {
        return Reply::answer("No anti-patterns recorded yet.".to_owned());
    }
    let mut out = count_text(anti_patterns.len());
    out.append(" anti-pattern(s) — DO NOT do these:\n\n");
    let line = |a: &AntiPattern| -> (s: String)
        ensures
            s@ == listed_anti_pattern()(*a),
        {
            let mut s = "### ".to_owned();
            s.append(a.description.as_str());
            s.append("\n✗ wrong:   ");
            s.append(a.wrong.as_str());
            s.append("\n✓ correct: ");
            s.append(a.correct.as_str());
            s.append("\n\n");
            s
        };
    out.append(write_all(anti_patterns, line, Ghost(listed_anti_pattern())).as_str());
    let aid = |a: &AntiPattern| -> (n: Option<i64>)
        ensures
            n == anti_pattern_id()(*a),
        { a.id };
    let ids = collect_ids(&all_refs(anti_patterns), aid, Ghost(anti_pattern_id()));
    let mut retrieved: Vec<Retrieval> = Vec::new();
    assert(entries(retrieved@) == Seq::<(Text, i64, Text)>::empty());
    note_entries(&mut retrieved, &ids, "anti_patterns", "get_anti_patterns");
    assert(entries(retrieved@) == handed_out(ids@, "anti_patterns"@, "get_anti_patterns"@));
    Reply { result: Ok(out), gap: None, used: Vec::new(), retrieved }
}

/// The observation that stands for a suggested pattern, seen at the second `now`. A suggestion
/// never becomes a pattern by itself: all that comes of it is an observation that waits for a
/// review.
pub fn tool_suggest_pattern(args: &Json, now: i64) -> (r: Result<PendingObservation, String>)
    ensures
        match (
            args@.text_field("name"@),
            args@.text_field("intent"@),
            args@.text_field("body"@),
        ) {
            (None, _, _) => r matches Err(e) && e@ == "missing `name`"@,
            (_, None, _) => r matches Err(e) && e@ == "missing `intent`"@,
            (_, _, None) => r matches Err(e) && e@ == "missing `body`"@,
            (Some(name), Some(intent), Some(body)) => {
                &&& r is Ok
                &&& r->Ok_0.id is None
                &&& r->Ok_0.path@ == "pattern/"@ + replace_of(lowercase_of(name), " "@, "_"@)
                &&& r->Ok_0.summary@ == "Copilot suggested pattern: `"@ + name + "` — "@ + intent
                &&& r->Ok_0.diff_hint@ == "name: "@ + name + "\nintent: "@ + intent + "\nuses: "@
                    + join_of(args@.texts_field("uses"@), ", "@) + "\n\n"@ + body
                &&& r->Ok_0.observed_at == now
            },
        },
{
    let name = match args.str_at("name") {
        Some(s) => s,
        None => {
            return Err("missing `name`".to_owned());
        },
    };
    let intent = match args.str_at("intent") {
        Some(s) => s,
        None => {
            return Err("missing `intent`".to_owned());
        },
    };
    let body = match args.str_at("body") {
        Some(s) => s,
        None => {
            return Err("missing `body`".to_owned());
        },
    };
    let uses = args.strings_at("uses");
    proof {
        reveal_strlit(" ");
    }
    let mut path = "pattern/".to_owned();
    path.append(replace(name.to_lowercase().as_str(), " ", "_").as_str());
    let mut summary = "Copilot suggested pattern: `".to_owned();
    summary.append(name);
    summary.append("` — ");
    summary.append(intent);
    let mut diff_hint = "name: ".to_owned();
    diff_hint.append(name);
    diff_hint.append("\nintent: ");
    diff_hint.append(intent);
    diff_hint.append("\nuses: ");
    diff_hint.append(join(&uses, ", ").as_str());
    diff_hint.append("\n\n");
    diff_hint.append(body);
    Ok(PendingObservation { id: None, path, summary, diff_hint, observed_at: now })
}

/// The word that a suggestion waits as the observation `id`.
pub fn suggestion_queued(id: i64) -> (r: String)
    ensures
        r@ == "Pattern suggestion queued (observation id: "@ + signed_decimal_of(id as int)
            + ").\nRun `cortex review` then `cortex crystallize "@ + signed_decimal_of(id as int)
            + "` to approve."@,
{
    let mut s = "Pattern suggestion queued (observation id: ".to_owned();
    s.append(signed_decimal(id).as_str());
    s.append(").\nRun `cortex review` then `cortex crystallize ");
    s.append(signed_decimal(id).as_str());
    s.append("` to approve.");
    s
}

/// The unit is of the kind asked for, if one is asked for.
pub open spec fn kind_is(filter: Option<Text>) -> spec_fn(CodeUnit) -> bool {
    |u: CodeUnit| filter is None || filter == Some(u.kind@)
}

/// The kind of a unit.
pub open spec fn unit_kind() -> spec_fn(CodeUnit) -> Text {
    |u: CodeUnit| u.kind@
}

/// A unit in a listing.
pub open spec fn listed_unit(detail: Detail) -> spec_fn(CodeUnit) -> Text {
    |u: CodeUnit|
        match detail {
            Detail::Summary => "- `"@ + u.name@ + "`\n"@,
            Detail::Standard => "- `"@ + u.name@ + "` — "@ + u.summary@ + "\n"@,
            Detail::Full => if is_blank(head_lines_of(u.compressed@, 8)) {
                "- `"@ + u.name@ + "` — "@ + u.summary@ + "\n"@
            } else {
                "- `"@ + u.name@ + "` — "@ + u.summary@ + "\n"@ + head_lines_of(
                    u.compressed@,
                    8,
                ) + "\n"@
            },
        }
}

/// The units of one kind in a listing.
pub open spec fn kind_group(units: Seq<CodeUnit>, detail: Detail) -> spec_fn(Text) -> Text {
    |kind: Text|
        "## "@ + kind + " ("@ + decimal_of(kept(units, kind_is(Some(kind))).len()) + ")\n"@
            + written_out(kept(units, kind_is(Some(kind))), listed_unit(detail)) + "\n"@
}

/// What `list_all` answers: the units grouped by kind, the kinds in alphabetical order.
pub open spec fn units_reply(args: JsonView, units: Seq<CodeUnit>) -> ReplyView {
    let filter = args.text_field("kind"@);
    let shown = kept(units, kind_is(filter));
    plain_answer(
        if shown.len() == 0 {
            match filter {
                Some(k) => "No items of kind `"@ + k + "`."@,
                None => "Index is empty. Run `cortex index`."@,
            }
        } else {
            decimal_of(shown.len()) + " item(s):\n\n"@ + written_out(
                sorted_set(shown.map_values(unit_kind())),
                kind_group(shown, detail_of(args)),
            )
        },
    )
}

/// A unit in a listing.
fn list_unit(u: &CodeUnit, detail: Detail) -> (r: String)
    ensures
        r@ == listed_unit(detail)(*u),
{
    let mut s = "- `".to_owned();
    s.append(u.name.as_str());
    match detail {
        Detail::Summary => {
            s.append("`\n");
        },
        Detail::Standard => {
            s.append("` — ");
            s.append(u.summary.as_str());
            s.append("\n");
        },
        Detail::Full => {
            s.append("` — ");
            s.append(u.summary.as_str());
            s.append("\n");
            let preview = head_lines(u.compressed.as_str(), 8);
            if !blank(preview.as_str()) {
                s.append(preview.as_str());
                s.append("\n");
            }
        },
    }
    s
}

/// The units of one kind in a listing.
fn list_kind(units: &Vec<&CodeUnit>, kind: &str, detail: Detail) -> (r: String)
    ensures
        r@ == kind_group(items(units@), detail)(kind@),
{
    let of_kind = |u: &CodeUnit| -> (b: bool)
        ensures
            b == kind_is(Some(kind@))(*u),
        { same(u.kind.as_str(), kind) };
    let group = select_refs(units, of_kind, Ghost(kind_is(Some(kind@))));
    assert(items(group@).len() == group@.len());
    let mut s = "## ".to_owned();
    s.append(kind);
    s.append(" (");
    s.append(count_text(group.len()).as_str());
    s.append(")\n");
    let line = |u: &CodeUnit| -> (t: String)
        ensures
            t@ == listed_unit(detail)(*u),
        { list_unit(u, detail) };
    s.append(write_refs(&group, line, Ghost(listed_unit(detail))).as_str());
    s.append("\n");
    s
}

/// The kinds of units, each once and in order.
fn kinds_of(units: &Vec<&CodeUnit>) -> (r: Vec<String>)
    ensures
        views(r@) == sorted_set(items(units@).map_values(unit_kind())),
{
    let ghost all = items(units@).map_values(unit_kind());
    let mut out: Vec<String> = Vec::new();
    let mut i: usize = 0;
    assert(views(out@) == sorted_set(all.take(0)));
    while i < units.len()
        invariant
            i <= units@.len() == all.len(),
            all == items(units@).map_values(unit_kind()),
            views(out@) == sorted_set(all.take(i as int)),
        decreases units@.len() - i,
    {
        assert(all.take(i + 1).drop_last() == all.take(i as int));
        assert(all.take(i + 1).last() == units@[i as int].kind@);
        insert_text(&mut out, units[i].kind.as_str());
        i = i + 1;
    }
    assert(all.take(i as int) == all);
    out
}

/// Answers with all indexed units, or those of one kind.
pub fn tool_list_all(args: &Json, units: &Vec<CodeUnit>) -> (r: Reply)
    ensures
        r@ == units_reply(args@, units@),
{
    let filter = args.str_at("kind");
    let detail = list_detail_tier(args);
    let of_kind = |u: &CodeUnit| -> (b: bool)
        ensures
            b == kind_is(opt_view(filter))(*u),
        {
            match filter {
                Some(k) => same(u.kind.as_str(), k),
                None => true,
            }
        };
    let shown = select_all(units, of_kind, Ghost(kind_is(opt_view(filter))));
    assert(items(shown@).len() == shown@.len());
    if shown.len() == 0 {
        return match filter {
            Some(k) => {
                let mut s = "No items of kind `".to_owned();
                s.append(k);
                s.append("`.");
                Reply::answer(s)
            },
            None => Reply::answer("Index is empty. Run `cortex index`.".to_owned()),
        };
    }
    let kinds = kinds_of(&shown);
    let ghost all = views(kinds@);
    let ghost group = kind_group(items(shown@), detail);
    let mut groups = String::new();
    let mut i: usize = 0;
    while i < kinds.len()
        invariant
            i <= kinds@.len() == all.len(),
            all == views(kinds@),
            group == kind_group(items(shown@), detail),
            groups@ == written_out(all.take(i as int), group),
        decreases kinds@.len() - i,
    {
        let g = list_kind(&shown, kinds[i].as_str(), detail);
        groups.append(g.as_str());
        assert(all.take(i + 1).drop_last() == all.take(i as int));
        assert(all.take(i + 1).last() == kinds@[i as int]@);
        i = i + 1;
    }
    assert(all.take(i as int) == all);
    let mut out = count_text(shown.len());
    out.append(" item(s):\n\n");
    out.append(groups.as_str());
    Reply::answer(out)
}

/// Listing a kind that is asked for lists just that kind.
pub proof fn law_listed_kind_only(units: Seq<CodeUnit>, kind: Text, i: int)
    requires
        0 <= i < kept(units, kind_is(Some(kind))).len(),
    ensures
        kept(units, kind_is(Some(kind)))[i].kind@ == kind,
{
    lemma_kept_holds(units, kind_is(Some(kind)), i);
}

/// A search tells what was found by meaning as it reads in the session, and of the units that a
/// keyword found and meaning did not, the first three. Where neither found anything, that is told
/// and the gap is recorded for the session.
#[verifier::rlimit(60)]
pub proof fn law_search_tells_both_kinds_of_matches(
    args: JsonView,
    query: Text,
    found: Seq<SemanticMatch>,
    keyword: Seq<CodeUnit>,
    rendered: Text,
    i: int,
)
    requires
        args.text_field("query"@) == Some(query),
    ensures
        ({
            let r = search_reply(args, found, keyword, rendered);
            let others = kept(
                keyword,
                |u: CodeUnit|
                    forall|k: int| 0 <= k < found.len() ==> (#[trigger] found[k]).unit.id@ != u.id@,
            );
            &&& r.result is Ok
            &&& r.gap is Some <==> found.len() == 0 && keyword.len() == 0
            &&& r.gap is Some ==> r.gap->0.tool == "semantic_search"@ && r.gap->0.query == query
                && r.gap->0.in_session
            &&& contains_text(r.result->Ok_0, query)
            &&& r.gap is None ==> contains_text(r.result->Ok_0, rendered)
            &&& r.gap is None && others.len() == 0 ==> rendered.is_suffix_of(r.result->Ok_0)
            &&& 0 <= i < others.len() && i < 3 ==> contains_text(
                r.result->Ok_0,
                "- `"@ + others[i].name@ + "` ("@ + others[i].kind@ + "): "@ + others[i].summary@
                    + "\n"@,
            )
        }),
{
    let other = |u: CodeUnit|
        forall|k: int| 0 <= k < found.len() ==> (#[trigger] found[k]).unit.id@ != u.id@;
    assert forall|u: CodeUnit| #[trigger] is_extra(found)(u) == other(u) by {}
    lemma_kept_agree(keyword, is_extra(found), other);
    let others = kept(keyword, other);
    let extras = first_of(others, 3);
    lemma_kept_grows(keyword, other, 0);
    let text = search_reply(args, found, keyword, rendered).result->Ok_0;
    if found.len() == 0 && keyword.len() == 0 {
        lemma_contains_middle("No results for `"@, query, "`."@);
    } else {
        let head = "Search: `"@ + query + "`\n\n"@;
        lemma_contains_middle("Search: `"@, query, "`\n\n"@);
        let titled = if found.len() == 0 {
            head
        } else {
            head + "## Semantic matches\n"@
        };
        let tail = if extras.len() == 0 {
            Seq::empty()
        } else {
            "## Keyword matches\n"@ + written_out(extras, extra_line())
        };
        lemma_contains_half(head, "## Semantic matches\n"@, query);
        assert(text == titled + rendered + tail);
        lemma_contains_half(titled, rendered, query);
        lemma_contains_half(titled + rendered, tail, query);
        lemma_contains_middle(titled, rendered, tail);
        if others.len() == 0 {
            assert(text == titled + rendered);
            assert(text.skip(titled.len() as int) == rendered);
        }
        if 0 <= i < others.len() && i < 3 {
            assert(extras[i] == others[i]);
            lemma_written_out_holds(extras, extra_line(), i);
            let line = extra_line()(extras[i]);
            lemma_contains_half("## Keyword matches\n"@, written_out(extras, extra_line()), line);
            lemma_contains_half(titled + rendered, tail, line);
        }
    }
}

/// The first unit with just the name asked for is shown, with its kind and its module; where there
/// is none, that is refused and the gap is recorded for the session.
pub proof fn law_item_is_found_by_its_name(
    args: JsonView,
    name: Text,
    units: Seq<CodeUnit>,
    rendered: Text,
    i: int,
)
    requires
        args.text_field("name"@) == Some(name),
    ensures
        0 <= i < units.len() && units[i].name@ == name && (forall|k: int|
            0 <= k < i ==> (#[trigger] units[k]).name@ != name) ==> item_reply(args, units, rendered)
            == plain_answer(
            "# `"@ + name + "` ("@ + units[i].kind@ + ")\n\nmodule: `"@ + units[i].module@
                + "`\n\n"@ + rendered,
        ),
        (forall|k: int| 0 <= k < units.len() ==> (#[trigger] units[k]).name@ != name) ==> {
            let r = item_reply(args, units, rendered);
            &&& r.result == Err::<Text, Text>("no item named `"@ + name + "`"@)
            &&& r.gap is Some
            &&& r.gap->0.tool == "get_item"@
            &&& r.gap->0.query == name
            &&& r.gap->0.in_session
        },
{
    if 0 <= i < units.len() && units[i].name@ == name && (forall|k: int|
        0 <= k < i ==> (#[trigger] units[k]).name@ != name) {
        lemma_first_kept(units, has_name(name), i);
    }
    if forall|k: int| 0 <= k < units.len() ==> (#[trigger] units[k]).name@ != name {
        lemma_none_kept(units, has_name(name));
    }
}

/// A hint is augmented by the summary of every unit whose name it holds, whatever the case; a hint
/// that holds no such name stays as it is.
pub proof fn law_hint_brings_what_it_names(hint: Text, units: Seq<CodeUnit>, i: int)
    ensures
        hint.is_prefix_of(augmented_hint(hint, units)),
        0 <= i < units.len() && contains_text(lowercase_of(hint), lowercase_of(units[i].name@))
            ==> contains_text(augmented_hint(hint, units), units[i].summary@),
        (forall|k: int|
            0 <= k < units.len() ==> !contains_text(
                lowercase_of(hint),
                lowercase_of((#[trigger] units[k]).name@),
            )) ==> augmented_hint(hint, units) == hint,
{
    let found = kept(units, named_in(hint));
    let extras = found.map_values(unit_summary());
    let all = augmented_hint(hint, units);
    if extras.len() > 0 {
        assert(all == hint + (" "@ + join_of(extras, " "@)));
    }
    if 0 <= i < units.len() && contains_text(lowercase_of(hint), lowercase_of(units[i].name@)) {
        lemma_kept_finds(units, named_in(hint), i);
        let k = choose|k: int| 0 <= k < found.len() && found[k] == units[i];
        assert(extras[k] == units[i].summary@);
        lemma_join_holds(extras, " "@, k);
        lemma_contains_half(hint + " "@, join_of(extras, " "@), units[i].summary@);
    }
    if forall|k: int|
        0 <= k < units.len() ==> !contains_text(
            lowercase_of(hint),
            lowercase_of((#[trigger] units[k]).name@),
        ) {
        lemma_none_kept(units, named_in(hint));
    }
}

/// A context packet is answered behind the preferences, where there are any; an empty one leaves a
/// gap that belongs to no session.
pub proof fn law_context_comes_behind_the_preferences(
    args: JsonView,
    hint: Text,
    packet: Option<Text>,
    prefs: Text,
)
    requires
        args.text_field("hint"@) == Some(hint),
    ensures
        ({
            let r = context_reply(args, packet, prefs);
            &&& r.result is Ok
            &&& r.gap is Some <==> packet is None
            &&& packet is None ==> r.gap->0.query == hint && !r.gap->0.in_session
                && r.gap->0.tool == "get_context"@ && contains_text(r.result->Ok_0, hint)
            &&& packet matches Some(text) ==> r.result->Ok_0 == if is_blank(prefs) {
                text
            } else {
                prefs + "\n"@ + text
            }
        }),
{
    lemma_contains_middle(
        "No context found for `"@,
        hint,
        "`. Run `cortex index` if the index is empty."@,
    );
    reveal_strlit("");
    if let Some(text) = packet {
        assert(""@ + text == text);
        assert(""@ + prefs + "\n"@ + text == prefs + "\n"@ + text);
    }
}

/// Ids are collected item by item: an item that has one adds it last, any other adds none.
pub proof fn law_ids_are_collected_in_order<T>(list: Seq<T>, id: spec_fn(T) -> Option<i64>, x: T)
    ensures
        ids_of(Seq::<T>::empty(), id).len() == 0,
        id(x) matches Some(n) ==> ids_of(list.push(x), id) == ids_of(list, id).push(n),
        id(x) is None ==> ids_of(list.push(x), id) == ids_of(list, id),
{
    assert(list.push(x).drop_last() == list);
}

/// The id of an item is among those collected.
proof fn lemma_id_is_collected<T>(list: Seq<T>, id: spec_fn(T) -> Option<i64>, i: int)
    requires
        0 <= i < list.len(),
        id(list[i]) is Some,
    ensures
        ids_of(list, id).contains(id(list[i])->0),
    decreases list.len(),
{
    let start = list.drop_last();
    let n = id(list[i])->0;
    let all = ids_of(list, id);
    if i < start.len() {
        assert(start[i] == list[i]);
        lemma_id_is_collected(start, id, i);
        let k = choose|k: int| 0 <= k < ids_of(start, id).len() && ids_of(start, id)[k] == n;
        assert(all[k] == n);
    } else {
        assert(all[all.len() - 1] == n);
    }
}

/// What is handed out is recorded under its table and its tool.
proof fn lemma_handed_out_holds(ids: Seq<i64>, table: Text, tool: Text, n: i64)
    requires
        ids.contains(n),
    ensures
        handed_out(ids, table, tool).contains((table, n, tool)),
{
    let k = choose|k: int| 0 <= k < ids.len() && ids[k] == n;
    assert(handed_out(ids, table, tool)[k] == (table, n, tool));
}

/// Recall tells every pattern, anti-pattern and note on the topic, and the units as they read in the
/// session; where there is none of either, it says so and the gap is recorded for the session.
#[verifier::rlimit(60)]
pub proof fn law_recall_answers_with_everything(
    args: JsonView,
    topic: Text,
    units: Seq<CodeUnit>,
    rendered: Text,
    patterns: Seq<Pattern>,
    anti_patterns: Seq<AntiPattern>,
    annotations: Seq<Annotation>,
    i: int,
)
    requires
        args.text_field("topic"@) == Some(topic),
    ensures
        ({
            let r = recall_reply(args, units, rendered, patterns, anti_patterns, annotations);
            let us = kept(units, units_on(topic));
            let ps = kept(patterns, patterns_on(topic));
            let aps = kept(anti_patterns, anti_patterns_on(topic));
            let ans = kept(annotations, annotations_on(topic));
            let none = us.len() == 0 && ps.len() == 0 && aps.len() == 0 && ans.len() == 0;
            &&& r.result is Ok
            &&& r.gap is Some <==> none
            &&& none ==> r.gap->0.tool == "recall"@ && r.gap->0.query == topic && r.gap->0.in_session
                && contains_text(r.result->Ok_0, "Nothing found. Consider adding an annotation.\n"@)
            &&& us.len() > 0 ==> contains_text(r.result->Ok_0, "## API\n"@ + rendered)
            &&& 0 <= i < ps.len() ==> contains_text(
                r.result->Ok_0,
                "### "@ + ps[i].name@ + " — "@ + ps[i].intent@ + "\n"@ + ps[i].body@ + "\n"@,
            )
            &&& 0 <= i < aps.len() ==> contains_text(
                r.result->Ok_0,
                "✗ "@ + aps[i].description@ + "\n  wrong:   "@ + aps[i].wrong@
                    + "\n  correct: "@ + aps[i].correct@ + "\n\n"@,
            )
            &&& 0 <= i < ans.len() ==> contains_text(
                r.result->Ok_0,
                "["@ + ans[i].topic@ + "] "@ + ans[i].body@ + "\n"@,
            )
        }),
{
    let us = first_of(kept(units, units_on(topic)), TOPIC_UNITS as int);
    let ps = kept(patterns, patterns_on(topic));
    let aps = kept(anti_patterns, anti_patterns_on(topic));
    let ans = kept(annotations, annotations_on(topic));
    let none = us.len() == 0 && ps.len() == 0 && aps.len() == 0 && ans.len() == 0;
    let head = "# Recall: `"@ + topic + "`\n\n"@;
    let no = Seq::<char>::empty();
    let s1 = if us.len() == 0 {
        no
    } else {
        "## API\n"@ + rendered
    };
    let w2 = written_out(ps, topic_pattern());
    let s2 = if ps.len() == 0 {
        no
    } else {
        "## Patterns\n"@ + w2
    };
    let w3 = written_out(aps, topic_anti_pattern());
    let s3 = if aps.len() == 0 {
        no
    } else {
        "## ⚠ Anti-patterns\n"@ + w3
    };
    let w4 = written_out(ans, topic_annotation());
    let s4 = if ans.len() == 0 {
        no
    } else {
        "## Notes\n"@ + w4
    };
    let s5 = if none {
        "Nothing found. Consider adding an annotation.\n"@
    } else {
        no
    };
    let text = recall_reply(args, units, rendered, patterns, anti_patterns, annotations).result->Ok_0;
    assert(text == head + s1 + s2 + s3 + s4 + s5);
    if none {
        lemma_contains_itself(s5);
        lemma_contains_half(head + s1 + s2 + s3 + s4, s5, s5);
    }
    if us.len() > 0 {
        lemma_sixfold(head, s1, s2, s3, s4, s5, s1, 1);
    }
    if 0 <= i < ps.len() {
        let line = topic_pattern()(ps[i]);
        lemma_written_out_holds(ps, topic_pattern(), i);
        lemma_contains_half("## Patterns\n"@, w2, line);
        lemma_sixfold(head, s1, s2, s3, s4, s5, line, 2);
    }
    if 0 <= i < aps.len() {
        let line = topic_anti_pattern()(aps[i]);
        lemma_written_out_holds(aps, topic_anti_pattern(), i);
        lemma_contains_half("## ⚠ Anti-patterns\n"@, w3, line);
        lemma_sixfold(head, s1, s2, s3, s4, s5, line, 3);
    }
    if 0 <= i < ans.len() {
        let line = topic_annotation()(ans[i]);
        lemma_written_out_holds(ans, topic_annotation(), i);
        lemma_contains_half("## Notes\n"@, w4, line);
        lemma_sixfold(head, s1, s2, s3, s4, s5, line, 4);
    }
}

/// What one of four parts in the middle holds, the whole holds.
proof fn lemma_sixfold(a: Text, b: Text, c: Text, d: Text, e: Text, f: Text, part: Text, at: int)
    requires
        at == 1 && (b == part || contains_text(b, part)) || at == 2 && contains_text(c, part) || at
            == 3 && contains_text(d, part) || at == 4 && contains_text(e, part),
    ensures
        contains_text(a + b + c + d + e + f, part),
{
    lemma_contains_itself(part);
    lemma_contains_half(a, b, part);
    lemma_contains_half(a + b, c, part);
    lemma_contains_half(a + b + c, d, part);
    lemma_contains_half(a + b + c + d, e, part);
    lemma_contains_half(a + b + c + d + e, f, part);
}

/// The use of every pattern that recall shows is counted, and every entry that it shows is recorded
/// under its table.
pub proof fn law_recall_records_what_it_shows(
    args: JsonView,
    topic: Text,
    units: Seq<CodeUnit>,
    rendered: Text,
    patterns: Seq<Pattern>,
    anti_patterns: Seq<AntiPattern>,
    annotations: Seq<Annotation>,
    i: int,
)
    requires
        args.text_field("topic"@) == Some(topic),
    ensures
        ({
            let r = recall_reply(args, units, rendered, patterns, anti_patterns, annotations);
            let ps = kept(patterns, patterns_on(topic));
            let aps = kept(anti_patterns, anti_patterns_on(topic));
            let ans = kept(annotations, annotations_on(topic));
            &&& 0 <= i < ps.len() ==> (ps[i].id matches Some(n) ==> r.used.contains(n)
                && r.retrieved.contains(("patterns"@, n, "recall"@)))
            &&& 0 <= i < aps.len() ==> (aps[i].id matches Some(n) ==> r.retrieved.contains(
                ("anti_patterns"@, n, "recall"@),
            ))
            &&& 0 <= i < ans.len() ==> (ans[i].id matches Some(n) ==> r.retrieved.contains(
                ("annotations"@, n, "recall"@),
            ))
        }),
{
    let ps = kept(patterns, patterns_on(topic));
    let aps = kept(anti_patterns, anti_patterns_on(topic));
    let ans = kept(annotations, annotations_on(topic));
    let a = handed_out(ids_of(ps, pattern_id()), "patterns"@, "recall"@);
    let b = handed_out(ids_of(aps, anti_pattern_id()), "anti_patterns"@, "recall"@);
    let c = handed_out(ids_of(ans, annotation_id()), "annotations"@, "recall"@);
    let all = a + b + c;
    if 0 <= i < ps.len() && ps[i].id is Some {
        let n = ps[i].id->0;
        lemma_id_is_collected(ps, pattern_id(), i);
        lemma_handed_out_holds(ids_of(ps, pattern_id()), "patterns"@, "recall"@, n);
        let k = choose|k: int| 0 <= k < a.len() && a[k] == ("patterns"@, n, "recall"@);
        assert(all[k] == a[k]);
    }
    if 0 <= i < aps.len() && aps[i].id is Some {
        let n = aps[i].id->0;
        lemma_id_is_collected(aps, anti_pattern_id(), i);
        lemma_handed_out_holds(ids_of(aps, anti_pattern_id()), "anti_patterns"@, "recall"@, n);
        let k = choose|k: int| 0 <= k < b.len() && b[k] == ("anti_patterns"@, n, "recall"@);
        assert(all[a.len() + k] == b[k]);
    }
    if 0 <= i < ans.len() && ans[i].id is Some {
        let n = ans[i].id->0;
        lemma_id_is_collected(ans, annotation_id(), i);
        lemma_handed_out_holds(ids_of(ans, annotation_id()), "annotations"@, "recall"@, n);
        let k = choose|k: int| 0 <= k < c.len() && c[k] == ("annotations"@, n, "recall"@);
        assert(all[a.len() + b.len() + k] == c[k]);
    }
}

/// Every pattern is listed with its counts, its survival and its intent, and recorded; what it uses
/// is left out of a summary alone, and its whole body is shown where all details are asked for.
#[verifier::rlimit(60)]
pub proof fn law_every_pattern_is_listed(args: JsonView, patterns: Seq<Pattern>, i: int)
    requires
        0 <= i < patterns.len(),
    ensures
        ({
            let r = patterns_reply(args, patterns);
            let p = patterns[i];
            let summary = args.text_field("detail"@) == Some("summary"@);
            let full = args.text_field("detail"@) == Some("full"@);
            &&& r.result is Ok
            &&& (decimal_of(patterns.len()) + " approved pattern(s):\n\n"@).is_prefix_of(
                r.result->Ok_0,
            )
            &&& contains_text(
                r.result->Ok_0,
                p.name@ + " (used "@ + signed_decimal_of(p.use_count as int) + "x, reverted "@
                    + signed_decimal_of(p.reverted_count as int) + ", survival "@
                    + p.survival_rate.percent@ + "%)\nIntent: "@ + p.intent@ + "\n"@,
            )
            &&& !summary && p.uses@.len() > 0 ==> contains_text(
                r.result->Ok_0,
                "Uses: "@ + join_of(views(p.uses@), ", "@) + "\n"@,
            )
            &&& full && !summary ==> contains_text(r.result->Ok_0, p.body@)
            &&& !full && !summary ==> is_blank(head_lines_of(p.body@, 4)) || contains_text(
                r.result->Ok_0,
                head_lines_of(p.body@, 4),
            )
            &&& p.id matches Some(n) ==> r.retrieved.contains(("patterns"@, n, "list_patterns"@))
        }),
{
    let detail = detail_of(args);
    let p = patterns[i];
    let text = patterns_reply(args, patterns).result->Ok_0;
    let head = decimal_of(patterns.len()) + " approved pattern(s):\n\n"@;
    let body = written_out(patterns, listed_pattern(detail));
    let line = listed_pattern(detail)(p);
    assert(text == head + body);
    lemma_written_out_holds(patterns, listed_pattern(detail), i);
    lemma_contains_half(head, body, line);
    let sign = "## "@ + survival_sign(p.survival_rate.bits) + " "@;
    let what = p.name@ + " (used "@ + signed_decimal_of(p.use_count as int) + "x, reverted "@
        + signed_decimal_of(p.reverted_count as int) + ", survival "@ + p.survival_rate.percent@
        + "%)\nIntent: "@ + p.intent@ + "\n"@;
    let uses = uses_line(p, detail);
    let lines = body_lines(p, detail);
    assert(line == sign + what + (uses + lines + "\n"@));
    lemma_contains_middle(sign, what, uses + lines + "\n"@);
    lemma_contains_through(text, line, what);
    assert(line == (sign + what) + uses + (lines + "\n"@));
    lemma_contains_middle(sign + what, uses, lines + "\n"@);
    lemma_contains_through(text, line, uses);
    assert(line == (sign + what + uses) + lines + "\n"@);
    lemma_contains_middle(sign + what + uses, lines, "\n"@);
    lemma_contains_through(text, line, lines);
    lemma_contains_itself(p.body@);
    lemma_contains_half(p.body@, "\n"@, p.body@);
    lemma_contains_itself(head_lines_of(p.body@, 4));
    lemma_contains_half(head_lines_of(p.body@, 4), "\n"@, head_lines_of(p.body@, 4));
    reveal_strlit("summary");
    reveal_strlit("full");
    if detail == Detail::Full {
        lemma_contains_through(text, lines, p.body@);
    }
    if detail == Detail::Standard && !is_blank(head_lines_of(p.body@, 4)) {
        lemma_contains_through(text, lines, head_lines_of(p.body@, 4));
    }
    if p.id is Some {
        lemma_id_is_collected(patterns, pattern_id(), i);
        lemma_handed_out_holds(
            ids_of(patterns, pattern_id()),
            "patterns"@,
            "list_patterns"@,
            p.id->0,
        );
    }
}

/// The sign of a pattern warns below a survival of two fifths, and is unmarked only from four fifths
/// on.
pub proof fn law_sign_tells_the_survival(bits: u32)
    ensures
        survival_sign(bits) == "⚠"@ <==> rate_is_below(bits, FOUR_TENTHS),
        !rate_is_below(bits, FOUR_TENTHS) && !rate_is_below(bits, EIGHT_TENTHS) <==> survival_sign(
            bits,
        ) == "✓"@,
{
    reveal_strlit("⚠");
    reveal_strlit("!");
    reveal_strlit("✓");
    assert("⚠"@[0] != "!"@[0]);
    assert("⚠"@[0] != "✓"@[0]);
    assert("!"@[0] != "✓"@[0]);
}

/// Every anti-pattern is listed with what is wrong and what is right, and recorded.
pub proof fn law_every_anti_pattern_is_listed(list: Seq<AntiPattern>, i: int)
    requires
        0 <= i < list.len(),
    ensures
        ({
            let r = anti_patterns_reply(list);
            let a = list[i];
            &&& r.result is Ok
            &&& decimal_of(list.len()).is_prefix_of(r.result->Ok_0)
            &&& contains_text(
                r.result->Ok_0,
                "### "@ + a.description@ + "\n✗ wrong:   "@ + a.wrong@ + "\n✓ correct: "@
                    + a.correct@ + "\n\n"@,
            )
            &&& a.id matches Some(n) ==> r.retrieved.contains(
                ("anti_patterns"@, n, "get_anti_patterns"@),
            )
        }),
{
    let title = " anti-pattern(s) — DO NOT do these:\n\n"@;
    let head = decimal_of(list.len()) + title;
    let body = written_out(list, listed_anti_pattern());
    lemma_written_out_holds(list, listed_anti_pattern(), i);
    lemma_contains_half(head, body, listed_anti_pattern()(list[i]));
    assert(head + body == decimal_of(list.len()) + (title + body));
    if list[i].id is Some {
        lemma_id_is_collected(list, anti_pattern_id(), i);
        lemma_handed_out_holds(
            ids_of(list, anti_pattern_id()),
            "anti_patterns"@,
            "get_anti_patterns"@,
            list[i].id->0,
        );
    }
}

/// Every unit is listed, or every unit of the kind that is asked for, under a heading for its kind
/// with the count of those of that kind; its summary is left out of a summary alone.
#[verifier::rlimit(60)]
pub proof fn law_every_unit_is_listed(args: JsonView, units: Seq<CodeUnit>, i: int)
    requires
        0 <= i < units.len(),
        args.text_field("kind"@) is None || args.text_field("kind"@) == Some(units[i].kind@),
    ensures
        ({
            let r = units_reply(args, units);
            let u = units[i];
            let same_kind = kept(units, |v: CodeUnit| v.kind@ == u.kind@);
            let summary = args.text_field("detail"@) == Some("summary"@);
            &&& r.result is Ok
            &&& contains_text(
                r.result->Ok_0,
                "## "@ + u.kind@ + " ("@ + decimal_of(same_kind.len()) + ")\n"@,
            )
            &&& contains_text(r.result->Ok_0, "- `"@ + u.name@ + "`"@)
            &&& !summary ==> contains_text(
                r.result->Ok_0,
                "- `"@ + u.name@ + "` — "@ + u.summary@ + "\n"@,
            )
        }),
{
    let filter = args.text_field("kind"@);
    let u = units[i];
    let detail = detail_of(args);
    let shown = kept(units, kind_is(filter));
    lemma_kept_finds(units, kind_is(filter), i);
    let k = choose|k: int| 0 <= k < shown.len() && shown[k] == u;
    let kinds = shown.map_values(unit_kind());
    assert(kinds[k] == u.kind@);
    crate::order::law_sorted_set(kinds);
    let sorted = sorted_set(kinds);
    assert(kinds.contains(u.kind@));
    assert(sorted.contains(u.kind@));
    let at = choose|at: int| 0 <= at < sorted.len() && sorted[at] == u.kind@;
    let group = kind_group(shown, detail);
    lemma_written_out_holds(sorted, group, at);
    let head = decimal_of(shown.len()) + " item(s):\n\n"@;
    let text = units_reply(args, units).result->Ok_0;
    lemma_contains_half(head, written_out(sorted, group), group(u.kind@));
    let members = kept(shown, kind_is(Some(u.kind@)));
    let alike = |v: CodeUnit| v.kind@ == u.kind@;
    lemma_kept_twice(units, kind_is(filter), kind_is(Some(u.kind@)), alike);
    let title = "## "@ + u.kind@ + " ("@ + decimal_of(members.len()) + ")\n"@;
    let rows = written_out(members, listed_unit(detail));
    assert(group(u.kind@) == title + rows + "\n"@);
    lemma_contains_itself(title);
    lemma_contains_half(title, rows, title);
    lemma_contains_half(title + rows, "\n"@, title);
    lemma_contains_through(text, group(u.kind@), title);
    lemma_kept_finds(shown, kind_is(Some(u.kind@)), k);
    let m = choose|m: int| 0 <= m < members.len() && members[m] == u;
    let row = listed_unit(detail)(u);
    lemma_written_out_holds(members, listed_unit(detail), m);
    lemma_contains_half(title, rows, row);
    lemma_contains_half(title + rows, "\n"@, row);
    lemma_contains_through(text, group(u.kind@), row);
    let name = "- `"@ + u.name@ + "`"@;
    reveal_strlit("`\n");
    reveal_strlit("` — ");
    reveal_strlit("`");
    reveal_strlit("\n");
    reveal_strlit("summary");
    reveal_strlit("full");
    assert("`\n"@ == "`"@ + "\n"@);
    let dash = "` — "@.skip(1);
    assert("` — "@ == "`"@ + dash);
    let plain = "- `"@ + u.name@ + "` — "@ + u.summary@ + "\n"@;
    lemma_contains_itself(name);
    if detail == Detail::Summary {
        assert(row == name + "\n"@);
        lemma_contains_half(name, "\n"@, name);
    } else {
        assert(plain == name + (dash + u.summary@ + "\n"@));
        lemma_contains_half(name, dash + u.summary@ + "\n"@, name);
        lemma_contains_itself(plain);
        let more = head_lines_of(u.compressed@, 8) + "\n"@;
        assert(row == plain || row == plain + more);
        lemma_contains_half(plain, more, plain);
        lemma_contains_half(plain, more, name);
        lemma_contains_through(text, row, plain);
    }
    lemma_contains_through(text, row, name);
}

/// Keeping twice keeps what both conditions hold of.
proof fn lemma_kept_twice(
    list: Seq<CodeUnit>,
    f: spec_fn(CodeUnit) -> bool,
    g: spec_fn(CodeUnit) -> bool,
    h: spec_fn(CodeUnit) -> bool,
)
    requires
        forall|x: CodeUnit| #[trigger] h(x) ==> f(x),
        forall|x: CodeUnit| #[trigger] h(x) == g(x),
    ensures
        kept(kept(list, f), g) == kept(list, h),
    decreases list.len(),
{
    if list.len() > 0 {
        let start = list.drop_last();
        lemma_kept_twice(start, f, g, h);
        let x = list.last();
        assert(h(x) == g(x));
        if f(x) {
            assert(kept(list, f).drop_last() == kept(start, f));
        }
    }
}

/// Where nothing fits, that is told: which kind there is none of, or that nothing is indexed.
pub proof fn law_empty_listing_says_why(args: JsonView, units: Seq<CodeUnit>)
    requires
        forall|k: int|
            0 <= k < units.len() ==> args.text_field("kind"@) is Some && args.text_field("kind"@)
                != Some((#[trigger] units[k]).kind@),
    ensures
        units_reply(args, units) == plain_answer(
            match args.text_field("kind"@) {
                Some(kind) => "No items of kind `"@ + kind + "`."@,
                None => "Index is empty. Run `cortex index`."@,
            },
        ),
{
    lemma_none_kept(units, kind_is(args.text_field("kind"@)));
}

} // verus!
