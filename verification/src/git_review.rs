//! Which patterns and anti-patterns bear on what a diff changed.

use crate::lists::{
    any, any_of, items, kept, lemma_kept_is, lemma_written_out_holds, select_all, write_refs,
    written_out,
};
use crate::model::{AntiPattern, Pattern};
use crate::numbers::{count_text, decimal_of, signed_decimal, signed_decimal_of};
use crate::order::{insert_text, inserted, law_sorted_set, sorted_set};
use crate::text::{
    bytes_in, byte_len, chars_of, contains, contains_text, ends_with, join, join_of,
    lemma_contains_half, lemma_contains_itself, lemma_contains_middle, lemma_contains_through,
    lines, lines_of, lowercase_of, same, uppercase_char, views, words, words_of, Text,
};
use vstd::prelude::*;

verus! {

/// The lines that are not empty.
pub open spec fn filled(list: Seq<Text>) -> Seq<Text>
    decreases list.len(),
{
    if list.len() == 0 {
        Seq::empty()
    } else if list.last().len() > 0 {
        filled(list.drop_last()).push(list.last())
    } else {
        filled(list.drop_last())
    }
}

/// The changed files that git lists, one on a line.
pub fn changed_files(listing: &str) -> (r: Vec<String>)
    ensures
        views(r@) == filled(lines_of(listing@)),
{
    let all_lines = lines(listing);
    let ghost all = views(all_lines@);
    let mut out: Vec<String> = Vec::new();
    let mut i: usize = 0;
    assert(views(out@) == filled(all.take(0)));
    while i < all_lines.len()
        invariant
            i <= all_lines@.len() == all.len(),
            all == views(all_lines@),
            views(out@) == filled(all.take(i as int)),
        decreases all_lines@.len() - i,
    {
        let ghost before = out@;
        assert(all.take(i + 1).drop_last() == all.take(i as int));
        assert(all.take(i + 1).last() == all_lines@[i as int]@);
        if chars_of(all_lines[i].as_str()).len() > 0 {
            out.push(all_lines[i].clone());
            assert(views(out@) == views(before).push(all_lines@[i as int]@));
        }
        i = i + 1;
    }
    assert(all.take(i as int) == all);
    out
}

/// Whether a changed file is looked into.
pub fn is_source(file: &str) -> (r: bool)
    ensures
        r == ".rs"@.is_suffix_of(file@),
{
    ends_with(file, ".rs")
}

/// A word that is likely the name of a type: it begins with a capital and takes four bytes or more.
pub open spec fn is_api_name(w: Text) -> bool {
    byte_len(w) >= 4 && w.len() > 0 && uppercase_char(w[0])
}

/// The names among words.
pub open spec fn names_among(words: Seq<Text>) -> Seq<Text>
    decreases words.len(),
{
    if words.len() == 0 {
        Seq::empty()
    } else if is_api_name(words.last()) {
        names_among(words.drop_last()).push(words.last())
    } else {
        names_among(words.drop_last())
    }
}

/// The names that sources mention, in the order in which they occur.
pub open spec fn names_mentioned(sources: Seq<Text>) -> Seq<Text>
    decreases sources.len(),
{
    if sources.len() == 0 {
        Seq::empty()
    } else {
        names_mentioned(sources.drop_last()) + names_among(words_of(sources.last()))
    }
}

/// Sorting more texts into a set.
pub open spec fn all_inserted(set: Seq<Text>, more: Seq<Text>) -> Seq<Text>
    decreases more.len(),
{
    if more.len() == 0 {
        set
    } else {
        inserted(all_inserted(set, more.drop_last()), more.last())
    }
}

/// The set of two lists is the set of the one with the other sorted in.
proof fn lemma_set_of_two(a: Seq<Text>, b: Seq<Text>)
    ensures
        sorted_set(a + b) == all_inserted(sorted_set(a), b),
    decreases b.len(),
{
    if b.len() == 0 {
        assert(a + b == a);
    } else {
        lemma_set_of_two(a, b.drop_last());
        assert((a + b).drop_last() == a + b.drop_last());
        assert((a + b).last() == b.last());
    }
}

/// Sorts the names of a source into a set of names.
fn add_names(set: &mut Vec<String>, source: &str)
    ensures
        views(final(set)@) == all_inserted(views(old(set)@), names_among(words_of(source@))),
{
    let ws = words(source);
    let ghost all = views(ws@);
    let ghost start = views(set@);
    let mut i: usize = 0;
    assert(names_among(all.take(0)) == Seq::<Text>::empty());
    while i < ws.len()
        invariant
            i <= ws@.len() == all.len(),
            all == views(ws@),
            views(set@) == all_inserted(start, names_among(all.take(i as int))),
        decreases ws@.len() - i,
    {
        assert(all.take(i + 1).drop_last() == all.take(i as int));
        assert(all.take(i + 1).last() == ws@[i as int]@);
        let w = ws[i].as_str();
        let chars = chars_of(w);
        if bytes_in(w) >= 4 && chars.len() > 0 && chars[0].is_uppercase() {
            let ghost before = names_among(all.take(i as int));
            insert_text(set, w);
            assert(before.push(w@).drop_last() == before);
        }
        i = i + 1;
    }
    assert(all.take(i as int) == all);
}

/// The names that sources mention, each once and in order.
pub fn mentioned_apis(sources: &Vec<String>) -> (r: Vec<String>)
    ensures
        views(r@) == sorted_set(names_mentioned(views(sources@))),
{
    let ghost all = views(sources@);
    let mut set: Vec<String> = Vec::new();
    let mut i: usize = 0;
    assert(views(set@) == sorted_set(names_mentioned(all.take(0))));
    while i < sources.len()
        invariant
            i <= sources@.len() == all.len(),
            all == views(sources@),
            views(set@) == sorted_set(names_mentioned(all.take(i as int))),
        decreases sources@.len() - i,
    {
        assert(all.take(i + 1).drop_last() == all.take(i as int));
        assert(all.take(i + 1).last() == sources@[i as int]@);
        proof {
            lemma_set_of_two(
                names_mentioned(all.take(i as int)),
                names_among(words_of(all[i as int])),
            );
        }
        add_names(&mut set, sources[i].as_str());
        i = i + 1;
    }
    assert(all.take(i as int) == all);
    set
}

/// The text is one of the names.
pub open spec fn is_one_of(names: Seq<Text>) -> spec_fn(String) -> bool {
    |s: String| names.contains(s@)
}

/// The pattern uses a name that is mentioned.
pub open spec fn uses_one_of(names: Seq<Text>) -> spec_fn(Pattern) -> bool {
    |p: Pattern| any_of(p.uses@, is_one_of(names))
}

/// The tag is part of a name, whatever the case.
pub open spec fn is_part_of_one(names: Seq<Text>) -> spec_fn(String) -> bool {
    |t: String|
        exists|i: int|
            0 <= i < names.len() && contains_text(
                lowercase_of(#[trigger] names[i]),
                lowercase_of(t@),
            )
}

/// A name occurs in the text.
pub open spec fn names_one_of(s: Text, names: Seq<Text>) -> bool {
    exists|i: int| 0 <= i < names.len() && contains_text(s, #[trigger] names[i])
}

/// The anti-pattern has a tag that is part of a name, or mentions a name itself.
pub open spec fn bears_on(names: Seq<Text>) -> spec_fn(AntiPattern) -> bool {
    |a: AntiPattern|
        any_of(a.tags@, is_part_of_one(names)) || names_one_of(a.wrong@, names) || names_one_of(
            a.description@,
            names,
        )
}

/// The number of an entry, or nought where it has none.
pub open spec fn id_or_zero(id: Option<i64>) -> int {
    match id {
        Some(n) => n as int,
        None => 0,
    }
}

/// A changed file in the report.
pub open spec fn file_line() -> spec_fn(String) -> Text {
    |f: String| "  "@ + f@ + "\n"@
}

/// A pattern in the report.
pub open spec fn relevant_pattern() -> spec_fn(Pattern) -> Text {
    |p: Pattern|
        "  ["@ + signed_decimal_of(id_or_zero(p.id)) + "] "@ + p.name@ + " (survival "@
            + p.survival_rate.percent@ + "%)\n      "@ + p.intent@ + "\n      uses: "@ + join_of(
            views(p.uses@),
            ", "@,
        ) + "\n\n"@
}

/// An anti-pattern in the report.
pub open spec fn relevant_anti_pattern() -> spec_fn(AntiPattern) -> Text {
    |a: AntiPattern|
        "  ["@ + signed_decimal_of(id_or_zero(a.id)) + "] "@ + a.description@
            + "\n      WRONG:   "@ + a.wrong@ + "\n      CORRECT: "@ + a.correct@ + "\n\n"@
}

/// The report on a diff against `base`: the changed files, and the patterns and anti-patterns that
/// bear on the names that are mentioned in them.
pub open spec fn review_report(
    base: Text,
    changed: Seq<String>,
    names: Seq<Text>,
    patterns: Seq<Pattern>,
    anti_patterns: Seq<AntiPattern>,
) -> Text {
    let ps = kept(patterns, uses_one_of(names));
    let aps = kept(anti_patterns, bears_on(names));
    if changed.len() == 0 {
        "git-review: no changed files between "@ + base + " and HEAD\n"@
    } else {
        let head = "git-review: "@ + decimal_of(changed.len()) + " changed files ("@ + base
            + "..HEAD)\n\nChanged files:\n"@ + written_out(changed, file_line()) + "\n"@;
        if ps.len() == 0 && aps.len() == 0 {
            head + "No patterns or anti-patterns matched the changed files.\n"@
        } else {
            let a = if ps.len() == 0 {
                head
            } else {
                head + "## Relevant Patterns ("@ + decimal_of(ps.len()) + " matched)\n\n"@
                    + written_out(ps, relevant_pattern())
            };
            let b = if aps.len() == 0 {
                a
            } else {
                a + "## Relevant Anti-Patterns ("@ + decimal_of(aps.len()) + " matched)\n\n"@
                    + written_out(aps, relevant_anti_pattern())
            };
            b
                + "Run `cortex pattern revert <id>` to mark a pattern as not used in this diff.\n"@
        }
    }
}

/// Whether `s` is one of the names.
fn among(names: &Vec<String>, s: &str) -> (r: bool)
    ensures
        r == views(names@).contains(s@),
{
    let ghost all = views(names@);
    let mut i: usize = 0;
    while i < names.len()
        invariant
            i <= names@.len() == all.len(),
            all == views(names@),
            forall|k: int| 0 <= k < i ==> #[trigger] all[k] != s@,
        decreases names@.len() - i,
    {
        assert(all[i as int] == names@[i as int]@);
        if same(names[i].as_str(), s) {
            return true;
        }
        i = i + 1;
    }
    false
}

/// Whether the tag is part of a name.
fn part_of_one(names: &Vec<String>, tag: &str) -> (r: bool)
    ensures
        r == exists|i: int|
            0 <= i < names@.len() && contains_text(
                lowercase_of(#[trigger] views(names@)[i]),
                lowercase_of(tag@),
            ),
{
    let low = tag.to_lowercase();
    let ghost all = views(names@);
    let mut i: usize = 0;
    while i < names.len()
        invariant
            i <= names@.len() == all.len(),
            all == views(names@),
            low@ == lowercase_of(tag@),
            forall|k: int|
                0 <= k < i ==> !contains_text(lowercase_of(#[trigger] all[k]), lowercase_of(tag@)),
        decreases names@.len() - i,
    {
        assert(all[i as int] == names@[i as int]@);
        if contains(names[i].as_str().to_lowercase().as_str(), low.as_str()) {
            return true;
        }
        i = i + 1;
    }
    false
}

/// Whether a name occurs in the text.
fn mentions_one(s: &str, names: &Vec<String>) -> (r: bool)
    ensures
        r == names_one_of(s@, views(names@)),
{
    let ghost all = views(names@);
    let mut i: usize = 0;
    while i < names.len()
        invariant
            i <= names@.len() == all.len(),
            all == views(names@),
            forall|k: int| 0 <= k < i ==> !contains_text(s@, #[trigger] all[k]),
        decreases names@.len() - i,
    {
        assert(all[i as int] == names@[i as int]@);
        if contains(s, names[i].as_str()) {
            return true;
        }
        i = i + 1;
    }
    false
}

/// Whether the pattern uses a name that is mentioned.
fn pattern_applies(p: &Pattern, names: &Vec<String>) -> (r: bool)
    ensures
        r == uses_one_of(views(names@))(*p),
{
    let hit = |s: &String| -> (b: bool)
        ensures
            b == is_one_of(views(names@))(*s),
        { among(names, s.as_str()) };
    any(&p.uses, hit, Ghost(is_one_of(views(names@))))
}

/// Whether the anti-pattern bears on a name that is mentioned.
fn anti_pattern_applies(a: &AntiPattern, names: &Vec<String>) -> (r: bool)
    ensures
        r == bears_on(views(names@))(*a),
{
    let hit = |s: &String| -> (b: bool)
        ensures
            b == is_part_of_one(views(names@))(*s),
        { part_of_one(names, s.as_str()) };
    any(&a.tags, hit, Ghost(is_part_of_one(views(names@)))) || mentions_one(
        a.wrong.as_str(),
        names,
    ) || mentions_one(a.description.as_str(), names)
}

/// The number of an entry as a text.
fn id_text(id: Option<i64>) -> (r: String)
    ensures
        r@ == signed_decimal_of(id_or_zero(id)),
{
    match id {
        Some(n) => signed_decimal(n),
        None => signed_decimal(0),
    }
}

/// The patterns in the report.
fn write_patterns(list: &Vec<&Pattern>) -> (r: String)
    ensures
        r@ == written_out(items(list@), relevant_pattern()),
{
    let line = |p: &Pattern| -> (s: String)
        ensures
            s@ == relevant_pattern()(*p),
        {
            let mut s = "  [".to_owned();
            s.append(id_text(p.id).as_str());
            s.append("] ");
            s.append(p.name.as_str());
            s.append(" (survival ");
            s.append(p.survival_rate.percent.as_str());
            s.append("%)\n      ");
            s.append(p.intent.as_str());
            s.append("\n      uses: ");
            s.append(join(&p.uses, ", ").as_str());
            s.append("\n\n");
            s
        };
    write_refs(list, line, Ghost(relevant_pattern()))
}

/// The anti-patterns in the report.
fn write_anti_patterns(list: &Vec<&AntiPattern>) -> (r: String)
    ensures
        r@ == written_out(items(list@), relevant_anti_pattern()),
{
    let line = |a: &AntiPattern| -> (s: String)
        ensures
            s@ == relevant_anti_pattern()(*a),
        {
            let mut s = "  [".to_owned();
            s.append(id_text(a.id).as_str());
            s.append("] ");
            s.append(a.description.as_str());
            s.append("\n      WRONG:   ");
            s.append(a.wrong.as_str());
            s.append("\n      CORRECT: ");
            s.append(a.correct.as_str());
            s.append("\n\n");
            s
        };
    write_refs(list, line, Ghost(relevant_anti_pattern()))
}

/// The report on a diff against `base`: `sources` are the contents of the changed source files.
pub fn run_git_review(
    base: &str,
    changed: &Vec<String>,
    sources: &Vec<String>,
    patterns: &Vec<Pattern>,
    anti_patterns: &Vec<AntiPattern>,
) -> (r: String)
    ensures
        r@ == review_report(
            base@,
            changed@,
            sorted_set(names_mentioned(views(sources@))),
            patterns@,
            anti_patterns@,
        ),
{
    if changed.len() == 0 {
        let mut out = "git-review: no changed files between ".to_owned();
        out.append(base);
        out.append(" and HEAD\n");
        return out;
    }
    let names = mentioned_apis(sources);
    let applies = |p: &Pattern| -> (b: bool)
        ensures
            b == uses_one_of(views(names@))(*p),
        { pattern_applies(p, &names) };
    let ps = select_all(patterns, applies, Ghost(uses_one_of(views(names@))));
    let bears = |a: &AntiPattern| -> (b: bool)
        ensures
            b == bears_on(views(names@))(*a),
        { anti_pattern_applies(a, &names) };
    let aps = select_all(anti_patterns, bears, Ghost(bears_on(views(names@))));
    assert(items(ps@).len() == ps@.len());
    assert(items(aps@).len() == aps@.len());
    let line = |f: &String| -> (s: String)
        ensures
            s@ == file_line()(*f),
        {
            let mut s = "  ".to_owned();
            s.append(f.as_str());
            s.append("\n");
            s
        };
    let mut out = "git-review: ".to_owned();
    out.append(count_text(changed.len()).as_str());
    out.append(" changed files (");
    out.append(base);
    out.append("..HEAD)\n\nChanged files:\n");
    out.append(crate::lists::write_all(changed, line, Ghost(file_line())).as_str());
    out.append("\n");
    if ps.len() == 0 && aps.len() == 0 {
        out.append("No patterns or anti-patterns matched the changed files.\n");
        return out;
    }
    if ps.len() > 0 {
        out.append("## Relevant Patterns (");
        out.append(count_text(ps.len()).as_str());
        out.append(" matched)\n\n");
        out.append(write_patterns(&ps).as_str());
    }
    if aps.len() > 0 {
        out.append("## Relevant Anti-Patterns (");
        out.append(count_text(aps.len()).as_str());
        out.append(" matched)\n\n");
        out.append(write_anti_patterns(&aps).as_str());
    }
    out.append("Run `cortex pattern revert <id>` to mark a pattern as not used in this diff.\n");
    out
}

/// Every name that counts begins with a capital and occurs in a source.
pub proof fn law_names_are_capitalised(words: Seq<Text>, i: int)
    requires
        0 <= i < names_among(words).len(),
    ensures
        is_api_name(names_among(words)[i]),
        words.contains(names_among(words)[i]),
    decreases words.len(),
{
    let start = words.drop_last();
    if i < names_among(start).len() {
        law_names_are_capitalised(start, i);
        let k = choose|k: int| 0 <= k < start.len() && start[k] == names_among(start)[i];
        assert(words[k] == names_among(words)[i]);
    } else {
        assert(words[words.len() - 1] == names_among(words)[i]);
    }
}

/// A pattern bears on a diff just where one of the names that it uses is among the names that the
/// changed sources mention.
pub proof fn law_pattern_is_relevant_by_its_uses(
    patterns: Seq<Pattern>,
    names: Seq<Text>,
    i: int,
)
    requires
        0 <= i < patterns.len(),
    ensures
        kept(patterns, uses_one_of(names)).contains(patterns[i]) <==> exists|k: int|
            0 <= k < patterns[i].uses@.len() && names.contains((#[trigger] patterns[i].uses@[k])@),
{
    lemma_kept_is(patterns, uses_one_of(names), patterns[i]);
    if exists|k: int|
        0 <= k < patterns[i].uses@.len() && names.contains((#[trigger] patterns[i].uses@[k])@) {
        let k = choose|k: int|
            0 <= k < patterns[i].uses@.len() && names.contains((#[trigger] patterns[i].uses@[k])@);
        assert(is_one_of(names)(patterns[i].uses@[k]));
    }
}

/// An anti-pattern bears on a diff just where one of its tags is part of a name that the changed
/// sources mention, whatever the case, or where its wrong form or its description holds such a name.
pub proof fn law_anti_pattern_is_relevant_by_tag_or_text(
    anti_patterns: Seq<AntiPattern>,
    names: Seq<Text>,
    i: int,
)
    requires
        0 <= i < anti_patterns.len(),
    ensures
        kept(anti_patterns, bears_on(names)).contains(anti_patterns[i]) <==> {
            ||| exists|k: int, j: int|
                0 <= k < anti_patterns[i].tags@.len() && 0 <= j < names.len() && contains_text(
                    lowercase_of(#[trigger] names[j]),
                    lowercase_of((#[trigger] anti_patterns[i].tags@[k])@),
                )
            ||| exists|j: int|
                0 <= j < names.len() && contains_text(anti_patterns[i].wrong@, #[trigger] names[j])
            ||| exists|j: int|
                0 <= j < names.len() && contains_text(
                    anti_patterns[i].description@,
                    #[trigger] names[j],
                )
        },
{
    let a = anti_patterns[i];
    lemma_kept_is(anti_patterns, bears_on(names), a);
    if exists|k: int, j: int|
        0 <= k < a.tags@.len() && 0 <= j < names.len() && contains_text(
            lowercase_of(#[trigger] names[j]),
            lowercase_of((#[trigger] a.tags@[k])@),
        ) {
        let (k, j) = choose|k: int, j: int|
            0 <= k < a.tags@.len() && 0 <= j < names.len() && contains_text(
                lowercase_of(#[trigger] names[j]),
                lowercase_of((#[trigger] a.tags@[k])@),
            );
        assert(is_part_of_one(names)(a.tags@[k]));
    }
    if any_of(a.tags@, is_part_of_one(names)) {
        let k = choose|k: int| 0 <= k < a.tags@.len() && is_part_of_one(names)(#[trigger] a.tags@[k]);
        let j = choose|j: int|
            0 <= j < names.len() && contains_text(
                lowercase_of(#[trigger] names[j]),
                lowercase_of(a.tags@[k]@),
            );
        assert(contains_text(lowercase_of(names[j]), lowercase_of(a.tags@[k]@)));
    }
}

/// Every word of a changed source that begins with a capital and takes four bytes or more is among
/// the names that are looked for, and nothing else is.
pub proof fn law_capitalised_words_are_names(sources: Seq<Text>, name: Text)
    ensures
        sorted_set(names_mentioned(sources)).contains(name) <==> vstd::utf8::encode_utf8(
            name,
        ).len() >= 4 && name.len() > 0 && uppercase_char(name[0]) && exists|i: int|
            0 <= i < sources.len() && words_of(#[trigger] sources[i]).contains(name),
{
    law_sorted_set(names_mentioned(sources));
    lemma_names_mentioned(sources, name);
}

/// The names mentioned are those among the words of each source.
proof fn lemma_names_mentioned(sources: Seq<Text>, name: Text)
    ensures
        names_mentioned(sources).contains(name) <==> is_api_name(name) && exists|i: int|
            0 <= i < sources.len() && words_of(#[trigger] sources[i]).contains(name),
    decreases sources.len(),
{
    if sources.len() > 0 {
        let start = sources.drop_last();
        lemma_names_mentioned(start, name);
        let a = names_mentioned(start);
        let b = names_among(words_of(sources.last()));
        lemma_names_among(words_of(sources.last()), name);
        assert((a + b).contains(name) <==> a.contains(name) || b.contains(name)) by {
            if a.contains(name) {
                let k = choose|k: int| 0 <= k < a.len() && a[k] == name;
                assert((a + b)[k] == name);
            }
            if b.contains(name) {
                let k = choose|k: int| 0 <= k < b.len() && b[k] == name;
                assert((a + b)[a.len() + k] == name);
            }
            if (a + b).contains(name) {
                let k = choose|k: int| 0 <= k < (a + b).len() && (a + b)[k] == name;
                if k < a.len() {
                    assert(a[k] == name);
                } else {
                    assert(b[k - a.len()] == name);
                }
            }
        }
        if exists|i: int| 0 <= i < start.len() && words_of(#[trigger] start[i]).contains(name) {
            let i = choose|i: int|
                0 <= i < start.len() && words_of(#[trigger] start[i]).contains(name);
            assert(words_of(sources[i]).contains(name));
        }
        if words_of(sources.last()).contains(name) {
            assert(words_of(sources[sources.len() - 1]).contains(name));
        }
        if exists|i: int| 0 <= i < sources.len() && words_of(#[trigger] sources[i]).contains(name) {
            let i = choose|i: int|
                0 <= i < sources.len() && words_of(#[trigger] sources[i]).contains(name);
            if i < start.len() {
                assert(words_of(start[i]).contains(name));
            }
        }
    }
}

/// The names among words are those words that are names.
proof fn lemma_names_among(words: Seq<Text>, name: Text)
    ensures
        names_among(words).contains(name) <==> is_api_name(name) && words.contains(name),
    decreases words.len(),
{
    let all = names_among(words);
    if all.contains(name) {
        let k = choose|k: int| 0 <= k < all.len() && all[k] == name;
        law_names_are_capitalised(words, k);
    }
    if is_api_name(name) && words.contains(name) {
        let start = words.drop_last();
        let k = choose|k: int| 0 <= k < words.len() && words[k] == name;
        if k < start.len() {
            assert(start[k] == name);
            lemma_names_among(start, name);
            let before = names_among(start);
            let j = choose|j: int| 0 <= j < before.len() && before[j] == name;
            assert(all[j] == name);
        } else {
            assert(all[all.len() - 1] == name);
        }
    }
}

/// The changed files are the lines of git's listing that are not empty, in order.
pub proof fn law_every_changed_file_is_listed(list: Seq<Text>, line: Text)
    ensures
        filled(Seq::empty()).len() == 0,
        line.len() > 0 ==> filled(list.push(line)) == filled(list).push(line),
        line.len() == 0 ==> filled(list.push(line)) == filled(list),
{
    assert(list.push(line).drop_last() == list);
}

/// The report on a diff lists every changed file, every pattern that bears on it with its intent and
/// its uses, and every anti-pattern that does with the wrong form and the correct one.
pub proof fn law_review_shows_what_bears_on_the_diff(
    base: Text,
    changed: Seq<String>,
    names: Seq<Text>,
    patterns: Seq<Pattern>,
    anti_patterns: Seq<AntiPattern>,
    i: int,
)
    requires
        changed.len() > 0,
    ensures
        0 <= i < changed.len() ==> contains_text(
            review_report(base, changed, names, patterns, anti_patterns),
            "  "@ + changed[i]@ + "\n"@,
        ),
        0 <= i < patterns.len() && kept(patterns, uses_one_of(names)).contains(patterns[i])
            ==> contains_text(
            review_report(base, changed, names, patterns, anti_patterns),
            patterns[i].intent@ + "\n      uses: "@ + join_of(views(patterns[i].uses@), ", "@)
                + "\n\n"@,
        ),
        0 <= i < anti_patterns.len() && kept(anti_patterns, bears_on(names)).contains(
            anti_patterns[i],
        ) ==> contains_text(
            review_report(base, changed, names, patterns, anti_patterns),
            anti_patterns[i].description@ + "\n      WRONG:   "@ + anti_patterns[i].wrong@
                + "\n      CORRECT: "@ + anti_patterns[i].correct@ + "\n\n"@,
        ),
{
    let ps = kept(patterns, uses_one_of(names));
    let aps = kept(anti_patterns, bears_on(names));
    let front = "git-review: "@ + decimal_of(changed.len()) + " changed files ("@ + base
        + "..HEAD)\n\nChanged files:\n"@;
    let files = written_out(changed, file_line());
    let head = front + files + "\n"@;
    let none = "No patterns or anti-patterns matched the changed files.\n"@;
    let hint = "Run `cortex pattern revert <id>` to mark a pattern as not used in this diff.\n"@;
    let pt = "## Relevant Patterns ("@ + decimal_of(ps.len()) + " matched)\n\n"@;
    let at = "## Relevant Anti-Patterns ("@ + decimal_of(aps.len()) + " matched)\n\n"@;
    let pw = written_out(ps, relevant_pattern());
    let aw = written_out(aps, relevant_anti_pattern());
    let a = if ps.len() == 0 {
        head
    } else {
        head + pt + pw
    };
    let b = if aps.len() == 0 {
        a
    } else {
        a + at + aw
    };
    let report = review_report(base, changed, names, patterns, anti_patterns);
    assert(ps.len() > 0 ==> head + "## Relevant Patterns ("@ + decimal_of(ps.len())
        + " matched)\n\n"@ + pw =~= head + pt + pw);
    assert(aps.len() > 0 ==> a + "## Relevant Anti-Patterns ("@ + decimal_of(aps.len())
        + " matched)\n\n"@ + aw =~= a + at + aw);
    assert(report == if ps.len() == 0 && aps.len() == 0 {
        head + none
    } else {
        b + hint
    });
    if 0 <= i < changed.len() {
        let part = file_line()(changed[i]);
        lemma_written_out_holds(changed, file_line(), i);
        lemma_contains_middle(front, files, "\n"@);
        lemma_contains_through(head, files, part);
        lemma_contains_half(head, none, part);
        lemma_contains_half(head, pt, part);
        lemma_contains_half(head + pt, pw, part);
        lemma_contains_half(a, at, part);
        lemma_contains_half(a + at, aw, part);
        lemma_contains_half(b, hint, part);
    }
    if 0 <= i < patterns.len() && ps.contains(patterns[i]) {
        let p = patterns[i];
        let k = choose|k: int| 0 <= k < ps.len() && ps[k] == p;
        let part = p.intent@ + "\n      uses: "@ + join_of(views(p.uses@), ", "@) + "\n\n"@;
        let lead = "  ["@ + signed_decimal_of(id_or_zero(p.id)) + "] "@ + p.name@ + " (survival "@
            + p.survival_rate.percent@ + "%)\n      "@;
        assert(relevant_pattern()(p) =~= lead + part);
        lemma_contains_itself(part);
        lemma_contains_half(lead, part, part);
        lemma_written_out_holds(ps, relevant_pattern(), k);
        lemma_contains_through(pw, relevant_pattern()(p), part);
        lemma_contains_half(head + pt, pw, part);
        lemma_contains_half(a, at, part);
        lemma_contains_half(a + at, aw, part);
        lemma_contains_half(b, hint, part);
    }
    if 0 <= i < anti_patterns.len() && aps.contains(anti_patterns[i]) {
        let x = anti_patterns[i];
        let k = choose|k: int| 0 <= k < aps.len() && aps[k] == x;
        let part = x.description@ + "\n      WRONG:   "@ + x.wrong@ + "\n      CORRECT: "@
            + x.correct@ + "\n\n"@;
        let lead = "  ["@ + signed_decimal_of(id_or_zero(x.id)) + "] "@;
        assert(relevant_anti_pattern()(x) =~= lead + part);
        lemma_contains_itself(part);
        lemma_contains_half(lead, part, part);
        lemma_written_out_holds(aps, relevant_anti_pattern(), k);
        lemma_contains_through(aw, relevant_anti_pattern()(x), part);
        lemma_contains_half(a + at, aw, part);
        lemma_contains_half(b, hint, part);
    }
}

} // verus!
