//! The tools that answer for a symbol: its syntax, examples of its use, and guidance.

use crate::json::{Json, JsonView};
use crate::lists::{
    find_first, first_of, head_lines, head_lines_of, items, kept, lemma_first_kept,
    lemma_kept_agree, lemma_kept_finds, lemma_kept_grows, lemma_kept_holds, lemma_none_kept,
    lemma_numbered_out_holds, lemma_written_out_holds, numbered_out, select, texts_of, texts_of_refs,
    write_numbered, write_numbered_refs, written_out,
};
use crate::mcp::reply::{
    at_most, number_or, number_or_of, plain_answer, plain_refusal, text_or, text_or_of, with_gap,
    Reply, ReplyView,
};
use crate::model::CodeUnit;
use crate::numbers::{count_text, decimal_of, signed_decimal, signed_decimal_of};
use crate::order::{before, by_key, rank_refs, sorted_by, text_lt};
use crate::text::{
    blank, contains, contains_text, ends_with, eq_ignore_ascii_case, is_blank, join, join_of,
    lemma_contains_half, lemma_contains_itself, lemma_contains_middle, lemma_join_holds, lines, lines_of, lowercase_of, opt_text, same, same_ignoring_ascii_case, skip_chars, starts_with, trim,
    trim_of, views, Text,
};
use vstd::prelude::*;

verus! {

/// The unit has the id `symbol`.
pub open spec fn has_id(symbol: Text) -> spec_fn(CodeUnit) -> bool {
    |u: CodeUnit| u.id@ == symbol
}

/// The unit has the name `symbol`.
pub open spec fn has_name(symbol: Text) -> spec_fn(CodeUnit) -> bool {
    |u: CodeUnit| u.name@ == symbol
}

/// The id of the unit ends with `symbol` as its last part.
pub open spec fn has_last_part(symbol: Text) -> spec_fn(CodeUnit) -> bool {
    |u: CodeUnit| ("::"@ + symbol).is_suffix_of(u.id@)
}

/// The name of the unit is `symbol` up to the case of its letters.
pub open spec fn has_name_like(symbol: Text) -> spec_fn(CodeUnit) -> bool {
    |u: CodeUnit| same_ignoring_ascii_case(u.name@, symbol)
}

/// The name of the unit holds `symbol`, whatever the case.
pub open spec fn name_holds(symbol: Text) -> spec_fn(CodeUnit) -> bool {
    |u: CodeUnit| contains_text(lowercase_of(u.name@), lowercase_of(symbol))
}

/// The unit meant by `symbol`: by its id, else by its name, else by the last part of its id, else
/// by its name up to the case of letters; each time the first such unit.
pub open spec fn unit_for(symbol: Text, units: Seq<CodeUnit>) -> Option<CodeUnit> {
    if kept(units, has_id(symbol)).len() > 0 {
        Some(kept(units, has_id(symbol))[0])
    } else if kept(units, has_name(symbol)).len() > 0 {
        Some(kept(units, has_name(symbol))[0])
    } else if kept(units, has_last_part(symbol)).len() > 0 {
        Some(kept(units, has_last_part(symbol))[0])
    } else if kept(units, has_name_like(symbol)).len() > 0 {
        Some(kept(units, has_name_like(symbol))[0])
    } else {
        None
    }
}

/// The name of a unit.
pub open spec fn unit_name() -> spec_fn(CodeUnit) -> Text {
    |u: CodeUnit| u.name@
}

/// The first `limit` units whose name holds `symbol`, by name.
pub open spec fn similar_units(symbol: Text, units: Seq<CodeUnit>, limit: int) -> Seq<CodeUnit> {
    sorted_by(first_of(kept(units, name_holds(symbol)), limit), unit_name())
}

/// The unit meant by `symbol`.
pub fn find_symbol_unit<'a>(symbol: &str, units: &'a Vec<CodeUnit>) -> (r: Option<&'a CodeUnit>)
    ensures
        match r {
            Some(u) => unit_for(symbol@, units@) == Some(*u),
            None => unit_for(symbol@, units@) is None,
        },
{
    let same_id = |u: &CodeUnit| -> (b: bool)
        ensures
            b == (u.id@ == symbol@),
        { same(u.id.as_str(), symbol) };
    let by_id = find_first(units, same_id, Ghost(has_id(symbol@)));
    if by_id.is_some() {
        return by_id;
    }
    let same_name = |u: &CodeUnit| -> (b: bool)
        ensures
            b == (u.name@ == symbol@),
        { same(u.name.as_str(), symbol) };
    let by_name = find_first(units, same_name, Ghost(has_name(symbol@)));
    if by_name.is_some() {
        return by_name;
    }
    let mut last = "::".to_owned();
    last.append(symbol);
    let same_part = |u: &CodeUnit| -> (b: bool)
        ensures
            b == last@.is_suffix_of(u.id@),
        { ends_with(u.id.as_str(), last.as_str()) };
    let by_part = find_first(units, same_part, Ghost(has_last_part(symbol@)));
    if by_part.is_some() {
        return by_part;
    }
    let like_name = |u: &CodeUnit| -> (b: bool)
        ensures
            b == same_ignoring_ascii_case(u.name@, symbol@),
        { eq_ignore_ascii_case(u.name.as_str(), symbol) };
    find_first(units, like_name, Ghost(has_name_like(symbol@)))
}

/// The first `limit` units whose name holds `symbol`, by name.
pub fn similar_symbol_units<'a>(symbol: &str, units: &'a Vec<CodeUnit>, limit: usize) -> (r: Vec<
    &'a CodeUnit,
>)
    ensures
        items(r@) == similar_units(symbol@, units@, limit as int),
{
    let low = symbol.to_lowercase();
    let holds = |u: &CodeUnit| -> (b: bool)
        ensures
            b == contains_text(lowercase_of(u.name@), low@),
        { contains(u.name.as_str().to_lowercase().as_str(), low.as_str()) };
    let found = select(units, limit, holds, Ghost(name_holds(symbol@)));
    let ahead = |u: &CodeUnit, v: &CodeUnit| -> (b: bool)
        ensures
            b == text_lt(u.name@, v.name@),
        { before(u.name.as_str(), v.name.as_str()) };
    rank_refs(&found, ahead, Ghost(by_key(unit_name())))
}

/// What the dense form of a unit tells of its shape.
#[verifier::ext_equal]
pub struct Shape {
    pub sig: Text,
    pub fields: Text,
    pub methods: Text,
    pub variants: Seq<Text>,
}

/// What stands behind the prefix `mark` of `line`, trimmed.
pub open spec fn behind(line: Text, mark: Text) -> Text {
    trim_of(line.skip(mark.len() as int))
}

/// The shape that the lines of a dense form tell of the item `name`. Of repeated entries the last
/// one counts; variants add up.
pub open spec fn shape_of(lines: Seq<Text>, name: Text) -> Shape
    decreases lines.len(),
{
    if lines.len() == 0 {
        Shape { sig: Seq::empty(), fields: Seq::empty(), methods: Seq::empty(), variants: Seq::empty() }
    } else {
        let before = shape_of(lines.drop_last(), name);
        let line = trim_of(lines.last());
        if "sig:"@.is_prefix_of(line) {
            Shape { sig: behind(line, "sig:"@), ..before }
        } else if "fields:"@.is_prefix_of(line) {
            Shape { fields: behind(line, "fields:"@), ..before }
        } else if "methods:"@.is_prefix_of(line) {
            Shape { methods: behind(line, "methods:"@), ..before }
        } else if (name + "::"@).is_prefix_of(line) {
            Shape { variants: before.variants.push(line), ..before }
        } else {
            before
        }
    }
}

/// A section with a title, left out where it is empty.
pub open spec fn section(text: Text, title: Text, body: Text) -> Text {
    if body.len() == 0 {
        text
    } else {
        text + title + body + "\n"@
    }
}

/// The line of a listing for one variant.
pub open spec fn dash_line() -> spec_fn(Text) -> Text {
    |v: Text| "- "@ + v + "\n"@
}

/// The report on the syntax of a unit.
pub open spec fn syntax_report(u: CodeUnit) -> Text {
    let s = shape_of(lines_of(u.compressed@), u.name@);
    let head = "Symbol: "@ + u.name@ + "\nKind: "@ + u.kind@ + "\nModule: "@ + u.module@ + "\n"@;
    let with_sig = section(head, "\nSignature\n"@, s.sig);
    let with_fields = section(with_sig, "\nFields\n"@, s.fields);
    let with_methods = section(with_fields, "\nMethods\n"@, s.methods);
    let all = if s.variants.len() == 0 {
        with_methods
    } else {
        with_methods + "\nVariants\n"@ + written_out(first_of(s.variants, 20), dash_line())
    };
    if s.sig.len() == 0 && s.fields.len() == 0 && s.methods.len() == 0 && s.variants.len() == 0 {
        all
            + "\nNo structured signature details found. Use get_item for full compressed entry."@
    } else {
        all
    }
}

/// The unit as one of several suggestions.
pub open spec fn suggestion() -> spec_fn(CodeUnit) -> Text {
    |u: CodeUnit| u.name@ + " ("@ + u.module@ + ")"@
}

/// What `get_syntax` answers.
pub open spec fn syntax_reply(args: JsonView, units: Seq<CodeUnit>) -> ReplyView {
    match args.text_field("symbol_name"@) {
        None => plain_refusal("missing `symbol_name`"@),
        Some(symbol) => match unit_for(symbol, units) {
            Some(u) => plain_answer(syntax_report(u)),
            None => {
                let similar = similar_units(symbol, units, 5);
                if similar.len() == 0 {
                    with_gap(
                        plain_refusal("no symbol found for `"@ + symbol + "`"@),
                        "get_syntax"@,
                        symbol,
                        "no symbol match or similar suggestions"@,
                    )
                } else {
                    with_gap(
                        plain_refusal(
                            "no exact symbol found for `"@ + symbol + "`. Similar: "@ + join_of(
                                similar.map_values(suggestion()),
                                " | "@,
                            ),
                        ),
                        "get_syntax"@,
                        symbol,
                        "no exact symbol match; only similar suggestions"@,
                    )
                }
            },
        },
    }
}

/// The parts of a unit's shape.
struct ShapeText {
    sig: String,
    fields: String,
    methods: String,
    variants: Vec<String>,
}

impl ShapeText {
    spec fn shape(self) -> Shape {
        Shape {
            sig: self.sig@,
            fields: self.fields@,
            methods: self.methods@,
            variants: views(self.variants@),
        }
    }
}

/// What stands behind the first `n` characters of `line`, trimmed.
fn text_behind(line: &str, mark: &str) -> (r: String)
    requires
        mark@.is_prefix_of(line@),
    ensures
        r@ == behind(line@, mark@),
{
    let n = crate::text::chars_of(mark).len();
    trim(skip_chars(line, n).as_str())
}

/// The shape that a dense form tells of the item `name`.
fn read_shape(compressed: &str, name: &str) -> (r: ShapeText)
    ensures
        r.shape() == shape_of(lines_of(compressed@), name@),
{
    let all = lines(compressed);
    let ghost seen = views(all@);
    let mut prefix = name.to_owned();
    prefix.append("::");
    let mut sig = String::new();
    let mut fields = String::new();
    let mut methods = String::new();
    let mut variants: Vec<String> = Vec::new();
    let mut i: usize = 0;
    assert(views(variants@) == Seq::<Text>::empty());
    assert((Shape { sig: sig@, fields: fields@, methods: methods@, variants: views(variants@) })
        == shape_of(seen.take(0), name@));
    while i < all.len()
        invariant
            i <= all@.len() == seen.len(),
            seen == views(all@),
            prefix@ == name@ + "::"@,
            (Shape { sig: sig@, fields: fields@, methods: methods@, variants: views(variants@) })
                == shape_of(seen.take(i as int), name@),
        decreases all@.len() - i,
    {
        assert(seen.take(i + 1).drop_last() == seen.take(i as int));
        assert(seen.take(i + 1).last() == all@[i as int]@);
        let line = trim(all[i].as_str());
        if starts_with(line.as_str(), "sig:") {
            sig = text_behind(line.as_str(), "sig:");
        } else if starts_with(line.as_str(), "fields:") {
            fields = text_behind(line.as_str(), "fields:");
        } else if starts_with(line.as_str(), "methods:") {
            methods = text_behind(line.as_str(), "methods:");
        } else if starts_with(line.as_str(), prefix.as_str()) {
            let ghost before = variants@;
            variants.push(line);
            assert(views(variants@) == views(before).push(line@));
        }
        i = i + 1;
    }
    assert(seen.take(i as int) == seen);
    ShapeText { sig, fields, methods, variants }
}

/// The lines of a listing for the first `n` of `list`.
fn dash_lines(list: &Vec<String>, n: usize) -> (r: String)
    ensures
        r@ == written_out(first_of(views(list@), n as int), dash_line()),
{
    let m = if n < list.len() {
        n
    } else {
        list.len()
    };
    let ghost all = first_of(views(list@), n as int);
    let mut out = String::new();
    let mut i: usize = 0;
    while i < m
        invariant
            i <= m <= list@.len(),
            m == all.len(),
            all == first_of(views(list@), n as int),
            out@ == written_out(all.take(i as int), dash_line()),
        decreases m - i,
    {
        let mut line = "- ".to_owned();
        line.append(list[i].as_str());
        line.append("\n");
        out.append(line.as_str());
        assert(all.take(i + 1).drop_last() == all.take(i as int));
        assert(all.take(i + 1).last() == list@[i as int]@);
        i = i + 1;
    }
    assert(all.take(i as int) == all);
    out
}

/// Whether a text is empty.
fn is_empty(s: &String) -> (r: bool)
    ensures
        r == (s@.len() == 0),
{
    crate::text::chars_of(s.as_str()).len() == 0
}

/// The report on the syntax of a unit.
fn render_syntax(u: &CodeUnit) -> (r: String)
    ensures
        r@ == syntax_report(*u),
{
    let s = read_shape(u.compressed.as_str(), u.name.as_str());
    let ghost shape = s.shape();
    let mut out = "Symbol: ".to_owned();
    out.append(u.name.as_str());
    out.append("\nKind: ");
    out.append(u.kind.as_str());
    out.append("\nModule: ");
    out.append(u.module.as_str());
    out.append("\n");
    if !is_empty(&s.sig) {
        out.append("\nSignature\n");
        out.append(s.sig.as_str());
        out.append("\n");
    }
    if !is_empty(&s.fields) {
        out.append("\nFields\n");
        out.append(s.fields.as_str());
        out.append("\n");
    }
    if !is_empty(&s.methods) {
        out.append("\nMethods\n");
        out.append(s.methods.as_str());
        out.append("\n");
    }
    assert(shape.variants.len() == s.variants@.len());
    if s.variants.len() > 0 {
        out.append("\nVariants\n");
        out.append(dash_lines(&s.variants, 20).as_str());
    }
    if is_empty(&s.sig) && is_empty(&s.fields) && is_empty(&s.methods) && s.variants.len() == 0 {
        out.append(
            "\nNo structured signature details found. Use get_item for full compressed entry.",
        );
    }
    out
}

/// Answers what the syntax of a symbol is.
pub fn tool_get_syntax(args: &Json, units: &Vec<CodeUnit>) -> (r: Reply)
    ensures
        r@ == syntax_reply(args@, units@),
{
    let symbol = match args.str_at("symbol_name") {
        Some(s) => s,
        None => {
            return Reply::refusal("missing `symbol_name`".to_owned());
        },
    };
    if let Some(u) = find_symbol_unit(symbol, units) {
        return Reply::answer(render_syntax(u));
    }
    let similar = similar_symbol_units(symbol, units, 5);
    assert(items(similar@).len() == similar@.len());
    if similar.len() == 0 {
        let mut why = "no symbol found for `".to_owned();
        why.append(symbol);
        why.append("`");
        return Reply::refusal(why).noting(
            "get_syntax",
            symbol,
            "no symbol match or similar suggestions",
        );
    }
    let label = |u: &CodeUnit| -> (s: String)
        ensures
            s@ == u.name@ + " ("@ + u.module@ + ")"@,
        {
            let mut s = u.name.clone();
            s.append(" (");
            s.append(u.module.as_str());
            s.append(")");
            s
        };
    let names = texts_of_refs(&similar, label, Ghost(suggestion()));
    let mut why = "no exact symbol found for `".to_owned();
    why.append(symbol);
    why.append("`. Similar: ");
    why.append(join(&names, " | ").as_str());
    Reply::refusal(why).noting(
        "get_syntax",
        symbol,
        "no exact symbol match; only similar suggestions",
    )
}

/// An example of the use of a symbol, as it is on record.
#[derive(Debug, Clone)]
pub struct SymbolExample {
    pub file: String,
    pub line: Option<i64>,
    pub snippet: String,
    pub tier: String,
}

/// Which examples are to be looked up.
#[derive(Debug)]
pub struct UsageRequest {
    pub symbol: String,
    pub tier: Option<String>,
    pub limit: u64,
}

/// The examples that the arguments of `get_usage_examples` ask for.
pub fn usage_request(args: &Json) -> (r: Result<UsageRequest, String>)
    ensures
        match args@.text_field("symbol_name"@) {
            None => r matches Err(e) && e@ == "missing `symbol_name`"@,
            Some(symbol) => {
                &&& r is Ok
                &&& r->Ok_0.symbol@ == symbol
                &&& opt_text(r->Ok_0.tier) == args@.text_field("tier"@)
                &&& r->Ok_0.limit as nat == number_or_of(args@, "limit"@, 5)
            },
        },
{
    match args.str_at("symbol_name") {
        None => Err("missing `symbol_name`".to_owned()),
        Some(s) => Ok(
            UsageRequest {
                symbol: s.to_owned(),
                tier: match args.str_at("tier") {
                    Some(t) => Some(t.to_owned()),
                    None => None,
                },
                limit: number_or(args, "limit", 5),
            },
        ),
    }
}

/// Where an example stands in its file.
pub open spec fn line_suffix(line: Option<i64>) -> Text {
    match line {
        Some(n) => ":"@ + signed_decimal_of(n as int),
        None => Seq::empty(),
    }
}

/// The entry for one example on record.
pub open spec fn example_entry() -> spec_fn(nat, SymbolExample) -> Text {
    |n: nat, e: SymbolExample|
        decimal_of(n) + ". "@ + e.file@ + line_suffix(e.line) + " ["@ + e.tier@ + "]\n"@
            + head_lines_of(e.snippet@, 16) + "\n\n"@
}

/// The unit shows the symbol in some way.
pub open spec fn shows(symbol: Text) -> spec_fn(CodeUnit) -> bool {
    |u: CodeUnit|
        u.id@ == symbol || u.name@ == symbol || ("::"@ + symbol).is_suffix_of(u.id@)
            || same_ignoring_ascii_case(u.name@, symbol) || contains_text(u.compressed@, symbol)
}

/// The entry for one unit that shows the symbol.
pub open spec fn unit_entry() -> spec_fn(nat, CodeUnit) -> Text {
    |n: nat, u: CodeUnit|
        decimal_of(n) + ". "@ + u.id@ + " ("@ + u.module@ + ")\n"@ + head_lines_of(
            u.compressed@,
            16,
        ) + "\n\n"@
}

/// What `get_usage_examples` answers where `examples` are on record.
pub open spec fn usage_reply(
    args: JsonView,
    examples: Seq<SymbolExample>,
    units: Seq<CodeUnit>,
) -> ReplyView {
    match args.text_field("symbol_name"@) {
        None => plain_refusal("missing `symbol_name`"@),
        Some(symbol) => {
            let head = "Usage examples for `"@ + symbol + "`\n\n"@;
            let shown = first_of(
                kept(units, shows(symbol)),
                number_or_of(args, "limit"@, 5) as int,
            );
            if examples.len() > 0 {
                plain_answer(
                    head + "From symbol_examples\n"@ + numbered_out(examples, example_entry()),
                )
            } else if shown.len() == 0 {
                with_gap(
                    plain_refusal("no usage examples found for `"@ + symbol + "`"@),
                    "get_usage_examples"@,
                    symbol,
                    "no symbol_examples rows and no indexed fallback units"@,
                )
            } else {
                plain_answer(
                    head + "Fallback from indexed units\n"@ + numbered_out(shown, unit_entry()),
                )
            }
        },
    }
}

/// Where an example stands in its file.
fn line_text(line: Option<i64>) -> (r: String)
    ensures
        r@ == line_suffix(line),
{
    match line {
        Some(n) => {
            let mut s = ":".to_owned();
            s.append(signed_decimal(n).as_str());
            s
        },
        None => String::new(),
    }
}

/// Answers with examples of the use of a symbol: those on record, else units that show it.
pub fn tool_get_usage_examples(args: &Json, examples: &Vec<SymbolExample>, units: &Vec<CodeUnit>)
    -> (r: Reply)
    ensures
        r@ == usage_reply(args@, examples@, units@),
{
    let symbol = match args.str_at("symbol_name") {
        Some(s) => s,
        None => {
            return Reply::refusal("missing `symbol_name`".to_owned());
        },
    };
    let mut out = "Usage examples for `".to_owned();
    out.append(symbol);
    out.append("`\n\n");
    if examples.len() > 0 {
        out.append("From symbol_examples\n");
        let entry = |n: usize, e: &SymbolExample| -> (s: String)
            ensures
                s@ == example_entry()(n as nat, *e),
            {
                let mut s = count_text(n);
                s.append(". ");
                s.append(e.file.as_str());
                s.append(line_text(e.line).as_str());
                s.append(" [");
                s.append(e.tier.as_str());
                s.append("]\n");
                s.append(head_lines(e.snippet.as_str(), 16).as_str());
                s.append("\n\n");
                s
            };
        out.append(write_numbered(examples, entry, Ghost(example_entry())).as_str());
        return Reply::answer(out);
    }
    let limit = at_most(number_or(args, "limit", 5), units.len());
    let mut last = "::".to_owned();
    last.append(symbol);
    let shown_by = |u: &CodeUnit| -> (b: bool)
        ensures
            b == shows(symbol@)(*u),
        {
            same(u.id.as_str(), symbol) || same(u.name.as_str(), symbol) || ends_with(
                u.id.as_str(),
                last.as_str(),
            ) || eq_ignore_ascii_case(u.name.as_str(), symbol) || contains(
                u.compressed.as_str(),
                symbol,
            )
        };
    let shown = select(units, limit, shown_by, Ghost(shows(symbol@)));
    proof {
        lemma_kept_grows(units@, shows(symbol@), 0);
        assert(items(shown@).len() == shown@.len());
        assert(items(shown@) == first_of(
            kept(units@, shows(symbol@)),
            number_or_of(args@, "limit"@, 5) as int,
        ));
    }
    if shown.len() == 0 {
        let mut why = "no usage examples found for `".to_owned();
        why.append(symbol);
        why.append("`");
        return Reply::refusal(why).noting(
            "get_usage_examples",
            symbol,
            "no symbol_examples rows and no indexed fallback units",
        );
    }
    out.append("Fallback from indexed units\n");
    let entry = |n: usize, u: &CodeUnit| -> (s: String)
        ensures
            s@ == unit_entry()(n as nat, *u),
        {
            let mut s = count_text(n);
            s.append(". ");
            s.append(u.id.as_str());
            s.append(" (");
            s.append(u.module.as_str());
            s.append(")\n");
            s.append(head_lines(u.compressed.as_str(), 16).as_str());
            s.append("\n\n");
            s
        };
    let listing = write_numbered_refs(&shown, entry, Ghost(unit_entry()));
    out.append(listing.as_str());
    Reply::answer(out)
}

/// An entry of the symbol catalog.
#[derive(Debug, Clone)]
pub struct CatalogEntry {
    pub name: String,
    pub kind: String,
    pub module: String,
    pub signature: Option<String>,
    pub helper_tags: String,
}

/// A symbol of the catalog that resembles the one asked for: name, kind and module.
#[derive(Debug, Clone)]
pub struct SimilarSymbol {
    pub name: String,
    pub kind: String,
    pub module: String,
}

/// One recommendation, where it applies.
pub open spec fn tip(applies: bool, text: Text) -> Seq<Text> {
    if applies {
        seq![text]
    } else {
        Seq::empty()
    }
}

/// The recommendations for a symbol, before the one that stands in for none.
pub open spec fn special_guidance(name: Text, kind: Text, intent: Text, tags: Text) -> Seq<Text> {
    let low = lowercase_of(intent);
    Seq::<Text>::empty() + tip(
        kind == "enum"@,
        "Use `get_syntax` first to confirm exact variant names before wiring logic."@,
    ) + tip(
        contains_text(name, "Action"@),
        "Dispatch through `canvas.run(Action::...)` instead of direct mutation paths."@,
    ) + tip(
        contains_text(name, "Condition"@),
        "Prefer declarative branching with `Action::Conditional` over ad-hoc if/match in update loops."@,
    ) + tip(
        contains_text(name, "Target"@) || contains_text(name, "Location"@),
        "Use constructor helpers rather than tuple-style enum assumptions for target/location values."@,
    ) + tip(
        kind == "fn"@ || kind == "method"@,
        "Pull usage snippets with `get_usage_examples` to verify common call shapes."@,
    ) + tip(
        contains_text(low, "refactor"@) || contains_text(low, "change"@),
        "Run `simulate_change` before edits to estimate blast radius and test scope."@,
    ) + tip(
        contains_text(low, "safe"@) || contains_text(low, "pitfall"@),
        "Check `get_anti_patterns` before coding to avoid known regressions."@,
    ) + tip(
        contains_text(low, "example"@) || contains_text(low, "usage"@),
        "Call `get_usage_examples` for concrete, local callsite references."@,
    ) + tip(!is_blank(tags), "Related helper tags: "@ + tags)
}

/// The recommendations for a symbol; there is always one.
pub open spec fn guidance_of(name: Text, kind: Text, intent: Text, tags: Text) -> Seq<Text> {
    let special = special_guidance(name, kind, intent, tags);
    if special.len() == 0 {
        seq![
            "No special helper heuristics matched; use get_syntax + get_usage_examples for the safest path."@,
        ]
    } else {
        special
    }
}

/// The line for one recommendation.
pub open spec fn numbered_line() -> spec_fn(nat, Text) -> Text {
    |n: nat, g: Text| decimal_of(n) + ". "@ + g + "\n"@
}

/// The report of the guidance for a symbol.
pub open spec fn guidance_report(
    name: Text,
    kind: Text,
    module: Text,
    signature: Text,
    intent: Text,
    tags: Text,
) -> Text {
    let head = "Helper guidance for `"@ + name + "`\nKind: "@ + kind + "\nModule: "@ + module
        + "\n"@;
    let signed = if is_blank(signature) {
        head
    } else {
        head + "Signature hint: "@ + signature + "\n"@
    };
    signed + "\nRecommendations\n"@ + numbered_out(
        guidance_of(name, kind, intent, tags),
        numbered_line(),
    )
}

/// A similar symbol as a hint.
pub open spec fn similar_hint() -> spec_fn(SimilarSymbol) -> Text {
    |s: SimilarSymbol| s.name@ + " ("@ + s.kind@ + ", "@ + s.module@ + ")"@
}

/// What `get_helper` answers: the catalog comes before the units, and where neither knows the
/// symbol there is a refusal with what resembles it.
pub open spec fn helper_reply(
    args: JsonView,
    catalog: Option<CatalogEntry>,
    similar: Seq<SimilarSymbol>,
    units: Seq<CodeUnit>,
) -> ReplyView {
    match args.text_field("symbol_name"@) {
        None => plain_refusal("missing `symbol_name`"@),
        Some(symbol) => {
            let intent = text_or_of(args, "intent"@, ""@);
            match (catalog, unit_for(symbol, units)) {
                (Some(c), _) => plain_answer(
                    guidance_report(
                        c.name@,
                        c.kind@,
                        c.module@,
                        match c.signature {
                            Some(s) => s@,
                            None => Seq::empty(),
                        },
                        intent,
                        c.helper_tags@,
                    ),
                ),
                (None, Some(u)) => plain_answer(
                    guidance_report(u.id@, u.kind@, u.module@, u.summary@, intent, u.name@),
                ),
                (None, None) => if similar.len() == 0 {
                    with_gap(
                        plain_refusal("no helper guidance found for `"@ + symbol + "`"@),
                        "get_helper"@,
                        symbol,
                        "no catalog entry and no similar symbols"@,
                    )
                } else {
                    with_gap(
                        plain_refusal(
                            "no exact symbol for `"@ + symbol + "`. Similar: "@ + join_of(
                                similar.map_values(similar_hint()),
                                " | "@,
                            ),
                        ),
                        "get_helper"@,
                        symbol,
                        "no exact symbol in catalog; returned similar hints"@,
                    )
                },
            }
        },
    }
}

/// Appends one recommendation, where it applies.
fn add_tip(list: &mut Vec<String>, applies: bool, text: &str)
    ensures
        views(final(list)@) == views(old(list)@) + tip(applies, text@),
{
    if applies {
        list.push(text.to_owned());
        assert(views(list@) == views(old(list)@) + seq![text@]);
    } else {
        assert(views(list@) + Seq::<Text>::empty() == views(list@));
    }
}

/// The recommendations for a symbol, before the one that stands in for none.
fn special_tips(name: &str, kind: &str, intent: &str, tags: &str) -> (r: Vec<String>)
    ensures
        views(r@) == special_guidance(name@, kind@, intent@, tags@),
{
    let low = intent.to_lowercase();
    let low = low.as_str();
    let mut out: Vec<String> = Vec::new();
    assert(views(out@) == Seq::<Text>::empty());
    add_tip(
        &mut out,
        same(kind, "enum"),
        "Use `get_syntax` first to confirm exact variant names before wiring logic.",
    );
    add_tip(
        &mut out,
        contains(name, "Action"),
        "Dispatch through `canvas.run(Action::...)` instead of direct mutation paths.",
    );
    add_tip(
        &mut out,
        contains(name, "Condition"),
        "Prefer declarative branching with `Action::Conditional` over ad-hoc if/match in update loops.",
    );
    add_tip(
        &mut out,
        contains(name, "Target") || contains(name, "Location"),
        "Use constructor helpers rather than tuple-style enum assumptions for target/location values.",
    );
    add_tip(
        &mut out,
        same(kind, "fn") || same(kind, "method"),
        "Pull usage snippets with `get_usage_examples` to verify common call shapes.",
    );
    add_tip(
        &mut out,
        contains(low, "refactor") || contains(low, "change"),
        "Run `simulate_change` before edits to estimate blast radius and test scope.",
    );
    add_tip(
        &mut out,
        contains(low, "safe") || contains(low, "pitfall"),
        "Check `get_anti_patterns` before coding to avoid known regressions.",
    );
    add_tip(
        &mut out,
        contains(low, "example") || contains(low, "usage"),
        "Call `get_usage_examples` for concrete, local callsite references.",
    );
    let mut related = "Related helper tags: ".to_owned();
    related.append(tags);
    add_tip(&mut out, !blank(tags), related.as_str());
    out
}

/// The recommendations for a symbol; there is always one.
pub fn helper_guidance(name: &str, kind: &str, intent: &str, tags: &str) -> (r: Vec<String>)
    ensures
        views(r@) == guidance_of(name@, kind@, intent@, tags@),
        r@.len() > 0,
{
    let mut out = special_tips(name, kind, intent, tags);
    assert(views(out@).len() == out@.len());
    if out.len() == 0 {
        let none = "No special helper heuristics matched; use get_syntax + get_usage_examples for the safest path.";
        out.push(none.to_owned());
        assert(views(out@) == seq![none@]);
    }
    out
}

/// The report of the guidance for a symbol.
fn render_guidance(
    name: &str,
    kind: &str,
    module: &str,
    signature: &str,
    intent: &str,
    tags: &str,
) -> (r: String)
    ensures
        r@ == guidance_report(name@, kind@, module@, signature@, intent@, tags@),
{
    let guidance = helper_guidance(name, kind, intent, tags);
    let mut out = "Helper guidance for `".to_owned();
    out.append(name);
    out.append("`\nKind: ");
    out.append(kind);
    out.append("\nModule: ");
    out.append(module);
    out.append("\n");
    if !blank(signature) {
        out.append("Signature hint: ");
        out.append(signature);
        out.append("\n");
    }
    out.append("\nRecommendations\n");
    out.append(numbered_lines(&guidance).as_str());
    out
}

/// The texts of a list, each on a line with its number.
fn numbered_lines(list: &Vec<String>) -> (r: String)
    ensures
        r@ == numbered_out(views(list@), numbered_line()),
{
    let ghost all = views(list@);
    let mut out = String::new();
    let mut i: usize = 0;
    while i < list.len()
        invariant
            i <= list@.len() == all.len(),
            all == views(list@),
            out@ == numbered_out(all.take(i as int), numbered_line()),
        decreases list@.len() - i,
    {
        let mut line = count_text(i + 1);
        line.append(". ");
        line.append(list[i].as_str());
        line.append("\n");
        out.append(line.as_str());
        assert(all.take(i + 1).drop_last() == all.take(i as int));
        assert(all.take(i + 1).last() == list@[i as int]@);
        i = i + 1;
    }
    assert(all.take(i as int) == all);
    out
}

/// Answers with guidance for a symbol: `catalog` is its entry in the catalog, `similar` are the
/// symbols of the catalog that resemble it.
pub fn tool_get_helper(
    args: &Json,
    catalog: Option<&CatalogEntry>,
    similar: &Vec<SimilarSymbol>,
    units: &Vec<CodeUnit>,
) -> (r: Reply)
    ensures
        r@ == helper_reply(
            args@,
            match catalog {
                Some(c) => Some(*c),
                None => None,
            },
            similar@,
            units@,
        ),
{
    let symbol = match args.str_at("symbol_name") {
        Some(s) => s,
        None => {
            return Reply::refusal("missing `symbol_name`".to_owned());
        },
    };
    let intent = text_or(args, "intent", "");
    if let Some(c) = catalog {
        let none = String::new();
        let signature = match &c.signature {
            Some(s) => s.as_str(),
            None => none.as_str(),
        };
        return Reply::answer(
            render_guidance(
                c.name.as_str(),
                c.kind.as_str(),
                c.module.as_str(),
                signature,
                intent,
                c.helper_tags.as_str(),
            ),
        );
    }
    if let Some(u) = find_symbol_unit(symbol, units) {
        return Reply::answer(
            render_guidance(
                u.id.as_str(),
                u.kind.as_str(),
                u.module.as_str(),
                u.summary.as_str(),
                intent,
                u.name.as_str(),
            ),
        );
    }
    if similar.len() == 0 {
        let mut why = "no helper guidance found for `".to_owned();
        why.append(symbol);
        why.append("`");
        return Reply::refusal(why).noting(
            "get_helper",
            symbol,
            "no catalog entry and no similar symbols",
        );
    }
    let hint = |s: &SimilarSymbol| -> (t: String)
        ensures
            t@ == similar_hint()(*s),
        {
            let mut t = s.name.clone();
            t.append(" (");
            t.append(s.kind.as_str());
            t.append(", ");
            t.append(s.module.as_str());
            t.append(")");
            t
        };
    let hints = texts_of(similar, hint, Ghost(similar_hint()));
    let mut why = "no exact symbol for `".to_owned();
    why.append(symbol);
    why.append("`. Similar: ");
    why.append(join(&hints, " | ").as_str());
    Reply::refusal(why).noting(
        "get_helper",
        symbol,
        "no exact symbol in catalog; returned similar hints",
    )
}

/// There is always a recommendation.
pub proof fn law_guidance_is_never_empty(name: Text, kind: Text, intent: Text, tags: Text)
    ensures
        guidance_of(name, kind, intent, tags).len() > 0,
{
}

/// A unit that is meant by its id is found before one that only has the name.
pub proof fn law_id_comes_first(symbol: Text, units: Seq<CodeUnit>, i: int)
    requires
        0 <= i < units.len(),
        units[i].id@ == symbol,
    ensures
        unit_for(symbol, units) is Some,
        unit_for(symbol, units)->0.id@ == symbol,
{
    lemma_kept_finds(units, has_id(symbol), i);
    lemma_kept_holds(units, has_id(symbol), 0);
}

/// A symbol is looked up in turn: by its id, then by its name, then by the last part of its id, then
/// by its name whatever the case; each time the first unit of the list is meant.
pub proof fn law_symbol_is_looked_up_in_turn(symbol: Text, units: Seq<CodeUnit>, i: int)
    requires
        0 <= i < units.len(),
    ensures
        units[i].id@ == symbol && (forall|k: int| 0 <= k < i ==> (#[trigger] units[k]).id@ != symbol)
            ==> unit_for(symbol, units) == Some(units[i]),
        (forall|k: int| 0 <= k < units.len() ==> (#[trigger] units[k]).id@ != symbol)
            && units[i].name@ == symbol && (forall|k: int|
            0 <= k < i ==> (#[trigger] units[k]).name@ != symbol) ==> unit_for(symbol, units)
            == Some(units[i]),
        (forall|k: int|
            0 <= k < units.len() ==> (#[trigger] units[k]).id@ != symbol && units[k].name@ != symbol)
            && ("::"@ + symbol).is_suffix_of(units[i].id@) && (forall|k: int|
            0 <= k < i ==> !("::"@ + symbol).is_suffix_of((#[trigger] units[k]).id@)) ==> unit_for(
            symbol,
            units,
        ) == Some(units[i]),
        (forall|k: int|
            0 <= k < units.len() ==> (#[trigger] units[k]).id@ != symbol && units[k].name@ != symbol
                && !("::"@ + symbol).is_suffix_of(units[k].id@)) && same_ignoring_ascii_case(
            units[i].name@,
            symbol,
        ) && (forall|k: int|
            0 <= k < i ==> !same_ignoring_ascii_case((#[trigger] units[k]).name@, symbol))
            ==> unit_for(symbol, units) == Some(units[i]),
{
    if units[i].id@ == symbol && (forall|k: int|
        0 <= k < i ==> (#[trigger] units[k]).id@ != symbol) {
        lemma_first_kept(units, has_id(symbol), i);
    }
    if forall|k: int| 0 <= k < units.len() ==> (#[trigger] units[k]).id@ != symbol {
        lemma_none_kept(units, has_id(symbol));
        if units[i].name@ == symbol && (forall|k: int|
            0 <= k < i ==> (#[trigger] units[k]).name@ != symbol) {
            lemma_first_kept(units, has_name(symbol), i);
        }
        if forall|k: int| 0 <= k < units.len() ==> (#[trigger] units[k]).name@ != symbol {
            lemma_none_kept(units, has_name(symbol));
            if ("::"@ + symbol).is_suffix_of(units[i].id@) && (forall|k: int|
                0 <= k < i ==> !("::"@ + symbol).is_suffix_of((#[trigger] units[k]).id@)) {
                lemma_first_kept(units, has_last_part(symbol), i);
            }
            if forall|k: int|
                0 <= k < units.len() ==> !("::"@ + symbol).is_suffix_of((#[trigger] units[k]).id@) {
                lemma_none_kept(units, has_last_part(symbol));
                if same_ignoring_ascii_case(units[i].name@, symbol) && (forall|k: int|
                    0 <= k < i ==> !same_ignoring_ascii_case((#[trigger] units[k]).name@, symbol)) {
                    lemma_first_kept(units, has_name_like(symbol), i);
                }
            }
        }
    }
}

/// A symbol that is neither the id, the last part of an id nor the name of a unit, whatever the
/// case, means no unit.
pub proof fn law_unknown_symbol_means_no_unit(symbol: Text, units: Seq<CodeUnit>)
    requires
        forall|k: int|
            0 <= k < units.len() ==> (#[trigger] units[k]).id@ != symbol && units[k].name@ != symbol
                && !("::"@ + symbol).is_suffix_of(units[k].id@) && !same_ignoring_ascii_case(
                units[k].name@,
                symbol,
            ),
    ensures
        unit_for(symbol, units) is None,
{
    lemma_none_kept(units, has_id(symbol));
    lemma_none_kept(units, has_name(symbol));
    lemma_none_kept(units, has_last_part(symbol));
    lemma_none_kept(units, has_name_like(symbol));
}

/// A unit resembles a symbol where its name holds it, whatever the case; all of them are offered
/// while there are no more than `limit`, by their names, and nothing else is.
pub proof fn law_similar_units_are_offered(symbol: Text, units: Seq<CodeUnit>, limit: int)
    requires
        limit >= 0,
    ensures
        ({
            let holding = kept(
                units,
                |u: CodeUnit| contains_text(lowercase_of(u.name@), lowercase_of(symbol)),
            );
            let offered = similar_units(symbol, units, limit);
            &&& offered.to_multiset() == (if holding.len() <= limit {
                holding
            } else {
                holding.take(limit)
            }).to_multiset()
            &&& forall|i: int, j: int|
                0 <= i < j < offered.len() ==> !text_lt(
                    (#[trigger] offered[j]).name@,
                    (#[trigger] offered[i]).name@,
                )
        }),
{
    let like = |u: CodeUnit| contains_text(lowercase_of(u.name@), lowercase_of(symbol));
    lemma_kept_agree(units, name_holds(symbol), like);
    let few = first_of(kept(units, name_holds(symbol)), limit);
    crate::order::law_sorting_orders(few, unit_name());
    assert(kept(units, like).len() == limit ==> kept(units, like).take(limit) == kept(units, like));
}

/// The lines of a dense form tell the shape of an item: what stands behind `sig:`, `fields:` and
/// `methods:` is told as it is, a line that begins with the name and `::` tells a variant, and any
/// other line tells nothing.
pub proof fn law_shape_is_told_by_its_lines(lines: Seq<Text>, name: Text, line: Text, told: Text)
    ensures
        ({
            let before = shape_of(lines, name);
            let after = shape_of(lines.push(line), name);
            let known = "sig:"@.is_prefix_of(trim_of(line)) || "fields:"@.is_prefix_of(trim_of(line))
                || "methods:"@.is_prefix_of(trim_of(line));
            &&& trim_of(line) == "sig:"@ + told ==> after == (Shape { sig: trim_of(told), ..before })
            &&& trim_of(line) == "fields:"@ + told ==> after == (Shape {
                fields: trim_of(told),
                ..before
            })
            &&& trim_of(line) == "methods:"@ + told ==> after == (Shape {
                methods: trim_of(told),
                ..before
            })
            &&& !known && trim_of(line) == name + "::"@ + told ==> after == (Shape {
                variants: before.variants.push(name + "::"@ + told),
                ..before
            })
            &&& !known && !(name + "::"@).is_prefix_of(trim_of(line)) ==> after == before
        }),
        shape_of(Seq::empty(), name).variants.len() == 0,
{
    assert(lines.push(line).drop_last() == lines);
    reveal_strlit("sig:");
    reveal_strlit("fields:");
    reveal_strlit("methods:");
    let t = trim_of(line);
    assert(t.len() >= 4 ==> t.subrange(0, 4)[0] == t[0]);
    assert(t.len() >= 7 ==> t.subrange(0, 7)[0] == t[0]);
    if t == "sig:"@ + told {
        assert("sig:"@.is_prefix_of(t));
        assert(t.skip("sig:"@.len() as int) == told);
    }
    if t == "fields:"@ + told {
        assert(t[0] == 'f');
        assert("fields:"@.is_prefix_of(t));
        assert(t.skip("fields:"@.len() as int) == told);
    }
    if t == "methods:"@ + told {
        assert(t[0] == 'm');
        assert("methods:"@.is_prefix_of(t));
        assert(t.skip("methods:"@.len() as int) == told);
    }
    if t == name + "::"@ + told {
        assert((name + "::"@).is_prefix_of(t));
    }
}

/// The report on the syntax of a unit tells what it is and where, its signature, fields and methods
/// as far as there are any, and every variant up to the twentieth.
#[verifier::rlimit(60)]
pub proof fn law_syntax_is_told_whole(u: CodeUnit, i: int)
    ensures
        ({
            let s = shape_of(lines_of(u.compressed@), u.name@);
            let report = syntax_report(u);
            &&& ("Symbol: "@ + u.name@ + "\nKind: "@ + u.kind@ + "\nModule: "@ + u.module@
                + "\n"@).is_prefix_of(report)
            &&& s.sig.len() > 0 ==> contains_text(report, "\nSignature\n"@ + s.sig + "\n"@)
            &&& s.fields.len() > 0 ==> contains_text(report, "\nFields\n"@ + s.fields + "\n"@)
            &&& s.methods.len() > 0 ==> contains_text(report, "\nMethods\n"@ + s.methods + "\n"@)
            &&& 0 <= i < s.variants.len() && i < 20 ==> contains_text(
                report,
                "- "@ + s.variants[i] + "\n"@,
            )
            &&& s.sig.len() == 0 && s.fields.len() == 0 && s.methods.len() == 0 && s.variants.len()
                == 0 ==> contains_text(
                report,
                "No structured signature details found. Use get_item for full compressed entry."@,
            )
        }),
{
    let s = shape_of(lines_of(u.compressed@), u.name@);
    let report = syntax_report(u);
    let head = "Symbol: "@ + u.name@ + "\nKind: "@ + u.kind@ + "\nModule: "@ + u.module@ + "\n"@;
    let with_sig = section(head, "\nSignature\n"@, s.sig);
    let with_fields = section(with_sig, "\nFields\n"@, s.fields);
    let with_methods = section(with_fields, "\nMethods\n"@, s.methods);
    let few = first_of(s.variants, 20);
    let listing = "\nVariants\n"@ + written_out(few, dash_line());
    let none = "\nNo structured signature details found. Use get_item for full compressed entry."@;
    let empty = Seq::<char>::empty();
    let all = if s.variants.len() == 0 {
        with_methods
    } else {
        with_methods + "\nVariants\n"@ + written_out(few, dash_line())
    };
    assert(s.variants.len() > 0 ==> all == with_methods + listing);
    assert(report == all || report == all + none);
    if s.sig.len() > 0 {
        let part = "\nSignature\n"@ + s.sig + "\n"@;
        assert(with_sig == head + part + empty);
        lemma_contains_middle(head, part, empty);
        lemma_section_holds(with_sig, "\nFields\n"@, s.fields, part);
        lemma_section_holds(with_fields, "\nMethods\n"@, s.methods, part);
        lemma_contains_half(with_methods, listing, part);
    }
    if s.fields.len() > 0 {
        let part = "\nFields\n"@ + s.fields + "\n"@;
        assert(with_fields == with_sig + part + empty);
        lemma_contains_middle(with_sig, part, empty);
        lemma_section_holds(with_fields, "\nMethods\n"@, s.methods, part);
        lemma_contains_half(with_methods, listing, part);
    }
    if s.methods.len() > 0 {
        let part = "\nMethods\n"@ + s.methods + "\n"@;
        assert(with_methods == with_fields + part + empty);
        lemma_contains_middle(with_fields, part, empty);
        lemma_contains_half(with_methods, listing, part);
    }
    if 0 <= i < s.variants.len() && i < 20 {
        let part = "- "@ + s.variants[i] + "\n"@;
        lemma_written_out_holds(few, dash_line(), i);
        lemma_contains_half("\nVariants\n"@, written_out(few, dash_line()), part);
        lemma_contains_half(with_methods, listing, part);
    }
    if s.sig.len() == 0 && s.fields.len() == 0 && s.methods.len() == 0 && s.variants.len() == 0 {
        reveal_strlit(
            "\nNo structured signature details found. Use get_item for full compressed entry.",
        );
        reveal_strlit(
            "No structured signature details found. Use get_item for full compressed entry.",
        );
        let part = "No structured signature details found. Use get_item for full compressed entry."@;
        assert(none == seq!['\n'] + part);
        lemma_contains_itself(part);
        lemma_contains_half(seq!['\n'], part, part);
        lemma_contains_half(all, none, part);
    }
}

/// A section behind a text leaves in it what it holds.
proof fn lemma_section_holds(text: Text, title: Text, body: Text, part: Text)
    requires
        contains_text(text, part),
    ensures
        contains_text(section(text, title, body), part),
{
    assert(text + title + body + "\n"@ == text + (title + body + "\n"@));
    lemma_contains_half(text, title + body + "\n"@, part);
}

/// A symbol that is known is answered with its syntax and leaves no gap; one that is not is refused,
/// the gap is recorded for the session under the symbol, and the refusal names what resembles it.
#[verifier::rlimit(60)]
pub proof fn law_unknown_symbol_leaves_a_gap(args: JsonView, symbol: Text, units: Seq<CodeUnit>, i: int)
    ensures
        args.text_field("symbol_name"@) is None ==> syntax_reply(args, units).result
            == Err::<Text, Text>("missing `symbol_name`"@),
        args.text_field("symbol_name"@) == Some(symbol) ==> match unit_for(symbol, units) {
            Some(u) => syntax_reply(args, units).result == Ok::<Text, Text>(syntax_report(u))
                && syntax_reply(args, units).gap is None,
            None => {
                let r = syntax_reply(args, units);
                &&& r.result is Err
                &&& r.gap is Some
                &&& r.gap->0.tool == "get_syntax"@
                &&& r.gap->0.query == symbol
                &&& r.gap->0.in_session
                &&& contains_text(r.result->Err_0, symbol)
                &&& 0 <= i < similar_units(symbol, units, 5).len() ==> contains_text(
                    r.result->Err_0,
                    similar_units(symbol, units, 5)[i].name@ + " ("@ + similar_units(
                        symbol,
                        units,
                        5,
                    )[i].module@ + ")"@,
                )
            },
        },
{
    if args.text_field("symbol_name"@) == Some(symbol) && unit_for(symbol, units) is None {
        let similar = similar_units(symbol, units, 5);
        let labels = similar.map_values(suggestion());
        let why = syntax_reply(args, units).result->Err_0;
        if similar.len() == 0 {
            lemma_contains_middle("no symbol found for `"@, symbol, "`"@);
        } else {
            let head = "no exact symbol found for `"@ + symbol + "`. Similar: "@;
            lemma_contains_middle("no exact symbol found for `"@, symbol, "`. Similar: "@);
            assert(why == head + join_of(labels, " | "@));
            lemma_contains_half(head, join_of(labels, " | "@), symbol);
            if 0 <= i < similar.len() {
                lemma_join_holds(labels, " | "@, i);
                assert(labels[i] == similar[i].name@ + " ("@ + similar[i].module@ + ")"@);
                lemma_contains_half(head, join_of(labels, " | "@), labels[i]);
            }
        }
    }
}

/// Every example on record is told under its number, with its file, line and tier; the units are
/// not asked then.
pub proof fn law_examples_on_record_are_told(
    args: JsonView,
    symbol: Text,
    examples: Seq<SymbolExample>,
    units: Seq<CodeUnit>,
    i: int,
)
    requires
        args.text_field("symbol_name"@) == Some(symbol),
        0 <= i < examples.len(),
    ensures
        usage_reply(args, examples, units).gap is None,
        usage_reply(args, examples, units).result is Ok,
        contains_text(
            usage_reply(args, examples, units).result->Ok_0,
            decimal_of((i + 1) as nat) + ". "@ + examples[i].file@ + (match examples[i].line {
                Some(n) => ":"@ + signed_decimal_of(n as int),
                None => Seq::<char>::empty(),
            }) + " ["@ + examples[i].tier@ + "]\n"@ + head_lines_of(examples[i].snippet@, 16)
                + "\n\n"@,
        ),
        usage_reply(args, examples, units) == usage_reply(args, examples, Seq::empty()),
{
    let head = "Usage examples for `"@ + symbol + "`\n\n"@;
    lemma_numbered_out_holds(examples, example_entry(), i);
    lemma_contains_half(
        head + "From symbol_examples\n"@,
        numbered_out(examples, example_entry()),
        example_entry()((i + 1) as nat, examples[i]),
    );
}

/// Without an example on record the units answer that have the symbol as their id, its last part or
/// their name, or that mention it, as many as the arguments allow, five where they do not say;
/// where there is none the gap is recorded.
#[verifier::rlimit(60)]
pub proof fn law_units_stand_in_for_examples(
    args: JsonView,
    symbol: Text,
    units: Seq<CodeUnit>,
    i: int,
)
    requires
        args.text_field("symbol_name"@) == Some(symbol),
    ensures
        ({
            let fitting = kept(
                units,
                |u: CodeUnit|
                    u.id@ == symbol || u.name@ == symbol || ("::"@ + symbol).is_suffix_of(u.id@)
                        || same_ignoring_ascii_case(u.name@, symbol) || contains_text(
                        u.compressed@,
                        symbol,
                    ),
            );
            let r = usage_reply(args, Seq::empty(), units);
            let allowed = match args.number_field("limit"@) {
                Some(n) => n,
                None => 5,
            };
            &&& r.result is Ok <==> fitting.len() > 0 && allowed > 0
            &&& r.result is Err ==> r.gap is Some && r.gap->0.tool == "get_usage_examples"@
                && r.gap->0.query == symbol && r.gap->0.in_session
            &&& r.result is Ok ==> r.gap is None
            &&& 0 <= i < fitting.len() && i < allowed ==> contains_text(
                r.result->Ok_0,
                decimal_of((i + 1) as nat) + ". "@ + fitting[i].id@ + " ("@ + fitting[i].module@
                    + ")\n"@ + head_lines_of(fitting[i].compressed@, 16) + "\n\n"@,
            )
        }),
{
    let fits = |u: CodeUnit|
        u.id@ == symbol || u.name@ == symbol || ("::"@ + symbol).is_suffix_of(u.id@)
            || same_ignoring_ascii_case(u.name@, symbol) || contains_text(u.compressed@, symbol);
    lemma_kept_agree(units, shows(symbol), fits);
    let fitting = kept(units, fits);
    let allowed = number_or_of(args, "limit"@, 5);
    let shown = first_of(fitting, allowed as int);
    if 0 <= i < fitting.len() && i < allowed {
        assert(shown[i] == fitting[i]);
        lemma_numbered_out_holds(shown, unit_entry(), i);
        lemma_contains_half(
            "Usage examples for `"@ + symbol + "`\n\n"@ + "Fallback from indexed units\n"@,
            numbered_out(shown, unit_entry()),
            unit_entry()((i + 1) as nat, shown[i]),
        );
    }
}

/// Guidance is as long as there are reasons for it: each reason brings one recommendation, and
/// without any there is one that says so.
#[verifier::rlimit(60)]
pub proof fn law_every_reason_brings_guidance(name: Text, kind: Text, intent: Text, tags: Text)
    ensures
        ({
            let low = lowercase_of(intent);
            let list = guidance_of(name, kind, intent, tags);
            let many = one_if(kind == "enum"@) + one_if(contains_text(name, "Action"@)) + one_if(
                contains_text(name, "Condition"@),
            ) + one_if(contains_text(name, "Target"@) || contains_text(name, "Location"@)) + one_if(
                kind == "fn"@ || kind == "method"@,
            ) + one_if(contains_text(low, "refactor"@) || contains_text(low, "change"@)) + one_if(
                contains_text(low, "safe"@) || contains_text(low, "pitfall"@),
            ) + one_if(contains_text(low, "example"@) || contains_text(low, "usage"@)) + one_if(
                !is_blank(tags),
            );
            &&& many > 0 ==> list.len() == many
            &&& many == 0 ==> list == seq![
                "No special helper heuristics matched; use get_syntax + get_usage_examples for the safest path."@,
            ]
            &&& kind == "enum"@ ==> list.contains(
                "Use `get_syntax` first to confirm exact variant names before wiring logic."@,
            )
            &&& contains_text(name, "Action"@) ==> list.contains(
                "Dispatch through `canvas.run(Action::...)` instead of direct mutation paths."@,
            )
            &&& contains_text(name, "Condition"@) ==> list.contains(
                "Prefer declarative branching with `Action::Conditional` over ad-hoc if/match in update loops."@,
            )
            &&& contains_text(name, "Target"@) || contains_text(name, "Location"@) ==> list.contains(
                "Use constructor helpers rather than tuple-style enum assumptions for target/location values."@,
            )
            &&& kind == "fn"@ || kind == "method"@ ==> list.contains(
                "Pull usage snippets with `get_usage_examples` to verify common call shapes."@,
            )
            &&& contains_text(low, "refactor"@) || contains_text(low, "change"@) ==> list.contains(
                "Run `simulate_change` before edits to estimate blast radius and test scope."@,
            )
            &&& contains_text(low, "safe"@) || contains_text(low, "pitfall"@) ==> list.contains(
                "Check `get_anti_patterns` before coding to avoid known regressions."@,
            )
            &&& contains_text(low, "example"@) || contains_text(low, "usage"@) ==> list.contains(
                "Call `get_usage_examples` for concrete, local callsite references."@,
            )
            &&& !is_blank(tags) ==> list.last() == "Related helper tags: "@ + tags
        }),
{
    let low = lowercase_of(intent);
    let b1 = kind == "enum"@;
    let b2 = contains_text(name, "Action"@);
    let b3 = contains_text(name, "Condition"@);
    let b4 = contains_text(name, "Target"@) || contains_text(name, "Location"@);
    let b5 = kind == "fn"@ || kind == "method"@;
    let b6 = contains_text(low, "refactor"@) || contains_text(low, "change"@);
    let b7 = contains_text(low, "safe"@) || contains_text(low, "pitfall"@);
    let b8 = contains_text(low, "example"@) || contains_text(low, "usage"@);
    let e = Seq::<Text>::empty();
    let t1 = "Use `get_syntax` first to confirm exact variant names before wiring logic."@;
    let t2 = "Dispatch through `canvas.run(Action::...)` instead of direct mutation paths."@;
    let t3 =
        "Prefer declarative branching with `Action::Conditional` over ad-hoc if/match in update loops."@;
    let t4 =
        "Use constructor helpers rather than tuple-style enum assumptions for target/location values."@;
    let t5 = "Pull usage snippets with `get_usage_examples` to verify common call shapes."@;
    let t6 = "Run `simulate_change` before edits to estimate blast radius and test scope."@;
    let t7 = "Check `get_anti_patterns` before coding to avoid known regressions."@;
    let t8 = "Call `get_usage_examples` for concrete, local callsite references."@;
    let s1 = e + tip(b1, t1);
    let s2 = s1 + tip(b2, t2);
    let s3 = s2 + tip(b3, t3);
    let s4 = s3 + tip(b4, t4);
    let s5 = s4 + tip(b5, t5);
    let s6 = s5 + tip(b6, t6);
    let s7 = s6 + tip(b7, t7);
    let s8 = s7 + tip(b8, t8);
    lemma_one_more_tip(e, b1, t1);
    lemma_one_more_tip(s1, b2, t2);
    lemma_one_more_tip(s2, b3, t3);
    lemma_one_more_tip(s3, b4, t4);
    lemma_one_more_tip(s4, b5, t5);
    lemma_one_more_tip(s5, b6, t6);
    lemma_one_more_tip(s6, b7, t7);
    lemma_one_more_tip(s7, b8, t8);
    lemma_one_more_tip(s8, !is_blank(tags), "Related helper tags: "@ + tags);
}

/// One more recommendation comes last, and leaves those that are there.
proof fn lemma_one_more_tip(list: Seq<Text>, applies: bool, text: Text)
    ensures
        (list + tip(applies, text)).len() == list.len() + one_if(applies),
        applies ==> (list + tip(applies, text)).contains(text),
        applies ==> (list + tip(applies, text)).last() == text,
        forall|x: Text| list.contains(x) ==> #[trigger] (list + tip(applies, text)).contains(x),
{
    let all = list + tip(applies, text);
    if applies {
        assert(all[list.len() as int] == text);
    }
    assert forall|x: Text| list.contains(x) implies #[trigger] all.contains(x) by {
        let k = choose|k: int| 0 <= k < list.len() && list[k] == x;
        assert(all[k] == x);
    }
}

/// One where a condition holds, else none.
pub open spec fn one_if(b: bool) -> int {
    if b {
        1
    } else {
        0
    }
}

/// The catalog answers before the units; the report tells what the symbol is, where, its signature
/// where there is one, and every recommendation under its number.
#[verifier::rlimit(60)]
pub proof fn law_guidance_is_told_whole(
    name: Text,
    kind: Text,
    module: Text,
    signature: Text,
    intent: Text,
    tags: Text,
    i: int,
)
    ensures
        ({
            let report = guidance_report(name, kind, module, signature, intent, tags);
            let list = guidance_of(name, kind, intent, tags);
            &&& ("Helper guidance for `"@ + name + "`\nKind: "@ + kind + "\nModule: "@ + module
                + "\n"@).is_prefix_of(report)
            &&& !is_blank(signature) ==> contains_text(
                report,
                "Signature hint: "@ + signature + "\n"@,
            )
            &&& 0 <= i < list.len() ==> contains_text(
                report,
                decimal_of((i + 1) as nat) + ". "@ + list[i] + "\n"@,
            )
        }),
{
    let head = "Helper guidance for `"@ + name + "`\nKind: "@ + kind + "\nModule: "@ + module
        + "\n"@;
    let list = guidance_of(name, kind, intent, tags);
    let report = guidance_report(name, kind, module, signature, intent, tags);
    let hint = "Signature hint: "@ + signature + "\n"@;
    let tail = numbered_out(list, numbered_line());
    if !is_blank(signature) {
        assert(report == head + hint + ("\nRecommendations\n"@ + tail));
        lemma_contains_middle(head, hint, "\nRecommendations\n"@ + tail);
    } else {
        assert(report == head + ("\nRecommendations\n"@ + tail));
    }
    if 0 <= i < list.len() {
        let part = decimal_of((i + 1) as nat) + ". "@ + list[i] + "\n"@;
        lemma_numbered_out_holds(list, numbered_line(), i);
        let front = if is_blank(signature) {
            head + "\nRecommendations\n"@
        } else {
            head + "Signature hint: "@ + signature + "\n"@ + "\nRecommendations\n"@
        };
        lemma_contains_half(front, tail, part);
    }
}

/// Guidance is taken from the catalog where it knows the symbol, else from the unit meant by it,
/// whose summary is its signature and whose name are its tags; where neither knows the symbol, the
/// gap is recorded and what resembles it is named.
pub proof fn law_catalog_answers_first(
    args: JsonView,
    symbol: Text,
    catalog: Option<CatalogEntry>,
    similar: Seq<SimilarSymbol>,
    units: Seq<CodeUnit>,
    i: int,
)
    requires
        args.text_field("symbol_name"@) == Some(symbol),
    ensures
        ({
            let r = helper_reply(args, catalog, similar, units);
            let intent = match args.text_field("intent"@) {
                Some(s) => s,
                None => ""@,
            };
            &&& catalog matches Some(c) ==> r.gap is None && r.result == Ok::<Text, Text>(
                guidance_report(
                    c.name@,
                    c.kind@,
                    c.module@,
                    match c.signature {
                        Some(s) => s@,
                        None => Seq::<char>::empty(),
                    },
                    intent,
                    c.helper_tags@,
                ),
            )
            &&& catalog is None && unit_for(symbol, units) is Some ==> r.gap is None && r.result
                == Ok::<Text, Text>(
                guidance_report(
                    unit_for(symbol, units)->0.id@,
                    unit_for(symbol, units)->0.kind@,
                    unit_for(symbol, units)->0.module@,
                    unit_for(symbol, units)->0.summary@,
                    intent,
                    unit_for(symbol, units)->0.name@,
                ),
            )
            &&& catalog is None && unit_for(symbol, units) is None ==> {
                &&& r.result is Err
                &&& r.gap is Some
                &&& r.gap->0.tool == "get_helper"@
                &&& r.gap->0.query == symbol
                &&& r.gap->0.in_session
                &&& 0 <= i < similar.len() ==> contains_text(
                    r.result->Err_0,
                    similar[i].name@ + " ("@ + similar[i].kind@ + ", "@ + similar[i].module@ + ")"@,
                )
            }
        }),
{
    let hints = similar.map_values(similar_hint());
    if catalog is None && unit_for(symbol, units) is None && 0 <= i < similar.len() {
        lemma_join_holds(hints, " | "@, i);
        lemma_contains_half(
            "no exact symbol for `"@ + symbol + "`. Similar: "@,
            join_of(hints, " | "@),
            hints[i],
        );
    }
}

} // verus!
