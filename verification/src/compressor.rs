//! Source code and API graphs in a dense form: the most meaning in the fewest words.

use crate::json::opt_view;
use crate::lists::{
    kept, law_writing_goes_item_by_item, lemma_kept_holds, lemma_written_out_holds, texts_of,
    write_all, written_out,
};
use crate::model::{ApiField, ApiGraphItem, ApiMethod, ApiVariant, CodeUnit};
use crate::numbers::{count_text, decimal_of};
use crate::source::{
    attr_views, item_views, lemma_item_view, source_items, source_items_of, AttrView,
    FieldStyle, FieldView, FieldsView, ItemView, MemberView, SourceAttr, SourceField, SourceFields,
    SourceItem, SourceMember, SourceVariant, VariantView,
};
use crate::text::{
    byte_len, bytes_in, chars_of, contains_text, find_from, is_space, join, join_of,
    law_join_goes_part_by_part, law_lines_are_read_one_by_one, law_replacing_goes_from_the_left,
    law_trimming_leaves_the_middle, lemma_contains_half, lemma_contains_itself,
    lemma_contains_middle, lemma_contains_through, lemma_find_from, lemma_join_holds, lines,
    lines_of, lowercase_of, opt_text, replace, replace_of, same, starts_with, trim, trim_of, views,
    words, words_of, Text,
};
use vstd::prelude::*;

verus! {

/// The first line of a text, trimmed; nothing where there is none.
pub open spec fn first_line_of(s: Text) -> Text {
    if lines_of(s).len() == 0 {
        Seq::empty()
    } else {
        trim_of(lines_of(s)[0])
    }
}

/// The first line of a text, trimmed.
pub fn first_line(s: &str) -> (r: String)
    ensures
        r@ == first_line_of(s@),
{
    let all = lines(s);
    assert(views(all@).len() == all@.len());
    if all.len() == 0 {
        String::new()
    } else {
        assert(views(all@)[0] == all@[0]@);
        trim(all[0].as_str())
    }
}

/// The first line of a doc as a comment; nothing where it is blank.
pub open spec fn doc_comment(doc: Text) -> Text {
    if first_line_of(doc).len() == 0 {
        Seq::empty()
    } else {
        "// "@ + first_line_of(doc) + "\n"@
    }
}

/// The first line of a doc as a comment.
fn write_doc(doc: &str) -> (r: String)
    ensures
        r@ == doc_comment(doc@),
{
    let first = first_line(doc);
    if chars_of(first.as_str()).len() == 0 {
        String::new()
    } else {
        let mut s = "// ".to_owned();
        s.append(first.as_str());
        s.append("\n");
        s
    }
}

/// A doc behind an entry; nothing where there is none.
pub open spec fn doc_suffix(doc: Text) -> Text {
    if doc.len() == 0 {
        Seq::empty()
    } else {
        " // "@ + first_line_of(doc)
    }
}

/// A doc behind an entry.
fn write_suffix(doc: &str) -> (r: String)
    ensures
        r@ == doc_suffix(doc@),
{
    if chars_of(doc).len() == 0 {
        String::new()
    } else {
        let mut s = " // ".to_owned();
        s.append(first_line(doc).as_str());
        s
    }
}

/// A field of an API item.
pub open spec fn api_field() -> spec_fn(ApiField) -> Text {
    |f: ApiField| f.name@ + ": "@ + f.ty@ + doc_suffix(f.doc@)
}

/// A field of a variant: one without a name of its own shows its type only.
pub open spec fn variant_field() -> spec_fn(ApiField) -> Text {
    |f: ApiField|
        if "_"@.is_prefix_of(f.name@) {
            f.ty@
        } else {
            f.name@ + ": "@ + f.ty@
        }
}

/// Fields in braces; nothing where there are none.
pub open spec fn braced(fields: Seq<Text>) -> Text {
    if fields.len() == 0 {
        Seq::empty()
    } else {
        " { "@ + join_of(fields, ", "@) + " }"@
    }
}

/// A variant of the enum `name`.
pub open spec fn api_variant(name: Text) -> spec_fn(ApiVariant) -> Text {
    |v: ApiVariant|
        "  "@ + name + "::"@ + v.name@ + braced(v.fields@.map_values(variant_field()))
            + doc_suffix(v.doc@) + "\n"@
}

/// A method: its signature without the words that every method has.
pub open spec fn api_method() -> spec_fn(ApiMethod) -> Text {
    |m: ApiMethod|
        replace_of(replace_of(m.signature@, "pub fn "@, ""@), "fn "@, ""@) + doc_suffix(m.doc@)
}

/// An entry with a title; nothing where there is nothing to list.
pub open spec fn entry_if(any: bool, title: Text, body: Text) -> Text {
    if any {
        title + body + "\n"@
    } else {
        Seq::empty()
    }
}

/// An API item in its dense form.
pub open spec fn compressed_api(item: ApiGraphItem) -> Text {
    let hint = if item.module@.len() == 0 {
        Seq::empty()
    } else {
        " ("@ + join_of(views(item.module@), "::"@) + ")"@
    };
    "["@ + item.kind@ + ": "@ + item.name@ + hint + "]\n"@ + doc_comment(item.doc@) + entry_if(
        item.signature@.len() > 0,
        "sig: "@,
        trim_of(item.signature@),
    ) + entry_if(
        item.fields@.len() > 0,
        "fields: "@,
        join_of(item.fields@.map_values(api_field()), ", "@),
    ) + (if item.variants@.len() == 0 {
        Seq::empty()
    } else {
        "variants:\n"@ + written_out(item.variants@, api_variant(item.name@))
    }) + entry_if(
        item.methods@.len() > 0,
        "methods: "@,
        join_of(item.methods@.map_values(api_method()), " | "@),
    ) + entry_if(
        item.traits_impl@.len() > 0,
        "impl: "@,
        join_of(views(item.traits_impl@), ", "@),
    )
}

/// A count in square brackets; nothing where there is nothing to count.
pub open spec fn count_note(n: nat, what: Text) -> Text {
    if n == 0 {
        Seq::empty()
    } else {
        " ["@ + decimal_of(n) + what + "]"@
    }
}

/// The summary of an API item.
pub open spec fn api_summary(item: ApiGraphItem) -> Text {
    let head = item.kind@ + " `"@ + item.name@ + "`"@;
    let doc = first_line_of(item.doc@);
    (if doc.len() == 0 {
        head
    } else {
        head + " — "@ + doc
    }) + count_note(item.variants@.len(), " variants"@) + count_note(
        item.fields@.len(),
        " fields"@,
    )
}

/// The model of a unit.
pub struct UnitView {
    pub id: Text,
    pub kind: Text,
    pub name: Text,
    pub module: Text,
    pub summary: Text,
    pub compressed: Text,
}

impl View for CodeUnit {
    type V = UnitView;

    open spec fn view(&self) -> UnitView {
        UnitView {
            id: self.id@,
            kind: self.kind@,
            name: self.name@,
            module: self.module@,
            summary: self.summary@,
            compressed: self.compressed@,
        }
    }
}

/// The models of units.
pub open spec fn unit_views(list: Seq<CodeUnit>) -> Seq<UnitView> {
    list.map_values(|u: CodeUnit| u@)
}

/// An API item as a unit.
pub open spec fn api_unit(item: ApiGraphItem) -> UnitView {
    UnitView {
        id: join_of(views(item.module@), "::"@) + "::"@ + item.name@,
        kind: item.kind@,
        name: item.name@,
        module: join_of(views(item.module@), "::"@),
        summary: api_summary(item),
        compressed: compressed_api(item),
    }
}

/// The API items as units.
pub open spec fn graph_units(items: Seq<ApiGraphItem>) -> Seq<UnitView> {
    items.map_values(|i: ApiGraphItem| api_unit(i))
}

/// A field of an API item.
fn write_field(f: &ApiField) -> (r: String)
    ensures
        r@ == api_field()(*f),
{
    let mut s = f.name.clone();
    s.append(": ");
    s.append(f.ty.as_str());
    s.append(write_suffix(f.doc.as_str()).as_str());
    s
}

/// Fields in braces.
fn write_braced(fields: &Vec<String>) -> (r: String)
    ensures
        r@ == braced(views(fields@)),
{
    assert(views(fields@).len() == fields@.len());
    if fields.len() == 0 {
        String::new()
    } else {
        let mut s = " { ".to_owned();
        s.append(join(fields, ", ").as_str());
        s.append(" }");
        s
    }
}

/// A variant of the enum `name`.
fn write_variant(name: &str, v: &ApiVariant) -> (r: String)
    ensures
        r@ == api_variant(name@)(*v),
{
    let field = |f: &ApiField| -> (s: String)
        ensures
            s@ == variant_field()(*f),
        {
            if starts_with(f.name.as_str(), "_") {
                f.ty.clone()
            } else {
                let mut s = f.name.clone();
                s.append(": ");
                s.append(f.ty.as_str());
                s
            }
        };
    let fields = texts_of(&v.fields, field, Ghost(variant_field()));
    let mut s = "  ".to_owned();
    s.append(name);
    s.append("::");
    s.append(v.name.as_str());
    s.append(write_braced(&fields).as_str());
    s.append(write_suffix(v.doc.as_str()).as_str());
    s.append("\n");
    s
}

/// A method.
fn write_method(m: &ApiMethod) -> (r: String)
    ensures
        r@ == api_method()(*m),
{
    proof {
        reveal_strlit("pub fn ");
        reveal_strlit("fn ");
    }
    let short = replace(m.signature.as_str(), "pub fn ", "");
    let mut s = replace(short.as_str(), "fn ", "");
    s.append(write_suffix(m.doc.as_str()).as_str());
    s
}

/// An entry with a title.
fn write_entry(any: bool, title: &str, body: &str) -> (r: String)
    ensures
        r@ == entry_if(any, title@, body@),
{
    if any {
        let mut s = title.to_owned();
        s.append(body);
        s.append("\n");
        s
    } else {
        String::new()
    }
}

/// An API item in its dense form.
pub fn render_compressed_api(item: &ApiGraphItem) -> (r: String)
    ensures
        r@ == compressed_api(*item),
{
    let mut hint = String::new();
    if item.module.len() > 0 {
        hint = " (".to_owned();
        hint.append(join(&item.module, "::").as_str());
        hint.append(")");
    }
    let field = |f: &ApiField| -> (s: String)
        ensures
            s@ == api_field()(*f),
        { write_field(f) };
    let fields = texts_of(&item.fields, field, Ghost(api_field()));
    let variant = |v: &ApiVariant| -> (s: String)
        ensures
            s@ == api_variant(item.name@)(*v),
        { write_variant(item.name.as_str(), v) };
    let mut variants = String::new();
    if item.variants.len() > 0 {
        variants = "variants:\n".to_owned();
        variants.append(
            write_all(&item.variants, variant, Ghost(api_variant(item.name@))).as_str(),
        );
    }
    let method = |m: &ApiMethod| -> (s: String)
        ensures
            s@ == api_method()(*m),
        { write_method(m) };
    let methods = texts_of(&item.methods, method, Ghost(api_method()));
    let signed = chars_of(item.signature.as_str()).len() > 0;
    let mut s = "[".to_owned();
    s.append(item.kind.as_str());
    s.append(": ");
    s.append(item.name.as_str());
    s.append(hint.as_str());
    s.append("]\n");
    s.append(write_doc(item.doc.as_str()).as_str());
    s.append(write_entry(signed, "sig: ", trim(item.signature.as_str()).as_str()).as_str());
    s.append(
        write_entry(item.fields.len() > 0, "fields: ", join(&fields, ", ").as_str()).as_str(),
    );
    s.append(variants.as_str());
    s.append(
        write_entry(item.methods.len() > 0, "methods: ", join(&methods, " | ").as_str()).as_str(),
    );
    s.append(
        write_entry(
            item.traits_impl.len() > 0,
            "impl: ",
            join(&item.traits_impl, ", ").as_str(),
        ).as_str(),
    );
    s
}

/// A count in square brackets.
fn write_count(n: usize, what: &str) -> (r: String)
    ensures
        r@ == count_note(n as nat, what@),
{
    if n == 0 {
        String::new()
    } else {
        let mut s = " [".to_owned();
        s.append(count_text(n).as_str());
        s.append(what);
        s.append("]");
        s
    }
}

/// The summary of an API item.
pub fn build_summary_api(item: &ApiGraphItem) -> (r: String)
    ensures
        r@ == api_summary(*item),
{
    let mut s = item.kind.clone();
    s.append(" `");
    s.append(item.name.as_str());
    s.append("`");
    let doc = first_line(item.doc.as_str());
    if chars_of(doc.as_str()).len() > 0 {
        s.append(" — ");
        s.append(doc.as_str());
    }
    s.append(write_count(item.variants.len(), " variants").as_str());
    s.append(write_count(item.fields.len(), " fields").as_str());
    s
}

/// An API item as a unit.
pub fn compress_api_item(item: &ApiGraphItem) -> (r: CodeUnit)
    ensures
        r@ == api_unit(*item),
{
    let module = join(&item.module, "::");
    let mut id = module.clone();
    id.append("::");
    id.append(item.name.as_str());
    CodeUnit {
        id,
        kind: item.kind.clone(),
        name: item.name.clone(),
        module,
        summary: build_summary_api(item),
        compressed: render_compressed_api(item),
    }
}

/// The items of an API graph as units.
pub fn compress_api_graph(items: &Vec<ApiGraphItem>) -> (r: Vec<CodeUnit>)
    ensures
        unit_views(r@) == graph_units(items@),
{
    let ghost all = graph_units(items@);
    let mut out: Vec<CodeUnit> = Vec::new();
    let mut i: usize = 0;
    while i < items.len()
        invariant
            i <= items@.len() == all.len(),
            all == graph_units(items@),
            unit_views(out@) == all.take(i as int),
        decreases items@.len() - i,
    {
        let ghost before = out@;
        let u = compress_api_item(&items[i]);
        out.push(u);
        assert(unit_views(out@) == unit_views(before).push(u@));
        assert(all.take(i + 1) == all.take(i as int).push(all[i as int]));
        i = i + 1;
    }
    assert(all.take(i as int) == all);
    out
}

/// Two units stand for the same item: its module and its name are the same.
pub open spec fn same_item(a: UnitView, b: UnitView) -> bool {
    a.module == b.module && a.name == b.name
}

/// Some unit of a list stands for the item of `u`.
pub open spec fn has_item(list: Seq<UnitView>, u: UnitView) -> bool {
    exists|i: int| 0 <= i < list.len() && same_item(#[trigger] list[i], u)
}

/// The units for whose items no other unit stands.
pub open spec fn not_covered(units: Seq<UnitView>, by: Seq<UnitView>) -> Seq<UnitView>
    decreases units.len(),
{
    if units.len() == 0 {
        Seq::empty()
    } else if has_item(by, units.last()) {
        not_covered(units.drop_last(), by)
    } else {
        not_covered(units.drop_last(), by).push(units.last())
    }
}

/// Whether some unit of a list stands for the item of `u`.
fn covers(list: &Vec<CodeUnit>, u: &CodeUnit) -> (r: bool)
    ensures
        r == has_item(unit_views(list@), u@),
{
    let ghost all = unit_views(list@);
    let mut i: usize = 0;
    while i < list.len()
        invariant
            i <= list@.len() == all.len(),
            all == unit_views(list@),
            forall|k: int| 0 <= k < i ==> !same_item(#[trigger] all[k], u@),
        decreases list@.len() - i,
    {
        assert(all[i as int] == list@[i as int]@);
        if same(list[i].module.as_str(), u.module.as_str()) && same(
            list[i].name.as_str(),
            u.name.as_str(),
        ) {
            return true;
        }
        i = i + 1;
    }
    false
}

/// A copy of a unit.
pub fn copy_unit(u: &CodeUnit) -> (r: CodeUnit)
    ensures
        r@ == u@,
{
    CodeUnit {
        id: u.id.clone(),
        kind: u.kind.clone(),
        name: u.name.clone(),
        module: u.module.clone(),
        summary: u.summary.clone(),
        compressed: u.compressed.clone(),
    }
}

/// The units of source and of an API graph together: what the graph has takes the place of what the
/// source has for the same item, one of the same module and name.
pub fn merge_units(source: &Vec<CodeUnit>, graph: Vec<CodeUnit>) -> (r: Vec<CodeUnit>)
    ensures
        unit_views(r@) == not_covered(unit_views(source@), unit_views(graph@)) + unit_views(graph@),
{
    let ghost all = unit_views(source@);
    let ghost by = unit_views(graph@);
    let mut out: Vec<CodeUnit> = Vec::new();
    let mut i: usize = 0;
    assert(unit_views(out@) == not_covered(all.take(0), by));
    while i < source.len()
        invariant
            i <= source@.len() == all.len(),
            all == unit_views(source@),
            by == unit_views(graph@),
            unit_views(out@) == not_covered(all.take(i as int), by),
        decreases source@.len() - i,
    {
        let ghost before = out@;
        assert(all.take(i + 1).drop_last() == all.take(i as int));
        assert(all.take(i + 1).last() == source@[i as int]@);
        if !covers(&graph, &source[i]) {
            let u = copy_unit(&source[i]);
            out.push(u);
            assert(unit_views(out@) == unit_views(before).push(u@));
        }
        i = i + 1;
    }
    assert(all.take(i as int) == all);
    let ghost left = out@;
    let mut rest = graph;
    out.append(&mut rest);
    assert(unit_views(out@) == unit_views(left) + by);
    out
}

/// What the source says of an item gives way just where the graph has that item: a unit of the
/// source is left if and only if no unit of the graph has its module and its name.
pub proof fn law_graph_takes_precedence(source: Seq<UnitView>, graph: Seq<UnitView>, u: UnitView)
    ensures
        not_covered(source, graph).contains(u) <==> source.contains(u) && !has_item(graph, u),
    decreases source.len(),
{
    let left = not_covered(source, graph);
    if source.len() > 0 {
        let start = source.drop_last();
        let before = not_covered(start, graph);
        law_graph_takes_precedence(start, graph, u);
        if before.contains(u) {
            let k = choose|k: int| 0 <= k < before.len() && before[k] == u;
            assert(left[k] == u);
        }
        if start.contains(u) {
            let k = choose|k: int| 0 <= k < start.len() && start[k] == u;
            assert(source[k] == u);
        }
        if source.contains(u) && !start.contains(u) {
            let k = choose|k: int| 0 <= k < source.len() && source[k] == u;
            if k < start.len() {
                assert(start[k] == u);
            }
            assert(u == source.last());
        }
        if left.contains(u) && !before.contains(u) {
            let k = choose|k: int| 0 <= k < left.len() && left[k] == u;
            if k < before.len() {
                assert(before[k] == u);
            }
            assert(u == source.last());
        }
        assert(source[source.len() - 1] == source.last());
        if !has_item(graph, source.last()) {
            assert(left[left.len() - 1] == source.last());
        }
    }
}

/// An item that the graph has comes out of the merge as the graph tells it, and not as the source
/// does.
pub proof fn law_merged_item_is_of_the_graph(
    source: Seq<UnitView>,
    graph: Seq<UnitView>,
    i: int,
    k: int,
)
    requires
        0 <= i < (not_covered(source, graph) + graph).len(),
        0 <= k < graph.len(),
        same_item((not_covered(source, graph) + graph)[i], graph[k]),
    ensures
        i >= not_covered(source, graph).len(),
{
    let left = not_covered(source, graph);
    if i < left.len() {
        assert(left.contains(left[i]));
        law_graph_takes_precedence(source, graph, left[i]);
        assert(same_item(graph[k], left[i]));
    }
}

/// The texts of the doc comments among attributes, each trimmed.
pub open spec fn doc_values(attrs: Seq<AttrView>) -> Seq<Text>
    decreases attrs.len(),
{
    if attrs.len() == 0 {
        Seq::empty()
    } else {
        let before = doc_values(attrs.drop_last());
        let a = attrs.last();
        if a.name == Some("doc"@) && a.value is Some {
            before.push(trim_of(a.value->0))
        } else {
            before
        }
    }
}

/// The doc of an item.
pub open spec fn doc_of(attrs: Seq<AttrView>) -> Text {
    join_of(doc_values(attrs), "\n"@)
}

/// A type without the spaces that its tokens are set apart by.
pub open spec fn type_text(tokens: Text) -> Text {
    replace_of(
        replace_of(replace_of(tokens, " :: "@, "::"@), "< "@, "<"@),
        " >"@,
        ">"@,
    )
}

/// A name, or nothing where there is none.
pub open spec fn name_or_empty(name: Option<Text>) -> Text {
    match name {
        Some(n) => n,
        None => Seq::empty(),
    }
}

/// A field with its name.
pub open spec fn named_field(f: FieldView) -> Text {
    name_or_empty(f.name) + ": "@ + type_text(f.ty)
}

/// The public ones among fields.
pub open spec fn public_fields(list: Seq<FieldView>) -> Seq<Text>
    decreases list.len(),
{
    if list.len() == 0 {
        Seq::empty()
    } else if list.last().public {
        public_fields(list.drop_last()).push(named_field(list.last()))
    } else {
        public_fields(list.drop_last())
    }
}

/// The fields that the dense form of a struct shows: the public ones, where they have names.
pub open spec fn struct_fields(f: FieldsView) -> Seq<Text> {
    match f.style {
        FieldStyle::Named => public_fields(f.list),
        _ => Seq::empty(),
    }
}

/// The fields that the dense form of a variant shows.
pub open spec fn variant_fields(f: FieldsView) -> Seq<Text> {
    match f.style {
        FieldStyle::Named => f.list.map_values(|x: FieldView| named_field(x)),
        FieldStyle::Unnamed => f.list.map_values(|x: FieldView| type_text(x.ty)),
        FieldStyle::Unit => Seq::empty(),
    }
}

/// The line for a variant of the enum `name`.
pub open spec fn variant_line(name: Text) -> spec_fn(VariantView) -> Text {
    |v: VariantView|
        "  "@ + name + "::"@ + v.name + braced(variant_fields(v.fields)) + doc_suffix(
            doc_of(v.attrs),
        ) + "\n"@
}

/// A struct in its dense form.
pub open spec fn dense_struct(name: Text, attrs: Seq<AttrView>, fields: FieldsView) -> Text {
    "[struct: "@ + name + "]\n"@ + doc_comment(doc_of(attrs)) + entry_if(
        struct_fields(fields).len() > 0,
        "fields: "@,
        join_of(struct_fields(fields), ", "@),
    )
}

/// An enum in its dense form.
pub open spec fn dense_enum(name: Text, attrs: Seq<AttrView>, variants: Seq<VariantView>) -> Text {
    "[enum: "@ + name + "]\n"@ + doc_comment(doc_of(attrs)) + "variants:\n"@ + written_out(
        variants,
        variant_line(name),
    )
}

/// A function in its dense form.
pub open spec fn dense_function(name: Text, attrs: Seq<AttrView>, signature: Text) -> Text {
    "[fn: "@ + name + "]\n"@ + doc_comment(doc_of(attrs)) + "sig: "@ + signature + "\n"@
}

/// The path of `name` in a module.
pub open spec fn in_module(module: Text, name: Text) -> Text {
    if module.len() == 0 {
        name
    } else {
        module + "::"@ + name
    }
}

/// A unit of source.
pub open spec fn source_unit(kind: Text, name: Text, module: Text, compressed: Text) -> UnitView {
    UnitView {
        id: in_module(module, name),
        kind,
        name,
        module,
        summary: kind + " `"@ + name + "`"@,
        compressed,
    }
}

/// The names of the public methods of an impl block.
pub open spec fn public_methods(members: Seq<MemberView>) -> Seq<Text>
    decreases members.len(),
{
    if members.len() == 0 {
        Seq::empty()
    } else {
        let before = public_methods(members.drop_last());
        match members.last() {
            MemberView::Method { public, name } => if public {
                before.push(name)
            } else {
                before
            },
            MemberView::Other => before,
        }
    }
}

/// The position of the first unit with a name, or the end.
pub open spec fn unit_at(units: Seq<UnitView>, name: Text, from: int) -> int
    decreases units.len() - from,
{
    if 0 <= from < units.len() && units[from].name != name {
        unit_at(units, name, from + 1)
    } else {
        from
    }
}

/// The units with methods added to the first one of a name; nothing changes where there is none, or
/// where there are no methods.
pub open spec fn with_methods(units: Seq<UnitView>, name: Text, methods: Seq<Text>) -> Seq<UnitView> {
    let at = unit_at(units, name, 0);
    if 0 <= at < units.len() && methods.len() > 0 {
        units.update(
            at,
            UnitView {
                compressed: units[at].compressed + ("methods: "@ + join_of(methods, " | "@)
                    + "\n"@),
                ..units[at]
            },
        )
    } else {
        units
    }
}

/// The units with the methods of impl blocks added.
pub open spec fn flushed(units: Seq<UnitView>, pending: Seq<(Text, Seq<Text>)>) -> Seq<UnitView>
    decreases pending.len(),
{
    if pending.len() == 0 {
        units
    } else {
        with_methods(flushed(units, pending.drop_last()), pending.last().0, pending.last().1)
    }
}

/// The units gathered so far, and the impl blocks that were not yet added to theirs.
#[verifier::ext_equal]
pub struct Shelf {
    pub units: Seq<UnitView>,
    pub pending: Seq<(Text, Seq<Text>)>,
}

/// The shelf with one more unit.
pub open spec fn with_unit(s: Shelf, u: UnitView) -> Shelf {
    Shelf { units: s.units.push(u), ..s }
}

/// The shelf with the methods of its impl blocks added to its units.
pub open spec fn settled(s: Shelf) -> Shelf {
    Shelf { units: flushed(s.units, s.pending), pending: Seq::empty() }
}

/// The shelf once an item was visited. Only public items become units; the end of an inline module
/// settles the impl blocks seen so far. Items that are declared inside an expression are visited
/// after the item around it, in the same module, but for those inside functions, impl blocks and
/// private structs and enums, which are passed over whole.
pub open spec fn visited(item: ItemView, module: Text, s: Shelf) -> Shelf
    decreases item,
{
    match item {
        ItemView::Struct { public, name, attrs, fields, inner } => if public {
            visited_all(
                inner,
                module,
                with_unit(
                    s,
                    source_unit("struct"@, name, module, dense_struct(name, attrs, fields)),
                ),
            )
        } else {
            s
        },
        ItemView::Enum { public, name, attrs, variants, inner } => if public {
            visited_all(
                inner,
                module,
                with_unit(s, source_unit("enum"@, name, module, dense_enum(name, attrs, variants))),
            )
        } else {
            s
        },
        ItemView::Function { public, name, attrs, signature } => if public {
            with_unit(s, source_unit("fn"@, name, module, dense_function(name, attrs, signature)))
        } else {
            s
        },
        ItemView::Impl { target, members } => match target {
            Some(t) => Shelf { pending: s.pending.push((t, public_methods(members))), ..s },
            None => s,
        },
        ItemView::Module { name, items } => settled(
            visited_all(items, in_module(module, name), s),
        ),
        ItemView::ModuleFile { name } => s,
        ItemView::Other { inner } => visited_all(inner, module, s),
    }
}

/// The shelf once items were visited, one after another.
pub open spec fn visited_all(items: Seq<ItemView>, module: Text, s: Shelf) -> Shelf
    decreases items,
{
    if items.len() == 0 {
        s
    } else {
        visited(
            items[items.len() - 1],
            module,
            visited_all(items.subrange(0, items.len() - 1), module, s),
        )
    }
}

/// The units of the items of a module.
pub open spec fn item_units(items: Seq<ItemView>, module: Text) -> Seq<UnitView> {
    settled(
        visited_all(items, module, Shelf { units: Seq::empty(), pending: Seq::empty() }),
    ).units
}

/// The units of a source file in a module; none where the text is no such file.
pub open spec fn source_units(text: Text, module: Text) -> Seq<UnitView> {
    match source_items_of(text) {
        Some(items) => item_units(items, module),
        None => Seq::empty(),
    }
}

/// An impl block that was not yet added to its unit.
struct PendingImpl {
    target: String,
    methods: Vec<String>,
}

spec fn impl_views(list: Seq<PendingImpl>) -> Seq<(Text, Seq<Text>)> {
    list.map_values(|p: PendingImpl| (p.target@, views(p.methods@)))
}

/// Gathers the units of a source file.
struct CompressVisitor {
    units: Vec<CodeUnit>,
    pending: Vec<PendingImpl>,
}

impl CompressVisitor {
    spec fn shelf(self) -> Shelf {
        Shelf { units: unit_views(self.units@), pending: impl_views(self.pending@) }
    }

    /// Adds methods to the first unit of a name.
    fn add_methods(&mut self, name: &str, methods: &Vec<String>)
        ensures
            final(self).pending == old(self).pending,
            unit_views(final(self).units@) == with_methods(
                unit_views(old(self).units@),
                name@,
                views(methods@),
            ),
    {
        let ghost all = unit_views(self.units@);
        assert(views(methods@).len() == methods@.len());
        let mut i: usize = 0;
        while i < self.units.len() && !same(self.units[i].name.as_str(), name)
            invariant
                i <= self.units@.len() == all.len(),
                self.units == old(self).units,
                self.pending == old(self).pending,
                all == unit_views(self.units@),
                unit_at(all, name@, 0) == unit_at(all, name@, i as int),
            decreases self.units@.len() - i,
        {
            assert(all[i as int] == self.units@[i as int]@);
            i = i + 1;
        }
        if i < self.units.len() && methods.len() > 0 {
            assert(all[i as int] == self.units@[i as int]@);
            let mut entry = "methods: ".to_owned();
            entry.append(join(methods, " | ").as_str());
            entry.append("\n");
            let mut u = copy_unit(&self.units[i]);
            u.compressed.append(entry.as_str());
            self.units.set(i, u);
            assert(unit_views(self.units@) == all.update(i as int, u@));
        }
    }

    /// Adds the methods of the impl blocks seen so far to their units.
    fn flush_impls(&mut self)
        ensures
            final(self).shelf() == settled(old(self).shelf()),
    {
        let mut pending: Vec<PendingImpl> = Vec::new();
        std::mem::swap(&mut pending, &mut self.pending);
        let ghost all = impl_views(pending@);
        let ghost start = unit_views(self.units@);
        let mut i: usize = 0;
        assert(all.take(0) == Seq::<(Text, Seq<Text>)>::empty());
        while i < pending.len()
            invariant
                i <= pending@.len() == all.len(),
                all == impl_views(pending@),
                self.pending@.len() == 0,
                unit_views(self.units@) == flushed(start, all.take(i as int)),
            decreases pending@.len() - i,
        {
            assert(all.take(i + 1).drop_last() == all.take(i as int));
            assert(all.take(i + 1).last() == (
                pending@[i as int].target@,
                views(pending@[i as int].methods@),
            ));
            self.add_methods(pending[i].target.as_str(), &pending[i].methods);
            i = i + 1;
        }
        assert(all.take(i as int) == all);
        assert(impl_views(self.pending@) == Seq::<(Text, Seq<Text>)>::empty());
    }

    /// Adds a unit.
    fn add_unit(&mut self, kind: &str, name: &str, module: &str, compressed: String)
        ensures
            final(self).shelf() == with_unit(
                old(self).shelf(),
                source_unit(kind@, name@, module@, compressed@),
            ),
    {
        let mut summary = kind.to_owned();
        summary.append(" `");
        summary.append(name);
        summary.append("`");
        let u = CodeUnit {
            id: path_in(module, name),
            kind: kind.to_owned(),
            name: name.to_owned(),
            module: module.to_owned(),
            summary,
            compressed,
        };
        self.units.push(u);
        assert(unit_views(self.units@) == unit_views(old(self).units@).push(u@));
    }

    /// Visits items, one after another.
    fn visit_items(&mut self, items: &Vec<SourceItem>, module: &str)
        ensures
            final(self).shelf() == visited_all(item_views(items@), module@, old(self).shelf()),
        decreases item_views(items@),
    {
        let ghost all = item_views(items@);
        let ghost start = self.shelf();
        let mut i: usize = 0;
        assert(all.take(0).len() == 0);
        while i < items.len()
            invariant
                i <= items@.len() == all.len(),
                all == item_views(items@),
                self.shelf() == visited_all(all.take(i as int), module@, start),
            decreases items@.len() - i,
        {
            let ghost before = self.shelf();
            let ghost part = all.take(i + 1);
            assert(part.subrange(0, part.len() - 1) == all.take(i as int));
            assert(part[part.len() - 1] == items@[i as int]@);
            proof {
                lemma_item_view(items@[i as int]);
            }
            match &items[i] {
                SourceItem::Struct { public, name, attrs, fields, inner } => {
                    if *public {
                        let dense = write_struct(name.as_str(), attrs, fields);
                        self.add_unit("struct", name.as_str(), module, dense);
                        proof {
                            let view = all[i as int];
                            assert(decreases_to!(all => view));
                            assert(decreases_to!(view => view->Struct_inner));
                        }
                        self.visit_items(inner, module);
                    }
                },
                SourceItem::Enum { public, name, attrs, variants, inner } => {
                    if *public {
                        let dense = write_enum(name.as_str(), attrs, variants);
                        self.add_unit("enum", name.as_str(), module, dense);
                        proof {
                            let view = all[i as int];
                            assert(decreases_to!(all => view));
                            assert(decreases_to!(view => view->Enum_inner));
                        }
                        self.visit_items(inner, module);
                    }
                },
                SourceItem::Function { public, name, attrs, signature } => {
                    if *public {
                        let dense = write_function(name.as_str(), attrs, signature.as_str());
                        self.add_unit("fn", name.as_str(), module, dense);
                    }
                },
                SourceItem::Impl { target, members } => {
                    if let Some(t) = target {
                        let methods = method_names(members);
                        let ghost old_pending = self.pending@;
                        let p = PendingImpl { target: t.clone(), methods };
                        self.pending.push(p);
                        assert(impl_views(self.pending@) == impl_views(old_pending).push(
                            (p.target@, views(p.methods@)),
                        ));
                    }
                },
                SourceItem::Module { name, items: inner } => {
                    let path = path_in(module, name.as_str());
                    proof {
                        let view = all[i as int];
                        assert(decreases_to!(all => view));
                        assert(decreases_to!(view => view->Module_items));
                    }
                    self.visit_items(inner, path.as_str());
                    self.flush_impls();
                },
                SourceItem::ModuleFile { name: _ } => {},
                SourceItem::Other { inner } => {
                    proof {
                        let view = all[i as int];
                        assert(decreases_to!(all => view));
                        assert(decreases_to!(view => view->Other_inner));
                    }
                    self.visit_items(inner, module);
                },
            }
            assert(self.shelf() == visited(items@[i as int]@, module@, before));
            assert(visited_all(part, module@, start) == visited(
                items@[i as int]@,
                module@,
                before,
            ));
            i = i + 1;
        }
        assert(all.take(i as int) == all);
    }
}

/// The path of `name` in a module.
pub fn path_in(module: &str, name: &str) -> (r: String)
    ensures
        r@ == in_module(module@, name@),
{
    if chars_of(module).len() == 0 {
        name.to_owned()
    } else {
        let mut s = module.to_owned();
        s.append("::");
        s.append(name);
        s
    }
}

/// The doc of an item.
fn extract_doc(attrs: &Vec<SourceAttr>) -> (r: String)
    ensures
        r@ == doc_of(attr_views(attrs@)),
{
    let ghost all = attr_views(attrs@);
    let mut out: Vec<String> = Vec::new();
    let mut i: usize = 0;
    assert(views(out@) == doc_values(all.take(0)));
    while i < attrs.len()
        invariant
            i <= attrs@.len() == all.len(),
            all == attr_views(attrs@),
            views(out@) == doc_values(all.take(i as int)),
        decreases attrs@.len() - i,
    {
        let ghost before = out@;
        assert(all.take(i + 1).drop_last() == all.take(i as int));
        assert(all.take(i + 1).last() == attrs@[i as int]@);
        let a = &attrs[i];
        let is_doc = match &a.name {
            Some(n) => same(n.as_str(), "doc"),
            None => false,
        };
        if is_doc {
            if let Some(v) = &a.value {
                let s = trim(v.as_str());
                out.push(s);
                assert(views(out@) == views(before).push(s@));
            }
        }
        i = i + 1;
    }
    assert(all.take(i as int) == all);
    join(&out, "\n")
}

/// A type without the spaces that its tokens are set apart by.
pub fn ty_str(tokens: &str) -> (r: String)
    ensures
        r@ == type_text(tokens@),
{
    proof {
        reveal_strlit(" :: ");
        reveal_strlit("< ");
        reveal_strlit(" >");
    }
    let a = replace(tokens, " :: ", "::");
    let b = replace(a.as_str(), "< ", "<");
    replace(b.as_str(), " >", ">")
}

/// A field with its name.
fn write_named(name: &Option<String>, ty: &str) -> (r: String)
    ensures
        r@ == name_or_empty(opt_text(*name)) + ": "@ + type_text(ty@),
{
    let mut s = match name {
        Some(n) => n.clone(),
        None => String::new(),
    };
    s.append(": ");
    s.append(ty_str(ty).as_str());
    s
}

/// A struct in its dense form.
fn write_struct(name: &str, attrs: &Vec<SourceAttr>, fields: &SourceFields) -> (r: String)
    ensures
        r@ == dense_struct(name@, attr_views(attrs@), fields@),
{
    let list = &fields.list;
    let ghost all = fields@.list;
    let mut shown: Vec<String> = Vec::new();
    assert(views(shown@) == Seq::<Text>::empty());
    if fields.style == FieldStyle::Named {
        let mut i: usize = 0;
        assert(views(shown@) == public_fields(all.take(0)));
        while i < list.len()
            invariant
                i <= list@.len() == all.len(),
                all == list@.map_values(|f: SourceField| f@),
                views(shown@) == public_fields(all.take(i as int)),
            decreases list@.len() - i,
        {
            let ghost before = shown@;
            assert(all.take(i + 1).drop_last() == all.take(i as int));
            assert(all.take(i + 1).last() == list@[i as int]@);
            let f = &list[i];
            if f.public {
                let s = write_named(&f.name, f.ty.as_str());
                shown.push(s);
                assert(views(shown@) == views(before).push(s@));
            }
            i = i + 1;
        }
        assert(all.take(i as int) == all);
    }
    assert(views(shown@).len() == shown@.len());
    let mut out = "[struct: ".to_owned();
    out.append(name);
    out.append("]\n");
    out.append(write_doc(extract_doc(attrs).as_str()).as_str());
    out.append(write_entry(shown.len() > 0, "fields: ", join(&shown, ", ").as_str()).as_str());
    out
}

/// The fields that the dense form of a variant shows.
fn shown_fields(fields: &SourceFields) -> (r: Vec<String>)
    ensures
        views(r@) == variant_fields(fields@),
{
    let style = fields.style;
    let list = &fields.list;
    let ghost all = variant_fields(fields@);
    let mut shown: Vec<String> = Vec::new();
    assert(views(shown@) == Seq::<Text>::empty());
    if style == FieldStyle::Unit {
        return shown;
    }
    let mut i: usize = 0;
    while i < list.len()
        invariant
            i <= list@.len() == all.len(),
            style != FieldStyle::Unit,
            style == fields.style,
            list == &fields.list,
            all == variant_fields(fields@),
            views(shown@) == all.take(i as int),
        decreases list@.len() - i,
    {
        let ghost before = shown@;
        let f = &list[i];
        assert(fields@.list[i as int] == f@);
        let s = if style == FieldStyle::Named {
            write_named(&f.name, f.ty.as_str())
        } else {
            ty_str(f.ty.as_str())
        };
        assert(all[i as int] == s@);
        shown.push(s);
        assert(views(shown@) == views(before).push(s@));
        assert(all.take(i + 1) == all.take(i as int).push(all[i as int]));
        i = i + 1;
    }
    assert(all.take(i as int) == all);
    shown
}

/// An enum in its dense form.
fn write_enum(name: &str, attrs: &Vec<SourceAttr>, variants: &Vec<SourceVariant>) -> (r: String)
    ensures
        r@ == dense_enum(
            name@,
            attr_views(attrs@),
            variants@.map_values(|v: SourceVariant| v@),
        ),
{
    let ghost all = variants@.map_values(|v: SourceVariant| v@);
    let mut listed = String::new();
    let mut i: usize = 0;
    while i < variants.len()
        invariant
            i <= variants@.len() == all.len(),
            all == variants@.map_values(|v: SourceVariant| v@),
            listed@ == written_out(all.take(i as int), variant_line(name@)),
        decreases variants@.len() - i,
    {
        assert(all.take(i + 1).drop_last() == all.take(i as int));
        assert(all.take(i + 1).last() == variants@[i as int]@);
        let v = &variants[i];
        let mut s = "  ".to_owned();
        s.append(name);
        s.append("::");
        s.append(v.name.as_str());
        s.append(write_braced(&shown_fields(&v.fields)).as_str());
        s.append(write_suffix(extract_doc(&v.attrs).as_str()).as_str());
        s.append("\n");
        listed.append(s.as_str());
        i = i + 1;
    }
    assert(all.take(i as int) == all);
    let mut out = "[enum: ".to_owned();
    out.append(name);
    out.append("]\n");
    out.append(write_doc(extract_doc(attrs).as_str()).as_str());
    out.append("variants:\n");
    out.append(listed.as_str());
    out
}

/// A function in its dense form.
fn write_function(name: &str, attrs: &Vec<SourceAttr>, signature: &str) -> (r: String)
    ensures
        r@ == dense_function(name@, attr_views(attrs@), signature@),
{
    let mut out = "[fn: ".to_owned();
    out.append(name);
    out.append("]\n");
    out.append(write_doc(extract_doc(attrs).as_str()).as_str());
    out.append("sig: ");
    out.append(signature);
    out.append("\n");
    out
}

/// The names of the public methods of an impl block.
fn method_names(members: &Vec<SourceMember>) -> (r: Vec<String>)
    ensures
        views(r@) == public_methods(members@.map_values(|m: SourceMember| m@)),
{
    let ghost all = members@.map_values(|m: SourceMember| m@);
    let mut out: Vec<String> = Vec::new();
    let mut i: usize = 0;
    assert(views(out@) == public_methods(all.take(0)));
    while i < members.len()
        invariant
            i <= members@.len() == all.len(),
            all == members@.map_values(|m: SourceMember| m@),
            views(out@) == public_methods(all.take(i as int)),
        decreases members@.len() - i,
    {
        let ghost before = out@;
        assert(all.take(i + 1).drop_last() == all.take(i as int));
        assert(all.take(i + 1).last() == members@[i as int]@);
        match &members[i] {
            SourceMember::Method { public, name } => {
                if *public {
                    out.push(name.clone());
                    assert(views(out@) == views(before).push(name@));
                }
            },
            SourceMember::Other => {},
        }
        i = i + 1;
    }
    assert(all.take(i as int) == all);
    out
}

/// The units of the items of a module.
pub fn compress_items(items: &Vec<SourceItem>, module: &str) -> (r: Vec<CodeUnit>)
    ensures
        unit_views(r@) == item_units(item_views(items@), module@),
{
    let mut visitor = CompressVisitor { units: Vec::new(), pending: Vec::new() };
    assert(visitor.shelf() == (Shelf { units: Seq::empty(), pending: Seq::empty() }));
    visitor.visit_items(items, module);
    visitor.flush_impls();
    visitor.units
}

/// The units of a source file in a module; none where the text is no such file.
pub fn compress_source(text: &str, module: &str) -> (r: Vec<CodeUnit>)
    ensures
        unit_views(r@) == source_units(text@, module@),
{
    match source_items(text) {
        Some(items) => compress_items(&items, module),
        None => {
            let none: Vec<CodeUnit> = Vec::new();
            assert(unit_views(none@) == Seq::<UnitView>::empty());
            none
        },
    }
}

/// Only public structs, enums and functions become units.
pub proof fn law_private_items_stay_out(item: ItemView, module: Text, s: Shelf)
    requires
        match item {
            ItemView::Struct { public, .. } => !public,
            ItemView::Enum { public, .. } => !public,
            ItemView::Function { public, .. } => !public,
            ItemView::Impl { .. } => true,
            ItemView::Module { .. } => false,
            ItemView::ModuleFile { .. } => true,
            ItemView::Other { inner } => inner.len() == 0,
        },
    ensures
        visited(item, module, s).units == s.units,
{
}

/// Adding methods changes no more than dense forms: the units stay, under their ids.
pub proof fn law_methods_only_extend(units: Seq<UnitView>, name: Text, methods: Seq<Text>, i: int)
    requires
        0 <= i < units.len(),
    ensures
        with_methods(units, name, methods).len() == units.len(),
        with_methods(units, name, methods)[i].id == units[i].id,
        units[i].compressed.is_prefix_of(with_methods(units, name, methods)[i].compressed),
{
}

/// The words that tell nothing.
pub open spec fn is_stop_word(w: Text) -> bool {
    ||| w == "the"@
    ||| w == "a"@
    ||| w == "an"@
    ||| w == "is"@
    ||| w == "it"@
    ||| w == "in"@
    ||| w == "of"@
    ||| w == "to"@
    ||| w == "and"@
    ||| w == "or"@
    ||| w == "for"@
    ||| w == "on"@
    ||| w == "at"@
    ||| w == "be"@
    ||| w == "as"@
    ||| w == "by"@
    ||| w == "fn"@
    ||| w == "pub"@
    ||| w == "let"@
    ||| w == "use"@
    ||| w == "mut"@
    ||| w == "self"@
}

/// A word that counts: three bytes or more, and it tells something.
pub open spec fn is_token(w: Text) -> bool {
    byte_len(w) >= 3 && !is_stop_word(w)
}

/// The tokens among words, written small.
pub open spec fn tokens_in(words: Seq<Text>) -> Seq<Text>
    decreases words.len(),
{
    if words.len() == 0 {
        Seq::empty()
    } else if is_token(lowercase_of(words.last())) {
        tokens_in(words.drop_last()).push(lowercase_of(words.last()))
    } else {
        tokens_in(words.drop_last())
    }
}

/// The tokens of a text.
pub open spec fn tokens_of(text: Text) -> Seq<Text> {
    tokens_in(words_of(text))
}

/// Whether a word tells nothing.
fn stop_word(w: &str) -> (r: bool)
    ensures
        r == is_stop_word(w@),
{
    same(w, "the") || same(w, "a") || same(w, "an") || same(w, "is") || same(w, "it") || same(
        w,
        "in",
    ) || same(w, "of") || same(w, "to") || same(w, "and") || same(w, "or") || same(w, "for")
        || same(w, "on") || same(w, "at") || same(w, "be") || same(w, "as") || same(w, "by")
        || same(w, "fn") || same(w, "pub") || same(w, "let") || same(w, "use") || same(w, "mut")
        || same(w, "self")
}

/// The tokens of a text.
pub fn tokenise(text: &str) -> (r: Vec<String>)
    ensures
        views(r@) == tokens_of(text@),
{
    let ws = words(text);
    let ghost all = views(ws@);
    let mut out: Vec<String> = Vec::new();
    let mut i: usize = 0;
    assert(views(out@) == tokens_in(all.take(0)));
    while i < ws.len()
        invariant
            i <= ws@.len() == all.len(),
            all == views(ws@),
            views(out@) == tokens_in(all.take(i as int)),
        decreases ws@.len() - i,
    {
        let ghost before = out@;
        assert(all.take(i + 1).drop_last() == all.take(i as int));
        assert(all.take(i + 1).last() == ws@[i as int]@);
        let low = ws[i].as_str().to_lowercase();
        if bytes_in(low.as_str()) >= 3 && !stop_word(low.as_str()) {
            out.push(low);
            assert(views(out@) == views(before).push(low@));
        }
        i = i + 1;
    }
    assert(all.take(i as int) == all);
    out
}

/// How often a token occurs.
pub open spec fn occurrences(tokens: Seq<Text>, t: Text) -> nat
    decreases tokens.len(),
{
    if tokens.len() == 0 {
        0
    } else {
        occurrences(tokens.drop_last(), t) + if tokens.last() == t {
            1nat
        } else {
            0nat
        }
    }
}

/// The models of terms and how often each occurs.
pub open spec fn term_views(list: Seq<(String, usize)>) -> Seq<(Text, nat)> {
    list.map_values(|e: (String, usize)| (e.0@, e.1 as nat))
}

/// `terms` counts `tokens`: each token once, with how often it occurs, and nothing else.
pub open spec fn counts_tokens(terms: Seq<(Text, nat)>, tokens: Seq<Text>) -> bool {
    &&& forall|i: int, j: int| 0 <= i < j < terms.len() ==> (#[trigger] terms[i]).0 != (#[trigger] terms[j]).0
    &&& forall|i: int|
        0 <= i < terms.len() ==> (#[trigger] terms[i]).1 == occurrences(tokens, terms[i].0)
            && terms[i].1 > 0
    &&& forall|t: Text| #[trigger]
        occurrences(tokens, t) > 0 ==> exists|i: int|
            0 <= i < terms.len() && (#[trigger] terms[i]).0 == t
}

/// A token occurs at most as often as there are tokens.
proof fn lemma_occurrences_bound(tokens: Seq<Text>, t: Text)
    ensures
        occurrences(tokens, t) <= tokens.len(),
    decreases tokens.len(),
{
    if tokens.len() > 0 {
        lemma_occurrences_bound(tokens.drop_last(), t);
    }
}

/// The terms of a text, each with how often it occurs.
pub fn term_counts(text: &str) -> (r: Vec<(String, usize)>)
    ensures
        counts_tokens(term_views(r@), tokens_of(text@)),
{
    let tokens = tokenise(text);
    let ghost all = views(tokens@);
    let mut out: Vec<(String, usize)> = Vec::new();
    let mut i: usize = 0;
    assert(counts_tokens(term_views(out@), all.take(0)));
    while i < tokens.len()
        invariant
            i <= tokens@.len() == all.len(),
            all == views(tokens@),
            counts_tokens(term_views(out@), all.take(i as int)),
        decreases tokens@.len() - i,
    {
        let ghost before = term_views(out@);
        let ghost part = all.take(i as int);
        let ghost next = all.take(i + 1);
        assert(next.drop_last() == part);
        assert(next.last() == tokens@[i as int]@);
        let mut k: usize = 0;
        while k < out.len() && !same(out[k].0.as_str(), tokens[i].as_str())
            invariant
                k <= out@.len() == before.len(),
                i < tokens@.len(),
                before == term_views(out@),
                forall|j: int| 0 <= j < k ==> (#[trigger] before[j]).0 != tokens@[i as int]@,
            decreases out@.len() - k,
        {
            assert(before[k as int] == (out@[k as int].0@, out@[k as int].1 as nat));
            k = k + 1;
        }
        if k < out.len() {
            let ghost old_count = before[k as int];
            assert(old_count == (out@[k as int].0@, out@[k as int].1 as nat));
            proof {
                lemma_occurrences_bound(part, old_count.0);
                lemma_occurrences_bound(next, old_count.0);
            }
            let n = out[k].1 + 1;
            let term = out[k].0.clone();
            out.set(k, (term, n));
            let ghost after = term_views(out@);
            assert(after == before.update(k as int, (old_count.0, n as nat)));
            assert forall|a: int, b: int| 0 <= a < b < after.len() implies (#[trigger] after[a]).0
                != (#[trigger] after[b]).0 by {
                assert(before[a].0 != before[b].0);
            }
            assert forall|a: int| 0 <= a < after.len() implies (#[trigger] after[a]).1
                == occurrences(next, after[a].0) && after[a].1 > 0 by {
                assert(before[a].1 == occurrences(part, before[a].0));
                if a != k {
                    assert(before[a].0 != before[k as int].0);
                }
            }
            assert forall|t: Text| #[trigger] occurrences(next, t) > 0 implies exists|a: int|
                0 <= a < after.len() && (#[trigger] after[a]).0 == t by {
                if t == tokens@[i as int]@ {
                    assert(after[k as int].0 == t);
                } else {
                    assert(occurrences(part, t) > 0);
                    let a = choose|a: int| 0 <= a < before.len() && (#[trigger] before[a]).0 == t;
                    assert(after[a].0 == t);
                }
            }
        } else {
            out.push((tokens[i].clone(), 1));
            let ghost after = term_views(out@);
            assert(after == before.push((tokens@[i as int]@, 1nat)));
            assert(occurrences(part, tokens@[i as int]@) == 0) by {
                if occurrences(part, tokens@[i as int]@) > 0 {
                    let a = choose|a: int|
                        0 <= a < before.len() && (#[trigger] before[a]).0 == tokens@[i as int]@;
                    assert(false);
                }
            }
            assert forall|a: int, b: int| 0 <= a < b < after.len() implies (#[trigger] after[a]).0
                != (#[trigger] after[b]).0 by {
                assert(after[a] == before[a]);
                if b < before.len() {
                    assert(after[b] == before[b]);
                }
            }
            assert forall|a: int| 0 <= a < after.len() implies (#[trigger] after[a]).1
                == occurrences(next, after[a].0) && after[a].1 > 0 by {
                if a < before.len() {
                    assert(after[a] == before[a]);
                    assert(before[a].0 != tokens@[i as int]@);
                }
            }
            assert forall|t: Text| #[trigger] occurrences(next, t) > 0 implies exists|a: int|
                0 <= a < after.len() && (#[trigger] after[a]).0 == t by {
                if t == tokens@[i as int]@ {
                    assert(after[before.len() as int].0 == t);
                } else {
                    assert(occurrences(part, t) > 0);
                    let a = choose|a: int| 0 <= a < before.len() && (#[trigger] before[a]).0 == t;
                    assert(after[a].0 == t);
                }
            }
        }
        i = i + 1;
    }
    assert(all.take(i as int) == all);
    out
}

/// A part of a path that names a module; the names of root files do not.
pub open spec fn names_module(part: Text) -> bool {
    part != "mod"@ && part != "lib"@ && part != "main"@
}

/// The parts of a path that name modules.
pub open spec fn module_parts(parts: Seq<Text>) -> Seq<Text>
    decreases parts.len(),
{
    if parts.len() == 0 {
        Seq::empty()
    } else if names_module(parts.last()) {
        module_parts(parts.drop_last()).push(parts.last())
    } else {
        module_parts(parts.drop_last())
    }
}

/// The module of a source file, by the parts of its path without the extension.
pub fn derive_module(parts: &Vec<String>) -> (r: String)
    ensures
        r@ == join_of(module_parts(views(parts@)), "::"@),
{
    let ghost all = views(parts@);
    let mut out: Vec<String> = Vec::new();
    let mut i: usize = 0;
    assert(views(out@) == module_parts(all.take(0)));
    while i < parts.len()
        invariant
            i <= parts@.len() == all.len(),
            all == views(parts@),
            views(out@) == module_parts(all.take(i as int)),
        decreases parts@.len() - i,
    {
        let ghost before = out@;
        assert(all.take(i + 1).drop_last() == all.take(i as int));
        assert(all.take(i + 1).last() == parts@[i as int]@);
        let p = parts[i].as_str();
        if !same(p, "mod") && !same(p, "lib") && !same(p, "main") {
            out.push(parts[i].clone());
            assert(views(out@) == views(before).push(p@));
        }
        i = i + 1;
    }
    assert(all.take(i as int) == all);
    join(&out, "::")
}

/// A source file: the parts of its path below the directory, without the extension, and its text.
#[derive(Debug, Clone)]
pub struct SourceFile {
    pub parts: Vec<String>,
    pub text: String,
}

/// The module of a source file.
pub open spec fn module_of(file: SourceFile) -> Text {
    join_of(module_parts(views(file.parts@)), "::"@)
}

/// The units of several files, one after another. A file that cannot be read as source has none.
pub open spec fn dir_units(files: Seq<SourceFile>) -> Seq<UnitView>
    decreases files.len(),
{
    if files.len() == 0 {
        Seq::empty()
    } else {
        dir_units(files.drop_last()) + source_units(files.last().text@, module_of(files.last()))
    }
}

/// The unit under a scope: its id is headed by the scope.
pub open spec fn scoped(u: UnitView, scope: Option<Text>) -> UnitView {
    match scope {
        Some(s) => UnitView { id: s + "::"@ + u.id, ..u },
        None => u,
    }
}

/// The units under a scope.
pub open spec fn all_scoped(units: Seq<UnitView>, scope: Option<Text>) -> Seq<UnitView> {
    units.map_values(|u: UnitView| scoped(u, scope))
}

/// Puts units under a scope.
pub fn in_scope(units: Vec<CodeUnit>, scope: Option<&str>) -> (r: Vec<CodeUnit>)
    ensures
        unit_views(r@) == all_scoped(unit_views(units@), opt_view(scope)),
{
    match scope {
        Some(s) => {
            let ghost all = all_scoped(unit_views(units@), Some(s@));
            let mut out: Vec<CodeUnit> = Vec::new();
            let mut i: usize = 0;
            assert(unit_views(out@) == all.take(0));
            while i < units.len()
                invariant
                    i <= units@.len() == all.len(),
                    all == all_scoped(unit_views(units@), Some(s@)),
                    unit_views(out@) == all.take(i as int),
                decreases units@.len() - i,
            {
                let ghost before = out@;
                let mut u = copy_unit(&units[i]);
                let mut id = s.to_owned();
                id.append("::");
                id.append(u.id.as_str());
                u.id = id;
                out.push(u);
                assert(unit_views(units@)[i as int] == units@[i as int]@);
                assert(u@ == all[i as int]);
                assert(unit_views(out@) == unit_views(before).push(u@));
                assert(all.take(i + 1) == all.take(i as int).push(all[i as int]));
                i = i + 1;
            }
            assert(all.take(i as int) == all);
            out
        },
        None => {
            assert(all_scoped(unit_views(units@), None) == unit_views(units@));
            units
        },
    }
}

/// The units of the files of a directory, under a scope where there is one.
pub fn compress_dir(files: &Vec<SourceFile>, scope: Option<&str>) -> (r: Vec<CodeUnit>)
    ensures
        unit_views(r@) == all_scoped(dir_units(files@), opt_view(scope)),
{
    let mut units: Vec<CodeUnit> = Vec::new();
    let mut i: usize = 0;
    assert(unit_views(units@) == dir_units(files@.take(0)));
    while i < files.len()
        invariant
            i <= files@.len(),
            unit_views(units@) == dir_units(files@.take(i as int)),
        decreases files@.len() - i,
    {
        let ghost before = units@;
        assert(files@.take(i + 1).drop_last() == files@.take(i as int));
        assert(files@.take(i + 1).last() == files@[i as int]);
        let module = derive_module(&files[i].parts);
        let mut found = compress_source(files[i].text.as_str(), module.as_str());
        let ghost added = unit_views(found@);
        units.append(&mut found);
        assert(unit_views(units@) == unit_views(before) + added);
        i = i + 1;
    }
    assert(files@.take(i as int) == files@);
    in_scope(units, scope)
}

/// The units to be indexed: those of the source, under a scope where there is one, and those of an
/// API graph where there is one, which take precedence.
pub open spec fn index_of(
    files: Seq<SourceFile>,
    scope: Option<Text>,
    graph: Option<Seq<ApiGraphItem>>,
) -> Seq<UnitView> {
    let source = all_scoped(dir_units(files), scope);
    match graph {
        Some(items) => not_covered(source, graph_units(items)) + graph_units(items),
        None => source,
    }
}

/// The units to be indexed.
pub fn run_index(files: &Vec<SourceFile>, scope: Option<&str>, graph: Option<&Vec<ApiGraphItem>>)
    -> (r: Vec<CodeUnit>)
    ensures
        unit_views(r@) == index_of(
            files@,
            opt_view(scope),
            match graph {
                Some(items) => Some(items@),
                None => None,
            },
        ),
{
    let units = compress_dir(files, scope);
    match graph {
        Some(items) => merge_units(&units, compress_api_graph(items)),
        None => units,
    }
}

/// Whatever the scope, an item of the API graph is indexed as the graph tells it: no unit of the
/// source with its module and its name is left beside it.
pub proof fn law_graph_item_is_indexed_once(
    files: Seq<SourceFile>,
    scope: Option<Text>,
    items: Seq<ApiGraphItem>,
    k: int,
    u: UnitView,
)
    requires
        0 <= k < items.len(),
        index_of(files, scope, Some(items)).contains(u),
        same_item(api_unit(items[k]), u),
    ensures
        graph_units(items).contains(u),
        index_of(files, scope, Some(items)).contains(api_unit(items[k])),
{
    let source = all_scoped(dir_units(files), scope);
    let graph = graph_units(items);
    let left = not_covered(source, graph);
    let all = left + graph;
    let i = choose|i: int| 0 <= i < all.len() && all[i] == u;
    assert(graph[k] == api_unit(items[k]));
    law_merged_item_is_of_the_graph(source, graph, i, k);
    assert(graph[i - left.len()] == u);
    assert(all[left.len() + k] == graph[k]);
}

/// Units of one directory that differ in their ids differ in them under a scope too.
pub proof fn law_scope_keeps_ids_apart(a: UnitView, b: UnitView, scope: Text)
    requires
        scoped(a, Some(scope)).id == scoped(b, Some(scope)).id,
    ensures
        a.id == b.id,
{
    let head = scope + "::"@;
    assert(a.id == (head + a.id).skip(head.len() as int));
    assert(b.id == (head + b.id).skip(head.len() as int));
}

/// The dense form of an enum tells variant by variant, each on a line of its own, every field of
/// it: the named ones as name and type, the others as type, all in braces and set apart by commas.
pub proof fn law_enum_tells_every_field(
    name: Text,
    attrs: Seq<AttrView>,
    variants: Seq<VariantView>,
    v: VariantView,
)
    requires
        v.fields.style == FieldStyle::Named ==> forall|k: int|
            0 <= k < v.fields.list.len() ==> (#[trigger] v.fields.list[k]).name is Some,
    ensures
        ({
            let list = v.fields.list;
            let named = Seq::new(
                list.len(),
                |k: int| list[k].name->0 + ": "@ + type_text(list[k].ty),
            );
            let types = Seq::new(list.len(), |k: int| type_text(list[k].ty));
            let fields = if v.fields.style == FieldStyle::Unit || list.len() == 0 {
                Seq::empty()
            } else if v.fields.style == FieldStyle::Named {
                " { "@ + join_of(named, ", "@) + " }"@
            } else {
                " { "@ + join_of(types, ", "@) + " }"@
            };
            let doc = if doc_of(v.attrs).len() == 0 {
                Seq::empty()
            } else {
                " // "@ + first_line_of(doc_of(v.attrs))
            };
            dense_enum(name, attrs, variants.push(v)) == dense_enum(name, attrs, variants) + ("  "@
                + name + "::"@ + v.name + fields + doc + "\n"@)
        }),
        dense_enum(name, attrs, Seq::empty()) == "[enum: "@ + name + "]\n"@ + doc_comment(
            doc_of(attrs),
        ) + "variants:\n"@,
{
    let list = v.fields.list;
    let named = Seq::new(list.len(), |k: int| list[k].name->0 + ": "@ + type_text(list[k].ty));
    let types = Seq::new(list.len(), |k: int| type_text(list[k].ty));
    if v.fields.style == FieldStyle::Named {
        assert(variant_fields(v.fields) =~= named) by {
            assert forall|k: int| 0 <= k < list.len() implies variant_fields(v.fields)[k]
                == named[k] by {
                assert(list[k].name is Some);
            }
        }
    } else if v.fields.style == FieldStyle::Unnamed {
        assert(variant_fields(v.fields) =~= types);
    }
    let head = "[enum: "@ + name + "]\n"@ + doc_comment(doc_of(attrs)) + "variants:\n"@;
    let line = variant_line(name);
    law_writing_goes_item_by_item(variants, line, v);
    assert(head + (written_out(variants, line) + line(v)) == head + written_out(variants, line)
        + line(v));
    assert(head + Seq::<char>::empty() == head);
}

/// Each named field of a variant stands in the dense form of its enum, as name and type, and so does
/// the type of each field without a name.
pub proof fn law_enum_holds_every_field(
    name: Text,
    attrs: Seq<AttrView>,
    variants: Seq<VariantView>,
    i: int,
    k: int,
)
    requires
        0 <= i < variants.len(),
        0 <= k < variants[i].fields.list.len(),
    ensures
        variants[i].fields.style == FieldStyle::Named && variants[i].fields.list[k].name is Some
            ==> contains_text(
            dense_enum(name, attrs, variants),
            variants[i].fields.list[k].name->0 + ": "@ + type_text(variants[i].fields.list[k].ty),
        ),
        variants[i].fields.style == FieldStyle::Unnamed ==> contains_text(
            dense_enum(name, attrs, variants),
            type_text(variants[i].fields.list[k].ty),
        ),
{
    let v = variants[i];
    if v.fields.style != FieldStyle::Unit {
        let shown = variant_fields(v.fields);
        let part = shown[k];
        lemma_join_holds(shown, ", "@, k);
        lemma_contains_middle(" { "@, join_of(shown, ", "@), " }"@);
        lemma_contains_through(braced(shown), join_of(shown, ", "@), part);
        let front = "  "@ + name + "::"@ + v.name;
        let tail = doc_suffix(doc_of(v.attrs)) + "\n"@;
        let line = variant_line(name)(v);
        assert(line == front + braced(shown) + tail);
        lemma_contains_middle(front, braced(shown), tail);
        lemma_contains_through(line, braced(shown), part);
        lemma_written_out_holds(variants, variant_line(name), i);
        lemma_contains_through(written_out(variants, variant_line(name)), line, part);
        let head = "[enum: "@ + name + "]\n"@ + doc_comment(doc_of(attrs)) + "variants:\n"@;
        lemma_contains_half(head, written_out(variants, variant_line(name)), part);
    }
}

/// The fields shown of a struct are its public ones.
proof fn lemma_public_fields(list: Seq<FieldView>)
    ensures
        public_fields(list) == kept(list, |f: FieldView| f.public).map_values(
            |f: FieldView| named_field(f),
        ),
    decreases list.len(),
{
    let public = |f: FieldView| f.public;
    let told = |f: FieldView| named_field(f);
    if list.len() > 0 {
        let start = list.drop_last();
        lemma_public_fields(start);
        if list.last().public {
            assert(kept(list, public).map_values(told) =~= kept(start, public).map_values(
                told,
            ).push(named_field(list.last())));
        }
    } else {
        assert(kept(list, public).map_values(told) =~= Seq::<Text>::empty());
    }
}

/// The dense form of a struct tells its name, its doc and every public field that has a name, as
/// name and type, in order and set apart by commas; and no private one.
pub proof fn law_struct_tells_its_public_fields(
    name: Text,
    attrs: Seq<AttrView>,
    fields: FieldsView,
)
    requires
        forall|k: int|
            0 <= k < fields.list.len() && fields.style == FieldStyle::Named ==> (
            #[trigger] fields.list[k]).name is Some,
    ensures
        ({
            let open = kept(fields.list, |f: FieldView| f.public);
            let shown = Seq::new(
                open.len(),
                |k: int| open[k].name->0 + ": "@ + type_text(open[k].ty),
            );
            dense_struct(name, attrs, fields) == "[struct: "@ + name + "]\n"@ + doc_comment(
                doc_of(attrs),
            ) + if fields.style == FieldStyle::Named && open.len() > 0 {
                "fields: "@ + join_of(shown, ", "@) + "\n"@
            } else {
                Seq::empty()
            }
        }),
{
    let public = |f: FieldView| f.public;
    let open = kept(fields.list, public);
    let shown = Seq::new(open.len(), |k: int| open[k].name->0 + ": "@ + type_text(open[k].ty));
    if fields.style == FieldStyle::Named {
        lemma_public_fields(fields.list);
        assert(public_fields(fields.list) =~= shown) by {
            assert forall|k: int| 0 <= k < open.len() implies public_fields(fields.list)[k]
                == shown[k] by {
                lemma_kept_holds(fields.list, public, k);
                let j = choose|j: int| 0 <= j < fields.list.len() && fields.list[j] == open[k];
                assert(fields.list[j].name is Some);
            }
        }
    }
}

/// The dense form of a function tells its name, its doc and its signature.
pub proof fn law_function_tells_its_signature(name: Text, attrs: Seq<AttrView>, signature: Text)
    ensures
        dense_function(name, attrs, signature) == "[fn: "@ + name + "]\n"@ + doc_comment(
            doc_of(attrs),
        ) + ("sig: "@ + signature + "\n"@),
{
    let head = "[fn: "@ + name + "]\n"@ + doc_comment(doc_of(attrs));
    assert(head + "sig: "@ + signature + "\n"@ == head + ("sig: "@ + signature + "\n"@));
}

/// The doc of an item is made of its doc attributes, each trimmed, one line each, and of no other
/// attribute.
pub proof fn law_doc_is_made_of_doc_attributes(attrs: Seq<AttrView>, a: AttrView)
    ensures
        doc_of(Seq::empty()).len() == 0,
        a.name != Some("doc"@) || a.value is None ==> doc_of(attrs.push(a)) == doc_of(attrs),
        a.name == Some("doc"@) && a.value is Some && doc_values(attrs).len() > 0 ==> doc_of(
            attrs.push(a),
        ) == doc_of(attrs) + "\n"@ + trim_of(a.value->0),
        a.name == Some("doc"@) && a.value is Some && doc_values(attrs).len() == 0 ==> doc_of(
            attrs.push(a),
        ) == trim_of(a.value->0),
{
    assert(attrs.push(a).drop_last() == attrs);
    law_join_goes_part_by_part(doc_values(attrs), "\n"@, trim_of(a.value->0));
    if doc_values(attrs).len() == 0 && a.value is Some {
        assert(doc_values(attrs).push(trim_of(a.value->0)) =~= seq![trim_of(a.value->0)]);
    }
}

/// The doc of an item stands below its head as a comment, its first line only; a blank one is left
/// out.
pub proof fn law_doc_is_shown_by_its_first_line(line: Text, rest: Text)
    requires
        line.len() > 0,
        forall|i: int| 0 <= i < line.len() ==> #[trigger] line[i] != '\n',
        !is_space(line[0]),
        !is_space(line.last()),
    ensures
        doc_comment(line) == "// "@ + line + "\n"@,
        doc_comment(line.push('\n') + rest) == "// "@ + line + "\n"@,
        doc_suffix(line.push('\n') + rest) == " // "@ + line,
        doc_comment(Seq::empty()).len() == 0,
        doc_suffix(Seq::empty()).len() == 0,
{
    assert(line.last() != '\r') by {
        assert(is_space('\r'));
    }
    law_lines_are_read_one_by_one(line, rest);
    law_trimming_leaves_the_middle(Seq::empty(), line, Seq::empty());
    assert(Seq::<char>::empty() + line + Seq::<char>::empty() == line);
    let all = line.push('\n') + rest;
    assert(lines_of(all)[0] == line);
    assert(lines_of(Seq::<char>::empty()).len() == 0);
}

/// Replacing a part by one that has the same characters but for spaces loses no other character.
proof fn lemma_replace_keeps_solid(s: Text, from: Text, to: Text)
    requires
        from.len() > 0,
        kept(from, |c: char| c != ' ') == kept(to, |c: char| c != ' '),
    ensures
        kept(replace_of(s, from, to), |c: char| c != ' ') == kept(s, |c: char| c != ' '),
    decreases s.len(),
{
    let solid = |c: char| c != ' ';
    lemma_find_from(s, from, 0);
    match find_from(s, from, 0) {
        Some(at) => {
            let rest = s.skip(at + from.len());
            lemma_replace_keeps_solid(rest, from, to);
            lemma_kept_concat(s.take(at) + to, replace_of(rest, from, to), solid);
            lemma_kept_concat(s.take(at), to, solid);
            assert(s =~= s.take(at) + from + rest) by {
                assert(s.subrange(at, at + from.len()) == from);
                assert forall|i: int| 0 <= i < s.len() implies s[i] == (s.take(at) + from
                    + rest)[i] by {
                    if at <= i < at + from.len() {
                        assert(s.subrange(at, at + from.len())[i - at] == s[i]);
                    }
                }
            }
            lemma_kept_concat(s.take(at) + from, rest, solid);
            lemma_kept_concat(s.take(at), from, solid);
        },
        None => {},
    }
}

/// What is kept of two lists one after another.
proof fn lemma_kept_concat<T>(a: Seq<T>, b: Seq<T>, keep: spec_fn(T) -> bool)
    ensures
        kept(a + b, keep) == kept(a, keep) + kept(b, keep),
    decreases b.len(),
{
    if b.len() > 0 {
        lemma_kept_concat(a, b.drop_last(), keep);
        assert((a + b).drop_last() == a + b.drop_last());
        assert((a + b).last() == b.last());
        if keep(b.last()) {
            assert(kept(a, keep) + kept(b.drop_last(), keep).push(b.last()) =~= (kept(a, keep)
                + kept(b.drop_last(), keep)).push(b.last()));
        }
    } else {
        assert(a + b =~= a);
        assert(kept(a, keep) + kept(b, keep) =~= kept(a, keep));
    }
}

/// A type is told with every character of its tokens but for spaces, and as it stands where its
/// tokens hold none of the spaces that are left out.
pub proof fn law_type_loses_only_spaces(tokens: Text)
    ensures
        kept(type_text(tokens), |c: char| c != ' ') == kept(tokens, |c: char| c != ' '),
        !contains_text(tokens, " :: "@) && !contains_text(tokens, "< "@) && !contains_text(
            tokens,
            " >"@,
        ) ==> type_text(tokens) == tokens,
{
    reveal_strlit(" :: ");
    reveal_strlit("::");
    reveal_strlit("< ");
    reveal_strlit("<");
    reveal_strlit(" >");
    reveal_strlit(">");
    let solid = |c: char| c != ' ';
    reveal_with_fuel(kept, 6);
    assert(" :: "@.drop_last().drop_last().drop_last().drop_last().len() == 0);
    assert(kept(" :: "@, solid) =~= kept("::"@, solid));
    assert(kept("< "@, solid) =~= kept("<"@, solid));
    assert(kept(" >"@, solid) =~= kept(">"@, solid));
    let a = replace_of(tokens, " :: "@, "::"@);
    let b = replace_of(a, "< "@, "<"@);
    lemma_replace_keeps_solid(tokens, " :: "@, "::"@);
    lemma_replace_keeps_solid(a, "< "@, "<"@);
    lemma_replace_keeps_solid(b, " >"@, ">"@);
    law_replacing_goes_from_the_left(tokens, " :: "@, "::"@, 0);
    law_replacing_goes_from_the_left(a, "< "@, "<"@, 0);
    law_replacing_goes_from_the_left(b, " >"@, ">"@, 0);
}

/// A unit as it is after methods were added to it: the same but for a longer dense form.
pub open spec fn grown_unit(u: UnitView, v: UnitView) -> bool {
    &&& v.id == u.id
    &&& v.kind == u.kind
    &&& v.name == u.name
    &&& v.module == u.module
    &&& v.summary == u.summary
    &&& u.compressed.is_prefix_of(v.compressed)
}

/// The units of a list come first in a longer one, the same but for longer dense forms.
pub open spec fn grown(a: Seq<UnitView>, b: Seq<UnitView>) -> bool {
    &&& a.len() <= b.len()
    &&& forall|k: int| 0 <= k < a.len() ==> grown_unit(a[k], #[trigger] b[k])
}

/// Growing twice is growing.
proof fn lemma_grown_through(a: Seq<UnitView>, b: Seq<UnitView>, c: Seq<UnitView>)
    requires
        grown(a, b),
        grown(b, c),
    ensures
        grown(a, c),
{
    assert forall|k: int| 0 <= k < a.len() implies grown_unit(a[k], #[trigger] c[k]) by {
        assert(grown_unit(a[k], b[k]));
        assert(grown_unit(b[k], c[k]));
        let (x, y, z) = (a[k].compressed, b[k].compressed, c[k].compressed);
        assert(z.take(x.len() as int) =~= y.take(x.len() as int)) by {
            assert forall|i: int| 0 <= i < x.len() implies z[i] == y[i] by {
                assert(z.take(y.len() as int)[i] == y[i]);
            }
        }
    }
}

/// Adding methods lets units grow.
proof fn lemma_flushed_grows(units: Seq<UnitView>, pending: Seq<(Text, Seq<Text>)>)
    ensures
        grown(units, flushed(units, pending)),
    decreases pending.len(),
{
    if pending.len() > 0 {
        let before = flushed(units, pending.drop_last());
        lemma_flushed_grows(units, pending.drop_last());
        let (name, methods) = pending.last();
        let after = with_methods(before, name, methods);
        assert forall|k: int| 0 <= k < before.len() implies grown_unit(
            before[k],
            #[trigger] after[k],
        ) by {
            law_methods_only_extend(before, name, methods, k);
        }
        lemma_grown_through(units, before, after);
    }
}

/// Visiting an item leaves the units gathered before it in place.
proof fn lemma_visited_grows(item: ItemView, module: Text, s: Shelf)
    ensures
        grown(s.units, visited(item, module, s).units),
    decreases item,
{
    match item {
        ItemView::Struct { public, name, attrs, fields, inner } => {
            if public {
                let u = source_unit("struct"@, name, module, dense_struct(name, attrs, fields));
                lemma_visited_all_grows(inner, module, with_unit(s, u));
                lemma_grown_through(
                    s.units,
                    with_unit(s, u).units,
                    visited(item, module, s).units,
                );
            }
        },
        ItemView::Enum { public, name, attrs, variants, inner } => {
            if public {
                let u = source_unit("enum"@, name, module, dense_enum(name, attrs, variants));
                lemma_visited_all_grows(inner, module, with_unit(s, u));
                lemma_grown_through(
                    s.units,
                    with_unit(s, u).units,
                    visited(item, module, s).units,
                );
            }
        },
        ItemView::Module { name, items } => {
            let t = visited_all(items, in_module(module, name), s);
            lemma_visited_all_grows(items, in_module(module, name), s);
            lemma_flushed_grows(t.units, t.pending);
            lemma_grown_through(s.units, t.units, settled(t).units);
        },
        ItemView::Other { inner } => {
            lemma_visited_all_grows(inner, module, s);
        },
        _ => {},
    }
}

/// Visiting items leaves the units gathered before them in place.
proof fn lemma_visited_all_grows(items: Seq<ItemView>, module: Text, s: Shelf)
    ensures
        grown(s.units, visited_all(items, module, s).units),
    decreases items,
{
    if items.len() > 0 {
        let start = items.subrange(0, items.len() - 1);
        let t = visited_all(start, module, s);
        lemma_visited_all_grows(start, module, s);
        lemma_visited_grows(items[items.len() - 1], module, t);
        lemma_grown_through(s.units, t.units, visited_all(items, module, s).units);
    }
}

/// What visiting one of several items gathers is there once all were visited.
proof fn lemma_item_is_gathered(items: Seq<ItemView>, module: Text, s: Shelf, i: int) -> (t: Shelf)
    requires
        0 <= i < items.len(),
    ensures
        grown(visited(items[i], module, t).units, visited_all(items, module, s).units),
    decreases items.len(),
{
    let start = items.subrange(0, items.len() - 1);
    let before = visited_all(start, module, s);
    if i == items.len() - 1 {
        before
    } else {
        let t = lemma_item_is_gathered(start, module, s, i);
        assert(start[i] == items[i]);
        lemma_visited_grows(items[items.len() - 1], module, before);
        lemma_grown_through(
            visited(items[i], module, t).units,
            before.units,
            visited_all(items, module, s).units,
        );
        t
    }
}

/// Some unit has this kind, name and place, and a dense form that begins like this.
pub open spec fn is_indexed(
    units: Seq<UnitView>,
    kind: Text,
    name: Text,
    module: Text,
    dense: Text,
) -> bool {
    exists|k: int|
        0 <= k < units.len() && (#[trigger] units[k]).kind == kind && units[k].name == name
            && units[k].module == module && units[k].id == (if module.len() == 0 {
            name
        } else {
            module + "::"@ + name
        }) && dense.is_prefix_of(units[k].compressed)
}

/// Visiting a public item makes a unit of it.
proof fn lemma_public_item_is_indexed(item: ItemView, module: Text, s: Shelf)
    ensures
        match item {
            ItemView::Struct { public, name, attrs, fields, .. } => public ==> is_indexed(
                visited(item, module, s).units,
                "struct"@,
                name,
                module,
                dense_struct(name, attrs, fields),
            ),
            ItemView::Enum { public, name, attrs, variants, .. } => public ==> is_indexed(
                visited(item, module, s).units,
                "enum"@,
                name,
                module,
                dense_enum(name, attrs, variants),
            ),
            ItemView::Function { public, name, attrs, signature } => public ==> is_indexed(
                visited(item, module, s).units,
                "fn"@,
                name,
                module,
                dense_function(name, attrs, signature),
            ),
            _ => true,
        },
{
    let n = s.units.len() as int;
    let all = visited(item, module, s).units;
    match item {
        ItemView::Struct { public, name, attrs, fields, inner } => {
            if public {
                let u = source_unit("struct"@, name, module, dense_struct(name, attrs, fields));
                lemma_visited_all_grows(inner, module, with_unit(s, u));
                assert(with_unit(s, u).units[n] == u);
                assert(grown_unit(u, all[n]));
            }
        },
        ItemView::Enum { public, name, attrs, variants, inner } => {
            if public {
                let u = source_unit("enum"@, name, module, dense_enum(name, attrs, variants));
                lemma_visited_all_grows(inner, module, with_unit(s, u));
                assert(with_unit(s, u).units[n] == u);
                assert(grown_unit(u, all[n]));
            }
        },
        ItemView::Function { public, name, attrs, signature } => {
            if public {
                assert(all[n].name == name);
                assert(all[n].compressed.take(all[n].compressed.len() as int)
                    =~= all[n].compressed);
            }
        },
        _ => {},
    }
}

/// What is indexed stays so as units grow.
proof fn lemma_indexed_grows(
    a: Seq<UnitView>,
    b: Seq<UnitView>,
    kind: Text,
    name: Text,
    module: Text,
    dense: Text,
)
    requires
        grown(a, b),
        is_indexed(a, kind, name, module, dense),
    ensures
        is_indexed(b, kind, name, module, dense),
{
    let k = choose|k: int|
        0 <= k < a.len() && (#[trigger] a[k]).kind == kind && a[k].name == name && a[k].module
            == module && a[k].id == (if module.len() == 0 {
            name
        } else {
            module + "::"@ + name
        }) && dense.is_prefix_of(a[k].compressed);
    assert(grown_unit(a[k], b[k]));
    let (x, y, z) = (dense, a[k].compressed, b[k].compressed);
    assert(z.take(x.len() as int) =~= y.take(x.len() as int)) by {
        assert forall|i: int| 0 <= i < x.len() implies z[i] == y[i] by {
            assert(z.take(y.len() as int)[i] == y[i]);
        }
    }
}

/// Every public struct of a module is indexed, under its name and its path, with a dense form that
/// begins with its head, its doc and its public fields.
pub proof fn law_public_struct_is_indexed(
    items: Seq<ItemView>,
    module: Text,
    i: int,
    name: Text,
    attrs: Seq<AttrView>,
    fields: FieldsView,
    inner: Seq<ItemView>,
)
    requires
        0 <= i < items.len(),
        items[i] == (ItemView::Struct { public: true, name, attrs, fields, inner }),
    ensures
        is_indexed(
            item_units(items, module),
            "struct"@,
            name,
            module,
            dense_struct(name, attrs, fields),
        ),
{
    let s = Shelf { units: Seq::empty(), pending: Seq::empty() };
    let all = visited_all(items, module, s);
    let t = lemma_item_is_gathered(items, module, s, i);
    lemma_public_item_is_indexed(items[i], module, t);
    lemma_flushed_grows(all.units, all.pending);
    let dense = dense_struct(name, attrs, fields);
    let one = visited(items[i], module, t).units;
    lemma_indexed_grows(one, all.units, "struct"@, name, module, dense);
    lemma_indexed_grows(all.units, settled(all).units, "struct"@, name, module, dense);
}

/// Every public enum of a module is indexed, under its name and its path, with a dense form that
/// begins with its head, its doc and all its variants.
pub proof fn law_public_enum_is_indexed(
    items: Seq<ItemView>,
    module: Text,
    i: int,
    name: Text,
    attrs: Seq<AttrView>,
    variants: Seq<VariantView>,
    inner: Seq<ItemView>,
)
    requires
        0 <= i < items.len(),
        items[i] == (ItemView::Enum { public: true, name, attrs, variants, inner }),
    ensures
        is_indexed(
            item_units(items, module),
            "enum"@,
            name,
            module,
            dense_enum(name, attrs, variants),
        ),
{
    let s = Shelf { units: Seq::empty(), pending: Seq::empty() };
    let all = visited_all(items, module, s);
    let t = lemma_item_is_gathered(items, module, s, i);
    lemma_public_item_is_indexed(items[i], module, t);
    lemma_flushed_grows(all.units, all.pending);
    let dense = dense_enum(name, attrs, variants);
    let one = visited(items[i], module, t).units;
    lemma_indexed_grows(one, all.units, "enum"@, name, module, dense);
    lemma_indexed_grows(all.units, settled(all).units, "enum"@, name, module, dense);
}

/// Every public function of a module is indexed, under its name and its path, with its signature.
pub proof fn law_public_function_is_indexed(
    items: Seq<ItemView>,
    module: Text,
    i: int,
    name: Text,
    attrs: Seq<AttrView>,
    signature: Text,
)
    requires
        0 <= i < items.len(),
        items[i] == (ItemView::Function { public: true, name, attrs, signature }),
    ensures
        is_indexed(
            item_units(items, module),
            "fn"@,
            name,
            module,
            dense_function(name, attrs, signature),
        ),
{
    let s = Shelf { units: Seq::empty(), pending: Seq::empty() };
    let all = visited_all(items, module, s);
    let t = lemma_item_is_gathered(items, module, s, i);
    lemma_public_item_is_indexed(items[i], module, t);
    lemma_flushed_grows(all.units, all.pending);
    let dense = dense_function(name, attrs, signature);
    let one = visited(items[i], module, t).units;
    lemma_indexed_grows(one, all.units, "fn"@, name, module, dense);
    lemma_indexed_grows(all.units, settled(all).units, "fn"@, name, module, dense);
}

/// What is indexed of an inline module is indexed of the file around it, under the path of the
/// module: every public enum of it, to take one kind of item, with all its variants.
pub proof fn law_inline_module_is_indexed(
    items: Seq<ItemView>,
    module: Text,
    i: int,
    sub: Text,
    below: Seq<ItemView>,
    j: int,
    name: Text,
    attrs: Seq<AttrView>,
    variants: Seq<VariantView>,
    inner: Seq<ItemView>,
)
    requires
        0 <= i < items.len(),
        items[i] == (ItemView::Module { name: sub, items: below }),
        0 <= j < below.len(),
        below[j] == (ItemView::Enum { public: true, name, attrs, variants, inner }),
    ensures
        is_indexed(
            item_units(items, module),
            "enum"@,
            name,
            if module.len() == 0 {
                sub
            } else {
                module + "::"@ + sub
            },
            dense_enum(name, attrs, variants),
        ),
{
    let s = Shelf { units: Seq::empty(), pending: Seq::empty() };
    let all = visited_all(items, module, s);
    let path = in_module(module, sub);
    let dense = dense_enum(name, attrs, variants);
    let t = lemma_item_is_gathered(items, module, s, i);
    let inside = visited_all(below, path, t);
    let u = lemma_item_is_gathered(below, path, t, j);
    lemma_public_item_is_indexed(below[j], path, u);
    lemma_indexed_grows(visited(below[j], path, u).units, inside.units, "enum"@, name, path, dense);
    lemma_flushed_grows(inside.units, inside.pending);
    lemma_indexed_grows(inside.units, settled(inside).units, "enum"@, name, path, dense);
    lemma_indexed_grows(settled(inside).units, all.units, "enum"@, name, path, dense);
    lemma_flushed_grows(all.units, all.pending);
    lemma_indexed_grows(all.units, settled(all).units, "enum"@, name, path, dense);
}

/// The public methods of an impl block are told by name, in order, and no private one.
pub proof fn law_public_methods_are_told(members: Seq<MemberView>, name: Text)
    ensures
        public_methods(members.push(MemberView::Method { public: true, name })) == public_methods(
            members,
        ).push(name),
        public_methods(members.push(MemberView::Method { public: false, name }))
            == public_methods(members),
        public_methods(members.push(MemberView::Other)) == public_methods(members),
        public_methods(Seq::empty()).len() == 0,
{
    assert(members.push(MemberView::Method { public: true, name }).drop_last() == members);
    assert(members.push(MemberView::Method { public: false, name }).drop_last() == members);
    assert(members.push(MemberView::Other).drop_last() == members);
}

/// The methods of an impl block are added behind the dense form of the first unit of its type, and
/// no other unit changes.
pub proof fn law_methods_go_to_their_type(
    units: Seq<UnitView>,
    name: Text,
    methods: Seq<Text>,
    at: int,
    k: int,
)
    requires
        0 <= at < units.len(),
        units[at].name == name,
        forall|j: int| 0 <= j < at ==> (#[trigger] units[j]).name != name,
        0 <= k < units.len(),
    ensures
        with_methods(units, name, methods)[at].compressed == units[at].compressed + if methods.len()
            == 0 {
            Seq::empty()
        } else {
            "methods: "@ + join_of(methods, " | "@) + "\n"@
        },
        k != at ==> with_methods(units, name, methods)[k] == units[k],
{
    lemma_unit_at(units, name, 0, at);
    assert(units[at].compressed + Seq::<char>::empty() == units[at].compressed);
}

/// The first unit of a name is found.
proof fn lemma_unit_at(units: Seq<UnitView>, name: Text, from: int, at: int)
    requires
        0 <= from <= at < units.len(),
        units[at].name == name,
        forall|j: int| from <= j < at ==> (#[trigger] units[j]).name != name,
    ensures
        unit_at(units, name, from) == at,
    decreases at - from,
{
    if from < at {
        assert(units[from].name != name);
        lemma_unit_at(units, name, from + 1, at);
    }
}

/// The impl blocks of a module are settled one after another: each adds its methods once.
pub proof fn law_impls_are_settled_in_order(
    units: Seq<UnitView>,
    pending: Seq<(Text, Seq<Text>)>,
    name: Text,
    methods: Seq<Text>,
)
    ensures
        flushed(units, Seq::empty()) == units,
        flushed(units, pending.push((name, methods))) == with_methods(
            flushed(units, pending),
            name,
            methods,
        ),
{
    assert(pending.push((name, methods)).drop_last() == pending);
}

/// A merge keeps every unit of the graph, in order and at the end, and of the source each unit whose
/// module or name is that of no unit of the graph.
pub proof fn law_merge_loses_nothing(source: Seq<UnitView>, graph: Seq<UnitView>, i: int, k: int)
    requires
        0 <= i < source.len(),
        0 <= k < graph.len(),
    ensures
        (not_covered(source, graph) + graph).contains(graph[k]),
        (forall|j: int|
            0 <= j < graph.len() ==> (#[trigger] graph[j]).module != source[i].module
                || graph[j].name != source[i].name) ==> (not_covered(source, graph)
            + graph).contains(source[i]),
        source[i].module == graph[k].module && source[i].name == graph[k].name ==> !not_covered(
            source,
            graph,
        ).contains(source[i]),
{
    let left = not_covered(source, graph);
    let all = left + graph;
    assert(all[left.len() + k] == graph[k]);
    law_graph_takes_precedence(source, graph, source[i]);
    if !has_item(graph, source[i]) {
        let j = choose|j: int| 0 <= j < left.len() && left[j] == source[i];
        assert(all[j] == source[i]);
    }
    if source[i].module == graph[k].module && source[i].name == graph[k].name {
        assert(same_item(graph[k], source[i]));
    }
}

/// The unit of an API item has its kind, name and module, and the path of the module and the name
/// for an id.
pub proof fn law_api_unit_is_told_apart(item: ApiGraphItem)
    ensures
        api_unit(item).kind == item.kind@,
        api_unit(item).name == item.name@,
        api_unit(item).module == join_of(views(item.module@), "::"@),
        api_unit(item).id == join_of(views(item.module@), "::"@) + "::"@ + item.name@,
        "["@ + item.kind@ + ": "@ + item.name@ == api_unit(item).compressed.take(
            ("["@ + item.kind@ + ": "@ + item.name@).len() as int,
        ),
        (item.kind@ + " `"@ + item.name@ + "`"@).is_prefix_of(api_unit(item).summary),
{
    let front = "["@ + item.kind@ + ": "@ + item.name@;
    assert(compressed_api(item).take(front.len() as int) =~= front);
    let head = item.kind@ + " `"@ + item.name@ + "`"@;
    assert(api_summary(item).take(head.len() as int) =~= head);
}

/// The dense form of an API item tells its signature, every field, every variant with every field of
/// it, every method and every trait.
pub proof fn law_api_item_tells_everything(item: ApiGraphItem, i: int, k: int)
    ensures
        item.signature@.len() > 0 ==> contains_text(
            compressed_api(item),
            "sig: "@ + trim_of(item.signature@) + "\n"@,
        ),
        0 <= i < item.fields@.len() ==> contains_text(
            compressed_api(item),
            item.fields@[i].name@ + ": "@ + item.fields@[i].ty@,
        ),
        0 <= i < item.variants@.len() ==> contains_text(
            compressed_api(item),
            "  "@ + item.name@ + "::"@ + item.variants@[i].name@,
        ),
        0 <= i < item.variants@.len() && 0 <= k < item.variants@[i].fields@.len()
            ==> contains_text(
            compressed_api(item),
            if "_"@.is_prefix_of(item.variants@[i].fields@[k].name@) {
                item.variants@[i].fields@[k].ty@
            } else {
                item.variants@[i].fields@[k].name@ + ": "@ + item.variants@[i].fields@[k].ty@
            },
        ),
        0 <= i < item.methods@.len() ==> contains_text(
            compressed_api(item),
            replace_of(
                replace_of(item.methods@[i].signature@, "pub fn "@, ""@),
                "fn "@,
                ""@,
            ),
        ),
        0 <= i < item.traits_impl@.len() ==> contains_text(
            compressed_api(item),
            item.traits_impl@[i]@,
        ),
{
    let hint = if item.module@.len() == 0 {
        Seq::empty()
    } else {
        " ("@ + join_of(views(item.module@), "::"@) + ")"@
    };
    let a = "["@ + item.kind@ + ": "@ + item.name@ + hint + "]\n"@ + doc_comment(item.doc@);
    let sig = entry_if(item.signature@.len() > 0, "sig: "@, trim_of(item.signature@));
    let shown = item.fields@.map_values(api_field());
    let fields = entry_if(item.fields@.len() > 0, "fields: "@, join_of(shown, ", "@));
    let variants = if item.variants@.len() == 0 {
        Seq::empty()
    } else {
        "variants:\n"@ + written_out(item.variants@, api_variant(item.name@))
    };
    let told = item.methods@.map_values(api_method());
    let methods = entry_if(item.methods@.len() > 0, "methods: "@, join_of(told, " | "@));
    let traits = entry_if(
        item.traits_impl@.len() > 0,
        "impl: "@,
        join_of(views(item.traits_impl@), ", "@),
    );
    assert(compressed_api(item) == a + sig + fields + variants + methods + traits);
    if item.signature@.len() > 0 {
        lemma_contains_itself(sig);
        lemma_api_parts(a, sig, fields, variants, methods, traits, sig);
    }
    if 0 <= i < item.fields@.len() {
        let f = item.fields@[i];
        let part = f.name@ + ": "@ + f.ty@;
        assert(shown[i] == part + doc_suffix(f.doc@));
        lemma_contains_itself(part);
        lemma_contains_half(part, doc_suffix(f.doc@), part);
        lemma_join_holds(shown, ", "@, i);
        lemma_contains_through(join_of(shown, ", "@), shown[i], part);
        lemma_contains_middle("fields: "@, join_of(shown, ", "@), "\n"@);
        lemma_contains_through(fields, join_of(shown, ", "@), part);
        lemma_api_parts(a, sig, fields, variants, methods, traits, part);
    }
    if 0 <= i < item.variants@.len() {
        let v = item.variants@[i];
        let line = api_variant(item.name@)(v);
        let front = "  "@ + item.name@ + "::"@ + v.name@;
        let inner = v.fields@.map_values(variant_field());
        let tail = doc_suffix(v.doc@) + "\n"@;
        assert(line == front + braced(inner) + tail);
        assert(line == front + (braced(inner) + tail));
        lemma_contains_itself(front);
        lemma_contains_half(front, braced(inner) + tail, front);
        lemma_written_out_holds(item.variants@, api_variant(item.name@), i);
        let written = written_out(item.variants@, api_variant(item.name@));
        lemma_contains_half("variants:\n"@, written, line);
        lemma_contains_through(variants, line, front);
        lemma_api_parts(a, sig, fields, variants, methods, traits, front);
        if 0 <= k < v.fields@.len() {
            let part = inner[k];
            lemma_join_holds(inner, ", "@, k);
            lemma_contains_middle(" { "@, join_of(inner, ", "@), " }"@);
            lemma_contains_through(braced(inner), join_of(inner, ", "@), part);
            lemma_contains_middle(front, braced(inner), tail);
            lemma_contains_through(line, braced(inner), part);
            lemma_contains_through(variants, line, part);
            lemma_api_parts(a, sig, fields, variants, methods, traits, part);
        }
    }
    if 0 <= i < item.methods@.len() {
        let m = item.methods@[i];
        let part = replace_of(replace_of(m.signature@, "pub fn "@, ""@), "fn "@, ""@);
        assert(told[i] == part + doc_suffix(m.doc@));
        lemma_contains_itself(part);
        lemma_contains_half(part, doc_suffix(m.doc@), part);
        lemma_join_holds(told, " | "@, i);
        lemma_contains_through(join_of(told, " | "@), told[i], part);
        lemma_contains_middle("methods: "@, join_of(told, " | "@), "\n"@);
        lemma_contains_through(methods, join_of(told, " | "@), part);
        lemma_api_parts(a, sig, fields, variants, methods, traits, part);
    }
    if 0 <= i < item.traits_impl@.len() {
        let names = views(item.traits_impl@);
        lemma_join_holds(names, ", "@, i);
        lemma_contains_middle("impl: "@, join_of(names, ", "@), "\n"@);
        lemma_contains_through(traits, join_of(names, ", "@), names[i]);
        lemma_api_parts(a, sig, fields, variants, methods, traits, names[i]);
    }
}

/// What a part of a dense form holds, the dense form holds.
proof fn lemma_api_parts(a: Text, b: Text, c: Text, d: Text, e: Text, f: Text, part: Text)
    ensures
        contains_text(b, part) || contains_text(c, part) || contains_text(d, part)
            || contains_text(e, part) || contains_text(f, part) ==> contains_text(
            a + b + c + d + e + f,
            part,
        ),
{
    lemma_contains_half(a, b, part);
    lemma_contains_half(a + b, c, part);
    lemma_contains_half(a + b + c, d, part);
    lemma_contains_half(a + b + c + d, e, part);
    lemma_contains_half(a + b + c + d + e, f, part);
}

/// The summary of an API item counts its variants and its fields.
pub proof fn law_summary_counts_variants_and_fields(item: ApiGraphItem)
    ensures
        item.variants@.len() > 0 ==> contains_text(
            api_summary(item),
            " ["@ + decimal_of(item.variants@.len()) + " variants]"@,
        ),
        item.fields@.len() > 0 ==> contains_text(
            api_summary(item),
            " ["@ + decimal_of(item.fields@.len()) + " fields]"@,
        ),
        first_line_of(item.doc@).len() > 0 ==> contains_text(
            api_summary(item),
            " — "@ + first_line_of(item.doc@),
        ),
{
    let head = item.kind@ + " `"@ + item.name@ + "`"@;
    let doc = first_line_of(item.doc@);
    let front = if doc.len() == 0 {
        head
    } else {
        head + " — "@ + doc
    };
    let variants = count_note(item.variants@.len(), " variants"@);
    let fields = count_note(item.fields@.len(), " fields"@);
    reveal_strlit(" variants]");
    reveal_strlit(" variants");
    reveal_strlit(" fields]");
    reveal_strlit(" fields");
    reveal_strlit("]");
    assert(" variants]"@ =~= " variants"@ + "]"@);
    assert(" fields]"@ =~= " fields"@ + "]"@);
    if item.variants@.len() > 0 {
        let part = " ["@ + decimal_of(item.variants@.len()) + " variants]"@;
        assert(variants =~= part);
        lemma_contains_middle(front, variants, fields);
    }
    if item.fields@.len() > 0 {
        let part = " ["@ + decimal_of(item.fields@.len()) + " fields]"@;
        assert(fields =~= part);
        lemma_contains_itself(fields);
        lemma_contains_half(front + variants, fields, fields);
    }
    if doc.len() > 0 {
        let part = " — "@ + doc;
        assert(front + variants + fields =~= head + part + (variants + fields));
        lemma_contains_middle(head, part, variants + fields);
    }
}

/// The module of a file is made of the parts of its path but for those that name root files.
pub proof fn law_root_files_name_no_module(parts: Seq<Text>, part: Text)
    ensures
        module_parts(Seq::empty()).len() == 0,
        part == "mod"@ || part == "lib"@ || part == "main"@ ==> module_parts(parts.push(part))
            == module_parts(parts),
        part != "mod"@ && part != "lib"@ && part != "main"@ ==> module_parts(parts.push(part))
            == module_parts(parts).push(part),
{
    assert(parts.push(part).drop_last() == parts);
}

/// The units of several files are those of each, one file after another, and a scope heads every id
/// and changes nothing else.
pub proof fn law_files_are_indexed_one_by_one(
    files: Seq<SourceFile>,
    file: SourceFile,
    scope: Text,
    u: UnitView,
)
    ensures
        dir_units(Seq::empty()).len() == 0,
        dir_units(files.push(file)) == dir_units(files) + source_units(
            file.text@,
            join_of(module_parts(views(file.parts@)), "::"@),
        ),
        scoped(u, Some(scope)).id == scope + "::"@ + u.id,
        scoped(u, Some(scope)) == (UnitView { id: scope + "::"@ + u.id, ..u }),
        scoped(u, None) == u,
{
    assert(files.push(file).drop_last() == files);
}

/// A word counts as a token just where it takes three bytes or more, written small, and is none of
/// the words that tell nothing; it is told written small.
pub proof fn law_tokens_are_words_that_tell_something(words: Seq<Text>, w: Text)
    ensures
        ({
            let t = lowercase_of(w);
            let stop = t == "the"@
                || t == "a"@
                || t == "an"@
                || t == "is"@
                || t == "it"@
                || t == "in"@
                || t == "of"@
                || t == "to"@
                || t == "and"@
                || t == "or"@
                || t == "for"@
                || t == "on"@
                || t == "at"@
                || t == "be"@
                || t == "as"@
                || t == "by"@
                || t == "fn"@
                || t == "pub"@
                || t == "let"@
                || t == "use"@
                || t == "mut"@
                || t == "self"@;
            &&& vstd::utf8::encode_utf8(t).len() >= 3 && !stop ==> tokens_in(words.push(w))
                == tokens_in(words).push(t)
            &&& vstd::utf8::encode_utf8(t).len() < 3 || stop ==> tokens_in(words.push(w))
                == tokens_in(words)
            &&& tokens_in(Seq::empty()).len() == 0
        }),
{
    assert(words.push(w).drop_last() == words);
}

} // verus!
