//! Rust source as plain data.
//!
//! The parser is `syn`; what it reads is moved over, part by part, into types of this library.

use crate::text::{opt_text, Text};
use vstd::prelude::*;

verus! {

/// An item as `syn` holds it.
#[verifier::external_type_specification]
#[verifier::external_body]
pub struct ExItem(syn::Item);

/// An attribute as `syn` holds it.
#[verifier::external_type_specification]
#[verifier::external_body]
pub struct ExAttribute(syn::Attribute);

/// A field as `syn` holds it.
#[verifier::external_type_specification]
#[verifier::external_body]
pub struct ExField(syn::Field);

/// Fields as `syn` holds them.
#[verifier::external_type_specification]
#[verifier::external_body]
pub struct ExFields(syn::Fields);

/// A type as `syn` holds it.
#[verifier::external_type_specification]
#[verifier::external_body]
pub struct ExType(syn::Type);

/// A variant as `syn` holds it.
#[verifier::external_type_specification]
#[verifier::external_body]
pub struct ExVariant(syn::Variant);

/// An item of an impl block as `syn` holds it.
#[verifier::external_type_specification]
#[verifier::external_body]
pub struct ExImplItem(syn::ImplItem);

/// A struct as `syn` holds it.
#[verifier::external_type_specification]
#[verifier::external_body]
pub struct ExItemStruct(syn::ItemStruct);

/// An enum as `syn` holds it.
#[verifier::external_type_specification]
#[verifier::external_body]
pub struct ExItemEnum(syn::ItemEnum);

/// A function as `syn` holds it.
#[verifier::external_type_specification]
#[verifier::external_body]
pub struct ExItemFn(syn::ItemFn);

/// An impl block as `syn` holds it.
#[verifier::external_type_specification]
#[verifier::external_body]
pub struct ExItemImpl(syn::ItemImpl);

/// A module as `syn` holds it.
#[verifier::external_type_specification]
#[verifier::external_body]
pub struct ExItemMod(syn::ItemMod);

/// The model of an attribute: its name, where that is one word, and the text that it is set to,
/// where it is set to one.
pub struct AttrView {
    pub name: Option<Text>,
    pub value: Option<Text>,
}

/// The model of a field: whether it is public, its name, and the tokens of its type.
pub struct FieldView {
    pub public: bool,
    pub name: Option<Text>,
    pub ty: Text,
}

/// How the fields of a struct or a variant are written.
#[derive(Debug, Clone, Copy, PartialEq, Eq, Structural)]
pub enum FieldStyle {
    Named,
    Unnamed,
    Unit,
}

/// The model of fields: how they are written, and each of them.
pub struct FieldsView {
    pub style: FieldStyle,
    pub list: Seq<FieldView>,
}

/// The model of a variant.
pub struct VariantView {
    pub name: Text,
    pub attrs: Seq<AttrView>,
    pub fields: FieldsView,
}

/// The model of an item of an impl block: a function, or something else.
pub enum MemberView {
    Method { public: bool, name: Text },
    Other,
}

/// The model of an item. `inner` are the items that are declared inside its expressions, such as
/// the value of a constant or the length of an array.
pub enum ItemView {
    Struct {
        public: bool,
        name: Text,
        attrs: Seq<AttrView>,
        fields: FieldsView,
        inner: Seq<ItemView>,
    },
    Enum {
        public: bool,
        name: Text,
        attrs: Seq<AttrView>,
        variants: Seq<VariantView>,
        inner: Seq<ItemView>,
    },
    Function { public: bool, name: Text, attrs: Seq<AttrView>, signature: Text },
    Impl { target: Option<Text>, members: Seq<MemberView> },
    Module { name: Text, items: Seq<ItemView> },
    ModuleFile { name: Text },
    Other { inner: Seq<ItemView> },
}

/// An attribute.
#[derive(Debug)]
pub struct SourceAttr {
    pub name: Option<String>,
    pub value: Option<String>,
}

/// A field.
#[derive(Debug)]
pub struct SourceField {
    pub public: bool,
    pub name: Option<String>,
    pub ty: String,
}

/// Fields.
#[derive(Debug)]
pub struct SourceFields {
    pub style: FieldStyle,
    pub list: Vec<SourceField>,
}

/// A variant.
#[derive(Debug)]
pub struct SourceVariant {
    pub name: String,
    pub attrs: Vec<SourceAttr>,
    pub fields: SourceFields,
}

/// An item of an impl block.
#[derive(Debug)]
pub enum SourceMember {
    Method { public: bool, name: String },
    Other,
}

/// An item. `inner` are the items that are declared inside its expressions.
#[derive(Debug)]
pub enum SourceItem {
    Struct {
        public: bool,
        name: String,
        attrs: Vec<SourceAttr>,
        fields: SourceFields,
        inner: Vec<SourceItem>,
    },
    Enum {
        public: bool,
        name: String,
        attrs: Vec<SourceAttr>,
        variants: Vec<SourceVariant>,
        inner: Vec<SourceItem>,
    },
    Function { public: bool, name: String, attrs: Vec<SourceAttr>, signature: String },
    Impl { target: Option<String>, members: Vec<SourceMember> },
    Module { name: String, items: Vec<SourceItem> },
    /// A module whose items stand in a file of their own.
    ModuleFile { name: String },
    Other { inner: Vec<SourceItem> },
}

/// A variant whose parts `syn` still holds.
struct RawVariant {
    name: String,
    attrs: Vec<syn::Attribute>,
    fields: syn::Fields,
}

/// A struct whose parts `syn` still holds.
struct RawStruct {
    public: bool,
    name: String,
    attrs: Vec<syn::Attribute>,
    fields: syn::Fields,
    inner: Vec<syn::Item>,
}

/// An enum whose parts `syn` still holds.
struct RawEnum {
    public: bool,
    name: String,
    attrs: Vec<syn::Attribute>,
    variants: Vec<syn::Variant>,
    inner: Vec<syn::Item>,
}

/// A function whose attributes `syn` still holds.
struct RawFunction {
    public: bool,
    name: String,
    attrs: Vec<syn::Attribute>,
    signature: String,
}

/// An impl block whose parts `syn` still holds.
struct RawImpl {
    target: syn::Type,
    members: Vec<syn::ImplItem>,
}

/// A module whose items `syn` still holds; none where they stand in a file of their own.
struct RawModule {
    name: String,
    items: Option<Vec<syn::Item>>,
}

/// An item by its kind.
enum RawItem {
    Struct(syn::ItemStruct),
    Enum(syn::ItemEnum),
    Function(syn::ItemFn),
    Impl(syn::ItemImpl),
    Module(syn::ItemMod),
    Other(Vec<syn::Item>),
}

/// Gathers the items directly below a node of a syntax tree, in their order.
struct Gatherer {
    items: Vec<syn::Item>,
}

impl<'ast> syn::visit::Visit<'ast> for Gatherer {
    fn visit_item(&mut self, i: &'ast syn::Item) {
        self.items.push(copy_item(i));
    }
}

/// `syn::Item::clone`: a copy holds what the item holds.
#[verifier::external_body]
fn copy_item(i: &syn::Item) -> (r: syn::Item)
    ensures
        item_content(r) == item_content(*i),
{
    i.clone()
}

/// The items of a source file that `syn::parse_file` reads; nothing where the text is no such file.
pub uninterp spec fn source_items_of(text: Seq<char>) -> Option<Seq<ItemView>>;

/// What a `syn::Item` holds.
pub uninterp spec fn item_content(i: syn::Item) -> ItemView;

/// What a `syn::ItemStruct` holds.
pub uninterp spec fn struct_content(s: syn::ItemStruct) -> ItemView;

/// What a `syn::ItemEnum` holds.
pub uninterp spec fn enum_content(e: syn::ItemEnum) -> ItemView;

/// What a `syn::ItemFn` holds.
pub uninterp spec fn fn_content(f: syn::ItemFn) -> ItemView;

/// What a `syn::ItemImpl` holds.
pub uninterp spec fn impl_content(m: syn::ItemImpl) -> ItemView;

/// What a `syn::ItemMod` holds.
pub uninterp spec fn mod_content(m: syn::ItemMod) -> ItemView;

/// What a `syn::Attribute` holds.
pub uninterp spec fn attr_content(a: syn::Attribute) -> AttrView;

/// What a `syn::Field` holds.
pub uninterp spec fn field_content(f: syn::Field) -> FieldView;

/// What a `syn::Fields` holds.
pub uninterp spec fn fields_content(f: syn::Fields) -> FieldsView;

/// The last name on the path of a `syn::Type`; nothing where the type is no path.
pub uninterp spec fn type_target(t: syn::Type) -> Option<Seq<char>>;

/// What a `syn::Variant` holds.
pub uninterp spec fn variant_content(v: syn::Variant) -> VariantView;

/// What a `syn::ImplItem` holds.
pub uninterp spec fn member_content(m: syn::ImplItem) -> MemberView;

/// What items hold.
pub open spec fn item_contents(list: Seq<syn::Item>) -> Seq<ItemView> {
    list.map_values(|i: syn::Item| item_content(i))
}

/// What attributes hold.
pub open spec fn attr_contents(list: Seq<syn::Attribute>) -> Seq<AttrView> {
    list.map_values(|a: syn::Attribute| attr_content(a))
}

/// What fields hold.
pub open spec fn field_contents(list: Seq<syn::Field>) -> Seq<FieldView> {
    list.map_values(|f: syn::Field| field_content(f))
}

/// What variants hold.
pub open spec fn variant_contents(list: Seq<syn::Variant>) -> Seq<VariantView> {
    list.map_values(|v: syn::Variant| variant_content(v))
}

/// What the items of an impl block hold.
pub open spec fn member_contents(list: Seq<syn::ImplItem>) -> Seq<MemberView> {
    list.map_values(|m: syn::ImplItem| member_content(m))
}

impl View for SourceAttr {
    type V = AttrView;

    open spec fn view(&self) -> AttrView {
        AttrView { name: opt_text(self.name), value: opt_text(self.value) }
    }
}

impl View for SourceField {
    type V = FieldView;

    open spec fn view(&self) -> FieldView {
        FieldView { public: self.public, name: opt_text(self.name), ty: self.ty@ }
    }
}

impl View for SourceFields {
    type V = FieldsView;

    open spec fn view(&self) -> FieldsView {
        FieldsView { style: self.style, list: self.list@.map_values(|f: SourceField| f@) }
    }
}

impl View for SourceVariant {
    type V = VariantView;

    open spec fn view(&self) -> VariantView {
        VariantView { name: self.name@, attrs: attr_views(self.attrs@), fields: self.fields@ }
    }
}

impl View for SourceMember {
    type V = MemberView;

    open spec fn view(&self) -> MemberView {
        match self {
            SourceMember::Method { public, name } => MemberView::Method {
                public: *public,
                name: name@,
            },
            SourceMember::Other => MemberView::Other,
        }
    }
}

impl View for SourceItem {
    type V = ItemView;

    open spec fn view(&self) -> ItemView
        decreases self,
    {
        match self {
            SourceItem::Struct { public, name, attrs, fields, inner } => ItemView::Struct {
                public: *public,
                name: name@,
                attrs: attr_views(attrs@),
                fields: fields@,
                inner: Seq::new(
                    inner@.len(),
                    |i: int|
                        if 0 <= i < inner@.len() {
                            inner@[i].view()
                        } else {
                            ItemView::ModuleFile { name: Seq::empty() }
                        },
                ),
            },
            SourceItem::Enum { public, name, attrs, variants, inner } => ItemView::Enum {
                public: *public,
                name: name@,
                attrs: attr_views(attrs@),
                variants: variants@.map_values(|v: SourceVariant| v@),
                inner: Seq::new(
                    inner@.len(),
                    |i: int|
                        if 0 <= i < inner@.len() {
                            inner@[i].view()
                        } else {
                            ItemView::ModuleFile { name: Seq::empty() }
                        },
                ),
            },
            SourceItem::Function { public, name, attrs, signature } => ItemView::Function {
                public: *public,
                name: name@,
                attrs: attr_views(attrs@),
                signature: signature@,
            },
            SourceItem::Impl { target, members } => ItemView::Impl {
                target: opt_text(*target),
                members: members@.map_values(|m: SourceMember| m@),
            },
            SourceItem::Module { name, items } => ItemView::Module {
                name: name@,
                items: Seq::new(
                    items@.len(),
                    |i: int|
                        if 0 <= i < items@.len() {
                            items@[i].view()
                        } else {
                            ItemView::ModuleFile { name: Seq::empty() }
                        },
                ),
            },
            SourceItem::ModuleFile { name } => ItemView::ModuleFile { name: name@ },
            SourceItem::Other { inner } => ItemView::Other {
                inner: Seq::new(
                    inner@.len(),
                    |i: int|
                        if 0 <= i < inner@.len() {
                            inner@[i].view()
                        } else {
                            ItemView::ModuleFile { name: Seq::empty() }
                        },
                ),
            },
        }
    }
}

/// The models of attributes.
pub open spec fn attr_views(list: Seq<SourceAttr>) -> Seq<AttrView> {
    list.map_values(|a: SourceAttr| a@)
}

/// The models of items.
pub open spec fn item_views(list: Seq<SourceItem>) -> Seq<ItemView> {
    list.map_values(|i: SourceItem| i@)
}

impl RawVariant {
    /// The model of the variant.
    spec fn content(self) -> VariantView {
        VariantView {
            name: self.name@,
            attrs: attr_contents(self.attrs@),
            fields: fields_content(self.fields),
        }
    }
}

impl RawStruct {
    spec fn content(self) -> ItemView {
        ItemView::Struct {
            public: self.public,
            name: self.name@,
            attrs: attr_contents(self.attrs@),
            fields: fields_content(self.fields),
            inner: item_contents(self.inner@),
        }
    }
}

impl RawEnum {
    spec fn content(self) -> ItemView {
        ItemView::Enum {
            public: self.public,
            name: self.name@,
            attrs: attr_contents(self.attrs@),
            variants: variant_contents(self.variants@),
            inner: item_contents(self.inner@),
        }
    }
}

impl RawFunction {
    spec fn content(self) -> ItemView {
        ItemView::Function {
            public: self.public,
            name: self.name@,
            attrs: attr_contents(self.attrs@),
            signature: self.signature@,
        }
    }
}

impl RawImpl {
    spec fn content(self) -> ItemView {
        ItemView::Impl {
            target: type_target(self.target),
            members: member_contents(self.members@),
        }
    }
}

impl RawModule {
    spec fn content(self) -> ItemView {
        match self.items {
            Some(v) => ItemView::Module { name: self.name@, items: item_contents(v@) },
            None => ItemView::ModuleFile { name: self.name@ },
        }
    }
}

impl RawItem {
    spec fn content(self) -> ItemView {
        match self {
            RawItem::Struct(s) => struct_content(s),
            RawItem::Enum(e) => enum_content(e),
            RawItem::Function(f) => fn_content(f),
            RawItem::Impl(m) => impl_content(m),
            RawItem::Module(m) => mod_content(m),
            RawItem::Other(v) => ItemView::Other { inner: item_contents(v@) },
        }
    }
}

/// `syn::parse_file`, and `syn::visit::visit_file`: the items of a source file, or nothing where the
/// text is no such file. Which items there are is a function of the text alone.
#[verifier::external_body]
fn parse_source(text: &str) -> (r: Option<Vec<syn::Item>>)
    ensures
        match r {
            Some(v) => source_items_of(text@) == Some(item_contents(v@)),
            None => source_items_of(text@) is None,
        },
{
    let file = syn::parse_file(text).ok()?;
    let mut below = Gatherer { items: Vec::new() };
    syn::visit::visit_file(&mut below, &file);
    Some(below.items)
}

/// The kind of a `syn::Item`, and what it holds; kinds that are never indexed fall together, and of
/// them `syn::visit::visit_item` gives the items below.
#[verifier::external_body]
fn plain_item(i: &syn::Item) -> (r: RawItem)
    ensures
        r.content() == item_content(*i),
{
    match i {
        syn::Item::Struct(s) => RawItem::Struct(s.clone()),
        syn::Item::Enum(e) => RawItem::Enum(e.clone()),
        syn::Item::Fn(f) => RawItem::Function(f.clone()),
        syn::Item::Impl(m) => RawItem::Impl(m.clone()),
        syn::Item::Mod(m) => RawItem::Module(m.clone()),
        _ => {
            let mut below = Gatherer { items: Vec::new() };
            syn::visit::visit_item(&mut below, i);
            RawItem::Other(below.items)
        },
    }
}

/// The parts of a `syn::ItemStruct`, and the items below it, as `syn::visit::visit_item_struct`
/// gives them.
#[verifier::external_body]
fn plain_struct(s: &syn::ItemStruct) -> (r: RawStruct)
    ensures
        r.content() == struct_content(*s),
{
    let mut below = Gatherer { items: Vec::new() };
    syn::visit::visit_item_struct(&mut below, s);
    RawStruct {
        public: matches!(s.vis, syn::Visibility::Public(_)),
        name: s.ident.to_string(),
        attrs: s.attrs.clone(),
        fields: s.fields.clone(),
        inner: below.items,
    }
}

/// The parts of a `syn::ItemEnum`, and the items below it, as `syn::visit::visit_item_enum` gives
/// them.
#[verifier::external_body]
fn plain_enum(e: &syn::ItemEnum) -> (r: RawEnum)
    ensures
        r.content() == enum_content(*e),
{
    let mut below = Gatherer { items: Vec::new() };
    syn::visit::visit_item_enum(&mut below, e);
    RawEnum {
        public: matches!(e.vis, syn::Visibility::Public(_)),
        name: e.ident.to_string(),
        attrs: e.attrs.clone(),
        variants: e.variants.iter().cloned().collect(),
        inner: below.items,
    }
}

/// The parts of a `syn::ItemFn`; the tokens of its signature are written by
/// `quote::ToTokens::to_token_stream`.
#[verifier::external_body]
fn plain_fn(f: &syn::ItemFn) -> (r: RawFunction)
    ensures
        r.content() == fn_content(*f),
{
    RawFunction {
        public: matches!(f.vis, syn::Visibility::Public(_)),
        name: f.sig.ident.to_string(),
        attrs: f.attrs.clone(),
        signature: quote::ToTokens::to_token_stream(&f.sig).to_string(),
    }
}

/// The parts of a `syn::ItemImpl`.
#[verifier::external_body]
fn plain_impl(m: &syn::ItemImpl) -> (r: RawImpl)
    ensures
        r.content() == impl_content(*m),
{
    RawImpl { target: (*m.self_ty).clone(), members: m.items.clone() }
}

/// The parts of a `syn::ItemMod`.
#[verifier::external_body]
fn plain_mod(m: &syn::ItemMod) -> (r: RawModule)
    ensures
        r.content() == mod_content(*m),
{
    RawModule { name: m.ident.to_string(), items: m.content.clone().map(|c| c.1) }
}

/// The name of a `syn::Attribute`, as `syn::Path::get_ident` gives it, and the text that it is set
/// to, where it is set to one.
#[verifier::external_body]
fn plain_attr(a: &syn::Attribute) -> (r: SourceAttr)
    ensures
        r@ == attr_content(*a),
{
    SourceAttr {
        name: a.path().get_ident().map(|i| i.to_string()),
        value: match &a.meta {
            syn::Meta::NameValue(syn::MetaNameValue { value: syn::Expr::Lit(syn::ExprLit { lit: syn::Lit::Str(s), .. }), .. }) => Some(s.value()),
            _ => None,
        },
    }
}

/// The fields of a `syn::Fields`, and how they are written.
#[verifier::external_body]
fn plain_fields(f: &syn::Fields) -> (r: (FieldStyle, Vec<syn::Field>))
    ensures
        fields_content(*f) == (FieldsView { style: r.0, list: field_contents(r.1@) }),
{
    match f {
        syn::Fields::Named(n) => (FieldStyle::Named, n.named.iter().cloned().collect()),
        syn::Fields::Unnamed(u) => (FieldStyle::Unnamed, u.unnamed.iter().cloned().collect()),
        syn::Fields::Unit => (FieldStyle::Unit, Vec::new()),
    }
}

/// The parts of a `syn::Field`; the tokens of its type are written by
/// `quote::ToTokens::to_token_stream`.
#[verifier::external_body]
fn plain_field(f: &syn::Field) -> (r: SourceField)
    ensures
        r@ == field_content(*f),
{
    SourceField {
        public: matches!(f.vis, syn::Visibility::Public(_)),
        name: f.ident.as_ref().map(|i| i.to_string()),
        ty: quote::ToTokens::to_token_stream(&f.ty).to_string(),
    }
}

/// The parts of a `syn::Variant`.
#[verifier::external_body]
fn plain_variant(v: &syn::Variant) -> (r: RawVariant)
    ensures
        r.content() == variant_content(*v),
{
    RawVariant { name: v.ident.to_string(), attrs: v.attrs.clone(), fields: v.fields.clone() }
}

/// The parts of a `syn::ImplItem`: of a function whether it is public, and its name.
#[verifier::external_body]
fn plain_member(m: &syn::ImplItem) -> (r: SourceMember)
    ensures
        r@ == member_content(*m),
{
    match m {
        syn::ImplItem::Fn(f) => SourceMember::Method { public: matches!(f.vis, syn::Visibility::Public(_)), name: f.sig.ident.to_string() },
        _ => SourceMember::Other,
    }
}

/// The last name on the path of a `syn::Type`; nothing where the type is no path.
#[verifier::external_body]
fn plain_target(t: &syn::Type) -> (r: Option<String>)
    ensures
        opt_text(r) == type_target(*t),
{
    match t {
        syn::Type::Path(p) => p.path.segments.last().map(|s| s.ident.to_string()),
        _ => None,
    }
}

/// Moves attributes over.
fn attrs_from(list: &Vec<syn::Attribute>) -> (r: Vec<SourceAttr>)
    ensures
        attr_views(r@) == attr_contents(list@),
{
    let ghost all = attr_contents(list@);
    let mut out: Vec<SourceAttr> = Vec::new();
    let mut i: usize = 0;
    assert(attr_views(out@) == all.take(0));
    while i < list.len()
        invariant
            i <= list@.len() == all.len(),
            all == attr_contents(list@),
            attr_views(out@) == all.take(i as int),
        decreases list@.len() - i,
    {
        let ghost before = out@;
        out.push(plain_attr(&list[i]));
        assert(attr_views(out@) == attr_views(before).push(all[i as int]));
        assert(all.take(i + 1) == all.take(i as int).push(all[i as int]));
        i = i + 1;
    }
    assert(all.take(i as int) == all);
    out
}

/// Moves fields over.
fn fields_from(f: &syn::Fields) -> (r: SourceFields)
    ensures
        r@ == fields_content(*f),
{
    let (style, list) = plain_fields(f);
    let ghost all = field_contents(list@);
    let mut out: Vec<SourceField> = Vec::new();
    let mut i: usize = 0;
    assert(out@.map_values(|f: SourceField| f@) == all.take(0));
    while i < list.len()
        invariant
            i <= list@.len() == all.len(),
            all == field_contents(list@),
            out@.map_values(|f: SourceField| f@) == all.take(i as int),
        decreases list@.len() - i,
    {
        let ghost before = out@;
        out.push(plain_field(&list[i]));
        assert(out@.map_values(|f: SourceField| f@) == before.map_values(
            |f: SourceField| f@,
        ).push(all[i as int]));
        assert(all.take(i + 1) == all.take(i as int).push(all[i as int]));
        i = i + 1;
    }
    assert(all.take(i as int) == all);
    SourceFields { style, list: out }
}

/// Moves variants over.
fn variants_from(list: &Vec<syn::Variant>) -> (r: Vec<SourceVariant>)
    ensures
        r@.map_values(|v: SourceVariant| v@) == variant_contents(list@),
{
    let ghost all = variant_contents(list@);
    let mut out: Vec<SourceVariant> = Vec::new();
    let mut i: usize = 0;
    assert(out@.map_values(|v: SourceVariant| v@) == all.take(0));
    while i < list.len()
        invariant
            i <= list@.len() == all.len(),
            all == variant_contents(list@),
            out@.map_values(|v: SourceVariant| v@) == all.take(i as int),
        decreases list@.len() - i,
    {
        let ghost before = out@;
        let v = plain_variant(&list[i]);
        let attrs = attrs_from(&v.attrs);
        let fields = fields_from(&v.fields);
        out.push(SourceVariant { name: v.name, attrs, fields });
        assert(out@.map_values(|v: SourceVariant| v@) == before.map_values(
            |v: SourceVariant| v@,
        ).push(all[i as int]));
        assert(all.take(i + 1) == all.take(i as int).push(all[i as int]));
        i = i + 1;
    }
    assert(all.take(i as int) == all);
    out
}

/// Moves the items of an impl block over.
fn members_from(list: &Vec<syn::ImplItem>) -> (r: Vec<SourceMember>)
    ensures
        r@.map_values(|m: SourceMember| m@) == member_contents(list@),
{
    let ghost all = member_contents(list@);
    let mut out: Vec<SourceMember> = Vec::new();
    let mut i: usize = 0;
    assert(out@.map_values(|m: SourceMember| m@) == all.take(0));
    while i < list.len()
        invariant
            i <= list@.len() == all.len(),
            all == member_contents(list@),
            out@.map_values(|m: SourceMember| m@) == all.take(i as int),
        decreases list@.len() - i,
    {
        let ghost before = out@;
        out.push(plain_member(&list[i]));
        assert(out@.map_values(|m: SourceMember| m@) == before.map_values(
            |m: SourceMember| m@,
        ).push(all[i as int]));
        assert(all.take(i + 1) == all.take(i as int).push(all[i as int]));
        i = i + 1;
    }
    assert(all.take(i as int) == all);
    out
}

/// Moves items over.
fn items_from(list: &Vec<syn::Item>) -> (r: Vec<SourceItem>)
    ensures
        item_views(r@) == item_contents(list@),
    decreases item_contents(list@),
{
    let ghost all = item_contents(list@);
    let mut out: Vec<SourceItem> = Vec::new();
    let mut i: usize = 0;
    assert(item_views(out@) == all.take(0));
    while i < list.len()
        invariant
            i <= list@.len() == all.len(),
            all == item_contents(list@),
            item_views(out@) == all.take(i as int),
        decreases list@.len() - i,
    {
        let ghost before = out@;
        let ghost content = all[i as int];
        assert(content == item_content(list@[i as int]));
        let item = match plain_item(&list[i]) {
            RawItem::Struct(raw) => {
                let s = plain_struct(&raw);
                let attrs = attrs_from(&s.attrs);
                let fields = fields_from(&s.fields);
                proof {
                    assert(decreases_to!(all => content));
                    assert(decreases_to!(content => content->Struct_inner));
                }
                let inner = items_from(&s.inner);
                SourceItem::Struct { public: s.public, name: s.name, attrs, fields, inner }
            },
            RawItem::Enum(raw) => {
                let e = plain_enum(&raw);
                let attrs = attrs_from(&e.attrs);
                let variants = variants_from(&e.variants);
                proof {
                    assert(decreases_to!(all => content));
                    assert(decreases_to!(content => content->Enum_inner));
                }
                let inner = items_from(&e.inner);
                SourceItem::Enum { public: e.public, name: e.name, attrs, variants, inner }
            },
            RawItem::Function(raw) => {
                let f = plain_fn(&raw);
                let attrs = attrs_from(&f.attrs);
                SourceItem::Function {
                    public: f.public,
                    name: f.name,
                    attrs,
                    signature: f.signature,
                }
            },
            RawItem::Impl(raw) => {
                let m = plain_impl(&raw);
                SourceItem::Impl {
                    target: plain_target(&m.target),
                    members: members_from(&m.members),
                }
            },
            RawItem::Module(raw) => {
                let m = plain_mod(&raw);
                match m.items {
                    Some(inner) => {
                        proof {
                            assert(decreases_to!(all => content));
                            assert(decreases_to!(content => content->Module_items));
                        }
                        let parts = items_from(&inner);
                        SourceItem::Module { name: m.name, items: parts }
                    },
                    None => SourceItem::ModuleFile { name: m.name },
                }
            },
            RawItem::Other(below) => {
                proof {
                    assert(decreases_to!(all => content));
                    assert(decreases_to!(content => content->Other_inner));
                }
                SourceItem::Other { inner: items_from(&below) }
            },
        };
        proof {
            lemma_item_view(item);
        }
        assert(item@ == content);
        out.push(item);
        assert(item_views(out@) == item_views(before).push(content));
        assert(all.take(i + 1) == all.take(i as int).push(content));
        i = i + 1;
    }
    assert(all.take(i as int) == all);
    out
}

/// The model of an item holds the models of the items in it.
pub proof fn lemma_item_view(item: SourceItem)
    ensures
        match item {
            SourceItem::Struct { inner, .. } => item@->Struct_inner == item_views(inner@),
            SourceItem::Enum { inner, .. } => item@->Enum_inner == item_views(inner@),
            SourceItem::Module { items, .. } => item@->Module_items == item_views(items@),
            SourceItem::Other { inner } => item@->Other_inner == item_views(inner@),
            _ => true,
        },
{
    reveal_with_fuel(<SourceItem as View>::view, 2);
    match item {
        SourceItem::Struct { inner, .. } => {
            assert(item@->Struct_inner == item_views(inner@));
        },
        SourceItem::Enum { inner, .. } => {
            assert(item@->Enum_inner == item_views(inner@));
        },
        SourceItem::Module { items, .. } => {
            assert(item@->Module_items == item_views(items@));
        },
        SourceItem::Other { inner } => {
            assert(item@->Other_inner == item_views(inner@));
        },
        _ => {},
    }
}

/// The items of a source file; nothing where the text is no such file.
pub fn source_items(text: &str) -> (r: Option<Vec<SourceItem>>)
    ensures
        match r {
            Some(v) => source_items_of(text@) == Some(item_views(v@)),
            None => source_items_of(text@) is None,
        },
{
    match parse_source(text) {
        Some(list) => Some(items_from(&list)),
        None => None,
    }
}

} // verus!
