//! JSON values as plain data.

use crate::text::{same, views, Text};
use serde_json::Value;
use vstd::prelude::*;

verus! {

/// A JSON value. A number is an unsigned integer, a negative integer or, in its written form,
/// a number of another kind.
pub enum Json {
    Null,
    Bool(bool),
    Unsigned(u64),
    Negative(i64),
    Float(String),
    Text(String),
    List(Vec<Json>),
    Object(Vec<(String, Json)>),
}

/// The model of a JSON value.
pub enum JsonView {
    Null,
    Bool(bool),
    Unsigned(nat),
    Negative(int),
    Float(Text),
    Text(Text),
    List(Seq<JsonView>),
    Object(Seq<(Text, JsonView)>),
}

impl View for Json {
    type V = JsonView;

    open spec fn view(&self) -> JsonView
        decreases self,
    {
        match self {
            Json::Null => JsonView::Null,
            Json::Bool(b) => JsonView::Bool(*b),
            Json::Unsigned(n) => JsonView::Unsigned(*n as nat),
            Json::Negative(n) => JsonView::Negative(*n as int),
            Json::Float(s) => JsonView::Float(s@),
            Json::Text(s) => JsonView::Text(s@),
            Json::List(v) => JsonView::List(
                Seq::new(
                    v@.len(),
                    |i: int|
                        if 0 <= i < v@.len() {
                            v@[i].view()
                        } else {
                            JsonView::Null
                        },
                ),
            ),
            Json::Object(v) => JsonView::Object(
                Seq::new(
                    v@.len(),
                    |i: int|
                        if 0 <= i < v@.len() {
                            (v@[i].0@, v@[i].1.view())
                        } else {
                            (Seq::empty(), JsonView::Null)
                        },
                ),
            ),
        }
    }
}

/// The model of a list holds the models of its items.
pub proof fn lemma_list_view(v: Vec<Json>)
    ensures
        Json::List(v)@ is List,
        Json::List(v)@->List_0.len() == v@.len(),
        forall|i: int| 0 <= i < v@.len() ==> #[trigger] Json::List(v)@->List_0[i] == v@[i]@,
{
    reveal_with_fuel(<Json as View>::view, 2);
}

/// The model of an object holds its keys with the models of their values.
pub proof fn lemma_object_view(v: Vec<(String, Json)>)
    ensures
        Json::Object(v)@ is Object,
        Json::Object(v)@->Object_0.len() == v@.len(),
        forall|i: int|
            0 <= i < v@.len() ==> #[trigger] Json::Object(v)@->Object_0[i] == (v@[i].0@, v@[i].1@),
{
    reveal_with_fuel(<Json as View>::view, 2);
}

/// The value of the first entry with key `key`.
pub open spec fn lookup(entries: Seq<(Text, JsonView)>, key: Text) -> Option<JsonView>
    decreases entries.len(),
{
    if entries.len() == 0 {
        None
    } else if entries.first().0 == key {
        Some(entries.first().1)
    } else {
        lookup(entries.drop_first(), key)
    }
}

impl JsonView {
    /// The value under `key`, where this is an object that has one.
    pub open spec fn field(self, key: Text) -> Option<JsonView> {
        match self {
            JsonView::Object(entries) => lookup(entries, key),
            _ => None,
        }
    }

    /// The text, where this is one.
    pub open spec fn text(self) -> Option<Text> {
        match self {
            JsonView::Text(s) => Some(s),
            _ => None,
        }
    }

    /// The text under `key`, where there is one.
    pub open spec fn text_field(self, key: Text) -> Option<Text> {
        match self.field(key) {
            Some(v) => v.text(),
            None => None,
        }
    }

    /// The unsigned number under `key`, where there is one.
    pub open spec fn number_field(self, key: Text) -> Option<nat> {
        match self.field(key) {
            Some(JsonView::Unsigned(n)) => Some(n),
            _ => None,
        }
    }

    /// The truth value under `key`, where there is one.
    pub open spec fn bool_field(self, key: Text) -> Option<bool> {
        match self.field(key) {
            Some(JsonView::Bool(b)) => Some(b),
            _ => None,
        }
    }

    /// The texts in the list under `key`; none where there is no list.
    pub open spec fn texts_field(self, key: Text) -> Seq<Text> {
        match self.field(key) {
            Some(JsonView::List(items)) => texts_in(items),
            _ => Seq::empty(),
        }
    }
}

/// The texts among `items`, in order.
pub open spec fn texts_in(items: Seq<JsonView>) -> Seq<Text>
    decreases items.len(),
{
    if items.len() == 0 {
        Seq::empty()
    } else {
        match items.last().text() {
            Some(s) => texts_in(items.drop_last()).push(s),
            None => texts_in(items.drop_last()),
        }
    }
}

/// The model of an optional string.
pub open spec fn opt_view(s: Option<&str>) -> Option<Text> {
    match s {
        Some(s) => Some(s@),
        None => None,
    }
}

impl Json {
    /// A copy of the value.
    pub fn copy(&self) -> (r: Json)
        ensures
            r@ == self@,
        decreases self,
    {
        match self {
            Json::Null => Json::Null,
            Json::Bool(b) => Json::Bool(*b),
            Json::Unsigned(n) => Json::Unsigned(*n),
            Json::Negative(n) => Json::Negative(*n),
            Json::Float(s) => Json::Float(s.clone()),
            Json::Text(s) => Json::Text(s.clone()),
            Json::List(v) => {
                let mut out: Vec<Json> = Vec::new();
                let mut i: usize = 0;
                while i < v.len()
                    invariant
                        i <= v@.len(),
                        out@.len() == i,
                        *self == Json::List(*v),
                        forall|k: int| 0 <= k < i ==> (#[trigger] out@[k])@ == v@[k]@,
                    decreases v@.len() - i,
                {
                    proof {
                        assert(decreases_to!(*self => self->List_0));
                        assert(decreases_to!(*v => v@));
                        assert(decreases_to!(v@ => v@[i as int]));
                    }
                    let item = v[i].copy();
                    out.push(item);
                    i = i + 1;
                }
                proof {
                    lemma_list_view(*v);
                    lemma_list_view(out);
                    assert(Json::List(out)@->List_0 == Json::List(*v)@->List_0);
                }
                Json::List(out)
            },
            Json::Object(v) => {
                let mut out: Vec<(String, Json)> = Vec::new();
                let mut i: usize = 0;
                while i < v.len()
                    invariant
                        i <= v@.len(),
                        out@.len() == i,
                        *self == Json::Object(*v),
                        forall|k: int|
                            0 <= k < i ==> (#[trigger] out@[k]).0@ == v@[k].0@ && out@[k].1@
                                == v@[k].1@,
                    decreases v@.len() - i,
                {
                    let key = v[i].0.clone();
                    proof {
                        assert(decreases_to!(*self => self->Object_0));
                        assert(decreases_to!(*v => v@));
                        assert(decreases_to!(v@ => v@[i as int]));
                        assert(decreases_to!(v@[i as int] => v@[i as int].1));
                    }
                    let item = v[i].1.copy();
                    out.push((key, item));
                    i = i + 1;
                }
                proof {
                    lemma_object_view(*v);
                    lemma_object_view(out);
                    assert(Json::Object(out)@->Object_0 == Json::Object(*v)@->Object_0);
                }
                Json::Object(out)
            },
        }
    }

    /// The value under `key`, where this is an object that has one.
    pub fn get(&self, key: &str) -> (r: Option<&Json>)
        ensures
            match r {
                Some(v) => self@.field(key@) == Some(v@),
                None => self@.field(key@) is None,
            },
    {
        match self {
            Json::Object(entries) => {
                let mut i: usize = 0;
                let ghost all = self@->Object_0;
                proof {
                    lemma_object_view(*entries);
                }
                assert(all.skip(0) == all);
                while i < entries.len()
                    invariant
                        i <= entries@.len(),
                        self@ == JsonView::Object(all),
                        *self == Json::Object(*entries),
                        all.len() == entries@.len(),
                        forall|k: int|
                            0 <= k < all.len() ==> #[trigger] all[k] == (
                                entries@[k].0@,
                                entries@[k].1@,
                            ),
                        lookup(all, key@) == lookup(all.skip(i as int), key@),
                    decreases entries@.len() - i,
                {
                    assert(all.skip(i as int).first() == (entries@[i as int].0@, entries@[i as int].1@));
                    if same(entries[i].0.as_str(), key) {
                        return Some(&entries[i].1);
                    }
                    assert(all.skip(i as int).drop_first() == all.skip(i + 1));
                    i = i + 1;
                }
                None
            },
            _ => None,
        }
    }

    /// The text, where this is one.
    pub fn as_str(&self) -> (r: Option<&str>)
        ensures
            opt_view(r) == self@.text(),
    {
        match self {
            Json::Text(s) => Some(s.as_str()),
            _ => None,
        }
    }

    /// The text under `key`, where there is one.
    pub fn str_at(&self, key: &str) -> (r: Option<&str>)
        ensures
            opt_view(r) == self@.text_field(key@),
    {
        match self.get(key) {
            Some(v) => v.as_str(),
            None => None,
        }
    }

    /// The unsigned number under `key`, where there is one.
    pub fn u64_at(&self, key: &str) -> (r: Option<u64>)
        ensures
            match r {
                Some(n) => self@.number_field(key@) == Some(n as nat),
                None => self@.number_field(key@) is None,
            },
    {
        match self.get(key) {
            Some(Json::Unsigned(n)) => Some(*n),
            _ => None,
        }
    }

    /// The truth value under `key`, where there is one.
    pub fn bool_at(&self, key: &str) -> (r: Option<bool>)
        ensures
            r == self@.bool_field(key@),
    {
        match self.get(key) {
            Some(Json::Bool(b)) => Some(*b),
            _ => None,
        }
    }

    /// The texts in the list under `key`; none where there is no list.
    pub fn strings_at(&self, key: &str) -> (r: Vec<String>)
        ensures
            views(r@) == self@.texts_field(key@),
    {
        let mut out: Vec<String> = Vec::new();
        assert(views(out@) == Seq::<Text>::empty());
        match self.get(key) {
            Some(Json::List(items)) => {
                let ghost all = Json::List(*items)@->List_0;
                proof {
                    lemma_list_view(*items);
                }
                assert(self@.field(key@) == Some(JsonView::List(all)));
                assert(all.take(0) == Seq::<JsonView>::empty());
                let mut i: usize = 0;
                while i < items.len()
                    invariant
                        i <= items@.len() == all.len(),
                        forall|k: int| 0 <= k < all.len() ==> #[trigger] all[k] == items@[k]@,
                        views(out@) == texts_in(all.take(i as int)),
                    decreases items@.len() - i,
                {
                    let ghost before = out@;
                    assert(all[i as int] == items@[i as int]@);
                    assert(all.take(i + 1).drop_last() == all.take(i as int));
                    if let Some(s) = items[i].as_str() {
                        out.push(s.to_owned());
                        assert(views(out@) == views(before).push(s@));
                    }
                    i = i + 1;
                }
                assert(all.take(i as int) == all);
            },
            _ => {},
        }
        out
    }
}

/// The models of the entries of an object.
pub open spec fn fields_of(entries: Seq<(String, Json)>) -> Seq<(Text, JsonView)> {
    entries.map_values(|e: (String, Json)| (e.0@, e.1@))
}

/// No entries.
pub open spec fn no_fields() -> Seq<(Text, JsonView)> {
    Seq::empty()
}

/// The models of the items of a list.
pub open spec fn views_of(items: Seq<Json>) -> Seq<JsonView> {
    items.map_values(|j: Json| j@)
}

/// The models of texts as JSON.
pub open spec fn text_views(list: Seq<Text>) -> Seq<JsonView> {
    list.map_values(|s: Text| JsonView::Text(s))
}

/// The entries with the value under `key` replaced by `value`, or with both appended where there
/// is no such key.
pub open spec fn with_field(entries: Seq<(Text, JsonView)>, key: Text, value: JsonView) -> Seq<
    (Text, JsonView),
>
    decreases entries.len(),
{
    if entries.len() == 0 {
        seq![(key, value)]
    } else if entries.first().0 == key {
        seq![(key, value)] + entries.drop_first()
    } else {
        seq![entries.first()] + with_field(entries.drop_first(), key, value)
    }
}

/// What was put under a key is found there, and under every other key what was there before.
pub proof fn law_field_is_put(
    entries: Seq<(Text, JsonView)>,
    key: Text,
    value: JsonView,
    other: Text,
)
    ensures
        lookup(with_field(entries, key, value), key) == Some(value),
        other != key ==> lookup(with_field(entries, key, value), other) == lookup(entries, other),
    decreases entries.len(),
{
    if entries.len() == 0 {
        let put = seq![(key, value)];
        assert(put.drop_first() == Seq::<(Text, JsonView)>::empty());
        assert(lookup(put.drop_first(), other) is None);
        assert(lookup(put, other) == if key == other {
            Some(value)
        } else {
            None
        });
    } else {
        let put = with_field(entries, key, value);
        if entries.first().0 == key {
            assert(put.drop_first() == entries.drop_first());
        } else {
            law_field_is_put(entries.drop_first(), key, value, other);
            assert(put.drop_first() == with_field(entries.drop_first(), key, value));
        }
    }
}

/// An object with the given entries.
pub fn object(entries: Vec<(String, Json)>) -> (r: Json)
    ensures
        r@ == JsonView::Object(fields_of(entries@)),
{
    proof {
        lemma_object_view(entries);
        assert(Json::Object(entries)@->Object_0 == fields_of(entries@));
    }
    Json::Object(entries)
}

/// A list of the given items.
pub fn list(items: Vec<Json>) -> (r: Json)
    ensures
        r@ == JsonView::List(views_of(items@)),
{
    proof {
        lemma_list_view(items);
        assert(Json::List(items)@->List_0 == views_of(items@));
    }
    Json::List(items)
}

/// A text.
pub fn text(s: &str) -> (r: Json)
    ensures
        r@ == JsonView::Text(s@),
{
    Json::Text(s.to_owned())
}

/// A list of texts.
pub fn text_list(list_of: &Vec<String>) -> (r: Json)
    ensures
        r@ == JsonView::List(text_views(views(list_of@))),
{
    let ghost all = text_views(views(list_of@));
    let mut out: Vec<Json> = Vec::new();
    let mut i: usize = 0;
    while i < list_of.len()
        invariant
            i <= list_of@.len() == all.len(),
            all == text_views(views(list_of@)),
            views_of(out@) == all.take(i as int),
        decreases list_of@.len() - i,
    {
        let ghost before = out@;
        let item = text(list_of[i].as_str());
        out.push(item);
        assert(views_of(out@) == views_of(before).push(item@));
        assert(all.take(i + 1) == all.take(i as int).push(all[i as int]));
        i = i + 1;
    }
    assert(all.take(i as int) == all);
    list(out)
}

/// An integer.
pub fn integer(n: i64) -> (r: Json)
    ensures
        r@ == integer_view(n as int),
{
    if n < 0 {
        Json::Negative(n)
    } else {
        Json::Unsigned(n as u64)
    }
}

/// The model of an integer.
pub open spec fn integer_view(n: int) -> JsonView {
    if n < 0 {
        JsonView::Negative(n)
    } else {
        JsonView::Unsigned(n as nat)
    }
}

/// No entries.
pub fn no_entries() -> (r: Vec<(String, Json)>)
    ensures
        fields_of(r@) == no_fields(),
{
    let r: Vec<(String, Json)> = Vec::new();
    assert(fields_of(r@) == no_fields());
    r
}

/// Appends an entry.
pub fn add_field(entries: &mut Vec<(String, Json)>, key: &str, value: Json)
    ensures
        fields_of(final(entries)@) == fields_of(old(entries)@).push((key@, value@)),
{
    entries.push((key.to_owned(), value));
    assert(fields_of(entries@) == fields_of(old(entries)@).push((key@, value@)));
}

/// Puts `value` under `key`, in the place of what is there.
pub fn put_field(entries: &mut Vec<(String, Json)>, key: &str, value: Json)
    ensures
        fields_of(final(entries)@) == with_field(fields_of(old(entries)@), key@, value@),
{
    let ghost all = fields_of(entries@);
    let mut i: usize = 0;
    assert(all.skip(0) == all);
    assert(all.take(0) + with_field(all, key@, value@) == with_field(all, key@, value@));
    while i < entries.len()
        invariant
            i <= entries@.len() == all.len(),
            all == fields_of(entries@),
            all == fields_of(old(entries)@),
            with_field(all, key@, value@) == all.take(i as int) + with_field(
                all.skip(i as int),
                key@,
                value@,
            ),
        decreases entries@.len() - i,
    {
        let ghost rest = all.skip(i as int);
        assert(rest.first() == (entries@[i as int].0@, entries@[i as int].1@));
        assert(rest.drop_first() == all.skip(i + 1));
        if same(entries[i].0.as_str(), key) {
            entries.set(i, (key.to_owned(), value));
            assert(fields_of(entries@) == all.take(i as int) + (seq![(key@, value@)] + all.skip(
                i + 1,
            )));
            return ;
        }
        assert(all.take(i as int) + (seq![rest.first()] + with_field(
            all.skip(i + 1),
            key@,
            value@,
        )) == all.take(i + 1) + with_field(all.skip(i + 1), key@, value@));
        i = i + 1;
    }
    assert(all.take(i as int) == all);
    assert(all.skip(i as int) == Seq::<(Text, JsonView)>::empty());
    assert(all + seq![(key@, value@)] == all.push((key@, value@)));
    add_field(entries, key, value);
}

/// A JSON document as `serde_json` holds it.
#[verifier::external_type_specification]
#[verifier::external_body]
pub struct ExValue(Value);

/// The content of a JSON document that `serde_json` holds.
pub uninterp spec fn value_content(v: Value) -> JsonView;

/// What `serde_json::from_str` reads out of a text: a value, or nothing where the text is no JSON.
pub uninterp spec fn json_of_text(text: Seq<char>) -> Option<JsonView>;

/// `serde_json::from_str`, for a value of any shape. Whether it succeeds and what it reads is a
/// function of the text alone.
#[verifier::external_body]
pub(crate) fn read_value(text: &str) -> (r: Option<Value>)
    ensures
        match r {
            Some(v) => json_of_text(text@) == Some(value_content(v)),
            None => json_of_text(text@) is None,
        },
{
    serde_json::from_str(text).ok()
}

/// The content of a `serde_json::Value`, moved over variant by variant.
#[verifier::external_body]
pub(crate) fn plain(v: &Value) -> (r: Json)
    ensures
        r@ == value_content(*v),
{
    match v {
        Value::Null => Json::Null,
        Value::Bool(b) => Json::Bool(*b),
        Value::Number(n) => match (n.as_u64(), n.as_i64()) {
            (Some(u), _) => Json::Unsigned(u),
            (None, Some(i)) => Json::Negative(i),
            (None, None) => Json::Float(n.to_string()),
        },
        Value::String(s) => Json::Text(s.clone()),
        Value::Array(a) => Json::List(a.iter().map(plain).collect()),
        Value::Object(m) => {
            Json::Object(m.iter().map(|(k, w)| (k.clone(), plain(w))).collect())
        },
    }
}

/// Reads a JSON document.
pub fn parse_json(text: &str) -> (r: Option<Json>)
    ensures
        match r {
            Some(j) => json_of_text(text@) == Some(j@),
            None => json_of_text(text@) is None,
        },
{
    match read_value(text) {
        Some(v) => Some(plain(&v)),
        None => None,
    }
}

/// The JSON text that `serde_json::to_string` writes for a list of strings.
pub uninterp spec fn strings_json_of(list: Seq<Seq<char>>) -> Seq<char>;

/// What `serde_json::from_str` reads as a list of strings; nothing where the text is none.
pub uninterp spec fn strings_in_json(text: Seq<char>) -> Option<Seq<Seq<char>>>;

/// `serde_json::to_string` on a list of strings. It succeeds on every such list, its text is a
/// function of the list alone, and `serde_json::from_str` reads the same list back.
#[verifier::external_body]
pub(crate) fn strings_to_json(list: &Vec<String>) -> (r: Option<String>)
    ensures
        r is Some,
        r->0@ == strings_json_of(views(list@)),
        strings_in_json(r->0@) == Some(views(list@)),
{
    serde_json::to_string(list).ok()
}

/// `serde_json::from_str` for a list of strings. Whether it succeeds and what it reads is a
/// function of the text alone.
#[verifier::external_body]
pub(crate) fn strings_from_json(text: &str) -> (r: Option<Vec<String>>)
    ensures
        match r {
            Some(list) => strings_in_json(text@) == Some(views(list@)),
            None => strings_in_json(text@) is None,
        },
{
    serde_json::from_str(text).ok()
}

/// The JSON text of a list of strings.
pub fn list_text(list: &Vec<String>) -> (r: String)
    ensures
        r@ == strings_json_of(views(list@)),
        strings_in_json(r@) == Some(views(list@)),
{
    match strings_to_json(list) {
        Some(s) => s,
        None => "[]".to_owned(),
    }
}

/// The list of strings that a JSON text holds; empty where it holds none.
pub fn list_of_text(text: &str) -> (r: Vec<String>)
    ensures
        views(r@) == match strings_in_json(text@) {
            Some(list) => list,
            None => Seq::empty(),
        },
{
    match strings_from_json(text) {
        Some(list) => list,
        None => {
            let none: Vec<String> = Vec::new();
            assert(views(none@) == Seq::<Text>::empty());
            none
        },
    }
}

/// Of entries with the same key the first counts: one more entry is found only where its key is new.
pub proof fn law_first_entry_counts(entries: Seq<(Text, JsonView)>, e: (Text, JsonView), key: Text)
    ensures
        lookup(no_fields(), key) is None,
        lookup(entries, key) is Some ==> lookup(entries.push(e), key) == lookup(entries, key),
        lookup(entries, key) is None && e.0 == key ==> lookup(entries.push(e), key) == Some(e.1),
        e.0 != key ==> lookup(entries.push(e), key) == lookup(entries, key),
    decreases entries.len(),
{
    let all = entries.push(e);
    if entries.len() == 0 {
        assert(all.drop_first() == no_fields());
        assert(lookup(all.drop_first(), key) is None);
    } else {
        assert(all.drop_first() == entries.drop_first().push(e));
        assert(all.first() == entries.first());
        law_first_entry_counts(entries.drop_first(), e, key);
    }
}

/// The texts among items are all of them and nothing else, in order.
pub proof fn law_texts_are_picked_in_order(items: Seq<JsonView>, v: JsonView)
    ensures
        texts_in(Seq::empty()).len() == 0,
        v matches JsonView::Text(s) ==> texts_in(items.push(v)) == texts_in(items).push(s),
        !(v is Text) ==> texts_in(items.push(v)) == texts_in(items),
{
    assert(items.push(v).drop_last() == items);
}

/// A field is read as what it is: a text as a text, an unsigned number as a number, a truth value as
/// one; anything else is none of these.
pub proof fn law_fields_are_read_as_they_are(v: JsonView, key: Text)
    ensures
        v.field(key) matches Some(JsonView::Text(s)) ==> v.text_field(key) == Some(s),
        v.field(key) matches Some(JsonView::Unsigned(n)) ==> v.number_field(key) == Some(n),
        v.field(key) matches Some(JsonView::Bool(b)) ==> v.bool_field(key) == Some(b),
        v.text_field(key) is Some ==> v.field(key) is Some && v.field(key)->0 is Text,
        v.number_field(key) is Some ==> v.field(key) is Some && v.field(key)->0 is Unsigned,
        v.bool_field(key) is Some ==> v.field(key) is Some && v.field(key)->0 is Bool,
        !(v is Object) ==> v.field(key) is None,
{
}

} // verus!
