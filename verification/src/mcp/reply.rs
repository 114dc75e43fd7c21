//! What a tool answers, and what is to be recorded along with it.

use crate::json::{Json, JsonView};
use crate::text::{same, Text};
use vstd::prelude::*;

verus! {

/// A question that the memory could not answer, to be recorded.
#[derive(Debug, Clone)]
pub struct QueryGap {
    pub tool: String,
    pub query: String,
    /// Whether the gap belongs to the session.
    pub in_session: bool,
    pub note: String,
}

/// An entry that a tool handed out, to be recorded for the session.
#[derive(Debug, Clone)]
pub struct Retrieval {
    pub table: String,
    pub id: i64,
    pub tool: String,
}

/// The answer of a tool.
#[derive(Debug)]
pub struct Reply {
    /// The text, or why there is none.
    pub result: Result<String, String>,
    /// The gap to be recorded, if any.
    pub gap: Option<QueryGap>,
    /// The patterns whose use is to be counted.
    pub used: Vec<i64>,
    /// The entries handed out.
    pub retrieved: Vec<Retrieval>,
}

/// The model of a gap.
pub struct GapView {
    pub tool: Text,
    pub query: Text,
    pub in_session: bool,
    pub note: Text,
}

/// The model of an answer.
#[verifier::ext_equal]
pub struct ReplyView {
    pub result: Result<Text, Text>,
    pub gap: Option<GapView>,
    pub used: Seq<i64>,
    pub retrieved: Seq<(Text, i64, Text)>,
}

impl View for QueryGap {
    type V = GapView;

    open spec fn view(&self) -> GapView {
        GapView {
            tool: self.tool@,
            query: self.query@,
            in_session: self.in_session,
            note: self.note@,
        }
    }
}

/// The models of entries handed out.
pub open spec fn entries(list: Seq<Retrieval>) -> Seq<(Text, i64, Text)> {
    list.map_values(|r: Retrieval| (r.table@, r.id, r.tool@))
}

impl View for Reply {
    type V = ReplyView;

    open spec fn view(&self) -> ReplyView {
        ReplyView {
            result: match self.result {
                Ok(s) => Ok(s@),
                Err(s) => Err(s@),
            },
            gap: match self.gap {
                Some(g) => Some(g@),
                None => None,
            },
            used: self.used@,
            retrieved: entries(self.retrieved@),
        }
    }
}

/// An answer with nothing to record.
pub open spec fn plain_answer(text: Text) -> ReplyView {
    ReplyView { result: Ok(text), gap: None, used: Seq::empty(), retrieved: Seq::empty() }
}

/// A refusal with nothing to record.
pub open spec fn plain_refusal(text: Text) -> ReplyView {
    ReplyView { result: Err(text), gap: None, used: Seq::empty(), retrieved: Seq::empty() }
}

/// The same answer with a gap of the session to record.
pub open spec fn with_gap(r: ReplyView, tool: Text, query: Text, note: Text) -> ReplyView {
    ReplyView { gap: Some(GapView { tool, query, in_session: true, note }), ..r }
}

impl Reply {
    /// An answer with nothing to record.
    pub fn answer(text: String) -> (r: Reply)
        ensures
            r@ == plain_answer(text@),
    {
        let r = Reply { result: Ok(text), gap: None, used: Vec::new(), retrieved: Vec::new() };
        assert(r@.retrieved == Seq::<(Text, i64, Text)>::empty());
        r
    }

    /// A refusal with nothing to record.
    pub fn refusal(text: String) -> (r: Reply)
        ensures
            r@ == plain_refusal(text@),
    {
        let r = Reply { result: Err(text), gap: None, used: Vec::new(), retrieved: Vec::new() };
        assert(r@.retrieved == Seq::<(Text, i64, Text)>::empty());
        r
    }

    /// The same answer with a gap of the session to record.
    pub fn noting(self, tool: &str, query: &str, note: &str) -> (r: Reply)
        ensures
            r@ == with_gap(self@, tool@, query@, note@),
    {
        Reply {
            result: self.result,
            gap: Some(
                QueryGap {
                    tool: tool.to_owned(),
                    query: query.to_owned(),
                    in_session: true,
                    note: note.to_owned(),
                },
            ),
            used: self.used,
            retrieved: self.retrieved,
        }
    }
}

/// The number under `key`, or `default` where there is none.
pub open spec fn number_or_of(args: JsonView, key: Text, default: nat) -> nat {
    match args.number_field(key) {
        Some(n) => n,
        None => default,
    }
}

/// The text under `key`, or `default` where there is none.
pub open spec fn text_or_of(args: JsonView, key: Text, default: Text) -> Text {
    match args.text_field(key) {
        Some(s) => s,
        None => default,
    }
}

/// The number under `key`, or `default` where there is none.
pub fn number_or(args: &Json, key: &str, default: u64) -> (r: u64)
    ensures
        r as nat == number_or_of(args@, key@, default as nat),
{
    match args.u64_at(key) {
        Some(n) => n,
        None => default,
    }
}

/// The text under `key`, or `default` where there is none.
pub fn text_or<'a>(args: &'a Json, key: &str, default: &'a str) -> (r: &'a str)
    ensures
        r@ == text_or_of(args@, key@, default@),
{
    match args.str_at(key) {
        Some(s) => s,
        None => default,
    }
}

/// The smaller of a number and a count of things in memory.
pub fn at_most(n: u64, count: usize) -> (r: usize)
    ensures
        n <= count ==> r == n,
        n > count ==> r == count,
{
    if n > count as u64 {
        count
    } else {
        n as usize
    }
}

/// How much of each entry a listing shows.
#[derive(Debug, Clone, Copy, PartialEq, Eq, Structural)]
pub enum Detail {
    Summary,
    Standard,
    Full,
}

/// The detail that the arguments ask for; anything but `summary` and `full` is the standard.
pub open spec fn detail_of(args: JsonView) -> Detail {
    match args.text_field("detail"@) {
        Some(s) => if s == "summary"@ {
            Detail::Summary
        } else if s == "full"@ {
            Detail::Full
        } else {
            Detail::Standard
        },
        None => Detail::Standard,
    }
}

/// The detail that the arguments ask for.
pub fn list_detail_tier(args: &Json) -> (r: Detail)
    ensures
        r == detail_of(args@),
{
    match args.str_at("detail") {
        Some(s) => if same(s, "summary") {
            Detail::Summary
        } else if same(s, "full") {
            Detail::Full
        } else {
            Detail::Standard
        },
        None => Detail::Standard,
    }
}

} // verus!
