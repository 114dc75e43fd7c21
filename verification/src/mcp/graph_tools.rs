//! The tools that look into the graph, and those that think a change through.

use crate::json::{Json, JsonView};
use crate::lists::{
    first_of, holds, lemma_numbered_out_holds, lemma_written_out_holds, numbered_out, texts_of,
    write_all, written_out,
};
use crate::mcp::reply::{
    number_or, number_or_of, plain_answer, plain_refusal, text_or, text_or_of, with_gap, Reply,
    ReplyView,
};
use crate::model::CodeUnit;
use crate::numbers::{count_text, decimal, decimal_of};
use crate::paths::{bfs_dependency_path, dependency_path, steps, Edge, Step};
use crate::reasoner::simulator::{
    report_of, rows, AffectedItem, AffectedView, RiskLevel, SimulationResult,
};
use crate::text::{
    chars_of, contains_text, join, join_of, lemma_contains_half, lemma_contains_itself,
    lemma_contains_middle, lemma_contains_through, lemma_join_holds, lowercase_of, same, trim,
    trim_of, views, Text,
};
use vstd::prelude::*;

verus! {

/// An item of the graph that a name may mean.
#[derive(Debug, Clone)]
pub struct Candidate {
    pub id: String,
    pub name: String,
    pub module: String,
}

/// The model of a candidate: id, name, module.
pub type CandidateView = (Text, Text, Text);

impl Candidate {
    /// The model of the candidate.
    pub open spec fn row(self) -> CandidateView {
        (self.id@, self.name@, self.module@)
    }
}

/// The models of candidates.
pub open spec fn candidate_rows(list: Seq<Candidate>) -> Seq<CandidateView> {
    list.map_values(|c: Candidate| c.row())
}

/// The id of a candidate occurs in a list.
pub open spec fn has_candidate(list: Seq<CandidateView>, id: Text) -> bool {
    exists|k: int| 0 <= k < list.len() && (#[trigger] list[k]).0 == id
}

/// The candidates of a list, each id once, at its first place.
pub open spec fn distinct_candidates(list: Seq<CandidateView>) -> Seq<CandidateView>
    decreases list.len(),
{
    if list.len() == 0 {
        Seq::empty()
    } else {
        let before = distinct_candidates(list.drop_last());
        if has_candidate(before, list.last().0) {
            before
        } else {
            before.push(list.last())
        }
    }
}

/// What a name may mean: first the item with that id, then those with that name, then those that
/// resemble it; each item once, and no more than `limit` of them.
pub open spec fn candidates_of(
    by_id: Option<CandidateView>,
    by_name: Seq<CandidateView>,
    similar: Seq<CandidateView>,
    limit: int,
) -> Seq<CandidateView> {
    let first = match by_id {
        Some(c) => seq![c],
        None => Seq::empty(),
    };
    if first.len() >= limit {
        first
    } else {
        first_of(distinct_candidates(first + by_name + similar), limit)
    }
}

/// Whether the id of a candidate occurs in a list.
fn has_id(list: &Vec<Candidate>, id: &str) -> (r: bool)
    ensures
        r == has_candidate(candidate_rows(list@), id@),
{
    let ghost all = candidate_rows(list@);
    let mut i: usize = 0;
    while i < list.len()
        invariant
            i <= list@.len() == all.len(),
            all == candidate_rows(list@),
            forall|k: int| 0 <= k < i ==> (#[trigger] all[k]).0 != id@,
        decreases list@.len() - i,
    {
        assert(all[i as int] == list@[i as int].row());
        if same(list[i].id.as_str(), id) {
            return true;
        }
        i = i + 1;
    }
    false
}

/// A copy of a candidate.
fn copy_of(c: &Candidate) -> (r: Candidate)
    ensures
        r.row() == c.row(),
{
    Candidate { id: c.id.clone(), name: c.name.clone(), module: c.module.clone() }
}

/// More candidates only append to the distinct ones.
proof fn lemma_distinct_grows(a: Seq<CandidateView>, b: Seq<CandidateView>)
    ensures
        distinct_candidates(a).len() <= distinct_candidates(a + b).len(),
        distinct_candidates(a + b).take(distinct_candidates(a).len() as int)
            == distinct_candidates(a),
    decreases b.len(),
{
    if b.len() == 0 {
        assert(a + b == a);
        assert(distinct_candidates(a).take(distinct_candidates(a).len() as int)
            == distinct_candidates(a));
    } else {
        lemma_distinct_grows(a, b.drop_last());
        assert((a + b).drop_last() == a + b.drop_last());
        assert((a + b).last() == b.last());
        assert(distinct_candidates(a + b).take(distinct_candidates(a).len() as int)
            == distinct_candidates(a + b.drop_last()).take(distinct_candidates(a).len() as int));
    }
}

/// Appends candidates that are new, until there are `limit` of them.
fn add_candidates(
    out: &mut Vec<Candidate>,
    more: &Vec<Candidate>,
    limit: usize,
    Ghost(seen): Ghost<Seq<CandidateView>>,
)
    requires
        candidate_rows(old(out)@) == first_of(distinct_candidates(seen), limit as int),
    ensures
        candidate_rows(final(out)@) == first_of(
            distinct_candidates(seen + candidate_rows(more@)),
            limit as int,
        ),
{
    let ghost all = candidate_rows(more@);
    let mut i: usize = 0;
    assert(seen + all.take(0) == seen);
    while i < more.len() && out.len() < limit
        invariant
            i <= more@.len() == all.len(),
            all == candidate_rows(more@),
            candidate_rows(out@) == first_of(
                distinct_candidates(seen + all.take(i as int)),
                limit as int,
            ),
        decreases more@.len() - i,
    {
        let ghost before = out@;
        let ghost part = seen + all.take(i as int);
        assert(candidate_rows(out@).len() == out@.len());
        assert(first_of(distinct_candidates(part), limit as int) == distinct_candidates(part));
        assert((seen + all.take(i + 1)).drop_last() == part);
        assert((seen + all.take(i + 1)).last() == more@[i as int].row());
        if !has_id(out, more[i].id.as_str()) {
            let c = copy_of(&more[i]);
            out.push(c);
            assert(candidate_rows(out@) == candidate_rows(before).push(c.row()));
        }
        i = i + 1;
    }
    proof {
        let part = seen + all.take(i as int);
        assert(candidate_rows(out@).len() == out@.len());
        assert(seen + all == part + all.skip(i as int));
        lemma_distinct_grows(part, all.skip(i as int));
        if i == more@.len() {
            assert(part == seen + all);
        } else {
            let whole = distinct_candidates(seen + all);
            let some = distinct_candidates(part);
            assert(some.len() >= limit);
            assert(whole.take(some.len() as int).take(limit as int) == whole.take(limit as int));
            assert(some.take(some.len() as int) == some);
        }
    }
}

/// What a name may mean: `by_id` is the item with that id, `by_name` are those with that name,
/// `similar` those that resemble it.
pub fn resolve_graph_candidates(
    by_id: Option<&Candidate>,
    by_name: &Vec<Candidate>,
    similar: &Vec<Candidate>,
    limit: usize,
) -> (r: Vec<Candidate>)
    ensures
        candidate_rows(r@) == candidates_of(
            match by_id {
                Some(c) => Some(c.row()),
                None => None,
            },
            candidate_rows(by_name@),
            candidate_rows(similar@),
            limit as int,
        ),
{
    let mut out: Vec<Candidate> = Vec::new();
    if let Some(c) = by_id {
        out.push(copy_of(c));
    }
    let ghost first = candidate_rows(out@);
    assert(first.len() == out@.len());
    assert(match by_id {
        Some(c) => first == seq![c.row()],
        None => first == Seq::<CandidateView>::empty(),
    });
    if out.len() >= limit {
        return out;
    }
    proof {
        assert(distinct_candidates(first) == first) by {
            if first.len() == 1 {
                assert(first.drop_last() == Seq::<CandidateView>::empty());
                assert(distinct_candidates(first.drop_last()) == Seq::<CandidateView>::empty());
            }
        }
    }
    add_candidates(&mut out, by_name, limit, Ghost(first));
    let ghost named = first + candidate_rows(by_name@);
    add_candidates(&mut out, similar, limit, Ghost(named));
    out
}

/// No item is a candidate twice.
pub proof fn law_candidates_are_distinct(list: Seq<CandidateView>, i: int, j: int)
    requires
        0 <= i < j < distinct_candidates(list).len(),
    ensures
        distinct_candidates(list)[i].0 != distinct_candidates(list)[j].0,
    decreases list.len(),
{
    let before = distinct_candidates(list.drop_last());
    if j < before.len() {
        law_candidates_are_distinct(list.drop_last(), i, j);
    }
}

/// How many candidates a name has at most.
pub const MAX_CANDIDATES: usize = 6;

/// A candidate as one of several.
pub open spec fn candidate_label() -> spec_fn(Candidate) -> Text {
    |c: Candidate| c.id@ + " ["@ + c.name@ + " | "@ + c.module@ + "]"@
}

/// The candidates, where there is a choice.
pub open spec fn choice_line(title: Text, list: Seq<Candidate>) -> Text {
    if list.len() > 1 {
        title + join_of(list.map_values(candidate_label()), " | "@) + "\n"@
    } else {
        Seq::empty()
    }
}

/// The ids of candidates.
pub open spec fn candidate_ids(list: Seq<Candidate>) -> Seq<Text> {
    list.map_values(|c: Candidate| c.id@)
}

/// The first start from which a path leads to a target, with the target and the path.
pub open spec fn chosen_path(
    edges: Seq<Step>,
    starts: Seq<Candidate>,
    targets: Seq<Text>,
    max_depth: nat,
) -> Option<(Candidate, Text, Seq<Step>)>
    decreases starts.len(),
{
    if starts.len() == 0 {
        None
    } else {
        match dependency_path(edges, starts.first().id@, targets, max_depth) {
            Some((target, path)) => Some((starts.first(), target, path)),
            None => chosen_path(edges, starts.drop_first(), targets, max_depth),
        }
    }
}

/// The name of the first candidate with an id.
pub open spec fn candidate_name(list: Seq<Candidate>, id: Text) -> Option<Text>
    decreases list.len(),
{
    if list.len() == 0 {
        None
    } else if list.first().id@ == id {
        Some(list.first().name@)
    } else {
        candidate_name(list.drop_first(), id)
    }
}

/// A step of a path in a report.
pub open spec fn step_line() -> spec_fn(nat, Step) -> Text {
    |n: nat, s: Step| decimal_of(n) + ". "@ + s.0 + " -["@ + s.1 + "]-> "@ + s.2 + "\n"@
}

/// The report on a path that was found.
pub open spec fn path_report(
    head: Text,
    start: Candidate,
    targets: Seq<Candidate>,
    target: Text,
    path: Seq<Step>,
) -> Text {
    let from = head + "\nResolved start: "@ + start.id@ + " ("@ + start.name@ + ")\n"@;
    let to = match candidate_name(targets, target) {
        Some(name) => from + "Resolved target: "@ + target + " ("@ + name + ")\n"@,
        None => from + "Resolved target: "@ + target + "\n"@,
    };
    to + "\nPath\n"@ + numbered_out(path, step_line())
}

/// What `explain_dependency_path` answers.
pub open spec fn path_reply(
    args: JsonView,
    starts: Seq<Candidate>,
    targets: Seq<Candidate>,
    edges: Seq<Step>,
) -> ReplyView {
    match (args.text_field("from"@), args.text_field("to"@)) {
        (None, _) => plain_refusal("missing `from`"@),
        (_, None) => plain_refusal("missing `to`"@),
        (Some(from), Some(to)) => {
            let depth = number_or_of(args, "depth"@, 4);
            let head = "Dependency path query: from `"@ + from + "` to `"@ + to + "` (depth <= "@
                + decimal_of(depth) + ")\n\n"@ + choice_line("From candidates: "@, starts)
                + choice_line("To candidates: "@, targets);
            if starts.len() == 0 {
                plain_refusal("no graph node found for `from`: "@ + from)
            } else if targets.len() == 0 {
                plain_refusal("no graph node found for `to`: "@ + to)
            } else {
                plain_answer(
                    match chosen_path(edges, starts, candidate_ids(targets), depth) {
                        None => head + "No dependency path found within depth limit."@,
                        Some((start, target, path)) => path_report(
                            head,
                            start,
                            targets,
                            target,
                            path,
                        ),
                    },
                )
            }
        },
    }
}

/// The candidates, where there is a choice.
fn write_choice(title: &str, list: &Vec<Candidate>) -> (r: String)
    ensures
        r@ == choice_line(title@, list@),
{
    if list.len() > 1 {
        let label = |c: &Candidate| -> (s: String)
            ensures
                s@ == candidate_label()(*c),
            {
                let mut s = c.id.clone();
                s.append(" [");
                s.append(c.name.as_str());
                s.append(" | ");
                s.append(c.module.as_str());
                s.append("]");
                s
            };
        let labels = texts_of(list, label, Ghost(candidate_label()));
        let mut s = title.to_owned();
        s.append(join(&labels, " | ").as_str());
        s.append("\n");
        s
    } else {
        String::new()
    }
}

/// The steps of a path in a report.
fn write_path(path: &Vec<Edge>) -> (r: String)
    ensures
        r@ == numbered_out(steps(path@), step_line()),
{
    let ghost all = steps(path@);
    let mut out = String::new();
    let mut i: usize = 0;
    while i < path.len()
        invariant
            i <= path@.len() == all.len(),
            all == steps(path@),
            out@ == numbered_out(all.take(i as int), step_line()),
        decreases path@.len() - i,
    {
        let mut s = count_text(i + 1);
        s.append(". ");
        s.append(path[i].from.as_str());
        s.append(" -[");
        s.append(path[i].relation.as_str());
        s.append("]-> ");
        s.append(path[i].to.as_str());
        s.append("\n");
        out.append(s.as_str());
        assert(all.take(i + 1).drop_last() == all.take(i as int));
        assert(all.take(i + 1).last() == path@[i as int].step());
        i = i + 1;
    }
    assert(all.take(i as int) == all);
    out
}

/// The name of the first candidate with an id.
fn name_of<'a>(list: &'a Vec<Candidate>, id: &str) -> (r: Option<&'a str>)
    ensures
        crate::json::opt_view(r) == candidate_name(list@, id@),
{
    let mut i: usize = 0;
    assert(list@.skip(0) == list@);
    while i < list.len()
        invariant
            i <= list@.len(),
            candidate_name(list@, id@) == candidate_name(list@.skip(i as int), id@),
        decreases list@.len() - i,
    {
        assert(list@.skip(i as int).first() == list@[i as int]);
        if same(list[i].id.as_str(), id) {
            return Some(list[i].name.as_str());
        }
        assert(list@.skip(i as int).drop_first() == list@.skip(i + 1));
        i = i + 1;
    }
    None
}

/// Answers by which path one item depends on another: `starts` and `targets` are what the two
/// names may mean.
pub fn tool_explain_dependency_path(
    args: &Json,
    starts: &Vec<Candidate>,
    targets: &Vec<Candidate>,
    edges: &Vec<Edge>,
) -> (r: Reply)
    ensures
        r@ == path_reply(args@, starts@, targets@, steps(edges@)),
{
    let from = match args.str_at("from") {
        Some(s) => s,
        None => {
            return Reply::refusal("missing `from`".to_owned());
        },
    };
    let to = match args.str_at("to") {
        Some(s) => s,
        None => {
            return Reply::refusal("missing `to`".to_owned());
        },
    };
    let depth = number_or(args, "depth", 4);
    if starts.len() == 0 {
        let mut why = "no graph node found for `from`: ".to_owned();
        why.append(from);
        return Reply::refusal(why);
    }
    if targets.len() == 0 {
        let mut why = "no graph node found for `to`: ".to_owned();
        why.append(to);
        return Reply::refusal(why);
    }
    let id = |c: &Candidate| -> (s: String)
        ensures
            s@ == c.id@,
        { c.id.clone() };
    let ids = texts_of(targets, id, Ghost(|c: Candidate| c.id@));
    assert(views(ids@) == candidate_ids(targets@));
    let mut out = "Dependency path query: from `".to_owned();
    out.append(from);
    out.append("` to `");
    out.append(to);
    out.append("` (depth <= ");
    out.append(decimal(depth).as_str());
    out.append(")\n\n");
    out.append(write_choice("From candidates: ", starts).as_str());
    out.append(write_choice("To candidates: ", targets).as_str());
    let mut i: usize = 0;
    assert(starts@.skip(0) == starts@);
    while i < starts.len()
        invariant
            i <= starts@.len(),
            views(ids@) == candidate_ids(targets@),
            starts@.len() > 0,
            targets@.len() > 0,
            args@.text_field("from"@) == Some(from@),
            args@.text_field("to"@) == Some(to@),
            depth as nat == number_or_of(args@, "depth"@, 4),
            out@ == "Dependency path query: from `"@ + from@ + "` to `"@ + to@ + "` (depth <= "@
                + decimal_of(depth as nat) + ")\n\n"@ + choice_line(
                "From candidates: "@,
                starts@,
            ) + choice_line("To candidates: "@, targets@),
            chosen_path(steps(edges@), starts@, candidate_ids(targets@), depth as nat)
                == chosen_path(
                steps(edges@),
                starts@.skip(i as int),
                candidate_ids(targets@),
                depth as nat,
            ),
        decreases starts@.len() - i,
    {
        assert(starts@.skip(i as int).first() == starts@[i as int]);
        match bfs_dependency_path(edges, starts[i].id.as_str(), &ids, depth) {
            Some((target, path)) => {
                out.append("\nResolved start: ");
                out.append(starts[i].id.as_str());
                out.append(" (");
                out.append(starts[i].name.as_str());
                out.append(")\n");
                out.append("Resolved target: ");
                out.append(target.as_str());
                match name_of(targets, target.as_str()) {
                    Some(name) => {
                        out.append(" (");
                        out.append(name);
                        out.append(")\n");
                    },
                    None => {
                        out.append("\n");
                    },
                }
                out.append("\nPath\n");
                out.append(write_path(&path).as_str());
                return Reply::answer(out);
            },
            None => {},
        }
        assert(starts@.skip(i as int).drop_first() == starts@.skip(i + 1));
        i = i + 1;
    }
    out.append("No dependency path found within depth limit.");
    Reply::answer(out)
}

/// A number as a single byte; of a larger number the lowest byte.
pub fn low_byte(n: u64) -> (r: u8)
    ensures
        r == n % 256,
{
    (n % 256) as u8
}

/// What is to be looked up for `query_graph`: the name, and how far.
pub fn graph_request(args: &Json) -> (r: Result<(String, u8), String>)
    ensures
        match args@.text_field("name"@) {
            None => r matches Err(e) && e@ == "missing `name`"@,
            Some(name) => r is Ok && r->Ok_0.0@ == name && r->Ok_0.1 as nat == number_or_of(
                args@,
                "depth"@,
                1,
            ) % 256,
        },
{
    match args.str_at("name") {
        None => Err("missing `name`".to_owned()),
        Some(s) => Ok((s.to_owned(), low_byte(number_or(args, "depth", 1)))),
    }
}

/// A node of the graph: its id and its name.
#[derive(Debug, Clone)]
pub struct Node {
    pub id: String,
    pub name: String,
}

/// The name of a node; of nodes with the same id the last one counts, and an id that no node has
/// stands for itself.
pub open spec fn node_name(nodes: Seq<Node>, id: Text) -> Text
    decreases nodes.len(),
{
    if nodes.len() == 0 {
        id
    } else if nodes.last().id@ == id {
        nodes.last().name@
    } else {
        node_name(nodes.drop_last(), id)
    }
}

/// An edge in the answer of `query_graph`.
pub open spec fn edge_line(nodes: Seq<Node>) -> spec_fn(Edge) -> Text {
    |e: Edge|
        "  -["@ + e.relation@ + "]-> "@ + node_name(nodes, e.to@) + " ("@ + e.to@ + ")\n"@
}

/// What `query_graph` answers: `root` is the unit that the name means, `edges` and `nodes` are what
/// lies around it.
pub open spec fn graph_reply(
    args: JsonView,
    root: Option<CodeUnit>,
    edges: Seq<Edge>,
    nodes: Seq<Node>,
) -> ReplyView {
    match args.text_field("name"@) {
        None => plain_refusal("missing `name`"@),
        Some(name) => match root {
            None => with_gap(
                plain_answer("No graph node found for `"@ + name + "`"@),
                "query_graph"@,
                name,
                "no graph root node found"@,
            ),
            Some(u) => if edges.len() == 0 {
                with_gap(
                    plain_answer(u.name@ + " ("@ + u.id@ + "): no graph neighbors"@),
                    "query_graph"@,
                    name,
                    "graph root has no neighbors for requested depth"@,
                )
            } else {
                plain_answer(
                    u.name@ + " ("@ + u.kind@ + ") -> "@ + decimal_of(edges.len())
                        + " relations:\n"@ + written_out(edges, edge_line(nodes)),
                )
            },
        },
    }
}

/// The name of a node.
fn name_of_node(nodes: &Vec<Node>, id: &str) -> (r: String)
    ensures
        r@ == node_name(nodes@, id@),
{
    let mut i = nodes.len();
    assert(nodes@.take(i as int) == nodes@);
    while i > 0
        invariant
            i <= nodes@.len(),
            node_name(nodes@, id@) == node_name(nodes@.take(i as int), id@),
        decreases i,
    {
        assert(nodes@.take(i as int).last() == nodes@[i - 1]);
        if same(nodes[i - 1].id.as_str(), id) {
            return nodes[i - 1].name.clone();
        }
        assert(nodes@.take(i as int).drop_last() == nodes@.take(i - 1));
        i = i - 1;
    }
    id.to_owned()
}

/// Answers with what lies around an item in the graph.
pub fn tool_query_graph(
    args: &Json,
    root: Option<&CodeUnit>,
    edges: &Vec<Edge>,
    nodes: &Vec<Node>,
) -> (r: Reply)
    ensures
        r@ == graph_reply(
            args@,
            match root {
                Some(u) => Some(*u),
                None => None,
            },
            edges@,
            nodes@,
        ),
{
    let name = match args.str_at("name") {
        Some(s) => s,
        None => {
            return Reply::refusal("missing `name`".to_owned());
        },
    };
    let u = match root {
        Some(u) => u,
        None => {
            let mut s = "No graph node found for `".to_owned();
            s.append(name);
            s.append("`");
            return Reply::answer(s).noting("query_graph", name, "no graph root node found");
        },
    };
    let mut out = u.name.clone();
    out.append(" (");
    if edges.len() == 0 {
        out.append(u.id.as_str());
        out.append("): no graph neighbors");
        return Reply::answer(out).noting(
            "query_graph",
            name,
            "graph root has no neighbors for requested depth",
        );
    }
    out.append(u.kind.as_str());
    out.append(") -> ");
    out.append(count_text(edges.len()).as_str());
    out.append(" relations:\n");
    let line = |e: &Edge| -> (s: String)
        ensures
            s@ == edge_line(nodes@)(*e),
        {
            let mut s = "  -[".to_owned();
            s.append(e.relation.as_str());
            s.append("]-> ");
            s.append(name_of_node(nodes, e.to.as_str()).as_str());
            s.append(" (");
            s.append(e.to.as_str());
            s.append(")\n");
            s
        };
    out.append(write_all(edges, line, Ghost(edge_line(nodes@))).as_str());
    Reply::answer(out)
}

/// A relation as it is compared: trimmed and written small.
pub open spec fn normal(s: Text) -> Text {
    lowercase_of(trim_of(s))
}

/// The normal form of `s` added to a set of relations, unless it is empty or among them.
pub open spec fn with_relation(set: Seq<Text>, s: Text) -> Seq<Text> {
    if normal(s).len() == 0 || set.contains(normal(s)) {
        set
    } else {
        set.push(normal(s))
    }
}

/// The set of the relations that texts name.
pub open spec fn relations_in(list: Seq<Text>) -> Seq<Text>
    decreases list.len(),
{
    if list.len() == 0 {
        Seq::empty()
    } else {
        with_relation(relations_in(list.drop_last()), list.last())
    }
}

/// The relations that a filter names: one as a text, or several as a list of texts; nothing else
/// names any.
pub open spec fn filter_of(v: Option<JsonView>) -> Seq<Text> {
    match v {
        Some(JsonView::Text(s)) => relations_in(seq![s]),
        Some(JsonView::List(items)) => relations_in(crate::json::texts_in(items)),
        _ => Seq::empty(),
    }
}

/// Adds the normal form of `s` to a set of relations.
fn add_relation(set: &mut Vec<String>, s: &str)
    ensures
        views(final(set)@) == with_relation(views(old(set)@), s@),
{
    let n = trim(s).as_str().to_lowercase();
    if chars_of(n.as_str()).len() > 0 && !holds(set, n.as_str()) {
        let ghost before = set@;
        set.push(n);
        assert(views(set@) == views(before).push(n@));
    }
}

/// The relations that a filter names; nothing where it names none.
pub fn parse_relation_filter(v: Option<&Json>) -> (r: Option<Vec<String>>)
    ensures
        ({
            let wanted = filter_of(
                match v {
                    Some(j) => Some(j@),
                    None => None,
                },
            );
            match r {
                Some(set) => wanted.len() > 0 && views(set@) == wanted,
                None => wanted.len() == 0,
            }
        }),
{
    let mut set: Vec<String> = Vec::new();
    assert(views(set@) == Seq::<Text>::empty());
    match v {
        Some(Json::Text(s)) => {
            add_relation(&mut set, s.as_str());
            assert(seq![s@].drop_last() == Seq::<Text>::empty());
            assert(relations_in(seq![s@].drop_last()) == Seq::<Text>::empty());
        },
        Some(Json::List(items)) => {
            let ghost all = Json::List(*items)@->List_0;
            proof {
                crate::json::lemma_list_view(*items);
            }
            assert(all.take(0) == Seq::<JsonView>::empty());
            let mut i: usize = 0;
            while i < items.len()
                invariant
                    i <= items@.len() == all.len(),
                    forall|k: int| 0 <= k < all.len() ==> #[trigger] all[k] == items@[k]@,
                    views(set@) == relations_in(crate::json::texts_in(all.take(i as int))),
                decreases items@.len() - i,
            {
                assert(all[i as int] == items@[i as int]@);
                assert(all.take(i + 1).drop_last() == all.take(i as int));
                let ghost before = crate::json::texts_in(all.take(i as int));
                if let Some(s) = items[i].as_str() {
                    add_relation(&mut set, s);
                    assert(before.push(s@).drop_last() == before);
                }
                i = i + 1;
            }
            assert(all.take(i as int) == all);
        },
        _ => {},
    }
    assert(views(set@).len() == set@.len());
    if set.len() == 0 {
        None
    } else {
        Some(set)
    }
}

/// The relations of a filter are distinct and none is empty.
pub proof fn law_filter_is_a_set(list: Seq<Text>)
    ensures
        relations_in(list).no_duplicates(),
        forall|i: int| 0 <= i < relations_in(list).len() ==> (#[trigger] relations_in(list)[i]).len() > 0,
    decreases list.len(),
{
    if list.len() > 0 {
        law_filter_is_a_set(list.drop_last());
    }
}

/// The risk of a change that affects `affected` items and touches `depends` items that the changed
/// one depends on; two of the latter weigh as much as one of the former.
pub open spec fn combined_risk(affected: int, depends: int) -> RiskLevel {
    let basis = affected + depends / 2;
    if basis <= 2 {
        RiskLevel::Low
    } else if basis <= 7 {
        RiskLevel::Medium
    } else {
        RiskLevel::High
    }
}

/// The risk of a change.
pub fn classify_risk(affected_len: usize, depends_len: usize) -> (r: RiskLevel)
    requires
        affected_len + depends_len / 2 <= usize::MAX,
    ensures
        r == combined_risk(affected_len as int, depends_len as int),
{
    let basis = affected_len + depends_len / 2;
    if basis <= 2 {
        RiskLevel::Low
    } else if basis <= 7 {
        RiskLevel::Medium
    } else {
        RiskLevel::High
    }
}

/// What is to be simulated: the item, the change, and how deep.
#[derive(Debug)]
pub struct SimulationRequest {
    pub item: String,
    pub change: String,
    pub depth: u8,
}

/// The simulation that the arguments of `simulate_change` ask for.
pub fn simulation_request(args: &Json) -> (r: Result<SimulationRequest, String>)
    ensures
        match args@.text_field("item"@) {
            None => r matches Err(e) && e@ == "missing `item`"@,
            Some(item) => {
                &&& r is Ok
                &&& r->Ok_0.item@ == item
                &&& r->Ok_0.change@ == text_or_of(args@, "change"@, "unspecified change"@)
                &&& r->Ok_0.depth as nat == number_or_of(args@, "depth"@, 1) % 256
            },
        },
{
    match args.str_at("item") {
        None => Err("missing `item`".to_owned()),
        Some(item) => Ok(
            SimulationRequest {
                item: item.to_owned(),
                change: text_or(args, "change", "unspecified change").to_owned(),
                depth: low_byte(number_or(args, "depth", 1)),
            },
        ),
    }
}

/// The items whose relation, written small, is in the filter.
pub open spec fn filtered(list: Seq<AffectedView>, filter: Seq<Text>) -> Seq<AffectedView>
    decreases list.len(),
{
    if list.len() == 0 {
        Seq::empty()
    } else if filter.contains(lowercase_of(list.last().1)) {
        filtered(list.drop_last(), filter).push(list.last())
    } else {
        filtered(list.drop_last(), filter)
    }
}

/// The report of a simulation narrowed to the relations of a filter, where there is one: `depends`
/// are the items that the changed one depends on.
pub open spec fn narrowed_report(
    result: SimulationResult,
    depends: Seq<AffectedView>,
    filter: Seq<Text>,
) -> Text {
    if filter.len() == 0 {
        report_of(
            result.changed_item@,
            rows(result.affected@),
            result.risk_level,
            views(result.warnings@),
        )
    } else {
        let left = filtered(rows(result.affected@), filter);
        let below = filtered(depends, filter);
        report_of(
            result.changed_item@,
            left,
            combined_risk(left.len() as int, below.len() as int),
            if left.len() == 0 && below.len() == 0 {
                views(result.warnings@).push(
                    "relation_filter removed all matches; broaden filter or omit it for full impact"@,
                )
            } else {
                views(result.warnings@)
            },
        )
    }
}

/// Filtering leaves no more than there was.
proof fn lemma_filtered_len(list: Seq<AffectedView>, filter: Seq<Text>)
    ensures
        filtered(list, filter).len() <= list.len(),
    decreases list.len(),
{
    if list.len() > 0 {
        lemma_filtered_len(list.drop_last(), filter);
    }
}

/// The items whose relation is in the filter.
fn filter_items(list: &Vec<AffectedItem>, filter: &Vec<String>) -> (r: Vec<AffectedItem>)
    ensures
        rows(r@) == filtered(rows(list@), views(filter@)),
        r@.len() <= list@.len(),
{
    let ghost all = rows(list@);
    let mut out: Vec<AffectedItem> = Vec::new();
    let mut i: usize = 0;
    assert(rows(out@) == filtered(all.take(0), views(filter@)));
    while i < list.len()
        invariant
            i <= list@.len() == all.len(),
            all == rows(list@),
            rows(out@) == filtered(all.take(i as int), views(filter@)),
        decreases list@.len() - i,
    {
        let ghost before = out@;
        assert(all.take(i + 1).drop_last() == all.take(i as int));
        assert(all.take(i + 1).last() == list@[i as int].row());
        if holds(filter, list[i].relation.as_str().to_lowercase().as_str()) {
            let a = AffectedItem {
                name: list[i].name.clone(),
                relation: list[i].relation.clone(),
                impact: list[i].impact.clone(),
            };
            out.push(a);
            assert(rows(out@) == rows(before).push(a.row()));
        }
        i = i + 1;
    }
    proof {
        assert(all.take(i as int) == all);
        lemma_filtered_len(all, views(filter@));
        assert(rows(out@).len() == out@.len());
    }
    out
}

/// Answers with a simulation, narrowed to the relations that the arguments name: `depends_on` are
/// the items that the changed one depends on.
pub fn tool_simulate_change(args: &Json, result: SimulationResult, depends_on: &Vec<AffectedItem>)
    -> (r: Reply)
    requires
        result.affected@.len() + depends_on@.len() / 2 <= usize::MAX,
    ensures
        r@ == match args@.text_field("item"@) {
            None => plain_refusal("missing `item`"@),
            Some(_) => plain_answer(
                narrowed_report(
                    result,
                    rows(depends_on@),
                    filter_of(args@.field("relation_filter"@)),
                ),
            ),
        },
{
    if args.str_at("item").is_none() {
        return Reply::refusal("missing `item`".to_owned());
    }
    let ghost wanted = filter_of(args@.field("relation_filter"@));
    match parse_relation_filter(args.get("relation_filter")) {
        None => Reply::answer(result.render()),
        Some(filter) => {
            let left = filter_items(&result.affected, &filter);
            let below = filter_items(depends_on, &filter);
            assert(rows(left@).len() == left@.len());
            assert(rows(below@).len() == below@.len());
            let risk = classify_risk(left.len(), below.len());
            let mut warnings = result.warnings;
            if left.len() == 0 && below.len() == 0 {
                let ghost before = warnings@;
                warnings.push(
                    "relation_filter removed all matches; broaden filter or omit it for full impact".to_owned(),
                );
                assert(views(warnings@) == views(before).push(
                    "relation_filter removed all matches; broaden filter or omit it for full impact"@,
                ));
            }
            let narrowed = SimulationResult {
                changed_item: result.changed_item,
                affected: left,
                risk_level: risk,
                warnings,
            };
            Reply::answer(narrowed.render())
        },
    }
}

/// What is distinct of a longer list: an item whose id is new comes last, any other is passed over.
pub proof fn law_new_ids_are_appended(list: Seq<CandidateView>, c: CandidateView)
    ensures
        has_candidate(distinct_candidates(list), c.0) ==> distinct_candidates(list.push(c))
            == distinct_candidates(list),
        !has_candidate(distinct_candidates(list), c.0) ==> distinct_candidates(list.push(c))
            == distinct_candidates(list).push(c),
        has_candidate(distinct_candidates(list), c.0) <==> exists|k: int|
            0 <= k < list.len() && (#[trigger] list[k]).0 == c.0,
{
    assert(list.push(c).drop_last() == list);
    lemma_distinct_keeps_ids(list, c.0);
}

/// An id occurs among the distinct items just where it occurs in the list.
proof fn lemma_distinct_keeps_ids(list: Seq<CandidateView>, id: Text)
    ensures
        has_candidate(distinct_candidates(list), id) <==> has_candidate(list, id),
        forall|i: int|
            0 <= i < distinct_candidates(list).len() ==> list.contains(
                #[trigger] distinct_candidates(list)[i],
            ),
    decreases list.len(),
{
    if list.len() > 0 {
        let start = list.drop_last();
        let before = distinct_candidates(start);
        let after = distinct_candidates(list);
        lemma_distinct_keeps_ids(start, id);
        if has_candidate(after, id) {
            let k = choose|k: int| 0 <= k < after.len() && (#[trigger] after[k]).0 == id;
            if k < before.len() {
                assert(before[k] == after[k]);
                let m = choose|m: int| 0 <= m < start.len() && (#[trigger] start[m]).0 == id;
                assert(list[m].0 == id);
            } else {
                assert(list[list.len() - 1].0 == id);
            }
        }
        if has_candidate(list, id) {
            let m = choose|m: int| 0 <= m < list.len() && (#[trigger] list[m]).0 == id;
            if m < start.len() {
                assert(start[m].0 == id);
            }
            if has_candidate(before, id) {
                let k = choose|k: int| 0 <= k < before.len() && (#[trigger] before[k]).0 == id;
                assert(after[k].0 == id);
            } else {
                assert(after[before.len() as int].0 == id);
            }
        }
        assert forall|i: int| 0 <= i < after.len() implies list.contains(#[trigger] after[i]) by {
            if i < before.len() {
                assert(after[i] == before[i]);
                let m = choose|m: int| 0 <= m < start.len() && start[m] == before[i];
                assert(list[m] == after[i]);
            } else {
                assert(list[list.len() - 1] == after[i]);
            }
        }
    }
}

/// The item with the id itself is the first that a name may mean. While there is room, every item
/// with that name and every one that resembles it is offered, and nothing else ever is; nor are
/// there more than `limit`.
pub proof fn law_name_means_every_match(
    by_id: Option<CandidateView>,
    by_name: Seq<CandidateView>,
    similar: Seq<CandidateView>,
    limit: int,
    c: CandidateView,
)
    requires
        limit > 0,
    ensures
        ({
            let offered = candidates_of(by_id, by_name, similar, limit);
            &&& by_id == Some(c) ==> offered.len() > 0 && offered[0] == c
            &&& offered.len() <= limit
            &&& offered.len() < limit && (by_name.contains(c) || similar.contains(c))
                ==> has_candidate(offered, c.0)
            &&& offered.contains(c) ==> by_id == Some(c) || by_name.contains(c) || similar.contains(c)
        }),
{
    let first = match by_id {
        Some(d) => seq![d],
        None => Seq::empty(),
    };
    let all = first + by_name + similar;
    let distinct = distinct_candidates(all);
    let offered = candidates_of(by_id, by_name, similar, limit);
    lemma_distinct_keeps_ids(all, c.0);
    if by_id is Some {
        assert(all == first + (by_name + similar));
        lemma_distinct_grows(first, by_name + similar);
        let none = Seq::<CandidateView>::empty();
        assert(first.drop_last() == none);
        assert(distinct_candidates(none) == none);
        assert(!has_candidate(none, first.last().0));
        assert(none.push(first.last()) == first);
        assert(distinct.take(1)[0] == first[0]);
        if first.len() < limit {
            assert(offered[0] == distinct[0]);
        }
    }
    if by_name.contains(c) {
        let k = choose|k: int| 0 <= k < by_name.len() && by_name[k] == c;
        assert(all[first.len() + k] == c);
    }
    if similar.contains(c) {
        let k = choose|k: int| 0 <= k < similar.len() && similar[k] == c;
        assert(all[first.len() + by_name.len() + k] == c);
    }
    if offered.contains(c) {
        let k = choose|k: int| 0 <= k < offered.len() && offered[k] == c;
        if first.len() < limit {
            assert(offered[k] == distinct[k]);
            let m = choose|m: int| 0 <= m < all.len() && all[m] == c;
            if m < first.len() {
                assert(first[m] == c);
            } else if m < first.len() + by_name.len() {
                assert(by_name[m - first.len()] == c);
            } else {
                assert(similar[m - first.len() - by_name.len()] == c);
            }
        }
    }
}

/// The first start that has a path to a target is the one that is explained; where none has one,
/// none is.
pub proof fn law_first_start_with_a_path_is_chosen(
    edges: Seq<Step>,
    starts: Seq<Candidate>,
    targets: Seq<Text>,
    max_depth: nat,
    i: int,
)
    ensures
        0 <= i < starts.len() && dependency_path(edges, starts[i].id@, targets, max_depth) is Some && (
        forall|k: int|
            0 <= k < i ==> dependency_path(edges, (#[trigger] starts[k]).id@, targets, max_depth) is None)
            ==> chosen_path(edges, starts, targets, max_depth) == match dependency_path(
            edges,
            starts[i].id@,
            targets,
            max_depth,
        ) {
            Some((target, path)) => Some((starts[i], target, path)),
            None => None,
        },
        (forall|k: int|
            0 <= k < starts.len() ==> dependency_path(
                edges,
                (#[trigger] starts[k]).id@,
                targets,
                max_depth,
            ) is None) ==> chosen_path(edges, starts, targets, max_depth) is None,
    decreases starts.len(),
{
    if starts.len() > 0 {
        let rest = starts.drop_first();
        assert(starts[0] == starts.first());
        assert forall|k: int| 0 <= k < rest.len() implies #[trigger] rest[k] == starts[k + 1] by {}
        law_first_start_with_a_path_is_chosen(edges, rest, targets, max_depth, i - 1);
    }
}

/// A path is told from the start that was found to the target, step by step, each under its number.
#[verifier::rlimit(60)]
pub proof fn law_path_is_told_step_by_step(
    head: Text,
    start: Candidate,
    targets: Seq<Candidate>,
    target: Text,
    path: Seq<Step>,
    i: int,
)
    ensures
        ({
            let report = path_report(head, start, targets, target, path);
            &&& head.is_prefix_of(report)
            &&& contains_text(
                report,
                "Resolved start: "@ + start.id@ + " ("@ + start.name@ + ")\n"@,
            )
            &&& contains_text(report, "Resolved target: "@ + target)
            &&& 0 <= i < path.len() ==> contains_text(
                report,
                decimal_of((i + 1) as nat) + ". "@ + path[i].0 + " -["@ + path[i].1 + "]-> "@
                    + path[i].2 + "\n"@,
            )
        }),
{
    let report = path_report(head, start, targets, target, path);
    let s = "Resolved start: "@ + start.id@ + " ("@ + start.name@ + ")\n"@;
    let g = "Resolved target: "@ + target;
    let e = match candidate_name(targets, target) {
        Some(name) => " ("@ + name + ")\n"@,
        None => "\n"@,
    };
    let p = numbered_out(path, step_line());
    let gap = seq!['\n'];
    assert("\nResolved start: "@ == gap + "Resolved start: "@) by {
        reveal_strlit("\nResolved start: ");
        reveal_strlit("Resolved start: ");
    }
    let end = e + "\nPath\n"@ + p;
    assert(report == (head + gap) + s + (g + end));
    lemma_contains_middle(head + gap, s, g + end);
    assert(report == (head + gap + s) + g + end);
    lemma_contains_middle(head + gap + s, g, end);
    assert(report == head + (gap + s + g + end));
    if 0 <= i < path.len() {
        lemma_numbered_out_holds(path, step_line(), i);
        assert(report == (head + gap + s + g + e + "\nPath\n"@) + p);
        lemma_contains_half(
            head + gap + s + g + e + "\nPath\n"@,
            p,
            step_line()((i + 1) as nat, path[i]),
        );
    }
}

/// A path is looked for between what the two names may mean, four steps deep where the arguments do
/// not say. A name that means nothing is refused, and that there is no path is told.
#[verifier::rlimit(60)]
pub proof fn law_path_is_looked_for_between_the_names(
    args: JsonView,
    from: Text,
    to: Text,
    starts: Seq<Candidate>,
    targets: Seq<Candidate>,
    edges: Seq<Step>,
    i: int,
)
    requires
        args.text_field("from"@) == Some(from),
        args.text_field("to"@) == Some(to),
    ensures
        ({
            let r = path_reply(args, starts, targets, edges);
            let depth = match args.number_field("depth"@) {
                Some(n) => n,
                None => 4,
            };
            let found = chosen_path(edges, starts, candidate_ids(targets), depth);
            &&& candidate_ids(targets).len() == targets.len()
            &&& 0 <= i < targets.len() ==> candidate_ids(targets)[i] == targets[i].id@
            &&& r.gap is None
            &&& starts.len() == 0 ==> r.result == Err::<Text, Text>(
                "no graph node found for `from`: "@ + from,
            )
            &&& starts.len() > 0 && targets.len() == 0 ==> r.result == Err::<Text, Text>(
                "no graph node found for `to`: "@ + to,
            )
            &&& starts.len() > 0 && targets.len() > 0 ==> r.result is Ok && match found {
                None => "No dependency path found within depth limit."@.is_suffix_of(
                    r.result->Ok_0,
                ),
                Some((start, target, path)) => contains_text(
                    r.result->Ok_0,
                    "Resolved start: "@ + start.id@ + " ("@ + start.name@ + ")\n"@,
                ) && contains_text(r.result->Ok_0, "Resolved target: "@ + target) && (0 <= i
                    < path.len() ==> contains_text(
                    r.result->Ok_0,
                    decimal_of((i + 1) as nat) + ". "@ + path[i].0 + " -["@ + path[i].1 + "]-> "@
                        + path[i].2 + "\n"@,
                )),
            }
        }),
{
    let depth = number_or_of(args, "depth"@, 4);
    let head = "Dependency path query: from `"@ + from + "` to `"@ + to + "` (depth <= "@
        + decimal_of(depth) + ")\n\n"@ + choice_line("From candidates: "@, starts) + choice_line(
        "To candidates: "@,
        targets,
    );
    let found = chosen_path(edges, starts, candidate_ids(targets), depth);
    if starts.len() > 0 && targets.len() > 0 {
        match found {
            None => {
                let tail = "No dependency path found within depth limit."@;
                assert((head + tail).skip(head.len() as int) == tail);
            },
            Some((start, target, path)) => {
                law_path_is_told_step_by_step(head, start, targets, target, path, i);
            },
        }
    }
}

/// Where a name may mean several items, every one of them is named in the answer.
#[verifier::rlimit(60)]
pub proof fn law_every_candidate_is_named(
    args: JsonView,
    from: Text,
    to: Text,
    starts: Seq<Candidate>,
    targets: Seq<Candidate>,
    edges: Seq<Step>,
    i: int,
)
    requires
        args.text_field("from"@) == Some(from),
        args.text_field("to"@) == Some(to),
        starts.len() > 0,
        targets.len() > 0,
    ensures
        ({
            let r = path_reply(args, starts, targets, edges);
            &&& starts.len() > 1 && 0 <= i < starts.len() ==> contains_text(
                r.result->Ok_0,
                starts[i].id@ + " ["@ + starts[i].name@ + " | "@ + starts[i].module@ + "]"@,
            )
            &&& targets.len() > 1 && 0 <= i < targets.len() ==> contains_text(
                r.result->Ok_0,
                targets[i].id@ + " ["@ + targets[i].name@ + " | "@ + targets[i].module@ + "]"@,
            )
        }),
{
    let depth = number_or_of(args, "depth"@, 4);
    let first = "Dependency path query: from `"@ + from + "` to `"@ + to + "` (depth <= "@
        + decimal_of(depth) + ")\n\n"@;
    let choice_a = choice_line("From candidates: "@, starts);
    let choice_b = choice_line("To candidates: "@, targets);
    let head = first + choice_a + choice_b;
    let text = path_reply(args, starts, targets, edges).result->Ok_0;
    let tail = text.skip(head.len() as int);
    assert(head.is_prefix_of(text)) by {
        match chosen_path(edges, starts, candidate_ids(targets), depth) {
            None => {
                assert(text == head + "No dependency path found within depth limit."@);
            },
            Some((start, target, path)) => {
                law_path_is_told_step_by_step(head, start, targets, target, path, 0);
            },
        }
    }
    assert(text == head + tail);
    if starts.len() > 1 && 0 <= i < starts.len() {
        lemma_choice_holds("From candidates: "@, starts, i);
        let label = candidate_label()(starts[i]);
        lemma_contains_half(first, choice_a, label);
        lemma_contains_half(first + choice_a, choice_b, label);
        lemma_contains_half(head, tail, label);
    }
    if targets.len() > 1 && 0 <= i < targets.len() {
        lemma_choice_holds("To candidates: "@, targets, i);
        let label = candidate_label()(targets[i]);
        lemma_contains_half(first + choice_a, choice_b, label);
        lemma_contains_half(head, tail, label);
    }
}

/// Where there is a choice, every candidate is named.
proof fn lemma_choice_holds(title: Text, list: Seq<Candidate>, i: int)
    requires
        list.len() > 1,
        0 <= i < list.len(),
    ensures
        contains_text(choice_line(title, list), candidate_label()(list[i])),
{
    let labels = list.map_values(candidate_label());
    lemma_join_holds(labels, " | "@, i);
    lemma_contains_half(title, join_of(labels, " | "@), labels[i]);
    lemma_contains_half(title + join_of(labels, " | "@), "\n"@, labels[i]);
}

/// The target of a path is told by the name of the first candidate with its id.
pub proof fn law_target_has_the_name_of_its_candidate(list: Seq<Candidate>, i: int)
    requires
        0 <= i < list.len(),
        forall|k: int| 0 <= k < i ==> (#[trigger] list[k]).id@ != list[i].id@,
    ensures
        candidate_name(list, list[i].id@) == Some(list[i].name@),
    decreases list.len(),
{
    if i > 0 {
        let rest = list.drop_first();
        assert(list[0].id@ != list[i].id@);
        assert forall|k: int| 0 <= k < rest.len() implies #[trigger] rest[k] == list[k + 1] by {}
        law_target_has_the_name_of_its_candidate(rest, i - 1);
    }
}

/// A node added with an id names that id from then on and no other; an id without a node is its own
/// name.
pub proof fn law_last_node_names_its_id(nodes: Seq<Node>, node: Node, id: Text)
    ensures
        node_name(nodes.push(node), node.id@) == node.name@,
        id != node.id@ ==> node_name(nodes.push(node), id) == node_name(nodes, id),
        node_name(Seq::empty(), id) == id,
{
    assert(nodes.push(node).drop_last() == nodes);
}

/// Every relation of an item is told, with the name and the id that it leads to, behind their count;
/// where there is no such item or no relation, the gap is recorded for the session.
#[verifier::rlimit(60)]
pub proof fn law_every_relation_is_told(
    args: JsonView,
    name: Text,
    root: Option<CodeUnit>,
    edges: Seq<Edge>,
    nodes: Seq<Node>,
    i: int,
)
    requires
        args.text_field("name"@) == Some(name),
    ensures
        ({
            let r = graph_reply(args, root, edges, nodes);
            &&& r.result is Ok
            &&& r.gap is Some <==> root is None || edges.len() == 0
            &&& r.gap is Some ==> r.gap->0.tool == "query_graph"@ && r.gap->0.query == name
                && r.gap->0.in_session
            &&& root is None ==> contains_text(r.result->Ok_0, name)
            &&& root is Some ==> root->0.name@.is_prefix_of(r.result->Ok_0)
            &&& root is Some && edges.len() > 0 ==> contains_text(
                r.result->Ok_0,
                decimal_of(edges.len()) + " relations:\n"@,
            )
            &&& root is Some && 0 <= i < edges.len() ==> contains_text(
                r.result->Ok_0,
                "-["@ + edges[i].relation@ + "]-> "@ + node_name(nodes, edges[i].to@) + " ("@
                    + edges[i].to@ + ")\n"@,
            )
        }),
{
    match root {
        None => {
            lemma_contains_middle("No graph node found for `"@, name, "`"@);
        },
        Some(u) => {
            let text = graph_reply(args, root, edges, nodes).result->Ok_0;
            if edges.len() > 0 {
                let head = u.name@ + " ("@ + u.kind@ + ") -> "@;
                let count = decimal_of(edges.len()) + " relations:\n"@;
                let tail = written_out(edges, edge_line(nodes));
                assert(text == head + count + tail);
                lemma_contains_middle(head, count, tail);
                assert(text == u.name@ + (" ("@ + u.kind@ + ") -> "@ + count + tail));
                if 0 <= i < edges.len() {
                    lemma_written_out_holds(edges, edge_line(nodes), i);
                    let line = edge_line(nodes)(edges[i]);
                    lemma_contains_half(head + count, tail, line);
                    let part = "-["@ + edges[i].relation@ + "]-> "@ + node_name(nodes, edges[i].to@)
                        + " ("@ + edges[i].to@ + ")\n"@;
                    reveal_strlit("  -[");
                    reveal_strlit("-[");
                    assert("  -["@ == seq![' ', ' '] + "-["@);
                    assert(line == seq![' ', ' '] + part);
                    lemma_contains_itself(part);
                    lemma_contains_half(seq![' ', ' '], part, part);
                    lemma_contains_through(text, line, part);
                }
            } else {
                assert(text == u.name@ + (" ("@ + u.id@ + "): no graph neighbors"@));
            }
        },
    }
}

/// A filter holds the small and trimmed form of every text that it names, and nothing else; a single
/// text is a filter like a list of that text.
pub proof fn law_filter_holds_what_is_named(list: Seq<Text>, r: Text, s: Text)
    ensures
        relations_in(list).contains(r) <==> r.len() > 0 && exists|k: int|
            0 <= k < list.len() && r == lowercase_of(trim_of(#[trigger] list[k])),
        filter_of(Some(JsonView::Text(s))) == relations_in(seq![s]),
        filter_of(None).len() == 0,
    decreases list.len(),
{
    if list.len() > 0 {
        let start = list.drop_last();
        let before = relations_in(start);
        let after = relations_in(list);
        law_filter_holds_what_is_named(start, r, s);
        let last = lowercase_of(trim_of(list.last()));
        assert(list[list.len() - 1] == list.last());
        if after.contains(r) {
            let k = choose|k: int| 0 <= k < after.len() && after[k] == r;
            if k < before.len() {
                assert(before[k] == r);
                let m = choose|m: int|
                    0 <= m < start.len() && r == lowercase_of(trim_of(#[trigger] start[m]));
                assert(r == lowercase_of(trim_of(list[m])));
            } else {
                assert(r == last);
            }
        }
        if r.len() > 0 && exists|k: int|
            0 <= k < list.len() && r == lowercase_of(trim_of(#[trigger] list[k])) {
            let m = choose|m: int|
                0 <= m < list.len() && r == lowercase_of(trim_of(#[trigger] list[m]));
            if m < start.len() {
                assert(r == lowercase_of(trim_of(start[m])));
                let k = choose|k: int| 0 <= k < before.len() && before[k] == r;
                assert(after[k] == r);
            } else if before.contains(r) {
            } else {
                assert(after[before.len() as int] == r);
            }
        }
    }
}

/// Two of the items that the changed one depends on weigh as much as one that depends on it: a
/// change is of low risk up to a weight of two, and of high risk from eight on.
pub proof fn law_two_below_weigh_as_one_above(affected: int, depends: int)
    requires
        affected >= 0,
        depends >= 0,
    ensures
        combined_risk(affected, depends) == RiskLevel::Low <==> 2 * affected + depends < 6,
        combined_risk(affected, depends) == RiskLevel::High <==> 2 * affected + depends >= 16,
{
}

/// A filter leaves an affected item where it holds the small form of its relation, and drops it
/// where it does not; the order stays.
pub proof fn law_filter_goes_by_the_relation(list: Seq<AffectedView>, filter: Seq<Text>, a: AffectedView)
    ensures
        filter.contains(lowercase_of(a.1)) ==> filtered(list.push(a), filter) == filtered(
            list,
            filter,
        ).push(a),
        !filter.contains(lowercase_of(a.1)) ==> filtered(list.push(a), filter) == filtered(
            list,
            filter,
        ),
        filtered(Seq::empty(), filter).len() == 0,
{
    assert(list.push(a).drop_last() == list);
}

/// Without a filter a simulation is reported as it is. With one, only what it leaves is reported and
/// weighed, and where it leaves nothing, neither above nor below, that is warned of last.
pub proof fn law_narrowed_report_weighs_what_is_left(
    result: SimulationResult,
    depends: Seq<AffectedView>,
    filter: Seq<Text>,
)
    ensures
        ({
            let left = filtered(rows(result.affected@), filter);
            let below = filtered(depends, filter);
            let told = views(result.warnings@);
            &&& filter.len() == 0 ==> narrowed_report(result, depends, filter) == report_of(
                result.changed_item@,
                rows(result.affected@),
                result.risk_level,
                told,
            )
            &&& filter.len() > 0 && left.len() + below.len() > 0 ==> narrowed_report(
                result,
                depends,
                filter,
            ) == report_of(
                result.changed_item@,
                left,
                combined_risk(left.len() as int, below.len() as int),
                told,
            )
            &&& filter.len() > 0 && left.len() + below.len() == 0 ==> narrowed_report(
                result,
                depends,
                filter,
            ) == report_of(
                result.changed_item@,
                Seq::empty(),
                RiskLevel::Low,
                told.push(
                    "relation_filter removed all matches; broaden filter or omit it for full impact"@,
                ),
            )
        }),
{
    let left = filtered(rows(result.affected@), filter);
    if left.len() == 0 {
        assert(left == Seq::<AffectedView>::empty());
    }
}

} // verus!
