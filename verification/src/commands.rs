//! What the commands answer.

use crate::json::{
    add_field, integer, integer_view, law_first_entry_counts, list, no_entries, no_fields, object, text, views_of, Json,
    JsonView,
};
use crate::lists::{lemma_written_out_holds, write_all, written_out};
use crate::model::RelationType;
use crate::numbers::{count_text, decimal_of, signed_decimal, signed_decimal_of};
use crate::paths::Edge;
use crate::status::{bytes_text, format_bytes, HealthRow};
use crate::text::{
    blank, contains_text, is_blank, lemma_contains_half, lemma_contains_middle, Text,
};
use vstd::prelude::*;

verus! {

/// The relation that a name asks for: pairs, where it is the name of none.
pub fn relation_or_pairs(name: &str) -> (r: RelationType)
    ensures
        r.name() == name@ || (r == RelationType::Pairs && forall|rel: RelationType|
            (#[trigger] rel.name()) != name@),
{
    match RelationType::from_name(name) {
        Some(rel) => rel,
        None => RelationType::Pairs,
    }
}

/// The answer to adding an edge.
pub fn edge_added(relation: &str, from: &str, to: &str) -> (r: String)
    ensures
        r@ == "added "@ + relation@ + " edge: "@ + from@ + " -> "@ + to@ + "\n"@,
{
    let mut s = "added ".to_owned();
    s.append(relation);
    s.append(" edge: ");
    s.append(from);
    s.append(" -> ");
    s.append(to);
    s.append("\n");
    s
}

/// The answer to bringing the graph up to date.
pub fn graph_synced(nodes: usize, edges: usize) -> (r: String)
    ensures
        r@ == "graph synced: "@ + decimal_of(nodes as nat) + " nodes, "@ + decimal_of(edges as nat)
            + " inferred edges\n"@,
{
    let mut s = "graph synced: ".to_owned();
    s.append(count_text(nodes).as_str());
    s.append(" nodes, ");
    s.append(count_text(edges).as_str());
    s.append(" inferred edges\n");
    s
}

/// The part of the graph around a unit.
#[derive(Debug, Clone)]
pub struct Surroundings {
    pub root: String,
    pub nodes: usize,
    pub edges: Vec<Edge>,
}

/// An edge in an answer.
pub open spec fn edge_line() -> spec_fn(Edge) -> Text {
    |e: Edge| e.from@ + " -["@ + e.relation@ + "]-> "@ + e.to@ + "\n"@
}

/// What is told of the part of the graph around the unit `name`.
pub open spec fn surroundings_text(name: Text, around: Option<Surroundings>) -> Text {
    match around {
        Some(a) => "subgraph root: "@ + a.root@ + "\nnodes: "@ + decimal_of(a.nodes as nat)
            + "\nedges: "@ + decimal_of(a.edges@.len()) + "\n"@ + written_out(
            a.edges@,
            edge_line(),
        ),
        None => "no unit found for "@ + name + "\n"@,
    }
}

/// The answer to a query of the graph. There are no surroundings where there is no such unit.
pub fn graph_query(name: &str, around: Option<&Surroundings>) -> (r: String)
    ensures
        r@ == surroundings_text(
            name@,
            match around {
                Some(a) => Some(*a),
                None => None,
            },
        ),
{
    match around {
        Some(a) => {
            let line = |e: &Edge| -> (t: String)
                ensures
                    t@ == edge_line()(*e),
                {
                    let mut s = e.from.clone();
                    s.append(" -[");
                    s.append(e.relation.as_str());
                    s.append("]-> ");
                    s.append(e.to.as_str());
                    s.append("\n");
                    s
                };
            let mut s = "subgraph root: ".to_owned();
            s.append(a.root.as_str());
            s.append("\nnodes: ");
            s.append(count_text(a.nodes).as_str());
            s.append("\nedges: ");
            s.append(count_text(a.edges.len()).as_str());
            s.append("\n");
            s.append(write_all(&a.edges, line, Ghost(edge_line())).as_str());
            s
        },
        None => {
            let mut s = "no unit found for ".to_owned();
            s.append(name);
            s.append("\n");
            s
        },
    }
}

/// The fields of an answer that something was done to the entry `id`.
pub open spec fn done_fields(action: Text, id: int) -> Seq<(Text, JsonView)> {
    no_fields().push(("ok"@, JsonView::Bool(true))).push(("action"@, JsonView::Text(action))).push(
        ("id"@, integer_view(id)),
    )
}

/// The answer that something was done to the entry `id`.
pub fn action_done(action: &str, id: i64) -> (r: Json)
    ensures
        r@ == JsonView::Object(done_fields(action@, id as int)),
{
    let mut e = no_entries();
    add_field(&mut e, "ok", Json::Bool(true));
    add_field(&mut e, "action", text(action));
    add_field(&mut e, "id", integer(id));
    object(e)
}

/// The answer to adding a pattern.
pub fn pattern_added(id: i64, name: &str, intent: &str) -> (r: Json)
    ensures
        r@ == JsonView::Object(
            done_fields("add"@, id as int).push(("name"@, JsonView::Text(name@))).push(
                ("intent"@, JsonView::Text(intent@)),
            ),
        ),
{
    let mut e = no_entries();
    add_field(&mut e, "ok", Json::Bool(true));
    add_field(&mut e, "action", text("add"));
    add_field(&mut e, "id", integer(id));
    add_field(&mut e, "name", text(name));
    add_field(&mut e, "intent", text(intent));
    object(e)
}

/// The answer to adding something that one field describes.
pub fn entry_added(id: i64, field: &str, value: &str) -> (r: Json)
    ensures
        r@ == JsonView::Object(
            done_fields("add"@, id as int).push((field@, JsonView::Text(value@))),
        ),
{
    let mut e = no_entries();
    add_field(&mut e, "ok", Json::Bool(true));
    add_field(&mut e, "action", text("add"));
    add_field(&mut e, "id", integer(id));
    add_field(&mut e, field, text(value));
    object(e)
}

/// How one pattern fares.
pub open spec fn standing_json(h: HealthRow) -> JsonView {
    JsonView::Object(
        no_fields().push(("id"@, integer_view(h.id as int))).push(
            ("name"@, JsonView::Text(h.name@)),
        ).push(("use_count"@, integer_view(h.use_count as int))).push(
            ("reverted_count"@, integer_view(h.reverted_count as int)),
        ).push(("survival_rate"@, JsonView::Float(h.survival_rate.number@))),
    )
}

/// The answer to asking how the patterns fare.
pub fn pattern_health(rows: &Vec<HealthRow>) -> (r: Json)
    ensures
        r@ == JsonView::Object(
            no_fields().push(("ok"@, JsonView::Bool(true))).push(
                ("action"@, JsonView::Text("health"@)),
            ).push(
                ("patterns"@, JsonView::List(rows@.map_values(|h: HealthRow| standing_json(h)))),
            ),
        ),
{
    let ghost all = rows@.map_values(|h: HealthRow| standing_json(h));
    let mut out: Vec<Json> = Vec::new();
    let mut i: usize = 0;
    assert(views_of(out@) == all.take(0));
    while i < rows.len()
        invariant
            i <= rows@.len() == all.len(),
            all == rows@.map_values(|h: HealthRow| standing_json(h)),
            views_of(out@) == all.take(i as int),
        decreases rows@.len() - i,
    {
        let ghost before = out@;
        let h = &rows[i];
        let mut e = no_entries();
        add_field(&mut e, "id", integer(h.id));
        add_field(&mut e, "name", text(h.name.as_str()));
        add_field(&mut e, "use_count", integer(h.use_count));
        add_field(&mut e, "reverted_count", integer(h.reverted_count));
        add_field(&mut e, "survival_rate", Json::Float(h.survival_rate.number.clone()));
        out.push(object(e));
        assert(views_of(out@) == views_of(before).push(all[i as int]));
        assert(all.take(i + 1) == all.take(i as int).push(all[i as int]));
        i = i + 1;
    }
    assert(all.take(i as int) == all);
    let mut e = no_entries();
    add_field(&mut e, "ok", Json::Bool(true));
    add_field(&mut e, "action", text("health"));
    add_field(&mut e, "patterns", list(out));
    object(e)
}

/// The answer to pruning: how many calls went, how many were to stay, and the size of the
/// database, where it is known.
pub fn pruned(gone: usize, keep: usize, size: Option<u64>) -> (r: String)
    ensures
        r@ == "  pruned "@ + decimal_of(gone as nat) + " call log entries (keeping "@ + decimal_of(
            keep as nat,
        ) + ")\n  vacuumed db\n  db size now: "@ + (match size {
            Some(b) => bytes_text(b as nat),
            None => "unknown"@,
        }) + "\n"@,
{
    let mut s = "  pruned ".to_owned();
    s.append(count_text(gone).as_str());
    s.append(" call log entries (keeping ");
    s.append(count_text(keep).as_str());
    s.append(")\n  vacuumed db\n  db size now: ");
    match size {
        Some(b) => {
            s.append(format_bytes(b).as_str());
        },
        None => {
            s.append("unknown");
        },
    }
    s.append("\n");
    s
}

/// The answer to recording a correction.
pub fn correction_recorded(id: i64) -> (r: String)
    ensures
        r@ == "Correction recorded (id="@ + signed_decimal_of(id as int)
            + "). Use `cortex anti-pattern add` to promote if this recurs.\n"@,
{
    let mut s = "Correction recorded (id=".to_owned();
    s.append(signed_decimal(id).as_str());
    s.append("). Use `cortex anti-pattern add` to promote if this recurs.\n");
    s
}

/// A context packet, headed by the preferences unless they are blank.
pub fn context_with_prefs(prefs: &str, packet: &str) -> (r: String)
    ensures
        r@ == if is_blank(prefs@) {
            packet@
        } else {
            prefs@ + "\n"@ + packet@
        },
{
    let mut s = String::new();
    if !blank(prefs) {
        s.append(prefs);
        s.append("\n");
        assert(s@ == prefs@ + "\n"@);
    }
    s.append(packet);
    assert(is_blank(prefs@) ==> s@ == packet@);
    s
}

/// Every edge around a unit is told, behind its root and the counts of nodes and edges; where there
/// is no such unit, that is told with its name.
pub proof fn law_every_edge_around_is_told(name: Text, a: Surroundings, i: int)
    ensures
        ("subgraph root: "@ + a.root@ + "\nnodes: "@ + decimal_of(a.nodes as nat) + "\nedges: "@
            + decimal_of(a.edges@.len()) + "\n"@).is_prefix_of(surroundings_text(name, Some(a))),
        0 <= i < a.edges@.len() ==> contains_text(
            surroundings_text(name, Some(a)),
            a.edges@[i].from@ + " -["@ + a.edges@[i].relation@ + "]-> "@ + a.edges@[i].to@ + "\n"@,
        ),
        contains_text(surroundings_text(name, None), name),
{
    let head = "subgraph root: "@ + a.root@ + "\nnodes: "@ + decimal_of(a.nodes as nat)
        + "\nedges: "@ + decimal_of(a.edges@.len()) + "\n"@;
    let tail = written_out(a.edges@, edge_line());
    assert((head + tail).subrange(0, head.len() as int) =~= head);
    if 0 <= i < a.edges@.len() {
        lemma_written_out_holds(a.edges@, edge_line(), i);
        lemma_contains_half(head, tail, edge_line()(a.edges@[i]));
    }
    lemma_contains_middle("no unit found for "@, name, "\n"@);
}

/// An answer that something was done says so, what was done, and to which entry.
pub proof fn law_done_tells_what_and_to_which(action: Text, id: int)
    ensures
        ({
            let v = JsonView::Object(done_fields(action, id));
            &&& v.bool_field("ok"@) == Some(true)
            &&& v.text_field("action"@) == Some(action)
            &&& id >= 0 ==> v.number_field("id"@) == Some(id as nat)
            &&& id < 0 ==> v.field("id"@) == Some(JsonView::Negative(id))
        }),
{
    reveal_strlit("ok");
    reveal_strlit("action");
    reveal_strlit("id");
    assert("ok"@[0] != "id"@[0]);
    assert("ok"@.len() == 2 && "action"@.len() == 6 && "id"@.len() == 2);
    let e0 = no_fields();
    let e1 = e0.push(("ok"@, JsonView::Bool(true)));
    let e2 = e1.push(("action"@, JsonView::Text(action)));
    let last = ("id"@, integer_view(id));
    law_first_entry_counts(e0, ("ok"@, JsonView::Bool(true)), "ok"@);
    law_first_entry_counts(e1, ("action"@, JsonView::Text(action)), "ok"@);
    law_first_entry_counts(e2, last, "ok"@);
    law_first_entry_counts(e0, ("ok"@, JsonView::Bool(true)), "action"@);
    law_first_entry_counts(e1, ("action"@, JsonView::Text(action)), "action"@);
    law_first_entry_counts(e2, last, "action"@);
    law_first_entry_counts(e0, ("ok"@, JsonView::Bool(true)), "id"@);
    law_first_entry_counts(e1, ("action"@, JsonView::Text(action)), "id"@);
    law_first_entry_counts(e2, last, "id"@);
}

/// How a pattern fares is told by its id, its name, how often it was used and reverted, and the rate
/// at which it survived.
pub proof fn law_standing_tells_every_count(h: HealthRow)
    ensures
        ({
            let v = standing_json(h);
            &&& v is Object
            &&& v->Object_0.contains(("id"@, integer_view(h.id as int)))
            &&& v->Object_0.contains(("name"@, JsonView::Text(h.name@)))
            &&& v->Object_0.contains(("use_count"@, integer_view(h.use_count as int)))
            &&& v->Object_0.contains(("reverted_count"@, integer_view(h.reverted_count as int)))
            &&& v->Object_0.contains(("survival_rate"@, JsonView::Float(h.survival_rate.number@)))
            &&& v->Object_0.len() == 5
        }),
{
    let e = standing_json(h)->Object_0;
    assert(e[0] == ("id"@, integer_view(h.id as int)));
    assert(e[1] == ("name"@, JsonView::Text(h.name@)));
    assert(e[2] == ("use_count"@, integer_view(h.use_count as int)));
    assert(e[3] == ("reverted_count"@, integer_view(h.reverted_count as int)));
    assert(e[4] == ("survival_rate"@, JsonView::Float(h.survival_rate.number@)));
}

} // verus!
