//! Dry-run impact prediction: what breaks before a core type is touched.

use crate::numbers::{count_text, decimal_of};
use crate::text::{
    concat_of, contains, contains_text, lemma_contains_half, lemma_contains_itself,
    lemma_contains_middle, lowercase_of, same, views, Text,
};
use vstd::prelude::*;

verus! {

/// How risky a change is.
#[derive(Debug, Clone, Copy, PartialEq, Eq, Structural)]
pub enum RiskLevel {
    Low,
    Medium,
    High,
}

/// An item that a change affects.
#[derive(Debug, Clone)]
pub struct AffectedItem {
    pub name: String,
    pub relation: String,
    pub impact: String,
}

/// What a change of one item would do.
#[derive(Debug, Clone)]
pub struct SimulationResult {
    pub changed_item: String,
    pub affected: Vec<AffectedItem>,
    pub risk_level: RiskLevel,
    pub warnings: Vec<String>,
}

/// What the graph knows of an item: the names of its users, and the edges that lead to it, each
/// with its relation and the name of the item that it comes from.
pub struct Neighbourhood {
    pub users: Vec<String>,
    pub relations: Vec<(String, String)>,
}

/// What a look into the graph for an item gave.
pub enum Lookup {
    Failed,
    Missing,
    Found(Neighbourhood),
}

/// The model of an affected item: name, relation, impact.
pub type AffectedView = (Text, Text, Text);

impl AffectedItem {
    /// The model of the item.
    pub open spec fn row(self) -> AffectedView {
        (self.name@, self.relation@, self.impact@)
    }
}

/// The models of affected items.
pub open spec fn rows(list: Seq<AffectedItem>) -> Seq<AffectedView> {
    list.map_values(|a: AffectedItem| a.row())
}

/// The models of edges: relation and name.
pub open spec fn pairs(list: Seq<(String, String)>) -> Seq<(Text, Text)> {
    list.map_values(|p: (String, String)| (p.0@, p.1@))
}

/// The change touches how values of the item are built.
pub open spec fn is_shape_change(change: Text) -> bool {
    contains_text(change, "new field"@) || contains_text(change, "signature"@)
}

/// What a change means for an item that uses the changed one.
pub open spec fn use_impact(name: Text, change: Text) -> Text {
    if is_shape_change(change) {
        "'"@ + name + "' uses this type in fields or return type — construction sites affected"@
    } else {
        "'"@ + name + "' references this type — may need re-evaluation"@
    }
}

/// What a change means for an item that stands in the relation `relation`, written small.
pub open spec fn relation_impact(relation: Text, name: Text, change: Text) -> Text {
    if relation == "implements"@ {
        "trait contract may need updating"@
    } else if relation == "uses"@ {
        use_impact(name, change)
    } else if relation == "pairs"@ {
        "paired usage — may require coordinated update"@
    } else if relation == "conflicts"@ {
        "conflicts flagged — reconsider change or add guard logic"@
    } else if relation == "derived_from"@ {
        "derived from/variant — parent change may cascade"@
    } else if relation == "calls"@ {
        "function call site — callers may break"@
    } else {
        "unknown relation — requires manual review"@
    }
}

/// What is to be warned of where an item stands in the relation `relation`, written small.
pub open spec fn relation_warning(relation: Text, name: Text) -> Option<Text> {
    if relation == "implements"@ {
        Some(
            "Trait implementation: '"@ + name
                + "' implements this trait. Contract may need updating."@,
        )
    } else if relation == "pairs"@ {
        Some(
            "Paired usage detected: '"@ + name + "' is marked to be used with this item."@,
        )
    } else if relation == "conflicts"@ {
        Some(
            "Conflict detected: '"@ + name + "' is marked as conflicting with this item."@,
        )
    } else {
        None
    }
}

/// The users of an item as affected items, each name once.
pub open spec fn affected_users(users: Seq<Text>, change: Text) -> Seq<AffectedView>
    decreases users.len(),
{
    if users.len() == 0 {
        Seq::empty()
    } else {
        let start = affected_users(users.drop_last(), change);
        if users.drop_last().contains(users.last()) {
            start
        } else {
            start.push((users.last(), "uses"@, use_impact(users.last(), change)))
        }
    }
}

/// The item `name` was met before under the relation `relation`, written small: among the users,
/// or behind one of the edges.
pub open spec fn met(users: Seq<Text>, edges: Seq<(Text, Text)>, relation: Text, name: Text) -> bool {
    ||| relation == "uses"@ && users.contains(name)
    ||| exists|k: int|
        0 <= k < edges.len() && (#[trigger] edges[k]).1 == name && lowercase_of(edges[k].0)
            == relation
}

/// The items behind the edges as affected items, without those met before.
pub open spec fn affected_by_edges(
    users: Seq<Text>,
    edges: Seq<(Text, Text)>,
    change: Text,
) -> Seq<AffectedView>
    decreases edges.len(),
{
    if edges.len() == 0 {
        Seq::empty()
    } else {
        let start = affected_by_edges(users, edges.drop_last(), change);
        let (relation, name) = edges.last();
        if met(users, edges.drop_last(), lowercase_of(relation), name) {
            start
        } else {
            start.push((name, relation, relation_impact(lowercase_of(relation), name, change)))
        }
    }
}

/// The warnings that the edges call for.
pub open spec fn edge_warnings(users: Seq<Text>, edges: Seq<(Text, Text)>) -> Seq<Text>
    decreases edges.len(),
{
    if edges.len() == 0 {
        Seq::empty()
    } else {
        let start = edge_warnings(users, edges.drop_last());
        let (relation, name) = edges.last();
        if met(users, edges.drop_last(), lowercase_of(relation), name) {
            start
        } else {
            match relation_warning(lowercase_of(relation), name) {
                Some(w) => start.push(w),
                None => start,
            }
        }
    }
}

/// All items that a change of an item with these neighbours affects.
pub open spec fn affected_items(n: Neighbourhood, change: Text) -> Seq<AffectedView> {
    affected_users(views(n.users@), change) + affected_by_edges(
        views(n.users@),
        pairs(n.relations@),
        change,
    )
}

/// The risk of a change that affects `n` items.
pub open spec fn risk_of(n: int) -> RiskLevel {
    if n <= 2 {
        RiskLevel::Low
    } else if n <= 6 {
        RiskLevel::Medium
    } else {
        RiskLevel::High
    }
}

/// The warnings of a simulation of a change of an item with these neighbours.
pub open spec fn all_warnings(n: Neighbourhood, change: Text) -> Seq<Text> {
    let w = edge_warnings(views(n.users@), pairs(n.relations@));
    if risk_of(affected_items(n, change).len() as int) == RiskLevel::High {
        seq!["HIGH RISK: Many items depend on this. Plan for wide-ranging re-testing."@] + w
    } else {
        w
    }
}

impl RiskLevel {
    /// The name of the level.
    pub open spec fn name(self) -> Text {
        match self {
            RiskLevel::Low => "Low"@,
            RiskLevel::Medium => "Medium"@,
            RiskLevel::High => "High"@,
        }
    }

    /// The sign of the level.
    pub open spec fn sign(self) -> Text {
        match self {
            RiskLevel::Low => "✓"@,
            RiskLevel::Medium => "⚠"@,
            RiskLevel::High => "🚨"@,
        }
    }

    /// The rank of the level.
    pub open spec fn rank(self) -> int {
        match self {
            RiskLevel::Low => 0,
            RiskLevel::Medium => 1,
            RiskLevel::High => 2,
        }
    }

    /// The name of the level.
    pub fn as_str(&self) -> (r: &'static str)
        ensures
            r@ == self.name(),
    {
        match self {
            RiskLevel::Low => "Low",
            RiskLevel::Medium => "Medium",
            RiskLevel::High => "High",
        }
    }
}

/// The line for one affected item.
pub open spec fn item_line(a: AffectedView) -> Text {
    "  • "@ + a.0 + " (via "@ + a.1 + "): "@ + a.2 + "\n"@
}

/// The line for one warning.
pub open spec fn warning_line(w: Text) -> Text {
    "  ⚠ "@ + w + "\n"@
}

/// The lines for affected items.
pub open spec fn item_lines(list: Seq<AffectedView>) -> Text {
    concat_of(list.map_values(|a: AffectedView| item_line(a)))
}

/// The lines for warnings.
pub open spec fn warning_lines(list: Seq<Text>) -> Text {
    concat_of(list.map_values(|w: Text| warning_line(w)))
}

/// The report of a simulation.
pub open spec fn report_of(item: Text, affected: Seq<AffectedView>, risk: RiskLevel, warnings: Seq<
    Text,
>) -> Text {
    let head = risk.sign() + " SIMULATION RESULT for: "@ + item + "\nRisk Level: "@ + risk.name()
        + " ("@ + decimal_of(affected.len()) + ")\n\n"@;
    let body = if affected.len() == 0 {
        head + "No direct impact detected.\n"@
    } else {
        head + "Affected Items:\n"@ + item_lines(affected)
    };
    if warnings.len() == 0 {
        body
    } else {
        body + "\nWarnings:\n"@ + warning_lines(warnings)
    }
}

/// The lines for affected items.
fn render_items(list: &Vec<AffectedItem>) -> (r: String)
    ensures
        r@ == item_lines(rows(list@)),
{
    let ghost parts = rows(list@).map_values(|a: AffectedView| item_line(a));
    let mut out = String::new();
    let mut i: usize = 0;
    while i < list.len()
        invariant
            i <= list@.len() == parts.len(),
            parts == rows(list@).map_values(|a: AffectedView| item_line(a)),
            out@ == concat_of(parts.take(i as int)),
        decreases list@.len() - i,
    {
        let mut line = "  • ".to_owned();
        line.append(list[i].name.as_str());
        line.append(" (via ");
        line.append(list[i].relation.as_str());
        line.append("): ");
        line.append(list[i].impact.as_str());
        line.append("\n");
        assert(line@ == parts[i as int]);
        out.append(line.as_str());
        assert(parts.take(i + 1).drop_last() == parts.take(i as int));
        i = i + 1;
    }
    assert(parts.take(i as int) == parts);
    out
}

/// The lines for warnings.
fn render_warnings(list: &Vec<String>) -> (r: String)
    ensures
        r@ == warning_lines(views(list@)),
{
    let ghost parts = views(list@).map_values(|w: Text| warning_line(w));
    let mut out = String::new();
    let mut i: usize = 0;
    while i < list.len()
        invariant
            i <= list@.len() == parts.len(),
            parts == views(list@).map_values(|w: Text| warning_line(w)),
            out@ == concat_of(parts.take(i as int)),
        decreases list@.len() - i,
    {
        let mut line = "  ⚠ ".to_owned();
        line.append(list[i].as_str());
        line.append("\n");
        assert(line@ == parts[i as int]);
        out.append(line.as_str());
        assert(parts.take(i + 1).drop_last() == parts.take(i as int));
        i = i + 1;
    }
    assert(parts.take(i as int) == parts);
    out
}

impl SimulationResult {
    /// The simulation as a report.
    pub fn render(&self) -> (r: String)
        ensures
            r@ == report_of(
                self.changed_item@,
                rows(self.affected@),
                self.risk_level,
                views(self.warnings@),
            ),
    {
        let sign = match self.risk_level {
            RiskLevel::Low => "✓",
            RiskLevel::Medium => "⚠",
            RiskLevel::High => "🚨",
        };
        let mut out = sign.to_owned();
        out.append(" SIMULATION RESULT for: ");
        out.append(self.changed_item.as_str());
        out.append("\nRisk Level: ");
        out.append(self.risk_level.as_str());
        out.append(" (");
        out.append(count_text(self.affected.len()).as_str());
        out.append(")\n\n");
        if self.affected.len() == 0 {
            out.append("No direct impact detected.\n");
        } else {
            out.append("Affected Items:\n");
            out.append(render_items(&self.affected).as_str());
        }
        if self.warnings.len() > 0 {
            out.append("\nWarnings:\n");
            out.append(render_warnings(&self.warnings).as_str());
        }
        out
    }
}

/// What a change means for an item that uses the changed one.
fn user_impact(name: &str, change: &str) -> (r: String)
    ensures
        r@ == use_impact(name@, change@),
{
    let mut s = "'".to_owned();
    s.append(name);
    if contains(change, "new field") || contains(change, "signature") {
        s.append("' uses this type in fields or return type — construction sites affected");
    } else {
        s.append("' references this type — may need re-evaluation");
    }
    s
}

/// What a change means for an item that stands in the relation `relation`, written small.
fn edge_impact(relation: &str, name: &str, change: &str) -> (r: String)
    ensures
        r@ == relation_impact(relation@, name@, change@),
{
    if same(relation, "implements") {
        "trait contract may need updating".to_owned()
    } else if same(relation, "uses") {
        user_impact(name, change)
    } else if same(relation, "pairs") {
        "paired usage — may require coordinated update".to_owned()
    } else if same(relation, "conflicts") {
        "conflicts flagged — reconsider change or add guard logic".to_owned()
    } else if same(relation, "derived_from") {
        "derived from/variant — parent change may cascade".to_owned()
    } else if same(relation, "calls") {
        "function call site — callers may break".to_owned()
    } else {
        "unknown relation — requires manual review".to_owned()
    }
}

/// What is to be warned of where an item stands in the relation `relation`, written small.
fn edge_warning(relation: &str, name: &str) -> (r: Option<String>)
    ensures
        match r {
            Some(w) => relation_warning(relation@, name@) == Some(w@),
            None => relation_warning(relation@, name@) is None,
        },
{
    if same(relation, "implements") {
        let mut s = "Trait implementation: '".to_owned();
        s.append(name);
        s.append("' implements this trait. Contract may need updating.");
        Some(s)
    } else if same(relation, "pairs") {
        let mut s = "Paired usage detected: '".to_owned();
        s.append(name);
        s.append("' is marked to be used with this item.");
        Some(s)
    } else if same(relation, "conflicts") {
        let mut s = "Conflict detected: '".to_owned();
        s.append(name);
        s.append("' is marked as conflicting with this item.");
        Some(s)
    } else {
        None
    }
}

/// Whether `name` is among the first `n` of `names`.
fn named_before(names: &Vec<String>, n: usize, name: &str) -> (r: bool)
    requires
        n <= names@.len(),
    ensures
        r == views(names@).take(n as int).contains(name@),
{
    let ghost all = views(names@).take(n as int);
    let mut i: usize = 0;
    while i < n
        invariant
            i <= n <= names@.len(),
            all == views(names@).take(n as int),
            forall|k: int| 0 <= k < i ==> #[trigger] all[k] != name@,
        decreases n - i,
    {
        assert(all[i as int] == names@[i as int]@);
        if same(names[i].as_str(), name) {
            return true;
        }
        i = i + 1;
    }
    false
}

/// Whether an item was met before under a relation, among the users or behind one of the first
/// `n` edges.
fn met_before(
    users: &Vec<String>,
    edges: &Vec<(String, String)>,
    n: usize,
    relation: &str,
    name: &str,
) -> (r: bool)
    requires
        n <= edges@.len(),
    ensures
        r == met(views(users@), pairs(edges@).take(n as int), relation@, name@),
{
    assert(views(users@).take(users@.len() as int) == views(users@));
    if same(relation, "uses") && named_before(users, users.len(), name) {
        return true;
    }
    let ghost seen = pairs(edges@).take(n as int);
    let mut i: usize = 0;
    while i < n
        invariant
            i <= n <= edges@.len(),
            seen == pairs(edges@).take(n as int),
            forall|k: int|
                0 <= k < i ==> !((#[trigger] seen[k]).1 == name@ && lowercase_of(seen[k].0)
                    == relation@),
        decreases n - i,
    {
        assert(seen[i as int] == (edges@[i as int].0@, edges@[i as int].1@));
        if same(edges[i].1.as_str(), name) && same(
            edges[i].0.as_str().to_lowercase().as_str(),
            relation,
        ) {
            return true;
        }
        i = i + 1;
    }
    false
}

/// The users of an item as affected items.
fn direct_items(users: &Vec<String>, change: &str) -> (r: Vec<AffectedItem>)
    ensures
        rows(r@) == affected_users(views(users@), change@),
{
    let ghost all = views(users@);
    let mut out: Vec<AffectedItem> = Vec::new();
    let mut i: usize = 0;
    assert(rows(out@) == affected_users(all.take(0), change@));
    while i < users.len()
        invariant
            i <= users@.len() == all.len(),
            all == views(users@),
            rows(out@) == affected_users(all.take(i as int), change@),
        decreases users@.len() - i,
    {
        let ghost before = out@;
        assert(all.take(i + 1).drop_last() == all.take(i as int));
        if !named_before(users, i, users[i].as_str()) {
            let item = AffectedItem {
                name: users[i].clone(),
                relation: "uses".to_owned(),
                impact: user_impact(users[i].as_str(), change),
            };
            out.push(item);
            assert(rows(out@) == rows(before).push(item.row()));
        }
        i = i + 1;
    }
    assert(all.take(i as int) == all);
    out
}

/// Simulates the change of the item `item_name`; `found` holds what the graph knows of it, where
/// it knows it.
pub fn simulate_change(
    item_name: &str,
    change_description: &str,
    found: Option<&Neighbourhood>,
) -> (r: SimulationResult)
    ensures
        r.changed_item@ == item_name@,
        match found {
            Some(n) => {
                &&& rows(r.affected@) == affected_items(*n, change_description@)
                &&& r.risk_level == risk_of(r.affected@.len() as int)
                &&& views(r.warnings@) == all_warnings(*n, change_description@)
            },
            None => {
                &&& r.affected@.len() == 0
                &&& r.risk_level == RiskLevel::Low
                &&& views(r.warnings@)
                    == seq!["Item not found in graph — no impact detected."@]
            },
        },
{
    let n = match found {
        Some(n) => n,
        None => {
            let mut warnings: Vec<String> = Vec::new();
            warnings.push("Item not found in graph — no impact detected.".to_owned());
            assert(views(warnings@) == seq!["Item not found in graph — no impact detected."@]);
            return SimulationResult {
                changed_item: item_name.to_owned(),
                affected: Vec::new(),
                risk_level: RiskLevel::Low,
                warnings,
            };
        },
    };
    let ghost users = views(n.users@);
    let ghost edges = pairs(n.relations@);
    let mut affected = direct_items(&n.users, change_description);
    let mut notes: Vec<String> = Vec::new();
    let mut i: usize = 0;
    assert(affected_by_edges(users, edges.take(0), change_description@) == Seq::<
        AffectedView,
    >::empty());
    assert(rows(affected@) == affected_users(users, change_description@) + affected_by_edges(
        users,
        edges.take(0),
        change_description@,
    ));
    assert(views(notes@) == edge_warnings(users, edges.take(0)));
    while i < n.relations.len()
        invariant
            i <= n.relations@.len() == edges.len(),
            users == views(n.users@),
            edges == pairs(n.relations@),
            rows(affected@) == affected_users(users, change_description@) + affected_by_edges(
                users,
                edges.take(i as int),
                change_description@,
            ),
            views(notes@) == edge_warnings(users, edges.take(i as int)),
        decreases n.relations@.len() - i,
    {
        let ghost items_before = affected@;
        let ghost notes_before = notes@;
        assert(edges.take(i + 1).drop_last() == edges.take(i as int));
        let relation = n.relations[i].0.as_str();
        let name = n.relations[i].1.as_str();
        assert(edges.take(i + 1).last() == (relation@, name@));
        let norm = relation.to_lowercase();
        if !met_before(&n.users, &n.relations, i, norm.as_str(), name) {
            if let Some(w) = edge_warning(norm.as_str(), name) {
                notes.push(w);
                assert(views(notes@) == views(notes_before).push(w@));
            }
            let item = AffectedItem {
                name: name.to_owned(),
                relation: relation.to_owned(),
                impact: edge_impact(norm.as_str(), name, change_description),
            };
            affected.push(item);
            assert(rows(affected@) == rows(items_before).push(item.row()));
            assert(affected_users(users, change_description@) + affected_by_edges(
                users,
                edges.take(i as int),
                change_description@,
            ).push(item.row()) == rows(affected@));
        }
        i = i + 1;
    }
    assert(edges.take(i as int) == edges);
    assert(rows(affected@).len() == affected@.len());
    let risk_level = if affected.len() <= 2 {
        RiskLevel::Low
    } else if affected.len() <= 6 {
        RiskLevel::Medium
    } else {
        RiskLevel::High
    };
    let mut warnings: Vec<String> = Vec::new();
    if risk_level == RiskLevel::High {
        warnings.push(
            "HIGH RISK: Many items depend on this. Plan for wide-ranging re-testing.".to_owned(),
        );
        assert(views(warnings@) == seq![
            "HIGH RISK: Many items depend on this. Plan for wide-ranging re-testing."@,
        ]);
    }
    let ghost head = warnings@;
    let ghost tail = notes@;
    warnings.append(&mut notes);
    assert(views(warnings@) == views(head) + views(tail));
    assert(views(Seq::<String>::empty()) + views(tail) == views(tail));
    SimulationResult { changed_item: item_name.to_owned(), affected, risk_level, warnings }
}

/// How many items a second step from an affected item meets.
pub open spec fn second_step(l: Lookup) -> nat {
    match l {
        Lookup::Found(n) => affected_items(n, "transitive check"@).len(),
        _ => 0,
    }
}

/// How many items second steps from affected items meet.
pub open spec fn second_steps(list: Seq<Lookup>) -> nat
    decreases list.len(),
{
    if list.len() == 0 {
        0
    } else {
        second_steps(list.drop_last()) + second_step(list.last())
    }
}

/// The count of second steps grows with the list.
proof fn lemma_second_steps_grow(list: Seq<Lookup>, i: int)
    requires
        0 <= i <= list.len(),
    ensures
        second_steps(list.take(i)) <= second_steps(list),
    decreases list.len() - i,
{
    if i < list.len() {
        lemma_second_steps_grow(list, i + 1);
        assert(list.take(i + 1).drop_last() == list.take(i));
    } else {
        assert(list.take(i) == list);
    }
}

/// The note on items that are affected indirectly.
pub open spec fn transitive_note(n: nat) -> Text {
    "Transitive impact: "@ + decimal_of(n) + " more items affected indirectly"@
}

/// Extends a simulation by a second step where `depth` asks for it: `lookups` holds what the graph
/// knows of each affected item. Where the second step meets anything the risk is high.
pub fn simulate_change_deep(result: SimulationResult, depth: u8, lookups: &Vec<Lookup>) -> (r:
    SimulationResult)
    requires
        lookups@.len() == result.affected@.len(),
        second_steps(lookups@) <= usize::MAX,
    ensures
        r.changed_item@ == result.changed_item@,
        r.affected@ == result.affected@,
        depth > 1 && second_steps(lookups@) > 0 ==> {
            &&& r.risk_level == RiskLevel::High
            &&& views(r.warnings@) == views(result.warnings@).push(
                transitive_note(second_steps(lookups@)),
            )
        },
        !(depth > 1 && second_steps(lookups@) > 0) ==> r == result,
{
    let mut result = result;
    if depth > 1 && result.affected.len() > 0 {
        let mut total: usize = 0;
        let mut i: usize = 0;
        while i < lookups.len()
            invariant
                i <= lookups@.len(),
                lookups@.len() == result.affected@.len(),
                second_steps(lookups@) <= usize::MAX,
                total == second_steps(lookups@.take(i as int)),
            decreases lookups@.len() - i,
        {
            assert(lookups@.take(i + 1).drop_last() == lookups@.take(i as int));
            proof {
                lemma_second_steps_grow(lookups@, i + 1);
            }
            match &lookups[i] {
                Lookup::Found(n) => {
                    let step = simulate_change(
                        result.affected[i].name.as_str(),
                        "transitive check",
                        Some(n),
                    );
                    assert(rows(step.affected@).len() == step.affected@.len());
                    total = total + step.affected.len();
                },
                _ => {},
            }
            i = i + 1;
        }
        assert(lookups@.take(i as int) == lookups@);
        if total > 0 {
            let mut note = "Transitive impact: ".to_owned();
            note.append(count_text(total).as_str());
            note.append(" more items affected indirectly");
            let ghost before = result.warnings@;
            result.warnings.push(note);
            assert(views(result.warnings@) == views(before).push(note@));
            result.risk_level = RiskLevel::High;
        }
    }
    result
}

/// No user is listed twice.
proof fn lemma_users_once(users: Seq<Text>, change: Text)
    ensures
        forall|i: int|
            0 <= i < affected_users(users, change).len() ==> users.contains(
                (#[trigger] affected_users(users, change)[i]).0,
            ) && affected_users(users, change)[i].1 == "uses"@,
        forall|i: int, j: int|
            0 <= i < j < affected_users(users, change).len() ==> (#[trigger] affected_users(
                users,
                change,
            )[i]).0 != (#[trigger] affected_users(users, change)[j]).0,
    decreases users.len(),
{
    if users.len() > 0 {
        let start = users.drop_last();
        lemma_users_once(start, change);
        assert forall|i: int| 0 <= i < affected_users(users, change).len() implies users.contains(
            (#[trigger] affected_users(users, change)[i]).0,
        ) && affected_users(users, change)[i].1 == "uses"@ by {
            let a = affected_users(users, change);
            let b = affected_users(start, change);
            if i < b.len() {
                assert(a[i] == b[i]);
                let k = choose|k: int| 0 <= k < start.len() && start[k] == b[i].0;
                assert(users[k] == a[i].0);
            } else {
                assert(users[users.len() - 1] == a[i].0);
            }
        }
        assert forall|i: int, j: int| 0 <= i < j < affected_users(users, change).len() implies (
        #[trigger] affected_users(users, change)[i]).0 != (#[trigger] affected_users(
            users,
            change,
        )[j]).0 by {
            let a = affected_users(users, change);
            let b = affected_users(start, change);
            assert(a[i] == b[i]);
            if j < b.len() {
                assert(a[j] == b[j]);
            }
        }
    }
}

/// What is listed behind an edge was met behind it, and not among the users.
proof fn lemma_edges_once(users: Seq<Text>, edges: Seq<(Text, Text)>, change: Text)
    ensures
        forall|i: int|
            0 <= i < affected_by_edges(users, edges, change).len() ==> {
                let a = #[trigger] affected_by_edges(users, edges, change)[i];
                &&& !(lowercase_of(a.1) == "uses"@ && users.contains(a.0))
                &&& met(users, edges, lowercase_of(a.1), a.0)
            },
        forall|i: int, j: int|
            0 <= i < j < affected_by_edges(users, edges, change).len() ==> {
                let a = #[trigger] affected_by_edges(users, edges, change)[i];
                let b = #[trigger] affected_by_edges(users, edges, change)[j];
                (a.0, lowercase_of(a.1)) != (b.0, lowercase_of(b.1))
            },
    decreases edges.len(),
{
    if edges.len() > 0 {
        let start = edges.drop_last();
        lemma_edges_once(users, start, change);
        let a = affected_by_edges(users, edges, change);
        let b = affected_by_edges(users, start, change);
        assert forall|i: int| 0 <= i < affected_by_edges(users, edges, change).len() implies ({
            let x = #[trigger] affected_by_edges(users, edges, change)[i];
            &&& !(lowercase_of(x.1) == "uses"@ && users.contains(x.0))
            &&& met(users, edges, lowercase_of(x.1), x.0)
        }) by {
            if i < b.len() {
                assert(a[i] == b[i]);
                let k = choose|k: int|
                    0 <= k < start.len() && (#[trigger] start[k]).1 == b[i].0 && lowercase_of(
                        start[k].0,
                    ) == lowercase_of(b[i].1);
                assert(edges[k] == start[k]);
            } else {
                assert(edges[edges.len() - 1] == edges.last());
            }
        }
        assert forall|i: int, j: int|
            0 <= i < j < affected_by_edges(users, edges, change).len() implies ({
            let x = #[trigger] affected_by_edges(users, edges, change)[i];
            let y = #[trigger] affected_by_edges(users, edges, change)[j];
            (x.0, lowercase_of(x.1)) != (y.0, lowercase_of(y.1))
        }) by {
            assert(a[i] == b[i]);
            if j < b.len() {
                assert(a[j] == b[j]);
            }
        }
    }
}

/// The relation under which the item at position `i` was met, written small.
pub open spec fn met_under(n: Neighbourhood, change: Text, i: int) -> Text {
    if i < affected_users(views(n.users@), change).len() {
        "uses"@
    } else {
        lowercase_of(affected_items(n, change)[i].1)
    }
}

/// No item is listed twice under the same relation, whatever the case of the relation's letters.
pub proof fn law_affected_items_are_distinct(n: Neighbourhood, change: Text, i: int, j: int)
    requires
        0 <= i < j < affected_items(n, change).len(),
    ensures
        affected_items(n, change)[i].0 != affected_items(n, change)[j].0 || met_under(n, change, i)
            != met_under(n, change, j),
{
    let users = views(n.users@);
    let edges = pairs(n.relations@);
    let direct = affected_users(users, change);
    let rest = affected_by_edges(users, edges, change);
    lemma_users_once(users, change);
    lemma_edges_once(users, edges, change);
    let all = affected_items(n, change);
    if i < direct.len() {
        assert(all[i] == direct[i]);
        if j < direct.len() {
            assert(all[j] == direct[j]);
        } else {
            assert(all[j] == rest[j - direct.len()]);
        }
    } else {
        assert(all[i] == rest[i - direct.len()]);
        assert(all[j] == rest[j - direct.len()]);
    }
}

/// The more items a change affects, the higher its risk.
pub proof fn law_risk_grows_with_impact(a: int, b: int)
    requires
        a <= b,
    ensures
        risk_of(a).rank() <= risk_of(b).rank(),
{
}

/// Every user of an item is among the affected ones.
proof fn lemma_users_complete(users: Seq<Text>, change: Text, k: int)
    requires
        0 <= k < users.len(),
    ensures
        affected_users(users, change).contains(
            (users[k], "uses"@, use_impact(users[k], change)),
        ),
    decreases users.len(),
{
    let start = users.drop_last();
    let all = affected_users(users, change);
    let before = affected_users(start, change);
    let item = (users[k], "uses"@, use_impact(users[k], change));
    if k == users.len() - 1 && !start.contains(users.last()) {
        assert(all[all.len() - 1] == item);
    } else {
        let j = if k < users.len() - 1 {
            k
        } else {
            choose|j: int| 0 <= j < start.len() && start[j] == users.last()
        };
        lemma_users_complete(start, change, j);
        let i = choose|i: int| 0 <= i < before.len() && before[i] == item;
        assert(all[i] == item);
    }
}

/// Every edge leads to an affected item, but for those of which the item is a user anyway.
proof fn lemma_edges_complete(users: Seq<Text>, edges: Seq<(Text, Text)>, change: Text, k: int)
    requires
        0 <= k < edges.len(),
    ensures
        lowercase_of(edges[k].0) == "uses"@ && users.contains(edges[k].1) || exists|i: int|
            0 <= i < affected_by_edges(users, edges, change).len() && (
            #[trigger] affected_by_edges(users, edges, change)[i]).0 == edges[k].1 && lowercase_of(
                affected_by_edges(users, edges, change)[i].1,
            ) == lowercase_of(edges[k].0) && affected_by_edges(users, edges, change)[i].2
                == relation_impact(lowercase_of(edges[k].0), edges[k].1, change),
    decreases edges.len(),
{
    let start = edges.drop_last();
    let all = affected_by_edges(users, edges, change);
    let before = affected_by_edges(users, start, change);
    let low = lowercase_of(edges[k].0);
    let name = edges[k].1;
    if low == "uses"@ && users.contains(name) {
    } else if k == edges.len() - 1 && !met(users, start, low, name) {
        assert(all[all.len() - 1].0 == name);
    } else {
        let j = if k < edges.len() - 1 {
            k
        } else {
            choose|j: int|
                0 <= j < start.len() && (#[trigger] start[j]).1 == name && lowercase_of(start[j].0)
                    == low
        };
        assert(start[j].1 == name && lowercase_of(start[j].0) == low);
        lemma_edges_complete(users, start, change, j);
        let i = choose|i: int|
            0 <= i < before.len() && (#[trigger] before[i]).0 == name && lowercase_of(before[i].1)
                == low && before[i].2 == relation_impact(low, name, change);
        assert(all[i] == before[i]);
    }
}

/// Every user of an item is affected by a change of it, as one that uses it.
pub proof fn law_every_user_is_affected(n: Neighbourhood, change: Text, k: int)
    requires
        0 <= k < n.users@.len(),
    ensures
        exists|i: int|
            0 <= i < affected_items(n, change).len() && (#[trigger] affected_items(n, change)[i]).0
                == n.users@[k]@ && affected_items(n, change)[i].1 == "uses"@,
{
    let users = views(n.users@);
    let direct = affected_users(users, change);
    lemma_users_complete(users, change, k);
    let item = (users[k], "uses"@, use_impact(users[k], change));
    let i = choose|i: int| 0 <= i < direct.len() && direct[i] == item;
    assert(affected_items(n, change)[i] == item);
}

/// Every edge that leads to an item, whatever its relation, has the item that it comes from among
/// the affected ones, under that relation up to the case of its letters.
pub proof fn law_every_edge_is_affected(n: Neighbourhood, change: Text, k: int)
    requires
        0 <= k < n.relations@.len(),
    ensures
        exists|i: int|
            0 <= i < affected_items(n, change).len() && (#[trigger] affected_items(n, change)[i]).0
                == n.relations@[k].1@ && (lowercase_of(affected_items(n, change)[i].1)
                == lowercase_of(n.relations@[k].0@) || affected_items(n, change)[i].1 == "uses"@
                && lowercase_of(n.relations@[k].0@) == "uses"@),
{
    let users = views(n.users@);
    let edges = pairs(n.relations@);
    let direct = affected_users(users, change);
    let rest = affected_by_edges(users, edges, change);
    let all = affected_items(n, change);
    assert(edges[k] == (n.relations@[k].0@, n.relations@[k].1@));
    lemma_edges_complete(users, edges, change, k);
    if lowercase_of(edges[k].0) == "uses"@ && users.contains(edges[k].1) {
        let u = choose|u: int| 0 <= u < users.len() && users[u] == edges[k].1;
        law_every_user_is_affected(n, change, u);
        assert(n.users@[u]@ == users[u]);
    } else {
        let i = choose|i: int|
            0 <= i < rest.len() && (#[trigger] rest[i]).0 == edges[k].1 && lowercase_of(rest[i].1)
                == lowercase_of(edges[k].0);
        assert(all[direct.len() + i] == rest[i]);
    }
}

/// Nothing but users and items behind edges is affected.
pub proof fn law_nothing_else_is_affected(n: Neighbourhood, change: Text, i: int)
    requires
        0 <= i < affected_items(n, change).len(),
    ensures
        ({
            let a = affected_items(n, change)[i];
            ||| a.1 == "uses"@ && exists|k: int|
                0 <= k < n.users@.len() && (#[trigger] n.users@[k])@ == a.0
            ||| exists|k: int|
                0 <= k < n.relations@.len() && (#[trigger] n.relations@[k]).0@ == a.1
                    && n.relations@[k].1@ == a.0
        }),
{
    let users = views(n.users@);
    let edges = pairs(n.relations@);
    let direct = affected_users(users, change);
    let rest = affected_by_edges(users, edges, change);
    let a = affected_items(n, change)[i];
    if i < direct.len() {
        lemma_users_once(users, change);
        assert(a == direct[i]);
        let k = choose|k: int| 0 <= k < users.len() && users[k] == a.0;
        assert(n.users@[k]@ == a.0);
    } else {
        assert(a == rest[i - direct.len()]);
        lemma_edges_sound(users, edges, change, i - direct.len());
        let k = choose|k: int|
            0 <= k < edges.len() && (#[trigger] edges[k]).0 == a.1 && edges[k].1 == a.0;
        assert(n.relations@[k].0@ == a.1 && n.relations@[k].1@ == a.0);
    }
}

/// What is listed behind the edges is the item and the relation of one of them.
proof fn lemma_edges_sound(users: Seq<Text>, edges: Seq<(Text, Text)>, change: Text, i: int)
    requires
        0 <= i < affected_by_edges(users, edges, change).len(),
    ensures
        exists|k: int|
            0 <= k < edges.len() && (#[trigger] edges[k]).0 == affected_by_edges(
                users,
                edges,
                change,
            )[i].1 && edges[k].1 == affected_by_edges(users, edges, change)[i].0,
        affected_by_edges(users, edges, change)[i].2 == relation_impact(
            lowercase_of(affected_by_edges(users, edges, change)[i].1),
            affected_by_edges(users, edges, change)[i].0,
            change,
        ),
    decreases edges.len(),
{
    let start = edges.drop_last();
    let a = affected_by_edges(users, edges, change)[i];
    let before = affected_by_edges(users, start, change);
    if i < before.len() {
        lemma_edges_sound(users, start, change, i);
        let k = choose|k: int|
            0 <= k < start.len() && (#[trigger] start[k]).0 == a.1 && start[k].1 == a.0;
        assert(edges[k] == start[k]);
    } else {
        assert(edges[edges.len() - 1].0 == a.1);
    }
}

/// What the relation of an affected item is, its impact tells: a trait contract, a construction
/// site or a reference, a pair, a conflict, a variant, a call site, or a relation that is not known.
pub proof fn law_impact_tells_the_relation(n: Neighbourhood, change: Text, i: int)
    requires
        affected_users(views(n.users@), change).len() <= i < affected_items(n, change).len(),
    ensures
        ({
            let a = affected_items(n, change)[i];
            let relation = lowercase_of(a.1);
            let shape = contains_text(change, "new field"@) || contains_text(change, "signature"@);
            &&& relation == "implements"@ ==> a.2 == "trait contract may need updating"@
            &&& relation == "uses"@ && shape ==> a.2 == "'"@ + a.0
                + "' uses this type in fields or return type — construction sites affected"@
            &&& relation == "uses"@ && !shape ==> a.2 == "'"@ + a.0
                + "' references this type — may need re-evaluation"@
            &&& relation == "pairs"@ ==> a.2 == "paired usage — may require coordinated update"@
            &&& relation == "conflicts"@ ==> a.2
                == "conflicts flagged — reconsider change or add guard logic"@
            &&& relation == "derived_from"@ ==> a.2
                == "derived from/variant — parent change may cascade"@
            &&& relation == "calls"@ ==> a.2 == "function call site — callers may break"@
            &&& ![
                "implements"@,
                "uses"@,
                "pairs"@,
                "conflicts"@,
                "derived_from"@,
                "calls"@,
            ]@.contains(relation) ==> a.2 == "unknown relation — requires manual review"@
        }),
{
    let users = views(n.users@);
    let edges = pairs(n.relations@);
    let direct = affected_users(users, change);
    let a = affected_items(n, change)[i];
    assert(a == affected_by_edges(users, edges, change)[i - direct.len()]);
    lemma_edges_sound(users, edges, change, i - direct.len());
    lemma_relations_differ();
    let known = [
        "implements"@,
        "uses"@,
        "pairs"@,
        "conflicts"@,
        "derived_from"@,
        "calls"@,
    ]@;
    assert(known[0] == "implements"@ && known[1] == "uses"@ && known[2] == "pairs"@ && known[3]
        == "conflicts"@ && known[4] == "derived_from"@ && known[5] == "calls"@);
}

/// The names of relations differ.
proof fn lemma_relations_differ()
    ensures
        "implements"@.len() == 10,
        "uses"@.len() == 4,
        "pairs"@.len() == 5,
        "pairs"@[0] == 'p',
        "conflicts"@.len() == 9,
        "derived_from"@.len() == 12,
        "calls"@.len() == 5,
        "calls"@[0] == 'c',
{
    reveal_strlit("implements");
    reveal_strlit("uses");
    reveal_strlit("pairs");
    reveal_strlit("conflicts");
    reveal_strlit("derived_from");
    reveal_strlit("calls");
}

/// A user is told what a change means for it: a construction site where the change is one of a
/// field or a signature, else a reference.
pub proof fn law_users_are_told_what_it_means(n: Neighbourhood, change: Text, i: int)
    requires
        0 <= i < affected_users(views(n.users@), change).len(),
    ensures
        ({
            let a = affected_items(n, change)[i];
            let shape = contains_text(change, "new field"@) || contains_text(change, "signature"@);
            &&& shape ==> a.2 == "'"@ + a.0
                + "' uses this type in fields or return type — construction sites affected"@
            &&& !shape ==> a.2 == "'"@ + a.0 + "' references this type — may need re-evaluation"@
        }),
{
    lemma_user_impact(views(n.users@), change, i);
}

/// The impact of a user is that of a use.
proof fn lemma_user_impact(users: Seq<Text>, change: Text, i: int)
    requires
        0 <= i < affected_users(users, change).len(),
    ensures
        affected_users(users, change)[i].2 == use_impact(affected_users(users, change)[i].0, change),
    decreases users.len(),
{
    if i < affected_users(users.drop_last(), change).len() {
        lemma_user_impact(users.drop_last(), change, i);
    }
}

/// The pairs of an item and a relation, written small, that lead to a changed item.
pub open spec fn relation_keys(n: Neighbourhood) -> Set<(Text, Text)> {
    Set::new(
        |p: (Text, Text)|
            (p.1 == "uses"@ && views(n.users@).contains(p.0)) || exists|k: int|
                0 <= k < n.relations@.len() && (#[trigger] n.relations@[k]).1@ == p.0
                    && lowercase_of(n.relations@[k].0@) == p.1,
    )
}

/// As many items are affected as there are different pairs of an item and a relation, written small,
/// among the users and the edges.
pub proof fn law_affected_items_are_counted_once(n: Neighbourhood, change: Text)
    ensures
        relation_keys(n).finite(),
        affected_items(n, change).len() == relation_keys(n).len(),
{
    let all = affected_items(n, change);
    let direct = affected_users(views(n.users@), change);
    let keys = Seq::new(all.len(), |i: int| (all[i].0, met_under(n, change, i)));
    assert forall|i: int, j: int| 0 <= i < keys.len() && 0 <= j < keys.len() && i != j implies
        keys[i] != keys[j] by {
        if i < j {
            law_affected_items_are_distinct(n, change, i, j);
        } else {
            law_affected_items_are_distinct(n, change, j, i);
        }
    }
    assert(keys.no_duplicates());
    keys.unique_seq_to_set();
    assert forall|p: (Text, Text)| keys.to_set().contains(p) <==> #[trigger] relation_keys(
        n,
    ).contains(p) by {
        if keys.to_set().contains(p) {
            let i = choose|i: int| 0 <= i < keys.len() && keys[i] == p;
            if i < direct.len() {
                lemma_users_once(views(n.users@), change);
                assert(all[i] == direct[i]);
            } else {
                let users = views(n.users@);
                let edges = pairs(n.relations@);
                assert(all[i] == affected_by_edges(users, edges, change)[i - direct.len()]);
                lemma_edges_sound(users, edges, change, i - direct.len());
                let k = choose|k: int|
                    0 <= k < edges.len() && (#[trigger] edges[k]).0 == all[i].1 && edges[k].1
                        == all[i].0;
                assert(n.relations@[k].1@ == p.0 && lowercase_of(n.relations@[k].0@) == p.1);
            }
        }
        if relation_keys(n).contains(p) {
            if p.1 == "uses"@ && views(n.users@).contains(p.0) {
                let users = views(n.users@);
                let k = choose|k: int| 0 <= k < users.len() && users[k] == p.0;
                lemma_users_complete(users, change, k);
                let item = (users[k], "uses"@, use_impact(users[k], change));
                let i = choose|i: int| 0 <= i < direct.len() && direct[i] == item;
                assert(all[i] == item);
                assert(keys[i] == p);
            } else {
                let users = views(n.users@);
                let edges = pairs(n.relations@);
                let rest = affected_by_edges(users, edges, change);
                let k = choose|k: int|
                    0 <= k < n.relations@.len() && (#[trigger] n.relations@[k]).1@ == p.0
                        && lowercase_of(n.relations@[k].0@) == p.1;
                assert(edges[k] == (n.relations@[k].0@, n.relations@[k].1@));
                lemma_edges_complete(users, edges, change, k);
                let i = choose|i: int|
                    0 <= i < rest.len() && (#[trigger] rest[i]).0 == p.0 && lowercase_of(rest[i].1)
                        == p.1;
                assert(all[direct.len() + i] == rest[i]);
                assert(keys[direct.len() + i] == p);
            }
        }
    }
    assert(keys.to_set() =~= relation_keys(n));
}

/// How many items a change affects does not depend on what the change is.
pub proof fn law_impact_is_counted_alike(n: Neighbourhood, a: Text, b: Text)
    ensures
        affected_items(n, a).len() == affected_items(n, b).len(),
{
    law_affected_items_are_counted_once(n, a);
    law_affected_items_are_counted_once(n, b);
}

/// A change that affects at most two items is of low risk, one that affects up to six of medium
/// risk, and any other of high risk.
pub proof fn law_risk_is_told_by_the_count(n: int)
    ensures
        risk_of(n) == RiskLevel::Low <==> n <= 2,
        risk_of(n) == RiskLevel::Medium <==> 2 < n <= 6,
        risk_of(n) == RiskLevel::High <==> 6 < n,
{
}

/// An edge that implements, pairs or conflicts is warned of, by the name of the item behind it.
pub proof fn law_edges_are_warned_of(n: Neighbourhood, change: Text, k: int)
    requires
        0 <= k < n.relations@.len(),
    ensures
        ({
            let relation = lowercase_of(n.relations@[k].0@);
            let name = n.relations@[k].1@;
            let told = all_warnings(n, change);
            &&& relation == "implements"@ ==> told.contains(
                "Trait implementation: '"@ + name
                    + "' implements this trait. Contract may need updating."@,
            )
            &&& relation == "pairs"@ ==> told.contains(
                "Paired usage detected: '"@ + name + "' is marked to be used with this item."@,
            )
            &&& relation == "conflicts"@ ==> told.contains(
                "Conflict detected: '"@ + name + "' is marked as conflicting with this item."@,
            )
        }),
{
    let users = views(n.users@);
    let edges = pairs(n.relations@);
    assert(edges[k] == (n.relations@[k].0@, n.relations@[k].1@));
    lemma_relations_differ();
    let relation = lowercase_of(edges[k].0);
    if relation == "implements"@ || relation == "pairs"@ || relation == "conflicts"@ {
        lemma_warnings_complete(users, edges, k);
        let w = relation_warning(relation, edges[k].1)->0;
        let found = edge_warnings(users, edges);
        let told = all_warnings(n, change);
        let i = choose|i: int| 0 <= i < found.len() && found[i] == w;
        if told.len() == found.len() {
            assert(told[i] == w);
        } else {
            assert(told[i + 1] == w);
        }
    }
}

/// What an edge calls for is warned of.
proof fn lemma_warnings_complete(users: Seq<Text>, edges: Seq<(Text, Text)>, k: int)
    requires
        0 <= k < edges.len(),
        lowercase_of(edges[k].0) != "uses"@,
        relation_warning(lowercase_of(edges[k].0), edges[k].1) is Some,
    ensures
        edge_warnings(users, edges).contains(
            relation_warning(lowercase_of(edges[k].0), edges[k].1)->0,
        ),
    decreases edges.len(),
{
    let start = edges.drop_last();
    let all = edge_warnings(users, edges);
    let before = edge_warnings(users, start);
    let low = lowercase_of(edges[k].0);
    let name = edges[k].1;
    let w = relation_warning(low, name)->0;
    if k == edges.len() - 1 && !met(users, start, low, name) {
        assert(all[all.len() - 1] == w);
    } else {
        let j = if k < edges.len() - 1 {
            k
        } else {
            choose|j: int|
                0 <= j < start.len() && (#[trigger] start[j]).1 == name && lowercase_of(start[j].0)
                    == low
        };
        assert(start[j].1 == name && lowercase_of(start[j].0) == low);
        lemma_warnings_complete(users, start, j);
        let i = choose|i: int| 0 <= i < before.len() && before[i] == w;
        assert(all[i] == w);
    }
}

/// Above six affected items the warnings begin with that of a high risk, and only there.
pub proof fn law_high_risk_is_warned_of_first(n: Neighbourhood, change: Text)
    ensures
        affected_items(n, change).len() > 6 ==> all_warnings(n, change).len() > 0 && all_warnings(
            n,
            change,
        )[0] == "HIGH RISK: Many items depend on this. Plan for wide-ranging re-testing."@,
        all_warnings(n, change).len() == edge_warnings(views(n.users@), pairs(n.relations@)).len()
            + if affected_items(n, change).len() > 6 {
            1int
        } else {
            0int
        },
{
}

/// The report of a simulation tells every affected item, its relation and its impact, and every
/// warning.
pub proof fn law_report_tells_everything(
    item: Text,
    affected: Seq<AffectedView>,
    risk: RiskLevel,
    warnings: Seq<Text>,
    i: int,
)
    ensures
        contains_text(
            report_of(item, affected, risk, warnings),
            "SIMULATION RESULT for: "@ + item + "\nRisk Level: "@,
        ),
        0 <= i < affected.len() ==> contains_text(
            report_of(item, affected, risk, warnings),
            "  • "@ + affected[i].0 + " (via "@ + affected[i].1 + "): "@ + affected[i].2 + "\n"@,
        ),
        0 <= i < warnings.len() ==> contains_text(
            report_of(item, affected, risk, warnings),
            "  ⚠ "@ + warnings[i] + "\n"@,
        ),
        affected.len() == 0 ==> contains_text(
            report_of(item, affected, risk, warnings),
            "No direct impact detected.\n"@,
        ),
{
    let report = report_of(item, affected, risk, warnings);
    let head = risk.sign() + " SIMULATION RESULT for: "@ + item + "\nRisk Level: "@ + risk.name()
        + " ("@ + decimal_of(affected.len()) + ")\n\n"@;
    let body = if affected.len() == 0 {
        head + "No direct impact detected.\n"@
    } else {
        head + "Affected Items:\n"@ + item_lines(affected)
    };
    let part = "SIMULATION RESULT for: "@ + item + "\nRisk Level: "@;
    reveal_strlit(" SIMULATION RESULT for: ");
    reveal_strlit("SIMULATION RESULT for: ");
    assert(" SIMULATION RESULT for: "@ == seq![' '] + "SIMULATION RESULT for: "@);
    let tail = risk.name() + " ("@ + decimal_of(affected.len()) + ")\n\n"@;
    assert(head == (risk.sign() + seq![' ']) + part + tail);
    lemma_contains_middle(risk.sign() + seq![' '], part, tail);
    if affected.len() == 0 {
        let none = "No direct impact detected.\n"@;
        lemma_contains_itself(none);
        lemma_contains_half(head, none, part);
        lemma_contains_half(head, none, none);
        lemma_report_holds(body, warnings, none);
    } else {
        lemma_contains_half(head, "Affected Items:\n"@, part);
        lemma_contains_half(head + "Affected Items:\n"@, item_lines(affected), part);
    }
    lemma_report_holds(body, warnings, part);
    if 0 <= i < affected.len() {
        let parts = affected.map_values(|a: AffectedView| item_line(a));
        lemma_concat_holds(parts, i);
        lemma_contains_half(head + "Affected Items:\n"@, item_lines(affected), parts[i]);
        lemma_report_holds(body, warnings, parts[i]);
    }
    if 0 <= i < warnings.len() {
        let parts = warnings.map_values(|w: Text| warning_line(w));
        lemma_concat_holds(parts, i);
        lemma_contains_half(body + "\nWarnings:\n"@, warning_lines(warnings), parts[i]);
    }
}

/// What stands in the body of a report stands in the report.
proof fn lemma_report_holds(body: Text, warnings: Seq<Text>, part: Text)
    ensures
        contains_text(body, part) ==> contains_text(
            if warnings.len() == 0 {
                body
            } else {
                body + "\nWarnings:\n"@ + warning_lines(warnings)
            },
            part,
        ),
{
    lemma_contains_half(body, "\nWarnings:\n"@, part);
    lemma_contains_half(body + "\nWarnings:\n"@, warning_lines(warnings), part);
}

/// Texts one after another hold each of them.
proof fn lemma_concat_holds(parts: Seq<Text>, i: int)
    requires
        0 <= i < parts.len(),
    ensures
        contains_text(concat_of(parts), parts[i]),
    decreases parts.len(),
{
    if i < parts.len() - 1 {
        lemma_concat_holds(parts.drop_last(), i);
    } else {
        lemma_contains_itself(parts[i]);
    }
    lemma_contains_half(concat_of(parts.drop_last()), parts.last(), parts[i]);
}

/// Second steps add up: each item found brings as many as a change of it affects, and an item that
/// is missing or could not be looked up brings none.
pub proof fn law_second_steps_add_up(list: Seq<Lookup>, n: Neighbourhood, change: Text)
    ensures
        second_steps(Seq::<Lookup>::empty()) == 0,
        second_steps(list.push(Lookup::Found(n))) == second_steps(list) + affected_items(
            n,
            change,
        ).len(),
        second_steps(list.push(Lookup::Missing)) == second_steps(list),
        second_steps(list.push(Lookup::Failed)) == second_steps(list),
{
    law_impact_is_counted_alike(n, change, "transitive check"@);
    assert(list.push(Lookup::Found(n)).drop_last() == list);
    assert(list.push(Lookup::Missing).drop_last() == list);
    assert(list.push(Lookup::Failed).drop_last() == list);
}

} // verus!
