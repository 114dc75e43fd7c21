//! Drift between two snapshots of the code graph: communities that gain or lose nodes.

use crate::floats::{at_most, float_of, is_at_most, law_numbers_are_ordered, to_float, DOUBLE};
use crate::json::{
    add_field, integer, integer_view, list, no_entries, no_fields, object, text, views_of, Json,
    JsonView,
};
use crate::lists::{
    holds, items, kept, law_selecting_goes_item_by_item, lemma_kept_finds, lemma_kept_holds,
    lemma_kept_is, refs_of, select_all,
};
use crate::order::{
    before, in_rank, is_ranking, law_ranking_orders, lemma_text_total, lemma_text_transitive,
    rank_refs, ranked, text_lt,
};
use crate::rates::Ratio;
use crate::text::{chars_of, ends_with, same, views, Text};
use vstd::prelude::*;

verus! {

/// A node of the graph.
#[derive(Debug, Clone)]
pub struct GraphNode {
    pub id: String,
    pub label: Option<String>,
    pub source_file: Option<String>,
    pub node_type: Option<String>,
    pub community: Option<u32>,
}

/// A link of the graph. The weight is the bit pattern of a double-precision number.
#[derive(Debug, Clone)]
pub struct GraphLink {
    pub source: String,
    pub target: String,
    pub relation: Option<String>,
    pub weight: Option<u64>,
}

/// A snapshot of the graph.
#[derive(Debug, Clone)]
pub struct GraphData {
    pub nodes: Vec<GraphNode>,
    pub links: Vec<GraphLink>,
}

/// What became of one community.
#[derive(Debug, Clone, Copy, PartialEq, Eq, Structural)]
pub struct CommunityDrift {
    pub community_id: u32,
    pub nodes_added: usize,
    pub nodes_removed: usize,
    pub node_count_current: usize,
    pub node_count_previous: usize,
    /// Nodes added and removed, by the larger of the two counts of nodes.
    pub drift_score: Ratio,
}

/// The drift of a whole graph.
#[derive(Debug, Clone)]
pub struct DriftReport {
    pub current_graph_path: String,
    pub previous_graph_path: String,
    pub total_nodes_current: usize,
    pub total_nodes_previous: usize,
    pub total_links_current: usize,
    pub total_links_previous: usize,
    pub node_count_delta: i64,
    pub link_count_delta: i64,
    pub communities_affected: usize,
    pub community_drifts: Vec<CommunityDrift>,
    pub high_drift_communities: Vec<CommunityDrift>,
    pub analyzed_at: String,
}

/// How much sooner the proposals of a community are looked at.
#[derive(Debug, Clone, Copy, PartialEq, Eq, Structural)]
pub struct CommunityWeight {
    pub community_id: u32,
    pub drift_score: Ratio,
    /// The boost in percent: 100 is the normal priority.
    pub priority_boost: u32,
}

/// The items of `list`, each once, where it first occurs.
pub open spec fn distinct<T>(list: Seq<T>) -> Seq<T>
    decreases list.len(),
{
    if list.len() == 0 {
        Seq::empty()
    } else {
        let front = distinct(list.drop_last());
        if front.contains(list.last()) {
            front
        } else {
            front.push(list.last())
        }
    }
}

/// The communities of the nodes, in the order of the nodes.
pub open spec fn communities_in(nodes: Seq<GraphNode>) -> Seq<u32>
    decreases nodes.len(),
{
    if nodes.len() == 0 {
        Seq::empty()
    } else {
        match nodes.last().community {
            Some(c) => communities_in(nodes.drop_last()).push(c),
            None => communities_in(nodes.drop_last()),
        }
    }
}

/// The names of the nodes of community `c`, in the order of the nodes.
pub open spec fn names_in(nodes: Seq<GraphNode>, c: u32) -> Seq<Text>
    decreases nodes.len(),
{
    if nodes.len() == 0 {
        Seq::empty()
    } else if nodes.last().community == Some(c) {
        names_in(nodes.drop_last(), c).push(nodes.last().id@)
    } else {
        names_in(nodes.drop_last(), c)
    }
}

/// The nodes of community `c`, each once.
pub open spec fn members(nodes: Seq<GraphNode>, c: u32) -> Seq<Text> {
    distinct(names_in(nodes, c))
}

/// Whether a text is missing from a list.
pub open spec fn not_in(list: Seq<Text>) -> spec_fn(Text) -> bool {
    |t: Text| !list.contains(t)
}

/// The texts of `a` that `b` does not hold.
pub open spec fn missing(a: Seq<Text>, b: Seq<Text>) -> Seq<Text> {
    kept(a, not_in(b))
}

/// The larger of two counts, and at least one.
pub open spec fn larger(a: nat, b: nat) -> nat {
    let m = if a < b {
        b
    } else {
        a
    };
    if m == 0 {
        1
    } else {
        m
    }
}

/// What became of community `c` from `previous` to `current`.
pub open spec fn drift_of(current: Seq<GraphNode>, previous: Seq<GraphNode>, c: u32) -> CommunityDrift {
    let now = members(current, c);
    let then = members(previous, c);
    let added = missing(now, then).len();
    let removed = missing(then, now).len();
    CommunityDrift {
        community_id: c,
        nodes_added: added as usize,
        nodes_removed: removed as usize,
        node_count_current: now.len() as usize,
        node_count_previous: then.len() as usize,
        drift_score: Ratio {
            num: (added + removed) as u64,
            den: larger(now.len(), then.len()) as u64,
        },
    }
}

/// The communities of either graph, each once.
pub open spec fn all_communities(current: Seq<GraphNode>, previous: Seq<GraphNode>) -> Seq<u32> {
    distinct(communities_in(current) + communities_in(previous))
}

/// What became of each community.
pub open spec fn drifts(current: Seq<GraphNode>, previous: Seq<GraphNode>) -> Seq<CommunityDrift> {
    all_communities(current, previous).map_values(|c: u32| drift_of(current, previous, c))
}

/// A drift is at least `num / den`, both as double-precision numbers.
pub open spec fn attained(score: Ratio, num: nat, den: nat) -> bool {
    is_at_most(float_of(num, den, DOUBLE as nat), score.double())
}

/// Whether a drift is at least `num / den`.
fn attains(score: Ratio, num: u64, den: u64) -> (r: bool)
    requires
        den > 0,
    ensures
        r == attained(score, num as nat, den as nat),
{
    at_most(to_float(num as u128, den as u128, DOUBLE), score.to_double())
}

/// The order of a report: the higher drift goes first.
pub open spec fn higher_drift() -> spec_fn(CommunityDrift, CommunityDrift) -> bool {
    |a: CommunityDrift, b: CommunityDrift|
        !is_at_most(a.drift_score.double(), b.drift_score.double())
}

/// A community in which something changed.
pub open spec fn is_affected() -> spec_fn(CommunityDrift) -> bool {
    |d: CommunityDrift| d.nodes_added > 0 || d.nodes_removed > 0
}

/// A community whose drift is at least three tenths.
pub open spec fn is_high() -> spec_fn(CommunityDrift) -> bool {
    |d: CommunityDrift| attained(d.drift_score, 3, 10)
}

/// `r` reports the drift from `previous` to `current`.
pub open spec fn reports(
    r: DriftReport,
    current: GraphData,
    previous: GraphData,
    analyzed_at: Text,
) -> bool {
    let list = ranked(drifts(current.nodes@, previous.nodes@), higher_drift());
    &&& r.total_nodes_current == current.nodes@.len()
    &&& r.total_nodes_previous == previous.nodes@.len()
    &&& r.total_links_current == current.links@.len()
    &&& r.total_links_previous == previous.links@.len()
    &&& r.node_count_delta == current.nodes@.len() - previous.nodes@.len()
    &&& r.link_count_delta == current.links@.len() - previous.links@.len()
    &&& r.communities_affected == kept(drifts(current.nodes@, previous.nodes@), is_affected()).len()
    &&& r.community_drifts@ == list
    &&& r.high_drift_communities@ == kept(list, is_high())
    &&& r.analyzed_at@ == analyzed_at
}

/// The list without repetitions is no longer than the list.
proof fn lemma_distinct_len<T>(list: Seq<T>)
    ensures
        distinct(list).len() <= list.len(),
    decreases list.len(),
{
    if list.len() > 0 {
        lemma_distinct_len(list.drop_last());
    }
}

/// There are no more names in a community than nodes.
proof fn lemma_names_len(nodes: Seq<GraphNode>, c: u32)
    ensures
        names_in(nodes, c).len() <= nodes.len(),
        members(nodes, c).len() <= nodes.len(),
    decreases nodes.len(),
{
    if nodes.len() > 0 {
        lemma_names_len(nodes.drop_last(), c);
    }
    lemma_distinct_len(names_in(nodes, c));
}

/// What is kept of a list is no longer than the list.
proof fn lemma_kept_len<T>(list: Seq<T>, keep: spec_fn(T) -> bool)
    ensures
        kept(list, keep).len() <= list.len(),
    decreases list.len(),
{
    if list.len() > 0 {
        lemma_kept_len(list.drop_last(), keep);
    }
}

/// Whether `list` holds `c`.
fn has_number(list: &Vec<u32>, c: u32) -> (r: bool)
    ensures
        r == list@.contains(c),
{
    let mut i: usize = 0;
    while i < list.len()
        invariant
            i <= list@.len(),
            forall|k: int| 0 <= k < i ==> list@[k] != c,
        decreases list@.len() - i,
    {
        if list[i] == c {
            return true;
        }
        i = i + 1;
    }
    false
}

/// Adds the communities of `nodes` to `found`, each once.
fn add_communities(found: &mut Vec<u32>, nodes: &Vec<GraphNode>, Ghost(earlier): Ghost<Seq<u32>>)
    requires
        old(found)@ == distinct(earlier),
    ensures
        final(found)@ == distinct(earlier + communities_in(nodes@)),
{
    let ghost all = nodes@;
    let mut i: usize = 0;
    assert(earlier + communities_in(all.take(0)) == earlier);
    while i < nodes.len()
        invariant
            i <= nodes@.len(),
            all == nodes@,
            found@ == distinct(earlier + communities_in(all.take(i as int))),
        decreases nodes@.len() - i,
    {
        let ghost part = communities_in(all.take(i as int));
        assert(all.take(i + 1).drop_last() == all.take(i as int));
        assert(all.take(i + 1).last() == all[i as int]);
        match nodes[i].community {
            Some(c) => {
                let ghost longer = earlier + part.push(c);
                assert(longer.drop_last() == earlier + part);
                assert(longer.last() == c);
                if !has_number(found, c) {
                    found.push(c);
                }
            },
            None => {},
        }
        i = i + 1;
    }
    assert(all.take(i as int) == all);
}

impl GraphData {
    /// The nodes of each community, each once. Communities and nodes stand in the order in which
    /// they first occur.
    pub fn community_nodes(&self) -> (r: Vec<(u32, Vec<String>)>)
        ensures
            r@.len() == distinct(communities_in(self.nodes@)).len(),
            forall|i: int|
                0 <= i < r@.len() ==> (#[trigger] r@[i]).0 == distinct(
                    communities_in(self.nodes@),
                )[i] && views(r@[i].1@) == members(self.nodes@, r@[i].0),
    {
        let mut ids: Vec<u32> = Vec::new();
        let ghost none = Seq::<u32>::empty();
        add_communities(&mut ids, &self.nodes, Ghost(none));
        assert(none + communities_in(self.nodes@) == communities_in(self.nodes@));
        let mut out: Vec<(u32, Vec<String>)> = Vec::new();
        let mut i: usize = 0;
        while i < ids.len()
            invariant
                i <= ids@.len(),
                ids@ == distinct(communities_in(self.nodes@)),
                out@.len() == i,
                forall|k: int|
                    0 <= k < i ==> (#[trigger] out@[k]).0 == ids@[k] && views(out@[k].1@)
                        == members(self.nodes@, out@[k].0),
            decreases ids@.len() - i,
        {
            out.push((ids[i], self.members_of(ids[i])));
            i = i + 1;
        }
        out
    }

    /// The number of nodes of each community.
    pub fn community_sizes(&self) -> (r: Vec<(u32, usize)>)
        ensures
            r@ == distinct(communities_in(self.nodes@)).map_values(
                |c: u32| (c, members(self.nodes@, c).len() as usize),
            ),
    {
        let groups = self.community_nodes();
        let ghost ids = distinct(communities_in(self.nodes@));
        let mut out: Vec<(u32, usize)> = Vec::new();
        let mut i: usize = 0;
        while i < groups.len()
            invariant
                i <= groups@.len() == ids.len(),
                forall|k: int|
                    0 <= k < groups@.len() ==> (#[trigger] groups@[k]).0 == ids[k] && views(
                        groups@[k].1@,
                    ) == members(self.nodes@, groups@[k].0),
                out@.len() == i,
                forall|k: int|
                    0 <= k < i ==> (#[trigger] out@[k]) == (
                        ids[k],
                        members(self.nodes@, ids[k]).len() as usize,
                    ),
            decreases groups@.len() - i,
        {
            assert(views(groups@[i as int].1@).len() == groups@[i as int].1@.len());
            out.push((groups[i].0, groups[i].1.len()));
            i = i + 1;
        }
        out
    }

    /// The nodes of community `c`, each once.
    fn members_of(&self, c: u32) -> (r: Vec<String>)
        ensures
            views(r@) == members(self.nodes@, c),
    {
        let ghost all = self.nodes@;
        let mut out: Vec<String> = Vec::new();
        let mut i: usize = 0;
        assert(views(out@) == members(all.take(0), c));
        while i < self.nodes.len()
            invariant
                i <= self.nodes@.len(),
                all == self.nodes@,
                views(out@) == members(all.take(i as int), c),
            decreases self.nodes@.len() - i,
        {
            assert(all.take(i + 1).drop_last() == all.take(i as int));
            assert(all.take(i + 1).last() == all[i as int]);
            let here = match self.nodes[i].community {
                Some(d) => d == c,
                None => false,
            };
            if here {
                let ghost part = names_in(all.take(i as int), c);
                assert(part.push(all[i as int].id@).drop_last() == part);
                if !holds(&out, self.nodes[i].id.as_str()) {
                    let ghost before = out@;
                    out.push(self.nodes[i].id.clone());
                    assert(views(out@) == views(before).push(all[i as int].id@));
                }
            }
            i = i + 1;
        }
        assert(all.take(i as int) == all);
        out
    }
}

/// How many texts of `a` are missing from `b`.
fn count_missing(a: &Vec<String>, b: &Vec<String>) -> (r: usize)
    ensures
        r == missing(views(a@), views(b@)).len(),
        r <= a@.len(),
{
    let ghost all = views(a@);
    let mut n: usize = 0;
    let mut i: usize = 0;
    assert(missing(all.take(0), views(b@)).len() == 0);
    while i < a.len()
        invariant
            i <= a@.len() == all.len(),
            all == views(a@),
            n <= i,
            n == missing(all.take(i as int), views(b@)).len(),
        decreases a@.len() - i,
    {
        assert(all.take(i + 1).drop_last() == all.take(i as int));
        assert(all.take(i + 1).last() == a@[i as int]@);
        if !holds(b, a[i].as_str()) {
            n = n + 1;
        }
        i = i + 1;
    }
    assert(all.take(i as int) == all);
    n
}

/// What became of one community.
fn community_drift(current: &GraphData, previous: &GraphData, c: u32) -> (r: CommunityDrift)
    requires
        current.nodes@.len() <= i64::MAX,
        previous.nodes@.len() <= i64::MAX,
    ensures
        r == drift_of(current.nodes@, previous.nodes@, c),
        r.drift_score.wf(),
{
    let now = current.members_of(c);
    let then = previous.members_of(c);
    proof {
        lemma_names_len(current.nodes@, c);
        lemma_names_len(previous.nodes@, c);
        assert(views(now@).len() == now@.len());
        assert(views(then@).len() == then@.len());
    }
    let added = count_missing(&now, &then);
    let removed = count_missing(&then, &now);
    let most: usize = if now.len() < then.len() {
        then.len()
    } else {
        now.len()
    };
    let den: usize = if most == 0 {
        1
    } else {
        most
    };
    CommunityDrift {
        community_id: c,
        nodes_added: added,
        nodes_removed: removed,
        node_count_current: now.len(),
        node_count_previous: then.len(),
        drift_score: Ratio { num: added as u64 + removed as u64, den: den as u64 },
    }
}

/// Copies what references point to.
fn copied(list: &Vec<&CommunityDrift>) -> (r: Vec<CommunityDrift>)
    ensures
        r@ == items(list@),
{
    let mut out: Vec<CommunityDrift> = Vec::new();
    let mut i: usize = 0;
    while i < list.len()
        invariant
            i <= list@.len(),
            out@ == items(list@).take(i as int),
        decreases list@.len() - i,
    {
        assert(items(list@).take(i + 1) == items(list@).take(i as int).push(*list@[i as int]));
        out.push(*list[i]);
        i = i + 1;
    }
    assert(items(list@).take(i as int) == items(list@));
    out
}

/// Compares two snapshots of the graph. The paths of the report stay empty.
pub fn compare_graphs(current: &GraphData, previous: &GraphData, analyzed_at: &str) -> (r:
    DriftReport)
    requires
        current.nodes@.len() <= i64::MAX,
        previous.nodes@.len() <= i64::MAX,
        current.links@.len() <= i64::MAX,
        previous.links@.len() <= i64::MAX,
    ensures
        reports(r, *current, *previous, analyzed_at@),
        r.current_graph_path@.len() == 0,
        r.previous_graph_path@.len() == 0,
{
    let mut ids: Vec<u32> = Vec::new();
    let ghost none = Seq::<u32>::empty();
    add_communities(&mut ids, &current.nodes, Ghost(none));
    assert(none + communities_in(current.nodes@) == communities_in(current.nodes@));
    add_communities(&mut ids, &previous.nodes, Ghost(communities_in(current.nodes@)));
    let ghost all = drifts(current.nodes@, previous.nodes@);
    let mut found: Vec<CommunityDrift> = Vec::new();
    let mut affected: usize = 0;
    let mut i: usize = 0;
    assert(kept(all.take(0), is_affected()).len() == 0);
    while i < ids.len()
        invariant
            i <= ids@.len() == all.len(),
            ids@ == all_communities(current.nodes@, previous.nodes@),
            all == drifts(current.nodes@, previous.nodes@),
            current.nodes@.len() <= i64::MAX,
            previous.nodes@.len() <= i64::MAX,
            found@ == all.take(i as int),
            affected <= i,
            affected == kept(all.take(i as int), is_affected()).len(),
        decreases ids@.len() - i,
    {
        let drift = community_drift(current, previous, ids[i]);
        assert(all[i as int] == drift);
        assert(all.take(i + 1) == all.take(i as int).push(drift));
        assert(all.take(i + 1).drop_last() == all.take(i as int));
        assert(all.take(i + 1).last() == drift);
        if drift.nodes_added > 0 || drift.nodes_removed > 0 {
            affected = affected + 1;
        }
        found.push(drift);
        i = i + 1;
    }
    assert(all.take(i as int) == all);
    let refs = refs_of(&found);
    let ahead = |a: &CommunityDrift, b: &CommunityDrift| -> (r: bool)
        ensures
            r == higher_drift()(*a, *b),
        { !at_most(a.drift_score.to_double(), b.drift_score.to_double()) };
    let sorted = rank_refs(&refs, ahead, Ghost(higher_drift()));
    let drifts_found = copied(&sorted);
    let high = |d: &CommunityDrift| -> (r: bool)
        ensures
            r == is_high()(*d),
        { attains(d.drift_score, 3, 10) };
    let chosen = select_all(&drifts_found, high, Ghost(is_high()));
    let high_drift = copied(&chosen);
    DriftReport {
        current_graph_path: String::new(),
        previous_graph_path: String::new(),
        total_nodes_current: current.nodes.len(),
        total_nodes_previous: previous.nodes.len(),
        total_links_current: current.links.len(),
        total_links_previous: previous.links.len(),
        node_count_delta: current.nodes.len() as i64 - previous.nodes.len() as i64,
        link_count_delta: current.links.len() as i64 - previous.links.len() as i64,
        communities_affected: affected,
        community_drifts: drifts_found,
        high_drift_communities: high_drift,
        analyzed_at: analyzed_at.to_owned(),
    }
}

/// The report on a graph and the snapshot before it; none where either is missing.
pub fn run_graph_diff(
    current: Option<&GraphData>,
    current_graph_path: &str,
    previous: Option<&GraphData>,
    previous_graph_path: &str,
    analyzed_at: &str,
) -> (r: Option<DriftReport>)
    requires
        current matches Some(g) ==> g.nodes@.len() <= i64::MAX && g.links@.len() <= i64::MAX,
        previous matches Some(g) ==> g.nodes@.len() <= i64::MAX && g.links@.len() <= i64::MAX,
    ensures
        r is Some <==> current is Some && previous is Some,
        r matches Some(report) ==> reports(report, *current->0, *previous->0, analyzed_at@)
            && report.current_graph_path@ == current_graph_path@ && report.previous_graph_path@
            == previous_graph_path@,
{
    match (current, previous) {
        (Some(now), Some(then)) => {
            let mut report = compare_graphs(now, then, analyzed_at);
            report.current_graph_path = current_graph_path.to_owned();
            report.previous_graph_path = previous_graph_path.to_owned();
            Some(report)
        },
        _ => None,
    }
}

/// The name of a JSON file.
pub open spec fn is_snapshot_name(name: Text) -> bool {
    name.len() > 5 && name.skip(name.len() - 5) == ".json"@
}

/// Whether a name is that of a JSON file.
fn snapshot_name(name: &str) -> (r: bool)
    ensures
        r == is_snapshot_name(name@),
{
    proof {
        reveal_strlit(".json");
    }
    chars_of(name).len() > 5 && ends_with(name, ".json")
}

/// Names of JSON files.
pub open spec fn snapshot_names() -> spec_fn(String) -> bool {
    |s: String| is_snapshot_name(s@)
}

/// The order of a listing: the later name goes first.
pub open spec fn later_name() -> spec_fn(String, String) -> bool {
    |a: String, b: String| text_lt(b@, a@)
}

/// The snapshots among the files of a directory, the latest name first.
pub open spec fn listing(names: Seq<String>) -> Seq<String> {
    ranked(kept(names, snapshot_names()), later_name())
}

/// A snapshot other than `current`. Where `current` lies among the snapshots, its name stands
/// before that of `current`; a graph that lies elsewhere is later than any of them.
pub open spec fn is_earlier(among: bool, current: Text) -> spec_fn(String) -> bool {
    |s: String| is_snapshot_name(s@) && s@ != current && (among ==> text_lt(s@, current))
}

/// The snapshots before `current`, the latest name first.
pub open spec fn earlier_listing(names: Seq<String>, current: Text) -> Seq<String> {
    ranked(kept(names, is_earlier(views(names).contains(current), current)), later_name())
}

/// The snapshots among the files of a directory, the latest name first.
pub fn list_snapshots<'a>(names: &'a Vec<String>) -> (r: Vec<&'a String>)
    ensures
        items(r@) == listing(names@),
{
    let is_json = |s: &String| -> (b: bool)
        ensures
            b == is_snapshot_name(s@),
        { snapshot_name(s.as_str()) };
    let found = select_all(names, is_json, Ghost(snapshot_names()));
    let ahead = |a: &String, b: &String| -> (r: bool)
        ensures
            r == text_lt(b@, a@),
        { before(b.as_str(), a.as_str()) };
    rank_refs(&found, ahead, Ghost(later_name()))
}

/// The latest snapshot before `current`, among the files of the directory of snapshots.
pub fn find_previous_snapshot<'a>(names: &'a Vec<String>, current: &str) -> (r: Option<&'a String>)
    ensures
        r is Some <==> earlier_listing(names@, current@).len() > 0,
        r matches Some(s) ==> *s == earlier_listing(names@, current@)[0],
{
    let among = holds(names, current);
    let earlier = |s: &String| -> (b: bool)
        ensures
            b == is_earlier(among, current@)(*s),
        {
            snapshot_name(s.as_str()) && !same(s.as_str(), current) && (!among || before(
                s.as_str(),
                current,
            ))
        };
    let found = select_all(names, earlier, Ghost(is_earlier(among, current@)));
    let ahead = |a: &String, b: &String| -> (r: bool)
        ensures
            r == text_lt(b@, a@),
        { before(b.as_str(), a.as_str()) };
    let sorted = rank_refs(&found, ahead, Ghost(later_name()));
    assert(items(sorted@).len() == sorted@.len());
    if sorted.len() > 0 {
        assert(items(sorted@)[0] == *sorted@[0]);
        Some(sorted[0])
    } else {
        None
    }
}

/// The snapshot found lies before the current graph, and none that does has a later name.
pub proof fn law_previous_is_latest(names: Seq<String>, current: Text, i: int)
    requires
        0 <= i < names.len(),
        is_earlier(views(names).contains(current), current)(names[i]),
    ensures
        earlier_listing(names, current).len() > 0,
        names.contains(earlier_listing(names, current)[0]),
        is_earlier(views(names).contains(current), current)(earlier_listing(names, current)[0]),
        !text_lt(earlier_listing(names, current)[0]@, names[i]@),
{
    broadcast use vstd::seq_lib::group_to_multiset_ensures;

    let keep = is_earlier(views(names).contains(current), current);
    let found = kept(names, keep);
    let sorted = earlier_listing(names, current);
    lemma_later_name_ranks(found);
    lemma_kept_finds(names, keep, i);
    assert(found.to_multiset().count(names[i]) > 0);
    assert(sorted.contains(names[i]));
    let j = choose|j: int| 0 <= j < sorted.len() && sorted[j] == names[i];
    lemma_text_total(names[i]@, names[i]@);
    if j > 0 {
        assert(!later_name()(sorted[j], sorted[0]));
    }
    assert(sorted.contains(sorted[0]));
    assert(found.to_multiset().count(sorted[0]) > 0);
    let k = choose|k: int| 0 <= k < found.len() && found[k] == sorted[0];
    lemma_kept_holds(names, keep, k);
}

/// A listing is in the order of the names, the latest first, and loses none.
proof fn lemma_later_name_ranks(list: Seq<String>)
    ensures
        in_rank(ranked(list, later_name()), later_name()),
        ranked(list, later_name()).to_multiset() == list.to_multiset(),
        ranked(list, later_name()).len() == list.len(),
{
    let ahead = later_name();
    let ok = |s: String| true;
    assert forall|a: String, b: String| ok(a) && ok(b) implies !(#[trigger] ahead(a, b) && ahead(
        b,
        a,
    )) by {
        lemma_text_total(a@, b@);
    }
    assert forall|a: String, b: String, c: String|
        ok(a) && ok(b) && ok(c) && !#[trigger] ahead(b, a) && !#[trigger] ahead(c, b) implies !ahead(
        c,
        a,
    ) by {
        lemma_text_total(a@, b@);
        lemma_text_total(b@, c@);
        if text_lt(a@, c@) && text_lt(b@, a@) {
            lemma_text_transitive(b@, a@, c@);
        }
    }
    law_ranking_orders(list, ahead, ok);
}

/// The boost in percent for a drift: threefold from a half, twofold from three tenths, one and a
/// half from a tenth.
pub open spec fn boost_of(score: Ratio) -> u32 {
    if attained(score, 1, 2) {
        300
    } else if attained(score, 3, 10) {
        200
    } else if attained(score, 1, 10) {
        150
    } else {
        100
    }
}

/// The weight of a community.
pub open spec fn weight_of() -> spec_fn(CommunityDrift) -> CommunityWeight {
    |d: CommunityDrift|
        CommunityWeight {
            community_id: d.community_id,
            drift_score: d.drift_score,
            priority_boost: boost_of(d.drift_score),
        }
}

/// The weights of the communities of a report.
pub fn compute_community_weights(report: &DriftReport) -> (r: Vec<CommunityWeight>)
    ensures
        r@ == report.community_drifts@.map_values(weight_of()),
{
    let ghost all = report.community_drifts@;
    let mut out: Vec<CommunityWeight> = Vec::new();
    let mut i: usize = 0;
    while i < report.community_drifts.len()
        invariant
            i <= all.len(),
            all == report.community_drifts@,
            out@ == all.take(i as int).map_values(weight_of()),
        decreases all.len() - i,
    {
        let d = report.community_drifts[i];
        let boost: u32 = if attains(d.drift_score, 1, 2) {
            300
        } else if attains(d.drift_score, 3, 10) {
            200
        } else if attains(d.drift_score, 1, 10) {
            150
        } else {
            100
        };
        assert(all.take(i + 1) == all.take(i as int).push(d));
        out.push(
            CommunityWeight {
                community_id: d.community_id,
                drift_score: d.drift_score,
                priority_boost: boost,
            },
        );
        i = i + 1;
    }
    assert(all.take(i as int) == all);
    out
}

/// One community of a report as JSON. `score` is the drift in the notation of JSON.
pub open spec fn drift_json(d: CommunityDrift, score: Text) -> JsonView {
    JsonView::Object(
        no_fields().push(("community_id"@, JsonView::Unsigned(d.community_id as nat))).push(
            ("nodes_added"@, JsonView::Unsigned(d.nodes_added as nat)),
        ).push(("nodes_removed"@, JsonView::Unsigned(d.nodes_removed as nat))).push(
            ("node_count_current"@, JsonView::Unsigned(d.node_count_current as nat)),
        ).push(("node_count_previous"@, JsonView::Unsigned(d.node_count_previous as nat))).push(
            ("drift_score"@, JsonView::Float(score)),
        ),
    )
}

/// The communities of a report as JSON.
pub open spec fn drifts_json(list: Seq<CommunityDrift>, scores: Seq<Text>) -> Seq<JsonView> {
    Seq::new(list.len(), |i: int| drift_json(list[i], scores[i]))
}

/// A report as JSON.
pub open spec fn report_json(r: DriftReport, scores: Seq<Text>) -> JsonView {
    JsonView::Object(
        no_fields().push(("current_graph"@, JsonView::Text(r.current_graph_path@))).push(
            ("previous_graph"@, JsonView::Text(r.previous_graph_path@)),
        ).push(("total_nodes_current"@, JsonView::Unsigned(r.total_nodes_current as nat))).push(
            ("total_nodes_previous"@, JsonView::Unsigned(r.total_nodes_previous as nat)),
        ).push(("node_count_delta"@, integer_view(r.node_count_delta as int))).push(
            ("link_count_delta"@, integer_view(r.link_count_delta as int)),
        ).push(("communities_affected"@, JsonView::Unsigned(r.communities_affected as nat))).push(
            ("high_drift_count"@, JsonView::Unsigned(r.high_drift_communities@.len())),
        ).push(("analyzed_at"@, JsonView::Text(r.analyzed_at@))).push(
            ("community_drifts"@, JsonView::List(drifts_json(r.community_drifts@, scores))),
        ),
    )
}

/// Writes one community of a report.
fn drift_entry(d: &CommunityDrift, score: &str) -> (r: Json)
    ensures
        r@ == drift_json(*d, score@),
{
    let mut e = no_entries();
    add_field(&mut e, "community_id", Json::Unsigned(d.community_id as u64));
    add_field(&mut e, "nodes_added", Json::Unsigned(d.nodes_added as u64));
    add_field(&mut e, "nodes_removed", Json::Unsigned(d.nodes_removed as u64));
    add_field(&mut e, "node_count_current", Json::Unsigned(d.node_count_current as u64));
    add_field(&mut e, "node_count_previous", Json::Unsigned(d.node_count_previous as u64));
    add_field(&mut e, "drift_score", Json::Float(score.to_owned()));
    object(e)
}

/// A report as JSON. `scores` are the drifts of its communities in the notation of JSON.
pub fn drift_report_to_json(report: &DriftReport, scores: &Vec<String>) -> (r: Json)
    requires
        scores@.len() == report.community_drifts@.len(),
    ensures
        r@ == report_json(*report, views(scores@)),
{
    let ghost all = drifts_json(report.community_drifts@, views(scores@));
    let mut entries: Vec<Json> = Vec::new();
    let mut i: usize = 0;
    assert(views_of(entries@) == all.take(0));
    while i < report.community_drifts.len()
        invariant
            i <= report.community_drifts@.len() == scores@.len(),
            all == drifts_json(report.community_drifts@, views(scores@)),
            views_of(entries@) == all.take(i as int),
        decreases report.community_drifts@.len() - i,
    {
        let ghost before = entries@;
        entries.push(drift_entry(&report.community_drifts[i], scores[i].as_str()));
        assert(views_of(entries@) == views_of(before).push(all[i as int]));
        assert(all.take(i + 1) == all.take(i as int).push(all[i as int]));
        i = i + 1;
    }
    assert(all.take(i as int) == all);
    let mut e = no_entries();
    add_field(&mut e, "current_graph", text(report.current_graph_path.as_str()));
    add_field(&mut e, "previous_graph", text(report.previous_graph_path.as_str()));
    add_field(&mut e, "total_nodes_current", Json::Unsigned(report.total_nodes_current as u64));
    add_field(&mut e, "total_nodes_previous", Json::Unsigned(report.total_nodes_previous as u64));
    add_field(&mut e, "node_count_delta", integer(report.node_count_delta));
    add_field(&mut e, "link_count_delta", integer(report.link_count_delta));
    add_field(&mut e, "communities_affected", Json::Unsigned(report.communities_affected as u64));
    add_field(
        &mut e,
        "high_drift_count",
        Json::Unsigned(report.high_drift_communities.len() as u64),
    );
    add_field(&mut e, "analyzed_at", text(report.analyzed_at.as_str()));
    add_field(&mut e, "community_drifts", list(entries));
    object(e)
}

/// A list without repetitions holds what the list holds, each item once.
pub proof fn law_distinct<T>(list: Seq<T>)
    ensures
        distinct(list).no_duplicates(),
        forall|x: T| (#[trigger] distinct(list).contains(x)) <==> list.contains(x),
    decreases list.len(),
{
    if list.len() > 0 {
        let start = list.drop_last();
        let front = distinct(start);
        law_distinct(start);
        assert(list == start.push(list.last()));
        assert forall|x: T| (#[trigger] distinct(list).contains(x)) <==> list.contains(x) by {
            assert(front.contains(x) <==> start.contains(x));
            if start.contains(x) {
                let k = choose|k: int| 0 <= k < start.len() && start[k] == x;
                assert(list[k] == x);
            }
            if list.contains(x) {
                let k = choose|k: int| 0 <= k < list.len() && list[k] == x;
                if k < start.len() {
                    assert(start[k] == x);
                }
            }
            assert(list[list.len() - 1] == list.last());
            if !front.contains(list.last()) {
                let longer = front.push(list.last());
                assert(longer[front.len() as int] == list.last());
                if front.contains(x) {
                    let k = choose|k: int| 0 <= k < front.len() && front[k] == x;
                    assert(longer[k] == x);
                }
                if longer.contains(x) {
                    let k = choose|k: int| 0 <= k < longer.len() && longer[k] == x;
                    if k < front.len() {
                        assert(front[k] == x);
                    }
                }
            }
        }
    }
}

/// What is kept of a list in which another holds every item is nothing.
proof fn lemma_none_missing(a: Seq<Text>, b: Seq<Text>)
    requires
        forall|i: int| 0 <= i < a.len() ==> b.contains(#[trigger] a[i]),
    ensures
        missing(a, b).len() == 0,
    decreases a.len(),
{
    if a.len() > 0 {
        assert forall|i: int| 0 <= i < a.drop_last().len() implies b.contains(
            #[trigger] a.drop_last()[i],
        ) by {
            assert(a.drop_last()[i] == a[i]);
        }
        assert(b.contains(a[a.len() - 1]));
        lemma_none_missing(a.drop_last(), b);
    }
}

/// Between a graph and itself no community drifts.
pub proof fn law_same_graph_no_drift(nodes: Seq<GraphNode>)
    ensures
        forall|i: int|
            0 <= i < drifts(nodes, nodes).len() ==> (#[trigger] drifts(nodes, nodes)[i]).nodes_added
                == 0 && drifts(nodes, nodes)[i].nodes_removed == 0 && drifts(
                nodes,
                nodes,
            )[i].drift_score.num == 0,
        kept(drifts(nodes, nodes), is_affected()).len() == 0,
{
    let all = drifts(nodes, nodes);
    assert forall|i: int| 0 <= i < all.len() implies (#[trigger] all[i]).nodes_added == 0
        && all[i].nodes_removed == 0 && all[i].drift_score.num == 0 by {
        let m = members(nodes, all_communities(nodes, nodes)[i]);
        assert forall|k: int| 0 <= k < m.len() implies m.contains(#[trigger] m[k]) by {}
        lemma_none_missing(m, m);
    }
    lemma_nothing_kept(all, is_affected());
}

/// Where nothing fits, nothing is kept.
proof fn lemma_nothing_kept<T>(list: Seq<T>, keep: spec_fn(T) -> bool)
    requires
        forall|i: int| 0 <= i < list.len() ==> !keep(#[trigger] list[i]),
    ensures
        kept(list, keep).len() == 0,
    decreases list.len(),
{
    if list.len() > 0 {
        assert forall|i: int| 0 <= i < list.drop_last().len() implies !keep(
            #[trigger] list.drop_last()[i],
        ) by {
            assert(list.drop_last()[i] == list[i]);
        }
        assert(!keep(list[list.len() - 1]));
        lemma_nothing_kept(list.drop_last(), keep);
    }
}

/// Looking from the other side, what was added was removed and what was removed was added; the
/// drift is the same.
pub proof fn law_drift_is_mutual(current: Seq<GraphNode>, previous: Seq<GraphNode>, c: u32)
    ensures
        drift_of(previous, current, c).nodes_added == drift_of(current, previous, c).nodes_removed,
        drift_of(previous, current, c).nodes_removed == drift_of(current, previous, c).nodes_added,
        drift_of(previous, current, c).drift_score == drift_of(current, previous, c).drift_score,
{
}

/// The items of a list without repetitions that another list holds, and those it does not.
proof fn lemma_split(a: Seq<Text>, b: Seq<Text>)
    requires
        a.no_duplicates(),
    ensures
        a.to_set().finite(),
        a.to_set().len() == a.len(),
        a.to_set().intersect(b.to_set()).len() + missing(a, b).len() == a.len(),
    decreases a.len(),
{
    a.unique_seq_to_set();
    if a.len() > 0 {
        let start = a.drop_last();
        assert(start.no_duplicates()) by {
            assert forall|i: int, j: int|
                0 <= i < start.len() && 0 <= j < start.len() && i != j implies start[i]
                != start[j] by {
                assert(a[i] == start[i] && a[j] == start[j]);
            }
        }
        lemma_split(start, b);
        let x = a.last();
        assert(!start.contains(x)) by {
            if start.contains(x) {
                let k = choose|k: int| 0 <= k < start.len() && start[k] == x;
                assert(a[k] == a[a.len() - 1]);
            }
        }
        let common = start.to_set().intersect(b.to_set());
        assert(a.to_set() == start.to_set().insert(x)) by {
            assert forall|t: Text| a.contains(t) == (start.contains(t) || t == x) by {
                if start.contains(t) {
                    let k = choose|k: int| 0 <= k < start.len() && start[k] == t;
                    assert(a[k] == t);
                }
                if a.contains(t) {
                    let k = choose|k: int| 0 <= k < a.len() && a[k] == t;
                    if k < start.len() {
                        assert(start[k] == t);
                    }
                }
                assert(a[a.len() - 1] == x);
            }
        }
        if b.contains(x) {
            assert(a.to_set().intersect(b.to_set()) == common.insert(x));
        } else {
            assert(a.to_set().intersect(b.to_set()) == common);
        }
    } else {
        assert(a.to_set().intersect(b.to_set()) == Set::<Text>::empty());
    }
}

/// A community has what it had, less what was removed, plus what was added.
pub proof fn law_counts_add_up(current: Seq<GraphNode>, previous: Seq<GraphNode>, c: u32)
    ensures
        members(current, c).len() + missing(members(previous, c), members(current, c)).len()
            == members(previous, c).len() + missing(
            members(current, c),
            members(previous, c),
        ).len(),
{
    let now = members(current, c);
    let then = members(previous, c);
    law_distinct(names_in(current, c));
    law_distinct(names_in(previous, c));
    lemma_split(now, then);
    lemma_split(then, now);
    assert(now.to_set().intersect(then.to_set()) == then.to_set().intersect(now.to_set()));
}

/// A drift is at most two, and at most one where nodes only came or only went.
pub proof fn law_drift_is_bounded(current: Seq<GraphNode>, previous: Seq<GraphNode>, c: u32)
    requires
        current.len() <= i64::MAX,
        previous.len() <= i64::MAX,
        current.len() <= usize::MAX,
        previous.len() <= usize::MAX,
    ensures
        drift_of(current, previous, c).drift_score.den > 0,
        drift_of(current, previous, c).drift_score.num <= 2 * drift_of(
            current,
            previous,
            c,
        ).drift_score.den,
        (drift_of(current, previous, c).nodes_added == 0 || drift_of(
            current,
            previous,
            c,
        ).nodes_removed == 0) ==> drift_of(current, previous, c).drift_score.is_share(),
{
    let now = members(current, c);
    let then = members(previous, c);
    lemma_names_len(current, c);
    lemma_names_len(previous, c);
    lemma_kept_len(now, not_in(then));
    lemma_kept_len(then, not_in(now));
}

/// A report begins with the highest drift.
pub proof fn law_highest_drift_first(current: Seq<GraphNode>, previous: Seq<GraphNode>)
    ensures
        ranked(drifts(current, previous), higher_drift()).len() == drifts(current, previous).len(),
        forall|i: int, j: int|
            0 <= i < j < drifts(current, previous).len() ==> !higher_drift()(
                #[trigger] ranked(drifts(current, previous), higher_drift())[j],
                #[trigger] ranked(drifts(current, previous), higher_drift())[i],
            ),
{
    let ok = |d: CommunityDrift| true;
    let ahead = higher_drift();
    assert(is_ranking(ahead, ok)) by {
        assert forall|a: CommunityDrift, b: CommunityDrift|
            ok(a) && ok(b) implies !(#[trigger] ahead(a, b) && ahead(b, a)) by {
            let (p, q) = (a.drift_score.double(), b.drift_score.double());
            law_numbers_are_ordered(p, q, q);
        }
        assert forall|a: CommunityDrift, b: CommunityDrift, c: CommunityDrift|
            ok(a) && ok(b) && ok(c) && !#[trigger] ahead(b, a) && !#[trigger] ahead(
                c,
                b,
            ) implies !ahead(c, a) by {
            law_numbers_are_ordered(
                c.drift_score.double(),
                b.drift_score.double(),
                a.drift_score.double(),
            );
        }
    }
    law_ranking_orders(drifts(current, previous), ahead, ok);
}

/// A higher drift never gets a smaller boost.
pub proof fn law_boost_grows_with_drift(a: Ratio, b: Ratio)
    requires
        is_at_most(b.double(), a.double()),
    ensures
        boost_of(b) <= boost_of(a),
{
    law_numbers_are_ordered(float_of(1, 2, DOUBLE as nat), b.double(), a.double());
    law_numbers_are_ordered(float_of(3, 10, DOUBLE as nat), b.double(), a.double());
    law_numbers_are_ordered(float_of(1, 10, DOUBLE as nat), b.double(), a.double());
}

/// The ids of the nodes of a community.
pub open spec fn ids_in(nodes: Seq<GraphNode>, c: u32) -> Set<Text> {
    Set::new(
        |id: Text|
            exists|i: int|
                0 <= i < nodes.len() && (#[trigger] nodes[i]).community == Some(c) && nodes[i].id@
                    == id,
    )
}

/// The members of a community are the nodes of it, each once.
proof fn lemma_members_are(nodes: Seq<GraphNode>, c: u32)
    ensures
        members(nodes, c).no_duplicates(),
        members(nodes, c).to_set() == ids_in(nodes, c),
        ids_in(nodes, c).finite(),
        ids_in(nodes, c).len() == members(nodes, c).len(),
{
    law_distinct(names_in(nodes, c));
    assert forall|id: Text| names_in(nodes, c).contains(id) <==> #[trigger] ids_in(
        nodes,
        c,
    ).contains(id) by {
        lemma_names_are(nodes, c, id);
    }
    assert(members(nodes, c).to_set() =~= ids_in(nodes, c));
    members(nodes, c).unique_seq_to_set();
}

/// The names of a community are the ids of its nodes.
proof fn lemma_names_are(nodes: Seq<GraphNode>, c: u32, id: Text)
    ensures
        names_in(nodes, c).contains(id) <==> ids_in(nodes, c).contains(id),
    decreases nodes.len(),
{
    if nodes.len() > 0 {
        let start = nodes.drop_last();
        lemma_names_are(start, c, id);
        let all = names_in(nodes, c);
        let before = names_in(start, c);
        if before.contains(id) {
            let k = choose|k: int| 0 <= k < before.len() && before[k] == id;
            assert(all[k] == id);
        }
        if ids_in(start, c).contains(id) {
            let i = choose|i: int|
                0 <= i < start.len() && (#[trigger] start[i]).community == Some(c) && start[i].id@
                    == id;
            assert(nodes[i] == start[i]);
        }
        if ids_in(nodes, c).contains(id) {
            let i = choose|i: int|
                0 <= i < nodes.len() && (#[trigger] nodes[i]).community == Some(c) && nodes[i].id@
                    == id;
            if i < start.len() {
                assert(start[i] == nodes[i]);
            } else {
                assert(all[all.len() - 1] == id);
            }
        }
        if all.contains(id) && !before.contains(id) {
            let k = choose|k: int| 0 <= k < all.len() && all[k] == id;
            if k < before.len() {
                assert(before[k] == id);
            }
            assert(nodes[nodes.len() - 1].id@ == id);
        }
    }
}

/// The texts of a list without repetitions that another lacks are as many as the sets tell.
proof fn lemma_missing_are(a: Seq<Text>, b: Seq<Text>)
    requires
        a.no_duplicates(),
    ensures
        missing(a, b).len() == a.to_set().difference(b.to_set()).len(),
{
    let left = missing(a, b);
    lemma_kept_distinct(a, not_in(b));
    left.unique_seq_to_set();
    assert forall|t: Text| left.to_set().contains(t) <==> #[trigger] a.to_set().difference(
        b.to_set(),
    ).contains(t) by {
        lemma_kept_is(a, not_in(b), t);
    }
    assert(left.to_set() =~= a.to_set().difference(b.to_set()));
}

/// What is kept of a list without repetitions has none.
proof fn lemma_kept_distinct(list: Seq<Text>, keep: spec_fn(Text) -> bool)
    requires
        list.no_duplicates(),
    ensures
        kept(list, keep).no_duplicates(),
    decreases list.len(),
{
    if list.len() > 0 {
        let start = list.drop_last();
        lemma_kept_distinct(start, keep);
        let before = kept(start, keep);
        assert forall|i: int| 0 <= i < before.len() implies #[trigger] before[i]
            != list.last() by {
            lemma_kept_holds(start, keep, i);
            let k = choose|k: int| 0 <= k < start.len() && start[k] == before[i];
            assert(list[k] != list[list.len() - 1]);
        }
    }
}

/// A community drifts by the nodes that it has and did not have, and by those that it had and has
/// no more, each counted once; its score sets their number against the larger of its two sizes.
pub proof fn law_drift_counts_what_came_and_went(
    current: Seq<GraphNode>,
    previous: Seq<GraphNode>,
    c: u32,
)
    requires
        current.len() <= i64::MAX,
        previous.len() <= i64::MAX,
        current.len() <= usize::MAX,
        previous.len() <= usize::MAX,
    ensures
        ({
            let d = drift_of(current, previous, c);
            let now = ids_in(current, c);
            let then = ids_in(previous, c);
            &&& d.community_id == c
            &&& d.nodes_added == now.difference(then).len()
            &&& d.nodes_removed == then.difference(now).len()
            &&& d.node_count_current == now.len()
            &&& d.node_count_previous == then.len()
            &&& d.drift_score.num == now.difference(then).len() + then.difference(now).len()
            &&& now.len() >= then.len() && now.len() > 0 ==> d.drift_score.den == now.len()
            &&& then.len() >= now.len() && then.len() > 0 ==> d.drift_score.den == then.len()
        }),
{
    let a = members(current, c);
    let b = members(previous, c);
    lemma_members_are(current, c);
    lemma_members_are(previous, c);
    lemma_missing_are(a, b);
    lemma_missing_are(b, a);
    lemma_names_len(current, c);
    lemma_names_len(previous, c);
    lemma_kept_len(a, not_in(b));
    lemma_kept_len(b, not_in(a));
}

/// A report tells of every community that a node of either graph belongs to, once, and of no other.
pub proof fn law_every_community_is_reported(
    current: Seq<GraphNode>,
    previous: Seq<GraphNode>,
    c: u32,
)
    ensures
        all_communities(current, previous).no_duplicates(),
        all_communities(current, previous).contains(c) <==> (exists|i: int|
            0 <= i < current.len() && (#[trigger] current[i]).community == Some(c)) || (exists|
            i: int,
        |
            0 <= i < previous.len() && (#[trigger] previous[i]).community == Some(c)),
        drifts(current, previous).len() == all_communities(current, previous).len(),
        forall|k: int|
            0 <= k < drifts(current, previous).len() ==> #[trigger] drifts(current, previous)[k]
                == drift_of(current, previous, all_communities(current, previous)[k]),
{
    let a = communities_in(current);
    let b = communities_in(previous);
    law_distinct(a + b);
    lemma_communities_are(current, c);
    lemma_communities_are(previous, c);
    if a.contains(c) {
        let k = choose|k: int| 0 <= k < a.len() && a[k] == c;
        assert((a + b)[k] == c);
    }
    if b.contains(c) {
        let k = choose|k: int| 0 <= k < b.len() && b[k] == c;
        assert((a + b)[a.len() + k] == c);
    }
    if (a + b).contains(c) {
        let k = choose|k: int| 0 <= k < (a + b).len() && (a + b)[k] == c;
        if k < a.len() {
            assert(a[k] == c);
        } else {
            assert(b[k - a.len()] == c);
        }
    }
}

/// The communities of nodes are those that some node names.
proof fn lemma_communities_are(nodes: Seq<GraphNode>, c: u32)
    ensures
        communities_in(nodes).contains(c) <==> exists|i: int|
            0 <= i < nodes.len() && (#[trigger] nodes[i]).community == Some(c),
    decreases nodes.len(),
{
    if nodes.len() > 0 {
        let start = nodes.drop_last();
        lemma_communities_are(start, c);
        let all = communities_in(nodes);
        let before = communities_in(start);
        if before.contains(c) {
            let k = choose|k: int| 0 <= k < before.len() && before[k] == c;
            assert(all[k] == c);
            let i = choose|i: int|
                0 <= i < start.len() && (#[trigger] start[i]).community == Some(c);
            assert(nodes[i].community == Some(c));
        } else if nodes.last().community == Some(c) {
            assert(nodes[nodes.len() - 1].community == Some(c));
            assert(all[all.len() - 1] == c);
        } else {
            if all.contains(c) {
                let k = choose|k: int| 0 <= k < all.len() && all[k] == c;
                assert(before[k] == c);
            }
            if exists|i: int| 0 <= i < nodes.len() && (#[trigger] nodes[i]).community == Some(c) {
                let i = choose|i: int|
                    0 <= i < nodes.len() && (#[trigger] nodes[i]).community == Some(c);
                assert(start[i].community == Some(c));
            }
        }
    }
}

/// A report counts as affected the communities that gained or lost a node, and calls high the drift
/// of those that score at least three tenths.
pub proof fn law_report_picks_what_changed(list: Seq<CommunityDrift>, d: CommunityDrift)
    ensures
        d.nodes_added > 0 || d.nodes_removed > 0 ==> kept(list.push(d), is_affected()).len()
            == kept(list, is_affected()).len() + 1,
        d.nodes_added == 0 && d.nodes_removed == 0 ==> kept(list.push(d), is_affected()).len()
            == kept(list, is_affected()).len(),
        kept(list, is_high()).contains(d) <==> list.contains(d) && is_at_most(
            float_of(3, 10, 53),
            d.drift_score.double(),
        ),
{
    law_selecting_goes_item_by_item(list, is_affected(), d);
    lemma_kept_is(list, is_high(), d);
}

/// A community is boosted threefold from a drift of a half, twofold from three tenths, one and a
/// half times from a tenth, and not at all below.
pub proof fn law_boost_is_told_by_the_drift(d: CommunityDrift)
    ensures
        ({
            let score = d.drift_score.double();
            let boost = weight_of()(d).priority_boost;
            let half = is_at_most(float_of(1, 2, 53), score);
            let thirty = is_at_most(float_of(3, 10, 53), score);
            let ten = is_at_most(float_of(1, 10, 53), score);
            &&& half ==> boost == 300
            &&& !half && thirty ==> boost == 200
            &&& !half && !thirty && ten ==> boost == 150
            &&& !half && !thirty && !ten ==> boost == 100
            &&& weight_of()(d).community_id == d.community_id
            &&& weight_of()(d).drift_score == d.drift_score
        }),
{
}

/// A file is listed as a snapshot just where its name ends in `.json` and has something before it;
/// what counts as earlier than a graph is a snapshot of another name, and one whose name stands
/// before it where the graph lies among them.
pub proof fn law_snapshots_are_told_by_their_names(
    names: Seq<String>,
    stem: Text,
    current: Text,
    s: String,
)
    ensures
        stem.len() > 0 ==> is_snapshot_name(stem + ".json"@),
        !is_snapshot_name(".json"@),
        is_snapshot_name(s@) ==> s@ =~= s@.take(s@.len() - 5) + ".json"@ && s@.len() > 5,
        kept(names, snapshot_names()).contains(s) <==> names.contains(s) && is_snapshot_name(s@),
        kept(names, is_earlier(views(names).contains(current), current)).contains(s) <==> {
            &&& names.contains(s)
            &&& is_snapshot_name(s@)
            &&& s@ != current
            &&& views(names).contains(current) ==> text_lt(s@, current)
        },
{
    reveal_strlit(".json");
    let name = stem + ".json"@;
    assert(name.skip(name.len() - 5) =~= ".json"@);
    lemma_kept_is(names, snapshot_names(), s);
    lemma_kept_is(names, is_earlier(views(names).contains(current), current), s);
}

} // verus!
