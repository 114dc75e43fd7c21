//! Shortest paths of dependency between the items of the graph.

use crate::text::{same, views, Text};
use vstd::prelude::*;

verus! {

/// An edge of the graph.
#[derive(Debug, Clone)]
pub struct Edge {
    pub from: String,
    pub relation: String,
    pub to: String,
}

/// The model of an edge, and of a step on a path: where from, by which relation, where to.
pub type Step = (Text, Text, Text);

impl Edge {
    /// The model of the edge.
    pub open spec fn step(self) -> Step {
        (self.from@, self.relation@, self.to@)
    }
}

/// The models of edges.
pub open spec fn steps(list: Seq<Edge>) -> Seq<Step> {
    list.map_values(|e: Edge| e.step())
}

/// An item that the search has reached: its id, how far it is from the start, and by which
/// relation from which of the items reached before.
pub struct Reached {
    pub id: Text,
    pub depth: nat,
    pub parent: int,
    pub relation: Text,
}

/// The item `id` is among those reached.
pub open spec fn known(found: Seq<Reached>, id: Text) -> bool {
    exists|k: int| 0 <= k < found.len() && (#[trigger] found[k]).id == id
}

/// The items reached once the edges of the item at `head` were followed, in the order of the edges.
pub open spec fn follow(found: Seq<Reached>, head: int, edges: Seq<Step>) -> Seq<Reached>
    decreases edges.len(),
{
    if edges.len() == 0 {
        found
    } else {
        let before = follow(found, head, edges.drop_last());
        let e = edges.last();
        if e.0 == found[head].id && !known(before, e.2) {
            before.push(
                Reached {
                    id: e.2,
                    depth: found[head].depth + 1,
                    parent: head,
                    relation: e.1,
                },
            )
        } else {
            before
        }
    }
}

/// The start of the search.
pub open spec fn only_start(start: Text) -> Seq<Reached> {
    seq![Reached { id: start, depth: 0, parent: 0, relation: Seq::empty() }]
}

/// The items reached once the first `n` items were looked at, in the order in which they were
/// reached; what is `max_depth` steps away is not followed further.
pub open spec fn reached_after(edges: Seq<Step>, start: Text, max_depth: nat, n: nat) -> Seq<Reached>
    decreases n,
{
    if n == 0 {
        only_start(start)
    } else {
        let before = reached_after(edges, start, max_depth, (n - 1) as nat);
        if n - 1 < before.len() && before[n - 1].depth < max_depth {
            follow(before, n - 1, edges)
        } else {
            before
        }
    }
}

/// All items that are at most `max_depth` steps away from the start, nearest first.
pub open spec fn reached(edges: Seq<Step>, start: Text, max_depth: nat) -> Seq<Reached> {
    reached_after(edges, start, max_depth, edges.len() + 1)
}

/// The position of the first item reached that is a target.
pub open spec fn first_target(found: Seq<Reached>, targets: Seq<Text>, from: int) -> Option<int>
    decreases found.len() - from,
{
    if 0 <= from < found.len() {
        if targets.contains(found[from].id) {
            Some(from)
        } else {
            first_target(found, targets, from + 1)
        }
    } else {
        None
    }
}

/// The path from the start to the item at position `k`.
pub open spec fn path_to(found: Seq<Reached>, k: int) -> Seq<Step>
    decreases k,
{
    if k <= 0 || k >= found.len() || !(0 <= found[k].parent < k) {
        Seq::empty()
    } else {
        path_to(found, found[k].parent).push(
            (found[found[k].parent].id, found[k].relation, found[k].id),
        )
    }
}

/// The target that is reached first, and the path to it.
pub open spec fn dependency_path(
    edges: Seq<Step>,
    start: Text,
    targets: Seq<Text>,
    max_depth: nat,
) -> Option<(Text, Seq<Step>)> {
    let found = reached(edges, start, max_depth);
    match first_target(found, targets, 0) {
        Some(k) => Some((found[k].id, path_to(found, k))),
        None => None,
    }
}

/// A walk along edges: each step starts where the one before it ended.
pub open spec fn is_walk(walk: Seq<Step>, from: Text, to: Text) -> bool
    decreases walk.len(),
{
    if walk.len() == 0 {
        from == to
    } else {
        walk.last().2 == to && is_walk(walk.drop_last(), from, walk.last().0)
    }
}

/// All steps of a walk are edges.
pub open spec fn along(walk: Seq<Step>, edges: Seq<Step>) -> bool {
    forall|i: int| 0 <= i < walk.len() ==> edges.contains(#[trigger] walk[i])
}

/// What holds of the item at position `k` among those reached once `n` items were looked at.
pub open spec fn item_ok(edges: Seq<Step>, max_depth: nat, found: Seq<Reached>, n: int, k: int)
    -> bool {
    &&& 0 <= found[k].parent < k
    &&& found[k].parent < n
    &&& found[k].depth == found[found[k].parent].depth + 1
    &&& found[k].depth <= max_depth
    &&& edges.contains((found[found[k].parent].id, found[k].relation, found[k].id))
}

/// Of two items reached the later one was not reached from an earlier item, and is another item.
pub open spec fn pair_ok(found: Seq<Reached>, i: int, j: int) -> bool {
    &&& 0 < i ==> found[i].parent <= found[j].parent
    &&& found[i].id != found[j].id
}

/// What holds of the items reached once `n` items were looked at.
pub open spec fn search_ok(edges: Seq<Step>, start: Text, max_depth: nat, found: Seq<Reached>, n: int)
    -> bool {
    &&& found.len() > 0
    &&& found[0].id == start
    &&& found[0].depth == 0
    &&& forall|k: int| 0 < k < found.len() ==> #[trigger] item_ok(edges, max_depth, found, n, k)
    &&& forall|i: int, j: int| 0 <= i < j < found.len() ==> #[trigger] pair_ok(found, i, j)
}

/// Reaching one more item from the item looked at keeps what holds of the search.
proof fn lemma_reach_one(
    edges: Seq<Step>,
    start: Text,
    max_depth: nat,
    before: Seq<Reached>,
    head: int,
    e: Step,
)
    requires
        search_ok(edges, start, max_depth, before, head + 1),
        0 <= head < before.len(),
        before[head].depth < max_depth,
        edges.contains(e),
        e.0 == before[head].id,
        !known(before, e.2),
    ensures
        search_ok(
            edges,
            start,
            max_depth,
            before.push(
                Reached { id: e.2, depth: before[head].depth + 1, parent: head, relation: e.1 },
            ),
            head + 1,
        ),
{
    let after = before.push(
        Reached { id: e.2, depth: before[head].depth + 1, parent: head, relation: e.1 },
    );
    assert forall|k: int| 0 < k < after.len() implies #[trigger] item_ok(
        edges,
        max_depth,
        after,
        head + 1,
        k,
    ) by {
        if k < before.len() {
            assert(item_ok(edges, max_depth, before, head + 1, k));
        }
    }
    assert forall|i: int, j: int| 0 <= i < j < after.len() implies #[trigger] pair_ok(
        after,
        i,
        j,
    ) by {
        if j < before.len() {
            assert(pair_ok(before, i, j));
        } else {
            if 0 < i {
                assert(item_ok(edges, max_depth, before, head + 1, i));
            }
            assert(before[i].id != e.2);
        }
    }
}

/// What holds of the search still holds when more items count as looked at.
proof fn lemma_more_looked_at(
    edges: Seq<Step>,
    start: Text,
    max_depth: nat,
    found: Seq<Reached>,
    n: int,
    m: int,
)
    requires
        search_ok(edges, start, max_depth, found, n),
        n <= m,
    ensures
        search_ok(edges, start, max_depth, found, m),
{
    assert forall|k: int| 0 < k < found.len() implies #[trigger] item_ok(
        edges,
        max_depth,
        found,
        m,
        k,
    ) by {
        assert(item_ok(edges, max_depth, found, n, k));
    }
}

/// An item stays reached when more are.
proof fn lemma_known_push(found: Seq<Reached>, x: Reached, id: Text)
    ensures
        known(found, id) ==> known(found.push(x), id),
        known(found.push(x), x.id),
{
    let more = found.push(x);
    if known(found, id) {
        let k = choose|k: int| 0 <= k < found.len() && (#[trigger] found[k]).id == id;
        assert(more[k].id == id);
    }
    assert(more[found.len() as int].id == x.id);
}

/// Following edges keeps what holds of the search, only appends, and reaches each item to which an
/// edge leads from the item looked at.
proof fn lemma_follow(
    all: Seq<Step>,
    start: Text,
    max_depth: nat,
    found: Seq<Reached>,
    head: int,
    edges: Seq<Step>,
)
    requires
        0 <= head < found.len(),
        found[head].depth < max_depth,
        search_ok(all, start, max_depth, found, head),
        along(edges, all),
    ensures
        search_ok(all, start, max_depth, follow(found, head, edges), head + 1),
        found.len() <= follow(found, head, edges).len(),
        follow(found, head, edges).take(found.len() as int) == found,
        forall|i: int|
            0 <= i < edges.len() && (#[trigger] edges[i]).0 == found[head].id ==> known(
                follow(found, head, edges),
                edges[i].2,
            ),
    decreases edges.len(),
{
    if edges.len() == 0 {
        assert(found.take(found.len() as int) == found);
        lemma_more_looked_at(all, start, max_depth, found, head, head + 1);
    } else {
        let rest = edges.drop_last();
        assert forall|i: int| 0 <= i < rest.len() implies all.contains(#[trigger] rest[i]) by {
            assert(rest[i] == edges[i]);
        }
        lemma_follow(all, start, max_depth, found, head, rest);
        let before = follow(found, head, rest);
        let after = follow(found, head, edges);
        let e = edges.last();
        assert(all.contains(edges[edges.len() - 1]));
        assert(before[head] == found[head]) by {
            assert(before.take(found.len() as int)[head] == found[head]);
        }
        let x = Reached { id: e.2, depth: found[head].depth + 1, parent: head, relation: e.1 };
        if e.0 == found[head].id && !known(before, e.2) {
            lemma_reach_one(all, start, max_depth, before, head, e);
            assert(after.take(found.len() as int) == before.take(found.len() as int));
        }
        assert forall|i: int|
            0 <= i < edges.len() && (#[trigger] edges[i]).0 == found[head].id implies known(
            after,
            edges[i].2,
        ) by {
            lemma_known_push(before, x, edges[i].2);
            if i < rest.len() {
                assert(rest[i] == edges[i]);
            }
        }
    }
}

/// How many edges lead to items that are not yet reached.
spec fn open_edges(found: Seq<Reached>, edges: Seq<Step>) -> nat
    decreases edges.len(),
{
    if edges.len() == 0 {
        0
    } else {
        open_edges(found, edges.drop_last()) + if known(found, edges.last().2) {
            0nat
        } else {
            1nat
        }
    }
}

/// There are no more open edges than edges.
proof fn lemma_open_edges_bound(found: Seq<Reached>, edges: Seq<Step>)
    ensures
        open_edges(found, edges) <= edges.len(),
    decreases edges.len(),
{
    if edges.len() > 0 {
        lemma_open_edges_bound(found, edges.drop_last());
    }
}

/// Reaching one more item closes edges, at least one where an edge leads to it.
proof fn lemma_open_edges_fall(found: Seq<Reached>, x: Reached, edges: Seq<Step>)
    ensures
        open_edges(found.push(x), edges) <= open_edges(found, edges),
        !known(found, x.id) && (exists|i: int| 0 <= i < edges.len() && (#[trigger] edges[i]).2 == x.id)
            ==> open_edges(found.push(x), edges) < open_edges(found, edges),
    decreases edges.len(),
{
    if edges.len() > 0 {
        let rest = edges.drop_last();
        let more = found.push(x);
        lemma_open_edges_fall(found, x, rest);
        if known(found, edges.last().2) {
            let k = choose|k: int| 0 <= k < found.len() && (#[trigger] found[k]).id == edges.last().2;
            assert(more[k].id == edges.last().2);
        }
        if edges.last().2 == x.id {
            assert(more[found.len() as int].id == x.id);
        }
        if exists|i: int| 0 <= i < edges.len() && (#[trigger] edges[i]).2 == x.id {
            let i = choose|i: int| 0 <= i < edges.len() && (#[trigger] edges[i]).2 == x.id;
            if i < rest.len() {
                assert(rest[i].2 == x.id);
            }
        }
    }
}

/// Following edges reaches no more items than it closes edges.
proof fn lemma_follow_counts(found: Seq<Reached>, head: int, edges: Seq<Step>, all: Seq<Step>)
    requires
        along(edges, all),
    ensures
        follow(found, head, edges).len() + open_edges(follow(found, head, edges), all) <= found.len()
            + open_edges(found, all),
    decreases edges.len(),
{
    if edges.len() > 0 {
        let rest = edges.drop_last();
        assert forall|i: int| 0 <= i < rest.len() implies all.contains(#[trigger] rest[i]) by {
            assert(rest[i] == edges[i]);
        }
        lemma_follow_counts(found, head, rest, all);
        let before = follow(found, head, rest);
        let e = edges.last();
        if e.0 == found[head].id && !known(before, e.2) {
            let x = Reached {
                id: e.2,
                depth: found[head].depth + 1,
                parent: head,
                relation: e.1,
            };
            assert(all.contains(edges[edges.len() - 1]));
            let i = choose|i: int| 0 <= i < all.len() && all[i] == e;
            assert(all[i].2 == x.id);
            lemma_open_edges_fall(before, x, all);
        }
    }
}

/// What holds of the search at every point of it.
proof fn lemma_reached(edges: Seq<Step>, start: Text, max_depth: nat, n: nat)
    ensures
        search_ok(edges, start, max_depth, reached_after(edges, start, max_depth, n), n as int),
        reached_after(edges, start, max_depth, n).len() + open_edges(
            reached_after(edges, start, max_depth, n),
            edges,
        ) <= edges.len() + 1,
    decreases n,
{
    if n == 0 {
        lemma_open_edges_bound(only_start(start), edges);
    } else {
        assert(along(edges, edges));
        let before = reached_after(edges, start, max_depth, (n - 1) as nat);
        lemma_reached(edges, start, max_depth, (n - 1) as nat);
        if n - 1 < before.len() && before[n - 1].depth < max_depth {
            lemma_follow(edges, start, max_depth, before, n - 1, edges);
            lemma_follow_counts(before, n - 1, edges, edges);
        } else {
            lemma_more_looked_at(edges, start, max_depth, before, n - 1, n as int);
        }
    }
}

/// A longer search only appends.
proof fn lemma_reached_grows(edges: Seq<Step>, start: Text, max_depth: nat, n: nat, m: nat)
    requires
        n <= m,
    ensures
        reached_after(edges, start, max_depth, n).len() <= reached_after(
            edges,
            start,
            max_depth,
            m,
        ).len(),
        reached_after(edges, start, max_depth, m).take(
            reached_after(edges, start, max_depth, n).len() as int,
        ) == reached_after(edges, start, max_depth, n),
    decreases m,
{
    let a = reached_after(edges, start, max_depth, n);
    if n == m {
        assert(a.take(a.len() as int) == a);
    } else {
        lemma_reached_grows(edges, start, max_depth, n, (m - 1) as nat);
        let before = reached_after(edges, start, max_depth, (m - 1) as nat);
        let after = reached_after(edges, start, max_depth, m);
        lemma_reached(edges, start, max_depth, (m - 1) as nat);
        assert(along(edges, edges));
        if m - 1 < before.len() && before[m - 1].depth < max_depth {
            lemma_follow(edges, start, max_depth, before, m - 1, edges);
            assert(after.take(a.len() as int) == after.take(before.len() as int).take(
                a.len() as int,
            ));
        }
    }
}

/// The items reached lie no nearer the later they were reached.
proof fn lemma_depth_rises(
    edges: Seq<Step>,
    start: Text,
    max_depth: nat,
    found: Seq<Reached>,
    n: int,
    i: int,
    j: int,
)
    requires
        search_ok(edges, start, max_depth, found, n),
        0 <= i <= j < found.len(),
    ensures
        found[i].depth <= found[j].depth,
    decreases j,
{
    if 0 < i < j {
        assert(item_ok(edges, max_depth, found, n, i));
        assert(item_ok(edges, max_depth, found, n, j));
        assert(pair_ok(found, i, j));
        lemma_depth_rises(
            edges,
            start,
            max_depth,
            found,
            n,
            found[i].parent,
            found[j].parent,
        );
    }
}

/// The search reaches the end of every walk that is short enough, and by no longer a way.
proof fn lemma_walk_is_reached(
    edges: Seq<Step>,
    start: Text,
    max_depth: nat,
    walk: Seq<Step>,
    to: Text,
) -> (k: int)
    requires
        is_walk(walk, start, to),
        along(walk, edges),
        walk.len() <= max_depth,
    ensures
        0 <= k < reached(edges, start, max_depth).len(),
        reached(edges, start, max_depth)[k].id == to,
        reached(edges, start, max_depth)[k].depth <= walk.len(),
    decreases walk.len(),
{
    let total = (edges.len() + 1) as nat;
    let found = reached(edges, start, max_depth);
    lemma_reached(edges, start, max_depth, total);
    if walk.len() == 0 {
        0
    } else {
        let rest = walk.drop_last();
        assert forall|i: int| 0 <= i < rest.len() implies edges.contains(#[trigger] rest[i]) by {
            assert(rest[i] == walk[i]);
        }
        let e = walk.last();
        assert(edges.contains(walk[walk.len() - 1]));
        let j = lemma_walk_is_reached(edges, start, max_depth, rest, e.0);
        assert(j < total);
        lemma_reached_grows(edges, start, max_depth, j as nat, total);
        let before = reached_after(edges, start, max_depth, j as nat);
        let after = reached_after(edges, start, max_depth, (j + 1) as nat);
        lemma_reached(edges, start, max_depth, j as nat);
        lemma_reached_grows(edges, start, max_depth, (j + 1) as nat, total);
        lemma_head_is_reached(edges, start, max_depth, j);
        assert(before[j] == found[j]) by {
            assert(found.take(before.len() as int)[j] == found[j]);
        }
        assert(along(edges, edges));
        lemma_follow(edges, start, max_depth, before, j, edges);
        let i = choose|i: int| 0 <= i < edges.len() && edges[i] == e;
        assert(edges[i].0 == before[j].id);
        assert(known(after, to));
        let k = choose|k: int| 0 <= k < after.len() && (#[trigger] after[k]).id == to;
        assert(found[k] == after[k]) by {
            assert(found.take(after.len() as int)[k] == found[k]);
        }
        lemma_reached(edges, start, max_depth, (j + 1) as nat);
        if k > 0 {
            assert(item_ok(edges, max_depth, after, j + 1, k));
            assert(item_ok(edges, max_depth, found, total as int, k));
            lemma_depth_rises(
                edges,
                start,
                max_depth,
                found,
                total as int,
                found[k].parent,
                j,
            );
        }
        k
    }
}

/// When its turn comes to be looked at, an item of the search is reached.
proof fn lemma_head_is_reached(edges: Seq<Step>, start: Text, max_depth: nat, j: int)
    requires
        0 <= j < reached(edges, start, max_depth).len(),
    ensures
        j < reached_after(edges, start, max_depth, j as nat).len(),
{
    let total = (edges.len() + 1) as nat;
    lemma_reached(edges, start, max_depth, total);
    lemma_reached(edges, start, max_depth, j as nat);
    let at = reached_after(edges, start, max_depth, j as nat);
    if at.len() <= j {
        lemma_search_stops(edges, start, max_depth, j as nat, total);
    }
}

/// Once every item reached was looked at, the search reaches nothing more.
proof fn lemma_search_stops(edges: Seq<Step>, start: Text, max_depth: nat, n: nat, m: nat)
    requires
        reached_after(edges, start, max_depth, n).len() <= n <= m,
    ensures
        reached_after(edges, start, max_depth, m) == reached_after(edges, start, max_depth, n),
    decreases m,
{
    if n < m {
        lemma_search_stops(edges, start, max_depth, n, (m - 1) as nat);
    }
}

/// The path to an item leads from the start to it, along edges, in as many steps as it is away.
proof fn lemma_path_is_walk(
    edges: Seq<Step>,
    start: Text,
    max_depth: nat,
    found: Seq<Reached>,
    n: int,
    k: int,
)
    requires
        search_ok(edges, start, max_depth, found, n),
        0 <= k < found.len(),
    ensures
        is_walk(path_to(found, k), start, found[k].id),
        along(path_to(found, k), edges),
        path_to(found, k).len() == found[k].depth,
    decreases k,
{
    if k > 0 {
        let p = found[k].parent;
        assert(item_ok(edges, max_depth, found, n, k));
        lemma_path_is_walk(edges, start, max_depth, found, n, p);
        let path = path_to(found, k);
        assert(path.drop_last() == path_to(found, p));
        assert forall|i: int| 0 <= i < path.len() implies edges.contains(#[trigger] path[i]) by {
            if i < path.len() - 1 {
                assert(path[i] == path_to(found, p)[i]);
            }
        }
    }
}

/// What the search for the first target finds.
proof fn lemma_first_target(found: Seq<Reached>, targets: Seq<Text>, from: int)
    requires
        0 <= from,
    ensures
        match first_target(found, targets, from) {
            Some(k) => from <= k < found.len() && targets.contains(found[k].id) && forall|i: int|
                from <= i < k ==> !targets.contains((#[trigger] found[i]).id),
            None => forall|i: int|
                from <= i < found.len() ==> !targets.contains((#[trigger] found[i]).id),
        },
    decreases found.len() - from,
{
    if from < found.len() && !targets.contains(found[from].id) {
        lemma_first_target(found, targets, from + 1);
    }
}

/// A path that is found leads along edges from the start to a target within the depth, and no walk
/// along edges leads to any target in fewer steps.
pub proof fn law_path_is_shortest(
    edges: Seq<Step>,
    start: Text,
    targets: Seq<Text>,
    max_depth: nat,
    walk: Seq<Step>,
    to: Text,
)
    requires
        dependency_path(edges, start, targets, max_depth) is Some,
    ensures
        ({
            let (target, path) = dependency_path(edges, start, targets, max_depth)->0;
            &&& targets.contains(target)
            &&& is_walk(path, start, target)
            &&& along(path, edges)
            &&& path.len() <= max_depth
            &&& is_walk(walk, start, to) && along(walk, edges) && targets.contains(to) ==> path.len()
                <= walk.len()
        }),
{
    let total = (edges.len() + 1) as nat;
    let found = reached(edges, start, max_depth);
    lemma_reached(edges, start, max_depth, total);
    lemma_first_target(found, targets, 0);
    let k = first_target(found, targets, 0)->0;
    lemma_path_is_walk(edges, start, max_depth, found, total as int, k);
    if k > 0 {
        assert(item_ok(edges, max_depth, found, total as int, k));
    }
    if is_walk(walk, start, to) && along(walk, edges) && targets.contains(to) && walk.len()
        <= max_depth {
        let j = lemma_walk_is_reached(edges, start, max_depth, walk, to);
        assert(k <= j);
        lemma_depth_rises(edges, start, max_depth, found, total as int, k, j);
    }
}

/// Where no path is found, no walk along edges leads to a target within the depth.
pub proof fn law_no_path_is_missed(
    edges: Seq<Step>,
    start: Text,
    targets: Seq<Text>,
    max_depth: nat,
    walk: Seq<Step>,
    to: Text,
)
    requires
        dependency_path(edges, start, targets, max_depth) is None,
        is_walk(walk, start, to),
        along(walk, edges),
        walk.len() <= max_depth,
    ensures
        !targets.contains(to),
{
    lemma_first_target(reached(edges, start, max_depth), targets, 0);
    let j = lemma_walk_is_reached(edges, start, max_depth, walk, to);
}

/// A start that is itself a target needs no step.
pub proof fn law_start_may_be_target(
    edges: Seq<Step>,
    start: Text,
    targets: Seq<Text>,
    max_depth: nat,
)
    requires
        targets.contains(start),
    ensures
        dependency_path(edges, start, targets, max_depth) == Some((start, Seq::<Step>::empty())),
{
    lemma_reached(edges, start, max_depth, (edges.len() + 1) as nat);
}

/// An item that the search has reached.
struct Visit {
    id: String,
    depth: usize,
    parent: usize,
    relation: String,
}

impl Visit {
    spec fn reached(self) -> Reached {
        Reached {
            id: self.id@,
            depth: self.depth as nat,
            parent: self.parent as int,
            relation: self.relation@,
        }
    }
}

spec fn visits(list: Seq<Visit>) -> Seq<Reached> {
    list.map_values(|v: Visit| v.reached())
}

/// Whether an item is among those reached.
fn is_known(found: &Vec<Visit>, id: &str) -> (r: bool)
    ensures
        r == known(visits(found@), id@),
{
    let ghost all = visits(found@);
    let mut i: usize = 0;
    while i < found.len()
        invariant
            i <= found@.len() == all.len(),
            all == visits(found@),
            forall|k: int| 0 <= k < i ==> (#[trigger] all[k]).id != id@,
        decreases found@.len() - i,
    {
        assert(all[i as int] == found@[i as int].reached());
        if same(found[i].id.as_str(), id) {
            return true;
        }
        i = i + 1;
    }
    false
}

/// Follows the edges of the item at `head`.
fn follow_edges(found: &mut Vec<Visit>, head: usize, edges: &Vec<Edge>)
    requires
        head < old(found)@.len(),
        old(found)@[head as int].depth < usize::MAX,
    ensures
        visits(final(found)@) == follow(visits(old(found)@), head as int, steps(edges@)),
{
    let ghost all = steps(edges@);
    let ghost start = visits(found@);
    let depth = found[head].depth + 1;
    let from = found[head].id.clone();
    assert(start[head as int] == found@[head as int].reached());
    let mut i: usize = 0;
    while i < edges.len()
        invariant
            i <= edges@.len() == all.len(),
            all == steps(edges@),
            head < start.len(),
            start[head as int].id == from@,
            start[head as int].depth + 1 == depth,
            visits(found@) == follow(start, head as int, all.take(i as int)),
        decreases edges@.len() - i,
    {
        let ghost before = found@;
        assert(all.take(i + 1).drop_last() == all.take(i as int));
        assert(all.take(i + 1).last() == edges@[i as int].step());
        if same(edges[i].from.as_str(), from.as_str()) && !is_known(found, edges[i].to.as_str()) {
            let v = Visit {
                id: edges[i].to.clone(),
                depth,
                parent: head,
                relation: edges[i].relation.clone(),
            };
            found.push(v);
            assert(visits(found@) == visits(before).push(v.reached()));
        }
        i = i + 1;
    }
    assert(all.take(i as int) == all);
}

/// Whether `id` is a target.
fn is_target(targets: &Vec<String>, id: &str) -> (r: bool)
    ensures
        r == views(targets@).contains(id@),
{
    let ghost all = views(targets@);
    let mut i: usize = 0;
    while i < targets.len()
        invariant
            i <= targets@.len() == all.len(),
            all == views(targets@),
            forall|k: int| 0 <= k < i ==> #[trigger] all[k] != id@,
        decreases targets@.len() - i,
    {
        assert(all[i as int] == targets@[i as int]@);
        if same(targets[i].as_str(), id) {
            return true;
        }
        i = i + 1;
    }
    false
}

/// The path from the start to the item at position `k`.
fn read_path(found: &Vec<Visit>, k: usize) -> (r: Vec<Edge>)
    requires
        k < found@.len(),
    ensures
        steps(r@) == path_to(visits(found@), k as int),
    decreases k,
{
    let ghost all = visits(found@);
    assert(all[k as int] == found@[k as int].reached());
    if k == 0 || found[k].parent >= k {
        let r: Vec<Edge> = Vec::new();
        assert(steps(r@) == Seq::<Step>::empty());
        return r;
    }
    let p = found[k].parent;
    assert(all[p as int] == found@[p as int].reached());
    let mut r = read_path(found, p);
    let ghost before = r@;
    let e = Edge {
        from: found[p].id.clone(),
        relation: found[k].relation.clone(),
        to: found[k].id.clone(),
    };
    r.push(e);
    assert(steps(r@) == steps(before).push(e.step()));
    r
}

/// The target that is reached first from `start` within `max_depth` steps, and the path to it.
pub fn bfs_dependency_path(edges: &Vec<Edge>, start: &str, targets: &Vec<String>, max_depth: u64)
    -> (r: Option<(String, Vec<Edge>)>)
    ensures
        match r {
            Some((target, path)) => dependency_path(
                steps(edges@),
                start@,
                views(targets@),
                max_depth as nat,
            ) == Some((target@, steps(path@))),
            None => dependency_path(
                steps(edges@),
                start@,
                views(targets@),
                max_depth as nat,
            ) is None,
        },
{
    let ghost all = steps(edges@);
    let ghost total = (all.len() + 1) as nat;
    let mut found: Vec<Visit> = Vec::new();
    let first = Visit { id: start.to_owned(), depth: 0, parent: 0, relation: String::new() };
    found.push(first);
    assert(visits(found@) == only_start(start@));
    let mut head: usize = 0;
    while head < found.len()
        invariant
            head <= found@.len(),
            all == steps(edges@),
            total == all.len() + 1,
            all.len() == edges@.len(),
            visits(found@) == reached_after(all, start@, max_depth as nat, head as nat),
        decreases total - head,
    {
        let ghost before = visits(found@);
        proof {
            lemma_reached(all, start@, max_depth as nat, head as nat);
            assert(before[head as int] == found@[head as int].reached());
            lemma_depth_bound(all, start@, max_depth as nat, before, head as int, head as int);
        }
        if (found[head].depth as u64) < max_depth {
            follow_edges(&mut found, head, edges);
            proof {
                assert(along(all, all));
                lemma_follow(all, start@, max_depth as nat, before, head as int, all);
                assert(visits(found@).len() == found@.len());
            }
        }
        head = head + 1;
        assert(visits(found@) == reached_after(all, start@, max_depth as nat, head as nat));
    }
    proof {
        assert(visits(found@).len() == found@.len());
        lemma_reached(all, start@, max_depth as nat, head as nat);
        lemma_search_stops(all, start@, max_depth as nat, head as nat, total);
    }
    let ghost end = visits(found@);
    assert(end == reached(all, start@, max_depth as nat));
    let mut k: usize = 0;
    while k < found.len()
        invariant
            k <= found@.len() == end.len(),
            end == visits(found@),
            end == reached(all, start@, max_depth as nat),
            all == steps(edges@),
            first_target(end, views(targets@), 0) == first_target(
                end,
                views(targets@),
                k as int,
            ),
        decreases found@.len() - k,
    {
        assert(end[k as int] == found@[k as int].reached());
        if is_target(targets, found[k].id.as_str()) {
            let path = read_path(&found, k);
            return Some((found[k].id.clone(), path));
        }
        k = k + 1;
    }
    None
}

/// An item lies no farther from the start than its position among those reached.
proof fn lemma_depth_bound(
    edges: Seq<Step>,
    start: Text,
    max_depth: nat,
    found: Seq<Reached>,
    n: int,
    k: int,
)
    requires
        search_ok(edges, start, max_depth, found, n),
        0 <= k < found.len(),
    ensures
        found[k].depth <= k,
    decreases k,
{
    if k > 0 {
        assert(item_ok(edges, max_depth, found, n, k));
        lemma_depth_bound(edges, start, max_depth, found, n, found[k].parent);
    }
}

} // verus!
