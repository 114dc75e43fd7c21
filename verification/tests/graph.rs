use cortex::graph_diff::{
    compare_graphs, compute_community_weights, drift_report_to_json, find_previous_snapshot,
    list_snapshots, run_graph_diff, CommunityDrift, DriftReport, GraphData, GraphLink, GraphNode,
};
use cortex::json::Json;
use cortex::mcp::graph_tools::{
    classify_risk, parse_relation_filter, resolve_graph_candidates, tool_explain_dependency_path,
    Candidate,
};
use cortex::paths::{bfs_dependency_path, Edge};
use cortex::rates::Ratio;
use cortex::reasoner::simulator::RiskLevel;

fn make_node(id: &str, community: u32) -> GraphNode {
    GraphNode {
        id: id.to_string(),
        label: Some(id.to_string()),
        source_file: None,
        node_type: None,
        community: Some(community),
    }
}

fn score(d: &CommunityDrift) -> f64 {
    d.drift_score.num as f64 / d.drift_score.den as f64
}

#[test]
fn identical_graphs_no_drift() {
    let nodes = vec![make_node("a", 1), make_node("b", 1), make_node("c", 2)];
    let current = GraphData { nodes: nodes.clone(), links: vec![] };
    let previous = GraphData { nodes: nodes.clone(), links: vec![] };
    let report = compare_graphs(&current, &previous, "");
    assert_eq!(report.total_nodes_current, 3);
    assert_eq!(report.node_count_delta, 0);
    assert_eq!(report.communities_affected, 0);
    assert!(report.high_drift_communities.is_empty());
}

#[test]
fn node_added_detected_as_drift() {
    let prev_nodes = vec![make_node("a", 1), make_node("b", 1)];
    let curr_nodes = vec![make_node("a", 1), make_node("b", 1), make_node("c", 1)];
    let current = GraphData { nodes: curr_nodes, links: vec![] };
    let previous = GraphData { nodes: prev_nodes, links: vec![] };
    let report = compare_graphs(&current, &previous, "");
    assert!(report.node_count_delta > 0);
    let c1 = report.community_drifts.iter().find(|c| c.community_id == 1).unwrap();
    assert_eq!(c1.nodes_added, 1);
    assert!(score(c1) > 0.0);
}

#[test]
fn node_removed_detected_as_drift() {
    let prev_nodes = vec![make_node("a", 1), make_node("b", 1), make_node("c", 1)];
    let curr_nodes = vec![make_node("a", 1), make_node("b", 1)];
    let current = GraphData { nodes: curr_nodes, links: vec![] };
    let previous = GraphData { nodes: prev_nodes, links: vec![] };
    let report = compare_graphs(&current, &previous, "");
    assert!(report.node_count_delta < 0);
    let c1 = report.community_drifts.iter().find(|c| c.community_id == 1).unwrap();
    assert_eq!(c1.nodes_removed, 1);
}

#[test]
fn high_drift_threshold() {
    let prev_nodes = vec![make_node("a", 1)];
    let curr_nodes =
        vec![make_node("a", 1), make_node("b", 1), make_node("c", 1), make_node("d", 1)];
    let current = GraphData { nodes: curr_nodes, links: vec![] };
    let previous = GraphData { nodes: prev_nodes, links: vec![] };
    let report = compare_graphs(&current, &previous, "");
    assert_eq!(report.high_drift_communities.len(), 1);
    assert_eq!(report.high_drift_communities[0].community_id, 1);
    assert_eq!(score(&report.high_drift_communities[0]), 0.75);
}

#[test]
fn community_weights_reflect_drift() {
    let drifts = vec![
        CommunityDrift {
            community_id: 1,
            nodes_added: 10,
            nodes_removed: 0,
            node_count_current: 20,
            node_count_previous: 10,
            drift_score: Ratio { num: 10, den: 20 },
        },
        CommunityDrift {
            community_id: 2,
            nodes_added: 1,
            nodes_removed: 1,
            node_count_current: 50,
            node_count_previous: 50,
            drift_score: Ratio { num: 2, den: 50 },
        },
    ];
    assert_eq!(score(&drifts[0]), 0.5);
    assert_eq!(score(&drifts[1]), 0.04);
    let high: Vec<CommunityDrift> = drifts.iter().filter(|c| score(c) >= 0.3).cloned().collect();
    let report = DriftReport {
        current_graph_path: "c.json".into(),
        previous_graph_path: "p.json".into(),
        total_nodes_current: 70,
        total_nodes_previous: 60,
        total_links_current: 100,
        total_links_previous: 90,
        node_count_delta: 10,
        link_count_delta: 10,
        communities_affected: 2,
        community_drifts: drifts,
        high_drift_communities: high,
        analyzed_at: String::new(),
    };
    let weights = compute_community_weights(&report);
    let w1 = weights.iter().find(|w| w.community_id == 1).unwrap();
    let w2 = weights.iter().find(|w| w.community_id == 2).unwrap();
    assert_eq!(w1.priority_boost as f64 / 100.0, 3.0);
    assert_eq!(w2.priority_boost as f64 / 100.0, 1.0);
}

#[test]
fn new_community_is_drift() {
    let prev_nodes = vec![make_node("a", 1)];
    let curr_nodes = vec![make_node("a", 1), make_node("b", 2)];
    let current = GraphData { nodes: curr_nodes, links: vec![] };
    let previous = GraphData { nodes: prev_nodes, links: vec![] };
    let report = compare_graphs(&current, &previous, "");
    let c2 = report.community_drifts.iter().find(|c| c.community_id == 2).unwrap();
    assert_eq!(c2.nodes_added, 1);
    assert_eq!(c2.node_count_previous, 0);
    assert!(score(c2) > 0.0);
}

#[test]
fn snapshot_listing_and_previous() {
    let s1 = "graph_20260710_120000.json";
    let s2 = "graph_20260711_010000.json";
    let current = "graph_20260711_120000.json";
    let names = vec![s1.to_string(), s2.to_string(), current.to_string()];
    let snapshots = list_snapshots(&names);
    assert_eq!(snapshots.len(), 3);
    let prev = find_previous_snapshot(&names, current).unwrap();
    assert_eq!(prev, s2);
}

#[test]
fn snapshots_are_listed_latest_first() {
    let names: Vec<String> =
        ["b.json", "notes.txt", "c.json", ".json", "a.json"].iter().map(|s| s.to_string()).collect();
    let listed: Vec<&str> = list_snapshots(&names).iter().map(|s| s.as_str()).collect();
    assert_eq!(listed, ["c.json", "b.json", "a.json"]);
}

#[test]
fn the_snapshot_before_the_current_graph() {
    let names: Vec<String> =
        ["a.json", "b.json", "c.json"].iter().map(|s| s.to_string()).collect();
    // A graph that lies elsewhere comes after every snapshot.
    assert_eq!(find_previous_snapshot(&names, "graph.json").unwrap(), "c.json");
    // A snapshot is compared with the one before it.
    assert_eq!(find_previous_snapshot(&names, "b.json").unwrap(), "a.json");
    assert!(find_previous_snapshot(&names, "a.json").is_none());
    assert!(find_previous_snapshot(&Vec::new(), "a.json").is_none());
}

#[test]
fn drifts_are_reported_highest_first() {
    let previous = GraphData {
        nodes: vec![make_node("a", 1), make_node("b", 2), make_node("c", 3), make_node("d", 3)],
        links: vec![],
    };
    let current = GraphData {
        nodes: vec![make_node("a", 1), make_node("x", 2), make_node("c", 3)],
        links: vec![GraphLink {
            source: "a".into(),
            target: "c".into(),
            relation: None,
            weight: None,
        }],
    };
    let report = compare_graphs(&current, &previous, "now");
    let order: Vec<u32> = report.community_drifts.iter().map(|d| d.community_id).collect();
    assert_eq!(order, [2, 3, 1]);
    // A community whose only node was replaced drifts by two.
    assert_eq!(report.community_drifts[0].drift_score, Ratio { num: 2, den: 1 });
    assert_eq!(report.communities_affected, 2);
    assert_eq!(report.link_count_delta, 1);
    assert_eq!(report.analyzed_at, "now");
}

#[test]
fn a_drift_looks_the_same_from_both_sides() {
    let one = GraphData { nodes: vec![make_node("a", 1), make_node("b", 1)], links: vec![] };
    let other = GraphData { nodes: vec![make_node("b", 1)], links: vec![] };
    let there = compare_graphs(&one, &other, "").community_drifts[0];
    let back = compare_graphs(&other, &one, "").community_drifts[0];
    assert_eq!(there.nodes_added, back.nodes_removed);
    assert_eq!(there.drift_score, back.drift_score);
    // What a community has is what it had, plus what came, less what went.
    assert_eq!(
        there.node_count_current,
        there.node_count_previous + there.nodes_added - there.nodes_removed
    );
}

#[test]
fn communities_count_each_node_once() {
    let graph = GraphData {
        nodes: vec![make_node("a", 7), make_node("a", 7), make_node("b", 7), make_node("c", 1)],
        links: vec![],
    };
    assert_eq!(graph.community_sizes(), vec![(7, 2), (1, 1)]);
    assert_eq!(graph.community_nodes()[0], (7, vec!["a".to_string(), "b".to_string()]));
}

#[test]
fn boosts_follow_the_drift() {
    let drift = |num: u64| CommunityDrift {
        community_id: num as u32,
        nodes_added: 0,
        nodes_removed: 0,
        node_count_current: 0,
        node_count_previous: 0,
        drift_score: Ratio { num, den: 10 },
    };
    let mut report = compare_graphs(
        &GraphData { nodes: vec![], links: vec![] },
        &GraphData { nodes: vec![], links: vec![] },
        "",
    );
    report.community_drifts = vec![drift(0), drift(1), drift(3), drift(5), drift(9)];
    let boosts: Vec<u32> =
        compute_community_weights(&report).iter().map(|w| w.priority_boost).collect();
    assert_eq!(boosts, [100, 150, 200, 300, 300]);
    // Counts so large that the nearest double-precision number decides.
    let ten: u64 = 10_000_000_000_000_000_000;
    for (num, den) in [(3 * (ten / 10) - 1, ten), (ten / 10 - 1, ten), (ten / 2 - 1, ten), (29, 97)] {
        let mut d = drift(0);
        d.drift_score = Ratio { num, den };
        report.community_drifts = vec![d];
        let score = num as f64 / den as f64;
        let expected = if score >= 0.5 {
            300
        } else if score >= 0.3 {
            200
        } else if score >= 0.1 {
            150
        } else {
            100
        };
        assert_eq!(compute_community_weights(&report)[0].priority_boost, expected);
    }
}

#[test]
fn a_diff_needs_both_graphs() {
    let graph = GraphData { nodes: vec![make_node("a", 1)], links: vec![] };
    assert!(run_graph_diff(None, "c", Some(&graph), "p", "t").is_none());
    assert!(run_graph_diff(Some(&graph), "c", None, "p", "t").is_none());
    let report = run_graph_diff(Some(&graph), "c", Some(&graph), "p", "t").unwrap();
    assert_eq!(report.current_graph_path, "c");
    assert_eq!(report.previous_graph_path, "p");
    let json = drift_report_to_json(&report, &vec!["0.0".to_string()]);
    assert_eq!(json.str_at("current_graph"), Some("c"));
    assert_eq!(json.u64_at("total_nodes_current"), Some(1));
    assert_eq!(json.u64_at("high_drift_count"), Some(0));
}

#[test]
fn parse_relation_filter_supports_single_string() {
    let parsed =
        parse_relation_filter(Some(&Json::Text("uses".to_string()))).expect("expected filter set");
    assert!(parsed.contains(&"uses".to_string()));
    assert_eq!(parsed.len(), 1);
}

#[test]
fn parse_relation_filter_supports_string_arrays_and_normalizes() {
    let list = Json::List(vec![
        Json::Text("Calls".to_string()),
        Json::Text(" uses ".to_string()),
        Json::Text("".to_string()),
        Json::Null,
    ]);
    let parsed = parse_relation_filter(Some(&list)).expect("expected filter set");
    assert!(parsed.contains(&"calls".to_string()));
    assert!(parsed.contains(&"uses".to_string()));
    assert_eq!(parsed.len(), 2);
}

#[test]
fn parse_relation_filter_rejects_empty_inputs() {
    assert!(parse_relation_filter(Some(&Json::Text("   ".to_string()))).is_none());
    assert!(parse_relation_filter(Some(&Json::List(vec![]))).is_none());
    assert!(parse_relation_filter(None).is_none());
}

#[test]
fn classify_risk_thresholds_are_stable() {
    assert_eq!(classify_risk(0, 0), RiskLevel::Low);
    assert_eq!(classify_risk(2, 0), RiskLevel::Low);
    assert_eq!(classify_risk(3, 0), RiskLevel::Medium);
    assert_eq!(classify_risk(6, 2), RiskLevel::Medium);
    assert_eq!(classify_risk(8, 0), RiskLevel::High);
    assert_eq!(classify_risk(7, 4), RiskLevel::High);
}

fn edge(from: &str, to: &str) -> Edge {
    Edge { from: from.to_string(), relation: "uses".to_string(), to: to.to_string() }
}

#[test]
fn the_shortest_path_is_found() {
    let edges = vec![edge("a", "b"), edge("b", "c"), edge("a", "d"), edge("d", "e"), edge("e", "c")];
    let (hit, steps) = bfs_dependency_path(&edges, "a", &vec!["c".to_string()], 5).unwrap();
    assert_eq!(hit, "c");
    let route: Vec<(&str, &str)> =
        steps.iter().map(|e| (e.from.as_str(), e.to.as_str())).collect();
    assert_eq!(route, [("a", "b"), ("b", "c")]);
}

#[test]
fn paths_end_at_the_depth_allowed() {
    let edges = vec![edge("a", "b"), edge("b", "c"), edge("c", "a")];
    assert!(bfs_dependency_path(&edges, "a", &vec!["c".to_string()], 1).is_none());
    assert!(bfs_dependency_path(&edges, "a", &vec!["z".to_string()], 9).is_none());
    let (hit, steps) = bfs_dependency_path(&edges, "a", &vec!["a".to_string()], 3).unwrap();
    assert_eq!(hit, "a");
    assert!(steps.is_empty());
}

fn candidate(id: &str) -> Candidate {
    Candidate { id: id.to_string(), name: id.to_string(), module: String::new() }
}

#[test]
fn candidates_are_taken_once() {
    let found = resolve_graph_candidates(
        Some(&candidate("x")),
        &vec![candidate("y"), candidate("x")],
        &vec![candidate("z"), candidate("y")],
        5,
    );
    let ids: Vec<&str> = found.iter().map(|c| c.id.as_str()).collect();
    assert_eq!(ids, ["x", "y", "z"]);
}

#[test]
fn a_path_question_needs_both_ends() {
    let none = Json::Object(vec![]);
    let reply = tool_explain_dependency_path(&none, &vec![], &vec![], &vec![]);
    assert!(reply.result.is_err());
}
