use cortex::adr::{label, list_adrs, record, recorded, retire_status, retired, show_adr, NewAdr};
use cortex::closeout::{
    build_mirror_content, commit_marker, commit_on, drop_empty, graph_snapshot_file, marker_body,
    marker_counts, marker_tags_json, mirror_on, prune_surplus, run_closeout, session_snapshot,
    snapshot_expired,
    snapshot_file, stage_marker, Action, Closeout, CloseoutResult, Commit,
};
use cortex::git_review::{changed_files, is_source, mentioned_apis, run_git_review};
use cortex::json::{parse_json, Json};
use cortex::mcp::sessions::{
    closeout_request, join_responses, skill_request, tool_begin_protocol_session,
    tool_closeout_session, tool_flush_knowledge_markers, tool_propose_skill, tool_sequence,
};
use cortex::model::{AntiPattern, KnowledgeMarker, Pattern, StoredRate};

fn pattern_marker() -> KnowledgeMarker {
    KnowledgeMarker::Pattern {
        name: "Jump".into(),
        intent: "leave the ground".into(),
        body: "jump()".into(),
        trust: "high".into(),
        uses: vec!["Action".into()],
        tags: vec!["move".into()],
    }
}

fn note_marker() -> KnowledgeMarker {
    KnowledgeMarker::PrefsNote { body: "short lines".into(), tags: vec![] }
}

fn skill_marker() -> KnowledgeMarker {
    KnowledgeMarker::SkillCandidate {
        name: "land".into(),
        trigger: "on ground".into(),
        summary: "s".into(),
    }
}

fn walk(markers: Vec<KnowledgeMarker>, approved: bool, success: bool) -> (Vec<Action>, CloseoutResult) {
    let mut closing = Closeout::new(markers, approved);
    let mut actions = Vec::new();
    loop {
        let action = closing.next_action();
        if matches!(action, Action::Nothing) {
            return (actions, closing.result);
        }
        actions.push(action);
        closing.advance(success);
        assert!(actions.len() < 100);
    }
}

#[test]
fn an_approved_closeout_commits() {
    let (actions, result) = walk(vec![pattern_marker(), note_marker()], true, true);
    assert!(matches!(actions[0], Action::Commit(0)));
    assert!(matches!(actions[1], Action::Commit(1)));
    assert!(matches!(actions[2], Action::MarkFlushed { approved: true }));
    assert_eq!(actions.len(), 8);
    assert_eq!(result.patterns_committed, 1);
    assert_eq!(result.prefs_notes_committed, 1);
    assert_eq!(result.markers_staged, 0);
    assert!(result.outcome_logged && result.graph_snapshot_written);
    assert!(result.session_snapshot_written && result.mirror_written);
}

#[test]
fn without_approval_markers_are_staged() {
    let (actions, result) = walk(vec![pattern_marker(), note_marker()], false, true);
    assert!(matches!(actions[0], Action::Stage(0)));
    assert_eq!(result.markers_staged, 2);
    assert_eq!(result.patterns_committed, 0);
}

#[test]
fn what_fails_is_not_counted() {
    let (actions, result) = walk(vec![pattern_marker()], true, false);
    assert_eq!(actions.len(), 7);
    assert_eq!(result.patterns_committed, 0);
    assert!(!result.mirror_written);
}

#[test]
fn a_whole_closeout_counts_what_succeeded() {
    let markers = || vec![pattern_marker(), note_marker(), skill_marker()];
    let mut went = vec![true, false, true];
    went.extend([true, true, false, true, false, true]);
    let result = run_closeout(markers(), true, &went);
    assert_eq!((result.patterns_committed, result.prefs_notes_committed), (1, 0));
    assert_eq!((result.skill_candidates_staged, result.markers_staged), (1, 0));
    assert!(result.outcome_logged && !result.graph_snapshot_written);
    assert!(result.session_snapshot_written && !result.mirror_written);
    assert_eq!(run_closeout(markers(), false, &went).markers_staged, 3);
}

#[test]
fn a_pattern_is_committed_with_its_trust() {
    match commit_on(&pattern_marker(), false, "2024-01-02", 9, 1, true) {
        Commit::Pattern(p, promotion) => {
            assert_eq!(p.body, "jump()\nTrust: high 2024-01-02");
            assert_eq!(p.approved_at, 9);
            assert_eq!(promotion.name, "Jump");
        }
        _ => panic!("no pattern"),
    }
    assert!(matches!(commit_on(&pattern_marker(), true, "2024-01-02", 9, 1, true), Commit::Skip));
    match commit_marker(&pattern_marker(), &mut vec![], &mut vec![], 1_704_153_600, 1, true) {
        Some(Commit::Pattern(p, _)) => assert_eq!(p.body, "jump()\nTrust: high 2024-01-02"),
        _ => panic!("no pattern"),
    }
}

#[test]
fn what_is_committed_is_committed_once() {
    let anti = KnowledgeMarker::AntiPattern {
        description: "d".into(),
        wrong: "w".into(),
        correct: "c".into(),
        tags: vec![],
    };
    let mut patterns: Vec<Pattern> = vec![];
    let mut anti_patterns: Vec<AntiPattern> = vec![];
    let mut commit = |marker: &KnowledgeMarker| {
        let done = commit_marker(marker, &mut patterns, &mut anti_patterns, 1_704_153_600, 1, true);
        (done.unwrap(), patterns.len(), anti_patterns.len())
    };
    assert!(matches!(commit(&pattern_marker()), (Commit::Pattern(..), 1, 0)));
    assert!(matches!(commit(&pattern_marker()), (Commit::Skip, 1, 0)));
    assert!(matches!(commit(&anti), (Commit::AntiPattern(..), 1, 1)));
    assert!(matches!(commit(&anti), (Commit::Skip, 1, 1)));
    assert!(matches!(commit(&pattern_marker()), (Commit::Skip, 1, 1)));
    // A note leaves both tables as they are, and is written each time.
    assert!(matches!(commit(&note_marker()), (Commit::PrefsNote { .. }, 1, 1)));
    assert!(matches!(commit(&note_marker()), (Commit::PrefsNote { .. }, 1, 1)));
    assert_eq!(patterns[0].name, "Jump");
    assert_eq!(anti_patterns[0].description, "d");
}

#[test]
fn other_markers_are_committed_as_what_they_are() {
    let anti = KnowledgeMarker::AntiPattern {
        description: "d".into(),
        wrong: "w".into(),
        correct: "c".into(),
        tags: vec![],
    };
    assert!(matches!(commit_on(&anti, false, "t", 0, 1, true), Commit::AntiPattern(..)));
    let fix = KnowledgeMarker::Correction {
        attempted: "a".into(),
        reason: "r".into(),
        fix: "f".into(),
        tags: vec![],
    };
    assert!(matches!(commit_on(&fix, false, "t", 0, 1, true), Commit::Correction { .. }));
    let adr = KnowledgeMarker::Adr {
        title: "t".into(),
        context: "c".into(),
        decision: "d".into(),
        tags: vec![],
    };
    match commit_on(&adr, false, "t", 0, 12, true) {
        Commit::Adr(a, _) => assert_eq!(a.adr_number, 12),
        _ => panic!("no decision"),
    }
    assert!(matches!(commit_on(&note_marker(), false, "t", 0, 1, true), Commit::PrefsNote { .. }));
    assert!(matches!(commit_on(&note_marker(), false, "t", 0, 1, false), Commit::Annotation(_)));
    assert!(matches!(commit_on(&skill_marker(), false, "t", 0, 1, true), Commit::SkillCandidate { .. }));
}

#[test]
fn markers_are_staged_with_kind_and_tags() {
    let staged = stage_marker(&pattern_marker());
    assert_eq!(staged.kind, "pattern");
    assert_eq!(staged.name, "Jump");
    assert_eq!(staged.tags, "[\"move\"]");
    assert_eq!(staged.body, marker_body(&pattern_marker()));
    assert_eq!(marker_tags_json(&skill_marker()), "[]");
}

#[test]
fn a_snapshot_tells_the_session() {
    let markers = vec![pattern_marker(), pattern_marker(), note_marker()];
    let tools: Vec<String> = vec!["recall".into(), "".into()];
    let json = session_snapshot("a/b", "success", &markers, &tools, "now");
    assert_eq!(json.str_at("session_key"), Some("a/b"));
    assert_eq!(marker_counts(&markers).u64_at("pattern"), Some(2));
    assert_eq!(snapshot_file("a/b"), "session_a_b.json");
    assert_eq!(drop_empty(&tools), ["recall"]);
}

#[test]
fn a_mirror_is_dated() {
    let (name, text) = build_mirror_content("k", "success", &vec![pattern_marker()], true, 0).unwrap();
    assert_eq!(text, mirror_on("1970-01-01", "k", "success", &vec![pattern_marker()], true));
    assert!(name.contains("1970-01-01") || text.contains("1970-01-01"));
    assert!(build_mirror_content("k", "success", &vec![], true, i64::MAX).is_none());
}

#[test]
fn graph_snapshots_are_dated_and_pruned() {
    assert_eq!(graph_snapshot_file(1_700_000_000).as_deref(), Some("graph_20231114_221320.json"));
    assert_eq!(graph_snapshot_file(i64::MIN), None);
    let day = 86_400;
    assert!(!snapshot_expired(0, 0, 30 * day, 0, 30));
    assert!(snapshot_expired(0, 0, 31 * day, 0, 30));
    let names: Vec<String> = (0..53).rev().map(|i| format!("graph_{i:02}.json")).collect();
    assert_eq!(prune_surplus(&names), ["graph_00.json", "graph_01.json", "graph_02.json"]);
    assert!(prune_surplus(&vec!["a".to_string()]).is_empty());
}

#[test]
fn decisions_are_recorded_and_listed() {
    assert_eq!(label(7), "ADR-007");
    let new = NewAdr {
        title: "T".into(),
        context: "C".into(),
        decision: "D".into(),
        reasoning: "".into(),
        alternatives: "".into(),
        consequences: "".into(),
        tags: "a, b,,".into(),
    };
    let adr = record(new, 7);
    assert_eq!(adr.concept_tags, ["a", "b"]);
    assert!(recorded(7, "T", 3).contains("ADR-007"));
    assert!(list_adrs(&vec![adr.clone()]).contains("ADR-007"));
    assert!(!list_adrs(&vec![]).is_empty());
    assert!(show_adr(7, Some((&adr, "today"))).contains("T"));
    assert_eq!(show_adr(8, None), "ADR-008 not found.\n");
}

#[test]
fn decisions_are_retired() {
    assert_eq!(retire_status(None), "deprecated");
    assert_eq!(retire_status(Some(3)), "superseded");
    assert_eq!(retired(7, true, Some(8)), "ADR-007 marked as superseded.\n");
    assert_eq!(retired(7, false, None), "ADR-007 not found.\n");
}

#[test]
fn changed_sources_are_looked_through() {
    assert_eq!(changed_files("src/a.rs\n\nREADME.md\n"), ["src/a.rs", "README.md"]);
    assert!(is_source("src/a.rs"));
    assert!(!is_source("README.md"));
    let apis = mentioned_apis(&vec!["let x = Action::Jump; Ünder::x a Player".to_string()]);
    assert!(apis.contains(&"Action".to_string()));
    assert!(apis.contains(&"Player".to_string()));
    assert!(!apis.iter().any(|a| a == "let"));
}

#[test]
fn a_review_names_the_patterns_that_apply() {
    let p = Pattern {
        id: Some(1),
        name: "Jump".into(),
        intent: "leave".into(),
        body: "b".into(),
        uses: vec!["Action".into()],
        tags: vec![],
        approved_at: 0,
        use_count: 0,
        reverted_count: 0,
        survival_rate: StoredRate { bits: 0x3f80_0000, number: "1.0".into(), percent: "100".into() },
    };
    let a = AntiPattern {
        id: Some(1),
        description: "d".into(),
        wrong: "Action::Set".into(),
        correct: "c".into(),
        tags: vec![],
        added_at: 0,
    };
    let text = run_git_review(
        "HEAD~1",
        &vec!["src/a.rs".to_string()],
        &vec!["Action::Set".to_string()],
        &vec![p],
        &vec![a],
    );
    assert!(text.contains("  [1] Jump (survival 100%)"));
    assert!(text.contains("src/a.rs"));
}

fn object(text: &str) -> Json {
    parse_json(text).unwrap()
}

#[test]
fn session_tools_read_their_arguments() {
    assert!(tool_begin_protocol_session(&object("{}"), "all well").contains("all well"));
    assert_eq!(join_responses(&vec!["a".to_string(), "b".to_string()]).matches('a').count(), 1);
    assert!(closeout_request(&object("{}")).is_err());
    let request = closeout_request(&object("{\"outcome_type\": \"success\", \"inline_approve\": true}")).unwrap();
    assert!(request.inline_approve);
    assert_eq!(request.outcome_type, "success");
    assert_eq!(tool_sequence("a, b ,,c"), ["a", "b", "", "c"]);
    assert!(skill_request(&object("{}")).is_err());
    assert!(skill_request(&object("{\"name\": \"n\"}")).is_err());
}

#[test]
fn session_tools_tell_what_they_did() {
    let told = tool_flush_knowledge_markers(Some(2), &vec![pattern_marker()]);
    assert!(told.contains("Jump"));
    assert!(!tool_flush_knowledge_markers(None, &vec![]).is_empty());
    let closed = tool_closeout_session(&CloseoutResult::default(), false, "success");
    assert!(closed.contains("success"));
    let request = skill_request(&object(
        "{\"name\": \"land\", \"trigger\": \"t\", \"procedure\": \"p\", \"tools\": \"a,b\"}",
    ));
    if let Ok(skill) = request {
        assert!(tool_propose_skill(&skill, Err("disk full")).is_err());
        assert!(tool_propose_skill(&skill, Ok("land.md")).unwrap().contains("land.md"));
    } else {
        panic!("no skill");
    }
}
