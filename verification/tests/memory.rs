use cortex::bootstrap::{
    bootstrap_cortex_ps1_template, index_sources, merge_config, project_name, run_bootstrap,
    writes_file,
};
use cortex::commands::{
    action_done, context_with_prefs, correction_recorded, edge_added, entry_added, graph_query,
    graph_synced, pattern_added, pattern_health, pruned, relation_or_pairs, Surroundings,
};
use cortex::consolidator::{
    find_candidates, merge_patterns, pairs_to_compare, pattern_content, run_consolidate,
};
use cortex::consolidator2::{
    format_pending_proposals, is_stale, load_pending_proposals, propose_gaps, propose_survival_pub,
    run, set_proposal_status, GapProposal, HealthCounts, PatternUse, PipelineInput, PipelineResult,
    PipelineState, ProposalEntry, ProposalRow,
};
use cortex::json::{parse_json, Json};
use cortex::memory::{
    insert_annotation, insert_anti_pattern, insert_pattern, recompute_pattern_survival,
    row_to_annotation, row_to_anti_pattern, row_to_observation, row_to_pattern, row_to_unit,
    ObservationRow, Standing, UnitRow,
};
use cortex::meta::{
    build_meta_report, gates_in, meta_report, stage_meta_proposals, Gate, MetaReport,
    ProposalCounts, RateTexts, Rejection,
};
use cortex::model::{Annotation, AntiPattern, Pattern, RelationType, StoredRate};
use cortex::paths::Edge;
use cortex::prefs::{render_for_copilot, Preferences};
use cortex::rates::Ratio;
use cortex::session_store::find_session_store;
use cortex::status::{
    build_status_json, build_status_report, checks_pass, doctor_json, doctor_report, format_bytes,
    run_doctor_workflow, survival_tier, Examination, FullStatus, HealthRow, Status,
};

fn rate(x: f32) -> StoredRate {
    StoredRate {
        bits: x.to_bits(),
        number: format!("{x:?}"),
        percent: format!("{:.0}", x * 100.0),
    }
}

fn pattern(id: i64, name: &str, survival: f32) -> Pattern {
    Pattern {
        id: Some(id),
        name: name.to_string(),
        intent: "do".to_string(),
        body: "it".to_string(),
        uses: vec!["A".to_string(), "B".to_string()],
        tags: vec!["t".to_string()],
        approved_at: 0,
        use_count: 0,
        reverted_count: 0,
        survival_rate: rate(survival),
    }
}

#[test]
fn survival_is_the_share_of_uses() {
    assert_eq!(recompute_pattern_survival(0, 0), Ratio { num: 1, den: 1 });
    assert_eq!(recompute_pattern_survival(0, 1), Ratio { num: 0, den: 1 });
    assert_eq!(recompute_pattern_survival(3, 1), Ratio { num: 3, den: 4 });
}

#[test]
fn reverting_looks_at_survival_anew() {
    let mut s = Standing::new();
    s.pattern_used();
    s.pattern_used();
    assert_eq!((s.use_count, s.survival), (2, Ratio { num: 1, den: 1 }));
    s.pattern_reverted();
    assert_eq!((s.reverted_count, s.survival), (1, Ratio { num: 2, den: 3 }));
    let before = s.survival;
    s.pattern_reverted();
    assert!(s.survival.num * before.den <= before.num * s.survival.den);
}

#[test]
fn a_stored_pattern_reads_back() {
    let p = pattern(9, "name", 1.0);
    let row = insert_pattern(&p, "2024-02-03T04:05:06+00:00");
    assert_eq!(row.uses, "[\"A\",\"B\"]");
    assert_eq!((row.use_count, row.reverted_count), (0, 0));
    let back = row_to_pattern(9, row).unwrap();
    assert_eq!(back.uses, p.uses);
    assert_eq!(back.tags, p.tags);
    assert_eq!(back.approved_at, 1_706_933_106);
    assert_eq!(back.survival_rate.number, "1.0");
}

#[test]
fn other_rows_read_back() {
    let a = AntiPattern {
        id: None,
        description: "d".into(),
        wrong: "w".into(),
        correct: "c".into(),
        tags: vec!["x\"y".into()],
        added_at: 0,
    };
    let back = row_to_anti_pattern(1, insert_anti_pattern(&a, "1970-01-01T00:00:01Z")).unwrap();
    assert_eq!((back.id, back.added_at, back.tags), (Some(1), 1, a.tags.clone()));
    let n = Annotation { id: None, topic: "t".into(), body: "b".into(), tags: vec![], added_at: 0 };
    let back = row_to_annotation(2, insert_annotation(&n, "1970-01-01T01:00:00+01:00")).unwrap();
    assert_eq!((back.id, back.added_at), (Some(2), 0));
}

#[test]
fn a_row_without_a_readable_time_gives_nothing() {
    let row = insert_pattern(&pattern(1, "n", 1.0), "yesterday");
    assert!(row_to_pattern(1, row).is_none());
    let unit = UnitRow {
        id: "m::X".into(),
        kind: "struct".into(),
        name: "X".into(),
        module: "m".into(),
        summary: "s".into(),
        compressed: "c".into(),
        indexed_at: "never".into(),
    };
    assert!(row_to_unit(unit.clone()).is_none());
    let good = UnitRow { indexed_at: "2024-01-01T00:00:00Z".into(), ..unit };
    assert_eq!(row_to_unit(good).unwrap().id, "m::X");
    let seen = ObservationRow {
        id: 4,
        path: "p".into(),
        summary: "s".into(),
        diff_hint: "d".into(),
        observed_at: "2024-01-01T00:00:00Z".into(),
    };
    assert_eq!(row_to_observation(seen).unwrap().observed_at, 1_704_067_200);
}

#[test]
fn a_list_that_cannot_be_read_is_empty() {
    let mut row = insert_pattern(&pattern(1, "n", 1.0), "2024-01-01T00:00:00Z");
    row.tags = "not json".into();
    row.uses = "[1, 2]".into();
    let back = row_to_pattern(1, row).unwrap();
    assert!(back.tags.is_empty());
    assert!(back.uses.is_empty());
}

#[test]
fn living_patterns_are_compared_once() {
    let list = vec![pattern(1, "a", 1.0), pattern(2, "dead", 0.05), pattern(3, "b", 0.5), pattern(4, "c", 0.1)];
    assert_eq!(pairs_to_compare(&list), vec![(0, 2), (0, 3), (2, 3)]);
    assert_eq!(pattern_content(&list[0]), "do it A B");
}

#[test]
fn similar_patterns_are_listed_most_similar_first() {
    let mut list = vec![pattern(1, "a", 1.0), pattern(2, "b", 1.0), pattern(3, "c", 1.0)];
    let scores: Vec<u32> = [0.72f32, 0.9, 0.2].iter().map(|x| x.to_bits()).collect();
    let found = find_candidates(&list, &scores, 0.72f32.to_bits());
    let ids: Vec<(i64, i64)> = found.iter().map(|d| (d.kept_id, d.merged_id)).collect();
    assert_eq!(ids, [(1, 3), (1, 2)]);
    // What is no number is similar to nothing.
    let none: Vec<u32> = vec![f32::NAN.to_bits(); 3];
    assert!(find_candidates(&list, &none, 0.0f32.to_bits()).is_empty());
    // A pattern without a number cannot be merged.
    list[0].id = None;
    assert!(find_candidates(&list, &scores, 0.72f32.to_bits()).is_empty());
}

#[test]
fn a_merged_pattern_is_not_compared_again() {
    let mut list = vec![pattern(1, "a", 1.0), pattern(2, "b", 1.0), pattern(3, "c", 1.0)];
    let merge = merge_patterns(&mut list, 1, 2, 0.9f32.to_bits());
    assert_eq!((merge.keep_id, merge.discard_id, merge.reverted_count), (1, 2, 999));
    assert_eq!(merge.reason, "consolidated via cosine similarity");
    assert_eq!((list[1].reverted_count, list[1].survival_rate.bits), (999, 0));
    assert_eq!(list[1].name, "b");
    assert_eq!((list[0].survival_rate.bits, list[2].survival_rate.bits), (1f32.to_bits(), 1f32.to_bits()));
    assert_eq!(pairs_to_compare(&list), [(0, 2)]);
    let found = find_candidates(&list, &vec![1f32.to_bits()], 0f32.to_bits());
    assert!(found.iter().all(|d| d.kept_id != 2 && d.merged_id != 2));
    assert_eq!(found.len(), 1);
}

#[test]
fn consolidation_tells_what_it_found() {
    assert_eq!(
        run_consolidate(&vec![], "72", &vec![], true),
        "No duplicate pattern candidates found at threshold 72%.\n"
    );
    let list = vec![pattern(1, "a", 1.0), pattern(2, "b", 1.0)];
    let found = find_candidates(&list, &vec![0.9f32.to_bits()], 0.72f32.to_bits());
    let percents = vec!["90.0".to_string()];
    assert_eq!(
        run_consolidate(&found, "72", &percents, true),
        "1 candidate pair(s) above 72% similarity:\n\n  [1] a  <=>  [2] b  (90.0%)\n\nReport-only mode. No patterns were modified.\n"
    );
    let merged = run_consolidate(&found, "72", &percents, false);
    assert!(merged.contains("  Merged [2] b -> [1] a\n"));
    assert!(merged.ends_with("Done. Run `cortex index` to rebuild FTS from updated patterns.\n"));
}

fn usage(id: i64, name: &str, uses: i64, survival: f32) -> PatternUse {
    PatternUse {
        id,
        name: name.to_string(),
        intent: "i".to_string(),
        body: "b".repeat(300),
        use_count: uses,
        reverted_count: 1,
        rate: rate(survival),
        rate_whole: format!("{survival:.0}"),
    }
}

#[test]
fn dying_patterns_are_proposed_worst_first() {
    let list = vec![
        usage(1, "fine", 9, 0.4),
        usage(2, "poor one", 3, 0.3),
        usage(3, "a/b\\c d", 5, 0.1),
        usage(4, "fresh", 2, 0.0),
    ];
    let records = propose_survival_pub(&list);
    let files: Vec<&str> = records.iter().map(|r| r.file_name.as_str()).collect();
    assert_eq!(files, ["ap_dying_a-b-c-d.json", "ap_dying_poor-one.json"]);
    assert_eq!(
        records[1].proposed_text,
        "Pattern 'poor one' has 0% survival after 3 uses — review for removal or anti-pattern conversion"
    );
    assert_eq!(records[1].document.str_at("body_preview").unwrap().len(), 200);
    let many: Vec<PatternUse> = (0..20).map(|i| usage(i, "n", 3, 0.2)).collect();
    assert_eq!(propose_survival_pub(&many).len(), 10);
}

fn gap(seen: i64) -> GapProposal {
    GapProposal {
        tool_name: "recall".into(),
        query_text: "jump".into(),
        seen_count: seen,
        proposed_note: "note it".into(),
    }
}

#[test]
fn a_gap_keeps_its_hash_as_it_is_seen_again() {
    let first = propose_gaps(&vec![gap(3), gap(3)]);
    let again = propose_gaps(&vec![gap(8)]);
    assert_eq!(first[0].file_name, "pref_gap_00.json");
    assert_eq!(first[1].file_name, "pref_gap_01.json");
    assert_eq!(first[0].content_hash, again[0].content_hash);
    assert_eq!(first[1].content_hash, again[0].content_hash);
    assert_eq!(again[0].evidence.u64_at("seen_count"), Some(8));
    assert_eq!(again[0].target_file, ".cortex/prefs.toml");
}

#[test]
fn a_run_of_the_pipeline_is_tallied() {
    let input = PipelineInput {
        health: HealthCounts {
            patterns: 4,
            low_survival: 1,
            anti_patterns: 2,
            pending_obs: 0,
            pending_proposals: 5,
            orphaned_sessions: 0,
            hot_gaps: vec![("jump".to_string(), 7)],
        },
        snapshots_read: 6,
        clusters_found: 2,
        drafts: vec![true, false, true],
        gaps: vec![gap(3)],
        patterns: vec![usage(2, "poor", 3, 0.3)],
    };
    let mut state = PipelineState { proposals: vec![], notes: vec![] };
    let out = run(&input, &mut state, "2024-01-01T00:00:00+00:00", 1_704_067_200);
    assert_eq!(out.health.u64_at("pending_proposals"), Some(5));
    assert_eq!(
        out.result.summary(),
        "Pipeline complete: 6 snapshots → 2 clusters → 3 skill candidates (2 drafts) | 1 gap proposals | 1 survival proposals"
    );
    assert!(out.result.last_run_updated);
    assert!(!PipelineResult::default().last_run_updated);
    let hashes = |s: &PipelineState| -> Vec<String> {
        s.proposals.iter().map(|p| p.content_hash.clone()).collect()
    };
    assert_eq!(hashes(&state).len(), 2);
    state.proposals[0].status = "rejected".to_string();
    let entered = hashes(&state);
    let again = run(&input, &mut state, "2024-01-02T00:00:00+00:00", 1_704_153_600);
    assert_eq!(again.result, out.result);
    assert_eq!(hashes(&state), entered);
    assert_eq!(state.proposals[0].status, "rejected");
    assert_eq!(state.proposals[1].status, "pending");
    let notes: Vec<(&str, &str, i64)> =
        state.notes.iter().map(|n| (n.topic.as_str(), n.body.as_str(), n.added_at)).collect();
    assert_eq!(
        notes,
        [("consolidation-last-run", "2024-01-02T00:00:00+00:00", 1_704_153_600)]
    );
}

#[test]
fn staleness_is_counted_from_the_last_run() {
    let day = 1_704_067_200;
    assert!(is_stale(None, 8, day));
    assert!(!is_stale(Some("2024-01-01T00:00:00Z"), 8, day));
    assert!(!is_stale(Some("2024-01-01T00:00:00Z"), 8, day + 8 * 3600));
    assert!(is_stale(Some("2024-01-01T00:00:00Z"), 8, day + 8 * 3600 + 1));
    assert!(is_stale(Some("not a time"), 8, day));
}

fn entry(id: i64, created_at: i64) -> ProposalEntry {
    ProposalEntry {
        id: Some(id),
        proposal_type: "gap".into(),
        content_hash: format!("{id}"),
        target_file: "f".into(),
        proposed_text: "t".into(),
        evidence: Json::Null,
        status: "pending".into(),
        created_at,
        reviewed_at: None,
        committed_at: None,
    }
}

#[test]
fn a_status_brings_its_times() {
    let mut rows = vec![entry(1, 30), entry(2, 10), entry(3, 20)];
    let approved = set_proposal_status(&mut rows, 1, "approved", 5);
    assert_eq!((approved.reviewed_at, approved.committed_at), (Some(5), Some(5)));
    let rejected = set_proposal_status(&mut rows, 2, "rejected", 6);
    assert_eq!((rejected.reviewed_at, rejected.committed_at), (Some(6), None));
    let times = |rows: &Vec<ProposalEntry>| -> Vec<(String, Option<i64>, Option<i64>)> {
        rows.iter().map(|r| (r.status.clone(), r.reviewed_at, r.committed_at)).collect()
    };
    assert_eq!(
        times(&rows),
        [
            ("approved".to_string(), Some(5), Some(5)),
            ("rejected".to_string(), Some(6), None),
            ("pending".to_string(), None, None)
        ]
    );
    // A status that is no decision leaves the times that a row has.
    let other = set_proposal_status(&mut rows, 1, "pending", 7);
    assert_eq!((other.status.as_str(), other.reviewed_at, other.committed_at), ("pending", None, None));
    assert_eq!(times(&rows)[0], ("pending".to_string(), Some(5), Some(5)));
    // No row has the number: none changes.
    let before = times(&rows);
    set_proposal_status(&mut rows, 9, "approved", 8);
    assert_eq!(times(&rows), before);
}

#[test]
fn the_status_decides_what_is_listed() {
    let mut rows = vec![entry(1, 30), entry(2, 10), entry(3, 20)];
    let listed = |rows: &Vec<ProposalEntry>| -> Vec<i64> {
        load_pending_proposals(rows).iter().map(|r| r.id.unwrap()).collect()
    };
    assert_eq!(listed(&rows), [2, 3, 1]);
    set_proposal_status(&mut rows, 3, "approved", 5);
    assert_eq!(listed(&rows), [2, 1]);
    set_proposal_status(&mut rows, 3, "pending", 6);
    assert_eq!(listed(&rows), [2, 3, 1]);
}

#[test]
fn pending_proposals_are_listed_with_their_age() {
    assert_eq!(
        format_pending_proposals(&vec![], 0),
        "No pending cross-session proposals. Run consolidation first.\n"
    );
    let row = ProposalRow {
        id: 3,
        proposal_type: "pref_note".into(),
        proposed_text: "x".repeat(130),
        evidence: "{}".into(),
        created_at: 0,
    };
    let text = format_pending_proposals(&vec![row.clone()], 2 * 3600 + 5);
    assert_eq!(
        text,
        format!("1 pending proposal(s):\n\n  [3] type:pref_note (2 hours ago)\n  {}\n\n", "x".repeat(120))
    );
    assert!(format_pending_proposals(&vec![row], -3601).contains("(-1 hours ago)"));
}

fn counts(total: u64, approved: u64, rejected: u64) -> ProposalCounts {
    ProposalCounts { total, approved, rejected, pending: 0, trial: 0 }
}

#[test]
fn meta_report_empty_db() {
    let report = build_meta_report(&counts(0, 0, 0), &vec![], None, "");
    assert_eq!(report.total_proposals, 0);
    assert_eq!(report.approval_rate.num as f32 / report.approval_rate.den as f32, 0.0);
}

#[test]
fn meta_report_counts_proposals() {
    let given = ProposalCounts { total: 4, approved: 1, rejected: 1, pending: 1, trial: 1 };
    let by_type = vec![Rejection { kind: "pref_note".into(), count: 1 }];
    let report = build_meta_report(&given, &by_type, None, "");
    assert_eq!(report.total_proposals, 4);
    assert_eq!(report.approved, 1);
    assert_eq!(report.rejected, 1);
    assert_eq!(report.pending, 1);
    assert_eq!(report.trial, 1);
    assert_eq!(report.approval_rate, Ratio { num: 1, den: 4 });
    assert_eq!(report.gate_rejection_rate, Ratio { num: 0, den: 4 });
}

#[test]
fn the_rejection_log_tells_the_gates() {
    let log = "{\"reason\":\"duplicate: seen\"}\nnot json\n{\"reason\":\"credibility: 0.2\"}\n{\"reason\":\"duplicate: again\"}\n{\"other\":1}\n{\"reason\":\"odd\"}\n{\"reason\":\"rust_syntax: x\"}\n{\"reason\":\"gap_trial: x\"}\n{\"reason\":\"survival_trend: x\"}";
    let gates = gates_in(log);
    assert_eq!(
        gates,
        [
            Gate::Duplicate,
            Gate::Credibility,
            Gate::Duplicate,
            Gate::Other,
            Gate::RustSyntax,
            Gate::GapTrial,
            Gate::SurvivalTrend
        ]
    );
    let by_type = vec![Rejection { kind: "pref_note".into(), count: 1 }];
    let report = build_meta_report(&counts(10, 2, 4), &by_type, Some(log), "t");
    assert_eq!(report.top_rejected_types[0].kind, "gate:duplicate");
    assert_eq!(report.top_rejected_types[0].count, 2);
    assert_eq!(report.top_rejected_types.len(), 7);
    assert_eq!(report.gate_rejection_rate, Ratio { num: 3, den: 10 });
    let at_gates: u64 = report
        .top_rejected_types
        .iter()
        .filter(|r| r.kind.starts_with("gate:"))
        .map(|r| r.count)
        .sum();
    assert_eq!(at_gates, 7);
    assert!(report.top_rejected_types.windows(2).all(|w| w[0].count >= w[1].count));
}

fn texts() -> RateTexts {
    RateTexts { approval_rate: "0.0".into(), gate_rejection_rate: "0.7".into() }
}

#[test]
fn poor_proposals_suggest_a_look_at_the_thresholds() {
    let gates = vec![Gate::Credibility; 8];
    let report = meta_report(&counts(10, 0, 7), &vec![], Some(&gates), "t");
    let staged = stage_meta_proposals(&report, false, &texts());
    let told: Vec<&str> = staged.iter().map(|p| p.proposed_text.as_str()).collect();
    assert_eq!(
        told,
        [
            "Meta: Gate rejection rate is 70% across 10 proposals. Review verification thresholds (credibility filter, gap trial).",
            "Meta: Zero proposals approved out of 10 total. Pipeline may be generating low-quality proposals — review gate thresholds.",
            "Meta: 'gate:credibility' accounts for 8/10 rejections (80%). Consider adjusting this gate threshold."
        ]
    );
    assert!(staged.iter().all(|p| p.status == "pending" && p.proposal_type == "meta_threshold"));
    assert_eq!(stage_meta_proposals(&report, true, &texts()).len(), 2);
}

#[test]
fn few_proposals_suggest_nothing() {
    let gates = vec![Gate::Credibility; 4];
    let report = meta_report(&counts(4, 0, 4), &vec![], Some(&gates), "t");
    assert!(stage_meta_proposals(&report, false, &texts()).is_empty());
    // Three fifths is not more than three fifths, nor seven tenths more than seven tenths.
    let report = meta_report(&counts(10, 1, 0), &vec![], Some(&vec![Gate::Other; 7]), "t");
    assert!(stage_meta_proposals(&report, false, &texts()).is_empty());
    let report = meta_report(&counts(10, 1, 6), &vec![], None, "t");
    assert!(stage_meta_proposals(&report, false, &texts()).is_empty());
    assert_eq!(MetaReport::default().approval_rate, Ratio { num: 0, den: 1 });
}

#[test]
fn preferences_are_rendered_line_by_line() {
    let mut prefs = Preferences::default();
    assert_eq!(render_for_copilot(&prefs), "=== PREFERENCES ===\n");
    prefs.style.line_length = 100;
    prefs.style.naming = "snake_case".into();
    prefs.patterns.preferred = vec!["a".into(), "b".into()];
    prefs.project.notes = vec!["one".into(), "two".into()];
    assert_eq!(
        render_for_copilot(&prefs),
        "=== PREFERENCES ===\nline_length: 100\nnaming: snake_case\npreferred_patterns: a, b\nnotes: one | two\n"
    );
}

#[test]
fn preferences_have_their_defaults() {
    let prefs = Preferences::default();
    assert_eq!(prefs.enforcement.protocol_gate_mode, "protocol_session_only");
    assert!(prefs.enforcement.closeout_warning_enabled);
    assert_eq!(prefs.enforcement.closeout_grace_period_hours, 2);
    assert_eq!(prefs.consolidation.staleness_hours, 8);
    assert_eq!(prefs.consolidation.max_commits_per_run, 5);
    assert_eq!(prefs.consolidation.min_cluster_sessions, 3);
    assert_eq!(prefs.consolidation.skill_candidate_min_occurrences, 3);
    assert_eq!(prefs.consolidation.graph_snapshot_days, 30);
    assert_eq!(prefs.skills.skills_dir, "agent_customization/skills");
    assert_eq!(prefs.memory.max_mirror_files, 200);
    assert_eq!(f32::from_bits(prefs.memory.mirror_consolidation_threshold), 0.75);
}

#[test]
fn the_store_that_changed_last_is_chosen() {
    assert_eq!(find_session_store(&vec![]), None);
    assert_eq!(find_session_store(&vec![None, Some(4), Some(9), None, Some(9), Some(1)]), Some(4));
    let mut many: Vec<Option<u128>> = vec![Some(1); 50];
    many.push(Some(100));
    assert_eq!(find_session_store(&many), Some(49));
}

#[test]
fn sizes_read_as_the_formatter_writes_them() {
    for b in [0u64, 1023, 1024, 1536, 10_240, 1_048_575, 1_048_576, 5_500_000, 123_456_789_012, u64::MAX] {
        let expected = if b < 1024 {
            format!("{}B", b)
        } else if b < 1024 * 1024 {
            format!("{:.1}KB", b as f64 / 1024.0)
        } else {
            format!("{:.2}MB", b as f64 / (1024.0 * 1024.0))
        };
        assert_eq!(format_bytes(b), expected);
    }
}

fn status(health: Vec<HealthRow>) -> Status {
    Status {
        db: "memory.db".into(),
        db_bytes: Some(2048),
        indexed_units: 3,
        patterns: 1,
        anti_patterns: 0,
        annotations: 0,
        observations: 0,
        hot: vec![("recall".into(), 5)],
        cache: None,
        full: Some(FullStatus {
            nodes: 1,
            edges: 2,
            inferred: 1,
            manual: 1,
            scratchpads: 0,
            recent_hot: vec![],
            health,
            query_gaps: vec![],
        }),
    }
}

#[test]
fn phase4_pattern_revert_reflects_in_status_full() {
    let mut standing = Standing::new();
    standing.pattern_reverted();
    let survival = standing.survival.num as f32 / standing.survival.den as f32;
    let report = build_status_report(&status(vec![HealthRow {
        id: 1,
        name: "Grounded sound".into(),
        use_count: standing.use_count,
        reverted_count: standing.reverted_count,
        survival_rate: rate(survival),
    }]));
    assert!(report.contains("pattern health:"));
    assert!(report.contains("Grounded sound"));
    assert!(report.contains("0%"));
}

#[test]
fn the_status_is_told_as_json_too() {
    let json = build_status_json(&status(vec![]));
    assert_eq!(json.str_at("db"), Some("memory.db"));
    assert_eq!(json.u64_at("db_bytes"), Some(2048));
    assert!(json.get("full").is_some());
    assert_eq!(survival_tier(0.1f32.to_bits()).1, survival_tier(0.39f32.to_bits()).1);
    assert_ne!(survival_tier(0.1f32.to_bits()).1, survival_tier(0.5f32.to_bits()).1);
    assert_ne!(survival_tier(0.5f32.to_bits()).1, survival_tier(0.9f32.to_bits()).1);
}

#[test]
fn query_gaps_are_told() {
    let mut told = status(vec![]);
    assert!(!build_status_report(&told).contains("query gaps"));
    told.full.as_mut().unwrap().query_gaps = vec![("jump".into(), 7)];
    assert!(build_status_report(&told).ends_with("\n  query gaps:\n    jump                 7x\n"));
    match build_status_json(&told).get("full").unwrap().get("query_gaps") {
        Some(Json::List(gaps)) => assert_eq!(gaps.len(), 1),
        _ => panic!("no gaps"),
    }
    let checks = run_doctor_workflow(&Examination {
        indexed_units: 1,
        delta_files: 0,
        packet_tokens: 0,
        packet_units: 0,
        packet_deltas: 0,
        full_report: build_status_report(&told),
        query_gaps: Some(1),
        roundtrip: None,
    });
    assert_eq!(checks.len(), 5);
    assert_eq!(checks[4].step, "query_gap_telemetry");
    assert_eq!(checks[4].detail, "query_gaps_logged=1");
    assert!(checks_pass(&checks));
}

#[test]
fn the_doctor_looks_at_every_step() {
    let mut seen = Examination {
        indexed_units: 1,
        delta_files: 2,
        packet_tokens: 3,
        packet_units: 4,
        packet_deltas: 5,
        full_report: "full details".into(),
        query_gaps: None,
        roundtrip: Some(7),
    };
    let checks = run_doctor_workflow(&seen);
    assert_eq!(checks.len(), 5);
    assert!(checks_pass(&checks));
    assert_eq!(checks[0].detail, "indexed_units=1");
    assert!(doctor_report(&checks).starts_with("workflow doctor:\n\n  ✓ index_present          indexed_units=1\n"));
    assert_eq!(doctor_json(&checks).bool_at("ok"), Some(true));
    seen.indexed_units = 0;
    seen.roundtrip = None;
    let checks = run_doctor_workflow(&seen);
    assert_eq!(checks.len(), 4);
    assert!(!checks_pass(&checks));
    assert!(doctor_report(&checks).contains("  ✗ index_present"));
}

#[test]
fn commands_answer() {
    assert_eq!(edge_added("uses", "a", "b"), "added uses edge: a -> b\n");
    assert_eq!(graph_synced(3, 4), "graph synced: 3 nodes, 4 inferred edges\n");
    assert_eq!(relation_or_pairs("calls"), RelationType::Calls);
    assert_eq!(relation_or_pairs("nonsense"), RelationType::Pairs);
    assert_eq!(graph_query("X", None), "no unit found for X\n");
    let around = Surroundings {
        root: "X".into(),
        nodes: 2,
        edges: vec![Edge { from: "x".into(), relation: "uses".into(), to: "y".into() }],
    };
    assert_eq!(
        graph_query("X", Some(&around)),
        "subgraph root: X\nnodes: 2\nedges: 1\nx -[uses]-> y\n"
    );
    assert_eq!(
        pruned(3, 500, Some(2048)),
        "  pruned 3 call log entries (keeping 500)\n  vacuumed db\n  db size now: 2.0KB\n"
    );
    assert!(pruned(0, 1, None).ends_with("db size now: unknown\n"));
    assert_eq!(
        correction_recorded(4),
        "Correction recorded (id=4). Use `cortex anti-pattern add` to promote if this recurs.\n"
    );
    assert_eq!(context_with_prefs("p", "packet"), "p\npacket");
    assert_eq!(context_with_prefs(" \n", "packet"), "packet");
}

#[test]
fn commands_answer_as_json() {
    let done = action_done("remove", 4);
    assert_eq!(done.bool_at("ok"), Some(true));
    assert_eq!(done.str_at("action"), Some("remove"));
    assert_eq!(done.u64_at("id"), Some(4));
    assert_eq!(pattern_added(1, "n", "i").str_at("intent"), Some("i"));
    assert_eq!(entry_added(1, "topic", "t").str_at("topic"), Some("t"));
    let health = pattern_health(&vec![HealthRow {
        id: 1,
        name: "n".into(),
        use_count: 2,
        reverted_count: 3,
        survival_rate: rate(0.5),
    }]);
    match health.get("patterns") {
        Some(Json::List(rows)) => assert_eq!(rows[0].u64_at("reverted_count"), Some(3)),
        _ => panic!("no rows"),
    }
}

#[test]
fn a_project_has_a_name() {
    assert_eq!(project_name(Some("given"), Some("folder")), "given");
    assert_eq!(project_name(None, Some("folder")), "folder");
    assert_eq!(project_name(None, Some("")), "Project");
    assert_eq!(project_name(None, None), "Project");
    assert!(writes_file(true, true));
    assert!(writes_file(false, false));
    assert!(!writes_file(false, true));
    assert!(bootstrap_cortex_ps1_template().starts_with("# cortex.ps1 (bootstrap template)\n"));
    assert!(bootstrap_cortex_ps1_template().ends_with("}\n"));
}

#[test]
fn bootstrap_keeps_other_servers() {
    let old = "{\"servers\": {\"other\": {\"command\": \"x\"}}, \"inputs\": 3, \"kept\": true}";
    let new = run_bootstrap(Some(old), "a\\b.db", "code", "Name");
    assert_eq!(new.bool_at("kept"), Some(true));
    assert!(matches!(new.get("inputs"), Some(Json::List(l)) if l.is_empty()));
    let servers = new.get("servers").unwrap();
    assert_eq!(servers.get("other").unwrap().str_at("command"), Some("x"));
    let args = servers.get("cortex").unwrap().strings_at("args");
    assert_eq!(args, ["--db", "a/b.db", "serve", "--source", "code", "--repo", ".", "--name", "Name"]);
    for broken in [None, Some("no json"), Some("[]")] {
        let fresh = run_bootstrap(broken, "m.db", "src", "N");
        assert!(fresh.get("servers").unwrap().get("cortex").is_some());
    }
    let parsed = parse_json(old).unwrap();
    assert!(merge_config(Some(&parsed), "m.db", "src", "N").get("kept").is_some());
    match index_sources("src", "N").get("targets") {
        Some(Json::List(t)) => {
            assert_eq!(t[0].str_at("source"), Some("src"));
            assert!(matches!(t[0].get("scope"), Some(Json::Null)));
        }
        _ => panic!("no targets"),
    }
}
