use cortex::json::{parse_json, Json};
use cortex::mcp::thinking::{max_loops, tool_recurrent_think};
use cortex::rates::Ratio;
use cortex::reasoner::recurrent::{
    critique_hypothesis, generate_refine_prompt, is_negated, run_recurrent_loop, score_confidence,
    should_halt,
};
use cortex::reasoner::scratchpad::Scratchpad;
use cortex::reasoner::simulator::{
    simulate_change, simulate_change_deep, AffectedItem, Lookup, Neighbourhood, RiskLevel,
    SimulationResult,
};

#[test]
fn test_is_negated_detects_negation() {
    assert!(is_negated("avoid using Action::SetPosition", 20));
    assert!(is_negated("do not use unwrap()", 12));
    assert!(is_negated("shouldn't use raw pointers", 14));
    assert!(is_negated("without momentum, this breaks", 10));
}

#[test]
fn test_is_negated_passes_non_negated() {
    assert!(!is_negated("use Action::SetPosition to teleport", 30));
    assert!(!is_negated("momentum carries through", 10));
    assert!(!is_negated("this uses unwrap() safely", 12));
}

#[test]
fn test_is_negated_edge_cases() {
    assert!(!is_negated("Action::SetPosition is fine", 0));
    assert!(!is_negated("x", 0));
    assert!(!is_negated("", 0));
}

#[test]
fn test_stability_detection() {
    let mut scratchpad = Scratchpad::new("test task", None);
    scratchpad.add_hypothesis(1, "spawn player at x=0, y=0").ok();
    scratchpad.add_hypothesis(2, "spawn player at x=0, y=0").ok();
    assert!(scratchpad.is_stable(), "Identical hypotheses should be stable");
}

#[test]
fn test_confidence_bounds() {
    let confidence = (1.0_f32 - 0.5_f32).max(0.0_f32).min(1.0_f32);
    assert_eq!(confidence, 0.5);
    assert!((0.0..=1.0).contains(&confidence));
    // One violation in two checks.
    let scored = score_confidence(&vec!["violates a".to_string()], 1, 1);
    assert_eq!(scored.num as f32 / scored.den as f32, 0.5);
}

#[test]
fn test_risk_classification() {
    assert_eq!(
        match 1 {
            0..=2 => RiskLevel::Low,
            _ => RiskLevel::High,
        },
        RiskLevel::Low
    );
    assert_eq!(
        match 5 {
            0..=2 => RiskLevel::Low,
            3..=6 => RiskLevel::Medium,
            _ => RiskLevel::High,
        },
        RiskLevel::Medium
    );
    assert_eq!(
        match 10 {
            0..=2 => RiskLevel::Low,
            3..=6 => RiskLevel::Medium,
            _ => RiskLevel::High,
        },
        RiskLevel::High
    );
}

#[test]
fn test_render_output() {
    let result = SimulationResult {
        changed_item: "Action".to_string(),
        affected: vec![AffectedItem {
            name: "GameObject".to_string(),
            relation: "Uses".to_string(),
            impact: "field type change".to_string(),
        }],
        risk_level: RiskLevel::Medium,
        warnings: vec!["Consider backwards compat.".to_string()],
    };
    let rendered = result.render();
    assert!(rendered.contains("Action"));
    assert!(rendered.contains("Medium"));
    assert!(rendered.contains("GameObject"));
}

fn users(names: &[&str]) -> Neighbourhood {
    Neighbourhood { users: names.iter().map(|s| s.to_string()).collect(), relations: vec![] }
}

#[test]
fn simulated_risk_follows_the_number_of_users() {
    for (n, risk) in [(0, RiskLevel::Low), (2, RiskLevel::Low), (3, RiskLevel::Medium), (7, RiskLevel::High)] {
        let names: Vec<String> = (0..n).map(|i| format!("user{i}")).collect();
        let refs: Vec<&str> = names.iter().map(|s| s.as_str()).collect();
        let result = simulate_change("Item", "rename it", Some(&users(&refs)));
        assert_eq!(result.affected.len(), n, "{n}");
        assert_eq!(result.risk_level, risk, "{n}");
    }
}

#[test]
fn a_user_counts_once() {
    let result = simulate_change("Item", "rename it", Some(&users(&["a", "b", "a"])));
    let names: Vec<&str> = result.affected.iter().map(|a| a.name.as_str()).collect();
    assert_eq!(names, ["a", "b"]);
}

#[test]
fn an_unknown_item_is_warned_of() {
    let result = simulate_change("Ghost", "rename it", None);
    assert!(result.affected.is_empty());
    assert_eq!(result.risk_level, RiskLevel::Low);
    assert_eq!(result.warnings, ["Item not found in graph — no impact detected."]);
}

#[test]
fn a_second_step_makes_the_risk_high() {
    let shallow = simulate_change("Item", "rename it", Some(&users(&["a"])));
    let deep = simulate_change_deep(shallow, 2, &vec![Lookup::Found(users(&["b", "c"]))]);
    assert_eq!(deep.risk_level, RiskLevel::High);
    assert_eq!(deep.affected.len(), 1);
    let shallow = simulate_change("Item", "rename it", Some(&users(&["a"])));
    let same = simulate_change_deep(shallow, 1, &vec![Lookup::Found(users(&["b", "c"]))]);
    assert_eq!(same.risk_level, RiskLevel::Low);
    let shallow = simulate_change("Item", "rename it", Some(&users(&["a"])));
    let same = simulate_change_deep(shallow, 2, &vec![Lookup::Failed]);
    assert_eq!(same.risk_level, RiskLevel::Low);
}

#[test]
fn a_bad_approach_is_criticised_unless_negated() {
    let bad = vec![("unwrap()".to_string(), "a match".to_string())];
    assert_eq!(
        critique_hypothesis("call unwrap() here", &bad, &vec![]),
        ["Anti-pattern detected: uses 'unwrap()'. Should use 'a match' instead."]
    );
    assert!(critique_hypothesis("do NOT use unwrap() here", &bad, &vec![]).is_empty());
    // One use that is not negated is enough, before a negated one or behind it.
    assert_eq!(critique_hypothesis("unwrap() or avoid unwrap()", &bad, &vec![]).len(), 1);
    assert!(critique_hypothesis("avoid unwrap(), never unwrap()", &bad, &vec![]).is_empty());
    // An empty form is used everywhere, and not negated at the start.
    let empty = vec![(String::new(), "x".to_string())];
    assert_eq!(critique_hypothesis("", &empty, &vec![]).len(), 1);
    assert!(critique_hypothesis("match on it", &bad, &vec![]).is_empty());
}

#[test]
fn a_plain_use_behind_a_negated_one_is_criticised() {
    let bad = vec![("unwrap()".to_string(), "?".to_string())];
    let hypothesis = "avoid unwrap() in the parser module; in the loader we then call unwrap()";
    assert_eq!(
        critique_hypothesis(hypothesis, &bad, &vec![]),
        ["Anti-pattern detected: uses 'unwrap()'. Should use '?' instead."]
    );
}

#[test]
fn conflicting_parts_are_criticised() {
    let conflicts = vec![("alpha".to_string(), "beta".to_string())];
    assert_eq!(
        critique_hypothesis("alpha with beta", &vec![], &conflicts),
        ["Graph conflict: 'alpha' and 'beta' marked as conflicting. Reconsider usage."]
    );
    assert!(critique_hypothesis("alpha alone", &vec![], &conflicts).is_empty());
}

fn value(r: Ratio) -> f64 {
    r.num as f64 / r.den as f64
}

#[test]
fn confidence_falls_with_violations() {
    let told = |n: usize| vec!["x".to_string(); n];
    assert_eq!(value(score_confidence(&told(0), 4, 0)), 1.0);
    assert_eq!(value(score_confidence(&told(1), 3, 1)), 0.75);
    assert_eq!(value(score_confidence(&told(9), 4, 0)), 0.0);
    // Nothing to check against is moderate confidence.
    assert_eq!(value(score_confidence(&told(0), 0, 0)), 0.8f32 as f64);
}

#[test]
fn confidence_is_told_in_single_precision() {
    let told = |n: usize| vec!["x".to_string(); n];
    assert_eq!(score_confidence(&told(59), 200, 0).percent_text(), "71");
    for checks in 1..200usize {
        for violations in 0..=checks + 1 {
            let scored = score_confidence(&told(violations), checks as u64, 0);
            let expected = (1.0f32 - violations as f32 / checks as f32).max(0.0).min(1.0);
            assert_eq!(value(scored), expected as f64, "{violations} of {checks}");
            assert_eq!(scored.percent_text(), format!("{:.0}", expected * 100.0));
        }
    }
}

#[test]
fn the_loop_halts_at_its_limit() {
    let mut pad = Scratchpad::new("task", Some("key"));
    assert!(should_halt(&pad, 3).is_none());
    pad.add_hypothesis(1, "first").unwrap();
    let context = run_recurrent_loop(&mut pad, &vec![], &vec![], 1, 0, 1, 1).unwrap();
    assert!(!context.should_continue);
    assert!(context.halt_reason.is_some());
}

#[test]
fn a_prompt_tells_what_to_mend() {
    let mut pad = Scratchpad::new("task", None);
    pad.add_hypothesis(1, "first").unwrap();
    let prompt = generate_refine_prompt(&pad, 2, &vec!["too slow".to_string()]);
    assert!(prompt.contains("too slow"));
}

#[test]
fn loops_are_capped() {
    let loops = |text: &str| max_loops(&parse_json(text).unwrap());
    assert_eq!(loops("{}"), 6);
    assert_eq!(loops("{\"depth_mode\": \"shallow\", \"max_loops\": 9}"), 2);
    assert_eq!(loops("{\"depth_mode\": \"deep\"}"), 12);
    assert_eq!(loops("{\"max_loops\": 3}"), 3);
    assert_eq!(loops("{\"max_loops\": 200}"), 16);
}

#[test]
fn thinking_needs_a_task() {
    let reply = tool_recurrent_think(&Json::Object(vec![]), None, &vec![], &vec![], 0, 0);
    assert_eq!(reply.err().as_deref(), Some("missing `task`"));
}

#[test]
fn thinking_keeps_what_stands_on_the_pad() {
    let bad = vec![("unwrap()".to_string(), "?".to_string())];
    let step = |text: &str, stored: Option<Scratchpad>| {
        tool_recurrent_think(&parse_json(text).unwrap(), stored, &bad, &vec![], 2, 0).unwrap()
    };
    let (told, pad) =
        step("{\"task\": \"t\", \"session_key\": \"k\", \"hypothesis\": \"unwrap()\"}", None);
    assert!(told.starts_with("=== RECURRENT THINKING (Loop 1) ===\n\nConfidence: 50%\n"));
    assert_eq!((pad.task.as_str(), pad.session_key.as_deref()), ("t", Some("k")));
    assert_eq!(pad.halt_reason, None);
    let (_, pad) =
        step("{\"task\": \"other\", \"hypothesis\": \"use ?\", \"loop\": 4}", Some(pad));
    let said: Vec<(u8, &str)> =
        pad.hypotheses.iter().map(|h| (h.loop_index, h.content.as_str())).collect();
    assert_eq!(said, [(1, "unwrap()"), (4, "use ?")]);
    assert_eq!((pad.task.as_str(), pad.session_key.as_deref()), ("t", Some("k")));
    assert_eq!(pad.critiques.len(), 1);
    assert_eq!(pad.halt_reason.as_deref(), Some("confidence threshold reached (≥0.92)"));
}
