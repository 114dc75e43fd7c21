use cortex::json::{parse_json, Json};
use cortex::mcp::graph_tools::{
    graph_request, low_byte, simulation_request, tool_explain_dependency_path, tool_query_graph,
    tool_simulate_change, Candidate, Node,
};
use cortex::mcp::reply::{at_most, list_detail_tier, number_or, text_or, Detail, Reply};
use cortex::mcp::server::{
    content, dispatch, finish_call, initialize_result, may_cache, read_line, read_request, respond,
    tools_list, unknown_method, Incoming, Method, Tool,
};
use cortex::mcp::symbols::{
    find_symbol_unit, helper_guidance, similar_symbol_units, tool_get_helper, tool_get_syntax,
    tool_get_usage_examples, usage_request, CatalogEntry, SimilarSymbol, SymbolExample,
};
use cortex::mcp::tools::{
    augment_hint, context_request, delta_request, recall_units, search_request, semantic_entries,
    suggestion_queued, tool_get_anti_patterns, tool_get_context, tool_get_delta, tool_get_item,
    tool_get_preferences, tool_list_all, tool_list_patterns, tool_recall, tool_semantic_search,
    tool_suggest_pattern, unit_named, DeltaEntry, SemanticMatch,
};
use cortex::model::{Annotation, AntiPattern, CodeUnit, Pattern, StoredRate};
use cortex::paths::Edge;
use cortex::reasoner::simulator::{AffectedItem, RiskLevel, SimulationResult};
use cortex::recall::{matching_patterns, recall_json, run_recall};

fn object(text: &str) -> Json {
    parse_json(text).unwrap()
}

fn unit(id: &str, kind: &str, name: &str) -> CodeUnit {
    CodeUnit {
        id: id.into(),
        kind: kind.into(),
        name: name.into(),
        module: "m".into(),
        summary: format!("{kind} `{name}`"),
        compressed: format!("[{kind}: {name}]\nsig: fn x()\n"),
    }
}

fn units() -> Vec<CodeUnit> {
    vec![unit("m::Action", "enum", "Action"), unit("m::Player", "struct", "Player"), unit("m::act", "fn", "act")]
}

fn pattern(name: &str, survival: f32) -> Pattern {
    Pattern {
        id: Some(5),
        name: name.into(),
        intent: "leave the ground".into(),
        body: "jump()".into(),
        uses: vec!["Action".into()],
        tags: vec!["Move".into()],
        approved_at: 0,
        use_count: 4,
        reverted_count: 1,
        survival_rate: StoredRate {
            bits: survival.to_bits(),
            number: format!("{survival:?}"),
            percent: format!("{:.0}", survival * 100.0),
        },
    }
}

fn ok(reply: &Reply) -> &str {
    match &reply.result {
        Ok(s) => s,
        Err(e) => panic!("refused: {e}"),
    }
}

#[test]
fn a_line_is_read_as_a_request() {
    assert!(matches!(read_line("   "), Incoming::Blank));
    assert!(matches!(read_line("{oops"), Incoming::Malformed));
    assert!(matches!(read_line("{\"method\": \"initialized\"}"), Incoming::Notification));
    match read_line("{\"id\": 7, \"method\": \"tools/call\", \"params\": {\"name\": \"recall\", \"arguments\": {\"topic\": \"x\"}}}") {
        Incoming::Request { id: Json::Unsigned(7), method: Method::CallTool { tool, args } } => {
            assert_eq!(tool, "recall");
            assert_eq!(args.str_at("topic"), Some("x"));
        }
        _ => panic!("no call"),
    }
    match read_request(&object("{\"id\": 1, \"method\": \"odd\"}")) {
        Incoming::Request { method: Method::Unknown(m), .. } => assert_eq!(m, "odd"),
        _ => panic!("known"),
    }
}

#[test]
fn an_answer_carries_the_id() {
    let good = respond(Json::Unsigned(3), Ok(content("hi")));
    assert_eq!(good.u64_at("id"), Some(3));
    assert!(good.get("result").is_some());
    let bad = respond(Json::Text("k".into()), Err(unknown_method("odd")));
    assert_eq!(bad.str_at("id"), Some("k"));
    assert!(bad.get("error").is_some());
    assert!(unknown_method("odd").contains("odd"));
    let hello = initialize_result("Engine", "1.2");
    assert!(hello.get("serverInfo").is_some());
}

#[test]
fn every_tool_is_listed_once() {
    let names: Vec<String> = match tools_list().get("tools") {
        Some(Json::List(list)) => {
            list.iter().map(|t| t.str_at("name").unwrap().to_string()).collect()
        }
        _ => panic!("no tools"),
    };
    let mut once = names.clone();
    once.sort();
    once.dedup();
    assert_eq!(once.len(), names.len());
    for name in &names {
        assert_eq!(dispatch(name).unwrap().as_str(), name);
    }
    assert!(names.iter().any(|n| n == Tool::Recall.as_str()));
    assert!(dispatch("no_such_tool").is_err());
}

#[test]
fn answers_are_kept_where_they_may() {
    let told = |outcome: cortex::mcp::server::CallOutcome| match outcome.result.unwrap().get("content") {
        Some(Json::List(l)) => l[0].str_at("text").unwrap().to_string(),
        _ => panic!("no content"),
    };
    let live = [
        "get_context", "get_delta", "query_graph", "explain_dependency_path", "recurrent_think",
        "simulate_change", "recall", "list_patterns", "get_anti_patterns", "suggest_pattern",
        "begin_protocol_session", "get_session_health", "flush_knowledge_markers",
        "closeout_session", "propose_skill",
    ];
    for tool in live {
        assert!(!may_cache(tool));
        assert!(!finish_call(tool, None, Ok("new")).keep);
        assert_eq!(told(finish_call(tool, Some("old"), Ok("new"))), "new");
    }
    for tool in ["semantic_search", "get_syntax", "get_usage_examples", "get_helper", "list_all"] {
        assert!(may_cache(tool));
    }
    assert!(may_cache("get_item") && may_cache("get_preferences"));
    let cached = finish_call("get_item", Some("old"), Ok("new"));
    assert!(!cached.keep);
    assert_eq!(told(cached), "old");
    let fresh = finish_call("get_item", None, Ok("new"));
    assert!(fresh.keep);
    assert_eq!(told(fresh), "new");
    let failed = finish_call("get_item", None, Err("broken"));
    assert!(!failed.keep);
    assert_eq!(failed.result.err().as_deref(), Some("broken"));
}

#[test]
fn arguments_have_defaults() {
    let args = object("{\"limit\": 4, \"detail\": \"full\", \"name\": \"n\"}");
    assert_eq!(number_or(&args, "limit", 9), 4);
    assert_eq!(number_or(&args, "missing", 9), 9);
    assert_eq!(text_or(&args, "name", "d"), "n");
    assert_eq!(text_or(&args, "missing", "d"), "d");
    assert_eq!(at_most(3, 10), 3);
    assert_eq!(at_most(30, 10), 10);
    assert!(matches!(list_detail_tier(&args), Detail::Full));
    assert!(matches!(list_detail_tier(&object("{\"detail\": \"summary\"}")), Detail::Summary));
    assert!(matches!(list_detail_tier(&object("{\"detail\": \"odd\"}")), Detail::Standard));
}

#[test]
fn symbols_are_found_by_id_first() {
    let list = vec![unit("x", "fn", "m::Action"), unit("m::Action", "enum", "Action")];
    assert_eq!(find_symbol_unit("m::Action", &list).unwrap().kind, "enum");
    assert_eq!(find_symbol_unit("ACTION", &list).unwrap().kind, "enum");
    assert!(find_symbol_unit("nothing", &list).is_none());
    let known = vec![unit("1", "fn", "react"), unit("2", "fn", "Actor"), unit("3", "fn", "Zed")];
    let similar: Vec<&str> =
        similar_symbol_units("AC", &known, 9).iter().map(|u| u.name.as_str()).collect();
    assert_eq!(similar, ["Actor", "react"]);
}

#[test]
fn syntax_is_told_of_known_symbols() {
    let reply = tool_get_syntax(&object("{\"symbol_name\": \"Action\"}"), &units());
    assert!(ok(&reply).contains("Action"));
    assert!(tool_get_syntax(&object("{}"), &units()).result.is_err());
    let unknown = tool_get_syntax(&object("{\"symbol_name\": \"Nope\"}"), &units());
    assert!(unknown.gap.is_some());
}

#[test]
fn usage_is_told_by_example() {
    assert!(usage_request(&object("{}")).is_err());
    let request = usage_request(&object("{\"symbol_name\": \"act\", \"limit\": 2}")).unwrap();
    assert_eq!(request.symbol, "act");
    let example = SymbolExample {
        file: "src/a.rs".into(),
        line: Some(4),
        snippet: "act();".into(),
        tier: "core".into(),
    };
    let reply = tool_get_usage_examples(&object("{\"symbol_name\": \"act\"}"), &vec![example], &units());
    assert!(ok(&reply).contains("act();"));
}

#[test]
fn help_is_never_empty() {
    assert!(!helper_guidance("x", "other", "", "").is_empty());
    assert!(!helper_guidance("Action", "enum", "move", "physics").is_empty());
    let entry = CatalogEntry {
        name: "Action".into(),
        kind: "enum".into(),
        module: "m".into(),
        signature: None,
        helper_tags: "".into(),
    };
    let reply = tool_get_helper(&object("{\"symbol_name\": \"Action\"}"), Some(&entry), &vec![], &units());
    assert!(ok(&reply).contains("Action"));
    let near = SimilarSymbol { name: "Actor".into(), kind: "struct".into(), module: "m".into() };
    let reply = tool_get_helper(&object("{\"symbol_name\": \"Zzz\"}"), None, &vec![near], &vec![]);
    assert!(reply.result.is_err() || ok(&reply).contains("Actor"));
    assert!(tool_get_helper(&object("{}"), None, &vec![], &vec![]).result.is_err());
}

#[test]
fn a_search_needs_a_query() {
    assert!(search_request(&object("{}")).is_err());
    assert_eq!(search_request(&object("{\"query\": \"jump\"}")).unwrap().query, "jump");
    let found = vec![SemanticMatch { unit: unit("m::Action", "enum", "Action"), percent: "90".into() }];
    assert_eq!(semantic_entries(&found).len(), 1);
    assert_eq!(semantic_entries(&found)[0], "### `Action` (90% match)\n[enum: Action]\nsig: fn x()\n\n");
    let reply = tool_semantic_search(&object("{\"query\": \"jump\"}"), &found, &units(), "shown\n");
    assert_eq!(
        ok(&reply),
        "Search: `jump`\n\n## Semantic matches\nshown\n## Keyword matches\n- `Player` (struct): struct `Player`\n- `act` (fn): fn `act`\n"
    );
    let none = tool_semantic_search(&object("{\"query\": \"jump\"}"), &vec![], &vec![], "");
    assert!(none.gap.is_some());
}

#[test]
fn items_are_looked_up_by_name() {
    let list = units();
    assert_eq!(unit_named("Player", &list).unwrap().id, "m::Player");
    assert!(tool_get_item(&object("{}"), &list, "").result.is_err());
    let reply = tool_get_item(&object("{\"name\": \"Player\"}"), &list, "rendered");
    assert!(reply.result.is_ok());
}

#[test]
fn context_follows_the_hint() {
    assert!(context_request(&object("{}"), &units()).is_err());
    let request = context_request(&object("{\"hint\": \"fix Player\"}"), &units()).unwrap();
    assert_eq!(request.hint, "fix Player");
    assert_eq!(request.augmented, augment_hint("fix Player", &units()));
    let reply = tool_get_context(&object("{\"hint\": \"h\"}"), Some("packet"), "prefs");
    assert!(ok(&reply).contains("packet"));
    assert_eq!(ok(&tool_get_preferences("p")), "p");
}

#[test]
fn deltas_are_told() {
    let (_, options) = delta_request(&object("{\"max_files\": 3}"));
    assert_eq!(options.max_files, 3);
    let entry = DeltaEntry { change: "modified".into(), path: "src/a.rs".into(), summary: "s".into() };
    assert!(ok(&tool_get_delta(&vec![entry])).contains("src/a.rs"));
    assert!(!ok(&tool_get_delta(&vec![])).is_empty());
}

#[test]
fn recall_ignores_case() {
    let patterns = vec![pattern("Jump", 0.9)];
    assert_eq!(matching_patterns("JUMP", &patterns).len(), 1);
    assert_eq!(matching_patterns("move", &patterns).len(), 1);
    assert_eq!(matching_patterns("swim", &patterns).len(), 0);
    let text = run_recall("jump", &units(), &patterns, &vec![], &vec![]);
    assert!(text.contains("Jump"));
    assert!(text.contains("90%"));
    let json = recall_json("jump", &units(), &patterns, &vec![], &vec![]);
    match json.get("patterns") {
        Some(Json::List(l)) => assert_eq!(l.len(), 1),
        _ => panic!("no patterns"),
    }
    assert!(!recall_units("act", &units()).is_empty());
    assert_eq!(recall_units("ACT", &units()).len(), recall_units("act", &units()).len());
    let anti = vec![AntiPattern {
        id: Some(1),
        description: "Teleporting".into(),
        wrong: "w".into(),
        correct: "c".into(),
        tags: vec![],
        added_at: 0,
    }];
    let notes = vec![Annotation {
        id: Some(2),
        topic: "teleport".into(),
        body: "b".into(),
        tags: vec![],
        added_at: 0,
    }];
    let told = |topic: &str| recall_json(topic, &vec![], &vec![], &anti, &notes);
    for key in ["anti_patterns", "annotations"] {
        let count = |topic: &str| match told(topic).get(key) {
            Some(Json::List(l)) => l.len(),
            _ => 0,
        };
        assert_eq!((count("teleport"), count("TelePort"), count("swim")), (1, 1, 0), "{key}");
    }
}

#[test]
fn the_recall_tool_notes_what_it_handed_out() {
    let patterns = vec![pattern("Jump", 0.9)];
    let note = Annotation { id: Some(2), topic: "jump".into(), body: "b".into(), tags: vec![], added_at: 0 };
    let reply = tool_recall(&object("{\"topic\": \"jump\"}"), &vec![], "", &patterns, &vec![], &vec![note]);
    assert!(ok(&reply).contains("Jump"));
    assert!(tool_recall(&object("{}"), &vec![], "", &vec![], &vec![], &vec![]).result.is_err());
}

#[test]
fn patterns_are_listed_with_their_standing() {
    let reply = tool_list_patterns(&object("{}"), &vec![pattern("Jump", 0.3)]);
    assert!(ok(&reply).contains("survival 30%"));
    let anti = AntiPattern {
        id: Some(1),
        description: "d".into(),
        wrong: "w".into(),
        correct: "c".into(),
        tags: vec![],
        added_at: 0,
    };
    assert!(ok(&tool_get_anti_patterns(&vec![anti])).contains("w"));
}

#[test]
fn suggestions_wait_for_a_look() {
    assert!(tool_suggest_pattern(&object("{}"), 0).is_err());
    let seen = tool_suggest_pattern(
        &object("{\"name\": \"Jump\", \"intent\": \"i\", \"body\": \"jump()\"}"),
        77,
    )
    .unwrap();
    assert_eq!(seen.observed_at, 77);
    assert!(suggestion_queued(4).contains('4'));
}

#[test]
fn listing_keeps_to_the_kind_asked_for() {
    let reply = tool_list_all(&object("{\"kind\": \"struct\"}"), &units());
    assert!(ok(&reply).contains("Player"));
    assert!(!ok(&reply).contains("Action"));
}

#[test]
fn graph_tools_answer() {
    assert!(graph_request(&object("{}")).is_err());
    assert_eq!(graph_request(&object("{\"name\": \"Action\", \"depth\": 257}")).unwrap().1, low_byte(257));
    assert_eq!(low_byte(257), 1);
    let edge = Edge { from: "m::Action".into(), relation: "uses".into(), to: "m::Player".into() };
    let nodes = vec![Node { id: "m::Action".into(), name: "Action".into() }, Node { id: "m::Player".into(), name: "Player".into() }];
    let list = units();
    let reply = tool_query_graph(&object("{\"name\": \"Action\"}"), Some(&list[0]), &vec![edge.clone()], &nodes);
    assert!(ok(&reply).contains("uses"));
    let end = |id: &str, name: &str| Candidate { id: id.into(), name: name.into(), module: "m".into() };
    let args = object("{\"from\": \"Action\", \"to\": \"Player\"}");
    let reply = tool_explain_dependency_path(&args, &vec![end("m::Action", "Action")], &vec![end("m::Player", "Player")], &vec![edge]);
    assert!(ok(&reply).contains("m::Player"));
}

#[test]
fn a_simulated_change_is_told() {
    assert!(simulation_request(&object("{}")).is_err());
    let args = object("{\"item\": \"Action\", \"change\": \"rename\"}");
    let request = simulation_request(&args).unwrap();
    assert_eq!(request.item, "Action");
    let result = SimulationResult {
        changed_item: "Action".into(),
        affected: vec![AffectedItem { name: "Player".into(), relation: "uses".into(), impact: "i".into() }],
        risk_level: RiskLevel::Low,
        warnings: vec![],
    };
    let reply = tool_simulate_change(&args, result, &vec![]);
    assert!(ok(&reply).contains("Player"));
}
