//! The protocol in which the server is asked, and the list of its tools.

use crate::json::{
    add_field, fields_of, json_of_text, law_first_entry_counts, list, no_entries, no_fields, object,
    opt_view, parse_json, text, text_list, text_views, views_of, Json, JsonView,
};
use crate::mcp::graph_tools::{graph_reply, Node};
use crate::mcp::tools::{context_reply, item_reply, recall_reply, search_reply, SemanticMatch};
use crate::model::{Annotation, AntiPattern, CodeUnit, Pattern};
use crate::paths::Edge;
use crate::text::{blank, is_blank, same, views, Text};
use vstd::prelude::*;

verus! {

/// The tools that the server knows.
#[derive(Debug, Clone, Copy, PartialEq, Eq, Structural)]
pub enum Tool {
    SemanticSearch,
    GetItem,
    GetSyntax,
    GetUsageExamples,
    GetHelper,
    GetContext,
    GetDelta,
    QueryGraph,
    ExplainDependencyPath,
    GetPreferences,
    RecurrentThink,
    SimulateChange,
    Recall,
    ListPatterns,
    GetAntiPatterns,
    SuggestPattern,
    ListAll,
    BeginProtocolSession,
    GetSessionHealth,
    FlushKnowledgeMarkers,
    CloseoutSession,
    ProposeSkill,
}

impl Tool {
    /// The name of the tool.
    pub open spec fn name(self) -> Text {
        match self {
            Tool::SemanticSearch => "semantic_search"@,
            Tool::GetItem => "get_item"@,
            Tool::GetSyntax => "get_syntax"@,
            Tool::GetUsageExamples => "get_usage_examples"@,
            Tool::GetHelper => "get_helper"@,
            Tool::GetContext => "get_context"@,
            Tool::GetDelta => "get_delta"@,
            Tool::QueryGraph => "query_graph"@,
            Tool::ExplainDependencyPath => "explain_dependency_path"@,
            Tool::GetPreferences => "get_preferences"@,
            Tool::RecurrentThink => "recurrent_think"@,
            Tool::SimulateChange => "simulate_change"@,
            Tool::Recall => "recall"@,
            Tool::ListPatterns => "list_patterns"@,
            Tool::GetAntiPatterns => "get_anti_patterns"@,
            Tool::SuggestPattern => "suggest_pattern"@,
            Tool::ListAll => "list_all"@,
            Tool::BeginProtocolSession => "begin_protocol_session"@,
            Tool::GetSessionHealth => "get_session_health"@,
            Tool::FlushKnowledgeMarkers => "flush_knowledge_markers"@,
            Tool::CloseoutSession => "closeout_session"@,
            Tool::ProposeSkill => "propose_skill"@,
        }
    }

    /// The name of the tool.
    pub fn as_str(&self) -> (r: &'static str)
        ensures
            r@ == self.name(),
    {
        match self {
            Tool::SemanticSearch => "semantic_search",
            Tool::GetItem => "get_item",
            Tool::GetSyntax => "get_syntax",
            Tool::GetUsageExamples => "get_usage_examples",
            Tool::GetHelper => "get_helper",
            Tool::GetContext => "get_context",
            Tool::GetDelta => "get_delta",
            Tool::QueryGraph => "query_graph",
            Tool::ExplainDependencyPath => "explain_dependency_path",
            Tool::GetPreferences => "get_preferences",
            Tool::RecurrentThink => "recurrent_think",
            Tool::SimulateChange => "simulate_change",
            Tool::Recall => "recall",
            Tool::ListPatterns => "list_patterns",
            Tool::GetAntiPatterns => "get_anti_patterns",
            Tool::SuggestPattern => "suggest_pattern",
            Tool::ListAll => "list_all",
            Tool::BeginProtocolSession => "begin_protocol_session",
            Tool::GetSessionHealth => "get_session_health",
            Tool::FlushKnowledgeMarkers => "flush_knowledge_markers",
            Tool::CloseoutSession => "closeout_session",
            Tool::ProposeSkill => "propose_skill",
        }
    }

    /// The tool of a name, where it is the name of one.
    pub fn from_name(name: &str) -> (r: Option<Tool>)
        ensures
            match r {
                Some(t) => t.name() == name@,
                None => forall|t: Tool| (#[trigger] t.name()) != name@,
            },
    {
        if same(name, "semantic_search") {
            Some(Tool::SemanticSearch)
        } else if same(name, "get_item") {
            Some(Tool::GetItem)
        } else if same(name, "get_syntax") {
            Some(Tool::GetSyntax)
        } else if same(name, "get_usage_examples") {
            Some(Tool::GetUsageExamples)
        } else if same(name, "get_helper") {
            Some(Tool::GetHelper)
        } else if same(name, "get_context") {
            Some(Tool::GetContext)
        } else if same(name, "get_delta") {
            Some(Tool::GetDelta)
        } else if same(name, "query_graph") {
            Some(Tool::QueryGraph)
        } else if same(name, "explain_dependency_path") {
            Some(Tool::ExplainDependencyPath)
        } else if same(name, "get_preferences") {
            Some(Tool::GetPreferences)
        } else if same(name, "recurrent_think") {
            Some(Tool::RecurrentThink)
        } else if same(name, "simulate_change") {
            Some(Tool::SimulateChange)
        } else if same(name, "recall") {
            Some(Tool::Recall)
        } else if same(name, "list_patterns") {
            Some(Tool::ListPatterns)
        } else if same(name, "get_anti_patterns") {
            Some(Tool::GetAntiPatterns)
        } else if same(name, "suggest_pattern") {
            Some(Tool::SuggestPattern)
        } else if same(name, "list_all") {
            Some(Tool::ListAll)
        } else if same(name, "begin_protocol_session") {
            Some(Tool::BeginProtocolSession)
        } else if same(name, "get_session_health") {
            Some(Tool::GetSessionHealth)
        } else if same(name, "flush_knowledge_markers") {
            Some(Tool::FlushKnowledgeMarkers)
        } else if same(name, "closeout_session") {
            Some(Tool::CloseoutSession)
        } else if same(name, "propose_skill") {
            Some(Tool::ProposeSkill)
        } else {
            None
        }
    }
}

/// The tool that is asked for, or the word that there is none of that name.
pub fn dispatch(tool: &str) -> (r: Result<Tool, String>)
    ensures
        match r {
            Ok(t) => t.name() == tool@,
            Err(e) => (forall|t: Tool| (#[trigger] t.name()) != tool@) && e@ == "unknown tool: "@
                + tool@,
        },
{
    match Tool::from_name(tool) {
        Some(t) => Ok(t),
        None => {
            let mut s = "unknown tool: ".to_owned();
            s.append(tool);
            Err(s)
        },
    }
}

/// No two tools have the same name.
pub proof fn law_tool_names_are_distinct(a: Tool, b: Tool)
    requires
        a.name() == b.name(),
    ensures
        a == b,
{
    reveal_strlit("semantic_search");
    reveal_strlit("get_item");
    reveal_strlit("get_syntax");
    reveal_strlit("get_usage_examples");
    reveal_strlit("get_helper");
    reveal_strlit("get_context");
    reveal_strlit("get_delta");
    reveal_strlit("query_graph");
    reveal_strlit("explain_dependency_path");
    reveal_strlit("get_preferences");
    reveal_strlit("recurrent_think");
    reveal_strlit("simulate_change");
    reveal_strlit("recall");
    reveal_strlit("list_patterns");
    reveal_strlit("get_anti_patterns");
    reveal_strlit("suggest_pattern");
    reveal_strlit("list_all");
    reveal_strlit("begin_protocol_session");
    reveal_strlit("get_session_health");
    reveal_strlit("flush_knowledge_markers");
    reveal_strlit("closeout_session");
    reveal_strlit("propose_skill");
    assert("semantic_search"@.len() == 15);
    assert("get_item"@.len() == 8);
    assert("get_syntax"@.len() == 10);
    assert("get_usage_examples"@.len() == 18);
    assert("get_helper"@.len() == 10);
    assert("get_context"@.len() == 11);
    assert("get_delta"@.len() == 9);
    assert("query_graph"@.len() == 11);
    assert("explain_dependency_path"@.len() == 23);
    assert("get_preferences"@.len() == 15);
    assert("recurrent_think"@.len() == 15);
    assert("simulate_change"@.len() == 15);
    assert("recall"@.len() == 6);
    assert("list_patterns"@.len() == 13);
    assert("get_anti_patterns"@.len() == 17);
    assert("suggest_pattern"@.len() == 15);
    assert("list_all"@.len() == 8);
    assert("begin_protocol_session"@.len() == 22);
    assert("get_session_health"@.len() == 18);
    assert("flush_knowledge_markers"@.len() == 23);
    assert("closeout_session"@.len() == 16);
    assert("propose_skill"@.len() == 13);
    assert("get_item"@[0] != "list_all"@[0]);
    assert("get_syntax"@[4] != "get_helper"@[4]);
    assert("get_context"@[0] != "query_graph"@[0]);
    assert("list_patterns"@[0] != "propose_skill"@[0]);
    assert("semantic_search"@[0] != "get_preferences"@[0]);
    assert("semantic_search"@[0] != "recurrent_think"@[0]);
    assert("semantic_search"@[1] != "simulate_change"@[1]);
    assert("semantic_search"@[1] != "suggest_pattern"@[1]);
    assert("get_preferences"@[0] != "recurrent_think"@[0]);
    assert("get_preferences"@[0] != "simulate_change"@[0]);
    assert("get_preferences"@[0] != "suggest_pattern"@[0]);
    assert("recurrent_think"@[0] != "simulate_change"@[0]);
    assert("recurrent_think"@[0] != "suggest_pattern"@[0]);
    assert("simulate_change"@[1] != "suggest_pattern"@[1]);
    assert("get_usage_examples"@[4] != "get_session_health"@[4]);
    assert("explain_dependency_path"@[0] != "flush_knowledge_markers"@[0]);
}

/// What a tool takes under a name.
pub enum ParamKind {
    Text,
    Number,
    TextList,
    Choice(Vec<String>),
}

/// The model of what a tool takes under a name.
pub enum ParamKindView {
    Text,
    Number,
    TextList,
    Choice(Seq<Text>),
}

/// A parameter of a tool.
pub struct Param {
    pub name: String,
    pub kind: ParamKind,
    pub description: Option<String>,
}

/// The model of a parameter.
pub struct ParamView {
    pub name: Text,
    pub kind: ParamKindView,
    pub description: Option<Text>,
}

impl View for ParamKind {
    type V = ParamKindView;

    open spec fn view(&self) -> ParamKindView {
        match self {
            ParamKind::Text => ParamKindView::Text,
            ParamKind::Number => ParamKindView::Number,
            ParamKind::TextList => ParamKindView::TextList,
            ParamKind::Choice(v) => ParamKindView::Choice(views(v@)),
        }
    }
}

impl View for Param {
    type V = ParamView;

    open spec fn view(&self) -> ParamView {
        ParamView {
            name: self.name@,
            kind: self.kind@,
            description: match self.description {
                Some(s) => Some(s@),
                None => None,
            },
        }
    }
}

/// The models of parameters.
pub open spec fn param_views(list: Seq<Param>) -> Seq<ParamView> {
    list.map_values(|p: Param| p@)
}

/// No parameters.
pub open spec fn no_params() -> Seq<ParamView> {
    Seq::empty()
}

/// No texts.
pub open spec fn no_texts() -> Seq<Text> {
    Seq::empty()
}

/// A parameter that is described.
pub open spec fn described(name: Text, kind: ParamKindView, description: Text) -> ParamView {
    ParamView { name, kind, description: Some(description) }
}

/// What a tool does, in the words of the list.
pub open spec fn description_of(t: Tool) -> Text {
    match t {
        Tool::SemanticSearch => "Search the codebase by intent or concept. Returns the most semantically relevant API items. Use this FIRST before writing any engine code."@,
        Tool::GetItem => "Get full compressed details on a named API item — signature, fields, variants, methods."@,
        Tool::GetContext => "Get a pre-compiled, token-efficient context packet for the current task. Pass open file paths or a task description. Returns relevant API, patterns, anti-patterns, and notes in minimal form."@,
        Tool::GetDelta => "Get compressed git delta entries for working tree or from a commit range."@,
        Tool::QueryGraph => "Query the knowledge graph around an indexed item by name."@,
        Tool::GetPreferences => "Return the active Copilot coding preferences summary loaded by cortex."@,
        Tool::RecurrentThink => "Iterative hypothesis refinement loop for complex tasks. Propose → Critique → Refine → Assess → Halt or Continue. Max 6 loops by default. Use for deep design decisions or multi-step problems."@,
        Tool::SimulateChange => "Dry-run impact predictor. Simulates what breaks if you change an item. Returns risk level (Low/Medium/High) and list of affected downstream items. Call before modifying widely-used types."@,
        Tool::Recall => "Retrieve everything cortex knows about a topic — matching patterns, anti-patterns, annotations, and API items. Use when you need to know if we've solved this before."@,
        Tool::ListPatterns => "List all approved code patterns with their intents. Includes use/revert/survival metrics and flags patterns below 40% survival. Check this before implementing any non-trivial logic."@,
        Tool::GetAntiPatterns => "Get all known anti-patterns — things Copilot must NOT do. Always check this before generating code."@,
        Tool::SuggestPattern => "Suggest a pattern for Syn's review. Does NOT save it — queues it as a pending observation for manual approval only."@,
        Tool::ListAll => "List all indexed API items, optionally filtered by kind."@,
        _ => Seq::empty(),
    }
}

/// The parameters of a tool, in the words of the list.
pub open spec fn params_of(t: Tool) -> Seq<ParamView> {
    match t {
        Tool::SemanticSearch => no_params()
            .push(described("query"@, ParamKindView::Text, "Intent or concept to search for."@))
            .push(described("limit"@, ParamKindView::Number, "Max results (default: 5)."@)),
        Tool::GetItem => no_params()
            .push(described("name"@, ParamKindView::Text, "Exact item name."@)),
        Tool::GetContext => no_params()
            .push(described("hint"@, ParamKindView::Text, "Task description or open file paths."@))
            .push(described("token_budget"@, ParamKindView::Number, "Max tokens to use (default: 2000)."@))
            .push(described("delta_include"@, ParamKindView::Text, "Optional substring include filter for changed paths."@))
            .push(described("delta_exclude"@, ParamKindView::Text, "Optional substring exclude filter for changed paths."@))
            .push(described("delta_max_files"@, ParamKindView::Number, "Max changed files in context delta section (default: 8)."@))
            .push(described("delta_max_patch_lines"@, ParamKindView::Number, "Max patch lines captured per changed file (default: 40)."@)),
        Tool::GetDelta => no_params()
            .push(described("since"@, ParamKindView::Text, "Optional start ref. Uses HEAD working tree diff when omitted."@))
            .push(described("include"@, ParamKindView::Text, "Optional substring include filter for changed paths."@))
            .push(described("exclude"@, ParamKindView::Text, "Optional substring exclude filter for changed paths."@))
            .push(described("max_files"@, ParamKindView::Number, "Max changed files to return (default: 128)."@))
            .push(described("max_patch_lines"@, ParamKindView::Number, "Max patch lines inspected per changed file (default: 40)."@)),
        Tool::QueryGraph => no_params()
            .push(described("name"@, ParamKindView::Text, "Indexed item name."@))
            .push(described("depth"@, ParamKindView::Number, "Neighbor depth (default: 1)."@)),
        Tool::RecurrentThink => no_params()
            .push(described("task"@, ParamKindView::Text, "Problem or feature description."@))
            .push(described("hypothesis"@, ParamKindView::Text, "Optional: current hypothesis to critique."@))
            .push(described("loop"@, ParamKindView::Number, "Current loop index (default: 0)."@))
            .push(described("max_loops"@, ParamKindView::Number, "Max iterations (default: 6, capped at 16)."@))
            .push(described("depth_mode"@, ParamKindView::Choice(no_texts().push("auto"@).push("shallow"@).push("deep"@)), "Iteration preset: auto (default), shallow (2), deep (up to 16)."@)),
        Tool::SimulateChange => no_params()
            .push(described("item"@, ParamKindView::Text, "Name of the item to change."@))
            .push(described("change"@, ParamKindView::Text, "Description of the change (e.g., 'add new variant')."@))
            .push(described("depth"@, ParamKindView::Number, "Transitive depth (default: 1)."@)),
        Tool::Recall => no_params()
            .push(described("topic"@, ParamKindView::Text, "Topic, name, or concept to recall."@)),
        Tool::SuggestPattern => no_params()
            .push(ParamView { name: "name"@, kind: ParamKindView::Text, description: None })
            .push(ParamView { name: "intent"@, kind: ParamKindView::Text, description: None })
            .push(described("body"@, ParamKindView::Text, "The code pattern."@))
            .push(described("uses"@, ParamKindView::TextList, "API item names used."@)),
        Tool::ListAll => no_params()
            .push(described("kind"@, ParamKindView::Choice(no_texts().push("struct"@).push("enum"@).push("trait"@).push("fn"@)), "Filter: struct, enum, trait, fn. Omit for all."@)),
        _ => no_params(),
    }
}

/// The parameters that a tool cannot do without, in the words of the list.
pub open spec fn required_of(t: Tool) -> Seq<Text> {
    match t {
        Tool::SemanticSearch => no_texts().push("query"@),
        Tool::GetItem => no_texts().push("name"@),
        Tool::GetContext => no_texts().push("hint"@),
        Tool::QueryGraph => no_texts().push("name"@),
        Tool::RecurrentThink => no_texts().push("task"@),
        Tool::SimulateChange => no_texts().push("item"@),
        Tool::Recall => no_texts().push("topic"@),
        Tool::SuggestPattern => no_texts().push("name"@).push("intent"@).push("body"@),
        _ => no_texts(),
    }
}

/// The tools that are listed, in order.
pub open spec fn listed_tools() -> Seq<Tool> {
    Seq::<Tool>::empty()
        .push(Tool::SemanticSearch)
        .push(Tool::GetItem)
        .push(Tool::GetContext)
        .push(Tool::GetDelta)
        .push(Tool::QueryGraph)
        .push(Tool::GetPreferences)
        .push(Tool::RecurrentThink)
        .push(Tool::SimulateChange)
        .push(Tool::Recall)
        .push(Tool::ListPatterns)
        .push(Tool::GetAntiPatterns)
        .push(Tool::SuggestPattern)
        .push(Tool::ListAll)
}

/// The schema of a parameter.
pub open spec fn param_schema(p: ParamView) -> JsonView {
    let kind = match p.kind {
        ParamKindView::Text => no_fields().push(("type"@, JsonView::Text("string"@))),
        ParamKindView::Number => no_fields().push(("type"@, JsonView::Text("integer"@))),
        ParamKindView::TextList => no_fields().push(("type"@, JsonView::Text("array"@))).push(
            (
                "items"@,
                JsonView::Object(no_fields().push(("type"@, JsonView::Text("string"@)))),
            ),
        ),
        ParamKindView::Choice(c) => no_fields().push(("type"@, JsonView::Text("string"@))).push(
            ("enum"@, JsonView::List(text_views(c))),
        ),
    };
    JsonView::Object(
        match p.description {
            Some(d) => kind.push(("description"@, JsonView::Text(d))),
            None => kind,
        },
    )
}

/// The entries of the schemas of parameters.
pub open spec fn param_fields(list: Seq<ParamView>) -> Seq<(Text, JsonView)> {
    list.map_values(|p: ParamView| (p.name, param_schema(p)))
}

/// The schema of what a tool takes.
pub open spec fn input_schema(t: Tool) -> JsonView {
    let shape = no_fields().push(("type"@, JsonView::Text("object"@))).push(
        ("properties"@, JsonView::Object(param_fields(params_of(t)))),
    );
    JsonView::Object(
        if required_of(t).len() == 0 {
            shape
        } else {
            shape.push(("required"@, JsonView::List(text_views(required_of(t)))))
        },
    )
}

/// A tool in the list.
pub open spec fn tool_entry(t: Tool) -> JsonView {
    JsonView::Object(
        no_fields().push(("name"@, JsonView::Text(t.name()))).push(
            ("description"@, JsonView::Text(description_of(t))),
        ).push(("inputSchema"@, input_schema(t))),
    )
}

/// The list of the tools.
pub open spec fn tools_list_view() -> JsonView {
    JsonView::Object(
        no_fields().push(
            ("tools"@, JsonView::List(listed_tools().map_values(|t: Tool| tool_entry(t)))),
        ),
    )
}

/// What a tool does, in the words of the list.
fn description(t: Tool) -> (r: &'static str)
    ensures
        r@ == description_of(t),
{
    proof {
        reveal_strlit("");
    }
    match t {
        Tool::SemanticSearch => "Search the codebase by intent or concept. Returns the most semantically relevant API items. Use this FIRST before writing any engine code.",
        Tool::GetItem => "Get full compressed details on a named API item — signature, fields, variants, methods.",
        Tool::GetContext => "Get a pre-compiled, token-efficient context packet for the current task. Pass open file paths or a task description. Returns relevant API, patterns, anti-patterns, and notes in minimal form.",
        Tool::GetDelta => "Get compressed git delta entries for working tree or from a commit range.",
        Tool::QueryGraph => "Query the knowledge graph around an indexed item by name.",
        Tool::GetPreferences => "Return the active Copilot coding preferences summary loaded by cortex.",
        Tool::RecurrentThink => "Iterative hypothesis refinement loop for complex tasks. Propose → Critique → Refine → Assess → Halt or Continue. Max 6 loops by default. Use for deep design decisions or multi-step problems.",
        Tool::SimulateChange => "Dry-run impact predictor. Simulates what breaks if you change an item. Returns risk level (Low/Medium/High) and list of affected downstream items. Call before modifying widely-used types.",
        Tool::Recall => "Retrieve everything cortex knows about a topic — matching patterns, anti-patterns, annotations, and API items. Use when you need to know if we've solved this before.",
        Tool::ListPatterns => "List all approved code patterns with their intents. Includes use/revert/survival metrics and flags patterns below 40% survival. Check this before implementing any non-trivial logic.",
        Tool::GetAntiPatterns => "Get all known anti-patterns — things Copilot must NOT do. Always check this before generating code.",
        Tool::SuggestPattern => "Suggest a pattern for Syn's review. Does NOT save it — queues it as a pending observation for manual approval only.",
        Tool::ListAll => "List all indexed API items, optionally filtered by kind.",
        _ => "",
    }
}

/// Adds a parameter.
fn add_param(list_of: &mut Vec<Param>, name: &str, kind: ParamKind, description: Option<&str>)
    ensures
        param_views(final(list_of)@) == param_views(old(list_of)@).push(
            ParamView {
                name: name@,
                kind: kind@,
                description: crate::json::opt_view(description),
            },
        ),
{
    let p = Param {
        name: name.to_owned(),
        kind,
        description: match description {
            Some(s) => Some(s.to_owned()),
            None => None,
        },
    };
    list_of.push(p);
    assert(param_views(list_of@) == param_views(old(list_of)@).push(p@));
}

/// Adds a text.
fn add_text(list_of: &mut Vec<String>, s: &str)
    ensures
        views(final(list_of)@) == views(old(list_of)@).push(s@),
{
    list_of.push(s.to_owned());
    assert(views(list_of@) == views(old(list_of)@).push(s@));
}

/// The parameters of a tool, in the words of the list.
fn params(t: Tool) -> (r: Vec<Param>)
    ensures
        param_views(r@) == params_of(t),
{
    let mut v: Vec<Param> = Vec::new();
    assert(param_views(v@) == no_params());
    match t {
        Tool::SemanticSearch => {
            add_param(&mut v, "query", ParamKind::Text, Some("Intent or concept to search for."));
            add_param(&mut v, "limit", ParamKind::Number, Some("Max results (default: 5)."));
        },
        Tool::GetItem => {
            add_param(&mut v, "name", ParamKind::Text, Some("Exact item name."));
        },
        Tool::GetContext => {
            add_param(&mut v, "hint", ParamKind::Text, Some("Task description or open file paths."));
            add_param(&mut v, "token_budget", ParamKind::Number, Some("Max tokens to use (default: 2000)."));
            add_param(&mut v, "delta_include", ParamKind::Text, Some("Optional substring include filter for changed paths."));
            add_param(&mut v, "delta_exclude", ParamKind::Text, Some("Optional substring exclude filter for changed paths."));
            add_param(&mut v, "delta_max_files", ParamKind::Number, Some("Max changed files in context delta section (default: 8)."));
            add_param(&mut v, "delta_max_patch_lines", ParamKind::Number, Some("Max patch lines captured per changed file (default: 40)."));
        },
        Tool::GetDelta => {
            add_param(&mut v, "since", ParamKind::Text, Some("Optional start ref. Uses HEAD working tree diff when omitted."));
            add_param(&mut v, "include", ParamKind::Text, Some("Optional substring include filter for changed paths."));
            add_param(&mut v, "exclude", ParamKind::Text, Some("Optional substring exclude filter for changed paths."));
            add_param(&mut v, "max_files", ParamKind::Number, Some("Max changed files to return (default: 128)."));
            add_param(&mut v, "max_patch_lines", ParamKind::Number, Some("Max patch lines inspected per changed file (default: 40)."));
        },
        Tool::QueryGraph => {
            add_param(&mut v, "name", ParamKind::Text, Some("Indexed item name."));
            add_param(&mut v, "depth", ParamKind::Number, Some("Neighbor depth (default: 1)."));
        },
        Tool::RecurrentThink => {
            add_param(&mut v, "task", ParamKind::Text, Some("Problem or feature description."));
            add_param(&mut v, "hypothesis", ParamKind::Text, Some("Optional: current hypothesis to critique."));
            add_param(&mut v, "loop", ParamKind::Number, Some("Current loop index (default: 0)."));
            add_param(&mut v, "max_loops", ParamKind::Number, Some("Max iterations (default: 6, capped at 16)."));
            let mut c: Vec<String> = Vec::new();
            assert(views(c@) == no_texts());
            add_text(&mut c, "auto");
            add_text(&mut c, "shallow");
            add_text(&mut c, "deep");
            add_param(&mut v, "depth_mode", ParamKind::Choice(c), Some("Iteration preset: auto (default), shallow (2), deep (up to 16)."));
        },
        Tool::SimulateChange => {
            add_param(&mut v, "item", ParamKind::Text, Some("Name of the item to change."));
            add_param(&mut v, "change", ParamKind::Text, Some("Description of the change (e.g., 'add new variant')."));
            add_param(&mut v, "depth", ParamKind::Number, Some("Transitive depth (default: 1)."));
        },
        Tool::Recall => {
            add_param(&mut v, "topic", ParamKind::Text, Some("Topic, name, or concept to recall."));
        },
        Tool::SuggestPattern => {
            add_param(&mut v, "name", ParamKind::Text, None);
            add_param(&mut v, "intent", ParamKind::Text, None);
            add_param(&mut v, "body", ParamKind::Text, Some("The code pattern."));
            add_param(&mut v, "uses", ParamKind::TextList, Some("API item names used."));
        },
        Tool::ListAll => {
            let mut c: Vec<String> = Vec::new();
            assert(views(c@) == no_texts());
            add_text(&mut c, "struct");
            add_text(&mut c, "enum");
            add_text(&mut c, "trait");
            add_text(&mut c, "fn");
            add_param(&mut v, "kind", ParamKind::Choice(c), Some("Filter: struct, enum, trait, fn. Omit for all."));
        },
        _ => {},
    }
    v
}

/// The parameters that a tool cannot do without.
fn required(t: Tool) -> (r: Vec<String>)
    ensures
        views(r@) == required_of(t),
{
    let mut v: Vec<String> = Vec::new();
    assert(views(v@) == no_texts());
    match t {
        Tool::SemanticSearch => {
            add_text(&mut v, "query");
        },
        Tool::GetItem => {
            add_text(&mut v, "name");
        },
        Tool::GetContext => {
            add_text(&mut v, "hint");
        },
        Tool::QueryGraph => {
            add_text(&mut v, "name");
        },
        Tool::RecurrentThink => {
            add_text(&mut v, "task");
        },
        Tool::SimulateChange => {
            add_text(&mut v, "item");
        },
        Tool::Recall => {
            add_text(&mut v, "topic");
        },
        Tool::SuggestPattern => {
            add_text(&mut v, "name");
            add_text(&mut v, "intent");
            add_text(&mut v, "body");
        },
        _ => {},
    }
    v
}

/// The tools that are listed, in order.
fn listed() -> (r: Vec<Tool>)
    ensures
        r@ == listed_tools(),
{
    let mut v: Vec<Tool> = Vec::new();
    v.push(Tool::SemanticSearch);
    v.push(Tool::GetItem);
    v.push(Tool::GetContext);
    v.push(Tool::GetDelta);
    v.push(Tool::QueryGraph);
    v.push(Tool::GetPreferences);
    v.push(Tool::RecurrentThink);
    v.push(Tool::SimulateChange);
    v.push(Tool::Recall);
    v.push(Tool::ListPatterns);
    v.push(Tool::GetAntiPatterns);
    v.push(Tool::SuggestPattern);
    v.push(Tool::ListAll);
    v
}

/// The schema of a parameter.
fn schema_of_param(p: &Param) -> (r: Json)
    ensures
        r@ == param_schema(p@),
{
    let mut e = no_entries();
    match &p.kind {
        ParamKind::Text => {
            add_field(&mut e, "type", text("string"));
        },
        ParamKind::Number => {
            add_field(&mut e, "type", text("integer"));
        },
        ParamKind::TextList => {
            let mut inner = no_entries();
            add_field(&mut inner, "type", text("string"));
            add_field(&mut e, "type", text("array"));
            add_field(&mut e, "items", object(inner));
        },
        ParamKind::Choice(c) => {
            add_field(&mut e, "type", text("string"));
            add_field(&mut e, "enum", text_list(c));
        },
    }
    if let Some(d) = &p.description {
        add_field(&mut e, "description", text(d.as_str()));
    }
    object(e)
}

/// The schema of what a tool takes.
fn schema_of_input(t: Tool) -> (r: Json)
    ensures
        r@ == input_schema(t),
{
    let ps = params(t);
    let ghost all = param_fields(param_views(ps@));
    let mut props = no_entries();
    let mut i: usize = 0;
    assert(all.take(0) == no_fields());
    while i < ps.len()
        invariant
            i <= ps@.len() == all.len(),
            all == param_fields(param_views(ps@)),
            fields_of(props@) == all.take(i as int),
        decreases ps@.len() - i,
    {
        assert(all[i as int] == (ps@[i as int].name@, param_schema(ps@[i as int]@)));
        assert(all.take(i + 1) == all.take(i as int).push(all[i as int]));
        add_field(&mut props, ps[i].name.as_str(), schema_of_param(&ps[i]));
        i = i + 1;
    }
    assert(all.take(i as int) == all);
    let mut e = no_entries();
    add_field(&mut e, "type", text("object"));
    add_field(&mut e, "properties", object(props));
    let needed = required(t);
    assert(views(needed@).len() == needed@.len());
    if needed.len() > 0 {
        add_field(&mut e, "required", text_list(&needed));
    }
    object(e)
}

/// The list of the tools.
pub fn tools_list() -> (r: Json)
    ensures
        r@ == tools_list_view(),
{
    let tools = listed();
    let ghost all = listed_tools().map_values(|t: Tool| tool_entry(t));
    let mut out: Vec<Json> = Vec::new();
    let mut i: usize = 0;
    while i < tools.len()
        invariant
            i <= tools@.len() == all.len(),
            tools@ == listed_tools(),
            all == listed_tools().map_values(|t: Tool| tool_entry(t)),
            views_of(out@) == all.take(i as int),
        decreases tools@.len() - i,
    {
        let ghost before = out@;
        let t = tools[i];
        let mut e = no_entries();
        add_field(&mut e, "name", text(t.as_str()));
        add_field(&mut e, "description", text(description(t)));
        add_field(&mut e, "inputSchema", schema_of_input(t));
        let item = object(e);
        out.push(item);
        assert(views_of(out@) == views_of(before).push(item@));
        assert(all.take(i + 1) == all.take(i as int).push(all[i as int]));
        i = i + 1;
    }
    assert(all.take(i as int) == all);
    let mut root = no_entries();
    add_field(&mut root, "tools", list(out));
    object(root)
}

/// The tools that must be there before any work are listed.
pub proof fn law_baseline_is_listed()
    ensures
        listed_tools().contains(Tool::GetDelta),
        listed_tools().contains(Tool::GetPreferences),
        listed_tools().contains(Tool::GetAntiPatterns),
        listed_tools().contains(Tool::ListPatterns),
        listed_tools().contains(Tool::GetContext),
{
    assert(listed_tools()[3] == Tool::GetDelta);
    assert(listed_tools()[5] == Tool::GetPreferences);
    assert(listed_tools()[10] == Tool::GetAntiPatterns);
    assert(listed_tools()[9] == Tool::ListPatterns);
    assert(listed_tools()[2] == Tool::GetContext);
}

/// No tool is listed twice.
pub proof fn law_tools_are_listed_once()
    ensures
        listed_tools().no_duplicates(),
{
}

/// What a tool cannot do without is among what it takes.
pub proof fn law_required_is_taken(t: Tool, i: int)
    requires
        0 <= i < required_of(t).len(),
    ensures
        exists|k: int|
            0 <= k < params_of(t).len() && (#[trigger] params_of(t)[k]).name == required_of(t)[i],
{
    assert(params_of(t)[i].name == required_of(t)[i]);
}

impl Tool {
    /// The tool is handed the path of the repository, and answers for what lies there.
    pub open spec fn reads_repo(self) -> bool {
        match self {
            Tool::GetContext
            | Tool::GetDelta
            | Tool::FlushKnowledgeMarkers
            | Tool::CloseoutSession
            | Tool::ProposeSkill => true,
            _ => false,
        }
    }

    /// The tool answers from what changes while the index stays as it is: patterns, anti-patterns,
    /// notes, the graph, or the state of a session.
    pub open spec fn reads_live_data(self) -> bool {
        match self {
            Tool::GetContext
            | Tool::QueryGraph
            | Tool::ExplainDependencyPath
            | Tool::RecurrentThink
            | Tool::SimulateChange
            | Tool::Recall
            | Tool::ListPatterns
            | Tool::GetAntiPatterns
            | Tool::BeginProtocolSession
            | Tool::GetSessionHealth
            | Tool::FlushKnowledgeMarkers
            | Tool::CloseoutSession => true,
            _ => false,
        }
    }

    /// The tool changes what later answers are made of: it counts uses, keeps a pad or a session,
    /// or leaves something to be reviewed.
    pub open spec fn changes_memory(self) -> bool {
        match self {
            Tool::RecurrentThink
            | Tool::Recall
            | Tool::SuggestPattern
            | Tool::BeginProtocolSession
            | Tool::FlushKnowledgeMarkers
            | Tool::CloseoutSession
            | Tool::ProposeSkill => true,
            _ => false,
        }
    }
}

/// The tools whose answers are never kept: they read live data or the repository, or change
/// something.
pub open spec fn is_uncacheable(tool: Text) -> bool {
    ||| tool == "get_context"@
    ||| tool == "get_delta"@
    ||| tool == "query_graph"@
    ||| tool == "explain_dependency_path"@
    ||| tool == "recurrent_think"@
    ||| tool == "simulate_change"@
    ||| tool == "recall"@
    ||| tool == "list_patterns"@
    ||| tool == "get_anti_patterns"@
    ||| tool == "suggest_pattern"@
    ||| tool == "begin_protocol_session"@
    ||| tool == "get_session_health"@
    ||| tool == "flush_knowledge_markers"@
    ||| tool == "closeout_session"@
    ||| tool == "propose_skill"@
}

/// Whether the answers of a tool may be kept and handed out again.
pub fn may_cache(tool: &str) -> (r: bool)
    ensures
        r == !is_uncacheable(tool@),
{
    !(same(tool, "get_context")
        || same(tool, "get_delta")
        || same(tool, "query_graph")
        || same(tool, "explain_dependency_path")
        || same(tool, "recurrent_think")
        || same(tool, "simulate_change")
        || same(tool, "recall")
        || same(tool, "list_patterns")
        || same(tool, "get_anti_patterns")
        || same(tool, "suggest_pattern")
        || same(tool, "begin_protocol_session")
        || same(tool, "get_session_health")
        || same(tool, "flush_knowledge_markers")
        || same(tool, "closeout_session")
        || same(tool, "propose_skill"))
}

/// No tool that reads live data or the repository, or that changes something, may have its answers
/// kept; all the others may.
pub proof fn law_live_answers_are_not_kept(t: Tool)
    ensures
        is_uncacheable(t.name()) <==> t.reads_repo() || t.reads_live_data() || t.changes_memory(),
{
    if t.name() == Tool::GetContext.name() {
        law_tool_names_are_distinct(t, Tool::GetContext);
    }
    if t.name() == Tool::GetDelta.name() {
        law_tool_names_are_distinct(t, Tool::GetDelta);
    }
    if t.name() == Tool::QueryGraph.name() {
        law_tool_names_are_distinct(t, Tool::QueryGraph);
    }
    if t.name() == Tool::ExplainDependencyPath.name() {
        law_tool_names_are_distinct(t, Tool::ExplainDependencyPath);
    }
    if t.name() == Tool::RecurrentThink.name() {
        law_tool_names_are_distinct(t, Tool::RecurrentThink);
    }
    if t.name() == Tool::SimulateChange.name() {
        law_tool_names_are_distinct(t, Tool::SimulateChange);
    }
    if t.name() == Tool::Recall.name() {
        law_tool_names_are_distinct(t, Tool::Recall);
    }
    if t.name() == Tool::ListPatterns.name() {
        law_tool_names_are_distinct(t, Tool::ListPatterns);
    }
    if t.name() == Tool::GetAntiPatterns.name() {
        law_tool_names_are_distinct(t, Tool::GetAntiPatterns);
    }
    if t.name() == Tool::SuggestPattern.name() {
        law_tool_names_are_distinct(t, Tool::SuggestPattern);
    }
    if t.name() == Tool::BeginProtocolSession.name() {
        law_tool_names_are_distinct(t, Tool::BeginProtocolSession);
    }
    if t.name() == Tool::GetSessionHealth.name() {
        law_tool_names_are_distinct(t, Tool::GetSessionHealth);
    }
    if t.name() == Tool::FlushKnowledgeMarkers.name() {
        law_tool_names_are_distinct(t, Tool::FlushKnowledgeMarkers);
    }
    if t.name() == Tool::CloseoutSession.name() {
        law_tool_names_are_distinct(t, Tool::CloseoutSession);
    }
    if t.name() == Tool::ProposeSkill.name() {
        law_tool_names_are_distinct(t, Tool::ProposeSkill);
    }
}

/// How many answers are kept.
pub const CACHE_MAX_ENTRIES: usize = 256;

/// What a request asks for.
pub enum Method {
    Initialize,
    ListTools,
    CallTool { tool: String, args: Json },
    Unknown(String),
}

/// The model of what a request asks for.
pub enum MethodView {
    Initialize,
    ListTools,
    CallTool { tool: Text, args: JsonView },
    Unknown(Text),
}

/// A line that came in.
pub enum Incoming {
    /// Nothing but white space.
    Blank,
    /// No JSON.
    Malformed,
    /// A request that wants no answer.
    Notification,
    Request { id: Json, method: Method },
}

/// The model of a line that came in.
pub enum IncomingView {
    Blank,
    Malformed,
    Notification,
    Request { id: JsonView, method: MethodView },
}

impl View for Method {
    type V = MethodView;

    open spec fn view(&self) -> MethodView {
        match self {
            Method::Initialize => MethodView::Initialize,
            Method::ListTools => MethodView::ListTools,
            Method::CallTool { tool, args } => MethodView::CallTool { tool: tool@, args: args@ },
            Method::Unknown(s) => MethodView::Unknown(s@),
        }
    }
}

impl View for Incoming {
    type V = IncomingView;

    open spec fn view(&self) -> IncomingView {
        match self {
            Incoming::Blank => IncomingView::Blank,
            Incoming::Malformed => IncomingView::Malformed,
            Incoming::Notification => IncomingView::Notification,
            Incoming::Request { id, method } => IncomingView::Request { id: id@, method: method@ },
        }
    }
}

/// The text, or nothing where there is none.
pub open spec fn text_or_empty(s: Option<Text>) -> Text {
    match s {
        Some(s) => s,
        None => ""@,
    }
}

/// What a request asks for, by its method and its parameters.
pub open spec fn method_of(req: JsonView) -> MethodView {
    let method = text_or_empty(req.text_field("method"@));
    let params = match req.field("params"@) {
        Some(p) => p,
        None => JsonView::Null,
    };
    if method == "initialize"@ {
        MethodView::Initialize
    } else if method == "tools/list"@ {
        MethodView::ListTools
    } else if method == "tools/call"@ {
        MethodView::CallTool {
            tool: text_or_empty(params.text_field("name"@)),
            args: match params.field("arguments"@) {
                Some(a) => a,
                None => JsonView::Object(no_fields()),
            },
        }
    } else {
        MethodView::Unknown(method)
    }
}

/// What a document that came in is: a request where it has an id.
pub open spec fn request_of(req: JsonView) -> IncomingView {
    match req.field("id"@) {
        None => IncomingView::Notification,
        Some(id) => IncomingView::Request { id, method: method_of(req) },
    }
}

/// What a line that came in is.
pub open spec fn incoming_of(line: Text) -> IncomingView {
    if is_blank(line) {
        IncomingView::Blank
    } else {
        match json_of_text(line) {
            None => IncomingView::Malformed,
            Some(req) => request_of(req),
        }
    }
}

/// What a document that came in is.
pub fn read_request(req: &Json) -> (r: Incoming)
    ensures
        r@ == request_of(req@),
{
    let id = match req.get("id") {
        Some(j) => j.copy(),
        None => {
            return Incoming::Notification;
        },
    };
    let method = match req.str_at("method") {
        Some(s) => s,
        None => "",
    };
    let method = if same(method, "initialize") {
        Method::Initialize
    } else if same(method, "tools/list") {
        Method::ListTools
    } else if same(method, "tools/call") {
        let none = Json::Null;
        let params = match req.get("params") {
            Some(p) => p,
            None => &none,
        };
        let tool = match params.str_at("name") {
            Some(s) => s,
            None => "",
        };
        let args = match params.get("arguments") {
            Some(a) => a.copy(),
            None => object(no_entries()),
        };
        Method::CallTool { tool: tool.to_owned(), args }
    } else {
        Method::Unknown(method.to_owned())
    };
    Incoming::Request { id, method }
}

/// What a line that came in is.
pub fn read_line(line: &str) -> (r: Incoming)
    ensures
        r@ == incoming_of(line@),
{
    if blank(line) {
        return Incoming::Blank;
    }
    match parse_json(line) {
        None => Incoming::Malformed,
        Some(req) => read_request(&req),
    }
}

/// The answer to a request: its result, or the error.
pub open spec fn response_view(id: JsonView, result: Result<JsonView, Text>) -> JsonView {
    let head = no_fields().push(("jsonrpc"@, JsonView::Text("2.0"@))).push(("id"@, id));
    JsonView::Object(
        match result {
            Ok(v) => head.push(("result"@, v)),
            Err(why) => head.push(
                (
                    "error"@,
                    JsonView::Object(
                        no_fields().push(("code"@, JsonView::Negative(-32601))).push(
                            ("message"@, JsonView::Text(why)),
                        ),
                    ),
                ),
            ),
        },
    )
}

/// The answer to a request.
pub fn respond(id: Json, result: Result<Json, String>) -> (r: Json)
    ensures
        r@ == response_view(
            id@,
            match result {
                Ok(v) => Ok(v@),
                Err(e) => Err(e@),
            },
        ),
{
    let mut e = no_entries();
    add_field(&mut e, "jsonrpc", text("2.0"));
    add_field(&mut e, "id", id);
    match result {
        Ok(v) => {
            add_field(&mut e, "result", v);
        },
        Err(why) => {
            let mut inner = no_entries();
            add_field(&mut inner, "code", Json::Negative(-32601));
            add_field(&mut inner, "message", Json::Text(why));
            add_field(&mut e, "error", object(inner));
        },
    }
    object(e)
}

/// Every answer carries the id of its request, and either a result or an error, never both.
pub proof fn law_answer_carries_the_id(id: JsonView, result: Result<JsonView, Text>)
    ensures
        response_view(id, result).field("id"@) == Some(id),
        response_view(id, result).field("result"@) == match result {
            Ok(v) => Some(v),
            Err(_) => None::<JsonView>,
        },
        (response_view(id, result).field("error"@) is Some) == (result is Err),
{
    reveal_strlit("jsonrpc");
    reveal_strlit("id");
    reveal_strlit("result");
    reveal_strlit("error");
    assert("jsonrpc"@.len() == 7 && "id"@.len() == 2 && "result"@.len() == 6 && "error"@.len() == 5);
    reveal_with_fuel(crate::json::lookup, 4);
    let entries = response_view(id, result)->Object_0;
    assert(entries.len() == 3);
    let one = entries.drop_first();
    let two = one.drop_first();
    assert(entries.first() == entries[0]);
    assert(one.first() == entries[1]);
    assert(two.first() == entries[2]);
    assert(two.drop_first().len() == 0);
}

/// A text as the content of a tool's answer.
pub open spec fn content_view(s: Text) -> JsonView {
    JsonView::Object(
        no_fields().push(
            (
                "content"@,
                JsonView::List(
                    seq![
                        JsonView::Object(
                            no_fields().push(("type"@, JsonView::Text("text"@))).push(
                                ("text"@, JsonView::Text(s)),
                            ),
                        ),
                    ],
                ),
            ),
        ),
    )
}

/// A text as the content of a tool's answer.
pub fn content(s: &str) -> (r: Json)
    ensures
        r@ == content_view(s@),
{
    let mut inner = no_entries();
    add_field(&mut inner, "type", text("text"));
    add_field(&mut inner, "text", text(s));
    let item = object(inner);
    let mut items: Vec<Json> = Vec::new();
    items.push(item);
    assert(views_of(items@) == seq![item@]);
    let mut e = no_entries();
    add_field(&mut e, "content", list(items));
    object(e)
}

/// What becomes of a call of a tool: the result, and whether its text is to be kept.
pub struct CallOutcome {
    pub result: Result<Json, String>,
    pub keep: bool,
}

/// The kept answer that a call of a tool may be given: none where answers of the tool are not kept.
pub open spec fn usable(tool: Text, cached: Option<Text>) -> Option<Text> {
    if is_uncacheable(tool) {
        None
    } else {
        cached
    }
}

/// What becomes of a call of a tool: `cached` is the answer that was kept, if one was looked for
/// and found, and `fresh` what the tool answered otherwise. A tool whose answers are not kept is
/// always answered afresh. A fresh text is kept where the tool allows it; an error never is.
pub fn finish_call(tool: &str, cached: Option<&str>, fresh: Result<&str, &str>) -> (r: CallOutcome)
    ensures
        match usable(tool@, opt_view(cached)) {
            Some(s) => r.result matches Ok(v) && v@ == content_view(s) && !r.keep,
            None => match fresh {
                Ok(s) => r.result matches Ok(v) && v@ == content_view(s@) && r.keep
                    == !is_uncacheable(tool@),
                Err(e) => r.result matches Err(why) && why@ == e@ && !r.keep,
            },
        },
{
    let keeps = may_cache(tool);
    let found = if keeps {
        cached
    } else {
        None
    };
    match found {
        Some(s) => CallOutcome { result: Ok(content(s)), keep: false },
        None => match fresh {
            Ok(s) => CallOutcome { result: Ok(content(s)), keep: keeps },
            Err(e) => CallOutcome { result: Err(e.to_owned()), keep: false },
        },
    }
}

/// A tool that reads live data or the repository, or that changes something, is answered afresh
/// each time, whatever was kept.
pub proof fn law_live_tools_are_answered_afresh(t: Tool, cached: Option<Text>)
    requires
        t.reads_repo() || t.reads_live_data() || t.changes_memory(),
    ensures
        usable(t.name(), cached) is None,
{
    law_live_answers_are_not_kept(t);
}

/// The error for a method that the server does not know.
pub fn unknown_method(method: &str) -> (r: String)
    ensures
        r@ == "unknown method: "@ + method@,
{
    let mut s = "unknown method: ".to_owned();
    s.append(method);
    s
}

/// What the server says of itself.
pub open spec fn initialize_view(engine: Text, version: Text) -> JsonView {
    JsonView::Object(
        no_fields().push(("protocolVersion"@, JsonView::Text("2024-11-05"@))).push(
            (
                "capabilities"@,
                JsonView::Object(no_fields().push(("tools"@, JsonView::Object(no_fields())))),
            ),
        ).push(
            (
                "serverInfo"@,
                JsonView::Object(
                    no_fields().push(("name"@, JsonView::Text("cortex"@))).push(
                        ("version"@, JsonView::Text(version)),
                    ).push(
                        (
                            "description"@,
                            JsonView::Text(engine + " semantic memory layer"@),
                        ),
                    ),
                ),
            ),
        ),
    )
}

/// What the server says of itself.
pub fn initialize_result(engine_name: &str, version: &str) -> (r: Json)
    ensures
        r@ == initialize_view(engine_name@, version@),
{
    let mut tools = no_entries();
    add_field(&mut tools, "tools", object(no_entries()));
    let mut description = engine_name.to_owned();
    description.append(" semantic memory layer");
    let mut info = no_entries();
    add_field(&mut info, "name", text("cortex"));
    add_field(&mut info, "version", text(version));
    add_field(&mut info, "description", text(description.as_str()));
    let mut e = no_entries();
    add_field(&mut e, "protocolVersion", text("2024-11-05"));
    add_field(&mut e, "capabilities", object(tools));
    add_field(&mut e, "serverInfo", object(info));
    object(e)
}

/// A line of white space is passed over, a line that is no JSON is malformed, and a document without
/// an id wants no answer. Any other is a request with that id: its method tells what it asks for.
pub proof fn law_requests_are_told_by_their_method(line: Text, req: JsonView, id: JsonView)
    ensures
        is_blank(line) ==> incoming_of(line) is Blank,
        !is_blank(line) && json_of_text(line) is None ==> incoming_of(line) is Malformed,
        !is_blank(line) && json_of_text(line) == Some(req) && req.field("id"@) is None
            ==> incoming_of(line) is Notification,
        !is_blank(line) && json_of_text(line) == Some(req) && req.field("id"@) == Some(id) ==> {
            let method = req.text_field("method"@);
            let got = incoming_of(line);
            &&& got is Request
            &&& got->id == id
            &&& got->method is Initialize <==> method == Some("initialize"@)
            &&& got->method is ListTools <==> method == Some("tools/list"@)
            &&& got->method is CallTool <==> method == Some("tools/call"@)
            &&& method matches Some(m) ==> m != "initialize"@ && m != "tools/list"@ && m
                != "tools/call"@ ==> got->method == MethodView::Unknown(m)
        },
{
    reveal_strlit("");
    reveal_strlit("initialize");
    reveal_strlit("tools/list");
    reveal_strlit("tools/call");
    assert("initialize"@[0] != "tools/list"@[0]);
    assert("initialize"@[0] != "tools/call"@[0]);
    assert("tools/list"@[6] != "tools/call"@[6]);
    assert(""@.len() == 0 && "initialize"@.len() == 10 && "tools/list"@.len() == 10
        && "tools/call"@.len() == 10);
}

/// A call names its tool and hands it the arguments as they are; without arguments it is handed an
/// object without entries.
pub proof fn law_call_hands_over_its_arguments(req: JsonView, params: JsonView)
    requires
        req.text_field("method"@) == Some("tools/call"@),
        req.field("params"@) == Some(params),
    ensures
        params.text_field("name"@) matches Some(tool) ==> method_of(req)->tool == tool,
        params.field("arguments"@) matches Some(args) ==> method_of(req)->args == args,
        params.field("arguments"@) is None ==> method_of(req)->args == JsonView::Object(Seq::empty()),
{
    reveal_strlit("initialize");
    reveal_strlit("tools/list");
    reveal_strlit("tools/call");
    assert("initialize"@[0] != "tools/call"@[0]);
    assert("tools/list"@[6] != "tools/call"@[6]);
}

/// A refused request is answered with the reason, under the code for a method that is not found.
pub proof fn law_refusal_tells_the_reason(id: JsonView, why: Text)
    ensures
        ({
            let error = response_view(id, Err(why)).field("error"@);
            &&& error is Some
            &&& error->0.field("code"@) == Some(JsonView::Negative(-32601))
            &&& error->0.text_field("message"@) == Some(why)
        }),
{
    let code = ("code"@, JsonView::Negative(-32601));
    let message = ("message"@, JsonView::Text(why));
    let inner = no_fields().push(code).push(message);
    let e1 = no_fields().push(("jsonrpc"@, JsonView::Text("2.0"@)));
    let e2 = e1.push(("id"@, id));
    let error = ("error"@, JsonView::Object(inner));
    reveal_strlit("jsonrpc");
    reveal_strlit("id");
    reveal_strlit("error");
    reveal_strlit("code");
    reveal_strlit("message");
    assert("jsonrpc"@.len() == 7 && "id"@.len() == 2 && "error"@.len() == 5 && "code"@.len() == 4
        && "message"@.len() == 7);
    law_first_entry_counts(no_fields(), ("jsonrpc"@, JsonView::Text("2.0"@)), "error"@);
    law_first_entry_counts(e1, ("id"@, id), "error"@);
    law_first_entry_counts(e2, error, "error"@);
    law_first_entry_counts(no_fields(), code, "code"@);
    law_first_entry_counts(no_fields().push(code), message, "code"@);
    law_first_entry_counts(no_fields(), code, "message"@);
    law_first_entry_counts(no_fields().push(code), message, "message"@);
}

/// The text of an answer is its one piece of content, marked as a text.
pub proof fn law_answer_is_one_text(s: Text)
    ensures
        ({
            let pieces = content_view(s).field("content"@);
            &&& pieces is Some
            &&& pieces->0 is List
            &&& pieces->0->List_0.len() == 1
            &&& pieces->0->List_0[0].text_field("type"@) == Some("text"@)
            &&& pieces->0->List_0[0].text_field("text"@) == Some(s)
        }),
{
    let kind = ("type"@, JsonView::Text("text"@));
    let what = ("text"@, JsonView::Text(s));
    let inner = no_fields().push(kind).push(what);
    reveal_strlit("type");
    reveal_strlit("text");
    assert("type"@[1] != "text"@[1]);
    law_first_entry_counts(no_fields(), kind, "type"@);
    law_first_entry_counts(no_fields().push(kind), what, "type"@);
    law_first_entry_counts(no_fields(), kind, "text"@);
    law_first_entry_counts(no_fields().push(kind), what, "text"@);
    law_first_entry_counts(
        no_fields(),
        ("content"@, JsonView::List(seq![JsonView::Object(inner)])),
        "content"@,
    );
}

/// Every listed tool stands in the list under its own name, with what it does and what it takes.
pub proof fn law_every_listed_tool_is_described(i: int)
    requires
        0 <= i < listed_tools().len(),
    ensures
        ({
            let entries = tools_list_view()->Object_0;
            let t = listed_tools()[i];
            &&& entries.len() == 1
            &&& entries[0].0 == "tools"@
            &&& entries[0].1 is List
            &&& entries[0].1->List_0.len() == listed_tools().len()
            &&& entries[0].1->List_0[i]->Object_0.contains(("name"@, JsonView::Text(t.name())))
            &&& entries[0].1->List_0[i]->Object_0.contains(
                ("description"@, JsonView::Text(description_of(t))),
            )
            &&& entries[0].1->List_0[i]->Object_0.contains(("inputSchema"@, input_schema(t)))
        }),
{
    let t = listed_tools()[i];
    let e = tool_entry(t)->Object_0;
    assert(e[0] == ("name"@, JsonView::Text(t.name())));
    assert(e[1] == ("description"@, JsonView::Text(description_of(t))));
    assert(e[2] == ("inputSchema"@, input_schema(t)));
    let list = listed_tools().map_values(|t: Tool| tool_entry(t));
    assert(list[i] == tool_entry(t));
}

/// The schema of a tool tells every parameter under its name, and names those that the tool cannot
/// do without, where there are any.
pub proof fn law_schema_tells_every_parameter(t: Tool, i: int)
    ensures
        ({
            let e = input_schema(t)->Object_0;
            &&& e.len() >= 2
            &&& e[0] == ("type"@, JsonView::Text("object"@))
            &&& e[1].0 == "properties"@
            &&& 0 <= i < params_of(t).len() ==> e[1].1->Object_0.contains(
                (params_of(t)[i].name, param_schema(params_of(t)[i])),
            )
            &&& e.len() > 2 <==> required_of(t).len() > 0
            &&& e.len() > 2 ==> e[2].0 == "required"@ && e[2].1 == JsonView::List(
                required_of(t).map_values(|s: Text| JsonView::Text(s)),
            )
        }),
{
    let e = input_schema(t)->Object_0;
    assert(e[1] == ("properties"@, JsonView::Object(param_fields(params_of(t)))));
    if 0 <= i < params_of(t).len() {
        assert(param_fields(params_of(t))[i] == (
            params_of(t)[i].name,
            param_schema(params_of(t)[i]),
        ));
    }
    assert(text_views(required_of(t)) =~= required_of(t).map_values(|s: Text| JsonView::Text(s)));
}

/// A parameter is told by its kind: a text and a choice are strings, a number is an integer, a list
/// is an array; the choices are told, and the description where there is one.
pub proof fn law_parameter_is_told_by_its_kind(p: ParamView)
    ensures
        ({
            let e = param_schema(p)->Object_0;
            &&& p.kind is Text || p.kind is Choice ==> e[0] == ("type"@, JsonView::Text("string"@))
            &&& p.kind is Number ==> e[0] == ("type"@, JsonView::Text("integer"@))
            &&& p.kind is TextList ==> e[0] == ("type"@, JsonView::Text("array"@))
            &&& p.kind matches ParamKindView::Choice(c) ==> e.contains(
                ("enum"@, JsonView::List(c.map_values(|s: Text| JsonView::Text(s)))),
            )
            &&& p.description matches Some(d) ==> e.last() == ("description"@, JsonView::Text(d))
        }),
{
    let e = param_schema(p)->Object_0;
    if let ParamKindView::Choice(c) = p.kind {
        assert(text_views(c) =~= c.map_values(|s: Text| JsonView::Text(s)));
        assert(e[1] == ("enum"@, JsonView::List(text_views(c))));
    }
}

/// What the list says a tool cannot do without, the tool indeed refuses to do without.
pub proof fn law_tools_refuse_to_do_without(
    args: JsonView,
    found: Seq<SemanticMatch>,
    units: Seq<CodeUnit>,
    rendered: Text,
    root: Option<CodeUnit>,
    edges: Seq<Edge>,
    nodes: Seq<Node>,
    packet: Option<Text>,
    patterns: Seq<Pattern>,
    anti_patterns: Seq<AntiPattern>,
    annotations: Seq<Annotation>,
)
    ensures
        args.text_field(required_of(Tool::SemanticSearch)[0]) is None ==> search_reply(
            args,
            found,
            units,
            rendered,
        ).result is Err,
        args.text_field(required_of(Tool::GetItem)[0]) is None ==> item_reply(
            args,
            units,
            rendered,
        ).result is Err,
        args.text_field(required_of(Tool::GetContext)[0]) is None ==> context_reply(
            args,
            packet,
            rendered,
        ).result is Err,
        args.text_field(required_of(Tool::QueryGraph)[0]) is None ==> graph_reply(
            args,
            root,
            edges,
            nodes,
        ).result is Err,
        args.text_field(required_of(Tool::Recall)[0]) is None ==> recall_reply(
            args,
            units,
            rendered,
            patterns,
            anti_patterns,
            annotations,
        ).result is Err,
        required_of(Tool::SemanticSearch).len() == 1,
        required_of(Tool::GetItem).len() == 1,
        required_of(Tool::GetContext).len() == 1,
        required_of(Tool::QueryGraph).len() == 1,
        required_of(Tool::Recall).len() == 1,
        required_of(Tool::ListAll).len() == 0,
        required_of(Tool::ListPatterns).len() == 0,
{
}

} // verus!
