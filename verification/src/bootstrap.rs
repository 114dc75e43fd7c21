//! First-time set-up of a workspace.

use crate::json::{
    add_field, fields_of, json_of_text, list, no_entries, no_fields, object, parse_json,
    put_field, text, text_views, views_of, with_field, Json, JsonView,
};
use crate::text::{chars_of, replace, replace_of, Text};
use vstd::prelude::*;

verus! {

/// The launcher script.
pub const CORTEX_PS1: &'static str = "# cortex.ps1 (bootstrap template)\n\
param(\n\
\x20   [Parameter(Position=0)]\n\
\x20   [string]$Command = \"serve\",\n\
\n\
\x20   [Parameter(Position=1, ValueFromRemainingArguments=$true)]\n\
\x20   [string[]]$Rest\n\
)\n\
\n\
$DB = \".cortex\\memory.db\"\n\
$INDEX_CONFIG = \".cortex\\index-sources.json\"\n\
$BIN = \"cortex\\target\\debug\\cortex.exe\"\n\
\n\
function Ensure-Binary {\n\
\x20   if (-not (Test-Path $BIN)) {\n\
\x20       Write-Error \"Cortex binary not found at $BIN. Run: cargo build --manifest-path cortex/Cargo.toml\"\n\
\x20       exit 1\n\
\x20   }\n\
}\n\
\n\
function Get-PrimarySource {\n\
\x20   if (Test-Path $INDEX_CONFIG) {\n\
\x20       try {\n\
\x20           $cfg = Get-Content -Raw -Path $INDEX_CONFIG | ConvertFrom-Json\n\
\x20           if ($cfg.targets -and $cfg.targets.Count -gt 0 -and $cfg.targets[0].source) {\n\
\x20               return [string]$cfg.targets[0].source\n\
\x20           }\n\
\x20       } catch {}\n\
\x20   }\n\
\x20   return \"src\"\n\
}\n\
\n\
function Setup-Mcp {\n\
\x20   $path = \".vscode\\mcp.json\"\n\
\x20   $cfg = $null\n\
\x20   if (Test-Path $path) {\n\
\x20       try { $cfg = Get-Content -Raw -Path $path | ConvertFrom-Json } catch { $cfg = $null }\n\
\x20   }\n\
\x20   if (-not $cfg) { $cfg = [pscustomobject]@{} }\n\
\x20   if (-not $cfg.servers) { $cfg | Add-Member -NotePropertyName servers -NotePropertyValue ([pscustomobject]@{}) -Force }\n\
\x20   if (-not $cfg.inputs)  { $cfg | Add-Member -NotePropertyName inputs  -NotePropertyValue @() -Force }\n\
\n\
\x20   $cfg.servers | Add-Member -NotePropertyName cortex -NotePropertyValue ([pscustomobject]@{\n\
\x20       type = \"stdio\"\n\
\x20       command = \"cortex/target/debug/cortex.exe\"\n\
\x20       args = @(\"--db\", \".cortex/memory.db\", \"serve\", \"--source\", (Get-PrimarySource), \"--repo\", \".\", \"--name\", \"Project\")\n\
\x20       description = \"Cortex MCP direct binary server. Reindex via .cortex/cortex.ps1 reindex.\"\n\
\x20   }) -Force\n\
\n\
\x20   Set-Content -Path $path -Value ($cfg | ConvertTo-Json -Depth 20) -Encoding UTF8\n\
\x20   Write-Host \"[cortex] updated $path\"\n\
}\n\
\n\
Ensure-Binary\n\
\n\
switch ($Command) {\n\
\x20   \"serve\" {\n\
\x20       $source = Get-PrimarySource\n\
\x20       & $BIN --db $DB serve --source $source --repo . --name Project\n\
\x20       exit $LASTEXITCODE\n\
\x20   }\n\
\x20   \"reindex\" {\n\
\x20       if (Test-Path $INDEX_CONFIG) {\n\
\x20           $cfg = Get-Content -Raw -Path $INDEX_CONFIG | ConvertFrom-Json\n\
\x20           foreach ($t in $cfg.targets) {\n\
\x20               if (-not $t.source) { continue }\n\
\x20               $name = if ($t.name) { [string]$t.name } else { \"Project\" }\n\
\x20               $args = @(\"--db\", $DB, \"index\", \"--source\", [string]$t.source, \"--name\", $name)\n\
\x20               if ($t.scope) { $args += @(\"--scope\", [string]$t.scope) }\n\
\x20               & $BIN @args\n\
\x20               if ($LASTEXITCODE -ne 0) { exit $LASTEXITCODE }\n\
\x20           }\n\
\x20       } else {\n\
\x20           & $BIN --db $DB index --source src --name Project\n\
\x20           exit $LASTEXITCODE\n\
\x20       }\n\
\x20       Write-Host \"[cortex] reindex complete\"\n\
\x20   }\n\
\x20   \"setup-mcp\" {\n\
\x20       Setup-Mcp\n\
\x20   }\n\
\x20   \"status\" {\n\
\x20       & $BIN --db $DB --format json status --full\n\
\x20       exit $LASTEXITCODE\n\
\x20   }\n\
\x20   \"doctor\" {\n\
\x20       $source = Get-PrimarySource\n\
\x20       & $BIN --db $DB --format json doctor workflow --repo . --source $source --name Project\n\
\x20       exit $LASTEXITCODE\n\
\x20   }\n\
\x20   default {\n\
\x20       & $BIN --db $DB $Command @Rest\n\
\x20       exit $LASTEXITCODE\n\
\x20   }\n\
}\n\
";

/// The launcher script.
pub fn bootstrap_cortex_ps1_template() -> (r: &'static str)
    ensures
        r@ == CORTEX_PS1@,
{
    CORTEX_PS1
}

/// The name of the project: the one given, else that of the folder, else a plain word.
pub fn project_name(given: Option<&str>, folder: Option<&str>) -> (r: String)
    ensures
        r@ == match given {
            Some(s) => s@,
            None => match folder {
                Some(f) => if f@.len() > 0 {
                    f@
                } else {
                    "Project"@
                },
                None => "Project"@,
            },
        },
{
    match given {
        Some(s) => s.to_owned(),
        None => match folder {
            Some(f) => if chars_of(f).len() > 0 {
                f.to_owned()
            } else {
                "Project".to_owned()
            },
            None => "Project".to_owned(),
        },
    }
}

/// Whether a file is written: only what is not there, unless it is forced.
pub fn writes_file(force: bool, exists: bool) -> (r: bool)
    ensures
        r == (force || !exists),
{
    force || !exists
}

/// The list of the sources to be indexed.
pub open spec fn index_sources_view(source: Text, name: Text) -> JsonView {
    JsonView::Object(
        no_fields().push(
            (
                "targets"@,
                JsonView::List(
                    seq![
                        JsonView::Object(
                            no_fields().push(("source"@, JsonView::Text(source))).push(
                                ("name"@, JsonView::Text(name)),
                            ).push(("scope"@, JsonView::Null)),
                        ),
                    ],
                ),
            ),
        ),
    )
}

/// The list of the sources to be indexed.
pub fn index_sources(source: &str, name: &str) -> (r: Json)
    ensures
        r@ == index_sources_view(source@, name@),
{
    let mut t = no_entries();
    add_field(&mut t, "source", text(source));
    add_field(&mut t, "name", text(name));
    add_field(&mut t, "scope", Json::Null);
    let target = object(t);
    let mut targets: Vec<Json> = Vec::new();
    targets.push(target);
    assert(views_of(targets@) == seq![target@]);
    let mut e = no_entries();
    add_field(&mut e, "targets", list(targets));
    object(e)
}

/// The arguments with which the server is started: the path of the store with plain slashes, and
/// the source and the name of the project.
pub open spec fn server_args(db_path: Text, source: Text, name: Text) -> Seq<Text> {
    Seq::<Text>::empty().push("--db"@).push(replace_of(db_path, "\\"@, "/"@)).push("serve"@).push(
        "--source"@,
    ).push(source).push("--repo"@).push("."@).push("--name"@).push(name)
}

/// The entry of the server.
pub open spec fn server_view(db_path: Text, source: Text, name: Text) -> JsonView {
    JsonView::Object(
        no_fields().push(("type"@, JsonView::Text("stdio"@))).push(
            ("command"@, JsonView::Text("cortex/target/debug/cortex.exe"@)),
        ).push(("args"@, JsonView::List(text_views(server_args(db_path, source, name))))).push(
            (
                "description"@,
                JsonView::Text(
                    "Cortex MCP direct binary server. Reindex via .cortex/cortex.ps1 reindex (uses .cortex/index-sources.json)."@,
                ),
            ),
        ),
    )
}

/// A configuration without servers.
pub open spec fn no_servers() -> Seq<(Text, JsonView)> {
    no_fields().push(("servers"@, JsonView::Object(no_fields()))).push(
        ("inputs"@, JsonView::List(Seq::empty())),
    )
}

/// The entries of a configuration that is there: one that is none is taken for one without servers.
pub open spec fn base_config(old_config: Option<JsonView>) -> Seq<(Text, JsonView)> {
    match old_config {
        Some(JsonView::Object(entries)) => entries,
        _ => no_servers(),
    }
}

/// The entries with an object under `servers` and a list under `inputs`: what is there and is none
/// gives way to an empty one.
pub open spec fn with_sections(entries: Seq<(Text, JsonView)>) -> Seq<(Text, JsonView)> {
    let a = match crate::json::lookup(entries, "servers"@) {
        Some(JsonView::Object(_)) => entries,
        _ => with_field(entries, "servers"@, JsonView::Object(no_fields())),
    };
    match crate::json::lookup(a, "inputs"@) {
        Some(JsonView::List(_)) => a,
        _ => with_field(a, "inputs"@, JsonView::List(Seq::empty())),
    }
}

/// The servers of a configuration.
pub open spec fn servers_in(entries: Seq<(Text, JsonView)>) -> Seq<(Text, JsonView)> {
    match crate::json::lookup(entries, "servers"@) {
        Some(JsonView::Object(s)) => s,
        _ => no_fields(),
    }
}

/// The configuration with the entry of the server put in; what else is there stays.
pub open spec fn merged_config(
    old_config: Option<JsonView>,
    db_path: Text,
    source: Text,
    name: Text,
) -> JsonView {
    let entries = with_sections(base_config(old_config));
    JsonView::Object(
        with_field(
            entries,
            "servers"@,
            JsonView::Object(
                with_field(servers_in(entries), "cortex"@, server_view(db_path, source, name)),
            ),
        ),
    )
}

/// Adds a text.
fn add_arg(args: &mut Vec<Json>, s: &str, Ghost(before): Ghost<Seq<Text>>)
    requires
        views_of(old(args)@) == text_views(before),
    ensures
        views_of(final(args)@) == text_views(before.push(s@)),
{
    let item = text(s);
    args.push(item);
    assert(views_of(args@) == views_of(old(args)@).push(item@));
    assert(text_views(before.push(s@)) == text_views(before).push(JsonView::Text(s@)));
}

/// The entry of the server.
fn server_entry(db_path: &str, source: &str, name: &str) -> (r: Json)
    ensures
        r@ == server_view(db_path@, source@, name@),
{
    proof {
        reveal_strlit("\\");
    }
    let db = replace(db_path, "\\", "/");
    let mut args: Vec<Json> = Vec::new();
    let ghost a0 = Seq::<Text>::empty();
    assert(views_of(args@) == text_views(a0));
    add_arg(&mut args, "--db", Ghost(a0));
    let ghost a1 = a0.push("--db"@);
    add_arg(&mut args, db.as_str(), Ghost(a1));
    let ghost a2 = a1.push(db@);
    add_arg(&mut args, "serve", Ghost(a2));
    let ghost a3 = a2.push("serve"@);
    add_arg(&mut args, "--source", Ghost(a3));
    let ghost a4 = a3.push("--source"@);
    add_arg(&mut args, source, Ghost(a4));
    let ghost a5 = a4.push(source@);
    add_arg(&mut args, "--repo", Ghost(a5));
    let ghost a6 = a5.push("--repo"@);
    add_arg(&mut args, ".", Ghost(a6));
    let ghost a7 = a6.push("."@);
    add_arg(&mut args, "--name", Ghost(a7));
    let ghost a8 = a7.push("--name"@);
    add_arg(&mut args, name, Ghost(a8));
    let mut e = no_entries();
    add_field(&mut e, "type", text("stdio"));
    add_field(&mut e, "command", text("cortex/target/debug/cortex.exe"));
    add_field(&mut e, "args", list(args));
    add_field(
        &mut e,
        "description",
        text(
            "Cortex MCP direct binary server. Reindex via .cortex/cortex.ps1 reindex (uses .cortex/index-sources.json).",
        ),
    );
    object(e)
}

/// The entries of an object, one by one.
fn copy_entries(entries: &Vec<(String, Json)>) -> (r: Vec<(String, Json)>)
    ensures
        fields_of(r@) == fields_of(entries@),
{
    let ghost all = fields_of(entries@);
    let mut out = no_entries();
    let mut i: usize = 0;
    assert(all.take(0) == no_fields());
    while i < entries.len()
        invariant
            i <= entries@.len() == all.len(),
            all == fields_of(entries@),
            fields_of(out@) == all.take(i as int),
        decreases entries@.len() - i,
    {
        assert(all[i as int] == (entries@[i as int].0@, entries@[i as int].1@));
        assert(all.take(i + 1) == all.take(i as int).push(all[i as int]));
        let value = entries[i].1.copy();
        add_field(&mut out, entries[i].0.as_str(), value);
        i = i + 1;
    }
    assert(all.take(i as int) == all);
    out
}

/// The entries of a configuration that is there.
fn config_entries(old_config: Option<&Json>) -> (r: Vec<(String, Json)>)
    ensures
        fields_of(r@) == base_config(
            match old_config {
                Some(j) => Some(j@),
                None => None,
            },
        ),
{
    match old_config {
        Some(Json::Object(entries)) => {
            proof {
                crate::json::lemma_object_view(*entries);
                assert(Json::Object(*entries)@->Object_0 == fields_of(entries@));
            }
            copy_entries(entries)
        },
        _ => {
            let none: Vec<Json> = Vec::new();
            assert(views_of(none@) == Seq::<JsonView>::empty());
            let mut e = no_entries();
            add_field(&mut e, "servers", object(no_entries()));
            add_field(&mut e, "inputs", list(none));
            e
        },
    }
}

/// The entries with an object under `servers` and a list under `inputs`.
fn add_sections(entries: Vec<(String, Json)>) -> (r: Vec<(String, Json)>)
    ensures
        fields_of(r@) == with_sections(fields_of(entries@)),
{
    let ghost start = fields_of(entries@);
    let config = object(entries);
    assert(config@ == JsonView::Object(start));
    let has_servers = match config.get("servers") {
        Some(Json::Object(v)) => {
            proof {
                crate::json::lemma_object_view(*v);
            }
            true
        },
        Some(_) => false,
        None => false,
    };
    let mut out = match config {
        Json::Object(v) => {
            proof {
                crate::json::lemma_object_view(v);
                assert(Json::Object(v)@->Object_0 == fields_of(v@));
            }
            v
        },
        _ => no_entries(),
    };
    if !has_servers {
        put_field(&mut out, "servers", object(no_entries()));
    }
    let ghost middle = fields_of(out@);
    let config = object(out);
    let has_inputs = match config.get("inputs") {
        Some(Json::List(v)) => {
            proof {
                crate::json::lemma_list_view(*v);
            }
            true
        },
        Some(_) => false,
        None => false,
    };
    let mut out = match config {
        Json::Object(v) => {
            proof {
                crate::json::lemma_object_view(v);
                assert(Json::Object(v)@->Object_0 == fields_of(v@));
            }
            v
        },
        _ => no_entries(),
    };
    if !has_inputs {
        let none: Vec<Json> = Vec::new();
        assert(views_of(none@) == Seq::<JsonView>::empty());
        put_field(&mut out, "inputs", list(none));
    }
    out
}

/// The configuration with the entry of the server put in.
pub fn merge_config(old_config: Option<&Json>, db_path: &str, source: &str, name: &str) -> (r: Json)
    ensures
        r@ == merged_config(
            match old_config {
                Some(j) => Some(j@),
                None => None,
            },
            db_path@,
            source@,
            name@,
        ),
{
    let out = add_sections(config_entries(old_config));
    let ghost entries = fields_of(out@);
    let config = object(out);
    let mut servers = match config.get("servers") {
        Some(Json::Object(v)) => {
            proof {
                crate::json::lemma_object_view(*v);
                assert(Json::Object(*v)@->Object_0 == fields_of(v@));
            }
            copy_entries(v)
        },
        _ => no_entries(),
    };
    assert(fields_of(servers@) == servers_in(entries));
    put_field(&mut servers, "cortex", server_entry(db_path, source, name));
    let mut out = match config {
        Json::Object(v) => {
            proof {
                crate::json::lemma_object_view(v);
                assert(Json::Object(v)@->Object_0 == fields_of(v@));
            }
            v
        },
        _ => no_entries(),
    };
    put_field(&mut out, "servers", object(servers));
    object(out)
}

/// The configuration with the entry of the server put in; `raw` is the file that is there, if there
/// is one. A file that is no JSON is taken for one without servers.
pub fn run_bootstrap(raw: Option<&str>, db_path: &str, source: &str, name: &str) -> (r: Json)
    ensures
        r@ == merged_config(
            match raw {
                Some(s) => json_of_text(s@),
                None => None,
            },
            db_path@,
            source@,
            name@,
        ),
{
    match raw {
        Some(s) => match parse_json(s) {
            Some(j) => merge_config(Some(&j), db_path, source, name),
            None => merge_config(None, db_path, source, name),
        },
        None => merge_config(None, db_path, source, name),
    }
}

/// The configuration always has the entry of the server; other servers stay as they were.
pub proof fn law_other_servers_stay(
    old_config: Option<JsonView>,
    db_path: Text,
    source: Text,
    name: Text,
    other: Text,
)
    ensures
        ({
            let servers = merged_config(old_config, db_path, source, name).field("servers"@);
            &&& servers is Some
            &&& servers->0.field("cortex"@) == Some(server_view(db_path, source, name))
            &&& other != "cortex"@ ==> servers->0.field(other) == match old_config {
                Some(JsonView::Object(entries)) => match crate::json::lookup(entries, "servers"@) {
                    Some(JsonView::Object(s)) => crate::json::lookup(s, other),
                    _ => None,
                },
                _ => None,
            }
        }),
{
    reveal_strlit("servers");
    reveal_strlit("inputs");
    assert("servers"@.len() == 7 && "inputs"@.len() == 6);
    let base = base_config(old_config);
    let a = match crate::json::lookup(base, "servers"@) {
        Some(JsonView::Object(_)) => base,
        _ => with_field(base, "servers"@, JsonView::Object(no_fields())),
    };
    crate::json::law_field_is_put(base, "servers"@, JsonView::Object(no_fields()), "inputs"@);
    crate::json::law_field_is_put(a, "inputs"@, JsonView::List(Seq::empty()), "servers"@);
    let entries = with_sections(base);
    let put = with_field(servers_in(entries), "cortex"@, server_view(db_path, source, name));
    crate::json::law_field_is_put(entries, "servers"@, JsonView::Object(put), "inputs"@);
    crate::json::law_field_is_put(
        servers_in(entries),
        "cortex"@,
        server_view(db_path, source, name),
        other,
    );
    reveal_with_fuel(crate::json::lookup, 3);
    if !(old_config is Some && old_config->0 is Object) {
        assert(base == no_servers());
        assert(base.first() == ("servers"@, JsonView::Object(no_fields())));
    }
    assert(crate::json::lookup(no_fields(), other) is None);
}

/// What else a configuration holds stays as it was; its inputs stay where they are a list.
pub proof fn law_other_sections_stay(
    entries: Seq<(Text, JsonView)>,
    db_path: Text,
    source: Text,
    name: Text,
    key: Text,
)
    requires
        key != "servers"@,
    ensures
        ({
            let merged = merged_config(Some(JsonView::Object(entries)), db_path, source, name);
            let before = crate::json::lookup(entries, key);
            &&& key != "inputs"@ ==> merged.field(key) == before
            &&& before is Some && before->0 is List ==> merged.field(key) == before
        }),
{
    let a = match crate::json::lookup(entries, "servers"@) {
        Some(JsonView::Object(_)) => entries,
        _ => with_field(entries, "servers"@, JsonView::Object(no_fields())),
    };
    crate::json::law_field_is_put(entries, "servers"@, JsonView::Object(no_fields()), key);
    crate::json::law_field_is_put(entries, "servers"@, JsonView::Object(no_fields()), "inputs"@);
    crate::json::law_field_is_put(a, "inputs"@, JsonView::List(Seq::empty()), key);
    let b = with_sections(entries);
    crate::json::law_field_is_put(
        b,
        "servers"@,
        JsonView::Object(
            with_field(servers_in(b), "cortex"@, server_view(db_path, source, name)),
        ),
        key,
    );
}

/// The server is started on the store, whose path is written with plain slashes, and on the source
/// and the name of the project.
pub proof fn law_server_is_started_on_the_project(db_path: Text, source: Text, name: Text)
    ensures
        ({
            let args = server_args(db_path, source, name);
            &&& args == seq![
                "--db"@,
                replace_of(db_path, seq!['\\'], seq!['/']),
                "serve"@,
                "--source"@,
                source,
                "--repo"@,
                "."@,
                "--name"@,
                name,
            ]
            &&& server_view(db_path, source, name)->Object_0.contains(
                ("type"@, JsonView::Text("stdio"@)),
            )
            &&& server_view(db_path, source, name)->Object_0.contains(
                ("command"@, JsonView::Text("cortex/target/debug/cortex.exe"@)),
            )
            &&& server_view(db_path, source, name)->Object_0.contains(
                ("args"@, JsonView::List(args.map_values(|s: Text| JsonView::Text(s)))),
            )
        }),
{
    reveal_strlit("\\");
    reveal_strlit("/");
    assert("\\"@ =~= seq!['\\']);
    assert("/"@ =~= seq!['/']);
    let e = server_view(db_path, source, name)->Object_0;
    let args = server_args(db_path, source, name);
    assert(text_views(args) =~= args.map_values(|s: Text| JsonView::Text(s)));
    assert(e[0] == ("type"@, JsonView::Text("stdio"@)));
    assert(e[1] == ("command"@, JsonView::Text("cortex/target/debug/cortex.exe"@)));
    assert(e[2] == ("args"@, JsonView::List(args.map_values(|s: Text| JsonView::Text(s)))));
}

/// One source is to be indexed at first: the one that is given, under the name that is given.
pub proof fn law_one_source_is_indexed_at_first(source: Text, name: Text)
    ensures
        ({
            let targets = index_sources_view(source, name)->Object_0[0];
            &&& index_sources_view(source, name)->Object_0.len() == 1
            &&& targets.0 == "targets"@
            &&& targets.1 is List
            &&& targets.1->List_0.len() == 1
            &&& targets.1->List_0[0]->Object_0.contains(("source"@, JsonView::Text(source)))
            &&& targets.1->List_0[0]->Object_0.contains(("name"@, JsonView::Text(name)))
        }),
{
    let target = index_sources_view(source, name)->Object_0[0].1->List_0[0]->Object_0;
    assert(target[0] == ("source"@, JsonView::Text(source)));
    assert(target[1] == ("name"@, JsonView::Text(name)));
}

} // verus!
