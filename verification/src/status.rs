//! Reports on the state of the memory.

use crate::json::{
    add_field, integer, integer_view, list, no_entries, no_fields, object, text, views_of, Json,
    JsonView,
};
use crate::lists::{
    items, kept, lemma_kept_agree, lemma_written_out_holds, select_all, write_all, written_out,
};
use crate::model::StoredRate;
use crate::numbers::{
    count_text, decimal, decimal_of, fill_zeros, round, rounded, signed_decimal,
    signed_decimal_of, zero_fill,
};
use crate::rates::{rate_below, rate_is_below, EIGHT_TENTHS, FOUR_TENTHS};
use crate::text::{
    contains, contains_text, lemma_contains_half, lemma_contains_itself, lemma_contains_middle,
    lemma_contains_through, occurs_at, pad_right, pad_right_of, Text,
};
use vstd::prelude::*;

verus! {

/// The step between neighbouring double-precision numbers around a whole number.
pub open spec fn float_step(n: nat) -> nat {
    if n < 0x20_0000_0000_0000 {
        1
    } else if n < 0x40_0000_0000_0000 {
        2
    } else if n < 0x80_0000_0000_0000 {
        4
    } else if n < 0x100_0000_0000_0000 {
        8
    } else if n < 0x200_0000_0000_0000 {
        16
    } else if n < 0x400_0000_0000_0000 {
        32
    } else if n < 0x800_0000_0000_0000 {
        64
    } else if n < 0x1000_0000_0000_0000 {
        128
    } else if n < 0x2000_0000_0000_0000 {
        256
    } else if n < 0x4000_0000_0000_0000 {
        512
    } else if n < 0x8000_0000_0000_0000 {
        1024
    } else {
        2048
    }
}

/// The double-precision number nearest to a whole number of 64 bits.
pub open spec fn nearest_float(n: nat) -> nat {
    rounded(n, float_step(n)) * float_step(n)
}

/// A number of bytes for the eye: bytes, kilobytes with one decimal, or megabytes with two.
pub open spec fn bytes_text(b: nat) -> Text {
    if b < 1024 {
        decimal_of(b) + "B"@
    } else if b < 1048576 {
        let tenths = rounded(b * 10, 1024);
        decimal_of(tenths / 10) + "."@ + decimal_of(tenths % 10) + "KB"@
    } else {
        let hundredths = rounded(nearest_float(b) * 100, 1048576);
        decimal_of(hundredths / 100) + "."@ + zero_fill(decimal_of(hundredths % 100), 2) + "MB"@
    }
}

/// The step between neighbouring double-precision numbers around a whole number.
fn step_of(n: u64) -> (r: u128)
    ensures
        r == float_step(n as nat),
        1 <= r <= 2048,
{
    if n < 0x20_0000_0000_0000 {
        1
    } else if n < 0x40_0000_0000_0000 {
        2
    } else if n < 0x80_0000_0000_0000 {
        4
    } else if n < 0x100_0000_0000_0000 {
        8
    } else if n < 0x200_0000_0000_0000 {
        16
    } else if n < 0x400_0000_0000_0000 {
        32
    } else if n < 0x800_0000_0000_0000 {
        64
    } else if n < 0x1000_0000_0000_0000 {
        128
    } else if n < 0x2000_0000_0000_0000 {
        256
    } else if n < 0x4000_0000_0000_0000 {
        512
    } else if n < 0x8000_0000_0000_0000 {
        1024
    } else {
        2048
    }
}

/// A number of bytes for the eye.
pub fn format_bytes(b: u64) -> (r: String)
    ensures
        r@ == bytes_text(b as nat),
{
    if b < 1024 {
        let mut s = decimal(b);
        s.append("B");
        s
    } else if b < 1048576 {
        let tenths = round((b as u128) * 10, 1024) as u64;
        let mut s = decimal(tenths / 10);
        s.append(".");
        s.append(decimal(tenths % 10).as_str());
        s.append("KB");
        s
    } else {
        let step = step_of(b);
        let steps = round(b as u128, step);
        proof {
            assert(steps * step <= 0xffff_ffff_ffff_ffff * 2048) by (nonlinear_arith)
                requires
                    steps <= 0xffff_ffff_ffff_ffff,
                    1 <= step <= 2048,
            ;
            assert(0 <= steps * step) by (nonlinear_arith)
                requires
                    0 <= steps,
                    1 <= step,
            ;
        }
        let near: u128 = steps * step;
        assert(near == nearest_float(b as nat));
        let hundredths = round(near * 100, 1048576);
        proof {
            lemma_rounded_bound((near * 100) as nat);
        }
        let hundredths = hundredths as u64;
        let mut s = decimal(hundredths / 100);
        s.append(".");
        s.append(fill_zeros(decimal(hundredths % 100).as_str(), 2).as_str());
        s.append("MB");
        s
    }
}

/// Megabytes in hundredths fit in 64 bits.
proof fn lemma_rounded_bound(n: nat)
    requires
        n <= 0xffff_ffff_ffff_ffff * 2048 * 100,
    ensures
        rounded(n, 1048576) <= u64::MAX,
{
}

/// What the response cache holds.
#[derive(Debug, Clone, Copy)]
pub struct CacheStats {
    pub entries: i64,
    pub total_hits: i64,
    pub content_blobs: i64,
    pub approx_bytes: u64,
}

/// How well a pattern survives.
#[derive(Debug)]
pub struct HealthRow {
    pub id: i64,
    pub name: String,
    pub use_count: i64,
    pub reverted_count: i64,
    pub survival_rate: StoredRate,
}

/// What only a full report tells.
#[derive(Debug)]
pub struct FullStatus {
    pub nodes: i64,
    pub edges: i64,
    pub inferred: i64,
    pub manual: i64,
    pub scratchpads: i64,
    pub recent_hot: Vec<(String, i64)>,
    pub health: Vec<HealthRow>,
    /// The queries that found too little most often, and how often.
    pub query_gaps: Vec<(String, i64)>,
}

/// The state of the memory.
#[derive(Debug)]
pub struct Status {
    pub db: String,
    pub db_bytes: Option<u64>,
    pub indexed_units: i64,
    pub patterns: usize,
    pub anti_patterns: usize,
    pub annotations: usize,
    pub observations: usize,
    pub hot: Vec<(String, i64)>,
    pub cache: Option<CacheStats>,
    pub full: Option<FullStatus>,
}

/// A tool or a query and how often it came, the name in a column.
pub open spec fn tool_line(width: int) -> spec_fn((String, i64)) -> Text {
    |t: (String, i64)|
        "    "@ + pad_right_of(t.0@, width) + " "@ + signed_decimal_of(t.1 as int) + "x\n"@
}

/// The sign and the name of the tier of a survival rate: below two fifths critical, below four
/// fifths to be watched, else healthy.
pub open spec fn tier_of(bits: u32) -> (Text, Text) {
    if rate_is_below(bits, FOUR_TENTHS) {
        ("⚠"@, "critical"@)
    } else if rate_is_below(bits, EIGHT_TENTHS) {
        ("!"@, "watch"@)
    } else {
        ("✓"@, "healthy"@)
    }
}

/// The line for the health of a pattern.
pub open spec fn health_line() -> spec_fn(HealthRow) -> Text {
    |h: HealthRow|
        "    "@ + tier_of(h.survival_rate.bits).0 + " "@ + h.name@ + " ("@
            + h.survival_rate.percent@ + "%) ["@ + tier_of(h.survival_rate.bits).1 + "]\n"@
}

/// The pattern survives in less than two fifths of its uses.
pub open spec fn is_critical() -> spec_fn(HealthRow) -> bool {
    |h: HealthRow| rate_is_below(h.survival_rate.bits, FOUR_TENTHS)
}

/// The part of the report on the cache.
pub open spec fn cache_part(c: CacheStats) -> Text {
    "\n  response cache:   "@ + signed_decimal_of(c.entries as int) + " entries ("@
        + signed_decimal_of(c.total_hits as int) + " cache hits total)\n  content store:    "@
        + signed_decimal_of(c.content_blobs as int) + " blobs (~"@ + bytes_text(
        c.approx_bytes as nat,
    ) + " compressed)\n"@
}

/// The part of the report on the health of patterns.
pub open spec fn health_part(health: Seq<HealthRow>) -> Text {
    let low = kept(health, is_critical()).len();
    let lines = "\n  pattern health:\n"@ + written_out(health, health_line());
    if low > 0 {
        lines + "\n  "@ + decimal_of(low)
            + " pattern(s) below 40% survival — run `cortex pattern health` and revise risky patterns.\n"@
    } else {
        lines
    }
}

/// The part that only a full report has.
pub open spec fn full_part(f: FullStatus) -> Text {
    let head = "\nfull details\n\n  graph:\n    nodes:           "@ + signed_decimal_of(
        f.nodes as int,
    ) + "\n    edges:           "@ + signed_decimal_of(f.edges as int) + "  ("@
        + signed_decimal_of(f.inferred as int) + " inferred, "@ + signed_decimal_of(f.manual as int)
        + " manual)\n\n  scratchpads:       "@ + signed_decimal_of(f.scratchpads as int)
        + " active\n"@;
    let tools = if f.recent_hot@.len() == 0 {
        head
    } else {
        head + "\n  top tools (last 500 calls):\n"@ + written_out(f.recent_hot@, tool_line(20))
    };
    let healthy = if f.health@.len() == 0 {
        tools
    } else {
        tools + health_part(f.health@)
    };
    healthy + gap_part(f.query_gaps@)
}

/// The part of the report on queries that found too little.
pub open spec fn gap_part(gaps: Seq<(String, i64)>) -> Text {
    if gaps.len() == 0 {
        Seq::empty()
    } else {
        "\n  query gaps:\n"@ + written_out(gaps, tool_line(20))
    }
}

/// The report on the state of the memory.
pub open spec fn status_text(s: Status) -> Text {
    let head = "cortex status\n\n  db:               "@ + s.db@ + "\n  db size:          "@ + (
    match s.db_bytes {
        Some(b) => bytes_text(b as nat),
        None => "unknown"@,
    }) + "\n  indexed units:    "@ + signed_decimal_of(s.indexed_units as int)
        + "\n  patterns:         "@ + decimal_of(s.patterns as nat) + "\n  anti-patterns:    "@
        + decimal_of(s.anti_patterns as nat) + "\n  annotations:      "@ + decimal_of(
        s.annotations as nat,
    ) + "\n  pending review:   "@ + decimal_of(s.observations as nat) + "\n"@;
    let cached = match s.cache {
        Some(c) => head + cache_part(c),
        None => head,
    };
    let tools = if s.hot@.len() == 0 {
        cached
    } else {
        cached + "\n  most-called tools:\n"@ + written_out(s.hot@, tool_line(25))
    };
    let waiting = if s.observations == 0 {
        tools
    } else {
        tools + "\n  "@ + decimal_of(s.observations as nat)
            + " observation(s) waiting — run `cortex review`\n"@
    };
    match s.full {
        Some(f) => waiting + full_part(f),
        None => waiting,
    }
}

/// Tools and how often they were called.
fn write_tools(list_of: &Vec<(String, i64)>, width: usize) -> (r: String)
    ensures
        r@ == written_out(list_of@, tool_line(width as int)),
{
    let line = |t: &(String, i64)| -> (s: String)
        ensures
            s@ == tool_line(width as int)(*t),
        {
            let mut s = "    ".to_owned();
            s.append(pad_right(t.0.as_str(), width).as_str());
            s.append(" ");
            s.append(signed_decimal(t.1).as_str());
            s.append("x\n");
            s
        };
    write_all(list_of, line, Ghost(tool_line(width as int)))
}

/// The sign and the name of the tier of a survival rate.
pub fn survival_tier(bits: u32) -> (r: (&'static str, &'static str))
    ensures
        (r.0@, r.1@) == tier_of(bits),
{
    if rate_below(bits, FOUR_TENTHS) {
        ("⚠", "critical")
    } else if rate_below(bits, EIGHT_TENTHS) {
        ("!", "watch")
    } else {
        ("✓", "healthy")
    }
}

/// The part of the report on the health of patterns.
fn write_health(health: &Vec<HealthRow>) -> (r: String)
    ensures
        r@ == health_part(health@),
{
    let critical = |h: &HealthRow| -> (b: bool)
        ensures
            b == is_critical()(*h),
        { rate_below(h.survival_rate.bits, FOUR_TENTHS) };
    let low = select_all(health, critical, Ghost(is_critical()));
    assert(items(low@).len() == low@.len());
    let line = |h: &HealthRow| -> (s: String)
        ensures
            s@ == health_line()(*h),
        {
            let (sign, tier) = survival_tier(h.survival_rate.bits);
            let mut s = "    ".to_owned();
            s.append(sign);
            s.append(" ");
            s.append(h.name.as_str());
            s.append(" (");
            s.append(h.survival_rate.percent.as_str());
            s.append("%) [");
            s.append(tier);
            s.append("]\n");
            s
        };
    let mut out = "\n  pattern health:\n".to_owned();
    out.append(write_all(health, line, Ghost(health_line())).as_str());
    if low.len() > 0 {
        out.append("\n  ");
        out.append(count_text(low.len()).as_str());
        out.append(
            " pattern(s) below 40% survival — run `cortex pattern health` and revise risky patterns.\n",
        );
    }
    out
}

/// The part that only a full report has.
fn write_full(f: &FullStatus) -> (r: String)
    ensures
        r@ == full_part(*f),
{
    let mut out = "\nfull details\n\n  graph:\n    nodes:           ".to_owned();
    out.append(signed_decimal(f.nodes).as_str());
    out.append("\n    edges:           ");
    out.append(signed_decimal(f.edges).as_str());
    out.append("  (");
    out.append(signed_decimal(f.inferred).as_str());
    out.append(" inferred, ");
    out.append(signed_decimal(f.manual).as_str());
    out.append(" manual)\n\n  scratchpads:       ");
    out.append(signed_decimal(f.scratchpads).as_str());
    out.append(" active\n");
    if f.recent_hot.len() > 0 {
        out.append("\n  top tools (last 500 calls):\n");
        out.append(write_tools(&f.recent_hot, 20).as_str());
    }
    if f.health.len() > 0 {
        out.append(write_health(&f.health).as_str());
    }
    let mut gaps = String::new();
    if f.query_gaps.len() > 0 {
        gaps = "\n  query gaps:\n".to_owned();
        gaps.append(write_tools(&f.query_gaps, 20).as_str());
    }
    out.append(gaps.as_str());
    out
}

/// The part of the report on the cache.
fn write_cache(c: &CacheStats) -> (r: String)
    ensures
        r@ == cache_part(*c),
{
    let mut out = "\n  response cache:   ".to_owned();
    out.append(signed_decimal(c.entries).as_str());
    out.append(" entries (");
    out.append(signed_decimal(c.total_hits).as_str());
    out.append(" cache hits total)\n  content store:    ");
    out.append(signed_decimal(c.content_blobs).as_str());
    out.append(" blobs (~");
    out.append(format_bytes(c.approx_bytes).as_str());
    out.append(" compressed)\n");
    out
}

/// The report on the state of the memory.
pub fn build_status_report(s: &Status) -> (r: String)
    ensures
        r@ == status_text(*s),
{
    let mut out = "cortex status\n\n  db:               ".to_owned();
    out.append(s.db.as_str());
    out.append("\n  db size:          ");
    let size = match s.db_bytes {
        Some(b) => format_bytes(b),
        None => "unknown".to_owned(),
    };
    out.append(size.as_str());
    out.append("\n  indexed units:    ");
    out.append(signed_decimal(s.indexed_units).as_str());
    out.append("\n  patterns:         ");
    out.append(count_text(s.patterns).as_str());
    out.append("\n  anti-patterns:    ");
    out.append(count_text(s.anti_patterns).as_str());
    out.append("\n  annotations:      ");
    out.append(count_text(s.annotations).as_str());
    out.append("\n  pending review:   ");
    out.append(count_text(s.observations).as_str());
    out.append("\n");
    if let Some(c) = &s.cache {
        out.append(write_cache(c).as_str());
    }
    if s.hot.len() > 0 {
        out.append("\n  most-called tools:\n");
        out.append(write_tools(&s.hot, 25).as_str());
    }
    if s.observations > 0 {
        out.append("\n  ");
        out.append(count_text(s.observations).as_str());
        out.append(" observation(s) waiting — run `cortex review`\n");
    }
    if let Some(f) = &s.full {
        out.append(write_full(f).as_str());
    }
    out
}

/// A tool and how often it was called, as JSON.
pub open spec fn tool_pair(t: (String, i64)) -> JsonView {
    JsonView::List(seq![JsonView::Text(t.0@)].push(integer_view(t.1 as int)))
}

/// Tools and how often they were called, as JSON.
pub open spec fn tool_pairs(list_of: Seq<(String, i64)>) -> JsonView {
    JsonView::List(list_of.map_values(|t: (String, i64)| tool_pair(t)))
}

/// The health of a pattern as JSON.
pub open spec fn health_entry(h: HealthRow) -> JsonView {
    JsonView::List(
        seq![integer_view(h.id as int)].push(JsonView::Text(h.name@)).push(
            integer_view(h.use_count as int),
        ).push(integer_view(h.reverted_count as int)).push(
            JsonView::Float(h.survival_rate.number@),
        ),
    )
}

/// What the cache holds, as JSON.
pub open spec fn cache_view(c: CacheStats) -> JsonView {
    JsonView::Object(
        no_fields().push(("entries"@, integer_view(c.entries as int))).push(
            ("total_hits"@, integer_view(c.total_hits as int)),
        ).push(("content_blobs"@, integer_view(c.content_blobs as int))).push(
            ("approx_bytes"@, JsonView::Unsigned(c.approx_bytes as nat)),
        ),
    )
}

/// What only a full report tells, as JSON.
pub open spec fn full_view(f: FullStatus) -> JsonView {
    let base = no_fields().push(
        (
            "graph"@,
            JsonView::Object(
                no_fields().push(("nodes"@, integer_view(f.nodes as int))).push(
                    ("edges"@, integer_view(f.edges as int)),
                ).push(("inferred"@, integer_view(f.inferred as int))).push(
                    ("manual"@, integer_view(f.manual as int)),
                ),
            ),
        ),
    ).push(("scratchpads"@, integer_view(f.scratchpads as int))).push(
        ("recent_hot_tools"@, tool_pairs(f.recent_hot@)),
    ).push(
        (
            "pattern_health"@,
            JsonView::List(f.health@.map_values(|h: HealthRow| health_entry(h))),
        ),
    );
    JsonView::Object(
        if f.query_gaps@.len() == 0 {
            base
        } else {
            base.push(("query_gaps"@, tool_pairs(f.query_gaps@)))
        },
    )
}

/// The state of the memory as JSON.
pub open spec fn status_view(s: Status) -> JsonView {
    let base = no_fields().push(("db"@, JsonView::Text(s.db@))).push(
        (
            "db_bytes"@,
            JsonView::Unsigned(
                match s.db_bytes {
                    Some(b) => b as nat,
                    None => 0,
                },
            ),
        ),
    ).push(("indexed_units"@, integer_view(s.indexed_units as int))).push(
        ("patterns"@, JsonView::Unsigned(s.patterns as nat)),
    ).push(("anti_patterns"@, JsonView::Unsigned(s.anti_patterns as nat))).push(
        ("annotations"@, JsonView::Unsigned(s.annotations as nat)),
    ).push(("pending_review"@, JsonView::Unsigned(s.observations as nat))).push(
        ("hot_tools"@, tool_pairs(s.hot@)),
    );
    let cached = match s.cache {
        Some(c) => base.push(("cache"@, cache_view(c))),
        None => base,
    };
    JsonView::Object(
        match s.full {
            Some(f) => cached.push(("full"@, full_view(f))),
            None => cached,
        },
    )
}

/// Tools and how often they were called, as JSON.
fn tools_json(list_of: &Vec<(String, i64)>) -> (r: Json)
    ensures
        r@ == tool_pairs(list_of@),
{
    let ghost all = list_of@.map_values(|t: (String, i64)| tool_pair(t));
    let mut out: Vec<Json> = Vec::new();
    let mut i: usize = 0;
    while i < list_of.len()
        invariant
            i <= list_of@.len() == all.len(),
            all == list_of@.map_values(|t: (String, i64)| tool_pair(t)),
            views_of(out@) == all.take(i as int),
        decreases list_of@.len() - i,
    {
        let ghost before = out@;
        let mut pair: Vec<Json> = Vec::new();
        pair.push(text(list_of[i].0.as_str()));
        pair.push(integer(list_of[i].1));
        assert(JsonView::List(views_of(pair@)) == tool_pair(list_of@[i as int])) by {
            assert(views_of(pair@) == seq![JsonView::Text(list_of@[i as int].0@)].push(
                integer_view(list_of@[i as int].1 as int),
            ));
        }
        let item = list(pair);
        out.push(item);
        assert(views_of(out@) == views_of(before).push(item@));
        assert(all.take(i + 1) == all.take(i as int).push(all[i as int]));
        i = i + 1;
    }
    assert(all.take(i as int) == all);
    list(out)
}

/// The health of a pattern as JSON.
fn health_json(h: &HealthRow) -> (r: Json)
    ensures
        r@ == health_entry(*h),
{
    let mut row: Vec<Json> = Vec::new();
    row.push(integer(h.id));
    row.push(text(h.name.as_str()));
    row.push(integer(h.use_count));
    row.push(integer(h.reverted_count));
    row.push(Json::Float(h.survival_rate.number.clone()));
    assert(views_of(row@) == health_entry(*h)->List_0);
    list(row)
}

/// What only a full report tells, as JSON.
fn full_json(f: &FullStatus) -> (r: Json)
    ensures
        r@ == full_view(*f),
{
    let mut g = no_entries();
    add_field(&mut g, "nodes", integer(f.nodes));
    add_field(&mut g, "edges", integer(f.edges));
    add_field(&mut g, "inferred", integer(f.inferred));
    add_field(&mut g, "manual", integer(f.manual));
    let ghost all = f.health@.map_values(|h: HealthRow| health_entry(h));
    let mut rows: Vec<Json> = Vec::new();
    let mut i: usize = 0;
    while i < f.health.len()
        invariant
            i <= f.health@.len() == all.len(),
            all == f.health@.map_values(|h: HealthRow| health_entry(h)),
            views_of(rows@) == all.take(i as int),
        decreases f.health@.len() - i,
    {
        let ghost before = rows@;
        let item = health_json(&f.health[i]);
        rows.push(item);
        assert(views_of(rows@) == views_of(before).push(item@));
        assert(all.take(i + 1) == all.take(i as int).push(all[i as int]));
        i = i + 1;
    }
    assert(all.take(i as int) == all);
    let mut e = no_entries();
    add_field(&mut e, "graph", object(g));
    add_field(&mut e, "scratchpads", integer(f.scratchpads));
    add_field(&mut e, "recent_hot_tools", tools_json(&f.recent_hot));
    add_field(&mut e, "pattern_health", list(rows));
    if f.query_gaps.len() > 0 {
        add_field(&mut e, "query_gaps", tools_json(&f.query_gaps));
    }
    object(e)
}

/// What the cache holds, as JSON.
fn cache_json(c: &CacheStats) -> (r: Json)
    ensures
        r@ == cache_view(*c),
{
    let mut e = no_entries();
    add_field(&mut e, "entries", integer(c.entries));
    add_field(&mut e, "total_hits", integer(c.total_hits));
    add_field(&mut e, "content_blobs", integer(c.content_blobs));
    add_field(&mut e, "approx_bytes", Json::Unsigned(c.approx_bytes));
    object(e)
}

/// The state of the memory as JSON.
pub fn build_status_json(s: &Status) -> (r: Json)
    ensures
        r@ == status_view(*s),
{
    let size: u64 = match s.db_bytes {
        Some(b) => b,
        None => 0,
    };
    let mut e = no_entries();
    add_field(&mut e, "db", text(s.db.as_str()));
    add_field(&mut e, "db_bytes", Json::Unsigned(size));
    add_field(&mut e, "indexed_units", integer(s.indexed_units));
    add_field(&mut e, "patterns", Json::Unsigned(s.patterns as u64));
    add_field(&mut e, "anti_patterns", Json::Unsigned(s.anti_patterns as u64));
    add_field(&mut e, "annotations", Json::Unsigned(s.annotations as u64));
    add_field(&mut e, "pending_review", Json::Unsigned(s.observations as u64));
    add_field(&mut e, "hot_tools", tools_json(&s.hot));
    if let Some(c) = &s.cache {
        add_field(&mut e, "cache", cache_json(c));
    }
    if let Some(f) = &s.full {
        add_field(&mut e, "full", full_json(f));
    }
    object(e)
}

/// One check of the workflow doctor.
#[derive(Debug)]
pub struct DoctorCheck {
    pub step: String,
    pub pass: bool,
    pub detail: String,
}

/// The model of a check.
pub type CheckView = (Text, bool, Text);

/// The models of checks.
pub open spec fn check_views(list_of: Seq<DoctorCheck>) -> Seq<CheckView> {
    list_of.map_values(|c: DoctorCheck| (c.step@, c.pass, c.detail@))
}

/// What the workflow doctor found out.
#[derive(Debug)]
pub struct Examination {
    pub indexed_units: i64,
    pub delta_files: usize,
    pub packet_tokens: usize,
    pub packet_units: usize,
    pub packet_deltas: usize,
    pub full_report: String,
    /// How many queries that found too little are on record, where a record is kept.
    pub query_gaps: Option<usize>,
    /// The pattern that was added, reverted and removed again, if one was.
    pub roundtrip: Option<i64>,
}

/// The checks of the workflow doctor.
pub open spec fn checks_of(x: Examination) -> Seq<CheckView> {
    let base = Seq::<CheckView>::empty().push(
        (
            "index_present"@,
            x.indexed_units > 0,
            "indexed_units="@ + signed_decimal_of(x.indexed_units as int),
        ),
    ).push(
        ("delta_query"@, true, "delta_files_returned="@ + decimal_of(x.delta_files as nat)),
    ).push(
        (
            "context_packet"@,
            true,
            "estimated_tokens="@ + decimal_of(x.packet_tokens as nat) + " relevant_units="@
                + decimal_of(x.packet_units as nat) + " deltas="@ + decimal_of(
                x.packet_deltas as nat,
            ),
        ),
    ).push(
        (
            "status_full_render"@,
            contains_text(x.full_report@, "full details"@),
            "status --full report generated"@,
        ),
    );
    let told = match x.query_gaps {
        Some(n) => base.push(
            ("query_gap_telemetry"@, true, "query_gaps_logged="@ + decimal_of(n as nat)),
        ),
        None => base,
    };
    match x.roundtrip {
        Some(id) => told.push(
            (
                "pattern_roundtrip"@,
                true,
                "added_reverted_removed_pattern_id="@ + signed_decimal_of(id as int),
            ),
        ),
        None => told,
    }
}

/// All checks passed.
pub open spec fn all_passed(checks: Seq<CheckView>) -> bool {
    forall|i: int| 0 <= i < checks.len() ==> (#[trigger] checks[i]).1
}

/// The line for a check.
pub open spec fn check_line() -> spec_fn(DoctorCheck) -> Text {
    |c: DoctorCheck|
        "  "@ + (if c.pass {
            "✓"@
        } else {
            "✗"@
        }) + " "@ + pad_right_of(c.step@, 22) + " "@ + c.detail@ + "\n"@
}

/// A check as JSON.
pub open spec fn check_json_view(c: CheckView) -> JsonView {
    JsonView::Object(
        no_fields().push(("step"@, JsonView::Text(c.0))).push(("pass"@, JsonView::Bool(c.1))).push(
            ("detail"@, JsonView::Text(c.2)),
        ),
    )
}

/// Adds a check.
fn add_check(list_of: &mut Vec<DoctorCheck>, step: &str, pass: bool, detail: String)
    ensures
        check_views(final(list_of)@) == check_views(old(list_of)@).push((step@, pass, detail@)),
{
    let c = DoctorCheck { step: step.to_owned(), pass, detail };
    list_of.push(c);
    assert(check_views(list_of@) == check_views(old(list_of)@).push((step@, pass, detail@)));
}

/// The checks of the workflow doctor.
pub fn run_doctor_workflow(x: &Examination) -> (r: Vec<DoctorCheck>)
    ensures
        check_views(r@) == checks_of(*x),
{
    let mut out: Vec<DoctorCheck> = Vec::new();
    assert(check_views(out@) == Seq::<CheckView>::empty());
    let mut detail = "indexed_units=".to_owned();
    detail.append(signed_decimal(x.indexed_units).as_str());
    add_check(&mut out, "index_present", x.indexed_units > 0, detail);
    let mut detail = "delta_files_returned=".to_owned();
    detail.append(count_text(x.delta_files).as_str());
    add_check(&mut out, "delta_query", true, detail);
    let mut detail = "estimated_tokens=".to_owned();
    detail.append(count_text(x.packet_tokens).as_str());
    detail.append(" relevant_units=");
    detail.append(count_text(x.packet_units).as_str());
    detail.append(" deltas=");
    detail.append(count_text(x.packet_deltas).as_str());
    add_check(&mut out, "context_packet", true, detail);
    let rendered = contains(x.full_report.as_str(), "full details");
    add_check(
        &mut out,
        "status_full_render",
        rendered,
        "status --full report generated".to_owned(),
    );
    if let Some(n) = x.query_gaps {
        let mut detail = "query_gaps_logged=".to_owned();
        detail.append(count_text(n).as_str());
        add_check(&mut out, "query_gap_telemetry", true, detail);
    }
    if let Some(id) = x.roundtrip {
        let mut detail = "added_reverted_removed_pattern_id=".to_owned();
        detail.append(signed_decimal(id).as_str());
        add_check(&mut out, "pattern_roundtrip", true, detail);
    }
    out
}

/// Whether all checks passed.
pub fn checks_pass(checks: &Vec<DoctorCheck>) -> (r: bool)
    ensures
        r == all_passed(check_views(checks@)),
{
    let ghost all = check_views(checks@);
    let mut i: usize = 0;
    while i < checks.len()
        invariant
            i <= checks@.len() == all.len(),
            all == check_views(checks@),
            forall|k: int| 0 <= k < i ==> (#[trigger] all[k]).1,
        decreases checks@.len() - i,
    {
        assert(all[i as int].1 == checks@[i as int].pass);
        if !checks[i].pass {
            return false;
        }
        i = i + 1;
    }
    true
}

/// The checks as a text.
pub fn doctor_report(checks: &Vec<DoctorCheck>) -> (r: String)
    ensures
        r@ == "workflow doctor:\n\n"@ + written_out(checks@, check_line()),
{
    let line = |c: &DoctorCheck| -> (s: String)
        ensures
            s@ == check_line()(*c),
        {
            let sign = if c.pass {
                "✓"
            } else {
                "✗"
            };
            let mut s = "  ".to_owned();
            s.append(sign);
            s.append(" ");
            s.append(pad_right(c.step.as_str(), 22).as_str());
            s.append(" ");
            s.append(c.detail.as_str());
            s.append("\n");
            s
        };
    let mut out = "workflow doctor:\n\n".to_owned();
    out.append(write_all(checks, line, Ghost(check_line())).as_str());
    out
}

/// The checks as JSON.
pub fn doctor_json(checks: &Vec<DoctorCheck>) -> (r: Json)
    ensures
        r@ == JsonView::Object(
            no_fields().push(("ok"@, JsonView::Bool(all_passed(check_views(checks@))))).push(
                (
                    "checks"@,
                    JsonView::List(
                        check_views(checks@).map_values(|c: CheckView| check_json_view(c)),
                    ),
                ),
            ),
        ),
{
    let ghost all = check_views(checks@).map_values(|c: CheckView| check_json_view(c));
    let mut out: Vec<Json> = Vec::new();
    let mut i: usize = 0;
    while i < checks.len()
        invariant
            i <= checks@.len() == all.len(),
            all == check_views(checks@).map_values(|c: CheckView| check_json_view(c)),
            views_of(out@) == all.take(i as int),
        decreases checks@.len() - i,
    {
        let ghost before = out@;
        let mut e = no_entries();
        add_field(&mut e, "step", text(checks[i].step.as_str()));
        add_field(&mut e, "pass", Json::Bool(checks[i].pass));
        add_field(&mut e, "detail", text(checks[i].detail.as_str()));
        let item = object(e);
        out.push(item);
        assert(views_of(out@) == views_of(before).push(item@));
        assert(all[i as int] == item@);
        assert(all.take(i + 1) == all.take(i as int).push(all[i as int]));
        i = i + 1;
    }
    assert(all.take(i as int) == all);
    let mut e = no_entries();
    add_field(&mut e, "ok", Json::Bool(checks_pass(checks)));
    add_field(&mut e, "checks", list(out));
    object(e)
}

/// The doctor is content exactly where something is indexed and the full report has its details.
pub proof fn law_doctor_is_content(x: Examination)
    ensures
        all_passed(checks_of(x)) <==> (x.indexed_units > 0 && contains_text(
            x.full_report@,
            "full details"@,
        )),
{
    let c = checks_of(x);
    assert(c[0].1 == (x.indexed_units > 0));
    assert(c[3].1 == contains_text(x.full_report@, "full details"@));
}

/// A full report has its details.
#[verifier::rlimit(80)]
pub proof fn law_full_report_has_details(s: Status)
    requires
        s.full is Some,
    ensures
        contains_text(status_text(s), "full details"@),
{
    let f = s.full->0;
    let whole = status_text(s);
    let part = full_part(f);
    let n = whole.len() - part.len();
    assert(whole.subrange(n as int, whole.len() as int) == part);
    reveal_strlit("\nfull details\n\n  graph:\n    nodes:           ");
    reveal_strlit("full details");
    let first = "\nfull details\n\n  graph:\n    nodes:           "@;
    lemma_full_part_start(f);
    assert(part.subrange(0, first.len() as int) == first);
    assert(whole.subrange(n + 1, n + 13) == part.subrange(1, 13));
    assert(part.subrange(1, 13) == first.subrange(1, 13));
    assert(first.subrange(1, 13) == "full details"@);
    assert(occurs_at(whole, "full details"@, n + 1));
}

/// A full report ends with the queries that found too little, and the document on a full report
/// lists them, where there are any.
pub proof fn law_full_report_tells_gaps(s: Status)
    requires
        s.full is Some,
        s.full->0.query_gaps@.len() > 0,
    ensures
        ({
            let gaps = s.full->0.query_gaps@;
            let whole = status_text(s);
            let part = "\n  query gaps:\n"@ + written_out(gaps, tool_line(20));
            &&& part.len() <= whole.len()
            &&& whole.skip(whole.len() - part.len()) == part
            &&& full_view(s.full->0)->Object_0.last() == ("query_gaps"@, tool_pairs(gaps))
        }),
{
    let f = s.full->0;
    let whole = status_text(s);
    let part = gap_part(f.query_gaps@);
    let full = full_part(f);
    assert(full.skip(full.len() - part.len()) == part);
    assert(whole.skip(whole.len() - full.len()) == full);
    assert(whole.skip(whole.len() - part.len()) == full.skip(full.len() - part.len()));
}

/// The doctor tells of the queries that found too little, where a record of them is kept.
pub proof fn law_doctor_tells_gaps(x: Examination)
    requires
        x.query_gaps is Some,
    ensures
        checks_of(x)[4] == (
            "query_gap_telemetry"@,
            true,
            "query_gaps_logged="@ + decimal_of(x.query_gaps->0 as nat),
        ),
{
}

/// The full part begins with its title.
proof fn lemma_full_part_start(f: FullStatus)
    ensures
        full_part(f).len() >= "\nfull details\n\n  graph:\n    nodes:           "@.len(),
        full_part(f).subrange(
            0,
            "\nfull details\n\n  graph:\n    nodes:           "@.len() as int,
        ) == "\nfull details\n\n  graph:\n    nodes:           "@,
{
}

/// A survival below two fifths is critical, one below four fifths is to be watched, and any other
/// healthy; the rate is given by the bits of a single-precision number.
pub proof fn law_tier_is_told_by_the_rate(bits: u32)
    requires
        bits <= 0x7f80_0000,
    ensures
        bits < 0x3ecc_cccd ==> tier_of(bits) == ("⚠"@, "critical"@),
        0x3ecc_cccd <= bits < 0x3f4c_cccd ==> tier_of(bits) == ("!"@, "watch"@),
        0x3f4c_cccd <= bits ==> tier_of(bits) == ("✓"@, "healthy"@),
{
}

/// The report begins with the place and size of the store and how much it holds of each kind.
pub proof fn law_status_tells_every_count(s: Status)
    ensures
        ("cortex status\n\n  db:               "@ + s.db@ + "\n  db size:          "@ + (
        match s.db_bytes {
            Some(b) => bytes_text(b as nat),
            None => "unknown"@,
        }) + "\n  indexed units:    "@ + signed_decimal_of(s.indexed_units as int)
            + "\n  patterns:         "@ + decimal_of(s.patterns as nat)
            + "\n  anti-patterns:    "@ + decimal_of(s.anti_patterns as nat)
            + "\n  annotations:      "@ + decimal_of(s.annotations as nat)
            + "\n  pending review:   "@ + decimal_of(s.observations as nat)
            + "\n"@).is_prefix_of(status_text(s)),
{
    let head = "cortex status\n\n  db:               "@ + s.db@ + "\n  db size:          "@ + (
    match s.db_bytes {
        Some(b) => bytes_text(b as nat),
        None => "unknown"@,
    }) + "\n  indexed units:    "@ + signed_decimal_of(s.indexed_units as int)
        + "\n  patterns:         "@ + decimal_of(s.patterns as nat) + "\n  anti-patterns:    "@
        + decimal_of(s.anti_patterns as nat) + "\n  annotations:      "@ + decimal_of(
        s.annotations as nat,
    ) + "\n  pending review:   "@ + decimal_of(s.observations as nat) + "\n"@;
    let all = status_text(s);
    assert(all.take(head.len() as int) =~= head);
}

/// The report tells of every tool on record how often it was called, and that observations wait
/// where they do.
pub proof fn law_status_tells_tools_and_what_waits(s: Status, i: int)
    ensures
        0 <= i < s.hot@.len() ==> contains_text(
            status_text(s),
            " "@ + signed_decimal_of(s.hot@[i].1 as int) + "x\n"@,
        ) && contains_text(status_text(s), s.hot@[i].0@),
        s.observations > 0 ==> contains_text(
            status_text(s),
            decimal_of(s.observations as nat) + " observation(s) waiting — run `cortex review`\n"@,
        ),
{
    let head = "cortex status\n\n  db:               "@ + s.db@ + "\n  db size:          "@ + (
    match s.db_bytes {
        Some(b) => bytes_text(b as nat),
        None => "unknown"@,
    }) + "\n  indexed units:    "@ + signed_decimal_of(s.indexed_units as int)
        + "\n  patterns:         "@ + decimal_of(s.patterns as nat) + "\n  anti-patterns:    "@
        + decimal_of(s.anti_patterns as nat) + "\n  annotations:      "@ + decimal_of(
        s.annotations as nat,
    ) + "\n  pending review:   "@ + decimal_of(s.observations as nat) + "\n"@;
    let cached = match s.cache {
        Some(c) => head + cache_part(c),
        None => head,
    };
    let title = "\n  most-called tools:\n"@;
    let listed = written_out(s.hot@, tool_line(25));
    let tools = if s.hot@.len() == 0 {
        cached
    } else {
        cached + title + listed
    };
    let note = "\n  "@ + decimal_of(s.observations as nat)
        + " observation(s) waiting — run `cortex review`\n"@;
    let waiting = if s.observations == 0 {
        tools
    } else {
        tools + note
    };
    assert(s.observations > 0 ==> tools + "\n  "@ + decimal_of(s.observations as nat)
        + " observation(s) waiting — run `cortex review`\n"@ =~= tools + note);
    let all = status_text(s);
    assert(all == match s.full {
        Some(f) => waiting + full_part(f),
        None => waiting,
    });
    if 0 <= i < s.hot@.len() {
        let t = s.hot@[i];
        let line = tool_line(25)(t);
        lemma_written_out_holds(s.hot@, tool_line(25), i);
        lemma_contains_half(cached + title, listed, line);
        lemma_contains_half(tools, note, line);
        if s.full is Some {
            lemma_contains_half(waiting, full_part(s.full->0), line);
        }
        let name = pad_right_of(t.0@, 25);
        let count = " "@ + signed_decimal_of(t.1 as int) + "x\n"@;
        assert(line =~= "    "@ + name + count);
        lemma_contains_middle("    "@, name, count);
        lemma_contains_itself(count);
        lemma_contains_half("    "@ + name, count, count);
        lemma_padded_holds(t.0@, 25);
        lemma_contains_through(line, name, t.0@);
        lemma_contains_through(all, line, count);
        lemma_contains_through(all, line, t.0@);
    }
    if s.observations > 0 {
        let part = decimal_of(s.observations as nat)
            + " observation(s) waiting — run `cortex review`\n"@;
        assert(note =~= "\n  "@ + part);
        lemma_contains_itself(part);
        lemma_contains_half("\n  "@, part, part);
        lemma_contains_half(tools, note, part);
        if s.full is Some {
            lemma_contains_half(waiting, full_part(s.full->0), part);
        }
    }
}

/// A padded text holds the text.
proof fn lemma_padded_holds(s: Text, width: int)
    ensures
        contains_text(pad_right_of(s, width), s),
    decreases width - s.len(),
{
    if s.len() < width {
        lemma_padded_holds(s.push(' '), width);
        assert(s.push(' ') =~= s + seq![' ']);
        lemma_contains_itself(s);
        lemma_contains_half(s, seq![' '], s);
        lemma_contains_through(pad_right_of(s, width), s.push(' '), s);
    } else {
        lemma_contains_itself(s);
    }
}

/// The report on the health of patterns tells of each its name, its survival and its tier, and warns
/// where some are below two fifths, with how many.
pub proof fn law_health_tells_every_pattern(health: Seq<HealthRow>, i: int)
    requires
        0 <= i < health.len(),
    ensures
        contains_text(
            health_part(health),
            "    "@ + tier_of(health[i].survival_rate.bits).0 + " "@ + health[i].name@ + " ("@
                + health[i].survival_rate.percent@ + "%) ["@ + tier_of(
                health[i].survival_rate.bits,
            ).1 + "]\n"@,
        ),
        ({
            let low = kept(
                health,
                |h: HealthRow| rate_is_below(h.survival_rate.bits, 0x3ecc_cccd),
            ).len();
            low > 0 ==> contains_text(
                health_part(health),
                decimal_of(low) + " pattern(s) below 40% survival"@,
            )
        }),
{
    let cond = |h: HealthRow| rate_is_below(h.survival_rate.bits, 0x3ecc_cccd);
    lemma_kept_agree(health, is_critical(), cond);
    let low = kept(health, cond).len();
    let title = "\n  pattern health:\n"@;
    let listed = written_out(health, health_line());
    let line = health_line()(health[i]);
    lemma_written_out_holds(health, health_line(), i);
    lemma_contains_half(title, listed, line);
    let words =
        " pattern(s) below 40% survival — run `cortex pattern health` and revise risky patterns.\n"@;
    lemma_contains_half(title + listed, "\n  "@, line);
    lemma_contains_half(title + listed + "\n  "@, decimal_of(low), line);
    lemma_contains_half(title + listed + "\n  "@ + decimal_of(low), words, line);
    if low > 0 {
        reveal_strlit(
            " pattern(s) below 40% survival — run `cortex pattern health` and revise risky patterns.\n",
        );
        reveal_strlit(" pattern(s) below 40% survival");
        let short = " pattern(s) below 40% survival"@;
        assert(words.take(short.len() as int) =~= short);
        let rest = words.skip(short.len() as int);
        assert(words =~= short + rest);
        let front = title + listed + "\n  "@;
        assert(health_part(health) =~= front + (decimal_of(low) + short) + rest);
        lemma_contains_middle(front, decimal_of(low) + short, rest);
    }
}

/// The status as JSON tells every count under its name.
pub proof fn law_status_json_tells_every_count(s: Status)
    ensures
        ({
            let fields = status_view(s)->Object_0;
            &&& fields.contains(("db"@, JsonView::Text(s.db@)))
            &&& fields.contains(("indexed_units"@, integer_view(s.indexed_units as int)))
            &&& fields.contains(("patterns"@, JsonView::Unsigned(s.patterns as nat)))
            &&& fields.contains(("anti_patterns"@, JsonView::Unsigned(s.anti_patterns as nat)))
            &&& fields.contains(("annotations"@, JsonView::Unsigned(s.annotations as nat)))
            &&& fields.contains(("pending_review"@, JsonView::Unsigned(s.observations as nat)))
            &&& s.db_bytes matches Some(b) ==> fields.contains(
                ("db_bytes"@, JsonView::Unsigned(b as nat)),
            )
        }),
{
    let fields = status_view(s)->Object_0;
    assert(fields[0].0 == "db"@ && fields[1].0 == "db_bytes"@ && fields[2].0 == "indexed_units"@
        && fields[3].0 == "patterns"@ && fields[4].0 == "anti_patterns"@ && fields[5].0
        == "annotations"@ && fields[6].0 == "pending_review"@);
}

/// A size below a kilobyte is told in bytes, one below a megabyte in kilobytes, and any other in
/// megabytes.
pub proof fn law_size_is_told_by_its_unit(b: nat)
    ensures
        b < 1024 ==> bytes_text(b) == decimal_of(b) + "B"@,
        1024 <= b < 1024 * 1024 ==> "KB"@.is_suffix_of(bytes_text(b)),
        1024 * 1024 <= b ==> "MB"@.is_suffix_of(bytes_text(b)),
{
    let all = bytes_text(b);
    reveal_strlit("KB");
    reveal_strlit("MB");
    if 1024 <= b < 1024 * 1024 {
        assert(all.skip(all.len() - 2) =~= "KB"@);
    }
    if 1024 * 1024 <= b {
        assert(all.skip(all.len() - 2) =~= "MB"@);
    }
}

/// The report of the doctor tells every check, by name and detail, with a tick where it passed and a
/// cross where it did not.
pub proof fn law_doctor_tells_every_check(checks: Seq<DoctorCheck>, i: int)
    requires
        0 <= i < checks.len(),
    ensures
        contains_text(
            written_out(checks, check_line()),
            "  "@ + (if checks[i].pass {
                "✓"@
            } else {
                "✗"@
            }) + " "@ + pad_right_of(checks[i].step@, 22) + " "@ + checks[i].detail@ + "\n"@,
        ),
{
    lemma_written_out_holds(checks, check_line(), i);
}

/// Whole numbers below two to the power of fifty-three are double-precision numbers themselves;
/// around a larger one of 64 bits the step is so large that just fifty-three bits are left.
pub proof fn law_step_leaves_fifty_three_bits(n: nat)
    requires
        n < 0x1_0000_0000_0000_0000,
    ensures
        n < 0x20_0000_0000_0000 ==> float_step(n) == 1 && nearest_float(n) == n,
        n >= 0x20_0000_0000_0000 ==> 0x10_0000_0000_0000 * float_step(n) <= n < 0x20_0000_0000_0000
            * float_step(n),
{
    if n < 0x20_0000_0000_0000 {
        assert(n / 1 == n && n % 1 == 0) by (nonlinear_arith);
        assert(rounded(n, 1) == n);
        assert(n * 1 == n);
    }
}

/// Kilobytes are told with one decimal and megabytes with two; no other number of so many decimals
/// is nearer to the size.
pub proof fn law_size_is_told_to_the_nearest(b: nat)
    ensures
        1024 <= b < 1048576 ==> exists|t: nat|
            2 * (t * 1024) <= 2 * (b * 10) + 1024 && 2 * (b * 10) <= 2 * (t * 1024) + 1024
                && bytes_text(b) == #[trigger] decimal_of(t / 10) + "."@ + decimal_of(t % 10)
                + "KB"@,
        1048576 <= b < 0x20_0000_0000_0000 ==> exists|t: nat|
            2 * (t * 1048576) <= 2 * (b * 100) + 1048576 && 2 * (b * 100) <= 2 * (t * 1048576)
                + 1048576 && bytes_text(b) == #[trigger] decimal_of(t / 100) + "."@ + (if t % 100
                < 10 {
                seq!['0'] + decimal_of(t % 100)
            } else {
                decimal_of(t % 100)
            }) + "MB"@,
{
    if 1024 <= b < 1048576 {
        let t = rounded(b * 10, 1024);
        crate::numbers::law_rounding_goes_to_the_nearest(b * 10, 1024);
        assert(bytes_text(b) == decimal_of(t / 10) + "."@ + decimal_of(t % 10) + "KB"@);
    }
    if 1048576 <= b < 0x20_0000_0000_0000 {
        law_step_leaves_fifty_three_bits(b);
        let t = rounded(b * 100, 1048576);
        crate::numbers::law_rounding_goes_to_the_nearest(b * 100, 1048576);
        let d = decimal_of(t % 100);
        if t % 100 < 10 {
            assert(d.len() == 1);
            assert(zero_fill(seq!['0'] + d, 2) == seq!['0'] + d);
            assert(zero_fill(d, 2) == seq!['0'] + d);
        } else {
            assert(decimal_of((t % 100) / 10).len() == 1);
            assert(d.len() == 2);
        }
        assert(bytes_text(b) == decimal_of(t / 100) + "."@ + zero_fill(d, 2) + "MB"@);
    }
}

} // verus!
