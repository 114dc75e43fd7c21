use cortex::clock::DAY;
use cortex::compressor::{
    build_summary_api, compress_api_graph, compress_dir, compress_items, compress_source,
    derive_module, first_line, in_scope, merge_units, run_index, term_counts, tokenise, ty_str,
    SourceFile,
};
use cortex::floats::Float;
use cortex::hash::{simple_hash, text_hash};
use cortex::json::{list_of_text, list_text, parse_json, Json};
use cortex::model::{ApiField, ApiGraphItem, ApiMethod, ApiVariant};
use cortex::numbers::{count_text, decimal, decimal_wide, filled_decimal, hex, signed_decimal};
use cortex::order::{before, insert_text};
use cortex::rates::{rate_below, rate_lower, Ratio, FOUR_TENTHS};
use cortex::source::{source_items, SourceItem, SourceMember};
use cortex::text::{
    blank, bytes_in, clipped, contains, ends_with, eq_ignore_ascii_case, find_part, first_word,
    join, lines, pad_right, replace, split_char, split_tags, starts_with, trim, trim_start, words,
};

const FILE: &str = "
/// A player.
///
/// More.
pub struct Player {
    /// Where.
    pub at: std::vec::Vec<f32>,
    secret: u8,
}

struct Hidden;

/// What to do.
pub enum Action {
    /// Leave the ground.
    Jump,
    Move { by: i32 },
    Say(String),
}

impl Player {
    pub fn step(&mut self) {}
    fn inner(&self) {}
    pub fn stop(&self) {}
}

pub fn run(speed: u8) -> bool { true }

pub mod inside {
    pub struct Box2;
}
mod elsewhere;
";

#[test]
fn source_becomes_dense_units() {
    let units = compress_source(FILE, "game");
    let ids: Vec<&str> = units.iter().map(|u| u.id.as_str()).collect();
    assert_eq!(ids, ["game::Player", "game::Action", "game::run", "game::inside::Box2"]);
    assert_eq!(
        units[0].compressed,
        "[struct: Player]\n// A player.\nfields: at: std::vec::Vec <f32>\nmethods: step | stop\n"
    );
    assert!(units[1].compressed.contains("Action::Jump // Leave the ground."));
    assert!(units[1].compressed.contains("Action::Move"));
    assert_eq!(units[2].summary, "fn `run`");
    assert!(units[2].compressed.contains("sig: fn run (speed : u8) -> bool"));
}

#[test]
fn text_that_is_no_source_has_no_units() {
    assert!(compress_source("pub struct {", "m").is_empty());
    assert!(source_items("fn (").is_none());
}

#[test]
fn items_are_read_part_by_part() {
    let items = source_items(FILE).unwrap();
    assert_eq!(items.len(), 7);
    match &items[3] {
        SourceItem::Impl { target, members } => {
            assert_eq!(target.as_deref(), Some("Player"));
            assert_eq!(members.len(), 3);
            assert!(matches!(&members[1], SourceMember::Method { public: false, name } if name == "inner"));
        }
        _ => panic!("no impl"),
    }
    assert!(matches!(&items[6], SourceItem::ModuleFile { name } if name == "elsewhere"));
    let again = compress_items(&items, "game");
    assert_eq!(again.len(), compress_source(FILE, "game").len());
}

#[test]
fn plain_items_become_units() {
    let items = vec![
        SourceItem::Function {
            public: true,
            name: "f".into(),
            attrs: vec![],
            signature: "fn f ()".into(),
        },
        SourceItem::Function { public: false, name: "g".into(), attrs: vec![], signature: "fn g ()".into() },
        SourceItem::Other { inner: vec![] },
    ];
    let units = compress_items(&items, "");
    assert_eq!(units.len(), 1);
    assert_eq!(units[0].id, "f");
    assert_eq!(units[0].compressed, "[fn: f]\nsig: fn f ()\n");
}

#[test]
fn items_inside_expressions_are_visited() {
    let ids = |text: &str| -> Vec<String> {
        compress_source(text, "m").into_iter().map(|u| u.id).collect()
    };
    let text = "pub struct Foo; const _: () = { pub struct Deep; impl Foo { pub fn bar() {} } };";
    let units = compress_source(text, "m");
    assert_eq!(ids(text), ["m::Foo", "m::Deep"]);
    assert!(units[0].compressed.contains("methods: bar"));
    assert_eq!(ids("pub trait T { fn f() { pub enum Inner { A } } }"), ["m::Inner"]);
    assert_eq!(ids("static N: u8 = { pub fn g() {} 0 };"), ["m::g"]);
    // The parts of a public struct or enum are walked, those of a private one are not.
    let length = "{ pub struct Len; 1 }";
    assert_eq!(ids(&format!("pub struct S {{ a: [u8; {length}] }}")), ["m::S", "m::Len"]);
    assert!(ids(&format!("struct S {{ a: [u8; {length}] }}")).is_empty());
    assert_eq!(ids(&format!("pub enum E {{ A = {length} }}")), ["m::E", "m::Len"]);
    // Nor are the bodies of functions and methods.
    assert_eq!(ids("pub fn f() { pub struct Local; }"), ["m::f"]);
    assert!(ids("impl S { fn f() { pub struct Local; } }").is_empty());
}

#[test]
fn a_directory_is_compressed_file_by_file() {
    let file = |parts: &[&str], text: &str| SourceFile {
        parts: parts.iter().map(|s| s.to_string()).collect(),
        text: text.to_string(),
    };
    let files = vec![
        file(&["lib"], "pub struct A;"),
        file(&["deep", "mod"], "pub struct B;"),
        file(&["bad"], "pub struct"),
    ];
    let ids = |scope: Option<&str>| -> Vec<String> {
        compress_dir(&files, scope).into_iter().map(|u| u.id).collect()
    };
    assert_eq!(ids(None), ["A", "deep::B"]);
    assert_eq!(ids(Some("synful")), ["synful::A", "synful::deep::B"]);
    assert!(in_scope(vec![], Some("s")).is_empty());
}

fn api(name: &str) -> ApiGraphItem {
    ApiGraphItem {
        kind: "struct".into(),
        name: name.into(),
        module: vec!["a".into(), "b".into()],
        doc: " First line. \nSecond.".into(),
        signature: " struct X ".into(),
        fields: vec![ApiField { name: "f".into(), ty: "u8".into(), doc: "".into() }],
        variants: vec![ApiVariant { name: "V".into(), doc: "".into(), fields: vec![] }],
        methods: vec![ApiMethod { signature: "pub fn go()".into(), doc: "".into() }],
        traits_impl: vec!["Clone".into()],
    }
}

#[test]
fn an_api_graph_takes_precedence() {
    let graph = compress_api_graph(&vec![api("X")]);
    assert_eq!(graph[0].id, "a::b::X");
    assert!(graph[0].compressed.starts_with("[struct: X (a::b)]\n// First line.\nsig: struct X\n"));
    assert!(!build_summary_api(&api("X")).is_empty());
    let mut same = compress_source("pub struct X;", "a::b");
    same.extend(compress_source("pub struct Y;", "a::b"));
    let merged = merge_units(&same, graph);
    let ids: Vec<&str> = merged.iter().map(|u| u.id.as_str()).collect();
    assert_eq!(ids, ["a::b::Y", "a::b::X"]);
    assert!(merged[1].compressed.contains("First line."));
}

#[test]
fn an_item_of_the_api_graph_is_indexed_once() {
    let text = "pub enum Action { Go }\npub struct Other;".to_string();
    let files = vec![SourceFile { parts: vec!["lib".into()], text }];
    let mut item = api("Action");
    item.module = vec![];
    for scope in [None, Some("synful")] {
        let units = run_index(&files, scope, Some(&vec![item.clone()]));
        let found: Vec<_> = units.iter().filter(|u| u.name == "Action").collect();
        assert_eq!(found.len(), 1);
        assert_eq!(found[0].kind, "struct");
        assert!(units.iter().any(|u| u.name == "Other"));
        assert_eq!(run_index(&files, scope, None).len(), 2);
    }
    // The same name in another module is another item.
    assert_eq!(run_index(&files, None, Some(&vec![api("Action")])).len(), 3);
}

#[test]
fn small_helpers_of_the_compressor() {
    assert_eq!(first_line("a\nb"), "a");
    assert_eq!(ty_str("std :: vec :: Vec < u8 >"), "std::vec::Vec <u8>");
    assert_eq!(derive_module(&vec!["a".into(), "mod".into(), "b".into()]), "a::b");
    assert_eq!(derive_module(&vec!["main".into()]), "");
    let tokens = tokenise("The Player jumps, the PLAYER lands");
    assert!(tokens.iter().filter(|t| t.as_str() == "player").count() == 2);
    let counts = term_counts("alpha beta alpha");
    assert!(counts.contains(&("alpha".to_string(), 2)));
    assert!(counts.contains(&("beta".to_string(), 1)));
}

#[test]
fn texts_are_cut_and_joined() {
    assert_eq!(trim("\t ä \u{3000}"), "ä");
    assert_eq!(trim_start("  a "), "a ");
    assert!(blank(" \n\u{a0}"));
    assert!(contains("abc", "bc") && starts_with("abc", "ab") && ends_with("abc", "bc"));
    assert_eq!(replace("aaa", "aa", "b"), "ba");
    assert_eq!(lines("a\r\nb\n\nc"), "a\r\nb\n\nc".lines().collect::<Vec<_>>());
    assert_eq!(split_char("a,,b", ','), ["a", "", "b"]);
    assert_eq!(split_tags(" a, b,, "), ["a", "b"]);
    assert_eq!(first_word("  git  status"), "git");
    assert_eq!(join(&vec!["a".into(), "b".into()], "::"), "a::b");
    assert_eq!(clipped("äöü", 2), "äö");
    assert_eq!(pad_right("ab", 4), "ab  ");
    assert_eq!(words("a_b c-d"), ["a_b", "c", "d"]);
    assert_eq!(bytes_in("aä"), 3);
    assert!(eq_ignore_ascii_case("AbÄ", "aBÄ"));
    let chars: Vec<char> = "abcabc".chars().collect();
    assert_eq!(find_part(&chars, &"ca".chars().collect(), 0), Some(2));
}

#[test]
fn numbers_are_written_as_usual() {
    for n in [0u64, 9, 10, 255, 1_000_000, u64::MAX] {
        assert_eq!(decimal(n), format!("{n}"));
        assert_eq!(hex(n), format!("{n:x}"));
    }
    assert_eq!(decimal_wide(u128::MAX), format!("{}", u128::MAX));
    assert_eq!(count_text(42), "42");
    for n in [i64::MIN, -1, 0, 7, i64::MAX] {
        assert_eq!(signed_decimal(n), format!("{n}"));
        assert_eq!(filled_decimal(n, 3), format!("{n:03}"));
    }
}

#[test]
fn hashes_are_those_of_the_function() {
    assert_eq!(simple_hash(b""), 0xcbf29ce484222325);
    assert_eq!(simple_hash(b"a"), 0xaf63dc4c8601ec8c);
    assert_eq!(text_hash("foobar"), "85944171f73967e8");
}

#[test]
fn json_is_read_and_written() {
    let v = parse_json("{\"a\": [1, -2, 1.5, \"x\", null, true], \"a\": {\"b\": 3}}").unwrap();
    assert_eq!(v.get("a").unwrap().u64_at("b"), Some(3));
    match parse_json("[1, -2, 1.5, \"x\", null, true]").unwrap() {
        Json::List(l) => {
            assert!(matches!(l[0], Json::Unsigned(1)));
            assert!(matches!(l[1], Json::Negative(-2)));
            assert!(matches!(&l[2], Json::Float(s) if s == "1.5"));
            assert!(matches!(&l[3], Json::Text(s) if s == "x"));
            assert!(matches!(l[4], Json::Null));
            assert!(matches!(l[5], Json::Bool(true)));
        }
        _ => panic!("no list"),
    }
    assert!(parse_json("{").is_none());
    let list = vec!["a\"b".to_string(), "ü".to_string()];
    assert_eq!(list_text(&list), "[\"a\\\"b\",\"ü\"]");
    assert_eq!(list_of_text(&list_text(&list)), list);
    assert!(list_of_text("{}").is_empty());
}

#[test]
fn texts_have_an_order() {
    assert!(before("a", "b") && before("a", "aa") && before("Z", "a"));
    assert!(!before("a", "a"));
    let mut set: Vec<String> = vec![];
    for s in ["b", "a", "c", "a"] {
        insert_text(&mut set, s);
    }
    assert_eq!(set, ["a", "b", "c"]);
}

#[test]
fn quotients_are_rounded_as_numbers_are() {
    let worth = |f: Float| f.mant as f64 * 2f64.powi(-f.exp);
    let mut seed: u64 = 1;
    for i in 0..4000u32 {
        seed = seed.wrapping_mul(6364136223846793005).wrapping_add(1442695040888963407);
        let a = seed >> (i % 64);
        seed = seed.wrapping_mul(6364136223846793005).wrapping_add(1442695040888963407);
        let b = (seed >> (i / 64 % 64)).max(1);
        let r = Ratio::new(a, b);
        let single = a as f32 / b as f32;
        assert_eq!(worth(r.to_single()), single as f64, "{a} / {b}");
        assert_eq!(worth(r.to_wide_single()), (a as f64 / b as f64) as f32 as f64, "{a} / {b}");
        assert_eq!(r.percent_text(), format!("{:.0}", single * 100.0), "{a} / {b}");
    }
}

#[test]
fn rates_compare_as_numbers_do() {
    for x in [-1.0f32, -0.0, 0.0, 0.39, 0.4, 0.41, 1.0, f32::NAN, f32::INFINITY, f32::NEG_INFINITY] {
        assert_eq!(rate_below(x.to_bits(), FOUR_TENTHS), x < 0.4, "{x}");
    }
    for x in [-1.0f32, -0.0, 0.0, 0.5, 2.0] {
        for y in [-1.0f32, -0.0, 0.0, 0.5, 2.0] {
            assert_eq!(rate_lower(x.to_bits(), y.to_bits()), x < y);
        }
    }
    let r = Ratio::new(1, 8);
    assert_eq!(r.percent_text(), format!("{:.0}", 12.5));
    assert_eq!(Ratio::new(3, 8).percent_text(), format!("{:.0}", 37.5));
    assert_eq!(Ratio::new(3, 2).percent_text(), "150");
    assert!(r.at_least(1, 8) && !r.at_least(1, 7));
    assert_eq!(DAY, "%Y-%m-%d");
}
