use cortex::output_filter::{
    collapse_blank_runs, compact, detect_command, filter_by_kind, filter_cargo_build,
    filter_cargo_clippy, filter_cargo_test, filter_generic, filter_git_status, filter_output,
    is_cargo_progress, is_passing_test_line, note_tee, stamped_stem, tee_stem, CommandKind,
};

#[test]
fn detect_maps_commands() {
    assert_eq!(detect_command("cargo test --manifest-path x"), CommandKind::CargoTest);
    assert_eq!(detect_command("cargo build"), CommandKind::CargoBuild);
    assert_eq!(detect_command("cargo check -q"), CommandKind::CargoBuild);
    assert_eq!(detect_command("cargo clippy -- -D warnings"), CommandKind::CargoClippy);
    assert_eq!(detect_command("git status"), CommandKind::GitStatus);
    assert_eq!(detect_command("ls -la"), CommandKind::Generic);
}

#[test]
fn cargo_build_keeps_every_diagnostic_line_verbatim() {
    let raw = "\
   Compiling foo v0.1.0
   Compiling bar v0.2.0
warning: unused variable: `x`
 --> src/lib.rs:10:9
  |
10|     let x = 5;
  |         ^ help: prefix with underscore: `_x`
error[E0308]: mismatched types
 --> src/lib.rs:20:5
  |
20|     return 1;
  |            ^ expected `String`, found integer
   Compiling baz v0.3.0
    Finished dev profile";
    let (text, dropped) = filter_cargo_build(raw);
    for needle in [
        "warning: unused variable: `x`",
        "--> src/lib.rs:10:9",
        "help: prefix with underscore: `_x`",
        "error[E0308]: mismatched types",
        "--> src/lib.rs:20:5",
        "expected `String`, found integer",
        "Finished dev profile",
    ] {
        assert!(text.contains(needle), "lost diagnostic line: {needle}\n---\n{text}");
    }
    assert!(!text.contains("Compiling foo"));
    assert!(!text.contains("Compiling bar"));
    assert!(dropped >= 3, "expected >=3 progress lines dropped, got {dropped}");
}

#[test]
fn cargo_test_all_pass_collapses_to_summary() {
    let raw = "\
   Compiling foo v0.1.0
running 3 tests
test tests::a ... ok
test tests::b ... ok
test tests::c ... ok

test result: ok. 3 passed; 0 failed; 0 ignored; 0 measured; 0 filtered out";
    let (text, dropped) = filter_cargo_test(raw);
    assert!(text.contains("test result: ok. 3 passed"), "summary must be kept:\n{text}");
    assert!(!text.contains("tests::a ... ok"), "per-test ok lines must be dropped");
    assert_eq!(dropped, 4, "3 ok lines + 1 Compiling");
}

#[test]
fn cargo_test_keeps_all_failure_detail() {
    let raw = "\
   Compiling foo v0.1.0
running 2 tests
test tests::passes ... ok
test tests::breaks ... FAILED

failures:

---- tests::breaks stdout ----
thread 'tests::breaks' panicked at src/lib.rs:42:5:
assertion `left == right` failed
  left: 1
 right: 2

failures:
    tests::breaks

test result: FAILED. 1 passed; 1 failed; 0 ignored";
    let (text, _dropped) = filter_cargo_test(raw);
    for needle in [
        "tests::breaks ... FAILED",
        "---- tests::breaks stdout ----",
        "panicked at src/lib.rs:42:5",
        "assertion `left == right` failed",
        "left: 1",
        "right: 2",
        "test result: FAILED. 1 passed; 1 failed",
    ] {
        assert!(text.contains(needle), "lost failure detail: {needle}\n---\n{text}");
    }
    assert!(!text.contains("tests::passes ... ok"));
}

#[test]
fn clippy_keeps_lint_location() {
    let raw = "\
    Checking foo v0.1.0
warning: this `if` has identical blocks
 --> src/main.rs:5:5
warning: unused import: `std::io`
 --> src/main.rs:1:5
    Finished";
    let (text, _d) = filter_cargo_clippy(raw);
    assert!(text.contains("src/main.rs:5:5"));
    assert!(text.contains("src/main.rs:1:5"));
    assert!(text.contains("unused import: `std::io`"));
    assert!(!text.contains("Checking foo"));
}

#[test]
fn git_status_keeps_paths_drops_hints() {
    let raw = "\
On branch main
Changes not staged for commit:
  (use \"git add <file>...\" to update what will be committed)
  (use \"git restore <file>...\" to discard changes in working directory)
\tmodified:   src/foo.rs
\tmodified:   src/bar.rs
Untracked files:
  (use \"git add <file>...\" to include in what will be committed)
\tbaz.rs";
    let (text, dropped) = filter_git_status(raw);
    assert!(text.contains("modified:   src/foo.rs"));
    assert!(text.contains("modified:   src/bar.rs"));
    assert!(text.contains("baz.rs"));
    assert!(text.contains("On branch main"));
    assert!(!text.contains("(use \"git add"));
    assert_eq!(dropped, 3);
}

#[test]
fn generic_dedup_is_lossless_with_count() {
    let raw = "warn: retrying\nwarn: retrying\nwarn: retrying\ndone";
    let (text, dropped) = filter_generic(raw);
    assert!(text.contains("warn: retrying  (×3)"));
    assert!(text.contains("done"));
    assert_eq!(dropped, 2);
}

#[test]
fn size_floor_returns_input_untouched() {
    let raw = "   Compiling foo v0.1.0\n    Finished";
    let out = filter_output(CommandKind::CargoBuild, raw, None);
    assert_eq!(out.text, raw, "below floor => untouched");
    assert_eq!(out.dropped_lines, 0);
    assert!(out.lossless);
}

#[test]
fn filter_output_reports_savings_and_stays_lossless() {
    let mut raw = String::from("   Compiling foo v0.1.0\nrunning 200 tests\n");
    for i in 0..200 {
        raw.push_str(&format!("test suite::case_{i:03} ... ok\n"));
    }
    raw.push_str("\ntest result: ok. 200 passed; 0 failed; 0 ignored");
    let out = filter_output(CommandKind::CargoTest, &raw, None);
    assert!(out.lossless);
    assert!(out.filtered_chars < out.original_chars / 4, "expected big savings");
    assert!(out.text.contains("test result: ok. 200 passed"));
    assert!(out.dropped_lines >= 200);
}

#[test]
fn progress_and_passing_lines_are_told_apart() {
    assert!(is_cargo_progress("   Compiling foo v0.1.0"));
    assert!(!is_cargo_progress("error: could not compile `foo`"));
    assert!(is_passing_test_line("test a::b ... ok"));
    assert!(!is_passing_test_line("test a::b ... FAILED"));
}

#[test]
fn blank_runs_collapse_to_one() {
    let lines: Vec<String> = ["a", "", "", "", "b", "", "c"].iter().map(|s| s.to_string()).collect();
    let (kept, dropped) = collapse_blank_runs(lines);
    assert_eq!(kept, vec!["a", "", "b", "", "c"]);
    assert_eq!(dropped, 2);
}

#[test]
fn a_log_without_noise_stays_as_it_is() {
    let raw = "error: broken\n --> src/lib.rs:1:1\nnote: see above";
    assert_eq!(filter_by_kind(CommandKind::CargoBuild, raw), (raw.to_string(), 0));
    assert_eq!(filter_by_kind(CommandKind::Generic, raw), (raw.to_string(), 0));
}

#[test]
fn a_failure_report_keeps_lines_that_look_like_noise() {
    let raw = "running 1 test\nfailures:\n\n---- a stdout ----\ntest inner ... ok\n   Compiling x v1\n\ntest result: FAILED. 0 passed; 1 failed\ntest late ... ok";
    let (text, dropped) = filter_cargo_test(raw);
    assert!(text.contains("test inner ... ok"));
    assert!(text.contains("   Compiling x v1"));
    assert!(!text.contains("test late ... ok"));
    assert_eq!(dropped, 1);
}

#[test]
fn generic_runs_of_distinct_lines_are_untouched() {
    let raw = "a\nb\na\nb";
    assert_eq!(filter_generic(raw), (raw.to_string(), 0));
}

#[test]
fn a_kept_log_is_named_in_the_output() {
    let mut raw = String::new();
    for i in 0..120 {
        raw.push_str(&format!("test suite::case_{i:03} ... ok\n"));
    }
    let plain = compact(CommandKind::CargoTest, &raw);
    assert!(plain.tee_path.is_none());
    let noted = note_tee(plain, "logs/run.log");
    assert_eq!(noted.tee_path.as_deref(), Some("logs/run.log"));
    let whole = filter_output(CommandKind::CargoTest, &raw, Some("logs/run.log"));
    assert_eq!(whole.text, noted.text);
    assert!(whole.text.contains("logs/run.log"));
}

#[test]
fn log_stems_carry_time_and_hash() {
    // The hash of no bytes is the offset of the function.
    assert_eq!(stamped_stem("", "20240101-000000"), "20240101-000000-cbf29ce484222325");
    assert_eq!(
        tee_stem("a", 1_700_000_000).as_deref(),
        Some("20231114-221320-af63dc4c8601ec8c")
    );
    assert_eq!(tee_stem("a", i64::MAX), None);
}
