//! Lossless compaction of command output.
//!
//! A line is dropped only where a rule knows it as noise: progress chatter of cargo, lines of
//! passing tests, usage hints of git, a blank line behind a blank line. Everything else stays,
//! word for word and in order. For any other command a run of equal lines becomes one line with
//! a count.

use crate::clock::{utc_text, utc_text_of, LOG_STAMP};
use crate::hash::{fnv1a_of, simple_hash};
use crate::numbers::{count_text, decimal_of, fill_zeros, hex, hex_of, zero_fill};
use crate::text::{
    blank, chars_of, contains, contains_text, ends_with, first_word, first_word_of, is_blank, join,
    join_of, law_indent_is_trimmed, lemma_join_holds, lines, lines_of, same, starts_with, trim,
    trim_of, trim_start, trim_start_of, views, Text,
};
use vstd::prelude::*;

verus! {

/// The kinds of command whose output is told apart.
#[derive(Debug, Clone, Copy, PartialEq, Eq, Structural)]
pub enum CommandKind {
    CargoTest,
    CargoBuild,
    CargoClippy,
    GitStatus,
    Generic,
}

/// What became of a command's output.
#[derive(Debug, Clone)]
pub struct FilteredOutput {
    pub text: String,
    pub original_chars: usize,
    pub filtered_chars: usize,
    pub dropped_lines: usize,
    /// Where the full output was kept, if it was.
    pub tee_path: Option<String>,
    /// Always true: nothing but known noise is dropped.
    pub lossless: bool,
}

/// Output shorter than this is left alone.
pub const MIN_FILTER_CHARS: usize = 800;

/// The kind of the command `cmd`: the verbs that occur anywhere in it decide.
pub open spec fn command_kind(cmd: Text) -> CommandKind {
    let c = trim_start_of(cmd);
    if contains_text(c, "cargo"@) && contains_text(c, "clippy"@) {
        CommandKind::CargoClippy
    } else if contains_text(c, "cargo"@) && contains_text(c, "test"@) {
        CommandKind::CargoTest
    } else if contains_text(c, "cargo"@) && (contains_text(c, "build"@) || contains_text(
        c,
        "check"@,
    )) {
        CommandKind::CargoBuild
    } else if contains_text(c, "git"@) && contains_text(c, "status"@) {
        CommandKind::GitStatus
    } else {
        CommandKind::Generic
    }
}

/// The verbs with which cargo reports progress. `Finished` is none of them.
pub open spec fn is_progress_verb(w: Text) -> bool {
    ||| w == "Compiling"@
    ||| w == "Checking"@
    ||| w == "Downloading"@
    ||| w == "Downloaded"@
    ||| w == "Updating"@
    ||| w == "Blocking"@
    ||| w == "Locking"@
    ||| w == "Installing"@
    ||| w == "Fresh"@
    ||| w == "Building"@
    ||| w == "Waiting"@
    ||| w == "Packaging"@
    ||| w == "Verifying"@
    ||| w == "Adding"@
    ||| w == "Removing"@
    ||| w == "Ignored"@
}

/// A line with which cargo reports progress.
pub open spec fn is_progress_line(line: Text) -> bool {
    is_progress_verb(first_word_of(line))
}

/// A line that reports one passing test.
pub open spec fn is_passing_line(line: Text) -> bool {
    let t = trim_start_of(line);
    "test "@.is_prefix_of(t) && " ... ok"@.is_suffix_of(t)
}

/// A line in which git explains how to go on.
pub open spec fn is_hint_line(line: Text) -> bool {
    "(use "@.is_prefix_of(trim_start_of(line))
}

/// The lines that are noise in the output of a command of kind `kind`.
pub open spec fn is_noise(kind: CommandKind, line: Text) -> bool {
    match kind {
        CommandKind::CargoTest => is_progress_line(line) || is_passing_line(line),
        CommandKind::CargoBuild => is_progress_line(line),
        CommandKind::CargoClippy => is_progress_line(line),
        CommandKind::GitStatus => is_hint_line(line),
        CommandKind::Generic => false,
    }
}

/// A line that opens the part of a test report in which failures and captured output stand.
pub open spec fn opens_report(line: Text) -> bool {
    let t = trim_of(line);
    ||| t == "failures:"@
    ||| "---- "@.is_prefix_of(t) && " ----"@.is_suffix_of(t)
}

/// A line that closes that part: the summary of a test run.
pub open spec fn closes_report(line: Text) -> bool {
    "test result:"@.is_prefix_of(trim_of(line))
}

/// Behind `lines` the report of failures and captured output goes on.
pub open spec fn in_report(lines: Seq<Text>) -> bool
    decreases lines.len(),
{
    lines.len() > 0 && (opens_report(lines.last()) || !closes_report(lines.last()) && in_report(
        lines.drop_last(),
    ))
}

/// The line `line` is dropped where it stands behind `before`.
pub open spec fn is_dropped(kind: CommandKind, before: Seq<Text>, line: Text) -> bool {
    is_noise(kind, line) && !(kind == CommandKind::CargoTest && in_report(before))
}

/// `lines` without the noise. What a test run reports of failures and captured output is no noise,
/// whatever it looks like.
pub open spec fn without_noise(kind: CommandKind, lines: Seq<Text>) -> Seq<Text>
    decreases lines.len(),
{
    if lines.len() == 0 {
        Seq::empty()
    } else if is_dropped(kind, lines.drop_last(), lines.last()) {
        without_noise(kind, lines.drop_last())
    } else {
        without_noise(kind, lines.drop_last()).push(lines.last())
    }
}

/// `lines` without each blank line that stands behind a blank line.
pub open spec fn collapse_blanks(lines: Seq<Text>) -> Seq<Text>
    decreases lines.len(),
{
    if lines.len() == 0 {
        Seq::empty()
    } else {
        let start = collapse_blanks(lines.drop_last());
        if is_blank(lines.last()) && lines.len() > 1 && is_blank(lines[lines.len() - 2]) {
            start
        } else {
            start.push(lines.last())
        }
    }
}

/// The lines that remain of the lines of a command's output.
pub open spec fn compact_lines(kind: CommandKind, lines: Seq<Text>) -> Seq<Text> {
    collapse_blanks(without_noise(kind, lines))
}

/// How many lines at the start of `lines` equal the first one.
pub open spec fn run_length(lines: Seq<Text>) -> nat
    decreases lines.len(),
{
    if lines.len() == 0 {
        0
    } else if lines.len() > 1 && lines[1] == lines[0] {
        1 + run_length(lines.drop_first())
    } else {
        1
    }
}

/// The runs of equal lines in `lines`, each with its length.
pub open spec fn runs_of(lines: Seq<Text>) -> Seq<(Text, nat)>
    decreases lines.len(),
{
    if lines.len() == 0 {
        Seq::empty()
    } else {
        let n = run_length(lines);
        if 0 < n <= lines.len() {
            seq![(lines[0], n)] + runs_of(lines.skip(n as int))
        } else {
            Seq::empty()
        }
    }
}

/// The lines of which `runs` are the runs.
pub open spec fn expand_runs(runs: Seq<(Text, nat)>) -> Seq<Text>
    decreases runs.len(),
{
    if runs.len() == 0 {
        Seq::empty()
    } else {
        Seq::new(runs.first().1, |i: int| runs.first().0) + expand_runs(runs.drop_first())
    }
}

/// The one line that stands for a run.
pub open spec fn run_line(run: (Text, nat)) -> Text {
    if run.1 > 1 {
        run.0 + "  (×"@ + decimal_of(run.1) + ")"@
    } else {
        run.0
    }
}

/// The lines that stand for `runs`.
pub open spec fn run_lines(runs: Seq<(Text, nat)>) -> Seq<Text> {
    runs.map_values(|r: (Text, nat)| run_line(r))
}

/// The lines that remain of `raw`.
pub open spec fn remaining_lines(kind: CommandKind, raw: Text) -> Seq<Text> {
    match kind {
        CommandKind::Generic => run_lines(runs_of(lines_of(raw))),
        _ => compact_lines(kind, lines_of(raw)),
    }
}

/// The compacted text of `raw`.
pub open spec fn compact_text(kind: CommandKind, raw: Text) -> Text {
    join_of(remaining_lines(kind, raw), "\n"@)
}

/// Classifies a command.
pub fn detect_command(cmd: &str) -> (k: CommandKind)
    ensures
        k == command_kind(cmd@),
{
    let c = trim_start(cmd);
    let c = c.as_str();
    if contains(c, "cargo") && contains(c, "clippy") {
        CommandKind::CargoClippy
    } else if contains(c, "cargo") && contains(c, "test") {
        CommandKind::CargoTest
    } else if contains(c, "cargo") && (contains(c, "build") || contains(c, "check")) {
        CommandKind::CargoBuild
    } else if contains(c, "git") && contains(c, "status") {
        CommandKind::GitStatus
    } else {
        CommandKind::Generic
    }
}

/// Whether cargo reports progress in `line`.
pub fn is_cargo_progress(line: &str) -> (r: bool)
    ensures
        r == is_progress_line(line@),
{
    let first = first_word(line);
    let w = first.as_str();
    same(w, "Compiling") || same(w, "Checking") || same(w, "Downloading") || same(w, "Downloaded")
        || same(w, "Updating") || same(w, "Blocking") || same(w, "Locking") || same(
        w,
        "Installing",
    ) || same(w, "Fresh") || same(w, "Building") || same(w, "Waiting") || same(w, "Packaging")
        || same(w, "Verifying") || same(w, "Adding") || same(w, "Removing") || same(w, "Ignored")
}

/// Whether `line` reports one passing test.
pub fn is_passing_test_line(line: &str) -> (r: bool)
    ensures
        r == is_passing_line(line@),
{
    let t = trim_start(line);
    starts_with(t.as_str(), "test ") && ends_with(t.as_str(), " ... ok")
}

/// Whether `line` is noise in the output of a command of kind `kind`.
fn noise(kind: CommandKind, line: &str) -> (r: bool)
    ensures
        r == is_noise(kind, line@),
{
    match kind {
        CommandKind::CargoTest => is_cargo_progress(line) || is_passing_test_line(line),
        CommandKind::CargoBuild => is_cargo_progress(line),
        CommandKind::CargoClippy => is_cargo_progress(line),
        CommandKind::GitStatus => starts_with(trim_start(line).as_str(), "(use "),
        CommandKind::Generic => false,
    }
}

/// Drops each blank line that stands behind a blank line, and counts what was dropped.
pub fn collapse_blank_runs(lines: Vec<String>) -> (r: (Vec<String>, usize))
    ensures
        views(r.0@) == collapse_blanks(views(lines@)),
        r.1 == lines@.len() - r.0@.len(),
{
    let mut out: Vec<String> = Vec::new();
    let mut dropped: usize = 0;
    let mut prev_blank = false;
    let mut i: usize = 0;
    let ghost all = views(lines@);
    assert(views(out@) == collapse_blanks(all.take(0)));
    while i < lines.len()
        invariant
            i <= lines@.len() == all.len(),
            all == views(lines@),
            prev_blank == (i > 0 && is_blank(all[i - 1])),
            views(out@) == collapse_blanks(all.take(i as int)),
            dropped + out@.len() == i,
        decreases lines@.len() - i,
    {
        let ghost before = out@;
        assert(all.take(i + 1).drop_last() == all.take(i as int));
        let is_empty = blank(lines[i].as_str());
        if is_empty && prev_blank {
            dropped = dropped + 1;
        } else {
            prev_blank = is_empty;
            out.push(lines[i].clone());
            assert(views(out@) == views(before).push(all[i as int]));
        }
        i = i + 1;
    }
    assert(all.take(i as int) == all);
    (out, dropped)
}

/// Whether `line` opens the report of failures and captured output.
fn report_opens(line: &str) -> (r: bool)
    ensures
        r == opens_report(line@),
{
    let t = trim(line);
    same(t.as_str(), "failures:") || (starts_with(t.as_str(), "---- ") && ends_with(
        t.as_str(),
        " ----",
    ))
}

/// Whether `line` closes that report.
fn report_closes(line: &str) -> (r: bool)
    ensures
        r == closes_report(line@),
{
    starts_with(trim(line).as_str(), "test result:")
}

/// The lines of `raw` that remain under the rules of `kind`, and how many were dropped.
fn filter_lines(kind: CommandKind, raw: &str) -> (r: (String, usize))
    requires
        kind != CommandKind::Generic,
    ensures
        r.0@ == compact_text(kind, raw@),
        r.1 == lines_of(raw@).len() - remaining_lines(kind, raw@).len(),
{
    let all = lines(raw);
    let mut kept: Vec<String> = Vec::new();
    let mut i: usize = 0;
    let mut report = false;
    let ghost seen = views(all@);
    assert(views(kept@) == without_noise(kind, seen.take(0)));
    while i < all.len()
        invariant
            i <= all@.len() == seen.len(),
            seen == views(all@),
            views(kept@) == without_noise(kind, seen.take(i as int)),
            report == in_report(seen.take(i as int)),
            kept@.len() <= i,
        decreases all@.len() - i,
    {
        let ghost before = kept@;
        assert(seen.take(i + 1).drop_last() == seen.take(i as int));
        let line = all[i].as_str();
        if !noise(kind, line) || (kind == CommandKind::CargoTest && report) {
            kept.push(all[i].clone());
            assert(views(kept@) == views(before).push(seen[i as int]));
        }
        report = report_opens(line) || (!report_closes(line) && report);
        i = i + 1;
    }
    assert(seen.take(i as int) == seen);
    let n = kept.len();
    let (out, blanks) = collapse_blank_runs(kept);
    assert(views(out@).len() == out@.len());
    (join(&out, "\n"), (all.len() - n) + blanks)
}

/// Output of `cargo build` or `cargo check` without progress lines.
pub fn filter_cargo_build(raw: &str) -> (r: (String, usize))
    ensures
        r.0@ == compact_text(CommandKind::CargoBuild, raw@),
        r.1 == lines_of(raw@).len() - remaining_lines(CommandKind::CargoBuild, raw@).len(),
{
    filter_lines(CommandKind::CargoBuild, raw)
}

/// Output of `cargo clippy` without progress lines.
pub fn filter_cargo_clippy(raw: &str) -> (r: (String, usize))
    ensures
        r.0@ == compact_text(CommandKind::CargoClippy, raw@),
        r.1 == lines_of(raw@).len() - remaining_lines(CommandKind::CargoClippy, raw@).len(),
{
    filter_lines(CommandKind::CargoClippy, raw)
}

/// Output of `cargo test` without progress lines and lines of passing tests.
pub fn filter_cargo_test(raw: &str) -> (r: (String, usize))
    ensures
        r.0@ == compact_text(CommandKind::CargoTest, raw@),
        r.1 == lines_of(raw@).len() - remaining_lines(CommandKind::CargoTest, raw@).len(),
{
    filter_lines(CommandKind::CargoTest, raw)
}

/// Output of `git status` without its usage hints.
pub fn filter_git_status(raw: &str) -> (r: (String, usize))
    ensures
        r.0@ == compact_text(CommandKind::GitStatus, raw@),
        r.1 == lines_of(raw@).len() - remaining_lines(CommandKind::GitStatus, raw@).len(),
{
    filter_lines(CommandKind::GitStatus, raw)
}

/// A run is not empty and lies within the lines.
pub proof fn lemma_run_length(lines: Seq<Text>)
    requires
        lines.len() > 0,
    ensures
        1 <= run_length(lines) <= lines.len(),
        forall|i: int| 0 <= i < run_length(lines) ==> #[trigger] lines[i] == lines[0],
        run_length(lines) < lines.len() ==> lines[run_length(lines) as int] != lines[0],
    decreases lines.len(),
{
    if lines.len() > 1 && lines[1] == lines[0] {
        let rest = lines.drop_first();
        lemma_run_length(rest);
        assert forall|i: int| 0 <= i < run_length(lines) implies #[trigger] lines[i]
            == lines[0] by {
            if i > 0 {
                assert(lines[i] == rest[i - 1]);
            }
        }
        if run_length(lines) < lines.len() {
            assert(lines[run_length(lines) as int] == rest[run_length(rest) as int]);
        }
    }
}

/// A number of equal lines that the next line ends is the length of the run.
proof fn lemma_run_length_is(lines: Seq<Text>, n: nat)
    requires
        1 <= n <= lines.len(),
        forall|i: int| 0 <= i < n ==> #[trigger] lines[i] == lines[0],
        n < lines.len() ==> lines[n as int] != lines[0],
    ensures
        run_length(lines) == n,
{
    lemma_run_length(lines);
    let m = run_length(lines);
    if m < n {
        assert(lines[m as int] == lines[0]);
    }
    if n < m {
        assert(lines[n as int] == lines[0]);
    }
}

/// Output of any other command, with each run of equal lines made one line with a count.
pub fn filter_generic(raw: &str) -> (r: (String, usize))
    ensures
        r.0@ == compact_text(CommandKind::Generic, raw@),
        r.1 == lines_of(raw@).len() - remaining_lines(CommandKind::Generic, raw@).len(),
{
    let all = lines(raw);
    let ghost seen = views(all@);
    let mut out: Vec<String> = Vec::new();
    let mut dropped: usize = 0;
    let mut i: usize = 0;
    assert(seen.skip(0) == seen);
    assert(views(out@) + run_lines(runs_of(seen)) == run_lines(runs_of(seen)));
    while i < all.len()
        invariant
            i <= all@.len() == seen.len(),
            seen == views(all@),
            run_lines(runs_of(seen)) == views(out@) + run_lines(runs_of(seen.skip(i as int))),
            dropped + out@.len() == i,
        decreases all@.len() - i,
    {
        let ghost rest = seen.skip(i as int);
        let ghost before = out@;
        let mut run: usize = 1;
        while run < all.len() - i && same(all[i + run].as_str(), all[i].as_str())
            invariant
                1 <= run,
                i + run <= all@.len() == seen.len(),
                seen == views(all@),
                rest == seen.skip(i as int),
                forall|k: int| 0 <= k < run ==> #[trigger] rest[k] == rest[0],
            decreases all@.len() - i - run,
        {
            assert(rest[run as int] == all@[i + run]@);
            assert(rest[0] == all@[i as int]@);
            run = run + 1;
        }
        proof {
            assert(rest[0] == all@[i as int]@);
            if i + run < all@.len() {
                assert(rest[run as int] == all@[i + run]@);
            }
            lemma_run_length_is(rest, run as nat);
            assert(rest.skip(run as int) == seen.skip(i + run));
        }
        let ghost line = run_line((rest[0], run as nat));
        if run > 1 {
            let mut s = all[i].clone();
            s.append("  (×");
            s.append(count_text(run).as_str());
            s.append(")");
            assert(s@ == line);
            out.push(s);
            dropped = dropped + (run - 1);
        } else {
            out.push(all[i].clone());
        }
        assert(views(out@) == views(before).push(line));
        assert(run_lines(runs_of(rest)) == seq![line] + run_lines(runs_of(seen.skip(i + run)))) by {
            assert(runs_of(rest) == seq![(rest[0], run as nat)] + runs_of(seen.skip(i + run)));
        }
        assert(views(before) + (seq![line] + run_lines(runs_of(seen.skip(i + run)))) == views(out@)
            + run_lines(runs_of(seen.skip(i + run))));
        i = i + run;
    }
    assert(seen.skip(i as int).len() == 0);
    assert(run_lines(runs_of(seen.skip(i as int))) == Seq::<Text>::empty());
    assert(views(out@) + Seq::<Text>::empty() == views(out@));
    assert(views(out@).len() == out@.len());
    (join(&out, "\n"), dropped)
}

/// The compacted text of `raw`, and how many lines were dropped.
pub fn filter_by_kind(kind: CommandKind, raw: &str) -> (r: (String, usize))
    ensures
        r.0@ == compact_text(kind, raw@),
        r.1 == lines_of(raw@).len() - remaining_lines(kind, raw@).len(),
{
    match kind {
        CommandKind::CargoTest => filter_cargo_test(raw),
        CommandKind::CargoBuild => filter_cargo_build(raw),
        CommandKind::CargoClippy => filter_cargo_clippy(raw),
        CommandKind::GitStatus => filter_git_status(raw),
        CommandKind::Generic => filter_generic(raw),
    }
}

/// The name of a raw log: a time stamp and the hash of the bytes of the log.
pub open spec fn log_name(stamp: Text, raw: Text) -> Text {
    stamp + "-"@ + zero_fill(hex_of(fnv1a_of(vstd::utf8::encode_utf8(raw)) as nat), 16)
}

/// The name of the log that keeps `raw`, for the time stamp `stamp`.
pub fn stamped_stem(raw: &str, stamp: &str) -> (r: String)
    ensures
        r@ == log_name(stamp@, raw@),
{
    let h = simple_hash(raw.as_bytes());
    let mut s = stamp.to_owned();
    s.append("-");
    s.append(fill_zeros(hex(h).as_str(), 16).as_str());
    s
}

/// The name of the log that keeps `raw`, written at the second `now` after the Unix epoch;
/// nothing where no calendar date belongs to that second.
pub fn tee_stem(raw: &str, now: i64) -> (r: Option<String>)
    ensures
        match r {
            Some(s) => utc_text_of(now, LOG_STAMP@) is Some && s@ == log_name(
                utc_text_of(now, LOG_STAMP@)->0,
                raw@,
            ),
            None => utc_text_of(now, LOG_STAMP@) is None,
        },
{
    match utc_text(now, LOG_STAMP) {
        Some(stamp) => Some(stamped_stem(raw, stamp.as_str())),
        None => None,
    }
}

/// The compacted text before any note on where the full output is kept.
pub open spec fn filtered_text(kind: CommandKind, raw: Text) -> Text {
    if raw.len() < MIN_FILTER_CHARS {
        raw
    } else {
        compact_text(kind, raw)
    }
}

/// How many lines of `raw` are dropped.
pub open spec fn dropped_count(kind: CommandKind, raw: Text) -> int {
    if raw.len() < MIN_FILTER_CHARS {
        0
    } else {
        lines_of(raw).len() - remaining_lines(kind, raw).len()
    }
}

/// The note behind a compacted text.
pub open spec fn tee_note(dropped: nat, path: Text) -> Text {
    "\n[compacted: "@ + decimal_of(dropped)
        + " redundant line(s) removed losslessly \u{2014} full log: "@ + path + "]"@
}

/// Compacts `raw` and says nothing of where the full output is kept.
pub fn compact(kind: CommandKind, raw: &str) -> (out: FilteredOutput)
    ensures
        out.text@ == filtered_text(kind, raw@),
        out.original_chars == raw@.len(),
        out.filtered_chars == out.text@.len(),
        out.dropped_lines == dropped_count(kind, raw@),
        out.tee_path is None,
        out.lossless,
{
    let original_chars = chars_of(raw).len();
    if original_chars < MIN_FILTER_CHARS {
        return FilteredOutput {
            text: raw.to_owned(),
            original_chars,
            filtered_chars: original_chars,
            dropped_lines: 0,
            tee_path: None,
            lossless: true,
        };
    }
    let (text, dropped_lines) = filter_by_kind(kind, raw);
    let filtered_chars = chars_of(text.as_str()).len();
    FilteredOutput {
        text,
        original_chars,
        filtered_chars,
        dropped_lines,
        tee_path: None,
        lossless: true,
    }
}

/// Notes in `out` that the full output is kept at `path`.
pub fn note_tee(out: FilteredOutput, path: &str) -> (r: FilteredOutput)
    ensures
        r.text@ == out.text@ + tee_note(out.dropped_lines as nat, path@),
        r.original_chars == out.original_chars,
        r.filtered_chars == r.text@.len(),
        r.dropped_lines == out.dropped_lines,
        r.tee_path is Some && r.tee_path->0@ == path@,
        r.lossless == out.lossless,
{
    let mut note = "\n[compacted: ".to_owned();
    note.append(count_text(out.dropped_lines).as_str());
    note.append(" redundant line(s) removed losslessly \u{2014} full log: ");
    note.append(path);
    note.append("]");
    let mut text = out.text;
    text.append(note.as_str());
    let filtered_chars = chars_of(text.as_str()).len();
    FilteredOutput {
        text,
        original_chars: out.original_chars,
        filtered_chars,
        dropped_lines: out.dropped_lines,
        tee_path: Some(path.to_owned()),
        lossless: out.lossless,
    }
}

/// Compacts `raw`. `kept_at` is where the full output is kept, if it is; a note says so where
/// lines were dropped.
pub fn filter_output(kind: CommandKind, raw: &str, kept_at: Option<&str>) -> (out: FilteredOutput)
    ensures
        out.dropped_lines == dropped_count(kind, raw@),
        out.original_chars == raw@.len(),
        out.filtered_chars == out.text@.len(),
        out.lossless,
        match kept_at {
            Some(path) if dropped_count(kind, raw@) > 0 => {
                &&& out.text@ == filtered_text(kind, raw@) + tee_note(
                    dropped_count(kind, raw@) as nat,
                    path@,
                )
                &&& out.tee_path is Some
                &&& out.tee_path->0@ == path@
            },
            _ => out.text@ == filtered_text(kind, raw@) && out.tee_path is None,
        },
{
    let out = compact(kind, raw);
    match kept_at {
        Some(path) => if out.dropped_lines > 0 {
            note_tee(out, path)
        } else {
            out
        },
        None => out,
    }
}

/// The lines that are not blank.
pub open spec fn written(lines: Seq<Text>) -> Seq<Text>
    decreases lines.len(),
{
    if lines.len() == 0 {
        Seq::empty()
    } else if is_blank(lines.last()) {
        written(lines.drop_last())
    } else {
        written(lines.drop_last()).push(lines.last())
    }
}

/// Collapsing blank lines keeps every line that is not blank, in order.
proof fn lemma_collapse_keeps_written(lines: Seq<Text>)
    ensures
        written(collapse_blanks(lines)) == written(lines),
    decreases lines.len(),
{
    if lines.len() > 0 {
        lemma_collapse_keeps_written(lines.drop_last());
        let start = collapse_blanks(lines.drop_last());
        assert(start.push(lines.last()).drop_last() == start);
    }
}

/// Nothing but noise is dropped: the lines that are not blank and no noise stay, word for word and
/// in order, and no other line comes in.
pub proof fn law_only_noise_is_dropped(kind: CommandKind, raw: Text)
    requires
        kind != CommandKind::Generic,
    ensures
        written(remaining_lines(kind, raw)) == written(without_noise(kind, lines_of(raw))),
{
    lemma_collapse_keeps_written(without_noise(kind, lines_of(raw)));
}

/// What is dropped leaves: where no line is dropped as noise, all lines stay.
pub proof fn law_no_noise_nothing_dropped(kind: CommandKind, lines: Seq<Text>)
    requires
        forall|i: int|
            0 <= i < lines.len() ==> !is_dropped(kind, lines.take(i), #[trigger] lines[i]),
    ensures
        without_noise(kind, lines) == lines,
    decreases lines.len(),
{
    if lines.len() > 0 {
        let start = lines.drop_last();
        assert forall|i: int| 0 <= i < start.len() implies !is_dropped(
            kind,
            start.take(i),
            #[trigger] start[i],
        ) by {
            assert(start.take(i) == lines.take(i));
            assert(start[i] == lines[i]);
        }
        law_no_noise_nothing_dropped(kind, start);
        assert(lines.take(lines.len() - 1) == start);
        assert(lines[lines.len() - 1] == lines.last());
        assert(start.push(lines.last()) == lines);
    }
}

/// No line of the report of failures and captured output is dropped as noise.
pub proof fn law_report_stays(before: Seq<Text>, line: Text)
    requires
        in_report(before),
    ensures
        without_noise(CommandKind::CargoTest, before.push(line)) == without_noise(
            CommandKind::CargoTest,
            before,
        ).push(line),
{
    assert(before.push(line).drop_last() == before);
}

/// The first word of a line is empty or begins with the first character behind its indentation.
proof fn lemma_first_word_start(line: Text)
    ensures
        first_word_of(line).len() > 0 ==> trim_start_of(line).len() > 0 && first_word_of(line)[0]
            == trim_start_of(line)[0],
{
}

/// A line is no noise, for whatever command, unless it begins, behind its indentation, with a
/// bracket, with the `t` of a test or with the capital of one of cargo's progress verbs.
proof fn lemma_noise_start(kind: CommandKind, line: Text)
    requires
        is_noise(kind, line),
    ensures
        ({
            let t = trim_start_of(line);
            &&& t.len() > 0
            &&& t[0] == '(' || is_passing_line(line) || 'A' <= t[0] <= 'Z'
        }),
        first_word_of(line) != "Finished"@,
{
    reveal_strlit("Finished");
    reveal_strlit("(use ");
    reveal_strlit("test ");
    reveal_strlit("Compiling");
    reveal_strlit("Checking");
    reveal_strlit("Downloading");
    reveal_strlit("Downloaded");
    reveal_strlit("Updating");
    reveal_strlit("Blocking");
    reveal_strlit("Locking");
    reveal_strlit("Installing");
    reveal_strlit("Fresh");
    reveal_strlit("Building");
    reveal_strlit("Waiting");
    reveal_strlit("Packaging");
    reveal_strlit("Verifying");
    reveal_strlit("Adding");
    reveal_strlit("Removing");
    reveal_strlit("Ignored");
    lemma_first_word_start(line);
    let t = trim_start_of(line);
    assert("Finished"@.len() == 8 && "Finished"@[0] == 'F');
    assert(is_progress_verb(first_word_of(line)) ==> first_word_of(line)[0] != 'F' || first_word_of(
        line,
    ).len() == 5);
    if "(use "@.is_prefix_of(t) {
        assert(t[0] == "(use "@[0]);
    }
    if "test "@.is_prefix_of(t) {
        assert(t[0] == "test "@[0]);
    }
}

/// The lines with which compilers and tests begin a diagnostic, a failure or a verdict.
pub open spec fn is_diagnostic(line: Text) -> bool {
    let t = trim_start_of(line);
    ||| "error"@.is_prefix_of(t)
    ||| "warning"@.is_prefix_of(t)
    ||| "note"@.is_prefix_of(t)
    ||| "help"@.is_prefix_of(t)
    ||| "-->"@.is_prefix_of(t)
    ||| "thread "@.is_prefix_of(t)
    ||| "failures:"@.is_prefix_of(t)
    ||| "---- "@.is_prefix_of(t)
    ||| "test "@.is_prefix_of(t) && "FAILED"@.is_suffix_of(t)
    ||| first_word_of(line) == "Finished"@
}

/// A diagnostic is never noise, whatever the command.
pub proof fn law_diagnostics_are_no_noise(kind: CommandKind, line: Text)
    requires
        is_diagnostic(line),
    ensures
        !is_noise(kind, line),
{
    let t = trim_start_of(line);
    reveal_strlit("error");
    reveal_strlit("warning");
    reveal_strlit("note");
    reveal_strlit("help");
    reveal_strlit("-->");
    reveal_strlit("thread ");
    reveal_strlit("failures:");
    reveal_strlit("---- ");
    reveal_strlit("test ");
    reveal_strlit("FAILED");
    reveal_strlit(" ... ok");
    reveal_strlit("Finished");
    lemma_first_word_start(line);
    if is_noise(kind, line) {
        lemma_noise_start(kind, line);
        assert("error"@.is_prefix_of(t) ==> t[0] == "error"@[0]);
        assert("warning"@.is_prefix_of(t) ==> t[0] == "warning"@[0]);
        assert("note"@.is_prefix_of(t) ==> t[0] == "note"@[0]);
        assert("help"@.is_prefix_of(t) ==> t[0] == "help"@[0]);
        assert("-->"@.is_prefix_of(t) ==> t[0] == "-->"@[0]);
        assert("thread "@.is_prefix_of(t) ==> t[0] == "thread "@[0]);
        assert("failures:"@.is_prefix_of(t) ==> t[0] == "failures:"@[0]);
        assert("---- "@.is_prefix_of(t) ==> t[0] == "---- "@[0]);
        assert("test "@.is_prefix_of(t) ==> t[0] == "test "@[0]);
        if "test "@.is_prefix_of(t) {
            assert(t[1] == "test "@[1]);
            if "thread "@.is_prefix_of(t) {
                assert(t[1] == "thread "@[1]);
            }
        }
        if "FAILED"@.is_suffix_of(t) {
            assert(t[t.len() - 1] == "FAILED"@[5]);
            if " ... ok"@.is_suffix_of(t) {
                assert(t[t.len() - 1] == " ... ok"@[6]);
            }
        }
    }
}

/// No blank line stands behind a blank line.
pub open spec fn blanks_apart(lines: Seq<Text>) -> bool {
    forall|i: int| 0 < i < lines.len() && is_blank(#[trigger] lines[i]) ==> !is_blank(lines[i - 1])
}

/// Behind a compaction no blank line stands behind a blank line.
pub proof fn law_blanks_apart(lines: Seq<Text>)
    ensures
        blanks_apart(collapse_blanks(lines)),
        lines.len() > 0 ==> collapse_blanks(lines).len() > 0 && is_blank(
            collapse_blanks(lines).last(),
        ) == is_blank(lines.last()),
    decreases lines.len(),
{
    if lines.len() > 0 {
        law_blanks_apart(lines.drop_last());
    }
}

/// The runs hold what the lines hold: writing each run out gives the lines back.
pub proof fn law_runs_restore_lines(lines: Seq<Text>)
    ensures
        expand_runs(runs_of(lines)) == lines,
    decreases lines.len(),
{
    if lines.len() > 0 {
        lemma_run_length(lines);
        let n = run_length(lines);
        let rest = lines.skip(n as int);
        law_runs_restore_lines(rest);
        let runs = runs_of(lines);
        assert(runs.first() == (lines[0], n));
        assert(runs.drop_first() == runs_of(rest));
        assert(Seq::new(n, |i: int| lines[0]) + rest == lines);
    }
}

/// Lines among which no two neighbours are equal pass through the generic rules untouched.
pub proof fn law_unique_lines_untouched(lines: Seq<Text>)
    requires
        forall|i: int| 0 < i < lines.len() ==> #[trigger] lines[i] != lines[i - 1],
    ensures
        run_lines(runs_of(lines)) == lines,
    decreases lines.len(),
{
    if lines.len() > 0 {
        lemma_run_length(lines);
        if lines.len() > 1 {
            assert(lines[1] != lines[1 - 1]);
        }
        assert(run_length(lines) == 1);
        let rest = lines.skip(1);
        assert forall|i: int| 0 < i < rest.len() implies #[trigger] rest[i] != rest[i - 1] by {
            assert(lines[i + 1] != lines[i + 1 - 1]);
        }
        law_unique_lines_untouched(rest);
        assert(runs_of(lines) == seq![(lines[0], 1nat)] + runs_of(rest));
        assert(run_lines(runs_of(lines)) == seq![lines[0]] + run_lines(runs_of(rest)));
        assert(seq![lines[0]] + rest == lines);
    }
}

/// A line that is no noise, or stands in a report of failures, is kept where it stands.
proof fn lemma_line_stays(kind: CommandKind, lines: Seq<Text>, i: int)
    requires
        0 <= i < lines.len(),
        !is_dropped(kind, lines.take(i), lines[i]),
    ensures
        without_noise(kind, lines).contains(lines[i]),
    decreases lines.len(),
{
    let start = lines.drop_last();
    let all = without_noise(kind, lines);
    let before = without_noise(kind, start);
    if i < lines.len() - 1 {
        assert(start.take(i) == lines.take(i));
        lemma_line_stays(kind, start, i);
        let k = choose|k: int| 0 <= k < before.len() && before[k] == lines[i];
        assert(all[k] == lines[i]);
    } else {
        assert(lines.take(i) == start);
        assert(all[all.len() - 1] == lines[i]);
    }
}

/// A line that is not blank is not collapsed.
proof fn lemma_written_stays(lines: Seq<Text>, i: int)
    requires
        0 <= i < lines.len(),
        !is_blank(lines[i]),
    ensures
        collapse_blanks(lines).contains(lines[i]),
    decreases lines.len(),
{
    let start = lines.drop_last();
    let all = collapse_blanks(lines);
    let before = collapse_blanks(start);
    if i < lines.len() - 1 {
        lemma_written_stays(start, i);
        let k = choose|k: int| 0 <= k < before.len() && before[k] == lines[i];
        assert(all[k] == lines[i]);
    } else {
        assert(all[all.len() - 1] == lines[i]);
    }
}

/// A line that is not blank and not dropped as noise is among those that remain, and stands in the
/// compacted text word for word.
proof fn lemma_line_remains(kind: CommandKind, raw: Text, i: int)
    requires
        kind != CommandKind::Generic,
        0 <= i < lines_of(raw).len(),
        !is_blank(lines_of(raw)[i]),
        !is_dropped(kind, lines_of(raw).take(i), lines_of(raw)[i]),
    ensures
        remaining_lines(kind, raw).contains(lines_of(raw)[i]),
        contains_text(compact_text(kind, raw), lines_of(raw)[i]),
{
    let line = lines_of(raw)[i];
    let kept = without_noise(kind, lines_of(raw));
    lemma_line_stays(kind, lines_of(raw), i);
    let k = choose|k: int| 0 <= k < kept.len() && kept[k] == line;
    lemma_written_stays(kept, k);
    let left = remaining_lines(kind, raw);
    let j = choose|j: int| 0 <= j < left.len() && left[j] == line;
    lemma_join_holds(left, "\n"@, j);
}

/// A line of cargo's output stays, word for word, unless its first word is one of the verbs of
/// progress or the line tells of a test that passed.
pub proof fn law_only_progress_of_cargo_is_dropped(kind: CommandKind, raw: Text, i: int)
    requires
        kind == CommandKind::CargoBuild || kind == CommandKind::CargoClippy || kind
            == CommandKind::CargoTest,
        0 <= i < lines_of(raw).len(),
        !is_blank(lines_of(raw)[i]),
        ({
            let w = first_word_of(lines_of(raw)[i]);
            w != "Compiling"@
                && w != "Checking"@
                && w != "Downloading"@
                && w != "Downloaded"@
                && w != "Updating"@
                && w != "Blocking"@
                && w != "Locking"@
                && w != "Installing"@
                && w != "Fresh"@
                && w != "Building"@
                && w != "Waiting"@
                && w != "Packaging"@
                && w != "Verifying"@
                && w != "Adding"@
                && w != "Removing"@
                && w != "Ignored"@
        }),
        kind == CommandKind::CargoTest ==> !("test "@.is_prefix_of(
            trim_start_of(lines_of(raw)[i]),
        ) && " ... ok"@.is_suffix_of(trim_start_of(lines_of(raw)[i]))),
    ensures
        remaining_lines(kind, raw).contains(lines_of(raw)[i]),
        contains_text(compact_text(kind, raw), lines_of(raw)[i]),
{
    lemma_line_remains(kind, raw, i);
}

/// What cargo reports of its progress is dropped: a line whose first word is one of its verbs
/// changes nothing, outside the report of failures of a test run.
pub proof fn law_progress_of_cargo_is_dropped(kind: CommandKind, lines: Seq<Text>, line: Text)
    requires
        kind == CommandKind::CargoBuild || kind == CommandKind::CargoClippy || kind
            == CommandKind::CargoTest,
        kind == CommandKind::CargoTest ==> !in_report(lines),
        ({
            let w = first_word_of(line);
            w == "Compiling"@
                || w == "Checking"@
                || w == "Downloading"@
                || w == "Downloaded"@
                || w == "Updating"@
                || w == "Blocking"@
                || w == "Locking"@
                || w == "Installing"@
                || w == "Fresh"@
                || w == "Building"@
                || w == "Waiting"@
                || w == "Packaging"@
                || w == "Verifying"@
                || w == "Adding"@
                || w == "Removing"@
                || w == "Ignored"@
        }),
    ensures
        compact_lines(kind, lines.push(line)) == compact_lines(kind, lines),
{
    assert(lines.push(line).drop_last() == lines);
}

/// A line that tells of a passing test is dropped from the output of a test run, outside the report
/// of failures, and from no other.
pub proof fn law_passing_tests_are_dropped(indent: Text, name: Text, lines: Seq<Text>)
    requires
        is_blank(indent),
    ensures
        !in_report(lines) ==> compact_lines(
            CommandKind::CargoTest,
            lines.push(indent + "test "@ + name + " ... ok"@),
        ) == compact_lines(CommandKind::CargoTest, lines),
        without_noise(
            CommandKind::CargoBuild,
            lines.push(indent + "test "@ + name + " ... ok"@),
        ).len() == without_noise(CommandKind::CargoBuild, lines).len() + 1,
{
    let line = indent + "test "@ + name + " ... ok"@;
    let t = "test "@ + name + " ... ok"@;
    reveal_strlit("test ");
    assert("test "@[0] == 't');
    assert(line == indent + t);
    assert(t[0] == 't');
    law_indent_is_trimmed(indent, t);
    assert("test "@.is_prefix_of(t)) by {
        assert(t.take("test "@.len() as int) == "test "@);
    }
    assert(" ... ok"@.is_suffix_of(t)) by {
        assert(t.skip(t.len() - " ... ok"@.len()) == " ... ok"@);
    }
    assert(lines.push(line).drop_last() == lines);
    lemma_first_word_start(line);
    if is_progress_line(line) {
        lemma_noise_start(CommandKind::CargoBuild, line);
        lemma_progress_is_capital(line);
    }
}

/// A line of progress begins with a capital.
proof fn lemma_progress_is_capital(line: Text)
    requires
        is_progress_line(line),
    ensures
        trim_start_of(line).len() > 0,
        'A' <= trim_start_of(line)[0] <= 'Z',
{
    reveal_strlit("Compiling");
    reveal_strlit("Checking");
    reveal_strlit("Downloading");
    reveal_strlit("Downloaded");
    reveal_strlit("Updating");
    reveal_strlit("Blocking");
    reveal_strlit("Locking");
    reveal_strlit("Installing");
    reveal_strlit("Fresh");
    reveal_strlit("Building");
    reveal_strlit("Waiting");
    reveal_strlit("Packaging");
    reveal_strlit("Verifying");
    reveal_strlit("Adding");
    reveal_strlit("Removing");
    reveal_strlit("Ignored");
    lemma_first_word_start(line);
}

/// A hint on how to go on is dropped from the output of `git status`, and every other line that is
/// not blank stays, word for word.
pub proof fn law_only_hints_of_git_are_dropped(raw: Text, i: int, lines: Seq<Text>, hint: Text)
    ensures
        0 <= i < lines_of(raw).len() && !is_blank(lines_of(raw)[i]) && !"(use "@.is_prefix_of(
            trim_start_of(lines_of(raw)[i]),
        ) ==> remaining_lines(CommandKind::GitStatus, raw).contains(lines_of(raw)[i])
            && contains_text(compact_text(CommandKind::GitStatus, raw), lines_of(raw)[i]),
        "(use "@.is_prefix_of(trim_start_of(hint)) ==> compact_lines(
            CommandKind::GitStatus,
            lines.push(hint),
        ) == compact_lines(CommandKind::GitStatus, lines),
{
    assert(lines.push(hint).drop_last() == lines);
    if 0 <= i < lines_of(raw).len() && !is_blank(lines_of(raw)[i]) && !"(use "@.is_prefix_of(
        trim_start_of(lines_of(raw)[i]),
    ) {
        lemma_line_remains(CommandKind::GitStatus, raw, i);
    }
}

/// Lines come out in the order in which they came in, each at most as often: what remains of a
/// longer output begins with the same lines, and one more line is added at its end or not at all.
pub proof fn law_lines_stay_in_order(kind: CommandKind, lines: Seq<Text>, line: Text)
    ensures
        without_noise(kind, lines.push(line)) == without_noise(kind, lines).push(line)
            || without_noise(kind, lines.push(line)) == without_noise(kind, lines),
        collapse_blanks(lines.push(line)) == collapse_blanks(lines).push(line)
            || collapse_blanks(lines.push(line)) == collapse_blanks(lines),
        !is_blank(line) ==> collapse_blanks(lines.push(line)) == collapse_blanks(lines).push(line),
        is_blank(line) && (lines.len() == 0 || !is_blank(lines.last())) ==> collapse_blanks(
            lines.push(line),
        ) == collapse_blanks(lines).push(line),
{
    assert(lines.push(line).drop_last() == lines);
}

/// The report of a test run goes on from a line that opens it, `failures:` or one between dashes,
/// to the line with the result, and nothing in it is dropped.
pub proof fn law_report_of_failures_is_kept(before: Seq<Text>, inside: Seq<Text>, line: Text)
    requires
        before.len() > 0,
        trim_of(before.last()) == "failures:"@ || ("---- "@.is_prefix_of(trim_of(before.last()))
            && " ----"@.is_suffix_of(trim_of(before.last()))),
        forall|i: int|
            0 <= i < inside.len() ==> !"test result:"@.is_prefix_of(trim_of(#[trigger] inside[i])),
    ensures
        without_noise(CommandKind::CargoTest, (before + inside).push(line)) == without_noise(
            CommandKind::CargoTest,
            before + inside,
        ).push(line),
{
    lemma_report_goes_on(before, inside);
    law_report_stays(before + inside, line);
}

/// A report goes on up to the line with the result.
proof fn lemma_report_goes_on(before: Seq<Text>, inside: Seq<Text>)
    requires
        in_report(before),
        forall|i: int| 0 <= i < inside.len() ==> !closes_report(#[trigger] inside[i]),
    ensures
        in_report(before + inside),
    decreases inside.len(),
{
    if inside.len() > 0 {
        let start = inside.drop_last();
        assert forall|i: int| 0 <= i < start.len() implies !closes_report(#[trigger] start[i]) by {
            assert(start[i] == inside[i]);
        }
        lemma_report_goes_on(before, start);
        assert((before + inside).drop_last() == before + start);
        assert((before + inside).last() == inside[inside.len() - 1]);
        assert(!closes_report(inside[inside.len() - 1]));
    } else {
        assert(before + inside == before);
    }
}

/// A line that names the result of a test run closes its report, unless it opens one itself.
pub proof fn law_result_closes_the_report(before: Seq<Text>, result: Text)
    requires
        "test result:"@.is_prefix_of(trim_of(result)),
    ensures
        !in_report(before.push(result)),
        !in_report(Seq::<Text>::empty()),
{
    assert(before.push(result).drop_last() == before);
    reveal_strlit("test result:");
    reveal_strlit("failures:");
    reveal_strlit("---- ");
    let t = trim_of(result);
    assert(t[0] == "test result:"@[0]);
    if "---- "@.is_prefix_of(t) {
        assert(t[0] == "---- "@[0]);
    }
    assert("failures:"@[0] == 'f');
}

/// Output of another command keeps every line that no neighbour equals, and of a run of equal lines
/// the line and its count; as many lines come out as there are runs.
pub proof fn law_runs_are_counted(line: Text, n: nat, rest: Seq<Text>)
    requires
        n > 0,
        rest.len() > 0 ==> rest[0] != line,
    ensures
        ({
            let run = Seq::new(n, |i: int| line);
            let told = if n == 1 {
                line
            } else {
                line + "  (×"@ + decimal_of(n) + ")"@
            };
            run_lines(runs_of(run + rest)) == seq![told] + run_lines(runs_of(rest))
        }),
{
    let run = Seq::new(n, |i: int| line);
    let all = run + rest;
    assert(forall|i: int| 0 <= i < n ==> #[trigger] all[i] == line);
    assert(all[0] == line);
    lemma_run_length_is(all, n);
    assert(all.skip(n as int) == rest);
    assert(runs_of(all) == seq![(line, n)] + runs_of(rest));
    assert(run_lines(runs_of(all)) == seq![run_line((line, n))] + run_lines(runs_of(rest)));
}

/// Short output, of fewer than eight hundred characters, is left as it is; and what is kept of
/// longer output is what the rules of its command leave, with every dropped line counted.
pub proof fn law_short_output_is_left_alone(kind: CommandKind, raw: Text)
    ensures
        raw.len() < 800 ==> filtered_text(kind, raw) == raw && dropped_count(kind, raw) == 0,
        raw.len() >= 800 ==> filtered_text(kind, raw) == join_of(remaining_lines(kind, raw), "\n"@)
            && dropped_count(kind, raw) == lines_of(raw).len() - remaining_lines(kind, raw).len(),
{
}

/// A command is told by the words that occur in it: `clippy` before `test`, and `test` before
/// `build` and `check`, where `cargo` occurs; else `git` with `status`.
pub proof fn law_commands_are_told_by_their_words(cmd: Text)
    ensures
        ({
            let c = trim_start_of(cmd);
            let cargo = contains_text(c, "cargo"@);
            let clippy = cargo && contains_text(c, "clippy"@);
            let test = cargo && contains_text(c, "test"@);
            let build = cargo && (contains_text(c, "build"@) || contains_text(c, "check"@));
            let status = contains_text(c, "git"@) && contains_text(c, "status"@);
            &&& command_kind(cmd) == CommandKind::CargoClippy <==> clippy
            &&& command_kind(cmd) == CommandKind::CargoTest <==> test && !clippy
            &&& command_kind(cmd) == CommandKind::CargoBuild <==> build && !test && !clippy
            &&& command_kind(cmd) == CommandKind::GitStatus <==> status && !build && !test
                && !clippy
            &&& command_kind(cmd) == CommandKind::Generic <==> !status && !build && !test && !clippy
        }),
{
}

/// The name of a raw log begins with its time stamp and ends with the hash of its bytes, sixteen
/// characters long unless the hash itself is longer.
pub proof fn law_log_is_named_by_time_and_hash(stamp: Text, raw: Text)
    ensures
        ({
            let hash = hex_of(fnv1a_of(vstd::utf8::encode_utf8(raw)) as nat);
            &&& (stamp + "-"@).is_prefix_of(log_name(stamp, raw))
            &&& hash.is_suffix_of(log_name(stamp, raw))
            &&& hash.len() <= 16 ==> log_name(stamp, raw).len() == stamp.len() + "-"@.len() + 16
        }),
{
    let hash = hex_of(fnv1a_of(vstd::utf8::encode_utf8(raw)) as nat);
    let filled = zero_fill(hash, 16);
    let all = log_name(stamp, raw);
    crate::numbers::law_filling_puts_zeros_in_front(hash, 16);
    assert(all.subrange(0, (stamp + "-"@).len() as int) =~= stamp + "-"@);
    assert(filled.subrange(filled.len() - hash.len(), filled.len() as int) == hash);
    assert(all.subrange(all.len() - hash.len(), all.len() as int) =~= filled.subrange(
        filled.len() - hash.len(),
        filled.len() as int,
    ));
}

} // verus!
