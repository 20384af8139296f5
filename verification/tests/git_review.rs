use agent_mux::git_review::git::{
    compute_diff, compute_file_diff, current_branch, diff_args, find_repo_root, git_command,
    merge_base_args, parent_branch, read_cap, synth_untracked, untracked_paths, wants_untracked,
    GitError, PendingDiff, UntrackedFile,
};
use agent_mux::git_review::model::{count_lines, DiffHunk, DiffLine};
use agent_mux::git_review::parse::{
    parse_hunks, parse_range, patch_numbers_fit, section_numbers_fit, DiffParseError,
};
use agent_mux::git_review::{
    calculate_hidden_lines, count_changes, hunk_gap, hunk_new_range, parse_bulk_diff,
    parse_unified_diff_header, DiffLimits, DiffLineType, DiffMode, FileDiff, GitDiffData,
    GitFileStatus, Host, Side,
};
use std::time::{Duration, Instant};

const MODIFIED: &str = "diff --git a/foo.txt b/foo.txt
index 1111111..2222222 100644
--- a/foo.txt
+++ b/foo.txt
@@ -1,4 +1,4 @@
 context1
-old line
+new line
 context2
 context3
";

const NEW_FILE: &str = "diff --git a/new.txt b/new.txt
new file mode 100644
index 0000000..abcdef1
--- /dev/null
+++ b/new.txt
@@ -0,0 +1,2 @@
+hello
+world
";

const DELETED: &str = "diff --git a/del.txt b/del.txt
deleted file mode 100644
index abcdef1..0000000
--- a/del.txt
+++ /dev/null
@@ -1 +0,0 @@
-gone
";

const RENAMED: &str = "diff --git a/old_name.txt b/new_name.txt
similarity index 66%
rename from old_name.txt
rename to new_name.txt
index abcdef1..def4567 100644
--- a/old_name.txt
+++ b/new_name.txt
@@ -1,2 +1,2 @@
 keep
-was
+now
";

const BINARY: &str = "diff --git a/img.png b/img.png
index abcdef1..def4567 100644
Binary files a/img.png and b/img.png differ
";

const NO_NEWLINE: &str = "diff --git a/nonl.txt b/nonl.txt
index abcdef1..def4567 100644
--- a/nonl.txt
+++ b/nonl.txt
@@ -1 +1 @@
-old
\\ No newline at end of file
+new
\\ No newline at end of file
";

#[test]
fn header_parsing() {
    let h = parse_unified_diff_header("@@ -3,5 +10,7 @@ fn thing()").unwrap();
    assert_eq!(h.old_start_line, 3);
    assert_eq!(h.old_line_count, 5);
    assert_eq!(h.new_start_line, 10);
    assert_eq!(h.new_line_count, 7);

    let single = parse_unified_diff_header("@@ -1 +1 @@").unwrap();
    assert_eq!(single.old_line_count, 1);
    assert_eq!(single.new_line_count, 1);
}

#[test]
fn modified_file() {
    let files = parse_bulk_diff(MODIFIED, &DiffLimits::default()).unwrap();
    assert_eq!(files.len(), 1);
    let f = &files[0];
    assert_eq!(f.file_path, "foo.txt");
    assert_eq!(f.status, GitFileStatus::Modified);
    assert_eq!(f.additions, 1);
    assert_eq!(f.deletions, 1);
    assert_eq!(f.hunks.len(), 1);

    let lines = &f.hunks[0].lines;
    assert_eq!(lines[0].line_type, DiffLineType::Context);
    assert_eq!(lines[0].old_line_number, Some(1));
    assert_eq!(lines[0].new_line_number, Some(1));
    assert_eq!(lines[1].line_type, DiffLineType::Delete);
    assert_eq!(lines[1].old_line_number, Some(2));
    assert_eq!(lines[1].new_line_number, None);
    assert_eq!(lines[2].line_type, DiffLineType::Add);
    assert_eq!(lines[2].new_line_number, Some(2));
    assert_eq!(lines[2].text, "new line");
}

#[test]
fn new_and_deleted() {
    let new = &parse_bulk_diff(NEW_FILE, &DiffLimits::default()).unwrap()[0];
    assert_eq!(new.file_path, "new.txt");
    assert_eq!(new.status, GitFileStatus::New);
    assert_eq!(new.additions, 2);
    assert_eq!(new.deletions, 0);

    let del = &parse_bulk_diff(DELETED, &DiffLimits::default()).unwrap()[0];
    assert_eq!(del.file_path, "del.txt");
    assert_eq!(del.status, GitFileStatus::Deleted);
    assert_eq!(del.additions, 0);
    assert_eq!(del.deletions, 1);
}

#[test]
fn rename_detection() {
    let f = &parse_bulk_diff(RENAMED, &DiffLimits::default()).unwrap()[0];
    assert_eq!(f.file_path, "new_name.txt");
    assert_eq!(
        f.status,
        GitFileStatus::Renamed {
            old_path: "old_name.txt".to_string()
        }
    );
    assert_eq!(f.additions, 1);
    assert_eq!(f.deletions, 1);
}

#[test]
fn binary_file() {
    let f = &parse_bulk_diff(BINARY, &DiffLimits::default()).unwrap()[0];
    assert_eq!(f.file_path, "img.png");
    assert!(f.is_binary);
    assert!(f.hunks.is_empty());
    assert!(!f.oversized);
}

#[test]
fn no_newline_marker() {
    let f = &parse_bulk_diff(NO_NEWLINE, &DiffLimits::default()).unwrap()[0];
    let lines = &f.hunks[0].lines;
    assert_eq!(lines.len(), 2);
    assert_eq!(lines[0].line_type, DiffLineType::Delete);
    assert!(lines[0].no_trailing_newline);
    assert_eq!(lines[1].line_type, DiffLineType::Add);
    assert!(lines[1].no_trailing_newline);
}

#[test]
fn multi_file() {
    let combined = format!("{MODIFIED}{NEW_FILE}{BINARY}");
    let files = parse_bulk_diff(&combined, &DiffLimits::default()).unwrap();
    assert_eq!(files.len(), 3);
    assert_eq!(files[0].file_path, "foo.txt");
    assert_eq!(files[1].file_path, "new.txt");
    assert_eq!(files[2].file_path, "img.png");
}

#[test]
fn oversized_drops_hunks() {
    let limits = DiffLimits {
        max_file_lines: 1,
        max_total_lines: 1_000,
        ..DiffLimits::default()
    };
    let f = &parse_bulk_diff(MODIFIED, &limits).unwrap()[0];
    assert!(f.oversized);
    assert!(f.hunks.is_empty());
    assert_eq!(f.additions, 1);
    assert_eq!(f.deletions, 1);
}

#[test]
fn collapse_ranges() {
    let hidden = calculate_hidden_lines(10, &[5], 2);
    assert_eq!(hidden, vec![0..3, 8..10]);

    let none = calculate_hidden_lines(6, &[0, 1, 2, 3, 4, 5], 0);
    assert!(none.is_empty());

    let all = calculate_hidden_lines(4, &[], 3);
    assert_eq!(all, vec![0..4]);
}

fn untracked(text: &str, limits: &DiffLimits, retained: &mut usize) -> FileDiff {
    let bytes = text.as_bytes();
    synth_untracked("a.txt", limits, retained, Some(bytes.len() as u64), Some(bytes))
}

#[test]
fn untracked_small_file_reads() {
    let mut retained = 0;
    let f = untracked("one\ntwo\nthree\n", &DiffLimits::default(), &mut retained);
    assert!(!f.oversized);
    assert_eq!(f.additions, 3);
    assert_eq!(retained, 3);
    assert_eq!(f.hunks[0].lines.len(), 3);
}

#[test]
fn untracked_over_byte_cap_is_withheld() {
    let limits = DiffLimits {
        max_file_bytes: 1024,
        ..DiffLimits::default()
    };
    let mut retained = 0;
    let f = synth_untracked("big.dat", &limits, &mut retained, Some(4096), None);
    assert!(f.oversized);
    assert!(f.hunks.is_empty());
    assert_eq!(retained, 0);
}

#[test]
fn untracked_withheld_once_total_budget_hit() {
    let limits = DiffLimits {
        max_total_lines: 10,
        ..DiffLimits::default()
    };
    let mut retained = 10;
    let f = untracked("line\n", &limits, &mut retained);
    assert!(f.oversized);
    assert!(f.hunks.is_empty());
}

#[test]
fn untracked_over_line_cap_is_withheld() {
    let mut body = String::new();
    for i in 0..100 {
        body.push_str(&format!("line{i}\n"));
    }
    let limits = DiffLimits {
        max_file_lines: 10,
        ..DiffLimits::default()
    };
    let mut retained = 0;
    let f = untracked(&body, &limits, &mut retained);
    assert!(f.oversized);
    assert!(f.hunks.is_empty());
    let generous = untracked(&body, &DiffLimits::on_demand(), &mut 0);
    assert!(!generous.oversized);
    assert_eq!(generous.additions, 100);
}

#[test]
fn large_untracked_file_is_withheld_fast_then_loadable() {
    let big = "x".repeat(64 * 1024 * 1024);
    let len = Some(big.len() as u64);
    assert_eq!(read_cap(&DiffLimits::default(), 0, len), None);
    assert!(read_cap(&DiffLimits::on_demand(), 0, len).is_some());
    let others = vec![UntrackedFile {
        path: "big.log".to_string(),
        len,
        contents: Some(big.into_bytes()),
    }];

    let start = Instant::now();
    let data = compute_diff(
        &Host::Local,
        &DiffMode::WorkingTree,
        "",
        &others,
        &DiffLimits::default(),
    )
    .expect("compute_diff");
    let elapsed = start.elapsed();
    assert!(
        elapsed < Duration::from_secs(5),
        "compute_diff took too long: {elapsed:?} (the 64MB untracked file should not be read)"
    );

    let big_file = data
        .files
        .iter()
        .find(|f| f.file_path == "big.log")
        .expect("big.log present");
    assert!(big_file.oversized, "big untracked file should be withheld");
    assert!(big_file.hunks.is_empty(), "withheld file has no hunks");

    let loaded = compute_file_diff(
        "big.log",
        &GitFileStatus::Untracked,
        "",
        len,
        others[0].contents.as_deref(),
        &DiffLimits::on_demand(),
    )
    .expect("compute_file_diff");
    assert!(!loaded.oversized, "64MB file loads under on-demand limits");
    assert_eq!(loaded.additions, 1, "single long line");
}

#[test]
fn untracked_binary_and_unreadable_files_are_stubs() {
    let limits = DiffLimits::default();
    let binary = synth_untracked("x", &limits, &mut 0, Some(2), Some(&[0xff, 0xfe]));
    assert!(binary.is_binary && !binary.oversized && binary.hunks.is_empty());
    let unknown = synth_untracked("x", &limits, &mut 0, None, None);
    assert!(unknown.is_binary);
    let unread = synth_untracked("x", &limits, &mut 0, Some(5), None);
    assert!(unread.is_binary);
    let empty = synth_untracked("x", &limits, &mut 0, Some(0), None);
    assert!(!empty.is_binary && !empty.oversized);
    assert_eq!(empty.hunks.len(), 1);
    assert_eq!(empty.hunks[0].new_start_line, 1);
    assert_eq!(empty.hunks[0].new_line_count, 0);
}

#[test]
fn untracked_lines_keep_bare_carriage_returns() {
    let f = untracked("a\r\nb\rc\nlast\r", &DiffLimits::default(), &mut 0);
    let texts: Vec<&str> = f.hunks[0].lines.iter().map(|l| l.text.as_str()).collect();
    assert_eq!(texts, vec!["a", "b\rc", "last\r"]);
    assert_eq!(f.hunks[0].lines[2].new_line_number, Some(3));
}

#[test]
fn copies_strip_every_prefix() {
    let patch = "diff --git a/x b/y\ncopy from copy from x\ncopy to y\n";
    let f = &parse_bulk_diff(patch, &DiffLimits::default()).unwrap()[0];
    assert_eq!(
        f.status,
        GitFileStatus::Copied {
            old_path: "x".to_string()
        }
    );
    assert_eq!(f.file_path, "y");
}

#[test]
fn parse_errors_name_what_is_wrong() {
    assert_eq!(parse_range("7"), Ok((7, 1)));
    assert_eq!(parse_range("7,3"), Ok((7, 3)));
    assert_eq!(parse_range("+7,3"), Ok((7, 3)));
    assert_eq!(parse_range("x,3"), Err(DiffParseError::RangeStart("x,3".into())));
    assert_eq!(parse_range("7,"), Err(DiffParseError::RangeCount("7,".into())));
    assert_eq!(parse_range(""), Err(DiffParseError::Range("".into())));
    assert_eq!(
        parse_range("99999999999999999999"),
        Err(DiffParseError::Range("99999999999999999999".into()))
    );
    let header = |line: &str| parse_unified_diff_header(line).unwrap_err();
    assert_eq!(header("nope"), DiffParseError::Header("nope".into()));
    assert_eq!(header("@@ -1"), DiffParseError::HeaderFormat("@@ -1".into()));
    assert_eq!(header("@@ 1 +1 @@"), DiffParseError::OldRange("@@ 1 +1 @@".into()));
    assert_eq!(header("@@ -1 1 @@"), DiffParseError::NewRange("@@ -1 1 @@".into()));
    let no_path = parse_bulk_diff("diff --git nothing\n", &DiffLimits::default()).unwrap_err();
    assert_eq!(no_path, DiffParseError::NoPath);
    assert_eq!(no_path.message(), "could not determine path for diff section");
    assert_eq!(
        header("@@ -1").message(),
        "invalid unified diff header format: @@ -1"
    );
}

#[test]
fn hunks_of_a_section() {
    let section: Vec<String> = ["junk", "@@ -5,2 +7,2 @@", " a", "?", "", "-b", "+c", "@@ -9 +9 @@", "+z"]
        .iter()
        .map(|s| s.to_string())
        .collect();
    let hunks = parse_hunks(&section).unwrap();
    assert_eq!(hunks.len(), 2);
    assert_eq!(hunks[0].lines.len(), 3);
    assert_eq!(hunks[0].lines[1].old_line_number, Some(6));
    assert_eq!(hunks[0].lines[2].new_line_number, Some(8));
    assert_eq!(hunks[1].lines[0].new_line_number, Some(9));
    assert_eq!(count_changes(&hunks), (2, 1));
    assert_eq!(count_lines(&hunks), 4);
}

#[test]
fn line_numbers_that_do_not_fit_are_reported() {
    let max = usize::MAX;
    let patch = format!("diff --git a/x b/x\n@@ -{max} +1 @@\n-a\n");
    assert!(!patch_numbers_fit(&patch));
    let patch = format!("diff --git a/x b/x\n@@ -{max} +1 @@\n+a\n");
    assert!(patch_numbers_fit(&patch));
    assert!(patch_numbers_fit(MODIFIED));
    let header = format!("@@ -{max} +1 @@");
    assert!(!section_numbers_fit(&[header.clone(), "-a".to_string()]));
    assert!(section_numbers_fit(&[header, "+a".to_string()]));
}

#[test]
fn header_text_reads_back() {
    let hunk = DiffHunk {
        old_start_line: 3,
        old_line_count: 0,
        new_start_line: 120,
        new_line_count: 7,
        lines: Vec::new(),
    };
    assert_eq!(hunk.header_text(), "@@ -3,0 +120,7 @@");
    let h = parse_unified_diff_header(&hunk.header_text()).unwrap();
    assert_eq!(
        (h.old_start_line, h.old_line_count, h.new_start_line, h.new_line_count),
        (3, 0, 120, 7)
    );
}

#[test]
fn gaps_and_ranges_of_hunks() {
    let hunk = |start: usize, count: usize| DiffHunk {
        old_start_line: 0,
        old_line_count: 0,
        new_start_line: start,
        new_line_count: count,
        lines: Vec::new(),
    };
    assert_eq!(hunk_gap(&hunk(1, 4), &hunk(10, 2)), 5);
    assert_eq!(hunk_gap(&hunk(1, 40), &hunk(10, 2)), 0);
    assert_eq!(hunk_new_range(&hunk(10, 2)), 10..12);
}

#[test]
fn total_limit_drops_later_files() {
    let limits = DiffLimits {
        max_total_lines: 6,
        ..DiffLimits::default()
    };
    let combined = format!("{MODIFIED}{NEW_FILE}{DELETED}");
    let files = parse_bulk_diff(&combined, &limits).unwrap();
    assert!(!files[0].oversized);
    assert!(files[1].oversized);
    assert!(!files[2].oversized);
    let kept: usize = files.iter().map(|f| count_lines(&f.hunks)).sum();
    assert_eq!(kept, 6);
}

#[test]
fn whole_diffs_add_untracked_files() {
    let others = vec![UntrackedFile {
        path: "u.txt".into(),
        len: Some(4),
        contents: Some(b"a\nb\n".to_vec()),
    }];
    let limits = DiffLimits::default();
    let data = compute_diff(&Host::Local, &DiffMode::WorkingTree, MODIFIED, &others, &limits).unwrap();
    assert_eq!(data.files_changed(), 2);
    assert!(data.is_dirty());
    assert_eq!((data.total_additions, data.total_deletions), (3, 1));
    let branch = DiffMode::Branch("main".into());
    let data = compute_diff(&Host::Local, &branch, MODIFIED, &others, &limits).unwrap();
    assert_eq!(data.files_changed(), 1);
    let remote = Host::Ssh("box".into());
    let data = compute_diff(&remote, &DiffMode::WorkingTree, MODIFIED, &others, &limits).unwrap();
    assert_eq!(data.files_changed(), 1);
    assert!(!GitDiffData::default().is_dirty());
    let mut pending = PendingDiff::begin(MODIFIED, &limits).unwrap();
    assert_eq!(pending.retained_total, 5);
    pending.add_untracked(&others[0], &limits);
    assert_eq!(pending.retained_total, 7);
    assert!(pending.totals_fit());
    assert_eq!(pending.finish().total_additions, 3);
}

#[test]
fn one_file_is_found_by_path() {
    let combined = format!("{MODIFIED}{NEW_FILE}");
    let limits = DiffLimits::default();
    let f = compute_file_diff("new.txt", &GitFileStatus::New, &combined, None, None, &limits).unwrap();
    assert_eq!(f.additions, 2);
    let missing = compute_file_diff("nope", &GitFileStatus::New, &combined, None, None, &limits);
    let error = missing.unwrap_err();
    assert_eq!(error, GitError::NoDiff("nope".into()));
    assert_eq!(error.message(), "no diff produced for nope");
}

#[test]
fn git_command_lines() {
    let args: Vec<String> = vec!["diff".into(), "it's".into()];
    let local = git_command(&Host::Local, "/repo", &args);
    assert_eq!(local.program, "git");
    assert_eq!(local.args, vec!["-C", "/repo", "diff", "it's"]);
    let remote = git_command(&Host::Ssh("me@box".into()), "/re po", &args);
    assert_eq!(remote.program, "ssh");
    assert_eq!(
        remote.args,
        vec![
            "-o",
            "BatchMode=yes",
            "-o",
            "ConnectTimeout=6",
            "me@box",
            "--",
            "git -C '/re po' 'diff' 'it'\\''s'"
        ]
    );
    assert!(Host::Local.is_local());
    assert!(!Host::Ssh("x".into()).is_local());
}

#[test]
fn outputs_of_git_are_trimmed() {
    assert_eq!(find_repo_root("/x", " /repo\n").unwrap(), "/repo");
    assert_eq!(
        find_repo_root("/x", " \n").unwrap_err(),
        GitError::NotARepository("/x".into())
    );
    assert_eq!(current_branch(Some("main\n")), Some("main".to_string()));
    assert_eq!(current_branch(Some("\n")), None);
    assert_eq!(current_branch(None), None);
    assert_eq!(parent_branch(Some("up\n"), Some("head")), Some("up".to_string()));
    assert_eq!(parent_branch(Some("\u{2003}\n"), Some("head\n")), Some("head".to_string()));
    assert_eq!(parent_branch(None, None), None);
    assert_eq!(untracked_paths("a\0\0b c\0"), vec!["a", "b c"]);
}

#[test]
fn diff_arguments_by_mode() {
    let last = |args: Vec<String>| args.last().cloned().unwrap();
    assert_eq!(last(diff_args(&DiffMode::WorkingTree, "").unwrap()), "HEAD");
    assert_eq!(last(diff_args(&DiffMode::Branch("dev".into()), "").unwrap()), "dev");
    let base = DiffMode::MergeBase("dev".into());
    assert_eq!(last(diff_args(&base, "abc\n").unwrap()), "abc");
    assert_eq!(
        diff_args(&base, "\n").unwrap_err(),
        GitError::NoMergeBase("dev".into())
    );
    assert_eq!(
        merge_base_args(&base).unwrap(),
        vec!["merge-base", "HEAD", "dev"]
    );
    assert_eq!(
        diff_args(&DiffMode::WorkingTree, "").unwrap(),
        vec!["diff", "--no-ext-diff", "--no-color", "--find-renames", "-l1000", "HEAD"]
    );
    assert!(wants_untracked(&Host::Local, &base));
    assert!(!wants_untracked(&Host::Local, &DiffMode::Branch("x".into())));
}

#[test]
fn modes_cycle() {
    let tree = DiffMode::default();
    assert_eq!(tree, DiffMode::WorkingTree);
    let base = tree.cycle(Some("main"));
    assert_eq!(base, DiffMode::MergeBase("main".into()));
    assert_eq!(base.cycle(None), DiffMode::WorkingTree);
    assert_eq!(tree.cycle(None), DiffMode::WorkingTree);
    let branch = DiffMode::Branch("x".into());
    assert_eq!(branch.cycle(Some("main")), branch);
    assert_eq!(branch.label(), "vs x");
    assert_eq!(base.label(), "uncommitted + main");
    assert_eq!(tree.label(), "uncommitted");
}

#[test]
fn labels_and_markers() {
    assert!(GitFileStatus::New.is_new_file());
    assert!(GitFileStatus::Untracked.is_new_file());
    assert!(!GitFileStatus::Conflicted.is_new_file());
    assert_eq!(GitFileStatus::Conflicted.label(), "conflicted");
    let line = DiffLine {
        line_type: DiffLineType::Delete,
        old_line_number: Some(1),
        new_line_number: None,
        text: String::new(),
        no_trailing_newline: false,
    };
    assert_eq!(line.marker(), '-');
    assert_ne!(Side::Old, Side::New);
}

#[test]
fn hunks_print_the_text_of_their_section() {
    let section: Vec<String> = [
        "diff --git a/x b/x",
        "--- a/x",
        "+++ b/x",
        "@@ -1,2 +1,2 @@",
        " kept",
        "-gone",
        "+come",
        "\\ No newline at end of file",
        "",
        "@@ -9 +9 @@",
        "--- a rule",
    ]
    .iter()
    .map(|line| line.to_string())
    .collect();
    let printed: Vec<String> = parse_hunks(&section)
        .unwrap()
        .iter()
        .flat_map(|hunk| &hunk.lines)
        .map(|line| format!("{}{}", line.marker(), line.text))
        .collect();
    assert_eq!(printed, vec![" kept", "-gone", "+come", "--- a rule"]);
}
