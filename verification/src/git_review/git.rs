//! The git commands that a review needs, and what is made of their output.
use crate::git_review::mode;
use crate::git_review::mode::DiffMode;
use crate::git_review::model;
use crate::git_review::model::{
    count_lines, DiffHunk, DiffLimits, DiffLine, DiffLineType, FileDiff, FileModel, GitDiffData,
    GitFileStatus, HunkModel, LineModel, StatusModel,
};
use crate::git_review::parse;
use crate::git_review::parse::{parse_bulk_diff, DiffParseError};
use crate::shell;
use crate::shell::{CommandLine, CommandModel};
use crate::text;
use vstd::prelude::*;

verus! {

/// Where git runs.
#[derive(Clone, Debug, PartialEq, Eq)]
pub enum Host {
    Local,
    Ssh(String),
}

impl Host {
    /// Whether git runs on this machine.
    pub fn is_local(&self) -> (r: bool)
        ensures
            r == (self is Local),
    {
        matches!(self, Host::Local)
    }
}

/// Why there is no diff.
#[derive(Clone, Debug, PartialEq, Eq)]
pub enum GitError {
    NotARepository(String),
    NoMergeBase(String),
    NoDiff(String),
    Parse(DiffParseError),
}

/// What a [`GitError`] says.
#[verifier::ext_equal]
pub enum GitErrorModel {
    NotARepository(Seq<char>),
    NoMergeBase(Seq<char>),
    NoDiff(Seq<char>),
    Parse(parse::ParseErrorModel),
}

impl View for GitError {
    type V = GitErrorModel;

    open spec fn view(&self) -> GitErrorModel {
        match self {
            GitError::NotARepository(s) => GitErrorModel::NotARepository(s@),
            GitError::NoMergeBase(s) => GitErrorModel::NoMergeBase(s@),
            GitError::NoDiff(s) => GitErrorModel::NoDiff(s@),
            GitError::Parse(e) => GitErrorModel::Parse(e@),
        }
    }
}

impl GitError {
    /// The error in words.
    pub fn message(&self) -> (r: String)
        ensures
            r@ == (match self@ {
                GitErrorModel::NotARepository(s) => "not inside a git repository: "@ + s,
                GitErrorModel::NoMergeBase(s) => "no merge base between HEAD and "@ + s,
                GitErrorModel::NoDiff(s) => "no diff produced for "@ + s,
                GitErrorModel::Parse(e) => parse::parse_error_message(e),
            }),
    {
        match self {
            GitError::NotARepository(s) => text::concat("not inside a git repository: ", s.as_str()),
            GitError::NoMergeBase(s) => text::concat("no merge base between HEAD and ", s.as_str()),
            GitError::NoDiff(s) => text::concat("no diff produced for ", s.as_str()),
            GitError::Parse(e) => e.message(),
        }
    }
}

fn sh_quote(s: &str) -> (r: String)
    ensures
        r@ == shell::quoted(s@),
{
    shell::quote(s)
}

/// The command that a remote shell runs: git in the repository, with every word quoted.
pub open spec fn remote_command(repo: Seq<char>, args: Seq<Seq<char>>) -> Seq<char>
    decreases args.len(),
{
    if args.len() == 0 {
        "git -C "@ + shell::quoted(repo)
    } else {
        remote_command(repo, args.drop_last()).push(' ') + shell::quoted(args.last())
    }
}

/// The command line for git in a repository: here, or over ssh without prompts.
pub open spec fn git_command_line(host: Host, repo: Seq<char>, args: Seq<Seq<char>>) -> CommandModel {
    match host {
        Host::Local => CommandModel { program: "git"@, args: seq!["-C"@, repo] + args },
        Host::Ssh(target) => CommandModel {
            program: "ssh"@,
            args: seq![
                "-o"@,
                "BatchMode=yes"@,
                "-o"@,
                "ConnectTimeout=6"@,
                target@,
                "--"@,
                remote_command(repo, args),
            ],
        },
    }
}

/// The command line for git in a repository.
pub fn git_command(host: &Host, repo: &str, args: &[String]) -> (r: CommandLine)
    ensures
        r@ == git_command_line(*host, repo@, text::texts(args@)),
{
    let ghost all = text::texts(args@);
    match host {
        Host::Local => {
            let mut out: Vec<String> = Vec::new();
            text::push_text(&mut out, "-C");
            text::push_text(&mut out, repo);
            let mut rest = text::copy_texts(args);
            let ghost head = out@;
            let ghost tail = rest@;
            out.append(&mut rest);
            assert(text::texts(head) == seq!["-C"@, repo@]);
            assert(text::texts(out@) == text::texts(head) + text::texts(tail));
            CommandLine { program: "git".to_owned(), args: out }
        },
        Host::Ssh(target) => {
            let mut remote = text::concat("git -C ", sh_quote(repo).as_str());
            let mut i: usize = 0;
            assert(all.take(0) == Seq::<Seq<char>>::empty());
            while i < args.len()
                invariant
                    i <= args@.len(),
                    all == text::texts(args@),
                    remote@ == remote_command(repo@, all.take(i as int)),
                decreases args@.len() - i,
            {
                assert(all.take(i + 1).drop_last() == all.take(i as int));
                assert(all.take(i + 1).last() == args@[i as int]@);
                remote.push(' ');
                remote.push_str(sh_quote(args[i].as_str()).as_str());
                i += 1;
            }
            assert(all.take(i as int) == all);
            let mut out: Vec<String> = Vec::new();
            text::push_text(&mut out, "-o");
            text::push_text(&mut out, "BatchMode=yes");
            text::push_text(&mut out, "-o");
            text::push_text(&mut out, "ConnectTimeout=6");
            text::push_text(&mut out, target.as_str());
            text::push_text(&mut out, "--");
            text::push_text(&mut out, remote.as_str());
            assert(text::texts(out@) == git_command_line(*host, repo@, all).args);
            CommandLine { program: "ssh".to_owned(), args: out }
        },
    }
}

/// The git arguments that ask for the root of the repository.
pub fn repo_root_args() -> (r: Vec<String>)
    ensures
        text::texts(r@) == seq!["rev-parse"@, "--show-toplevel"@],
{
    let mut out: Vec<String> = Vec::new();
    text::push_text(&mut out, "rev-parse");
    text::push_text(&mut out, "--show-toplevel");
    assert(text::texts(out@) == seq!["rev-parse"@, "--show-toplevel"@]);
    out
}

/// The root of the repository around `start_dir`, from what git printed.
pub fn find_repo_root(start_dir: &str, out: &str) -> (r: Result<String, GitError>)
    ensures
        if text::trimmed(out@).len() == 0 {
            r matches Err(e) && e@ == GitErrorModel::NotARepository(start_dir@)
        } else {
            r matches Ok(root) && root@ == text::trimmed(out@)
        },
{
    let root = text::trim(out);
    if text::same(root.as_str(), "") {
        proof {
            reveal_strlit("");
        }
        return Err(GitError::NotARepository(start_dir.to_owned()));
    }
    proof {
        reveal_strlit("");
        if root@.len() == 0 {
            assert(root@ == ""@);
        }
    }
    Ok(root)
}

/// The name in the output of a git command that may have failed: trimmed, and not empty.
pub open spec fn name_in(out: Option<Seq<char>>) -> Option<Seq<char>> {
    match out {
        None => None,
        Some(out) => if text::trimmed(out).len() == 0 {
            None
        } else {
            Some(text::trimmed(out))
        },
    }
}

/// The git arguments that ask for the current branch.
pub fn current_branch_args() -> (r: Vec<String>)
    ensures
        text::texts(r@) == seq!["rev-parse"@, "--abbrev-ref"@, "HEAD"@],
{
    let mut out: Vec<String> = Vec::new();
    text::push_text(&mut out, "rev-parse");
    text::push_text(&mut out, "--abbrev-ref");
    text::push_text(&mut out, "HEAD");
    assert(text::texts(out@) == seq!["rev-parse"@, "--abbrev-ref"@, "HEAD"@]);
    out
}

/// The current branch, from what git printed; `None` where git failed or printed nothing.
pub fn current_branch(out: Option<&str>) -> (r: Option<String>)
    ensures
        text::opt_text(r) == name_in(
            match out {
                Some(o) => Some(o@),
                None => None,
            },
        ),
{
    match out {
        None => None,
        Some(out) => {
            let name = text::trim(out);
            let n: usize = text::chars_of(name.as_str()).len();
            if n == 0 {
                None
            } else {
                Some(name)
            }
        },
    }
}

/// The git arguments that ask for the upstream of the current branch.
pub fn upstream_args() -> (r: Vec<String>)
    ensures
        text::texts(r@) == seq![
            "rev-parse"@,
            "--abbrev-ref"@,
            "--symbolic-full-name"@,
            "@{upstream}"@,
        ],
{
    let mut out: Vec<String> = Vec::new();
    text::push_text(&mut out, "rev-parse");
    text::push_text(&mut out, "--abbrev-ref");
    text::push_text(&mut out, "--symbolic-full-name");
    text::push_text(&mut out, "@{upstream}");
    assert(text::texts(out@) == seq![
        "rev-parse"@,
        "--abbrev-ref"@,
        "--symbolic-full-name"@,
        "@{upstream}"@,
    ]);
    out
}

/// The git arguments that ask for the default branch of the remote.
pub fn origin_head_args() -> (r: Vec<String>)
    ensures
        text::texts(r@) == seq!["symbolic-ref"@, "--short"@, "refs/remotes/origin/HEAD"@],
{
    let mut out: Vec<String> = Vec::new();
    text::push_text(&mut out, "symbolic-ref");
    text::push_text(&mut out, "--short");
    text::push_text(&mut out, "refs/remotes/origin/HEAD");
    assert(text::texts(out@) == seq!["symbolic-ref"@, "--short"@, "refs/remotes/origin/HEAD"@]);
    out
}

/// The branch that the current one is compared with: its upstream, else the remote's default
/// branch, from what git printed for each.
pub fn parent_branch(upstream: Option<&str>, origin_head: Option<&str>) -> (r: Option<String>)
    ensures
        text::opt_text(r) == (match name_in(
            match upstream {
                Some(o) => Some(o@),
                None => None,
            },
        ) {
            Some(name) => Some(name),
            None => name_in(
                match origin_head {
                    Some(o) => Some(o@),
                    None => None,
                },
            ),
        }),
{
    match current_branch(upstream) {
        Some(name) => Some(name),
        None => current_branch(origin_head),
    }
}

/// The git arguments whose output [`diff_args`] needs, for a mode that compares with a merge base.
pub fn merge_base_args(mode: &DiffMode) -> (r: Option<Vec<String>>)
    ensures
        match mode@ {
            mode::ModeModel::MergeBase(b) => r matches Some(v) && text::texts(v@) == seq![
                "merge-base"@,
                "HEAD"@,
                b,
            ],
            _ => r is None,
        },
{
    match mode {
        DiffMode::MergeBase(b) => {
            let mut out: Vec<String> = Vec::new();
            text::push_text(&mut out, "merge-base");
            text::push_text(&mut out, "HEAD");
            text::push_text(&mut out, b.as_str());
            assert(text::texts(out@) == seq!["merge-base"@, "HEAD"@, b@]);
            Some(out)
        },
        _ => None,
    }
}

/// The arguments of every diff, without what it is taken against.
pub open spec fn diff_options() -> Seq<Seq<char>> {
    seq!["diff"@, "--no-ext-diff"@, "--no-color"@, "--find-renames"@, "-l1000"@]
}

/// The git arguments for the diff of a mode; `merge_base` is what git printed as the merge base, for
/// a mode that has one.
pub open spec fn diff_args_of(mode: mode::ModeModel, merge_base: Seq<char>) -> Result<
    Seq<Seq<char>>,
    GitErrorModel,
> {
    match mode {
        mode::ModeModel::WorkingTree => Ok(diff_options().push("HEAD"@)),
        mode::ModeModel::Branch(b) => Ok(diff_options().push(b)),
        mode::ModeModel::MergeBase(b) => if text::trimmed(merge_base).len() == 0 {
            Err(GitErrorModel::NoMergeBase(b))
        } else {
            Ok(diff_options().push(text::trimmed(merge_base)))
        },
    }
}

/// The git arguments for the diff of a mode; `merge_base` is what git printed for
/// [`merge_base_args`], and is not read for the other modes.
pub fn diff_args(mode: &DiffMode, merge_base: &str) -> (r: Result<Vec<String>, GitError>)
    ensures
        match diff_args_of(mode@, merge_base@) {
            Ok(args) => r matches Ok(v) && text::texts(v@) == args,
            Err(e) => r matches Err(x) && x@ == e,
        },
{
    let mut out: Vec<String> = Vec::new();
    text::push_text(&mut out, "diff");
    text::push_text(&mut out, "--no-ext-diff");
    text::push_text(&mut out, "--no-color");
    text::push_text(&mut out, "--find-renames");
    text::push_text(&mut out, "-l1000");
    assert(text::texts(out@) == diff_options());
    match mode {
        DiffMode::WorkingTree => text::push_text(&mut out, "HEAD"),
        DiffMode::Branch(b) => text::push_text(&mut out, b.as_str()),
        DiffMode::MergeBase(b) => match current_branch(Some(merge_base)) {
            None => return Err(GitError::NoMergeBase(b.clone())),
            Some(base) => text::push_text(&mut out, base.as_str()),
        },
    }
    Ok(out)
}

/// What is in a file that git does not track.
enum FileScan {
    Text { lines: Vec<DiffLine> },
    TooLarge,
    Binary,
}

/// The lines of a new file, numbered from 1.
pub open spec fn added_lines(lines: Seq<Seq<char>>) -> Seq<LineModel> {
    Seq::new(
        lines.len(),
        |i: int|
            LineModel {
                line_type: DiffLineType::Add,
                old_line_number: None,
                new_line_number: Some((i + 1) as nat),
                text: lines[i],
                no_trailing_newline: false,
            },
    )
}

/// The lines of the text that `contents` encodes; `None` where it is no text or was not readable.
pub open spec fn lines_in(byte_len: u64, contents: Option<Seq<u8>>) -> Option<Seq<Seq<char>>> {
    if byte_len == 0 {
        Some(Seq::empty())
    } else {
        match contents {
            None => None,
            Some(bytes) => if vstd::utf8::valid_utf8(bytes) {
                Some(text::line_texts(vstd::utf8::decode_utf8(bytes)))
            } else {
                None
            },
        }
    }
}

fn scan_untracked_lines(contents: Option<&[u8]>, max_lines: usize, byte_len: u64) -> (r: FileScan)
    ensures
        match lines_in(
            byte_len,
            match contents {
                Some(b) => Some(b@),
                None => None,
            },
        ) {
            None => r is Binary,
            Some(lines) => if lines.len() > max_lines {
                r is TooLarge
            } else {
                r matches FileScan::Text { lines: v } && model::line_models(v@) == added_lines(lines)
            },
        },
{
    let mut lines: Vec<DiffLine> = Vec::new();
    if byte_len == 0 {
        assert(model::line_models(lines@) == added_lines(Seq::empty()));
        return FileScan::Text { lines };
    }
    let bytes = match contents {
        Some(bytes) => bytes,
        None => return FileScan::Binary,
    };
    let whole = match text::utf8_text(bytes) {
        Some(whole) => whole,
        None => return FileScan::Binary,
    };
    let found = text::lines(whole.as_str());
    let ghost all = text::texts(found@);
    if found.len() > max_lines {
        return FileScan::TooLarge;
    }
    let mut i: usize = 0;
    while i < found.len()
        invariant
            i <= found@.len(),
            all == text::texts(found@),
            model::line_models(lines@) == added_lines(all).take(i as int),
        decreases found@.len() - i,
    {
        let line = DiffLine {
            line_type: DiffLineType::Add,
            old_line_number: None,
            new_line_number: Some(i + 1),
            text: found[i].clone(),
            no_trailing_newline: false,
        };
        let ghost before = model::line_models(lines@);
        lines.push(line);
        assert(model::line_models(lines@) == before.push(line@));
        assert(line@ == added_lines(all)[i as int]);
        assert(added_lines(all).take(i + 1) == added_lines(all).take(i as int).push(line@));
        i += 1;
    }
    assert(added_lines(all).take(i as int) == added_lines(all));
    FileScan::Text { lines }
}

/// A file that git does not track, without its contents.
pub open spec fn stub(path: Seq<char>, is_binary: bool) -> FileModel {
    FileModel {
        file_path: path,
        status: StatusModel::Untracked,
        hunks: Seq::empty(),
        is_binary,
        oversized: !is_binary,
        additions: 0,
        deletions: 0,
    }
}

fn untracked_stub(path: &str, is_binary: bool) -> (r: FileDiff)
    ensures
        r@ == stub(path@, is_binary),
{
    let hunks: Vec<DiffHunk> = Vec::new();
    assert(model::hunk_models(hunks@) == Seq::<HunkModel>::empty());
    FileDiff {
        file_path: path.to_owned(),
        status: GitFileStatus::Untracked,
        hunks,
        is_binary,
        oversized: !is_binary,
        additions: 0,
        deletions: 0,
    }
}

/// The lesser of two numbers.
pub open spec fn lesser(a: int, b: int) -> int {
    if a <= b {
        a
    } else {
        b
    }
}

/// How many lines of an untracked file may be read when `retained` lines are kept already; `None`
/// where the file is not read: no room is left, its size is not known, or it has too many bytes.
pub open spec fn untracked_cap(limits: DiffLimits, retained: nat, len: Option<u64>) -> Option<nat> {
    match len {
        None => None,
        Some(len) => if retained >= limits.max_total_lines || len > limits.max_file_bytes {
            None
        } else {
            Some(
                lesser(
                    limits.max_file_lines as int,
                    limits.max_total_lines - retained,
                ) as nat,
            )
        },
    }
}

/// The diff of an untracked file, all of it added, and how many lines are kept in all after it. The
/// contents are withheld where they are over a limit, and a file that is no text is binary.
pub open spec fn untracked(
    path: Seq<char>,
    limits: DiffLimits,
    retained: nat,
    len: Option<u64>,
    contents: Option<Seq<u8>>,
) -> (FileModel, nat) {
    if retained >= limits.max_total_lines {
        (stub(path, false), retained)
    } else {
        match untracked_cap(limits, retained, len) {
            None => (stub(path, len is None), retained),
            Some(cap) => match lines_in(len->0, contents) {
                None => (stub(path, true), retained),
                Some(lines) => if lines.len() > cap {
                    (stub(path, false), retained)
                } else {
                    (
                        FileModel {
                            file_path: path,
                            status: StatusModel::Untracked,
                            hunks: seq![
                                HunkModel {
                                    old_start_line: 0,
                                    old_line_count: 0,
                                    new_start_line: 1,
                                    new_line_count: lines.len(),
                                    lines: added_lines(lines),
                                },
                            ],
                            is_binary: false,
                            oversized: false,
                            additions: lines.len(),
                            deletions: 0,
                        },
                        retained + lines.len(),
                    )
                },
            },
        }
    }
}

/// How many lines of an untracked file of `len` bytes may be read; `None` where its contents need
/// not be read at all.
pub fn read_cap(limits: &DiffLimits, retained_total: usize, len: Option<u64>) -> (r: Option<usize>)
    ensures
        match untracked_cap(*limits, retained_total as nat, len) {
            Some(cap) => r matches Some(c) && c == cap,
            None => r is None,
        },
{
    let len: u64 = match len {
        Some(len) => len,
        None => return None,
    };
    if retained_total >= limits.max_total_lines || len > limits.max_file_bytes {
        return None;
    }
    let remaining: usize = limits.max_total_lines - retained_total;
    if limits.max_file_lines <= remaining {
        Some(limits.max_file_lines)
    } else {
        Some(remaining)
    }
}

/// The diff of an untracked file: `len` is its size where that is known, `contents` its bytes where
/// they were read. `retained_total` counts the lines that are kept in all.
pub fn synth_untracked(
    path: &str,
    limits: &DiffLimits,
    retained_total: &mut usize,
    len: Option<u64>,
    contents: Option<&[u8]>,
) -> (r: FileDiff)
    ensures
        (r@, *final(retained_total) as nat) == untracked(
            path@,
            *limits,
            *old(retained_total) as nat,
            len,
            match contents {
                Some(b) => Some(b@),
                None => None,
            },
        ),
{
    if *retained_total >= limits.max_total_lines {
        return untracked_stub(path, false);
    }
    let cap: usize = match read_cap(limits, *retained_total, len) {
        Some(cap) => cap,
        None => return untracked_stub(path, len.is_none()),
    };
    let byte_len: u64 = match len {
        Some(len) => len,
        None => return untracked_stub(path, true),
    };
    match scan_untracked_lines(contents, cap, byte_len) {
        FileScan::Text { lines } => {
            let count: usize = lines.len();
            assert(count == model::line_models(lines@).len());
            *retained_total = *retained_total + count;
            let mut hunks: Vec<DiffHunk> = Vec::new();
            hunks.push(
                DiffHunk {
                    old_start_line: 0,
                    old_line_count: 0,
                    new_start_line: 1,
                    new_line_count: count,
                    lines,
                },
            );
            assert(model::hunk_models(hunks@) == seq![hunks@[0]@]);
            FileDiff {
                file_path: path.to_owned(),
                status: GitFileStatus::Untracked,
                hunks,
                is_binary: false,
                oversized: false,
                additions: count,
                deletions: 0,
            }
        },
        FileScan::TooLarge => untracked_stub(path, false),
        FileScan::Binary => untracked_stub(path, true),
    }
}

/// A file that git does not track: its size where that is known, and its bytes where they were read.
pub struct UntrackedFile {
    pub path: String,
    pub len: Option<u64>,
    pub contents: Option<Vec<u8>>,
}

/// What an [`UntrackedFile`] says.
pub struct UntrackedModel {
    pub path: Seq<char>,
    pub len: Option<u64>,
    pub contents: Option<Seq<u8>>,
}

impl View for UntrackedFile {
    type V = UntrackedModel;

    open spec fn view(&self) -> UntrackedModel {
        UntrackedModel {
            path: self.path@,
            len: self.len,
            contents: match self.contents {
                Some(b) => Some(b@),
                None => None,
            },
        }
    }
}

/// The models of the untracked files.
pub open spec fn untracked_models(files: Seq<UntrackedFile>) -> Seq<UntrackedModel> {
    Seq::new(files.len(), |i: int| files[i]@)
}

/// The diffs of the untracked files from index `i` on, when `retained` lines are kept before them.
pub open spec fn untracked_from(
    files: Seq<UntrackedModel>,
    i: int,
    limits: DiffLimits,
    retained: nat,
) -> Seq<FileModel>
    decreases files.len() - i,
{
    if i < 0 || i >= files.len() {
        Seq::empty()
    } else {
        let (file, kept) = untracked(files[i].path, limits, retained, files[i].len, files[i].contents);
        seq![file] + untracked_from(files, i + 1, limits, kept)
    }
}

/// Whether a diff of the mode also shows untracked files.
pub open spec fn shows_untracked(host: Host, mode: mode::ModeModel) -> bool {
    host is Local && mode !is Branch
}

/// Whether a diff of the mode also shows untracked files.
pub fn wants_untracked(host: &Host, mode: &DiffMode) -> (r: bool)
    ensures
        r == shows_untracked(*host, mode@),
{
    host.is_local() && matches!(mode, DiffMode::WorkingTree | DiffMode::MergeBase(_))
}

/// The git arguments that list the untracked files.
pub fn untracked_args() -> (r: Vec<String>)
    ensures
        text::texts(r@) == seq!["ls-files"@, "--others"@, "--exclude-standard"@, "-z"@],
{
    let mut out: Vec<String> = Vec::new();
    text::push_text(&mut out, "ls-files");
    text::push_text(&mut out, "--others");
    text::push_text(&mut out, "--exclude-standard");
    text::push_text(&mut out, "-z");
    assert(text::texts(out@) == seq!["ls-files"@, "--others"@, "--exclude-standard"@, "-z"@]);
    out
}

/// Those of the texts that are not empty, in order.
pub open spec fn nonempty(v: Seq<Seq<char>>) -> Seq<Seq<char>> {
    v.filter(|s: Seq<char>| s.len() > 0)
}

/// The untracked paths in what git printed: separated by NUL characters, none empty.
pub fn untracked_paths(others: &str) -> (r: Vec<String>)
    ensures
        text::texts(r@) == nonempty(text::piece_texts(others@, '\0')),
{
    let pieces = text::split(others, '\0');
    let ghost all = text::texts(pieces@);
    let mut out: Vec<String> = Vec::new();
    let mut i: usize = 0;
    assert(nonempty(all.take(0)) == Seq::<Seq<char>>::empty()) by {
        reveal(Seq::filter);
    }
    while i < pieces.len()
        invariant
            i <= pieces@.len(),
            all == text::texts(pieces@),
            text::texts(out@) == nonempty(all.take(i as int)),
        decreases pieces@.len() - i,
    {
        let n: usize = text::chars_of(pieces[i].as_str()).len();
        assert(nonempty(all.take(i + 1)) == (if n > 0 {
            nonempty(all.take(i as int)).push(pieces@[i as int]@)
        } else {
            nonempty(all.take(i as int))
        })) by {
            reveal(Seq::filter);
            assert(all.take(i + 1).drop_last() == all.take(i as int));
            assert(all.take(i + 1).last() == pieces@[i as int]@);
        }
        if n > 0 {
            text::push_text(&mut out, pieces[i].as_str());
        }
        i += 1;
    }
    assert(all.take(i as int) == all);
    out
}

/// The files of a diff: those of git's patch, then the untracked ones where the mode shows them.
pub open spec fn diff_of(
    host: Host,
    mode: mode::ModeModel,
    patch: Seq<char>,
    others: Seq<UntrackedModel>,
    limits: DiffLimits,
) -> Result<Seq<FileModel>, parse::ParseErrorModel> {
    match parse::files_of(patch, limits) {
        Err(e) => Err(e),
        Ok(files) => if shows_untracked(host, mode) {
            Ok(files + untracked_from(others, 0, limits, parse::kept_lines(files)))
        } else {
            Ok(files)
        },
    }
}

/// A diff that is being put together: the files so far, and how many lines are kept of them.
pub struct PendingDiff {
    pub files: Vec<FileDiff>,
    pub retained_total: usize,
}

impl PendingDiff {
    /// The diff with the files of git's patch.
    pub fn begin(patch: &str, limits: &DiffLimits) -> (r: Result<PendingDiff, DiffParseError>)
        requires
            parse::patch_fits(patch@),
        ensures
            match parse::files_of(patch@, *limits) {
                Ok(files) => r matches Ok(p) && model::file_models(p.files@) == files
                    && p.retained_total == parse::kept_lines(files),
                Err(e) => r matches Err(x) && x@ == e,
            },
    {
        let files = match parse_bulk_diff(patch, limits) {
            Ok(files) => files,
            Err(e) => return Err(e),
        };
        proof {
            parse::limits_hold(patch@, *limits);
        }
        let ghost all = model::file_models(files@);
        let mut retained_total: usize = 0;
        let mut i: usize = 0;
        assert(all.skip(0) == all);
        while i < files.len()
            invariant
                i <= files@.len(),
                all == model::file_models(files@),
                retained_total + parse::kept_lines(all.skip(i as int)) == parse::kept_lines(all),
                parse::kept_lines(all) <= usize::MAX,
            decreases files@.len() - i,
        {
            assert(all.skip(i as int).skip(1) == all.skip(i + 1));
            assert(all.skip(i as int)[0] == files@[i as int]@);
            retained_total = retained_total + count_lines(&files[i].hunks);
            i += 1;
        }
        Ok(PendingDiff { files, retained_total })
    }

    /// Adds the diff of an untracked file.
    pub fn add_untracked(&mut self, file: &UntrackedFile, limits: &DiffLimits)
        ensures
            ({
                let (added, kept) = untracked(
                    file@.path,
                    *limits,
                    old(self).retained_total as nat,
                    file@.len,
                    file@.contents,
                );
                &&& model::file_models(final(self).files@) == model::file_models(
                    old(self).files@,
                ).push(added)
                &&& final(self).retained_total == kept
            }),
    {
        let contents: Option<&[u8]> = match &file.contents {
            Some(bytes) => Some(bytes.as_slice()),
            None => None,
        };
        let mut retained: usize = self.retained_total;
        let added = synth_untracked(file.path.as_str(), limits, &mut retained, file.len, contents);
        let ghost before = model::file_models(self.files@);
        self.files.push(added);
        self.retained_total = retained;
        assert(model::file_models(self.files@) == before.push(added@));
    }

    /// Whether the totals over the files are machine numbers, as [`PendingDiff::finish`] demands.
    pub fn totals_fit(&self) -> (r: bool)
        ensures
            r == (model::additions_of(model::file_models(self.files@)) <= usize::MAX
                && model::deletions_of(model::file_models(self.files@)) <= usize::MAX),
    {
        let ghost all = model::file_models(self.files@);
        let mut adds: usize = 0;
        let mut dels: usize = 0;
        let mut i: usize = 0;
        assert(all.take(0) == Seq::<FileModel>::empty());
        while i < self.files.len()
            invariant
                i <= self.files@.len(),
                all == model::file_models(self.files@),
                adds == model::additions_of(all.take(i as int)),
                dels == model::deletions_of(all.take(i as int)),
            decreases self.files@.len() - i,
        {
            assert(all.take(i + 1).drop_last() == all.take(i as int));
            proof {
                model::lemma_sums_grow(all, i + 1);
            }
            if self.files[i].additions > usize::MAX - adds || self.files[i].deletions > usize::MAX
                - dels {
                return false;
            }
            adds += self.files[i].additions;
            dels += self.files[i].deletions;
            i += 1;
        }
        assert(all.take(i as int) == all);
        true
    }

    /// The whole diff, with its totals.
    pub fn finish(self) -> (r: GitDiffData)
        requires
            model::additions_of(model::file_models(self.files@)) <= usize::MAX,
            model::deletions_of(model::file_models(self.files@)) <= usize::MAX,
        ensures
            r.files == self.files,
            r.total_additions == model::additions_of(model::file_models(self.files@)),
            r.total_deletions == model::deletions_of(model::file_models(self.files@)),
    {
        let mut data = GitDiffData {
            files: self.files,
            total_additions: 0,
            total_deletions: 0,
        };
        data.recompute_totals();
        data
    }
}

/// The diff of a repository: git's patch, and the untracked files where the mode shows them.
pub fn compute_diff(
    host: &Host,
    mode: &DiffMode,
    patch: &str,
    others: &[UntrackedFile],
    limits: &DiffLimits,
) -> (r: Result<GitDiffData, GitError>)
    requires
        parse::patch_fits(patch@),
        diff_of(*host, mode@, patch@, untracked_models(others@), *limits) matches Ok(files)
            ==> model::additions_of(files) <= usize::MAX && model::deletions_of(files)
            <= usize::MAX,
    ensures
        match diff_of(*host, mode@, patch@, untracked_models(others@), *limits) {
            Ok(files) => r matches Ok(d) && model::file_models(d.files@) == files
                && d.total_additions == model::additions_of(files) && d.total_deletions
                == model::deletions_of(files),
            Err(e) => r matches Err(x) && x@ == GitErrorModel::Parse(e),
        },
{
    let mut pending = match PendingDiff::begin(patch, limits) {
        Ok(pending) => pending,
        Err(e) => return Err(GitError::Parse(e)),
    };
    let ghost base = model::file_models(pending.files@);
    let ghost all = untracked_models(others@);
    if wants_untracked(host, mode) {
        let ghost added = untracked_from(all, 0, *limits, parse::kept_lines(base));
        let mut i: usize = 0;
        while i < others.len()
            invariant
                i <= others@.len(),
                all == untracked_models(others@),
                model::file_models(pending.files@) + untracked_from(
                    all,
                    i as int,
                    *limits,
                    pending.retained_total as nat,
                ) == base + added,
            decreases others@.len() - i,
        {
            let ghost before = model::file_models(pending.files@);
            let ghost retained = pending.retained_total as nat;
            assert(all[i as int] == others@[i as int]@);
            pending.add_untracked(&others[i], limits);
            assert(before + untracked_from(all, i as int, *limits, retained)
                == model::file_models(pending.files@) + untracked_from(
                all,
                i + 1,
                *limits,
                pending.retained_total as nat,
            ));
            i += 1;
        }
        assert(model::file_models(pending.files@) + Seq::<FileModel>::empty()
            == model::file_models(pending.files@));
    }
    Ok(pending.finish())
}

/// The first file with the given path.
pub open spec fn first_with_path(files: Seq<FileModel>, path: Seq<char>, i: int) -> Option<FileModel>
    decreases files.len() - i,
{
    if i < 0 || i >= files.len() {
        None
    } else if files[i].file_path == path {
        Some(files[i])
    } else {
        first_with_path(files, path, i + 1)
    }
}

/// The diff of one file: from its contents where it is untracked, else from git's patch for it.
pub fn compute_file_diff(
    path: &str,
    status: &GitFileStatus,
    patch: &str,
    len: Option<u64>,
    contents: Option<&[u8]>,
    limits: &DiffLimits,
) -> (r: Result<FileDiff, GitError>)
    requires
        status !is Untracked ==> parse::patch_fits(patch@),
    ensures
        if status is Untracked {
            r matches Ok(f) && f@ == untracked(
                path@,
                *limits,
                0,
                len,
                match contents {
                    Some(b) => Some(b@),
                    None => None,
                },
            ).0
        } else {
            match parse::files_of(patch@, *limits) {
                Err(e) => r matches Err(x) && x@ == GitErrorModel::Parse(e),
                Ok(files) => match first_with_path(files, path@, 0) {
                    Some(file) => r matches Ok(f) && f@ == file,
                    None => r matches Err(x) && x@ == GitErrorModel::NoDiff(path@),
                },
            }
        },
{
    if matches!(status, GitFileStatus::Untracked) {
        let mut retained_total: usize = 0;
        return Ok(synth_untracked(path, limits, &mut retained_total, len, contents));
    }
    let mut files = match parse_bulk_diff(patch, limits) {
        Ok(files) => files,
        Err(e) => return Err(GitError::Parse(e)),
    };
    let ghost all = model::file_models(files@);
    let mut i: usize = 0;
    while i < files.len()
        invariant
            i <= files@.len(),
            all == model::file_models(files@),
            status !is Untracked,
            parse::files_of(patch@, *limits) == Ok::<Seq<FileModel>, parse::ParseErrorModel>(all),
            first_with_path(all, path@, 0) == first_with_path(all, path@, i as int),
        decreases files@.len() - i,
    {
        assert(all[i as int] == files@[i as int]@);
        if text::same(files[i].file_path.as_str(), path) {
            let found = files.remove(i);
            assert(found@ == all[i as int]);
            return Ok(found);
        }
        i += 1;
    }
    Err(GitError::NoDiff(path.to_owned()))
}

/// Withheld or shown, an untracked file never takes more lines than are left of the total, nor more
/// than a file may have.
pub proof fn untracked_stays_in_limits(
    path: Seq<char>,
    limits: DiffLimits,
    retained: nat,
    len: Option<u64>,
    contents: Option<Seq<u8>>,
)
    requires
        retained <= limits.max_total_lines,
    ensures
        ({
            let (file, kept) = untracked(path, limits, retained, len, contents);
            &&& retained <= kept <= limits.max_total_lines
            &&& kept - retained <= limits.max_file_lines
            &&& kept - retained == model::line_total(file.hunks)
            &&& file.additions == kept - retained
            &&& file.deletions == 0
        }),
{
    let (file, kept) = untracked(path, limits, retained, len, contents);
    assert(model::line_total(Seq::<HunkModel>::empty()) == 0);
    if file.hunks.len() == 1 {
        assert(file.hunks.drop_last() == Seq::<HunkModel>::empty());
    }
}

/// A command for another host is one text in which each argument is quoted, with a blank before it.
pub proof fn remote_arguments_are_quoted(repo: Seq<char>, args: Seq<Seq<char>>, arg: Seq<char>)
    ensures
        remote_command(repo, Seq::empty()) == "git -C "@ + shell::quoted(repo),
        remote_command(repo, args.push(arg)) == remote_command(repo, args) + seq![' ']
            + shell::quoted(arg),
{
    assert(args.push(arg).drop_last() == args);
    assert(remote_command(repo, args).push(' ') == remote_command(repo, args) + seq![' ']);
}

/// Git is run in the repository: here with the arguments as they are, and on another host by a shell
/// there, which gets one text.
pub proof fn git_runs_in_the_repository(
    target: String,
    repo: Seq<char>,
    args: Seq<Seq<char>>,
)
    ensures
        ({
            let here = git_command_line(Host::Local, repo, args);
            let there = git_command_line(Host::Ssh(target), repo, args);
            &&& here.program == "git"@
            &&& here.args.len() == args.len() + 2 && here.args[0] == "-C"@ && here.args[1] == repo
            &&& here.args.skip(2) == args
            &&& there.program == "ssh"@
            &&& there.args.len() >= 3 && there.args.last() == remote_command(repo, args)
            &&& there.args[there.args.len() - 2] == "--"@ && there.args[there.args.len() - 3]
                == target@
        }),
{
}

/// A branch has the name that git prints, without white space around it, and none where it prints
/// nothing.
pub proof fn names_are_trimmed(before: Seq<char>, name: Seq<char>, behind: Seq<char>)
    requires
        text::all_space(before, true),
        text::all_space(behind, true),
        name.len() > 0 ==> !text::is_space(name[0]) && !text::is_space(name.last()),
    ensures
        name.len() > 0 ==> name_in(Some(before + name + behind)) == Some(name),
        name.len() == 0 ==> name_in(Some(before + name + behind)) is None,
        name_in(None) is None,
{
    text::only_outer_space_is_trimmed(before, name, behind);
}

/// What is compared with comes last: the last commit, a branch, or the base that git found, without
/// which there is nothing to compare with.
pub proof fn diffs_name_what_they_compare_with(branch: Seq<char>, base: Seq<char>)
    ensures
        (diff_args_of(mode::ModeModel::WorkingTree, base) matches Ok(a) && a.len() > 0 && a.last()
            == "HEAD"@ && a[0] == "diff"@),
        (diff_args_of(mode::ModeModel::Branch(branch), base) matches Ok(a) && a.len() > 0 && a.last()
            == branch && a[0] == "diff"@),
        text::trimmed(base).len() > 0 ==> (diff_args_of(mode::ModeModel::MergeBase(branch), base)
            matches Ok(a) && a.len() > 0 && a.last() == text::trimmed(base) && a[0] == "diff"@),
        text::trimmed(base).len() == 0 ==> diff_args_of(mode::ModeModel::MergeBase(branch), base)
            == Err::<Seq<Seq<char>>, GitErrorModel>(GitErrorModel::NoMergeBase(branch)),
{
}

/// The lines of a new file are all added and numbered from one on.
pub proof fn new_lines_are_numbered(lines: Seq<Seq<char>>, i: int)
    requires
        0 <= i < lines.len(),
    ensures
        added_lines(lines).len() == lines.len(),
        added_lines(lines)[i].line_type is Add,
        added_lines(lines)[i].text == lines[i],
        added_lines(lines)[i].new_line_number == Some((i + 1) as nat),
        added_lines(lines)[i].old_line_number is None,
        !added_lines(lines)[i].no_trailing_newline,
{
}

/// A file that git does not track is shown whole where it can be read as text and is within all limits.
/// It is marked as binary where it cannot be read, and as too large where a limit is in the way.
pub proof fn untracked_files_are_shown_within_limits(
    path: Seq<char>,
    limits: DiffLimits,
    retained: nat,
    len: u64,
    contents: Option<Seq<u8>>,
)
    ensures
        ({
            let (file, kept) = untracked(path, limits, retained, Some(len), contents);
            let room = retained < limits.max_total_lines && len <= limits.max_file_bytes;
            &&& file.file_path == path && file.status is Untracked && file.deletions == 0
            &&& !room ==> file.oversized && !file.is_binary && file.hunks.len() == 0 && kept
                == retained
            &&& room ==> match lines_in(len, contents) {
                None => file.is_binary && !file.oversized && file.hunks.len() == 0 && kept
                    == retained,
                Some(lines) => if lines.len() <= limits.max_file_lines && retained + lines.len()
                    <= limits.max_total_lines {
                    &&& !file.oversized && !file.is_binary
                    &&& file.hunks.len() == 1 && file.hunks[0].lines == added_lines(lines)
                    &&& file.hunks[0].new_start_line == 1 && file.hunks[0].new_line_count
                        == lines.len()
                    &&& file.hunks[0].old_start_line == 0 && file.hunks[0].old_line_count == 0
                    &&& file.additions == lines.len() && kept == retained + lines.len()
                } else {
                    &&& file.oversized && !file.is_binary && file.hunks.len() == 0
                    &&& file.additions == 0 && kept == retained
                },
            }
        }),
        ({
            let (file, kept) = untracked(path, limits, retained, None, contents);
            &&& kept == retained && file.hunks.len() == 0
            &&& file.is_binary <==> retained < limits.max_total_lines
            &&& file.oversized <==> !file.is_binary
        }),
{
}

/// An empty file has no lines, whatever is known of its contents. Another one has those of its text,
/// and none can be told where it is not text.
pub proof fn contents_are_read_as_text(len: u64, bytes: Seq<u8>, contents: Option<Seq<u8>>)
    ensures
        lines_in(0, contents) == Some(Seq::<Seq<char>>::empty()),
        len > 0 && vstd::utf8::valid_utf8(bytes) ==> lines_in(len, Some(bytes)) == Some(
            text::line_texts(vstd::utf8::decode_utf8(bytes)),
        ),
        len > 0 && !vstd::utf8::valid_utf8(bytes) ==> lines_in(len, Some(bytes)) is None,
        len > 0 ==> lines_in(len, None) is None,
{
}

/// The untracked files stand in their order, each with what the files before it have left of the
/// limits.
pub proof fn untracked_files_share_the_limits(
    files: Seq<UntrackedModel>,
    i: int,
    limits: DiffLimits,
    retained: nat,
    k: int,
)
    requires
        0 <= i <= k < files.len(),
    ensures
        ({
            let all = untracked_from(files, i, limits, retained);
            &&& all.len() == files.len() - i
            &&& all[k - i] == untracked(
                files[k].path,
                limits,
                retained + parse::kept_lines(all.take(k - i)),
                files[k].len,
                files[k].contents,
            ).0
        }),
    decreases files.len() - i,
{
    lemma_untracked_len(files, i, limits, retained);
    let all = untracked_from(files, i, limits, retained);
    let (file, kept) = untracked(files[i].path, limits, retained, files[i].len, files[i].contents);
    let rest = untracked_from(files, i + 1, limits, kept);
    assert(all == seq![file] + rest);
    if k == i {
        assert(all.take(0) =~= Seq::<FileModel>::empty());
    } else {
        untracked_files_share_the_limits(files, i + 1, limits, kept, k);
        let some = all.take(k - i);
        assert(some[0] == file);
        assert(some.skip(1) =~= rest.take(k - i - 1));
        assert(all[k - i] == rest[k - i - 1]);
        assert(kept == retained + model::line_total(file.hunks)) by {
            lemma_untracked_kept(
                files[i].path,
                limits,
                retained,
                files[i].len,
                files[i].contents,
            );
        }
    }
}

proof fn lemma_untracked_kept(
    path: Seq<char>,
    limits: DiffLimits,
    retained: nat,
    len: Option<u64>,
    contents: Option<Seq<u8>>,
)
    ensures
        ({
            let (file, kept) = untracked(path, limits, retained, len, contents);
            kept == retained + model::line_total(file.hunks)
        }),
{
    let (file, kept) = untracked(path, limits, retained, len, contents);
    if file.hunks.len() == 1 {
        assert(file.hunks.drop_last() =~= Seq::<HunkModel>::empty());
        reveal_with_fuel(model::line_total, 2);
    } else {
        assert(file.hunks.len() == 0);
    }
}

proof fn lemma_untracked_len(
    files: Seq<UntrackedModel>,
    i: int,
    limits: DiffLimits,
    retained: nat,
)
    requires
        0 <= i <= files.len(),
    ensures
        untracked_from(files, i, limits, retained).len() == files.len() - i,
    decreases files.len() - i,
{
    if i < files.len() {
        let (file, kept) = untracked(
            files[i].path,
            limits,
            retained,
            files[i].len,
            files[i].contents,
        );
        lemma_untracked_len(files, i + 1, limits, kept);
    }
}

/// Untracked files are part of a diff here, and not of one with a branch or on another host.
pub proof fn untracked_files_belong_to_local_work(target: String, branch: Seq<char>, m: mode::ModeModel)
    ensures
        shows_untracked(Host::Local, mode::ModeModel::WorkingTree),
        shows_untracked(Host::Local, mode::ModeModel::MergeBase(branch)),
        !shows_untracked(Host::Local, mode::ModeModel::Branch(branch)),
        !shows_untracked(Host::Ssh(target), m),
{
}

/// A diff has the files of the patch, and behind them the untracked ones where these are part of it,
/// with what the patch has left of the limits.
pub proof fn diffs_have_tracked_files_first(
    host: Host,
    mode: mode::ModeModel,
    patch: Seq<char>,
    others: Seq<UntrackedModel>,
    limits: DiffLimits,
)
    ensures
        match (diff_of(host, mode, patch, others, limits), parse::files_of(patch, limits)) {
            (Ok(all), Ok(files)) => {
                &&& files.is_prefix_of(all)
                &&& !shows_untracked(host, mode) ==> all == files
                &&& shows_untracked(host, mode) ==> all.len() == files.len() + others.len()
                    && all.skip(files.len() as int) == untracked_from(
                    others,
                    0,
                    limits,
                    parse::kept_lines(files),
                )
            },
            (Err(a), Err(b)) => a == b,
            _ => false,
        },
{
    if let Ok(files) = parse::files_of(patch, limits) {
        let more = untracked_from(others, 0, limits, parse::kept_lines(files));
        lemma_untracked_len(others, 0, limits, parse::kept_lines(files));
        assert((files + more).subrange(0, files.len() as int) =~= files);
        assert((files + more).skip(files.len() as int) =~= more);
        assert(files.subrange(0, files.len() as int) =~= files);
    }
}

/// A file is found under its path, the first one where several have it.
pub proof fn the_first_file_with_the_path_is_found(files: Seq<FileModel>, path: Seq<char>, i: int)
    requires
        0 <= i <= files.len(),
    ensures
        match first_with_path(files, path, i) {
            Some(f) => exists|k: int|
                i <= k < files.len() && #[trigger] files[k] == f && f.file_path == path && forall|
                    j: int,
                |
                    i <= j < k ==> (#[trigger] files[j]).file_path != path,
            None => forall|j: int| i <= j < files.len() ==> (#[trigger] files[j]).file_path != path,
        },
    decreases files.len() - i,
{
    if i < files.len() && files[i].file_path != path {
        the_first_file_with_the_path_is_found(files, path, i + 1);
    }
}

/// A file that git does not track is read where its length is known and within the limit, and where
/// there is room left. No more lines of it are read than both limits allow.
pub proof fn untracked_files_are_read_up_to_a_cap(
    limits: DiffLimits,
    retained: nat,
    len: Option<u64>,
    cap: nat,
)
    ensures
        untracked_cap(limits, retained, len) is Some <==> (len matches Some(n) && n
            <= limits.max_file_bytes) && retained < limits.max_total_lines,
        untracked_cap(limits, retained, len) == Some(cap) ==> {
            &&& cap <= limits.max_file_lines && cap + retained <= limits.max_total_lines
            &&& cap == limits.max_file_lines || cap + retained == limits.max_total_lines
        },
{
}

/// A diff is asked for in plain text, made by git itself, and with renames found.
pub proof fn diffs_are_plain(base: Seq<char>, m: mode::ModeModel)
    ensures
        diff_args_of(m, base) matches Ok(a) ==> {
            &&& a.contains("--no-ext-diff"@) && a.contains("--no-color"@)
            &&& a.contains("--find-renames"@)
        },
{
    let o = diff_options();
    assert(o[1] == "--no-ext-diff"@ && o[2] == "--no-color"@ && o[3] == "--find-renames"@);
    if let Ok(a) = diff_args_of(m, base) {
        assert(a[1] == o[1] && a[2] == o[2] && a[3] == o[3]);
    }
}

/// What a list says, it says item by item: each stands in its place, and none is added or left out.
pub proof fn items_keep_their_places(v: Seq<UntrackedFile>, i: int)
    ensures
        untracked_models(v).len() == v.len(),
        0 <= i < v.len() ==> untracked_models(v)[i] == v[i]@,
{
}

} // verus!
