//! Files, hunks and lines of a diff, with the totals and limits that go with them.
use crate::text;
use core::ops::Range;
use vstd::prelude::*;

verus! {

/// What a line of a hunk does.
#[derive(Clone, Copy, Debug, PartialEq, Eq, Structural)]
pub enum DiffLineType {
    Context,
    Add,
    Delete,
}

/// One side of a diff.
#[derive(Clone, Copy, Debug, PartialEq, Eq, Hash, Structural)]
pub enum Side {
    Old,
    New,
}

/// One line of a hunk, with its number on each side that has it.
#[derive(Clone, Debug, PartialEq, Eq)]
pub struct DiffLine {
    pub line_type: DiffLineType,
    pub old_line_number: Option<usize>,
    pub new_line_number: Option<usize>,
    pub text: String,
    pub no_trailing_newline: bool,
}

/// What a [`DiffLine`] says.
#[verifier::ext_equal]
pub struct LineModel {
    pub line_type: DiffLineType,
    pub old_line_number: Option<nat>,
    pub new_line_number: Option<nat>,
    pub text: Seq<char>,
    pub no_trailing_newline: bool,
}

/// An optional machine number as a natural number.
pub open spec fn nat_of(n: Option<usize>) -> Option<nat> {
    match n {
        Some(n) => Some(n as nat),
        None => None,
    }
}

impl View for DiffLine {
    type V = LineModel;

    open spec fn view(&self) -> LineModel {
        LineModel {
            line_type: self.line_type,
            old_line_number: nat_of(self.old_line_number),
            new_line_number: nat_of(self.new_line_number),
            text: self.text@,
            no_trailing_newline: self.no_trailing_newline,
        }
    }
}

/// The models of the lines.
pub open spec fn line_models(lines: Seq<DiffLine>) -> Seq<LineModel> {
    Seq::new(lines.len(), |i: int| lines[i]@)
}

/// The character that a diff prints in front of a line.
pub open spec fn marker_of(line_type: DiffLineType) -> char {
    match line_type {
        DiffLineType::Add => '+',
        DiffLineType::Delete => '-',
        DiffLineType::Context => ' ',
    }
}

impl DiffLine {
    /// The character that a diff prints in front of the line.
    pub fn marker(&self) -> (r: char)
        ensures
            r == marker_of(self.line_type),
    {
        match self.line_type {
            DiffLineType::Add => '+',
            DiffLineType::Delete => '-',
            DiffLineType::Context => ' ',
        }
    }
}

/// A run of lines, with the range that it covers on each side.
#[derive(Clone, Debug, PartialEq, Eq)]
pub struct DiffHunk {
    pub old_start_line: usize,
    pub old_line_count: usize,
    pub new_start_line: usize,
    pub new_line_count: usize,
    pub lines: Vec<DiffLine>,
}

/// What a [`DiffHunk`] says.
#[verifier::ext_equal]
pub struct HunkModel {
    pub old_start_line: nat,
    pub old_line_count: nat,
    pub new_start_line: nat,
    pub new_line_count: nat,
    pub lines: Seq<LineModel>,
}

impl View for DiffHunk {
    type V = HunkModel;

    open spec fn view(&self) -> HunkModel {
        HunkModel {
            old_start_line: self.old_start_line as nat,
            old_line_count: self.old_line_count as nat,
            new_start_line: self.new_start_line as nat,
            new_line_count: self.new_line_count as nat,
            lines: line_models(self.lines@),
        }
    }
}

/// The models of the hunks.
pub open spec fn hunk_models(hunks: Seq<DiffHunk>) -> Seq<HunkModel> {
    Seq::new(hunks.len(), |i: int| hunks[i]@)
}

/// The header line of a hunk with these ranges.
pub open spec fn header_line(
    old_start: nat,
    old_count: nat,
    new_start: nat,
    new_count: nat,
) -> Seq<char> {
    seq!['@', '@', ' ', '-'] + text::decimal(old_start) + seq![','] + text::decimal(old_count) + seq![
        ' ',
        '+',
    ] + text::decimal(new_start) + seq![','] + text::decimal(new_count) + seq![' ', '@', '@']
}

impl DiffHunk {
    /// The header line of the hunk.
    pub fn header_text(&self) -> (r: String)
        ensures
            r@ == header_line(
                self.old_start_line as nat,
                self.old_line_count as nat,
                self.new_start_line as nat,
                self.new_line_count as nat,
            ),
    {
        let mut out = String::new();
        out.push('@');
        out.push('@');
        out.push(' ');
        out.push('-');
        assert(out@ == seq!['@', '@', ' ', '-']);
        text::push_decimal(&mut out, self.old_start_line as u64);
        out.push(',');
        text::push_decimal(&mut out, self.old_line_count as u64);
        out.push(' ');
        out.push('+');
        text::push_decimal(&mut out, self.new_start_line as u64);
        out.push(',');
        text::push_decimal(&mut out, self.new_line_count as u64);
        out.push(' ');
        out.push('@');
        out.push('@');
        out
    }
}

/// What happened to a file.
#[derive(Clone, Debug, PartialEq, Eq)]
pub enum GitFileStatus {
    New,
    Modified,
    Deleted,
    Renamed { old_path: String },
    Copied { old_path: String },
    Untracked,
    Conflicted,
}

/// What a [`GitFileStatus`] says.
#[verifier::ext_equal]
pub enum StatusModel {
    New,
    Modified,
    Deleted,
    Renamed { old_path: Seq<char> },
    Copied { old_path: Seq<char> },
    Untracked,
    Conflicted,
}

impl View for GitFileStatus {
    type V = StatusModel;

    open spec fn view(&self) -> StatusModel {
        match self {
            GitFileStatus::New => StatusModel::New,
            GitFileStatus::Modified => StatusModel::Modified,
            GitFileStatus::Deleted => StatusModel::Deleted,
            GitFileStatus::Renamed { old_path } => StatusModel::Renamed { old_path: old_path@ },
            GitFileStatus::Copied { old_path } => StatusModel::Copied { old_path: old_path@ },
            GitFileStatus::Untracked => StatusModel::Untracked,
            GitFileStatus::Conflicted => StatusModel::Conflicted,
        }
    }
}

impl GitFileStatus {
    /// Whether the file was not there before.
    pub fn is_new_file(&self) -> (r: bool)
        ensures
            r == (self is New || self is Untracked),
    {
        matches!(self, GitFileStatus::New | GitFileStatus::Untracked)
    }

    /// The status as one word.
    pub fn label(&self) -> (r: &'static str)
        ensures
            r@ == (match self {
                GitFileStatus::New => "new"@,
                GitFileStatus::Modified => "modified"@,
                GitFileStatus::Deleted => "deleted"@,
                GitFileStatus::Renamed { .. } => "renamed"@,
                GitFileStatus::Copied { .. } => "copied"@,
                GitFileStatus::Untracked => "untracked"@,
                GitFileStatus::Conflicted => "conflicted"@,
            }),
    {
        match self {
            GitFileStatus::New => "new",
            GitFileStatus::Modified => "modified",
            GitFileStatus::Deleted => "deleted",
            GitFileStatus::Renamed { .. } => "renamed",
            GitFileStatus::Copied { .. } => "copied",
            GitFileStatus::Untracked => "untracked",
            GitFileStatus::Conflicted => "conflicted",
        }
    }
}

/// The diff of one file.
#[derive(Clone, Debug, PartialEq, Eq)]
pub struct FileDiff {
    pub file_path: String,
    pub status: GitFileStatus,
    pub hunks: Vec<DiffHunk>,
    pub is_binary: bool,
    pub oversized: bool,
    pub additions: usize,
    pub deletions: usize,
}

/// What a [`FileDiff`] says.
#[verifier::ext_equal]
pub struct FileModel {
    pub file_path: Seq<char>,
    pub status: StatusModel,
    pub hunks: Seq<HunkModel>,
    pub is_binary: bool,
    pub oversized: bool,
    pub additions: nat,
    pub deletions: nat,
}

impl View for FileDiff {
    type V = FileModel;

    open spec fn view(&self) -> FileModel {
        FileModel {
            file_path: self.file_path@,
            status: self.status@,
            hunks: hunk_models(self.hunks@),
            is_binary: self.is_binary,
            oversized: self.oversized,
            additions: self.additions as nat,
            deletions: self.deletions as nat,
        }
    }
}

/// The models of the files.
pub open spec fn file_models(files: Seq<FileDiff>) -> Seq<FileModel> {
    Seq::new(files.len(), |i: int| files[i]@)
}

impl FileDiff {
    /// Whether there is nothing to show for the file.
    pub fn is_empty(&self) -> (r: bool)
        ensures
            r == (self.additions == 0 && self.deletions == 0 && !self.is_binary),
    {
        self.additions == 0 && self.deletions == 0 && !self.is_binary
    }
}

/// How many of the lines have the given type.
pub open spec fn lines_of_type(lines: Seq<LineModel>, line_type: DiffLineType) -> nat
    decreases lines.len(),
{
    if lines.len() == 0 {
        0
    } else {
        lines_of_type(lines.drop_last(), line_type) + (if lines.last().line_type == line_type {
            1nat
        } else {
            0nat
        })
    }
}

/// How many lines of the hunks have the given type.
pub open spec fn changes(hunks: Seq<HunkModel>, line_type: DiffLineType) -> nat
    decreases hunks.len(),
{
    if hunks.len() == 0 {
        0
    } else {
        changes(hunks.drop_last(), line_type) + lines_of_type(hunks.last().lines, line_type)
    }
}

/// How many lines the hunks hold.
pub open spec fn line_total(hunks: Seq<HunkModel>) -> nat
    decreases hunks.len(),
{
    if hunks.len() == 0 {
        0
    } else {
        line_total(hunks.drop_last()) + hunks.last().lines.len()
    }
}

/// The additions and the deletions among the lines of the hunks.
pub fn count_changes(hunks: &[DiffHunk]) -> (r: (usize, usize))
    requires
        line_total(hunk_models(hunks@)) <= usize::MAX,
    ensures
        r.0 == changes(hunk_models(hunks@), DiffLineType::Add),
        r.1 == changes(hunk_models(hunks@), DiffLineType::Delete),
{
    let ghost all = hunk_models(hunks@);
    let mut adds: usize = 0;
    let mut dels: usize = 0;
    let mut i: usize = 0;
    assert(all.take(0) == Seq::<HunkModel>::empty());
    while i < hunks.len()
        invariant
            i <= hunks@.len(),
            all == hunk_models(hunks@),
            line_total(all) <= usize::MAX,
            adds == changes(all.take(i as int), DiffLineType::Add),
            dels == changes(all.take(i as int), DiffLineType::Delete),
            adds + dels <= line_total(all.take(i as int)),
        decreases hunks@.len() - i,
    {
        let ghost adds_before = adds as nat;
        let ghost dels_before = dels as nat;
        let ghost lines = all[i as int].lines;
        let hunk = &hunks[i];
        let mut j: usize = 0;
        assert(all.take(i + 1).drop_last() == all.take(i as int));
        proof {
            lemma_line_total_grows(all, i + 1);
        }
        assert(lines.take(0) == Seq::<LineModel>::empty());
        while j < hunk.lines.len()
            invariant
                i < hunks@.len(),
                j <= hunk.lines@.len(),
                *hunk == hunks@[i as int],
                lines == line_models(hunk.lines@),
                adds == adds_before + lines_of_type(lines.take(j as int), DiffLineType::Add),
                dels == dels_before + lines_of_type(lines.take(j as int), DiffLineType::Delete),
                adds + dels <= adds_before + dels_before + j,
                adds_before + dels_before + lines.len() <= usize::MAX,
            decreases hunk.lines@.len() - j,
        {
            assert(lines.take(j + 1).drop_last() == lines.take(j as int));
            match hunk.lines[j].line_type {
                DiffLineType::Add => {
                    adds += 1;
                },
                DiffLineType::Delete => {
                    dels += 1;
                },
                DiffLineType::Context => {},
            }
            j += 1;
        }
        assert(lines.take(j as int) == lines);
        i += 1;
    }
    assert(all.take(i as int) == all);
    (adds, dels)
}

/// A first part of the hunks holds no more lines than all of them.
pub proof fn lemma_line_total_grows(hunks: Seq<HunkModel>, i: int)
    requires
        0 <= i <= hunks.len(),
    ensures
        line_total(hunks.take(i)) <= line_total(hunks),
    decreases hunks.len() - i,
{
    if i < hunks.len() {
        lemma_line_total_grows(hunks, i + 1);
        assert(hunks.take(i + 1).drop_last() == hunks.take(i));
    } else {
        assert(hunks.take(i) == hunks);
    }
}

/// How many lines the hunks hold.
pub fn count_lines(hunks: &[DiffHunk]) -> (r: usize)
    requires
        line_total(hunk_models(hunks@)) <= usize::MAX,
    ensures
        r == line_total(hunk_models(hunks@)),
{
    let ghost all = hunk_models(hunks@);
    let mut total: usize = 0;
    let mut i: usize = 0;
    assert(all.take(0) == Seq::<HunkModel>::empty());
    while i < hunks.len()
        invariant
            i <= hunks@.len(),
            all == hunk_models(hunks@),
            line_total(all) <= usize::MAX,
            total == line_total(all.take(i as int)),
        decreases hunks@.len() - i,
    {
        assert(all.take(i + 1).drop_last() == all.take(i as int));
        proof {
            lemma_line_total_grows(all, i + 1);
        }
        total += hunks[i].lines.len();
        i += 1;
    }
    assert(all.take(i as int) == all);
    total
}

/// A whole diff: its files and their totals.
#[derive(Clone, Debug)]
pub struct GitDiffData {
    pub files: Vec<FileDiff>,
    pub total_additions: usize,
    pub total_deletions: usize,
}

impl Default for GitDiffData {
    fn default() -> (r: GitDiffData)
        ensures
            r.files@.len() == 0,
            r.total_additions == 0,
            r.total_deletions == 0,
    {
        GitDiffData { files: Vec::new(), total_additions: 0, total_deletions: 0 }
    }
}

/// The sum of the additions of the files.
pub open spec fn additions_of(files: Seq<FileModel>) -> nat
    decreases files.len(),
{
    if files.len() == 0 {
        0
    } else {
        additions_of(files.drop_last()) + files.last().additions
    }
}

/// The sum of the deletions of the files.
pub open spec fn deletions_of(files: Seq<FileModel>) -> nat
    decreases files.len(),
{
    if files.len() == 0 {
        0
    } else {
        deletions_of(files.drop_last()) + files.last().deletions
    }
}

/// A first part of the files has no more additions or deletions than all of them.
pub proof fn lemma_sums_grow(files: Seq<FileModel>, i: int)
    requires
        0 <= i <= files.len(),
    ensures
        additions_of(files.take(i)) <= additions_of(files),
        deletions_of(files.take(i)) <= deletions_of(files),
    decreases files.len() - i,
{
    if i < files.len() {
        lemma_sums_grow(files, i + 1);
        assert(files.take(i + 1).drop_last() == files.take(i));
    } else {
        assert(files.take(i) == files);
    }
}

impl GitDiffData {
    /// How many files the diff touches.
    pub fn files_changed(&self) -> (r: usize)
        ensures
            r == self.files@.len(),
    {
        self.files.len()
    }

    /// Whether the diff touches any file.
    pub fn is_dirty(&self) -> (r: bool)
        ensures
            r == (self.files@.len() > 0),
    {
        self.files.len() > 0
    }

    /// Sets the totals to the sums over the files.
    pub fn recompute_totals(&mut self)
        requires
            additions_of(file_models(old(self).files@)) <= usize::MAX,
            deletions_of(file_models(old(self).files@)) <= usize::MAX,
        ensures
            final(self).files == old(self).files,
            final(self).total_additions == additions_of(file_models(old(self).files@)),
            final(self).total_deletions == deletions_of(file_models(old(self).files@)),
    {
        let ghost all = file_models(self.files@);
        let mut adds: usize = 0;
        let mut dels: usize = 0;
        let mut i: usize = 0;
        assert(all.take(0) == Seq::<FileModel>::empty());
        while i < self.files.len()
            invariant
                i <= self.files@.len(),
                all == file_models(self.files@),
                self.files == old(self).files,
                additions_of(all) <= usize::MAX,
                deletions_of(all) <= usize::MAX,
                adds == additions_of(all.take(i as int)),
                dels == deletions_of(all.take(i as int)),
            decreases self.files@.len() - i,
        {
            assert(all.take(i + 1).drop_last() == all.take(i as int));
            proof {
                lemma_sums_grow(all, i + 1);
            }
            adds += self.files[i].additions;
            dels += self.files[i].deletions;
            i += 1;
        }
        assert(all.take(i as int) == all);
        self.total_additions = adds;
        self.total_deletions = dels;
    }
}

/// How much of a diff is kept.
#[derive(Clone, Copy, Debug)]
pub struct DiffLimits {
    pub max_file_lines: usize,
    pub max_total_lines: usize,
    pub max_file_bytes: u64,
}

impl Default for DiffLimits {
    /// The limits for an overview of a whole working tree.
    fn default() -> (r: DiffLimits)
        ensures
            r.max_file_lines == 20_000,
            r.max_total_lines == 200_000,
            r.max_file_bytes == 4_194_304,
    {
        DiffLimits { max_file_lines: 20_000, max_total_lines: 200_000, max_file_bytes: 4_194_304 }
    }
}

impl DiffLimits {
    /// The limits for one file that was asked for.
    pub fn on_demand() -> (r: DiffLimits)
        ensures
            r.max_file_lines == 2_000_000,
            r.max_total_lines == 2_000_000,
            r.max_file_bytes == 268_435_456,
    {
        DiffLimits {
            max_file_lines: 2_000_000,
            max_total_lines: 2_000_000,
            max_file_bytes: 268_435_456,
        }
    }
}

/// How many lines of the new side lie between the two hunks.
pub fn hunk_gap(prev: &DiffHunk, next: &DiffHunk) -> (r: usize)
    requires
        prev.new_start_line + prev.new_line_count <= usize::MAX,
    ensures
        r == (if next.new_start_line >= prev.new_start_line + prev.new_line_count {
            next.new_start_line - (prev.new_start_line + prev.new_line_count)
        } else {
            0
        }),
{
    let prev_end: usize = prev.new_start_line + prev.new_line_count;
    next.new_start_line.saturating_sub(prev_end)
}

/// The lines of the new side that the hunk covers.
pub fn hunk_new_range(hunk: &DiffHunk) -> (r: Range<usize>)
    requires
        hunk.new_start_line + hunk.new_line_count <= usize::MAX,
    ensures
        r.start == hunk.new_start_line,
        r.end == hunk.new_start_line + hunk.new_line_count,
{
    hunk.new_start_line..(hunk.new_start_line + hunk.new_line_count)
}

proof fn lemma_flatten_last<A>(parts: Seq<Seq<A>>)
    requires
        parts.len() > 0,
    ensures
        parts.flatten() == parts.drop_last().flatten() + parts.last(),
{
    parts.lemma_flatten_and_flatten_alt_are_equivalent();
    parts.drop_last().lemma_flatten_and_flatten_alt_are_equivalent();
}

proof fn lemma_lines_of_type(lines: Seq<LineModel>, line_type: DiffLineType)
    ensures
        lines_of_type(lines, line_type) == lines.filter(
            |l: LineModel| l.line_type == line_type,
        ).len(),
    decreases lines.len(),
{
    reveal(Seq::filter);
    if lines.len() > 0 {
        lemma_lines_of_type(lines.drop_last(), line_type);
    }
}

/// The changes of a kind are the lines of that kind of all hunks, and the lines that count are all
/// lines of all hunks.
pub proof fn all_lines_are_counted(hunks: Seq<HunkModel>, line_type: DiffLineType)
    ensures
        line_total(hunks) == hunks.map_values(|h: HunkModel| h.lines).flatten().len(),
        changes(hunks, line_type) == hunks.map_values(|h: HunkModel| h.lines).flatten().filter(
            |l: LineModel| l.line_type == line_type,
        ).len(),
    decreases hunks.len(),
{
    let get = |h: HunkModel| h.lines;
    let of_type = |l: LineModel| l.line_type == line_type;
    let parts = hunks.map_values(get);
    if hunks.len() > 0 {
        all_lines_are_counted(hunks.drop_last(), line_type);
        assert(parts.drop_last() =~= hunks.drop_last().map_values(get));
        assert(parts.last() == hunks.last().lines);
        lemma_flatten_last(parts);
        Seq::filter_distributes_over_add(parts.drop_last().flatten(), parts.last(), of_type);
        lemma_lines_of_type(hunks.last().lines, line_type);
    } else {
        assert(parts.flatten() =~= Seq::<LineModel>::empty());
        reveal(Seq::filter);
    }
}

/// The totals of a diff are the sums over all its files.
pub proof fn totals_are_sums(files: Seq<FileModel>)
    ensures
        additions_of(files) == files.fold_left(0int, |n: int, f: FileModel| n + f.additions),
        deletions_of(files) == files.fold_left(0int, |n: int, f: FileModel| n + f.deletions),
    decreases files.len(),
{
    reveal(Seq::fold_left);
    if files.len() > 0 {
        totals_are_sums(files.drop_last());
    }
}

/// A line is marked by a plus where it was added, by a minus where it was deleted, and by a blank where
/// it was neither.
pub proof fn lines_are_marked(line_type: DiffLineType)
    ensures
        marker_of(line_type) == '+' <==> line_type is Add,
        marker_of(line_type) == '-' <==> line_type is Delete,
        marker_of(line_type) == ' ' <==> line_type is Context,
{
}

/// What a list says, it says item by item: each stands in its place, and none is added or left out.
pub proof fn items_keep_their_places(a: Seq<DiffLine>, b: Seq<DiffHunk>, c: Seq<FileDiff>, i: int)
    ensures
        line_models(a).len() == a.len(),
        0 <= i < a.len() ==> line_models(a)[i] == a[i]@,
        hunk_models(b).len() == b.len(),
        0 <= i < b.len() ==> hunk_models(b)[i] == b[i]@,
        file_models(c).len() == c.len(),
        0 <= i < c.len() ==> file_models(c)[i] == c[i]@,
{
}

} // verus!
