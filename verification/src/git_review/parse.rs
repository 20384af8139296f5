//! Parsing unified diffs as `git diff` prints them.
use crate::git_review::model;
use crate::git_review::model::{
    count_changes, count_lines, DiffHunk, DiffLimits, DiffLine, DiffLineType, FileDiff, FileModel,
    GitFileStatus, HunkModel, LineModel, StatusModel,
};
use crate::lists;
use crate::text;
use vstd::prelude::*;

verus! {

/// The ranges of a hunk header.
#[derive(Clone, Copy, Debug, PartialEq, Eq, Structural)]
pub struct UnifiedDiffHeader {
    pub old_start_line: usize,
    pub old_line_count: usize,
    pub new_start_line: usize,
    pub new_line_count: usize,
}

/// Why a diff was not understood.
#[derive(Clone, Debug, PartialEq, Eq)]
pub enum DiffParseError {
    RangeStart(String),
    RangeCount(String),
    Range(String),
    Header(String),
    HeaderFormat(String),
    OldRange(String),
    NewRange(String),
    NoPath,
}

/// What a [`DiffParseError`] says.
#[verifier::ext_equal]
pub enum ParseErrorModel {
    RangeStart(Seq<char>),
    RangeCount(Seq<char>),
    Range(Seq<char>),
    Header(Seq<char>),
    HeaderFormat(Seq<char>),
    OldRange(Seq<char>),
    NewRange(Seq<char>),
    NoPath,
}

impl View for DiffParseError {
    type V = ParseErrorModel;

    open spec fn view(&self) -> ParseErrorModel {
        match self {
            DiffParseError::RangeStart(s) => ParseErrorModel::RangeStart(s@),
            DiffParseError::RangeCount(s) => ParseErrorModel::RangeCount(s@),
            DiffParseError::Range(s) => ParseErrorModel::Range(s@),
            DiffParseError::Header(s) => ParseErrorModel::Header(s@),
            DiffParseError::HeaderFormat(s) => ParseErrorModel::HeaderFormat(s@),
            DiffParseError::OldRange(s) => ParseErrorModel::OldRange(s@),
            DiffParseError::NewRange(s) => ParseErrorModel::NewRange(s@),
            DiffParseError::NoPath => ParseErrorModel::NoPath,
        }
    }
}

/// The message for an error.
pub open spec fn parse_error_message(e: ParseErrorModel) -> Seq<char> {
    match e {
        ParseErrorModel::RangeStart(s) => "invalid range start: "@ + s,
        ParseErrorModel::RangeCount(s) => "invalid range count: "@ + s,
        ParseErrorModel::Range(s) => "invalid range: "@ + s,
        ParseErrorModel::Header(s) => "invalid unified diff header: "@ + s,
        ParseErrorModel::HeaderFormat(s) => "invalid unified diff header format: "@ + s,
        ParseErrorModel::OldRange(s) => "invalid old range: "@ + s,
        ParseErrorModel::NewRange(s) => "invalid new range: "@ + s,
        ParseErrorModel::NoPath => "could not determine path for diff section"@,
    }
}

impl DiffParseError {
    /// The error in words.
    pub fn message(&self) -> (r: String)
        ensures
            r@ == parse_error_message(self@),
    {
        match self {
            DiffParseError::RangeStart(s) => text::concat("invalid range start: ", s.as_str()),
            DiffParseError::RangeCount(s) => text::concat("invalid range count: ", s.as_str()),
            DiffParseError::Range(s) => text::concat("invalid range: ", s.as_str()),
            DiffParseError::Header(s) => text::concat("invalid unified diff header: ", s.as_str()),
            DiffParseError::HeaderFormat(s) => text::concat(
                "invalid unified diff header format: ",
                s.as_str(),
            ),
            DiffParseError::OldRange(s) => text::concat("invalid old range: ", s.as_str()),
            DiffParseError::NewRange(s) => text::concat("invalid new range: ", s.as_str()),
            DiffParseError::NoPath => "could not determine path for diff section".to_owned(),
        }
    }
}

/// `pre` in front of what `r` holds, where it is no error.
pub open spec fn prepend<T, E>(pre: Seq<T>, r: Result<Seq<T>, E>) -> Result<Seq<T>, E> {
    match r {
        Ok(rest) => Ok(pre + rest),
        Err(e) => Err(e),
    }
}

/// A start and a count: `start,count`, or `start` for a count of 1.
pub open spec fn range_of(s: Seq<char>) -> Result<(nat, nat), ParseErrorModel> {
    let comma = text::find_char(s, ',', 0);
    if comma < s.len() {
        match text::bounded_number(s.take(comma), usize::MAX as nat) {
            None => Err(ParseErrorModel::RangeStart(s)),
            Some(start) => match text::bounded_number(s.skip(comma + 1), usize::MAX as nat) {
                None => Err(ParseErrorModel::RangeCount(s)),
                Some(count) => Ok((start, count)),
            },
        }
    } else {
        match text::bounded_number(s, usize::MAX as nat) {
            None => Err(ParseErrorModel::Range(s)),
            Some(start) => Ok((start, 1)),
        }
    }
}

/// Reads `start,count`, or `start` for a count of 1.
pub fn parse_range(range_str: &str) -> (r: Result<(usize, usize), DiffParseError>)
    ensures
        match range_of(range_str@) {
            Ok((start, count)) => r matches Ok((s, c)) && s == start && c == count,
            Err(e) => r matches Err(x) && x@ == e,
        },
{
    let cs = text::chars_of(range_str);
    let comma: usize = text::index_of(&cs, ',', 0);
    let max: u64 = usize::MAX as u64;
    if comma < cs.len() {
        let first = text::string_of(&cs, 0, comma);
        let second = text::string_of(&cs, comma + 1, cs.len());
        assert(first@ == range_str@.take(comma as int));
        assert(second@ == range_str@.skip(comma + 1));
        match text::parse_number(first.as_str(), max) {
            None => Err(DiffParseError::RangeStart(range_str.to_owned())),
            Some(start) => match text::parse_number(second.as_str(), max) {
                None => Err(DiffParseError::RangeCount(range_str.to_owned())),
                Some(count) => Ok((start as usize, count as usize)),
            },
        }
    } else {
        match text::parse_number(range_str, max) {
            None => Err(DiffParseError::Range(range_str.to_owned())),
            Some(start) => Ok((start as usize, 1)),
        }
    }
}

/// The ranges of a hunk header as natural numbers.
pub struct HeaderModel {
    pub old_start_line: nat,
    pub old_line_count: nat,
    pub new_start_line: nat,
    pub new_line_count: nat,
}

impl View for UnifiedDiffHeader {
    type V = HeaderModel;

    open spec fn view(&self) -> HeaderModel {
        HeaderModel {
            old_start_line: self.old_start_line as nat,
            old_line_count: self.old_line_count as nat,
            new_start_line: self.new_start_line as nat,
            new_line_count: self.new_line_count as nat,
        }
    }
}

/// Whether the line opens a hunk.
pub open spec fn opens_hunk(line: Seq<char>) -> bool {
    text::is_prefix(line, "@@"@)
}

/// The ranges that a hunk header names: its second word after `-` and its third after `+`.
pub open spec fn header_of(line: Seq<char>) -> Result<HeaderModel, ParseErrorModel> {
    let words = text::word_texts(line);
    if !opens_hunk(line) {
        Err(ParseErrorModel::Header(line))
    } else if words.len() < 3 {
        Err(ParseErrorModel::HeaderFormat(line))
    } else {
        match text::after_prefix(words[1], "-"@) {
            None => Err(ParseErrorModel::OldRange(line)),
            Some(old_range) => match text::after_prefix(words[2], "+"@) {
                None => Err(ParseErrorModel::NewRange(line)),
                Some(new_range) => match range_of(old_range) {
                    Err(e) => Err(e),
                    Ok((old_start, old_count)) => match range_of(new_range) {
                        Err(e) => Err(e),
                        Ok((new_start, new_count)) => Ok(
                            HeaderModel {
                                old_start_line: old_start,
                                old_line_count: old_count,
                                new_start_line: new_start,
                                new_line_count: new_count,
                            },
                        ),
                    },
                },
            },
        }
    }
}

/// Reads the header line of a hunk.
pub fn parse_unified_diff_header(header_line: &str) -> (r: Result<
    UnifiedDiffHeader,
    DiffParseError,
>)
    ensures
        match header_of(header_line@) {
            Ok(h) => r matches Ok(x) && x@ == h,
            Err(e) => r matches Err(x) && x@ == e,
        },
{
    if !text::starts_with(header_line, "@@") {
        return Err(DiffParseError::Header(header_line.to_owned()));
    }
    let words = text::split_whitespace(header_line);
    assert(words@.len() == text::texts(words@).len());
    if words.len() < 3 {
        return Err(DiffParseError::HeaderFormat(header_line.to_owned()));
    }
    assert(words@[1]@ == text::texts(words@)[1]);
    assert(words@[2]@ == text::texts(words@)[2]);
    let old_range = match text::strip_prefix(words[1].as_str(), "-") {
        Some(rest) => rest,
        None => return Err(DiffParseError::OldRange(header_line.to_owned())),
    };
    let new_range = match text::strip_prefix(words[2].as_str(), "+") {
        Some(rest) => rest,
        None => return Err(DiffParseError::NewRange(header_line.to_owned())),
    };
    match parse_range(old_range.as_str()) {
        Err(e) => Err(e),
        Ok((old_start_line, old_line_count)) => match parse_range(new_range.as_str()) {
            Err(e) => Err(e),
            Ok((new_start_line, new_line_count)) => Ok(
                UnifiedDiffHeader {
                    old_start_line,
                    old_line_count,
                    new_start_line,
                    new_line_count,
                },
            ),
        },
    }
}

/// Where the reading of a hunk stands: the next number on each side, and the lines so far.
pub struct BodyModel {
    pub old_line: nat,
    pub new_line: nat,
    pub lines: Seq<LineModel>,
}

/// What one line below a hunk header adds.
pub open spec fn body_step(body: BodyModel, line: Seq<char>) -> BodyModel {
    let text = line.skip(1);
    if line.len() == 0 {
        body
    } else if line[0] == '\\' {
        if body.lines.len() == 0 {
            body
        } else {
            BodyModel {
                lines: body.lines.update(
                    body.lines.len() - 1,
                    LineModel { no_trailing_newline: true, ..body.lines.last() },
                ),
                ..body
            }
        }
    } else if line[0] == '+' {
        BodyModel {
            new_line: body.new_line + 1,
            lines: body.lines.push(
                LineModel {
                    line_type: DiffLineType::Add,
                    old_line_number: None,
                    new_line_number: Some(body.new_line),
                    text,
                    no_trailing_newline: false,
                },
            ),
            ..body
        }
    } else if line[0] == '-' {
        BodyModel {
            old_line: body.old_line + 1,
            lines: body.lines.push(
                LineModel {
                    line_type: DiffLineType::Delete,
                    old_line_number: Some(body.old_line),
                    new_line_number: None,
                    text,
                    no_trailing_newline: false,
                },
            ),
            ..body
        }
    } else if line[0] == ' ' {
        BodyModel {
            old_line: body.old_line + 1,
            new_line: body.new_line + 1,
            lines: body.lines.push(
                LineModel {
                    line_type: DiffLineType::Context,
                    old_line_number: Some(body.old_line),
                    new_line_number: Some(body.new_line),
                    text,
                    no_trailing_newline: false,
                },
            ),
        }
    } else {
        body
    }
}

/// What the lines `from..to` of the section add to `body`.
pub open spec fn body_of(
    section: Seq<Seq<char>>,
    from: int,
    to: int,
    body: BodyModel,
) -> BodyModel
    decreases to - from,
{
    if from >= to {
        body
    } else {
        body_of(section, from + 1, to, body_step(body, section[from]))
    }
}

/// The hunk body that stands in `from..to` of the section under the header `h`.
pub open spec fn hunk_body(section: Seq<Seq<char>>, h: HeaderModel, from: int, to: int) -> BodyModel {
    body_of(
        section,
        from,
        to,
        BodyModel { old_line: h.old_start_line, new_line: h.new_start_line, lines: Seq::empty() },
    )
}

/// The first line at or after `from` that opens a hunk, or the end of the section.
pub open spec fn next_hunk(section: Seq<Seq<char>>, from: int) -> int
    decreases section.len() - from,
{
    if from >= section.len() {
        section.len() as int
    } else if opens_hunk(section[from]) {
        from
    } else {
        next_hunk(section, from + 1)
    }
}

proof fn lemma_next_hunk(section: Seq<Seq<char>>, from: int)
    requires
        0 <= from <= section.len(),
    ensures
        from <= next_hunk(section, from) <= section.len(),
        next_hunk(section, from) < section.len() ==> opens_hunk(
            section[next_hunk(section, from)],
        ),
        forall|i: int| from <= i < next_hunk(section, from) ==> !opens_hunk(#[trigger] section[i]),
    decreases section.len() - from,
{
    if from < section.len() && !opens_hunk(section[from]) {
        lemma_next_hunk(section, from + 1);
    }
}

/// The hunk with the header `h` and the given lines.
pub open spec fn hunk_of(h: HeaderModel, lines: Seq<LineModel>) -> HunkModel {
    HunkModel {
        old_start_line: h.old_start_line,
        old_line_count: h.old_line_count,
        new_start_line: h.new_start_line,
        new_line_count: h.new_line_count,
        lines,
    }
}

/// The hunks of the section from line `i` on; the first header that cannot be read is the error.
pub open spec fn hunks_from(section: Seq<Seq<char>>, i: int) -> Result<
    Seq<HunkModel>,
    ParseErrorModel,
>
    decreases section.len() - i,
{
    if i < 0 || i >= section.len() {
        Ok(Seq::empty())
    } else if !opens_hunk(section[i]) {
        hunks_from(section, i + 1)
    } else {
        match header_of(section[i]) {
            Err(e) => Err(e),
            Ok(h) => {
                let end = next_hunk(section, i + 1);
                if i < end <= section.len() {
                    prepend(
                        seq![hunk_of(h, hunk_body(section, h, i + 1, end).lines)],
                        hunks_from(section, end),
                    )
                } else {
                    Ok(Seq::empty())
                }
            },
        }
    }
}

/// Whether every line number that the hunks of the section from line `i` on count up to is a
/// machine number.
pub open spec fn numbers_fit(section: Seq<Seq<char>>, i: int) -> bool
    decreases section.len() - i,
{
    if i < 0 || i >= section.len() {
        true
    } else if !opens_hunk(section[i]) {
        numbers_fit(section, i + 1)
    } else {
        match header_of(section[i]) {
            Err(_) => true,
            Ok(h) => {
                let end = next_hunk(section, i + 1);
                let body = hunk_body(section, h, i + 1, end);
                i < end <= section.len() ==> body.old_line <= usize::MAX && body.new_line <= usize::MAX
                    && numbers_fit(section, end)
            },
        }
    }
}

proof fn lemma_body_grows(section: Seq<Seq<char>>, from: int, to: int, body: BodyModel)
    ensures
        body.old_line <= body_of(section, from, to, body).old_line,
        body.new_line <= body_of(section, from, to, body).new_line,
    decreases to - from,
{
    if from < to {
        lemma_body_grows(section, from + 1, to, body_step(body, section[from]));
    }
}

/// Reads the hunks of one file's section.
pub fn parse_hunks(section: &[String]) -> (r: Result<Vec<DiffHunk>, DiffParseError>)
    requires
        numbers_fit(text::texts(section@), 0),
    ensures
        match hunks_from(text::texts(section@), 0) {
            Ok(hunks) => r matches Ok(v) && model::hunk_models(v@) == hunks,
            Err(e) => r matches Err(x) && x@ == e,
        },
{
    let ghost lines = text::texts(section@);
    let mut hunks: Vec<DiffHunk> = Vec::new();
    let mut i: usize = 0;
    assert(model::hunk_models(hunks@) == Seq::<HunkModel>::empty());
    proof {
        lemma_prepend_nothing(hunks_from(lines, 0));
    }
    while i < section.len()
        invariant
            i <= section@.len(),
            lines == text::texts(section@),
            numbers_fit(lines, i as int),
            hunks_from(lines, 0) == prepend(model::hunk_models(hunks@), hunks_from(lines, i as int)),
        decreases section@.len() - i,
    {
        assert(lines[i as int] == section@[i as int]@);
        if !text::starts_with(section[i].as_str(), "@@") {
            i += 1;
            continue;
        }
        let header = match parse_unified_diff_header(section[i].as_str()) {
            Ok(h) => h,
            Err(e) => return Err(e),
        };
        let ghost at = i as int;
        let ghost end = next_hunk(lines, at + 1);
        proof {
            lemma_next_hunk(lines, at + 1);
        }
        let mut hunk_lines: Vec<DiffLine> = Vec::new();
        let mut old_line: usize = header.old_start_line;
        let mut new_line: usize = header.new_start_line;
        i += 1;
        let ghost whole = hunk_body(lines, header@, at + 1, end);
        assert(model::line_models(hunk_lines@) == Seq::<LineModel>::empty());
        while i < section.len() && !text::starts_with(section[i].as_str(), "@@")
            invariant
                at < i <= end <= section@.len(),
                lines == text::texts(section@),
                end < section@.len() ==> opens_hunk(lines[end]),
                forall|j: int| at + 1 <= j < end ==> !opens_hunk(#[trigger] lines[j]),
                whole.old_line <= usize::MAX,
                whole.new_line <= usize::MAX,
                whole == body_of(
                    lines,
                    i as int,
                    end,
                    BodyModel {
                        old_line: old_line as nat,
                        new_line: new_line as nat,
                        lines: model::line_models(hunk_lines@),
                    },
                ),
            decreases section@.len() - i,
        {
            let line = section[i].as_str();
            assert(line@ == lines[i as int]);
            assert(i < end);
            let ghost body = BodyModel {
                old_line: old_line as nat,
                new_line: new_line as nat,
                lines: model::line_models(hunk_lines@),
            };
            proof {
                lemma_body_grows(lines, i + 1, end, body_step(body, lines[i as int]));
            }
            let cs = text::chars_of(line);
            i += 1;
            if cs.len() == 0 {
                continue;
            }
            let rest = text::string_of(&cs, 1, cs.len());
            assert(rest@ == line@.skip(1));
            let ghost before = model::line_models(hunk_lines@);
            let first = cs[0];
            if first == '\\' {
                let n: usize = hunk_lines.len();
                if n > 0 {
                    let ghost kept = hunk_lines@;
                    let last = hunk_lines.pop();
                    if let Some(mut last) = last {
                        last.no_trailing_newline = true;
                        hunk_lines.push(last);
                        assert(model::line_models(hunk_lines@) == before.update(
                            before.len() - 1,
                            LineModel { no_trailing_newline: true, ..before.last() },
                        ));
                    }
                }
                continue;
            }
            let added: DiffLine;
            if first == '+' {
                added = DiffLine {
                    line_type: DiffLineType::Add,
                    old_line_number: None,
                    new_line_number: Some(new_line),
                    text: rest,
                    no_trailing_newline: false,
                };
                new_line += 1;
            } else if first == '-' {
                added = DiffLine {
                    line_type: DiffLineType::Delete,
                    old_line_number: Some(old_line),
                    new_line_number: None,
                    text: rest,
                    no_trailing_newline: false,
                };
                old_line += 1;
            } else if first == ' ' {
                added = DiffLine {
                    line_type: DiffLineType::Context,
                    old_line_number: Some(old_line),
                    new_line_number: Some(new_line),
                    text: rest,
                    no_trailing_newline: false,
                };
                old_line += 1;
                new_line += 1;
            } else {
                continue;
            }
            hunk_lines.push(added);
            assert(model::line_models(hunk_lines@) == before.push(added@));
        }
        assert(i == end);
        let ghost hunks_before = model::hunk_models(hunks@);
        let ghost hunk = hunk_of(header@, whole.lines);
        hunks.push(
            DiffHunk {
                old_start_line: header.old_start_line,
                old_line_count: header.old_line_count,
                new_start_line: header.new_start_line,
                new_line_count: header.new_line_count,
                lines: hunk_lines,
            },
        );
        assert(model::hunk_models(hunks@) == hunks_before + seq![hunk]);
        proof {
            lemma_prepend_twice(hunks_before, seq![hunk], hunks_from(lines, end));
        }
    }
    assert(model::hunk_models(hunks@) + Seq::<HunkModel>::empty() == model::hunk_models(hunks@));
    Ok(hunks)
}

proof fn lemma_prepend_nothing<T, E>(r: Result<Seq<T>, E>)
    ensures
        prepend(Seq::empty(), r) == r,
{
    if let Ok(rest) = r {
        assert(Seq::<T>::empty() + rest == rest);
    }
}

proof fn lemma_prepend_twice<T, E>(a: Seq<T>, b: Seq<T>, r: Result<Seq<T>, E>)
    ensures
        prepend(a, prepend(b, r)) == prepend(a + b, r),
{
    if let Ok(rest) = r {
        assert(a + (b + rest) == (a + b) + rest);
    }
}

/// A path without the `a/` or `b/` in front of it.
pub open spec fn plain_path(path: Seq<char>) -> Seq<char> {
    match text::after_prefix(path, "a/"@) {
        Some(rest) => rest,
        None => match text::after_prefix(path, "b/"@) {
            Some(rest) => rest,
            None => path,
        },
    }
}

fn strip_ab_prefix(path: &str) -> (r: String)
    ensures
        r@ == plain_path(path@),
{
    match text::strip_prefix(path, "a/") {
        Some(rest) => rest,
        None => match text::strip_prefix(path, "b/") {
            Some(rest) => rest,
            None => path.to_owned(),
        },
    }
}

/// The paths of the `+++` and the `---` lines from line `i` up to the first hunk, the last of each
/// kind that is not `/dev/null`; `new_path` and `old_path` are those found before line `i`.
pub open spec fn paths_from(
    section: Seq<Seq<char>>,
    i: int,
    new_path: Option<Seq<char>>,
    old_path: Option<Seq<char>>,
) -> (Option<Seq<char>>, Option<Seq<char>>)
    decreases section.len() - i,
{
    if i >= section.len() {
        (new_path, old_path)
    } else {
        match text::after_prefix(section[i], "+++ "@) {
            Some(rest) => if rest == "/dev/null"@ {
                paths_from(section, i + 1, new_path, old_path)
            } else {
                paths_from(section, i + 1, Some(plain_path(rest)), old_path)
            },
            None => match text::after_prefix(section[i], "--- "@) {
                Some(rest) => if rest == "/dev/null"@ {
                    paths_from(section, i + 1, new_path, old_path)
                } else {
                    paths_from(section, i + 1, new_path, Some(plain_path(rest)))
                },
                None => if opens_hunk(section[i]) {
                    (new_path, old_path)
                } else {
                    paths_from(section, i + 1, new_path, old_path)
                },
            },
        }
    }
}

/// The path that the section's file lines give: that of the new side, else that of the old side.
pub open spec fn file_line_path(section: Seq<Seq<char>>) -> Option<Seq<char>> {
    let (new_path, old_path) = paths_from(section, 0, None, None);
    match new_path {
        Some(p) => Some(p),
        None => old_path,
    }
}

fn section_path(section: &[String]) -> (r: Option<String>)
    ensures
        text::opt_text(r) == file_line_path(text::texts(section@)),
{
    let ghost lines = text::texts(section@);
    let mut new_path: Option<String> = None;
    let mut old_path: Option<String> = None;
    let mut i: usize = 0;
    while i < section.len()
        invariant
            i <= section@.len(),
            lines == text::texts(section@),
            paths_from(lines, 0, None, None) == paths_from(
                lines,
                i as int,
                text::opt_text(new_path),
                text::opt_text(old_path),
            ),
        ensures
            paths_from(lines, 0, None, None) == (text::opt_text(new_path), text::opt_text(old_path)),
        decreases section@.len() - i,
    {
        let line = section[i].as_str();
        assert(line@ == lines[i as int]);
        match text::strip_prefix(line, "+++ ") {
            Some(rest) => {
                if !text::same(rest.as_str(), "/dev/null") {
                    new_path = Some(strip_ab_prefix(rest.as_str()));
                }
            },
            None => match text::strip_prefix(line, "--- ") {
                Some(rest) => {
                    if !text::same(rest.as_str(), "/dev/null") {
                        old_path = Some(strip_ab_prefix(rest.as_str()));
                    }
                },
                None => {
                    if text::starts_with(line, "@@") {
                        break;
                    }
                },
            },
        }
        i += 1;
    }
    match new_path {
        Some(p) => Some(p),
        None => old_path,
    }
}

/// The path that a `diff --git` line gives: what follows its last ` b/`.
pub open spec fn git_line_path(line: Seq<char>) -> Option<Seq<char>> {
    match text::after_prefix(line, "diff --git "@) {
        None => None,
        Some(rest) => match text::last_at(rest, " b/"@, rest.len() as int) {
            None => None,
            Some(at) => Some(plain_path(rest.skip(at + 1))),
        },
    }
}

fn git_header_path(diff_git_line: &str) -> (r: Option<String>)
    ensures
        text::opt_text(r) == git_line_path(diff_git_line@),
{
    let rest = match text::strip_prefix(diff_git_line, "diff --git ") {
        Some(rest) => rest,
        None => return None,
    };
    let cs = text::chars_of(rest.as_str());
    let n: usize = cs.len();
    let pattern = text::chars_of(" b/");
    match text::rfind(&cs, &pattern) {
        None => None,
        Some(at) => {
            proof {
                reveal_strlit(" b/");
            }
            let path = text::string_of(&cs, at + 1, n);
            assert(path@ == rest@.skip(at + 1));
            Some(strip_ab_prefix(path.as_str()))
        },
    }
}

/// The status when nothing but a rename, if any, was seen.
pub open spec fn renamed_or_modified(rename_from: Option<Seq<char>>) -> StatusModel {
    match rename_from {
        Some(old_path) => StatusModel::Renamed { old_path },
        None => StatusModel::Modified,
    }
}

/// The status that the section's header lines from line `i` on give; `rename_from` is the source of
/// a rename seen before line `i`.
pub open spec fn status_from(
    section: Seq<Seq<char>>,
    i: int,
    rename_from: Option<Seq<char>>,
) -> StatusModel
    decreases section.len() - i,
{
    if i >= section.len() {
        renamed_or_modified(rename_from)
    } else {
        let line = section[i];
        let renamed = match text::after_prefix(line, "rename from "@) {
            Some(from) => Some(from),
            None => rename_from,
        };
        if text::is_prefix(line, "new file mode"@) {
            StatusModel::New
        } else if text::is_prefix(line, "deleted file mode"@) {
            StatusModel::Deleted
        } else if text::is_prefix(line, "copy from "@) {
            StatusModel::Copied { old_path: text::without_prefixes(line, "copy from "@) }
        } else if opens_hunk(line) {
            renamed_or_modified(renamed)
        } else {
            status_from(section, i + 1, renamed)
        }
    }
}

fn section_status(section: &[String]) -> (r: GitFileStatus)
    ensures
        r@ == status_from(text::texts(section@), 0, None),
{
    let ghost lines = text::texts(section@);
    let mut rename_from: Option<String> = None;
    let mut i: usize = 0;
    while i < section.len()
        invariant
            i <= section@.len(),
            lines == text::texts(section@),
            status_from(lines, 0, None) == status_from(lines, i as int, text::opt_text(rename_from)),
        ensures
            status_from(lines, 0, None) == renamed_or_modified(text::opt_text(rename_from)),
        decreases section@.len() - i,
    {
        let line = section[i].as_str();
        assert(line@ == lines[i as int]);
        if text::starts_with(line, "new file mode") {
            return GitFileStatus::New;
        }
        if text::starts_with(line, "deleted file mode") {
            return GitFileStatus::Deleted;
        }
        if let Some(from) = text::strip_prefix(line, "rename from ") {
            rename_from = Some(from);
        }
        if text::starts_with(line, "copy from ") {
            proof {
                reveal_strlit("copy from ");
            }
            return GitFileStatus::Copied { old_path: text::trim_start_matches(line, "copy from ") };
        }
        if text::starts_with(line, "@@") {
            break;
        }
        i += 1;
    }
    match rename_from {
        Some(old_path) => GitFileStatus::Renamed { old_path },
        None => GitFileStatus::Modified,
    }
}

/// Whether the line says that the contents are binary.
pub open spec fn says_binary(line: Seq<char>) -> bool {
    text::is_prefix(line, "Binary files "@) || text::is_prefix(line, "GIT binary patch"@)
}

/// Whether some line of the section says that the contents are binary.
pub open spec fn is_binary(section: Seq<Seq<char>>) -> bool {
    exists|i: int| 0 <= i < section.len() && says_binary(#[trigger] section[i])
}

fn is_binary_section(section: &[String]) -> (r: bool)
    ensures
        r == is_binary(text::texts(section@)),
{
    let ghost lines = text::texts(section@);
    let mut i: usize = 0;
    while i < section.len()
        invariant
            i <= section@.len(),
            lines == text::texts(section@),
            forall|j: int| 0 <= j < i ==> !says_binary(#[trigger] lines[j]),
        decreases section@.len() - i,
    {
        let line = section[i].as_str();
        assert(line@ == lines[i as int]);
        if text::starts_with(line, "Binary files ") || text::starts_with(line, "GIT binary patch") {
            return true;
        }
        i += 1;
    }
    false
}

/// The diff of one file under the limits, with how many lines are kept in all after it, when
/// `retained` lines were kept before it: the hunks of a text file that is too long, or that would
/// exceed the total, are dropped.
pub open spec fn limited(
    file_path: Seq<char>,
    status: StatusModel,
    is_binary: bool,
    hunks: Seq<HunkModel>,
    limits: DiffLimits,
    retained: nat,
) -> (FileModel, nat) {
    let lines = model::line_total(hunks);
    let oversized = !is_binary && (lines > limits.max_file_lines || retained + lines
        > limits.max_total_lines);
    (
        FileModel {
            file_path,
            status,
            hunks: if oversized {
                Seq::empty()
            } else {
                hunks
            },
            is_binary,
            oversized,
            additions: model::changes(hunks, DiffLineType::Add),
            deletions: model::changes(hunks, DiffLineType::Delete),
        },
        if oversized {
            retained
        } else {
            retained + lines
        },
    )
}

fn build_file_diff(
    path: String,
    status: GitFileStatus,
    is_binary: bool,
    hunks: Vec<DiffHunk>,
    limits: &DiffLimits,
    retained_total: &mut usize,
) -> (r: FileDiff)
    requires
        *old(retained_total) + model::line_total(model::hunk_models(hunks@)) <= usize::MAX,
    ensures
        (r@, *final(retained_total) as nat) == limited(
            path@,
            status@,
            is_binary,
            model::hunk_models(hunks@),
            *limits,
            *old(retained_total) as nat,
        ),
{
    let (additions, deletions) = count_changes(&hunks);
    let file_lines: usize = count_lines(&hunks);
    let over_budget = *retained_total + file_lines > limits.max_total_lines;
    let oversized = !is_binary && (file_lines > limits.max_file_lines || over_budget);
    let ghost all = model::hunk_models(hunks@);
    let kept: Vec<DiffHunk> = if oversized {
        Vec::new()
    } else {
        hunks
    };
    if !oversized {
        *retained_total = *retained_total + file_lines;
    }
    assert(model::hunk_models(kept@) == (if oversized {
        Seq::<HunkModel>::empty()
    } else {
        all
    }));
    FileDiff { file_path: path, status, hunks: kept, is_binary, oversized, additions, deletions }
}

/// The path of the section's file: from its file lines, else from its `diff --git` line.
pub open spec fn path_of(section: Seq<Seq<char>>) -> Option<Seq<char>> {
    match file_line_path(section) {
        Some(path) => Some(path),
        None => git_line_path(section[0]),
    }
}

/// The hunks of the section; a binary file has none.
pub open spec fn hunks_of(section: Seq<Seq<char>>) -> Result<Seq<HunkModel>, ParseErrorModel> {
    if is_binary(section) {
        Ok(Seq::empty())
    } else {
        hunks_from(section, 0)
    }
}

/// The file of one section under the limits, and how many lines are kept in all after it.
pub open spec fn file_of(section: Seq<Seq<char>>, limits: DiffLimits, retained: nat) -> Result<
    (FileModel, nat),
    ParseErrorModel,
> {
    match path_of(section) {
        None => Err(ParseErrorModel::NoPath),
        Some(path) => match hunks_of(section) {
            Err(e) => Err(e),
            Ok(hunks) => Ok(
                limited(
                    path,
                    status_from(section, 0, None),
                    is_binary(section),
                    hunks,
                    limits,
                    retained,
                ),
            ),
        },
    }
}

/// Whether the line opens the section of a file.
pub open spec fn opens_file(line: Seq<char>) -> bool {
    text::is_prefix(line, "diff --git "@)
}

/// The first line at or after `from` that opens the section of a file, or the end.
pub open spec fn next_file(lines: Seq<Seq<char>>, from: int) -> int
    decreases lines.len() - from,
{
    if from >= lines.len() {
        lines.len() as int
    } else if opens_file(lines[from]) {
        from
    } else {
        next_file(lines, from + 1)
    }
}

/// The files of the sections that start at line `i` and after it; the first section that cannot be
/// read is the error.
pub open spec fn files_from(
    lines: Seq<Seq<char>>,
    i: int,
    limits: DiffLimits,
    retained: nat,
) -> Result<Seq<FileModel>, ParseErrorModel>
    decreases lines.len() - i,
{
    let end = next_file(lines, i + 1);
    if 0 <= i < end <= lines.len() {
        match file_of(lines.subrange(i, end), limits, retained) {
            Err(e) => Err(e),
            Ok((file, kept)) => prepend(seq![file], files_from(lines, end, limits, kept)),
        }
    } else {
        Ok(Seq::empty())
    }
}

/// The files of a diff.
pub open spec fn files_of(patch: Seq<char>, limits: DiffLimits) -> Result<
    Seq<FileModel>,
    ParseErrorModel,
> {
    let lines = text::line_texts(patch);
    files_from(lines, next_file(lines, 0), limits, 0)
}

/// Whether the line numbers of the sections that start at line `i` and after it are machine
/// numbers, up to the first section that cannot be read.
pub open spec fn sections_fit(lines: Seq<Seq<char>>, i: int) -> bool
    decreases lines.len() - i,
{
    let end = next_file(lines, i + 1);
    if 0 <= i < end <= lines.len() {
        let section = lines.subrange(i, end);
        path_of(section) is Some ==> {
            &&& !is_binary(section) ==> numbers_fit(section, 0)
            &&& hunks_of(section) is Ok ==> sections_fit(lines, end)
        }
    } else {
        true
    }
}

/// Whether every line number that the diff counts up to is a machine number.
pub open spec fn patch_fits(patch: Seq<char>) -> bool {
    let lines = text::line_texts(patch);
    sections_fit(lines, next_file(lines, 0))
}

proof fn lemma_body_lines(section: Seq<Seq<char>>, from: int, to: int, body: BodyModel)
    requires
        from <= to,
    ensures
        body_of(section, from, to, body).lines.len() <= body.lines.len() + (to - from),
    decreases to - from,
{
    if from < to {
        lemma_body_lines(section, from + 1, to, body_step(body, section[from]));
    }
}

proof fn lemma_line_total_join(a: Seq<HunkModel>, b: Seq<HunkModel>)
    ensures
        model::line_total(a + b) == model::line_total(a) + model::line_total(b),
    decreases b.len(),
{
    if b.len() == 0 {
        assert(a + b == a);
    } else {
        assert((a + b).drop_last() == a + b.drop_last());
        lemma_line_total_join(a, b.drop_last());
    }
}

/// The hunks of a section hold no more lines than the section.
proof fn lemma_hunks_hold_section_lines(section: Seq<Seq<char>>, i: int)
    requires
        0 <= i <= section.len(),
    ensures
        hunks_from(section, i) matches Ok(hunks) ==> model::line_total(hunks) <= section.len() - i,
    decreases section.len() - i,
{
    if i < section.len() {
        if !opens_hunk(section[i]) {
            lemma_hunks_hold_section_lines(section, i + 1);
        } else if let Ok(h) = header_of(section[i]) {
            let end = next_hunk(section, i + 1);
            lemma_next_hunk(section, i + 1);
            lemma_hunks_hold_section_lines(section, end);
            lemma_body_lines(
                section,
                i + 1,
                end,
                BodyModel {
                    old_line: h.old_start_line,
                    new_line: h.new_start_line,
                    lines: Seq::empty(),
                },
            );
            let hunk = hunk_of(h, hunk_body(section, h, i + 1, end).lines);
            if let Ok(rest) = hunks_from(section, end) {
                lemma_line_total_join(seq![hunk], rest);
                assert(seq![hunk].drop_last() == Seq::<HunkModel>::empty());
                assert(model::line_total(Seq::<HunkModel>::empty()) == 0);
                assert(model::line_total(seq![hunk]) == hunk.lines.len());
            }
        }
    } else {
        assert(model::line_total(Seq::<HunkModel>::empty()) == 0);
    }
}

proof fn lemma_next_file(lines: Seq<Seq<char>>, from: int)
    requires
        0 <= from <= lines.len(),
    ensures
        from <= next_file(lines, from) <= lines.len(),
    decreases lines.len() - from,
{
    if from < lines.len() && !opens_file(lines[from]) {
        lemma_next_file(lines, from + 1);
    }
}

fn find_next_file(lines: &[String], from: usize) -> (r: usize)
    requires
        from <= lines@.len(),
    ensures
        r == next_file(text::texts(lines@), from as int),
        from <= r <= lines@.len(),
{
    let mut i: usize = from;
    while i < lines.len()
        invariant
            from <= i <= lines@.len(),
            next_file(text::texts(lines@), from as int) == next_file(text::texts(lines@), i as int),
        decreases lines@.len() - i,
    {
        assert(text::texts(lines@)[i as int] == lines@[i as int]@);
        if text::starts_with(lines[i].as_str(), "diff --git ") {
            return i;
        }
        i += 1;
    }
    i
}

/// Reads a diff of any number of files.
pub fn parse_bulk_diff(patch: &str, limits: &DiffLimits) -> (r: Result<
    Vec<FileDiff>,
    DiffParseError,
>)
    requires
        patch_fits(patch@),
    ensures
        match files_of(patch@, *limits) {
            Ok(files) => r matches Ok(v) && model::file_models(v@) == files,
            Err(e) => r matches Err(x) && x@ == e,
        },
{
    let lines = text::lines(patch);
    let ghost all = text::texts(lines@);
    let mut files: Vec<FileDiff> = Vec::new();
    let mut retained_total: usize = 0;
    let mut start: usize = find_next_file(&lines, 0);
    assert(model::file_models(files@) == Seq::<FileModel>::empty());
    proof {
        lemma_prepend_nothing(files_of(patch@, *limits));
    }
    while start < lines.len()
        invariant
            start <= lines@.len(),
            all == text::texts(lines@),
            retained_total <= start,
            sections_fit(all, start as int),
            files_of(patch@, *limits) == prepend(
                model::file_models(files@),
                files_from(all, start as int, *limits, retained_total as nat),
            ),
        decreases lines@.len() - start,
    {
        let end: usize = find_next_file(&lines, start + 1);
        let section: &[String] = &lines[start..end];
        let ghost texts = all.subrange(start as int, end as int);
        assert(text::texts(section@) == texts);
        assert(texts[0] == section@[0]@);
        let path = match section_path(section) {
            Some(path) => path,
            None => match git_header_path(section[0].as_str()) {
                Some(path) => path,
                None => return Err(DiffParseError::NoPath),
            },
        };
        let status = section_status(section);
        let binary = is_binary_section(section);
        let hunks = if binary {
            let none: Vec<DiffHunk> = Vec::new();
            assert(model::hunk_models(none@) == Seq::<HunkModel>::empty());
            none
        } else {
            match parse_hunks(section) {
                Ok(hunks) => hunks,
                Err(e) => return Err(e),
            }
        };
        proof {
            lemma_hunks_hold_section_lines(texts, 0);
        }
        let ghost files_before = model::file_models(files@);
        let ghost retained_before = retained_total as nat;
        let file = build_file_diff(path, status, binary, hunks, limits, &mut retained_total);
        files.push(file);
        assert(model::file_models(files@) == files_before + seq![file@]);
        proof {
            assert(file_of(texts, *limits, retained_before) == Ok::<_, ParseErrorModel>(
                (file@, retained_total as nat),
            ));
            lemma_prepend_twice(
                files_before,
                seq![file@],
                files_from(all, end as int, *limits, retained_total as nat),
            );
        }
        start = end;
    }
    assert(model::file_models(files@) + Seq::<FileModel>::empty() == model::file_models(files@));
    Ok(files)
}

/// Whether every line number that the hunks of the section count up to is a machine number.
pub fn section_numbers_fit(section: &[String]) -> (r: bool)
    ensures
        r == numbers_fit(text::texts(section@), 0),
{
    let ghost lines = text::texts(section@);
    let mut i: usize = 0;
    while i < section.len()
        invariant
            i <= section@.len(),
            lines == text::texts(section@),
            numbers_fit(lines, 0) == numbers_fit(lines, i as int),
        decreases section@.len() - i,
    {
        assert(lines[i as int] == section@[i as int]@);
        if !text::starts_with(section[i].as_str(), "@@") {
            i += 1;
            continue;
        }
        let header = match parse_unified_diff_header(section[i].as_str()) {
            Ok(h) => h,
            Err(_) => return true,
        };
        let ghost at = i as int;
        let ghost end = next_hunk(lines, at + 1);
        proof {
            lemma_next_hunk(lines, at + 1);
        }
        i += 1;
        let mut old_lines: usize = 0;
        let mut new_lines: usize = 0;
        let ghost whole = hunk_body(lines, header@, at + 1, end);
        let ghost mut body = BodyModel {
            old_line: header.old_start_line as nat,
            new_line: header.new_start_line as nat,
            lines: Seq::empty(),
        };
        while i < section.len() && !text::starts_with(section[i].as_str(), "@@")
            invariant
                at < i <= end <= section@.len(),
                lines == text::texts(section@),
                end < section@.len() ==> opens_hunk(lines[end]),
                forall|j: int| at + 1 <= j < end ==> !opens_hunk(#[trigger] lines[j]),
                whole == body_of(lines, i as int, end, body),
                body.old_line == header.old_start_line + old_lines,
                body.new_line == header.new_start_line + new_lines,
                old_lines < i,
                new_lines < i,
            decreases section@.len() - i,
        {
            assert(section@[i as int]@ == lines[i as int]);
            assert(i < end);
            let cs = text::chars_of(section[i].as_str());
            proof {
                body = body_step(body, lines[i as int]);
            }
            i += 1;
            if cs.len() == 0 {
                continue;
            }
            let first = cs[0];
            if first == '-' || first == ' ' {
                old_lines += 1;
            }
            if first == '+' || first == ' ' {
                new_lines += 1;
            }
        }
        assert(i == end);
        if old_lines > usize::MAX - header.old_start_line || new_lines > usize::MAX
            - header.new_start_line {
            return false;
        }
    }
    true
}

/// Whether every line number that the diff counts up to is a machine number, as
/// [`parse_bulk_diff`] demands.
pub fn patch_numbers_fit(patch: &str) -> (r: bool)
    ensures
        r == patch_fits(patch@),
{
    let lines = text::lines(patch);
    let ghost all = text::texts(lines@);
    let mut start: usize = find_next_file(&lines, 0);
    while start < lines.len()
        invariant
            start <= lines@.len(),
            all == text::texts(lines@),
            patch_fits(patch@) == sections_fit(all, start as int),
        decreases lines@.len() - start,
    {
        let end: usize = find_next_file(&lines, start + 1);
        let section: &[String] = &lines[start..end];
        let ghost texts = all.subrange(start as int, end as int);
        assert(text::texts(section@) == texts);
        assert(texts[0] == section@[0]@);
        if section_path(section).is_none() && git_header_path(section[0].as_str()).is_none() {
            return true;
        }
        if !is_binary_section(section) {
            if !section_numbers_fit(section) {
                return false;
            }
            if parse_hunks(section).is_err() {
                return true;
            }
        }
        start = end;
    }
    true
}

proof fn lemma_scan(s: Seq<char>, from: int, to: int, space: bool)
    requires
        0 <= from <= to <= s.len(),
        forall|i: int| from <= i < to ==> text::is_space(#[trigger] s[i]) != space,
        to < s.len() ==> text::is_space(s[to]) == space,
    ensures
        text::next_space(s, from, space) == to,
    decreases to - from,
{
    if from < to {
        lemma_scan(s, from + 1, to, space);
    }
}

proof fn lemma_find_char(s: Seq<char>, c: char, from: int, to: int)
    requires
        0 <= from <= to < s.len(),
        s[to] == c,
        forall|i: int| from <= i < to ==> #[trigger] s[i] != c,
    ensures
        text::find_char(s, c, from) == to,
    decreases to - from,
{
    if from < to {
        lemma_find_char(s, c, from + 1, to);
    }
}

/// A start and a count in decimal with a comma between them.
spec fn range_text(start: nat, count: nat) -> Seq<char> {
    text::decimal(start) + seq![','] + text::decimal(count)
}

proof fn lemma_range_reads_back(start: nat, count: nat)
    requires
        start <= usize::MAX,
        count <= usize::MAX,
    ensures
        range_of(range_text(start, count)) == Ok::<(nat, nat), ParseErrorModel>((start, count)),
        forall|i: int|
            0 <= i < range_text(start, count).len() ==> !text::is_space(
                #[trigger] range_text(start, count)[i],
            ),
{
    let s = range_text(start, count);
    let a = text::decimal(start);
    let b = text::decimal(count);
    text::decimal_reads_back(start);
    text::decimal_reads_back(count);
    assert forall|i: int| 0 <= i < a.len() implies #[trigger] s[i] != ',' by {
        assert(text::is_digit(a[i]));
    }
    lemma_find_char(s, ',', 0, a.len() as int);
    assert(s.take(a.len() as int) == a);
    assert(s.skip(a.len() as int + 1) == b);
    assert forall|i: int| 0 <= i < s.len() implies !text::is_space(#[trigger] s[i]) by {
        if i < a.len() {
            assert(text::is_digit(a[i]));
        } else if i > a.len() {
            assert(text::is_digit(b[i - a.len() - 1]));
        }
    }
}

/// A hunk header line with the given second and third words.
spec fn line_with_words(w1: Seq<char>, w2: Seq<char>) -> Seq<char> {
    seq!['@', '@', ' '] + w1 + seq![' '] + w2 + seq![' ', '@', '@']
}

proof fn lemma_words_of_line(w1: Seq<char>, w2: Seq<char>)
    requires
        w1.len() > 0,
        w2.len() > 0,
        forall|i: int| 0 <= i < w1.len() ==> !text::is_space(#[trigger] w1[i]),
        forall|i: int| 0 <= i < w2.len() ==> !text::is_space(#[trigger] w2[i]),
    ensures
        text::word_texts(line_with_words(w1, w2)).len() >= 3,
        text::word_texts(line_with_words(w1, w2))[1] == w1,
        text::word_texts(line_with_words(w1, w2))[2] == w2,
{
    let s = line_with_words(w1, w2);
    let e1 = 3 + w1.len() as int;
    let b2 = e1 + 1;
    let e2 = b2 + w2.len() as int;
    assert forall|i: int| 3 <= i < e1 implies !text::is_space(#[trigger] s[i]) by {
        assert(s[i] == w1[i - 3]);
    }
    assert forall|i: int| b2 <= i < e2 implies !text::is_space(#[trigger] s[i]) by {
        assert(s[i] == w2[i - b2]);
    }
    assert(s[2] == ' ' && s[e1] == ' ' && s[e2] == ' ');
    lemma_scan(s, 0, 0, false);
    lemma_scan(s, 0, 2, true);
    lemma_scan(s, 2, 3, false);
    lemma_scan(s, 3, e1, true);
    lemma_scan(s, e1, b2, false);
    lemma_scan(s, b2, e2, true);
    assert(s.subrange(3, e1) == w1);
    assert(s.subrange(b2, e2) == w2);
    let third = seq![w2] + text::words_from(s, e2);
    assert(text::words_from(s, e1) == third);
    let second = seq![w1] + third;
    assert(text::words_from(s, 2) == second);
    assert(text::words_from(s, 0) == seq![s.subrange(0, 2)] + second);
}

proof fn lemma_header_line_words(a: nat, b: nat, c: nat, d: nat)
    ensures
        model::header_line(a, b, c, d) == line_with_words(
            seq!['-'] + range_text(a, b),
            seq!['+'] + range_text(c, d),
        ),
{
    let w1 = seq!['-'] + range_text(a, b);
    let w2 = seq!['+'] + range_text(c, d);
    assert(w1 == seq!['-'] + text::decimal(a) + seq![','] + text::decimal(b));
    assert(seq![' ', '+'] == seq![' '] + seq!['+']);
    assert(seq!['@', '@', ' ', '-'] == seq!['@', '@', ' '] + seq!['-']);
    assert(model::header_line(a, b, c, d) =~= line_with_words(w1, w2));
}

/// The header line that a hunk prints reads back as the ranges of the hunk.
#[verifier::spinoff_prover]
#[verifier::rlimit(40)]
pub proof fn header_reads_back(h: HeaderModel)
    requires
        h.old_start_line <= usize::MAX,
        h.old_line_count <= usize::MAX,
        h.new_start_line <= usize::MAX,
        h.new_line_count <= usize::MAX,
    ensures
        header_of(
            model::header_line(
                h.old_start_line,
                h.old_line_count,
                h.new_start_line,
                h.new_line_count,
            ),
        ) == Ok::<HeaderModel, ParseErrorModel>(h),
{
    let old_range = range_text(h.old_start_line, h.old_line_count);
    let new_range = range_text(h.new_start_line, h.new_line_count);
    lemma_range_reads_back(h.old_start_line, h.old_line_count);
    lemma_range_reads_back(h.new_start_line, h.new_line_count);
    let w1 = seq!['-'] + old_range;
    let w2 = seq!['+'] + new_range;
    let s = model::header_line(
        h.old_start_line,
        h.old_line_count,
        h.new_start_line,
        h.new_line_count,
    );
    lemma_header_line_words(
        h.old_start_line,
        h.old_line_count,
        h.new_start_line,
        h.new_line_count,
    );
    assert forall|i: int| 0 <= i < w1.len() implies !text::is_space(#[trigger] w1[i]) by {
        if i > 0 {
            assert(w1[i] == old_range[i - 1]);
        }
    }
    assert forall|i: int| 0 <= i < w2.len() implies !text::is_space(#[trigger] w2[i]) by {
        if i > 0 {
            assert(w2[i] == new_range[i - 1]);
        }
    }
    lemma_words_of_line(w1, w2);
    assert(opens_hunk(s)) by {
        reveal_strlit("@@");
        assert(s.take(2) == "@@"@);
    }
    assert(text::after_prefix(w1, "-"@) == Some(old_range)) by {
        reveal_strlit("-");
        assert(w1.take(1) == "-"@);
        assert(w1.skip(1) == old_range);
    }
    assert(text::after_prefix(w2, "+"@) == Some(new_range)) by {
        reveal_strlit("+");
        assert(w2.take(1) == "+"@);
        assert(w2.skip(1) == new_range);
    }
}

/// How many lines are kept of the files.
pub open spec fn kept_lines(files: Seq<FileModel>) -> nat
    decreases files.len(),
{
    if files.len() == 0 {
        0
    } else {
        model::line_total(files[0].hunks) + kept_lines(files.skip(1))
    }
}

/// Whether no more lines are kept of the file than the limits allow, and none of one that is binary
/// or too long.
pub open spec fn keeps_limits(file: FileModel, limits: DiffLimits) -> bool {
    &&& model::line_total(file.hunks) <= limits.max_file_lines
    &&& file.is_binary || file.oversized ==> file.hunks.len() == 0
    &&& !(file.is_binary && file.oversized)
}

proof fn lemma_limits_hold(lines: Seq<Seq<char>>, i: int, limits: DiffLimits, retained: nat)
    requires
        retained <= limits.max_total_lines,
    ensures
        files_from(lines, i, limits, retained) matches Ok(files) ==> {
            &&& retained + kept_lines(files) <= limits.max_total_lines
            &&& forall|k: int|
                0 <= k < files.len() ==> keeps_limits(#[trigger] files[k], limits)
        },
    decreases lines.len() - i,
{
    let end = next_file(lines, i + 1);
    if 0 <= i < end <= lines.len() {
        let section = lines.subrange(i, end);
        if let Ok((file, kept)) = file_of(section, limits, retained) {
            assert(model::line_total(Seq::<HunkModel>::empty()) == 0);
            lemma_limits_hold(lines, end, limits, kept);
            if let Ok(rest) = files_from(lines, end, limits, kept) {
                let files = seq![file] + rest;
                assert(files.skip(1) == rest);
                assert forall|k: int| 0 <= k < files.len() implies keeps_limits(
                    #[trigger] files[k],
                    limits,
                ) by {
                    if k > 0 {
                        assert(files[k] == rest[k - 1]);
                    }
                }
            }
        }
    }
}

/// No more lines are kept of a diff than the limits allow, in all and of each file; a file that is
/// binary or too long keeps none.
pub proof fn limits_hold(patch: Seq<char>, limits: DiffLimits)
    ensures
        files_of(patch, limits) matches Ok(files) ==> {
            &&& kept_lines(files) <= limits.max_total_lines
            &&& forall|k: int|
                0 <= k < files.len() ==> keeps_limits(#[trigger] files[k], limits)
        },
{
    let lines = text::line_texts(patch);
    lemma_limits_hold(lines, next_file(lines, 0), limits, 0);
}

/// Whether the lines are numbered from the given starts: each line on the sides that have it, one
/// after the other.
pub open spec fn is_numbered(lines: Seq<LineModel>, old_start: nat, new_start: nat) -> bool {
    forall|k: int|
        0 <= k < lines.len() ==> {
            let adds = model::lines_of_type(lines.take(k), DiffLineType::Add);
            let dels = model::lines_of_type(lines.take(k), DiffLineType::Delete);
            &&& (#[trigger] lines[k]).old_line_number == (if lines[k].line_type
                == DiffLineType::Add {
                None
            } else {
                Some((old_start + k - adds) as nat)
            })
            &&& lines[k].new_line_number == (if lines[k].line_type == DiffLineType::Delete {
                None
            } else {
                Some((new_start + k - dels) as nat)
            })
        }
}

spec fn body_is_numbered(body: BodyModel, old_start: nat, new_start: nat) -> bool {
    &&& is_numbered(body.lines, old_start, new_start)
    &&& body.old_line == old_start + body.lines.len() - model::lines_of_type(
        body.lines,
        DiffLineType::Add,
    )
    &&& body.new_line == new_start + body.lines.len() - model::lines_of_type(
        body.lines,
        DiffLineType::Delete,
    )
}

proof fn lemma_types_after_flag(lines: Seq<LineModel>, line_type: DiffLineType)
    requires
        lines.len() > 0,
    ensures
        model::lines_of_type(
            lines.update(
                lines.len() - 1,
                LineModel { no_trailing_newline: true, ..lines.last() },
            ),
            line_type,
        ) == model::lines_of_type(lines, line_type),
{
    let marked = lines.update(
        lines.len() - 1,
        LineModel { no_trailing_newline: true, ..lines.last() },
    );
    assert(marked.drop_last() == lines.drop_last());
}

proof fn lemma_step_is_numbered(body: BodyModel, line: Seq<char>, old_start: nat, new_start: nat)
    requires
        body_is_numbered(body, old_start, new_start),
    ensures
        body_is_numbered(body_step(body, line), old_start, new_start),
{
    let next = body_step(body, line);
    if next.lines.len() == body.lines.len() {
        if next.lines.len() > 0 && line.len() > 0 && line[0] == '\\' {
            lemma_types_after_flag(body.lines, DiffLineType::Add);
            lemma_types_after_flag(body.lines, DiffLineType::Delete);
            assert forall|k: int| 0 <= k < next.lines.len() implies (#[trigger] next.lines[k]).old_line_number
                == body.lines[k].old_line_number && next.lines.take(k) == body.lines.take(k) by {}
        }
    } else {
        assert(next.lines.drop_last() == body.lines);
        assert forall|k: int| 0 <= k < body.lines.len() implies next.lines.take(k)
            == #[trigger] body.lines.take(k) by {}
        assert(next.lines.take(body.lines.len() as int) == body.lines);
        assert forall|k: int| 0 <= k < next.lines.len() implies {
            let adds = model::lines_of_type(next.lines.take(k), DiffLineType::Add);
            let dels = model::lines_of_type(next.lines.take(k), DiffLineType::Delete);
            &&& (#[trigger] next.lines[k]).old_line_number == (if next.lines[k].line_type
                == DiffLineType::Add {
                None
            } else {
                Some((old_start + k - adds) as nat)
            })
            &&& next.lines[k].new_line_number == (if next.lines[k].line_type
                == DiffLineType::Delete {
                None
            } else {
                Some((new_start + k - dels) as nat)
            })
        } by {
            if k < body.lines.len() {
                assert(next.lines[k] == body.lines[k]);
                assert(next.lines.take(k) == body.lines.take(k));
            }
        }
    }
}

proof fn lemma_body_is_numbered(
    section: Seq<Seq<char>>,
    from: int,
    to: int,
    body: BodyModel,
    old_start: nat,
    new_start: nat,
)
    requires
        body_is_numbered(body, old_start, new_start),
    ensures
        body_is_numbered(body_of(section, from, to, body), old_start, new_start),
    decreases to - from,
{
    if from < to {
        lemma_step_is_numbered(body, section[from], old_start, new_start);
        lemma_body_is_numbered(
            section,
            from + 1,
            to,
            body_step(body, section[from]),
            old_start,
            new_start,
        );
    }
}

/// The lines of every hunk of a section from line `i` on are numbered one after the other on each
/// side, from the starts that the hunk's header names.
pub proof fn hunks_are_numbered(section: Seq<Seq<char>>, i: int)
    ensures
        hunks_from(section, i) matches Ok(hunks) ==> forall|k: int|
            0 <= k < hunks.len() ==> is_numbered(
                (#[trigger] hunks[k]).lines,
                hunks[k].old_start_line,
                hunks[k].new_start_line,
            ),
    decreases section.len() - i,
{
    if 0 <= i < section.len() {
        if !opens_hunk(section[i]) {
            hunks_are_numbered(section, i + 1);
        } else if let Ok(h) = header_of(section[i]) {
            let end = next_hunk(section, i + 1);
            if i < end <= section.len() {
                hunks_are_numbered(section, end);
                let start = BodyModel {
                    old_line: h.old_start_line,
                    new_line: h.new_start_line,
                    lines: Seq::<LineModel>::empty(),
                };
                lemma_body_is_numbered(
                    section,
                    i + 1,
                    end,
                    start,
                    h.old_start_line,
                    h.new_start_line,
                );
                let hunk = hunk_of(h, hunk_body(section, h, i + 1, end).lines);
                if let Ok(rest) = hunks_from(section, end) {
                    let hunks = seq![hunk] + rest;
                    assert forall|k: int| 0 <= k < hunks.len() implies is_numbered(
                        (#[trigger] hunks[k]).lines,
                        hunks[k].old_start_line,
                        hunks[k].new_start_line,
                    ) by {
                        if k > 0 {
                            assert(hunks[k] == rest[k - 1]);
                        }
                    }
                }
            }
        }
    }
}

/// Whether the line is one of the text that a hunk shows: it begins with the sign of a line that was
/// added, deleted or kept.
pub open spec fn shows_text(line: Seq<char>) -> bool {
    line.len() > 0 && (line[0] == '+' || line[0] == '-' || line[0] == ' ')
}

/// The lines `from..to` of the section that show text.
pub open spec fn shown_lines(section: Seq<Seq<char>>, from: int, to: int) -> Seq<Seq<char>>
    decreases to - from,
{
    if from >= to {
        Seq::empty()
    } else if shows_text(section[from]) {
        seq![section[from]] + shown_lines(section, from + 1, to)
    } else {
        shown_lines(section, from + 1, to)
    }
}

/// The lines as a diff prints them: each behind its sign.
pub open spec fn printed_lines(lines: Seq<LineModel>) -> Seq<Seq<char>> {
    Seq::new(lines.len(), |k: int| seq![model::marker_of(lines[k].line_type)] + lines[k].text)
}

/// The lines of the hunks as a diff prints them, one hunk after the other.
pub open spec fn printed_hunks(hunks: Seq<HunkModel>) -> Seq<Seq<char>>
    decreases hunks.len(),
{
    if hunks.len() == 0 {
        Seq::empty()
    } else {
        printed_lines(hunks[0].lines) + printed_hunks(hunks.skip(1))
    }
}

proof fn lemma_step_prints(body: BodyModel, line: Seq<char>)
    ensures
        printed_lines(body_step(body, line).lines) == (if shows_text(line) {
            printed_lines(body.lines).push(line)
        } else {
            printed_lines(body.lines)
        }),
{
    let next = body_step(body, line);
    if shows_text(line) {
        assert(seq![line[0]] + line.skip(1) == line);
        assert(printed_lines(next.lines) =~= printed_lines(body.lines).push(line));
    } else {
        assert(printed_lines(next.lines) =~= printed_lines(body.lines));
    }
}

proof fn lemma_body_prints(section: Seq<Seq<char>>, from: int, to: int, body: BodyModel)
    ensures
        printed_lines(body_of(section, from, to, body).lines) == printed_lines(body.lines)
            + shown_lines(section, from, to),
    decreases to - from,
{
    let before = printed_lines(body.lines);
    if from < to {
        let line = section[from];
        lemma_step_prints(body, line);
        lemma_body_prints(section, from + 1, to, body_step(body, line));
        let rest = shown_lines(section, from + 1, to);
        assert(before.push(line) + rest =~= before + (seq![line] + rest));
    } else {
        assert(before + Seq::<Seq<char>>::empty() =~= before);
    }
}

proof fn lemma_shown_lines_join(section: Seq<Seq<char>>, from: int, mid: int, to: int)
    requires
        from <= mid <= to,
    ensures
        shown_lines(section, from, to) == shown_lines(section, from, mid) + shown_lines(
            section,
            mid,
            to,
        ),
    decreases mid - from,
{
    let tail = shown_lines(section, mid, to);
    if from < mid {
        lemma_shown_lines_join(section, from + 1, mid, to);
        let head = shown_lines(section, from + 1, mid);
        if shows_text(section[from]) {
            assert(seq![section[from]] + (head + tail) =~= (seq![section[from]] + head) + tail);
        }
    } else {
        assert(Seq::<Seq<char>>::empty() + tail =~= tail);
    }
}

/// The hunks of a section from line `i` on hold its text: printed again, their lines are those of the
/// section that show text, from the first header on, in the same order.
pub proof fn hunks_hold_the_text(section: Seq<Seq<char>>, i: int)
    requires
        0 <= i <= section.len(),
    ensures
        hunks_from(section, i) matches Ok(hunks) ==> printed_hunks(hunks) == shown_lines(
            section,
            next_hunk(section, i),
            section.len() as int,
        ),
    decreases section.len() - i,
{
    let len = section.len() as int;
    if i < len {
        if !opens_hunk(section[i]) {
            hunks_hold_the_text(section, i + 1);
        } else if let Ok(h) = header_of(section[i]) {
            let end = next_hunk(section, i + 1);
            lemma_next_hunk(section, i + 1);
            hunks_hold_the_text(section, end);
            assert(next_hunk(section, end) == end);
            assert(!shows_text(section[i])) by {
                reveal_strlit("@@");
                assert(section[i].take(2)[0] == '@');
            }
            let start = BodyModel {
                old_line: h.old_start_line,
                new_line: h.new_start_line,
                lines: Seq::<LineModel>::empty(),
            };
            lemma_body_prints(section, i + 1, end, start);
            assert(printed_lines(start.lines) + shown_lines(section, i + 1, end) =~= shown_lines(
                section,
                i + 1,
                end,
            ));
            lemma_shown_lines_join(section, i + 1, end, len);
            if let Ok(rest) = hunks_from(section, end) {
                let hunks = seq![hunk_of(h, hunk_body(section, h, i + 1, end).lines)] + rest;
                assert(hunks.skip(1) == rest);
            }
        }
    }
}

/// A range is a first line and a number of lines with a comma between them. The number is one where it
/// is left out.
pub proof fn ranges_are_read(start: nat, count: nat, s: Seq<char>)
    requires
        start <= usize::MAX,
        count <= usize::MAX,
    ensures
        range_of(text::decimal(start) + seq![','] + text::decimal(count)) == Ok::<
            (nat, nat),
            ParseErrorModel,
        >((start, count)),
        range_of(text::decimal(start)) == Ok::<(nat, nat), ParseErrorModel>((start, 1)),
        !s.contains(',') && text::number(s) is None ==> range_of(s) == Err::<
            (nat, nat),
            ParseErrorModel,
        >(ParseErrorModel::Range(s)),
{
    lemma_range_reads_back(start, count);
    text::decimal_reads_back(start);
    let d = text::decimal(start);
    lemma_no_comma(d);
    if !s.contains(',') {
        lemma_char_missing(s, ',', 0);
    }
}

proof fn lemma_no_comma(d: Seq<char>)
    requires
        forall|i: int| 0 <= i < d.len() ==> text::is_digit(#[trigger] d[i]),
    ensures
        text::find_char(d, ',', 0) == d.len(),
{
    assert(!d.contains(',')) by {
        if d.contains(',') {
            let i = choose|i: int| 0 <= i < d.len() && d[i] == ',';
            assert(text::is_digit(d[i]));
        }
    }
    lemma_char_missing(d, ',', 0);
}

proof fn lemma_char_missing(s: Seq<char>, c: char, from: int)
    requires
        0 <= from <= s.len(),
        !s.contains(c),
    ensures
        text::find_char(s, c, from) == s.len(),
    decreases s.len() - from,
{
    if from < s.len() {
        assert(s.contains(s[from]));
        lemma_char_missing(s, c, from + 1);
    }
}

/// A header gives the range of the old file behind a minus and that of the new file behind a plus,
/// whatever follows them on the line.
pub proof fn headers_are_read(
    old_range: Seq<char>,
    new_range: Seq<char>,
    tail: Seq<char>,
)
    requires
        text::all_space(old_range, false),
        text::all_space(new_range, false),
        tail.len() > 0 ==> text::is_space(tail[0]),
    ensures
        ({
            let line = seq!['@', '@'] + (seq![' '] + (seq!['-'] + old_range) + (seq![' '] + (seq!['+']
                + new_range) + tail));
            match (range_of(old_range), range_of(new_range)) {
                (Ok((a, b)), Ok((c, d))) => header_of(line) == Ok::<HeaderModel, ParseErrorModel>(
                    HeaderModel {
                        old_start_line: a,
                        old_line_count: b,
                        new_start_line: c,
                        new_line_count: d,
                    },
                ),
                _ => header_of(line) is Err,
            }
        }),
{
    let w1 = seq!['-'] + old_range;
    let w2 = seq!['+'] + new_range;
    let last = seq![' '] + w2 + tail;
    let middle = seq![' '] + w1 + last;
    let at = seq!['@', '@'];
    let line = at + middle;
    let none = Seq::<char>::empty();
    assert(text::all_space(w1, false)) by {
        assert forall|i: int| 0 <= i < w1.len() implies text::is_space(#[trigger] w1[i]) == false by {
            if i > 0 {
                assert(w1[i] == old_range[i - 1]);
            }
        }
    }
    assert(text::all_space(w2, false)) by {
        assert forall|i: int| 0 <= i < w2.len() implies text::is_space(#[trigger] w2[i]) == false by {
            if i > 0 {
                assert(w2[i] == new_range[i - 1]);
            }
        }
    }
    text::words_stand_between_spaces(none, at, middle);
    assert(none + at + middle == line);
    text::words_stand_between_spaces(seq![' '], w1, last);
    text::words_stand_between_spaces(seq![' '], w2, tail);
    let words = text::word_texts(line);
    assert(words == seq![at] + (seq![w1] + (seq![w2] + text::word_texts(tail))));
    assert(words[1] == w1 && words[2] == w2 && words.len() >= 3);
    reveal_strlit("@@");
    reveal_strlit("-");
    reveal_strlit("+");
    assert("@@"@ =~= at);
    assert("-"@ =~= seq!['-'] && "+"@ =~= seq!['+']);
    assert(line.take(2) == at);
    text::prefixes_are_taken_off(w1, "-"@, old_range);
    text::prefixes_are_taken_off(w2, "+"@, new_range);
}

/// The prefixes that git puts before paths are taken off, and all else is left as it is.
pub proof fn path_prefixes_are_taken_off(path: Seq<char>, rest: Seq<char>)
    ensures
        plain_path("a/"@ + rest) == rest,
        plain_path("b/"@ + rest) == rest,
        !text::is_prefix(path, "a/"@) && !text::is_prefix(path, "b/"@) ==> plain_path(path) == path,
{
    reveal_strlit("a/");
    reveal_strlit("b/");
    text::prefixes_are_taken_off("a/"@ + rest, "a/"@, rest);
    text::prefixes_are_taken_off("b/"@ + rest, "b/"@, rest);
    assert(("b/"@ + rest).take(2)[0] == 'b');
    assert("a/"@[0] == 'a');
    assert(!text::is_prefix("b/"@ + rest, "a/"@));
}

/// The path that a line names behind the words, where it names one.
pub open spec fn names_path(line: Seq<char>, words: Seq<char>) -> Option<Seq<char>> {
    match text::after_prefix(line, words) {
        Some(rest) => if rest == "/dev/null"@ {
            None
        } else {
            Some(plain_path(rest))
        },
        None => None,
    }
}

/// Whether `path` is the last that a line with these words names before index `to`, if any does.
pub open spec fn is_last_named(
    section: Seq<Seq<char>>,
    from: int,
    to: int,
    words: Seq<char>,
    known: Option<Seq<char>>,
    path: Option<Seq<char>>,
) -> bool {
    ||| exists|k: int|
        from <= k < to && path is Some && names_path(#[trigger] section[k], words) == path && forall|
            j: int,
        |
            k < j < to ==> names_path(#[trigger] section[j], words) is None
    ||| path == known && forall|j: int|
        from <= j < to ==> names_path(#[trigger] section[j], words) is None
}

proof fn lemma_named_step(
    section: Seq<Seq<char>>,
    i: int,
    to: int,
    words: Seq<char>,
    known: Option<Seq<char>>,
    path: Option<Seq<char>>,
)
    requires
        0 <= i < to <= section.len(),
        is_last_named(
            section,
            i + 1,
            to,
            words,
            (if names_path(section[i], words) is Some {
                names_path(section[i], words)
            } else {
                known
            }),
            path,
        ),
    ensures
        is_last_named(section, i, to, words, known, path),
{
    if exists|k: int|
        i + 1 <= k < to && path is Some && names_path(#[trigger] section[k], words) == path && forall|
            j: int,
        |
            k < j < to ==> names_path(#[trigger] section[j], words) is None {
        let k = choose|k: int|
            i + 1 <= k < to && path is Some && names_path(#[trigger] section[k], words) == path
                && forall|j: int| k < j < to ==> names_path(#[trigger] section[j], words) is None;
        assert(names_path(section[k], words) == path);
    } else if names_path(section[i], words) is Some {
        assert(names_path(section[i], words) == path);
    }
}

proof fn lemma_paths_from(
    section: Seq<Seq<char>>,
    i: int,
    new_path: Option<Seq<char>>,
    old_path: Option<Seq<char>>,
)
    requires
        0 <= i <= section.len(),
    ensures
        ({
            let end = next_hunk(section, i);
            let found = paths_from(section, i, new_path, old_path);
            &&& is_last_named(section, i, end, "+++ "@, new_path, found.0)
            &&& is_last_named(section, i, end, "--- "@, old_path, found.1)
        }),
    decreases section.len() - i,
{
    let end = next_hunk(section, i);
    let found = paths_from(section, i, new_path, old_path);
    lemma_next_hunk(section, i);
    if i < section.len() {
        let line = section[i];
        reveal_strlit("+++ ");
        reveal_strlit("--- ");
        reveal_strlit("@@");
        assert("+++ "@[0] == '+' && "--- "@[0] == '-' && "@@"@[0] == '@');
        if text::is_prefix(line, "+++ "@) {
            assert(line.take(4)[0] == line[0]);
        }
        if text::is_prefix(line, "--- "@) {
            assert(line.take(4)[0] == line[0]);
        }
        if opens_hunk(line) {
            assert(line.take(2)[0] == line[0]);
            assert(end == i);
        } else {
            let a = names_path(line, "+++ "@);
            let b = names_path(line, "--- "@);
            let next_new = if a is Some {
                a
            } else {
                new_path
            };
            let next_old = if b is Some {
                b
            } else {
                old_path
            };
            lemma_paths_from(section, i + 1, next_new, next_old);
            assert(found == paths_from(section, i + 1, next_new, next_old));
            assert(end == next_hunk(section, i + 1));
            lemma_next_hunk(section, i + 1);
            lemma_named_step(section, i, end, "+++ "@, new_path, found.0);
            lemma_named_step(section, i, end, "--- "@, old_path, found.1);
        }
    }
}

/// The path of a file is the last that a line for the new file names above the first hunk, or else the
/// last that a line for the old file names there. A file that is not there is not named.
pub proof fn paths_are_those_named_last(section: Seq<Seq<char>>)
    ensures
        exists|a: Option<Seq<char>>, b: Option<Seq<char>>|
            {
                &&& #[trigger] is_last_named(
                    section,
                    0,
                    next_hunk(section, 0),
                    "+++ "@,
                    None,
                    a,
                )
                &&& #[trigger] is_last_named(
                    section,
                    0,
                    next_hunk(section, 0),
                    "--- "@,
                    None,
                    b,
                )
                &&& file_line_path(section) == (if a is Some {
                    a
                } else {
                    b
                })
            },
{
    lemma_paths_from(section, 0, None, None);
    let found = paths_from(section, 0, None, None);
    assert(is_last_named(section, 0, next_hunk(section, 0), "+++ "@, None, found.0));
    assert(is_last_named(section, 0, next_hunk(section, 0), "--- "@, None, found.1));
}

/// The first hunk of a section begins at the first line that is a header, and ends before the next.
pub proof fn hunks_begin_at_headers(section: Seq<Seq<char>>, from: int)
    requires
        0 <= from <= section.len(),
    ensures
        ({
            let k = next_hunk(section, from);
            &&& from <= k <= section.len()
            &&& k < section.len() ==> section[k].len() >= 2 && section[k][0] == '@' && section[k][1]
                == '@'
            &&& forall|i: int|
                from <= i < k ==> !((#[trigger] section[i]).len() >= 2 && section[i][0] == '@'
                    && section[i][1] == '@')
        }),
{
    reveal_strlit("@@");
    lemma_next_hunk(section, from);
    let k = next_hunk(section, from);
    if k < section.len() {
        assert(section[k].take(2)[0] == '@' && section[k].take(2)[1] == '@');
    }
    assert forall|i: int| from <= i < k implies !((#[trigger] section[i]).len() >= 2 && section[i][0]
        == '@' && section[i][1] == '@') by {
        assert(!opens_hunk(section[i]));
        if section[i].len() >= 2 && section[i][0] == '@' && section[i][1] == '@' {
            assert(section[i].take(2) =~= "@@"@);
        }
    }
}

/// The line that begins a file names its path behind the last ` b/`, where no other line does.
pub proof fn first_lines_name_the_path(head: Seq<char>, path: Seq<char>)
    requires
        forall|n: int| !#[trigger] text::follows(path, " b/"@, n),
    ensures
        git_line_path("diff --git "@ + (head + " b/"@ + path)) == Some(path),
{
    let rest = head + " b/"@ + path;
    let at = head.len() as int;
    text::prefixes_are_taken_off("diff --git "@ + rest, "diff --git "@, rest);
    assert forall|j: int| at < j implies !text::is_at(rest, " b/"@, j) by {
        lemma_no_later_mark(head, path, j);
    }
    assert(text::is_at(rest, " b/"@, at)) by {
        assert(rest.subrange(at, at + " b/"@.len()) =~= " b/"@);
    }
    lemma_last_at_is(rest, " b/"@, rest.len() as int, at);
    assert(rest.skip(at + 1) == "b/"@ + path) by {
        reveal_strlit(" b/");
        reveal_strlit("b/");
    }
    path_prefixes_are_taken_off(path, path);
}

proof fn lemma_no_later_mark(head: Seq<char>, path: Seq<char>, j: int)
    requires
        forall|n: int| !#[trigger] text::follows(path, " b/"@, n),
        head.len() < j,
    ensures
        !text::is_at(head + " b/"@ + path, " b/"@, j),
{
    reveal_strlit(" b/");
    let at = head.len() as int;
    let rest = head + " b/"@ + path;
    if text::is_at(rest, " b/"@, j) {
        let part = rest.subrange(j, j + 3);
        assert(part[0] == ' ');
        assert(rest[j] == ' ');
        if j < at + 3 {
            assert(rest[j] == " b/"@[j - at]);
        } else {
            let n = j - at - 3;
            assert(path == path.take(n) + " b/"@ + path.skip(n + 3)) by {
                assert(path.subrange(n, n + 3) =~= part);
            }
            assert(text::follows(path, " b/"@, n));
        }
    }
}

proof fn lemma_last_at_is(s: Seq<char>, p: Seq<char>, from: int, at: int)
    requires
        0 <= at <= from,
        text::is_at(s, p, at),
        forall|j: int| at < j ==> !text::is_at(s, p, j),
    ensures
        text::last_at(s, p, from) == Some(at),
    decreases from - at,
{
    if from > at {
        assert(!text::is_at(s, p, from));
        lemma_last_at_is(s, p, from - 1, at);
    }
}

/// Whether a line settles what became of a file.
pub open spec fn settles(line: Seq<char>) -> bool {
    text::is_prefix(line, "new file mode"@) || text::is_prefix(line, "deleted file mode"@)
        || text::is_prefix(line, "copy from "@) || opens_hunk(line)
}

/// What became of a file is settled by the first line that settles it. A file that is neither new nor
/// deleted nor copied was renamed where a line before that says so, from the path that the last such
/// line names, and else modified.
pub proof fn the_first_settling_line_counts(
    section: Seq<Seq<char>>,
    i: int,
    known: Option<Seq<char>>,
)
    requires
        0 <= i <= section.len(),
    ensures
        exists|k: int|
            {
                &&& i <= k <= section.len()
                &&& forall|j: int| i <= j < k ==> !settles(#[trigger] section[j])
                &&& k < section.len() ==> settles(section[k])
                &&& k < section.len() && text::is_prefix(section[k], "new file mode"@)
                    ==> status_from(section, i, known) is New
                &&& k < section.len() && text::is_prefix(section[k], "deleted file mode"@)
                    && !text::is_prefix(section[k], "new file mode"@) ==> status_from(
                    section,
                    i,
                    known,
                ) is Deleted
                &&& k < section.len() && text::is_prefix(section[k], "copy from "@)
                    && !text::is_prefix(section[k], "new file mode"@) && !text::is_prefix(
                    section[k],
                    "deleted file mode"@,
                ) ==> status_from(section, i, known) == (StatusModel::Copied {
                    old_path: text::without_prefixes(section[k], "copy from "@),
                })
                &&& #[trigger] settled_by_rename(section, i, k, known, status_from(section, i, known))
            },
    decreases section.len() - i,
{
    reveal_strlit("rename from ");
    reveal_strlit("@@");
    if i < section.len() && !settles(section[i]) {
        let renamed = match text::after_prefix(section[i], "rename from "@) {
            Some(from) => Some(from),
            None => known,
        };
        the_first_settling_line_counts(section, i + 1, renamed);
        let status = status_from(section, i + 1, renamed);
        let k = choose|k: int|
            {
                &&& i + 1 <= k <= section.len()
                &&& forall|j: int| i + 1 <= j < k ==> !settles(#[trigger] section[j])
                &&& k < section.len() ==> settles(section[k])
                &&& k < section.len() && text::is_prefix(section[k], "new file mode"@)
                    ==> status_from(section, i + 1, renamed) is New
                &&& k < section.len() && text::is_prefix(section[k], "deleted file mode"@)
                    && !text::is_prefix(section[k], "new file mode"@) ==> status_from(
                    section,
                    i + 1,
                    renamed,
                ) is Deleted
                &&& k < section.len() && text::is_prefix(section[k], "copy from "@)
                    && !text::is_prefix(section[k], "new file mode"@) && !text::is_prefix(
                    section[k],
                    "deleted file mode"@,
                ) ==> status_from(section, i + 1, renamed) == (StatusModel::Copied {
                    old_path: text::without_prefixes(section[k], "copy from "@),
                })
                &&& #[trigger] settled_by_rename(section, i + 1, k, renamed, status)
            };
        assert(settled_by_rename(section, i, k, known, status));
    } else {
        if i < section.len() && opens_hunk(section[i]) && text::is_prefix(
            section[i],
            "rename from "@,
        ) {
            assert(section[i].take(2)[0] == '@');
            assert(section[i].take(12)[0] == 'r');
        }
        assert(settled_by_rename(section, i, i, known, status_from(section, i, known)));
    }
}

/// Whether the status is what the lines from `i` to `k` say of a file that line `k` does not tell to be
/// new, deleted or copied.
pub open spec fn settled_by_rename(
    section: Seq<Seq<char>>,
    i: int,
    k: int,
    known: Option<Seq<char>>,
    status: StatusModel,
) -> bool {
    (k >= section.len() || (opens_hunk(section[k]) && !text::is_prefix(section[k], "new file mode"@)
        && !text::is_prefix(section[k], "deleted file mode"@) && !text::is_prefix(
        section[k],
        "copy from "@,
    ))) ==> {
        ||| exists|m: int|
            i <= m < k && text::is_prefix(#[trigger] section[m], "rename from "@) && status
                == (StatusModel::Renamed { old_path: section[m].skip(12) }) && forall|j: int|
                m < j < k ==> !text::is_prefix(#[trigger] section[j], "rename from "@)
        ||| (forall|j: int|
            i <= j < k ==> !text::is_prefix(#[trigger] section[j], "rename from "@)) && status
            == (match known {
            Some(old_path) => StatusModel::Renamed { old_path },
            None => StatusModel::Modified,
        })
    }
}

/// A file is kept whole where it is within both limits, and a binary one always. Another one keeps no
/// lines and is marked. What was added and deleted is counted either way.
pub proof fn files_within_limits_are_kept(
    path: Seq<char>,
    status: StatusModel,
    is_binary: bool,
    hunks: Seq<HunkModel>,
    limits: DiffLimits,
    retained: nat,
)
    ensures
        ({
            let (file, kept) = limited(path, status, is_binary, hunks, limits, retained);
            let lines = model::line_total(hunks);
            let fits = lines <= limits.max_file_lines && retained + lines <= limits.max_total_lines;
            &&& file.file_path == path && file.status == status && file.is_binary == is_binary
            &&& is_binary || fits ==> file.hunks == hunks && !file.oversized && kept == retained
                + lines
            &&& !is_binary && !fits ==> file.hunks.len() == 0 && file.oversized && kept == retained
            &&& file.additions == model::changes(hunks, DiffLineType::Add)
            &&& file.deletions == model::changes(hunks, DiffLineType::Delete)
        }),
{
}

proof fn lemma_body_back(section: Seq<Seq<char>>, from: int, to: int, body: BodyModel)
    requires
        from < to,
    ensures
        body_of(section, from, to, body) == body_step(
            body_of(section, from, to - 1, body),
            section[to - 1],
        ),
    decreases to - from,
{
    if from + 1 < to {
        lemma_body_back(section, from + 1, to, body_step(body, section[from]));
    } else {
        reveal_with_fuel(body_of, 2);
    }
}

/// Where the lines of a hunk that show text stand in the section.
pub open spec fn text_lines_at(section: Seq<Seq<char>>, from: int, to: int) -> Seq<int> {
    lists::indices(section.len()).subrange(from, to).filter(|j: int| shows_text(section[j]))
}

/// Whether the line says that the one before it has no line feed at its end.
pub open spec fn marks_no_newline(line: Seq<char>) -> bool {
    line.len() > 0 && line[0] == '\\'
}

/// Whether a mark stands behind the line at `at[k]` and before the next line that shows text.
pub open spec fn is_marked(section: Seq<Seq<char>>, at: Seq<int>, k: int, to: int) -> bool {
    exists|j: int|
        at[k] < j < (if k + 1 < at.len() {
            at[k + 1]
        } else {
            to
        }) && marks_no_newline(#[trigger] section[j])
}

proof fn lemma_text_lines_step(section: Seq<Seq<char>>, from: int, to: int)
    requires
        0 <= from < to <= section.len(),
    ensures
        text_lines_at(section, from, to) == (if shows_text(section[to - 1]) {
            text_lines_at(section, from, to - 1).push(to - 1)
        } else {
            text_lines_at(section, from, to - 1)
        }),
{
    let idx = lists::indices(section.len());
    assert(idx.subrange(from, to).drop_last() =~= idx.subrange(from, to - 1));
    assert(idx.subrange(from, to).last() == to - 1);
    reveal(Seq::filter);
}

proof fn lemma_text_lines_bounds(section: Seq<Seq<char>>, from: int, to: int)
    requires
        0 <= from <= to <= section.len(),
    ensures
        forall|k: int|
            0 <= k < text_lines_at(section, from, to).len() ==> from <= #[trigger] text_lines_at(
                section,
                from,
                to,
            )[k] < to,
    decreases to - from,
{
    if from < to {
        lemma_text_lines_bounds(section, from, to - 1);
        lemma_text_lines_step(section, from, to);
    } else {
        assert(lists::indices(section.len()).subrange(from, to) =~= Seq::<int>::empty());
        reveal(Seq::filter);
    }
}

/// A hunk has a line for each line of the section that shows text, with what stands behind its first
/// character. A line is marked to have no line feed just where a mark follows it.
pub proof fn marks_belong_to_the_line_before(
    section: Seq<Seq<char>>,
    h: HeaderModel,
    from: int,
    to: int,
)
    requires
        0 <= from <= to <= section.len(),
    ensures
        ({
            let lines = hunk_body(section, h, from, to).lines;
            let at = text_lines_at(section, from, to);
            &&& lines.len() == at.len()
            &&& forall|k: int|
                0 <= k < lines.len() ==> (#[trigger] lines[k]).text == section[at[k]].skip(1)
            &&& forall|k: int|
                0 <= k < lines.len() ==> ((#[trigger] lines[k]).no_trailing_newline <==> is_marked(
                    section,
                    at,
                    k,
                    to,
                ))
        }),
    decreases to - from,
{
    let at = text_lines_at(section, from, to);
    let start = BodyModel {
        old_line: h.old_start_line,
        new_line: h.new_start_line,
        lines: Seq::empty(),
    };
    if from < to {
        marks_belong_to_the_line_before(section, h, from, to - 1);
        lemma_body_back(section, from, to, start);
        lemma_text_lines_step(section, from, to);
        lemma_text_lines_bounds(section, from, to - 1);
        let before = hunk_body(section, h, from, to - 1).lines;
        let was = text_lines_at(section, from, to - 1);
        let line = section[to - 1];
        let lines = hunk_body(section, h, from, to).lines;
        assert forall|k: int| 0 <= k < lines.len() implies ((#[trigger] lines[k]).no_trailing_newline
            <==> is_marked(section, at, k, to)) by {
            if shows_text(line) {
                if k < before.len() {
                    assert(lines[k] == before[k]);
                    assert(at[k] == was[k]);
                    if k + 1 < was.len() {
                        assert(at[k + 1] == was[k + 1]);
                    } else {
                        assert(at[k + 1] == to - 1);
                    }
                    assert(is_marked(section, at, k, to) == is_marked(section, was, k, to - 1));
                } else {
                    assert(at[k] == to - 1);
                }
            } else {
                assert(at == was);
                assert(before[k].no_trailing_newline <==> is_marked(section, was, k, to - 1));
                if k + 1 < was.len() {
                    assert(is_marked(section, at, k, to) == is_marked(section, was, k, to - 1));
                } else {
                    if marks_no_newline(line) {
                        assert(was[k] < to - 1 < to);
                        assert(is_marked(section, at, k, to));
                    } else {
                        assert(is_marked(section, at, k, to) == is_marked(section, was, k, to - 1));
                    }
                }
            }
        }
        assert forall|k: int| 0 <= k < lines.len() implies (#[trigger] lines[k]).text
            == section[at[k]].skip(1) by {
            if k < before.len() {
                assert(before[k].text == section[was[k]].skip(1));
            }
        }
    } else {
        assert(lists::indices(section.len()).subrange(from, to) =~= Seq::<int>::empty());
        reveal(Seq::filter);
    }
}

proof fn lemma_next_hunk_shift(pre: Seq<Seq<char>>, section: Seq<Seq<char>>, i: int)
    requires
        0 <= i <= section.len(),
    ensures
        next_hunk(pre + section, pre.len() + i) == pre.len() + next_hunk(section, i),
    decreases section.len() - i,
{
    if i < section.len() {
        assert((pre + section)[pre.len() + i] == section[i]);
        if !opens_hunk(section[i]) {
            lemma_next_hunk_shift(pre, section, i + 1);
        }
    }
}

proof fn lemma_body_shift(
    pre: Seq<Seq<char>>,
    section: Seq<Seq<char>>,
    post: Seq<Seq<char>>,
    from: int,
    to: int,
    body: BodyModel,
)
    requires
        0 <= from <= to <= section.len(),
    ensures
        body_of(pre + section + post, pre.len() + from, pre.len() + to, body) == body_of(
            section,
            from,
            to,
            body,
        ),
    decreases to - from,
{
    if from < to {
        assert((pre + section + post)[pre.len() + from] == section[from]);
        lemma_body_shift(pre, section, post, from + 1, to, body_step(body, section[from]));
    }
}

proof fn lemma_hunks_shift(pre: Seq<Seq<char>>, section: Seq<Seq<char>>, i: int)
    requires
        0 <= i <= section.len(),
    ensures
        hunks_from(pre + section, pre.len() + i) == hunks_from(section, i),
    decreases section.len() - i,
{
    let whole = pre + section;
    let none = Seq::<Seq<char>>::empty();
    if i < section.len() {
        assert(whole[pre.len() + i] == section[i]);
        if !opens_hunk(section[i]) {
            lemma_hunks_shift(pre, section, i + 1);
        } else if let Ok(h) = header_of(section[i]) {
            lemma_next_hunk(section, i + 1);
            lemma_next_hunk_shift(pre, section, i + 1);
            let end = next_hunk(section, i + 1);
            lemma_hunks_shift(pre, section, end);
            let start = BodyModel {
                old_line: h.old_start_line,
                new_line: h.new_start_line,
                lines: Seq::empty(),
            };
            assert(whole + none == whole);
            lemma_body_shift(pre, section, none, i + 1, end, start);
        }
    }
}

/// Whether the section has no more, or goes on with a hunk.
pub open spec fn at_hunk(section: Seq<Seq<char>>) -> bool {
    section.len() == 0 || opens_hunk(section[0])
}

/// A hunk is its header and the lines up to the next header, and the hunks behind it are those of the
/// rest. Lines above the first header belong to no hunk.
pub proof fn hunks_stand_one_behind_the_other(
    above: Seq<Seq<char>>,
    head: Seq<char>,
    body: Seq<Seq<char>>,
    rest: Seq<Seq<char>>,
)
    requires
        opens_hunk(head),
        forall|i: int| 0 <= i < above.len() ==> !opens_hunk(#[trigger] above[i]),
        forall|i: int| 0 <= i < body.len() ==> !opens_hunk(#[trigger] body[i]),
        at_hunk(rest),
    ensures
        hunks_from(above + rest, 0) == hunks_from(rest, 0),
        hunks_from(seq![head] + body + rest, 0) == (match header_of(head) {
            Err(e) => Err(e),
            Ok(h) => match hunks_from(rest, 0) {
                Err(e) => Err(e),
                Ok(more) => Ok(
                    seq![
                        HunkModel {
                            old_start_line: h.old_start_line,
                            old_line_count: h.old_line_count,
                            new_start_line: h.new_start_line,
                            new_line_count: h.new_line_count,
                            lines: hunk_body(body, h, 0, body.len() as int).lines,
                        },
                    ] + more,
                ),
            },
        }),
{
    lemma_hunks_above(above, rest, 0);
    lemma_hunks_shift(above, rest, 0);
    let pre = seq![head];
    let whole = pre + body + rest;
    let n = body.len() as int;
    assert(whole[0] == head);
    if let Ok(h) = header_of(head) {
        lemma_next_hunk(whole, 1);
        let end = next_hunk(whole, 1);
        assert(end == n + 1) by {
            if end < n + 1 {
                assert(whole[end] == body[end - 1]);
            }
            if end > n + 1 {
                assert(whole[n + 1] == rest[0]);
            }
        }
        let start = BodyModel {
            old_line: h.old_start_line,
            new_line: h.new_start_line,
            lines: Seq::empty(),
        };
        lemma_body_shift(pre, body, rest, 0, n, start);
        lemma_hunks_shift(pre + body, rest, 0);
    }
}

proof fn lemma_hunks_above(above: Seq<Seq<char>>, rest: Seq<Seq<char>>, i: int)
    requires
        0 <= i <= above.len(),
        forall|j: int| 0 <= j < above.len() ==> !opens_hunk(#[trigger] above[j]),
    ensures
        hunks_from(above + rest, i) == hunks_from(above + rest, above.len() as int),
    decreases above.len() - i,
{
    if i < above.len() {
        assert((above + rest)[i] == above[i]);
        lemma_hunks_above(above, rest, i + 1);
    }
}

proof fn lemma_next_file_is(lines: Seq<Seq<char>>, from: int, at: int)
    requires
        0 <= from <= at <= lines.len(),
        forall|i: int| from <= i < at ==> !opens_file(#[trigger] lines[i]),
        at < lines.len() ==> opens_file(lines[at]),
    ensures
        next_file(lines, from) == at,
    decreases at - from,
{
    if from < at {
        lemma_next_file_is(lines, from + 1, at);
    }
}

proof fn lemma_next_file_shift(pre: Seq<Seq<char>>, lines: Seq<Seq<char>>, i: int)
    requires
        0 <= i,
    ensures
        next_file(pre + lines, pre.len() + i) == pre.len() + next_file(lines, i),
    decreases lines.len() - i,
{
    if i < lines.len() {
        assert((pre + lines)[pre.len() + i] == lines[i]);
        if !opens_file(lines[i]) {
            lemma_next_file_shift(pre, lines, i + 1);
        }
    }
}

proof fn lemma_files_shift(
    pre: Seq<Seq<char>>,
    lines: Seq<Seq<char>>,
    i: int,
    limits: DiffLimits,
    retained: nat,
)
    requires
        0 <= i <= lines.len(),
    ensures
        files_from(pre + lines, pre.len() + i, limits, retained) == files_from(
            lines,
            i,
            limits,
            retained,
        ),
    decreases lines.len() - i,
{
    let whole = pre + lines;
    lemma_next_file_shift(pre, lines, i + 1);
    let end = next_file(lines, i + 1);
    if 0 <= i < end <= lines.len() {
        assert(whole.subrange(pre.len() + i, pre.len() + end) =~= lines.subrange(i, end));
        if let Ok((file, kept)) = file_of(lines.subrange(i, end), limits, retained) {
            lemma_files_shift(pre, lines, end, limits, kept);
        }
    }
}

/// A file of a patch is the lines from one that begins a file up to the next such line, and the files
/// behind it are those of the rest, with what is left of the limits.
pub proof fn files_stand_one_behind_the_other(
    section: Seq<Seq<char>>,
    rest: Seq<Seq<char>>,
    limits: DiffLimits,
    retained: nat,
)
    requires
        section.len() > 0,
        opens_file(section[0]),
        forall|i: int| 0 < i < section.len() ==> !opens_file(#[trigger] section[i]),
        rest.len() > 0 ==> opens_file(rest[0]),
    ensures
        files_from(section + rest, 0, limits, retained) == (match file_of(section, limits, retained) {
            Err(e) => Err(e),
            Ok((file, kept)) => match files_from(rest, 0, limits, kept) {
                Err(e) => Err(e),
                Ok(more) => Ok(seq![file] + more),
            },
        }),
        files_from(Seq::empty(), 0, limits, retained) == Ok::<Seq<FileModel>, ParseErrorModel>(
            Seq::empty(),
        ),
{
    let whole = section + rest;
    let n = section.len() as int;
    assert forall|i: int| 1 <= i < n implies !opens_file(#[trigger] whole[i]) by {
        assert(whole[i] == section[i]);
    }
    if n < whole.len() {
        assert(whole[n] == rest[0]);
    }
    lemma_next_file_is(whole, 1, n);
    assert(whole.subrange(0, n) =~= section);
    if let Ok((file, kept)) = file_of(section, limits, retained) {
        lemma_files_shift(section, rest, 0, limits, kept);
    }
}

/// What stands in a patch before the first line that begins a file belongs to no file.
pub proof fn lines_above_the_first_file_are_left_out(
    above: Seq<Seq<char>>,
    rest: Seq<Seq<char>>,
    limits: DiffLimits,
)
    requires
        forall|i: int| 0 <= i < above.len() ==> !opens_file(#[trigger] above[i]),
        rest.len() > 0 ==> opens_file(rest[0]),
    ensures
        ({
            let whole = above + rest;
            files_from(whole, next_file(whole, 0), limits, 0) == files_from(rest, 0, limits, 0)
        }),
{
    let whole = above + rest;
    assert forall|i: int| 0 <= i < above.len() implies !opens_file(#[trigger] whole[i]) by {
        assert(whole[i] == above[i]);
    }
    if rest.len() > 0 {
        assert(whole[above.len() as int] == rest[0]);
    }
    lemma_next_file_is(whole, 0, above.len() as int);
    lemma_files_shift(above, rest, 0, limits, 0);
}

/// A file has the path, the status and the hunks of its section, and is refused where it has no path or
/// a hunk of it cannot be read. A binary one has no hunks.
pub proof fn sections_are_read(section: Seq<Seq<char>>, limits: DiffLimits, retained: nat)
    ensures
        match file_of(section, limits, retained) {
            Ok((file, kept)) => {
                &&& path_of(section) == Some(file.file_path)
                &&& file.status == status_from(section, 0, None)
                &&& file.is_binary <==> exists|i: int|
                    0 <= i < section.len() && says_binary(#[trigger] section[i])
                &&& file.is_binary ==> file.hunks.len() == 0 && file.additions == 0
                    && file.deletions == 0 && !file.oversized
                &&& !file.is_binary && !file.oversized ==> hunks_from(section, 0) == Ok::<
                    Seq<HunkModel>,
                    ParseErrorModel,
                >(file.hunks)
                &&& kept == retained + model::line_total(file.hunks)
            },
            Err(e) => if path_of(section) is None {
                e is NoPath
            } else {
                !is_binary(section) && hunks_from(section, 0) == Err::<
                    Seq<HunkModel>,
                    ParseErrorModel,
                >(e)
            },
        },
        file_line_path(section) is Some ==> path_of(section) == file_line_path(section),
        file_line_path(section) is None && section.len() > 0 ==> path_of(section) == git_line_path(
            section[0],
        ),
{
}

/// A line that begins otherwise than a header is none, and a header has at least two ranges, the first
/// behind a minus and the second behind a plus.
pub proof fn bad_headers_are_refused(line: Seq<char>)
    ensures
        ({
            let words = text::word_texts(line);
            let opens = line.len() >= 2 && line[0] == '@' && line[1] == '@';
            &&& !opens <==> header_of(line) == Err::<HeaderModel, ParseErrorModel>(
                ParseErrorModel::Header(line),
            )
            &&& opens && words.len() < 3 ==> header_of(line) == Err::<HeaderModel, ParseErrorModel>(
                ParseErrorModel::HeaderFormat(line),
            )
            &&& opens && words.len() >= 3 && !(words[1].len() > 0 && words[1][0] == '-')
                ==> header_of(line) == Err::<HeaderModel, ParseErrorModel>(
                ParseErrorModel::OldRange(line),
            )
            &&& opens && words.len() >= 3 && words[1].len() > 0 && words[1][0] == '-' && !(
            words[2].len() > 0 && words[2][0] == '+') ==> header_of(line) == Err::<
                HeaderModel,
                ParseErrorModel,
            >(ParseErrorModel::NewRange(line))
        }),
{
    reveal_strlit("@@");
    reveal_strlit("-");
    reveal_strlit("+");
    let words = text::word_texts(line);
    assert(opens_hunk(line) <==> line.len() >= 2 && line[0] == '@' && line[1] == '@') by {
        if line.len() >= 2 {
            assert(line.take(2)[0] == line[0] && line.take(2)[1] == line[1]);
            if line[0] == '@' && line[1] == '@' {
                assert(line.take(2) =~= "@@"@);
            }
        }
    }
    if words.len() >= 3 {
        lemma_first_char(words[1], "-"@, '-');
        lemma_first_char(words[2], "+"@, '+');
    }
    if opens_hunk(line) && words.len() >= 3 && text::is_prefix(words[1], "-"@) && text::is_prefix(
        words[2],
        "+"@,
    ) {
        lemma_range_errors(words[1].skip(1));
        lemma_range_errors(words[2].skip(1));
    }
}

proof fn lemma_range_errors(s: Seq<char>)
    ensures
        range_of(s) matches Err(e) ==> e is Range || e is RangeStart || e is RangeCount,
{
}

proof fn lemma_first_char(s: Seq<char>, p: Seq<char>, c: char)
    requires
        p =~= seq![c],
    ensures
        text::is_prefix(s, p) <==> s.len() > 0 && s[0] == c,
{
    if s.len() > 0 {
        assert(s.take(1)[0] == s[0]);
        if s[0] == c {
            assert(s.take(1) =~= p);
        }
    }
}

/// A range with a comma is refused for what stands before it, or else for what stands behind it.
pub proof fn bad_ranges_are_refused(start: Seq<char>, count: Seq<char>)
    requires
        !start.contains(','),
    ensures
        ({
            let s = start + seq![','] + count;
            let a = text::bounded_number(start, usize::MAX as nat);
            let b = text::bounded_number(count, usize::MAX as nat);
            &&& a is None ==> range_of(s) == Err::<(nat, nat), ParseErrorModel>(
                ParseErrorModel::RangeStart(s),
            )
            &&& a is Some && b is None ==> range_of(s) == Err::<(nat, nat), ParseErrorModel>(
                ParseErrorModel::RangeCount(s),
            )
            &&& a is Some && b is Some ==> range_of(s) == Ok::<(nat, nat), ParseErrorModel>(
                (a->0, b->0),
            )
        }),
{
    let s = start + seq![','] + count;
    let n = start.len() as int;
    assert(s[n] == ',');
    assert forall|i: int| 0 <= i < n implies #[trigger] s[i] != ',' by {
        assert(s[i] == start[i]);
        assert(start.contains(start[i]));
    }
    lemma_find_char(s, ',', 0, n);
    assert(s.take(n) == start);
    assert(s.skip(n + 1) == count);
}

/// What could not be read is told with what it was.
pub proof fn messages_tell_what_was_wrong(s: Seq<char>)
    ensures
        parse_error_message(ParseErrorModel::RangeStart(s)) == "invalid range start: "@ + s,
        parse_error_message(ParseErrorModel::RangeCount(s)) == "invalid range count: "@ + s,
        parse_error_message(ParseErrorModel::Range(s)) == "invalid range: "@ + s,
        parse_error_message(ParseErrorModel::Header(s)) == "invalid unified diff header: "@ + s,
        parse_error_message(ParseErrorModel::OldRange(s)) == "invalid old range: "@ + s,
        parse_error_message(ParseErrorModel::NewRange(s)) == "invalid new range: "@ + s,
{
}

/// A file begins with git's line for it. It is binary where a line says that the files are, or that a
/// binary patch follows.
pub proof fn files_and_binaries_are_recognised(line: Seq<char>, rest: Seq<char>)
    ensures
        opens_file("diff --git "@ + rest),
        opens_file(line) ==> line == "diff --git "@ + line.skip("diff --git "@.len() as int),
        says_binary("Binary files "@ + rest),
        says_binary("GIT binary patch"@ + rest),
        says_binary(line) ==> text::after_prefix(line, "Binary files "@) is Some
            || text::after_prefix(line, "GIT binary patch"@) is Some,
{
    text::prefixes_are_taken_off("diff --git "@ + rest, "diff --git "@, rest);
    text::prefixes_are_taken_off("Binary files "@ + rest, "Binary files "@, rest);
    text::prefixes_are_taken_off("GIT binary patch"@ + rest, "GIT binary patch"@, rest);
    if opens_file(line) {
        text::prefixes_are_taken_off(line, "diff --git "@, line.skip("diff --git "@.len() as int));
    }
}

proof fn lemma_body_is_short(section: Seq<Seq<char>>, from: int, to: int, body: BodyModel)
    requires
        from <= to,
    ensures
        body_of(section, from, to, body).old_line <= body.old_line + (to - from),
        body_of(section, from, to, body).new_line <= body.new_line + (to - from),
    decreases to - from,
{
    if from < to {
        lemma_body_is_short(section, from + 1, to, body_step(body, section[from]));
    }
}

/// The numbers of a section fit where each of its headers begins low enough for all lines of the section
/// to follow.
pub proof fn low_numbers_fit(section: Seq<Seq<char>>, i: int)
    requires
        0 <= i <= section.len(),
        forall|k: int|
            i <= k < section.len() && opens_hunk(#[trigger] section[k]) ==> (header_of(section[k])
                matches Ok(h) ==> h.old_start_line + section.len() <= usize::MAX && h.new_start_line
                + section.len() <= usize::MAX),
    ensures
        numbers_fit(section, i),
    decreases section.len() - i,
{
    if i < section.len() {
        if !opens_hunk(section[i]) {
            low_numbers_fit(section, i + 1);
        } else if let Ok(h) = header_of(section[i]) {
            lemma_next_hunk(section, i + 1);
            let end = next_hunk(section, i + 1);
            let start = BodyModel {
                old_line: h.old_start_line,
                new_line: h.new_start_line,
                lines: Seq::empty(),
            };
            lemma_body_is_short(section, i + 1, end, start);
            low_numbers_fit(section, end);
        }
    }
}

} // verus!
