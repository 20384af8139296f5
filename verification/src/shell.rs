//! Quoting text for a POSIX shell, and command lines.
use crate::text;
use vstd::prelude::*;

verus! {

/// `s` with every `'` written as `'\''`.
pub open spec fn escaped(s: Seq<char>) -> Seq<char>
    decreases s.len(),
{
    if s.len() == 0 {
        Seq::empty()
    } else if s.last() == '\'' {
        escaped(s.drop_last()) + seq!['\'', '\\', '\'', '\'']
    } else {
        escaped(s.drop_last()).push(s.last())
    }
}

/// `s` between single quotes, with each quote of its own closed, escaped and opened again.
pub open spec fn quoted(s: Seq<char>) -> Seq<char> {
    seq!['\''] + escaped(s) + seq!['\'']
}

/// One shell word that stands for `s`.
pub fn quote(s: &str) -> (r: String)
    ensures
        r@ == quoted(s@),
{
    let mut out = String::new();
    out.push('\'');
    assert(s@.take(0) == Seq::<char>::empty());
    assert(out@ == seq!['\''] + escaped(s@.take(0)));
    for c in it: s.chars()
        invariant
            it.seq() == s@,
            out@ == seq!['\''] + escaped(s@.take(it.index())),
    {
        let ghost before = s@.take(it.index());
        let ghost next = s@.take(it.index() + 1);
        assert(next.drop_last() == before);
        assert(next.last() == c);
        if c == '\'' {
            let ghost old_out = out@;
            out.push('\'');
            out.push('\\');
            out.push('\'');
            out.push('\'');
            assert(out@ == old_out + seq!['\'', '\\', '\'', '\'']);
            assert(seq!['\''] + (escaped(before) + seq!['\'', '\\', '\'', '\'']) == (seq!['\'']
                + escaped(before)) + seq!['\'', '\\', '\'', '\'']);
        } else {
            out.push(c);
            assert(seq!['\''] + escaped(before).push(c) == (seq!['\''] + escaped(before)).push(c));
        }
    }
    assert(s@.take(s@.len() as int) == s@);
    out.push('\'');
    assert((seq!['\''] + escaped(s@)).push('\'') == quoted(s@));
    out
}

/// Where a shell stands while it reads a word: inside single quotes, after a backslash, or neither.
#[derive(Clone, Copy, PartialEq, Eq, Structural)]
pub enum Reading {
    Plain,
    Quoted,
    Escaped,
}

/// What a shell makes of the characters of `s` from index `i` on when it stands in `state`: a quote
/// opens and closes, a backslash outside quotes takes the next character as it is, and inside
/// quotes every other character stands for itself. A blank or any other special character outside
/// quotes ends the word, and so does the end of the text while a quote is open: no word then.
pub open spec fn shell_word(s: Seq<char>, i: int, state: Reading) -> Option<Seq<char>>
    decreases s.len() - i,
{
    if i >= s.len() {
        if state == Reading::Plain {
            Some(Seq::empty())
        } else {
            None
        }
    } else {
        let c = s[i];
        match state {
            Reading::Plain => if c == '\'' {
                shell_word(s, i + 1, Reading::Quoted)
            } else if c == '\\' {
                shell_word(s, i + 1, Reading::Escaped)
            } else {
                None
            },
            Reading::Quoted => if c == '\'' {
                shell_word(s, i + 1, Reading::Plain)
            } else {
                with_first(c, shell_word(s, i + 1, Reading::Quoted))
            },
            Reading::Escaped => with_first(c, shell_word(s, i + 1, Reading::Plain)),
        }
    }
}

/// `c` in front of the word.
pub open spec fn with_first(c: char, word: Option<Seq<char>>) -> Option<Seq<char>> {
    match word {
        Some(rest) => Some(seq![c] + rest),
        None => None,
    }
}

proof fn lemma_quoted_part_reads_back(s: Seq<char>, k: int)
    requires
        0 <= k <= s.len(),
    ensures
        shell_word(quoted(s), 1 + escaped(s.take(k)).len() as int, Reading::Quoted) == Some(s.skip(k)),
        1 + escaped(s.take(k)).len() < quoted(s).len(),
        quoted(s).take(1 + escaped(s.take(k)).len() as int) == seq!['\''] + escaped(s.take(k)),
    decreases s.len() - k,
{
    let q = quoted(s);
    let at = 1 + escaped(s.take(k)).len() as int;
    if k == s.len() {
        assert(s.take(k) == s);
        assert(q[at] == '\'');
        assert(shell_word(q, at + 1, Reading::Plain) == Some(Seq::<char>::empty()));
        assert(s.skip(k) == Seq::<char>::empty());
    } else {
        lemma_quoted_part_reads_back(s, k + 1);
        let next = s.take(k + 1);
        assert(next.drop_last() == s.take(k));
        let after = 1 + escaped(next).len() as int;
        let head = q.take(after);
        assert(head == seq!['\''] + escaped(next));
        assert(s.skip(k) == seq![s[k]] + s.skip(k + 1));
        assert(q.take(at) == head.take(at));
        if s[k] == '\'' {
            assert(escaped(next) == escaped(s.take(k)) + seq!['\'', '\\', '\'', '\'']);
            assert(head.take(at) == seq!['\''] + escaped(s.take(k)));
            assert(q[at] == head[at] && q[at + 1] == head[at + 1] && q[at + 2] == head[at + 2]
                && q[at + 3] == head[at + 3]);
            assert(q[at] == '\'' && q[at + 1] == '\\' && q[at + 2] == '\'' && q[at + 3] == '\'');
            assert(shell_word(q, at + 3, Reading::Plain) == Some(s.skip(k + 1)));
            assert(shell_word(q, at + 2, Reading::Escaped) == Some(seq!['\''] + s.skip(k + 1)));
            assert(shell_word(q, at + 1, Reading::Plain) == Some(seq!['\''] + s.skip(k + 1)));
        } else {
            assert(escaped(next) == escaped(s.take(k)).push(s[k]));
            assert(head.take(at) == seq!['\''] + escaped(s.take(k)));
            assert(q[at] == head[at]);
        }
    }
}

/// A shell reads a quoted text back as that text, whatever characters it holds.
pub proof fn quoted_reads_back(s: Seq<char>)
    ensures
        shell_word(quoted(s), 0, Reading::Plain) == Some(s),
{
    lemma_quoted_part_reads_back(s, 0);
    assert(s.take(0) == Seq::<char>::empty());
    assert(s.skip(0) == s);
    assert(quoted(s)[0] == '\'');
}

/// A program and the arguments that it is run with.
pub struct CommandLine {
    pub program: String,
    pub args: Vec<String>,
}

/// What a [`CommandLine`] says.
#[verifier::ext_equal]
pub struct CommandModel {
    pub program: Seq<char>,
    pub args: Seq<Seq<char>>,
}

impl View for CommandLine {
    type V = CommandModel;

    open spec fn view(&self) -> CommandModel {
        CommandModel { program: self.program@, args: text::texts(self.args@) }
    }
}

/// Whether `c` has a meaning of its own to the shell, so that a word that holds it is quoted.
pub open spec fn is_special(c: char) -> bool {
    c == '\n' || c == '\'' || c == '|' || c == '&' || c == ';' || c == '<' || c == '>' || c == '('
        || c == ')' || c == '$' || c == '`' || c == '\\' || c == '"' || c == ' ' || c == '\t' || c
        == '*' || c == '?' || c == '[' || c == '#' || c == '~' || c == '=' || c == '%'
}

/// How a word is written on a command line: as it is where it is not empty and has no special
/// character, else between single quotes.
pub open spec fn written_word(s: Seq<char>) -> Seq<char> {
    if s.len() > 0 && (forall|i: int| 0 <= i < s.len() ==> !is_special(#[trigger] s[i])) {
        s
    } else {
        quoted(s)
    }
}

/// The words on one line, separated by blanks.
pub open spec fn written_words(words: Seq<Seq<char>>) -> Seq<char>
    decreases words.len(),
{
    if words.len() == 0 {
        Seq::empty()
    } else if words.len() == 1 {
        written_word(words[0])
    } else {
        written_words(words.drop_last()) + seq![' '] + written_word(words.last())
    }
}

/// `shell_words::join`: each word quoted where it needs to be, and a blank between two of them.
#[verifier::external_body]
fn join_words(words: &[String]) -> (r: String)
    ensures
        r@ == written_words(text::texts(words@)),
{
    shell_words::join(words)
}

/// The command line that runs a program with its arguments.
pub fn command_line(argv: &[String]) -> (r: String)
    ensures
        r@ == written_words(text::texts(argv@)),
{
    join_words(argv)
}

/// A word is written as it is where no character of it means something to the shell, and else quoted;
/// so is the empty word. Blanks and quotes mean something, letters and digits do not.
pub proof fn words_are_quoted_where_needed(s: Seq<char>, c: char)
    ensures
        written_word(s) == s && s.len() > 0 || written_word(s) == quoted(s),
        s.len() == 0 ==> written_word(s) == quoted(s),
        s.contains(c) && is_special(c) ==> written_word(s) == quoted(s),
        s.len() > 0 && (forall|d: char| #[trigger] s.contains(d) ==> !is_special(d)) ==> written_word(
            s,
        ) == s,
        ('a' <= c <= 'z') || ('A' <= c <= 'Z') || ('0' <= c <= '9') || c == '/' || c == '.' || c
            == '-' || c == '_' || c == ':' || c == '@' || c == '+' || c == ',' ==> !is_special(c),
        c == ' ' || c == '\t' || c == '\n' || c == '\'' || c == '"' || c == '$' || c == '`' || c
            == '\\' || c == '|' || c == '&' || c == ';' || c == '<' || c == '>' || c == '(' || c == ')'
            || c == '*' || c == '?' || c == '[' || c == '#' || c == '~' || c == '=' || c == '%'
            <==> is_special(c),
{
    if s.contains(c) && is_special(c) {
        let i = choose|i: int| 0 <= i < s.len() && s[i] == c;
        assert(is_special(s[i]));
    }
    if s.len() > 0 && (forall|d: char| #[trigger] s.contains(d) ==> !is_special(d)) {
        assert forall|i: int| 0 <= i < s.len() implies !is_special(#[trigger] s[i]) by {
            assert(s.contains(s[i]));
        }
    }
}

/// Words are written one after the other with a blank between them.
pub proof fn words_are_joined_with_blanks(words: Seq<Seq<char>>, word: Seq<char>)
    ensures
        written_words(seq![word]) == written_word(word),
        words.len() > 0 ==> written_words(words.push(word)) == written_words(words) + seq![' ']
            + written_word(word),
        written_words(Seq::empty()) == Seq::<char>::empty(),
{
    assert(words.push(word).drop_last() == words);
    assert(words.push(word).last() == word);
}

} // verus!
