//! Text as sequences of characters: searching, splitting, trimming and numbers.
use vstd::prelude::*;

verus! {

/// `String::push`: appends one character.
pub assume_specification[ String::push ](s: &mut String, c: char)
    ensures
        final(s)@ == old(s)@.push(c),
;

/// `String::push_str`: appends every character of `t`.
pub assume_specification[ String::push_str ](s: &mut String, t: &str)
    ensures
        final(s)@ == old(s)@ + t@,
;

/// `std::str::from_utf8`: the text that the bytes encode, where they are valid UTF-8.
#[verifier::external_body]
pub(crate) fn utf8_text(bytes: &[u8]) -> (r: Option<String>)
    ensures
        r is Some <==> vstd::utf8::valid_utf8(bytes@),
        r matches Some(s) ==> s@ == vstd::utf8::decode_utf8(bytes@),
{
    match std::str::from_utf8(bytes) {
        Ok(s) => Some(s.to_owned()),
        Err(_) => None,
    }
}

/// The characters of each string.
pub open spec fn texts(v: Seq<String>) -> Seq<Seq<char>> {
    Seq::new(v.len(), |i: int| v[i]@)
}

/// The characters of an optional string.
pub open spec fn opt_text(o: Option<String>) -> Option<Seq<char>> {
    match o {
        Some(s) => Some(s@),
        None => None,
    }
}

/// The characters of `s`.
pub fn chars_of(s: &str) -> (r: Vec<char>)
    ensures
        r@ == s@,
{
    let mut out: Vec<char> = Vec::new();
    for c in it: s.chars()
        invariant
            out@ == it.seq().take(it.index()),
            it.seq() == s@,
    {
        out.push(c);
    }
    out
}

/// The string of `cs[from..to]`.
pub fn string_of(cs: &[char], from: usize, to: usize) -> (r: String)
    requires
        from <= to <= cs@.len(),
    ensures
        r@ == cs@.subrange(from as int, to as int),
{
    let mut out = String::new();
    let mut i: usize = from;
    while i < to
        invariant
            from <= i <= to <= cs@.len(),
            out@ == cs@.subrange(from as int, i as int),
        decreases to - i,
    {
        out.push(cs[i]);
        i += 1;
    }
    out
}

/// Whether `p` is a prefix of `s`.
pub open spec fn is_prefix(s: Seq<char>, p: Seq<char>) -> bool {
    p.len() <= s.len() && s.take(p.len() as int) == p
}

/// Whether `s` begins with `p`.
pub fn starts_with(s: &str, p: &str) -> (r: bool)
    ensures
        r == is_prefix(s@, p@),
{
    let pc = chars_of(p);
    let mut n: usize = 0;
    for c in it: s.chars()
        invariant
            n == it.index(),
            n <= pc@.len(),
            pc@ == p@,
            it.seq() == s@,
            s@.take(n as int) == p@.take(n as int),
    {
        if n == pc.len() {
            assert(s@.take(p@.len() as int) == p@);
            return true;
        }
        if c != pc[n] {
            assert(s@[n as int] != p@[n as int]);
            assert(s@.take(p@.len() as int) == p@ ==> s@.take(p@.len() as int)[n as int] == p@[n as int]);
            return false;
        }
        assert(s@.take(n + 1) == p@.take(n + 1)) by {
            assert(s@.take(n + 1) == s@.take(n as int).push(s@[n as int]));
            assert(p@.take(n + 1) == p@.take(n as int).push(p@[n as int]));
        }
        n += 1;
    }
    if n == pc.len() {
        assert(s@.take(p@.len() as int) == p@);
        true
    } else {
        false
    }
}

/// Whether the two texts are the same.
pub fn same(a: &str, b: &str) -> (r: bool)
    ensures
        r == (a@ == b@),
{
    let bc = chars_of(b);
    let mut n: usize = 0;
    for c in it: a.chars()
        invariant
            n == it.index(),
            n <= bc@.len(),
            bc@ == b@,
            it.seq() == a@,
            a@.take(n as int) == b@.take(n as int),
    {
        if n == bc.len() {
            return false;
        }
        if c != bc[n] {
            assert(a@[n as int] != b@[n as int]);
            return false;
        }
        assert(a@.take(n + 1) == a@.take(n as int).push(a@[n as int]));
        assert(b@.take(n + 1) == b@.take(n as int).push(b@[n as int]));
        n += 1;
    }
    if n == bc.len() {
        assert(a@ == a@.take(n as int));
        assert(b@ == b@.take(n as int));
        true
    } else {
        false
    }
}

/// What follows the prefix `p` of `s`, if `s` has it.
pub open spec fn after_prefix(s: Seq<char>, p: Seq<char>) -> Option<Seq<char>> {
    if is_prefix(s, p) {
        Some(s.skip(p.len() as int))
    } else {
        None
    }
}

/// What follows the prefix `p` of `s`, if `s` has it.
pub fn strip_prefix(s: &str, p: &str) -> (r: Option<String>)
    ensures
        match after_prefix(s@, p@) {
            Some(rest) => r matches Some(t) && t@ == rest,
            None => r is None,
        },
{
    if !starts_with(s, p) {
        return None;
    }
    let sc = chars_of(s);
    let n: usize = chars_of(p).len();
    Some(string_of(&sc, n, sc.len()))
}

/// `s` without the prefix `p`, however often it is repeated.
pub open spec fn without_prefixes(s: Seq<char>, p: Seq<char>) -> Seq<char>
    decreases s.len(),
{
    if p.len() > 0 && is_prefix(s, p) {
        without_prefixes(s.skip(p.len() as int), p)
    } else {
        s
    }
}

/// `s` without the prefix `p`, however often it is repeated.
pub fn trim_start_matches(s: &str, p: &str) -> (r: String)
    requires
        p@.len() > 0,
    ensures
        r@ == without_prefixes(s@, p@),
{
    let mut out = s.to_owned();
    loop
        invariant
            p@.len() > 0,
            without_prefixes(s@, p@) == without_prefixes(out@, p@),
        decreases out@.len(),
    {
        match strip_prefix(out.as_str(), p) {
            Some(rest) => {
                out = rest;
            },
            None => {
                return out;
            },
        }
    }
}

/// `a` followed by `b`.
pub fn concat(a: &str, b: &str) -> (r: String)
    ensures
        r@ == a@ + b@,
{
    let mut out = a.to_owned();
    out.push_str(b);
    out
}

/// Appends a copy of `s`.
pub fn push_text(v: &mut Vec<String>, s: &str)
    ensures
        texts(final(v)@) == texts(old(v)@).push(s@),
{
    let ghost before = texts(v@);
    let t = s.to_owned();
    v.push(t);
    assert(texts(v@) == before.push(t@));
}

/// Copies of all the strings.
pub fn copy_texts(v: &[String]) -> (r: Vec<String>)
    ensures
        texts(r@) == texts(v@),
{
    let mut out: Vec<String> = Vec::new();
    let mut i: usize = 0;
    while i < v.len()
        invariant
            i <= v@.len(),
            texts(out@) == texts(v@).take(i as int),
        decreases v@.len() - i,
    {
        push_text(&mut out, v[i].as_str());
        assert(texts(v@).take(i + 1) == texts(v@).take(i as int).push(v@[i as int]@));
        i += 1;
    }
    assert(texts(v@).take(i as int) == texts(v@));
    out
}

/// The first index at or after `from` that holds `c`, or the length.
pub open spec fn find_char(s: Seq<char>, c: char, from: int) -> int
    decreases s.len() - from,
{
    if from >= s.len() {
        s.len() as int
    } else if s[from] == c {
        from
    } else {
        find_char(s, c, from + 1)
    }
}

/// The first index at or after `from` that holds `c`, or the length.
pub fn index_of(cs: &[char], c: char, from: usize) -> (r: usize)
    requires
        from <= cs@.len(),
    ensures
        r == find_char(cs@, c, from as int),
        from <= r <= cs@.len(),
        r < cs@.len() ==> cs@[r as int] == c,
        forall|i: int| from <= i < r ==> cs@[i] != c,
{
    let mut i: usize = from;
    while i < cs.len()
        invariant
            from <= i <= cs@.len(),
            find_char(cs@, c, from as int) == find_char(cs@, c, i as int),
            forall|j: int| from <= j < i ==> cs@[j] != c,
        decreases cs@.len() - i,
    {
        if cs[i] == c {
            return i;
        }
        i += 1;
    }
    i
}

/// A line without the carriage return that stood before its line feed.
pub open spec fn without_cr(s: Seq<char>) -> Seq<char> {
    if s.len() > 0 && s.last() == '\r' {
        s.drop_last()
    } else {
        s
    }
}

/// The lines of `s` from index `at`, each without its `\n` or `\r\n`; nothing after a final `\n`.
pub open spec fn lines_from(s: Seq<char>, at: int) -> Seq<Seq<char>>
    decreases s.len() - at,
{
    if at < 0 || at >= s.len() {
        Seq::empty()
    } else {
        let e = find_char(s, '\n', at);
        if at <= e < s.len() {
            seq![without_cr(s.subrange(at, e))] + lines_from(s, e + 1)
        } else {
            seq![s.subrange(at, s.len() as int)]
        }
    }
}

/// The lines of `s`.
pub open spec fn line_texts(s: Seq<char>) -> Seq<Seq<char>> {
    lines_from(s, 0)
}

/// The lines of `s`, without their terminators.
pub fn lines(s: &str) -> (r: Vec<String>)
    ensures
        texts(r@) == line_texts(s@),
{
    let cs = chars_of(s);
    let mut out: Vec<String> = Vec::new();
    let mut at: usize = 0;
    assert(texts(out@) + lines_from(s@, 0) == lines_from(s@, 0));
    while at < cs.len()
        invariant
            at <= cs@.len(),
            cs@ == s@,
            texts(out@) + lines_from(s@, at as int) == lines_from(s@, 0),
        decreases cs@.len() - at,
    {
        let e: usize = index_of(&cs, '\n', at);
        let ghost before = texts(out@);
        if e < cs.len() {
            let to: usize = if e > at && cs[e - 1] == '\r' {
                e - 1
            } else {
                e
            };
            let line = string_of(&cs, at, to);
            assert(line@ == without_cr(s@.subrange(at as int, e as int)));
            out.push(line);
            assert(texts(out@) == before.push(line@));
            assert(texts(out@) + lines_from(s@, e + 1) == before + (seq![line@] + lines_from(s@, e + 1)));
            at = e + 1;
        } else {
            let line = string_of(&cs, at, cs.len());
            out.push(line);
            assert(texts(out@) == before.push(line@));
            assert(lines_from(s@, s@.len() as int) == Seq::<Seq<char>>::empty());
            assert(before + seq![line@] == texts(out@) + Seq::<Seq<char>>::empty());
            at = cs.len();
        }
    }
    assert(lines_from(s@, at as int) == Seq::<Seq<char>>::empty());
    assert(texts(out@) + Seq::<Seq<char>>::empty() == texts(out@));
    out
}

/// The characters that separate words and are trimmed.
pub open spec fn is_space(c: char) -> bool {
    ||| 0x09 <= c as u32 <= 0x0d
    ||| c as u32 == 0x20
    ||| c as u32 == 0x85
    ||| c as u32 == 0xa0
    ||| c as u32 == 0x1680
    ||| 0x2000 <= c as u32 <= 0x200a
    ||| c as u32 == 0x2028
    ||| c as u32 == 0x2029
    ||| c as u32 == 0x202f
    ||| c as u32 == 0x205f
    ||| c as u32 == 0x3000
}

/// Whether `c` has the Unicode property `White_Space`.
pub fn is_whitespace(c: char) -> (r: bool)
    ensures
        r == is_space(c),
{
    let u: u32 = c as u32;
    (0x09 <= u && u <= 0x0d) || u == 0x20 || u == 0x85 || u == 0xa0 || u == 0x1680 || (0x2000 <= u
        && u <= 0x200a) || u == 0x2028 || u == 0x2029 || u == 0x202f || u == 0x205f || u == 0x3000
}

/// The first index at or after `at` whose character is white space or not as `space` says, or the
/// length.
pub open spec fn next_space(s: Seq<char>, at: int, space: bool) -> int
    decreases s.len() - at,
{
    if at >= s.len() {
        s.len() as int
    } else if is_space(s[at]) == space {
        at
    } else {
        next_space(s, at + 1, space)
    }
}

fn find_space(cs: &[char], from: usize, space: bool) -> (r: usize)
    requires
        from <= cs@.len(),
    ensures
        r == next_space(cs@, from as int, space),
        from <= r <= cs@.len(),
        r < cs@.len() ==> is_space(cs@[r as int]) == space,
        forall|i: int| from <= i < r ==> is_space(cs@[i]) != space,
{
    let mut i: usize = from;
    while i < cs.len()
        invariant
            from <= i <= cs@.len(),
            next_space(cs@, from as int, space) == next_space(cs@, i as int, space),
            forall|j: int| from <= j < i ==> is_space(cs@[j]) != space,
        decreases cs@.len() - i,
    {
        if is_whitespace(cs[i]) == space {
            return i;
        }
        i += 1;
    }
    i
}

/// The index after the last character before `end` that is no white space, or 0.
pub open spec fn last_word_end(s: Seq<char>, end: int) -> int
    decreases end,
{
    if end <= 0 {
        0
    } else if is_space(s[end - 1]) {
        last_word_end(s, end - 1)
    } else {
        end
    }
}

/// `s` without its leading and trailing white space.
pub open spec fn trimmed(s: Seq<char>) -> Seq<char> {
    let from = next_space(s, 0, false);
    let to = last_word_end(s, s.len() as int);
    if from < to {
        s.subrange(from, to)
    } else {
        Seq::empty()
    }
}

/// `s` without its leading and trailing white space.
pub fn trim(s: &str) -> (r: String)
    ensures
        r@ == trimmed(s@),
{
    let cs = chars_of(s);
    let from: usize = find_space(&cs, 0, false);
    let mut to: usize = cs.len();
    while to > 0 && is_whitespace(cs[to - 1])
        invariant
            to <= cs@.len(),
            cs@ == s@,
            last_word_end(s@, s@.len() as int) == last_word_end(s@, to as int),
        decreases to,
    {
        to -= 1;
    }
    assert(last_word_end(s@, s@.len() as int) == to);
    if from < to {
        string_of(&cs, from, to)
    } else {
        String::new()
    }
}

/// The words of `s` from index `at`: the longest runs without white space.
pub open spec fn words_from(s: Seq<char>, at: int) -> Seq<Seq<char>>
    decreases s.len() - at,
{
    if at < 0 || at >= s.len() {
        Seq::empty()
    } else {
        let b = next_space(s, at, false);
        let e = next_space(s, b, true);
        if at <= b < e <= s.len() {
            seq![s.subrange(b, e)] + words_from(s, e)
        } else {
            Seq::empty()
        }
    }
}

/// The words of `s`.
pub open spec fn word_texts(s: Seq<char>) -> Seq<Seq<char>> {
    words_from(s, 0)
}

/// The words of `s`, split at white space.
pub fn split_whitespace(s: &str) -> (r: Vec<String>)
    ensures
        texts(r@) == word_texts(s@),
{
    let cs = chars_of(s);
    let mut out: Vec<String> = Vec::new();
    let mut at: usize = 0;
    assert(texts(out@) + words_from(s@, 0) == words_from(s@, 0));
    while at < cs.len()
        invariant
            at <= cs@.len(),
            cs@ == s@,
            texts(out@) + words_from(s@, at as int) == words_from(s@, 0),
        decreases cs@.len() - at,
    {
        let b: usize = find_space(&cs, at, false);
        let e: usize = find_space(&cs, b, true);
        let ghost before = texts(out@);
        if b < e {
            let word = string_of(&cs, b, e);
            out.push(word);
            assert(texts(out@) == before.push(word@));
            assert(texts(out@) + words_from(s@, e as int) == before + (seq![word@] + words_from(
                s@,
                e as int,
            )));
            at = e;
        } else {
            assert(before + Seq::<Seq<char>>::empty() == before);
            assert(words_from(s@, s@.len() as int) == Seq::<Seq<char>>::empty());
            at = cs.len();
        }
    }
    assert(texts(out@) + Seq::<Seq<char>>::empty() == texts(out@));
    out
}

/// Whether `p` stands in `s` at index `at`.
pub open spec fn is_at(s: Seq<char>, p: Seq<char>, at: int) -> bool {
    0 <= at && at + p.len() <= s.len() && s.subrange(at, at + p.len()) == p
}

/// Whether `p` stands in `cs` at index `at`.
pub fn stands_at(cs: &[char], p: &[char], at: usize) -> (r: bool)
    requires
        at <= cs@.len(),
    ensures
        r == is_at(cs@, p@, at as int),
{
    let n: usize = cs.len();
    if p.len() > n - at {
        return false;
    }
    let mut i: usize = 0;
    while i < p.len()
        invariant
            i <= p@.len(),
            at + p@.len() <= cs@.len() == n,
            forall|j: int| 0 <= j < i ==> cs@[at + j] == p@[j],
        decreases p@.len() - i,
    {
        if cs[at + i] != p[i] {
            assert(cs@.subrange(at as int, at + p@.len())[i as int] != p@[i as int]);
            return false;
        }
        i += 1;
    }
    assert(cs@.subrange(at as int, at + p@.len()) == p@);
    true
}

/// The least index at or after `from` at which `p` stands in `s`.
pub open spec fn first_at(s: Seq<char>, p: Seq<char>, from: int) -> Option<int>
    decreases s.len() + 1 - from,
{
    if from < 0 || from > s.len() {
        None
    } else if is_at(s, p, from) {
        Some(from)
    } else {
        first_at(s, p, from + 1)
    }
}

/// The least index at or after `from` at which `p` stands in `cs`.
pub fn find(cs: &[char], p: &[char], from: usize) -> (r: Option<usize>)
    requires
        from <= cs@.len(),
    ensures
        match first_at(cs@, p@, from as int) {
            Some(i) => r matches Some(k) && k == i && is_at(cs@, p@, i),
            None => r is None,
        },
{
    let mut i: usize = from;
    loop
        invariant
            from <= i <= cs@.len(),
            first_at(cs@, p@, from as int) == first_at(cs@, p@, i as int),
        decreases cs@.len() - i,
    {
        if stands_at(cs, p, i) {
            return Some(i);
        }
        if i == cs.len() {
            assert(first_at(cs@, p@, i + 1) is None);
            return None;
        }
        i += 1;
    }
}

/// The greatest index at or before `from` at which `p` stands in `s`.
pub open spec fn last_at(s: Seq<char>, p: Seq<char>, from: int) -> Option<int>
    decreases from + 1,
{
    if from < 0 {
        None
    } else if is_at(s, p, from) {
        Some(from)
    } else {
        last_at(s, p, from - 1)
    }
}

/// The greatest index at which `p` stands in `cs`.
pub fn rfind(cs: &[char], p: &[char]) -> (r: Option<usize>)
    ensures
        match last_at(cs@, p@, cs@.len() as int) {
            Some(i) => r matches Some(k) && k == i && is_at(cs@, p@, i),
            None => r is None,
        },
{
    let mut i: usize = cs.len();
    loop
        invariant
            i <= cs@.len(),
            last_at(cs@, p@, cs@.len() as int) == last_at(cs@, p@, i as int),
        decreases i,
    {
        if stands_at(cs, p, i) {
            return Some(i);
        }
        if i == 0 {
            assert(last_at(cs@, p@, -1) is None);
            return None;
        }
        i -= 1;
    }
}

/// What stands before and after the first `p` in `s`.
pub open spec fn halves(s: Seq<char>, p: Seq<char>) -> Option<(Seq<char>, Seq<char>)> {
    match first_at(s, p, 0) {
        Some(i) => Some((s.take(i), s.skip(i + p.len()))),
        None => None,
    }
}

/// What stands before and after the first `p` in `s`.
pub fn split_once(s: &str, p: &str) -> (r: Option<(String, String)>)
    ensures
        match halves(s@, p@) {
            Some(parts) => r matches Some((a, b)) && a@ == parts.0 && b@ == parts.1,
            None => r is None,
        },
{
    let cs = chars_of(s);
    let ps = chars_of(p);
    let n: usize = cs.len();
    match find(&cs, &ps, 0) {
        Some(i) => {
            let a = string_of(&cs, 0, i);
            let b = string_of(&cs, i + ps.len(), n);
            assert(a@ == s@.take(i as int));
            assert(b@ == s@.skip(i + p@.len()));
            Some((a, b))
        },
        None => None,
    }
}

/// What stands after the last `p` in `s`, all of it where `p` does not occur.
pub open spec fn after_last(s: Seq<char>, p: Seq<char>) -> Seq<char> {
    match last_at(s, p, s.len() as int) {
        Some(i) => s.skip(i + p.len()),
        None => s,
    }
}

/// What stands after the last `p` in `s`, all of it where `p` does not occur.
pub fn last_piece(s: &str, p: &str) -> (r: String)
    ensures
        r@ == after_last(s@, p@),
{
    let cs = chars_of(s);
    let ps = chars_of(p);
    let n: usize = cs.len();
    match rfind(&cs, &ps) {
        Some(i) => {
            let tail = string_of(&cs, i + ps.len(), n);
            assert(tail@ == s@.skip(i + p@.len()));
            tail
        },
        None => s.to_owned(),
    }
}

/// The pieces of `s` from index `at`, separated by the character `c`.
pub open spec fn pieces_from(s: Seq<char>, c: char, at: int) -> Seq<Seq<char>>
    decreases s.len() - at,
{
    let e = find_char(s, c, at);
    if 0 <= at <= e < s.len() {
        seq![s.subrange(at, e)] + pieces_from(s, c, e + 1)
    } else {
        seq![s.subrange(at, s.len() as int)]
    }
}

/// The pieces of `s` between occurrences of the character `c`.
pub open spec fn piece_texts(s: Seq<char>, c: char) -> Seq<Seq<char>> {
    pieces_from(s, c, 0)
}

/// The pieces of `s` between occurrences of the character `c`.
pub fn split(s: &str, c: char) -> (r: Vec<String>)
    ensures
        texts(r@) == piece_texts(s@, c),
{
    let cs = chars_of(s);
    let mut out: Vec<String> = Vec::new();
    let mut at: usize = 0;
    assert(texts(out@) + pieces_from(s@, c, 0) == pieces_from(s@, c, 0));
    loop
        invariant
            at <= cs@.len(),
            cs@ == s@,
            texts(out@) + pieces_from(s@, c, at as int) == pieces_from(s@, c, 0),
        decreases cs@.len() - at,
    {
        let e: usize = index_of(&cs, c, at);
        let ghost before = texts(out@);
        let piece = string_of(&cs, at, e);
        out.push(piece);
        assert(texts(out@) == before.push(piece@));
        if e == cs.len() {
            assert(before + seq![piece@] == texts(out@));
            return out;
        }
        assert(texts(out@) + pieces_from(s@, c, e + 1) == before + (seq![piece@] + pieces_from(
            s@,
            c,
            e + 1,
        )));
        at = e + 1;
    }
}

/// The decimal digit `d`.
pub open spec fn digit(d: nat) -> char {
    (48 + d) as char
}

/// `n` in decimal.
pub open spec fn decimal(n: nat) -> Seq<char>
    decreases n,
{
    if n < 10 {
        seq![digit(n)]
    } else {
        decimal(n / 10).push(digit(n % 10))
    }
}

/// Appends `n` in decimal.
pub fn push_decimal(out: &mut String, n: u64)
    ensures
        final(out)@ == old(out)@ + decimal(n as nat),
    decreases n,
{
    let d: u8 = (n % 10) as u8;
    if n >= 10 {
        push_decimal(out, n / 10);
    }
    let c: char = (48 + d) as char;
    let ghost before = out@;
    out.push(c);
    proof {
        assert(c == digit((n % 10) as nat));
        if n >= 10 {
            assert(old(out)@ + decimal((n / 10) as nat).push(c) == before.push(c));
        } else {
            assert(old(out)@ + seq![c] == before.push(c));
        }
    }
}

/// `n` in decimal.
pub fn decimal_text(n: u64) -> (r: String)
    ensures
        r@ == decimal(n as nat),
{
    let mut out = String::new();
    push_decimal(&mut out, n);
    assert(Seq::<char>::empty() + decimal(n as nat) == decimal(n as nat));
    out
}

/// Whether `c` is one of `0` to `9`.
pub open spec fn is_digit(c: char) -> bool {
    '0' <= c <= '9'
}

/// The number that the digits of `s` stand for.
pub open spec fn digits_value(s: Seq<char>) -> nat
    decreases s.len(),
{
    if s.len() == 0 {
        0
    } else {
        digits_value(s.drop_last()) * 10 + (s.last() as nat - 48) as nat
    }
}

/// `s` without the `+` that may stand in front of a number.
pub open spec fn without_sign(s: Seq<char>) -> Seq<char> {
    if s.len() > 0 && s[0] == '+' {
        s.skip(1)
    } else {
        s
    }
}

/// The natural number that `s` spells: digits, with a `+` allowed in front of them.
pub open spec fn number(s: Seq<char>) -> Option<nat> {
    let d = without_sign(s);
    if d.len() > 0 && (forall|i: int| 0 <= i < d.len() ==> is_digit(#[trigger] d[i])) {
        Some(digits_value(d))
    } else {
        None
    }
}

/// The number that `s` spells, where it is at most `max`.
pub open spec fn bounded_number(s: Seq<char>, max: nat) -> Option<nat> {
    match number(s) {
        Some(n) => if n <= max {
            Some(n)
        } else {
            None
        },
        None => None,
    }
}

proof fn lemma_digits_value_grows(s: Seq<char>, i: int)
    requires
        0 <= i <= s.len(),
    ensures
        digits_value(s.take(i)) <= digits_value(s),
    decreases s.len() - i,
{
    if i < s.len() {
        lemma_digits_value_grows(s, i + 1);
        assert(s.take(i + 1).drop_last() == s.take(i));
        assert(digits_value(s.take(i + 1)) >= digits_value(s.take(i)));
    } else {
        assert(s.take(i) == s);
    }
}

/// The number that `s` spells, where it is at most `max`.
pub fn parse_number(s: &str, max: u64) -> (r: Option<u64>)
    ensures
        match bounded_number(s@, max as nat) {
            Some(n) => r matches Some(k) && k == n,
            None => r is None,
        },
{
    let cs = chars_of(s);
    let from: usize = if cs.len() > 0 && cs[0] == '+' {
        1
    } else {
        0
    };
    let ghost d = without_sign(s@);
    if from == cs.len() {
        return None;
    }
    let mut value: u64 = 0;
    let mut i: usize = from;
    while i < cs.len()
        invariant
            from <= i <= cs@.len(),
            cs@ == s@,
            d == without_sign(s@),
            d == s@.skip(from as int),
            value == digits_value(d.take(i - from)),
            value <= max,
            forall|j: int| 0 <= j < i - from ==> is_digit(#[trigger] d[j]),
        decreases cs@.len() - i,
    {
        let c = cs[i];
        assert(d[i - from] == c);
        if !('0' <= c && c <= '9') {
            return None;
        }
        let k: u64 = (c as u32 - 48) as u64;
        assert(d.take(i - from + 1).drop_last() == d.take(i - from));
        assert(digits_value(d.take(i - from + 1)) == value * 10 + k);
        proof {
            lemma_digits_value_grows(d, i - from + 1);
        }
        if value > (u64::MAX - k) / 10 {
            return None;
        }
        let next: u64 = value * 10 + k;
        if next > max {
            return None;
        }
        value = next;
        i += 1;
    }
    assert(d.take(i - from) == d);
    Some(value)
}

/// Printing a number and reading the digits gives the number back.
pub proof fn decimal_reads_back(n: nat)
    ensures
        number(decimal(n)) == Some(n),
        digits_value(decimal(n)) == n,
        decimal(n).len() > 0,
        forall|i: int| 0 <= i < decimal(n).len() ==> is_digit(#[trigger] decimal(n)[i]),
    decreases n,
{
    assert(digit(n % 10) as nat == 48 + n % 10);
    if n >= 10 {
        decimal_reads_back(n / 10);
        assert(decimal(n).drop_last() == decimal(n / 10));
    } else {
        assert(decimal(n).drop_last() == Seq::<char>::empty());
        assert(digits_value(Seq::<char>::empty()) == 0);
    }
    assert forall|i: int| 0 <= i < decimal(n).len() implies is_digit(#[trigger] decimal(n)[i]) by {
        if n >= 10 && i < decimal(n / 10).len() {
            assert(is_digit(decimal(n / 10)[i]));
        }
    }
    assert(is_digit(decimal(n)[0]));
}

/// A text begins with another just where it is that other with something behind it, and that is what
/// is left of it.
pub proof fn prefixes_are_taken_off(s: Seq<char>, p: Seq<char>, rest: Seq<char>)
    ensures
        after_prefix(p + rest, p) == Some(rest),
        is_prefix(p + rest, p),
        after_prefix(s, p) == Some(rest) <==> s == p + rest,
        is_prefix(s, p) <==> after_prefix(s, p) is Some,
        p.len() > 0 ==> without_prefixes(p + rest, p) == without_prefixes(rest, p),
        p.len() > 0 && !is_prefix(s, p) ==> without_prefixes(s, p) == s,
{
    assert((p + rest).take(p.len() as int) == p);
    assert((p + rest).skip(p.len() as int) == rest);
    if is_prefix(s, p) {
        assert(s == p + s.skip(p.len() as int));
    }
}

proof fn lemma_find_char(s: Seq<char>, c: char, from: int)
    requires
        0 <= from <= s.len(),
    ensures
        from <= find_char(s, c, from) <= s.len(),
        find_char(s, c, from) < s.len() ==> s[find_char(s, c, from)] == c,
        forall|i: int| from <= i < find_char(s, c, from) ==> s[i] != c,
    decreases s.len() - from,
{
    if from < s.len() && s[from] != c {
        lemma_find_char(s, c, from + 1);
    }
}

proof fn lemma_find_char_shift(s: Seq<char>, c: char, from: int, at: int)
    requires
        0 <= from,
        0 <= at,
        from + at <= s.len(),
    ensures
        find_char(s, c, from + at) == from + find_char(s.skip(from), c, at),
    decreases s.len() - from - at,
{
    if from + at < s.len() && s[from + at] != c {
        lemma_find_char_shift(s, c, from, at + 1);
    }
}

proof fn lemma_lines_shift(s: Seq<char>, from: int, at: int)
    requires
        0 <= from,
        0 <= at,
        from + at <= s.len(),
    ensures
        lines_from(s, from + at) == lines_from(s.skip(from), at),
    decreases s.len() - from - at,
{
    if from + at < s.len() {
        let t = s.skip(from);
        lemma_find_char_shift(s, '\n', from, at);
        lemma_find_char(t, '\n', at);
        let e = find_char(t, '\n', at);
        if e < t.len() {
            assert(s.subrange(from + at, from + e) == t.subrange(at, e));
            lemma_lines_shift(s, from, e + 1);
        } else {
            assert(s.subrange(from + at, s.len() as int) == t.subrange(at, t.len() as int));
        }
    }
}

/// A line reaches to the next line feed, and a carriage return right before that is not part of it.
/// What stands behind the last line feed is a line too, as it is, unless it is empty.
pub proof fn lines_end_at_line_feeds(line: Seq<char>, rest: Seq<char>)
    requires
        !line.contains('\n'),
    ensures
        line_texts(line + seq!['\n'] + rest) == seq![
            if line.len() > 0 && line.last() == '\r' {
                line.drop_last()
            } else {
                line
            },
        ] + line_texts(rest),
        line.len() > 0 ==> line_texts(line) == seq![line],
        line_texts(Seq::empty()) == Seq::<Seq<char>>::empty(),
{
    let s = line + seq!['\n'] + rest;
    let n = line.len() as int;
    lemma_find_char(s, '\n', 0);
    let e = find_char(s, '\n', 0);
    assert(s[n] == '\n');
    assert(e == n) by {
        if e < n {
            assert(line[e] == '\n');
            assert(line.contains('\n'));
        }
    }
    assert(s.subrange(0, n) == line);
    assert(s.skip(n + 1) == rest);
    lemma_lines_shift(s, n + 1, 0);
    lemma_find_char(line, '\n', 0);
    let f = find_char(line, '\n', 0);
    assert(f == n) by {
        if f < n {
            assert(line.contains('\n'));
        }
    }
    assert(line.subrange(0, n) == line);
}

proof fn lemma_pieces_shift(s: Seq<char>, c: char, from: int, at: int)
    requires
        0 <= from,
        0 <= at,
        from + at <= s.len(),
    ensures
        pieces_from(s, c, from + at) == pieces_from(s.skip(from), c, at),
    decreases s.len() - from - at,
{
    let t = s.skip(from);
    lemma_find_char_shift(s, c, from, at);
    lemma_find_char(t, c, at);
    let e = find_char(t, c, at);
    if e < t.len() {
        assert(s.subrange(from + at, from + e) == t.subrange(at, e));
        lemma_pieces_shift(s, c, from, e + 1);
    } else {
        assert(s.subrange(from + at, s.len() as int) == t.subrange(at, t.len() as int));
    }
}

/// The pieces of a text are what stands between the separators, empty ones too.
pub proof fn pieces_end_at_separators(piece: Seq<char>, rest: Seq<char>, c: char)
    requires
        !piece.contains(c),
    ensures
        piece_texts(piece + seq![c] + rest, c) == seq![piece] + piece_texts(rest, c),
        piece_texts(piece, c) == seq![piece],
{
    let s = piece + seq![c] + rest;
    let n = piece.len() as int;
    lemma_find_char(s, c, 0);
    let e = find_char(s, c, 0);
    assert(s[n] == c);
    assert(e == n) by {
        if e < n {
            assert(piece[e] == c);
            assert(piece.contains(c));
        }
    }
    assert(s.subrange(0, n) == piece);
    assert(s.skip(n + 1) == rest);
    lemma_pieces_shift(s, c, n + 1, 0);
    lemma_find_char(piece, c, 0);
    let f = find_char(piece, c, 0);
    assert(f == n) by {
        if f < n {
            assert(piece.contains(c));
        }
    }
    assert(piece.subrange(0, n) == piece);
}

proof fn lemma_next_space(s: Seq<char>, at: int, space: bool)
    requires
        0 <= at <= s.len(),
    ensures
        at <= next_space(s, at, space) <= s.len(),
        next_space(s, at, space) < s.len() ==> is_space(s[next_space(s, at, space)]) == space,
        forall|i: int| at <= i < next_space(s, at, space) ==> is_space(#[trigger] s[i]) != space,
    decreases s.len() - at,
{
    if at < s.len() && is_space(s[at]) != space {
        lemma_next_space(s, at + 1, space);
    }
}

proof fn lemma_next_space_shift(s: Seq<char>, from: int, at: int, space: bool)
    requires
        0 <= from,
        0 <= at,
        from + at <= s.len(),
    ensures
        next_space(s, from + at, space) == from + next_space(s.skip(from), at, space),
    decreases s.len() - from - at,
{
    if from + at < s.len() && is_space(s[from + at]) != space {
        lemma_next_space_shift(s, from, at + 1, space);
    }
}

proof fn lemma_words_shift(s: Seq<char>, from: int, at: int)
    requires
        0 <= from,
        0 <= at,
        from + at <= s.len(),
    ensures
        words_from(s, from + at) == words_from(s.skip(from), at),
    decreases s.len() - from - at,
{
    if from + at < s.len() {
        let t = s.skip(from);
        lemma_next_space(t, at, false);
        lemma_next_space_shift(s, from, at, false);
        let b = next_space(t, at, false);
        lemma_next_space(t, b, true);
        lemma_next_space_shift(s, from, b, true);
        let e = next_space(t, b, true);
        if b < e {
            assert(s.subrange(from + b, from + e) == t.subrange(b, e));
            lemma_words_shift(s, from, e);
        }
    }
}

/// Whether every character is white space, or none is.
pub open spec fn all_space(s: Seq<char>, space: bool) -> bool {
    forall|i: int| 0 <= i < s.len() ==> is_space(#[trigger] s[i]) == space
}

/// The words of a text are what stands between white space, however much of that there is.
pub proof fn words_stand_between_spaces(gap: Seq<char>, word: Seq<char>, rest: Seq<char>)
    requires
        all_space(gap, true),
        all_space(word, false),
        word.len() > 0,
        rest.len() > 0 ==> is_space(rest[0]),
    ensures
        word_texts(gap + word + rest) == seq![word] + word_texts(rest),
        word_texts(gap) == Seq::<Seq<char>>::empty(),
{
    let s = gap + word + rest;
    let b = gap.len() as int;
    let e = b + word.len();
    lemma_next_space(s, 0, false);
    let x = next_space(s, 0, false);
    assert(s[b] == word[0]);
    assert(x == b) by {
        if x < b {
            assert(s[x] == gap[x]);
        }
    }
    lemma_next_space(s, b, true);
    let y = next_space(s, b, true);
    assert(y == e) by {
        if y < e {
            assert(s[y] == word[y - b]);
        } else if y > e {
            assert(s[e] == rest[0]);
        }
    }
    assert(s.subrange(b, e) == word);
    assert(s.skip(e) == rest);
    lemma_words_shift(s, e, 0);
    lemma_next_space(gap, 0, false);
    let z = next_space(gap, 0, false);
    assert(z == b) by {
        if z < b {
            assert(is_space(gap[z]));
        }
    }
    lemma_next_space(gap, z, true);
}

proof fn lemma_last_word_end(s: Seq<char>, end: int)
    requires
        0 <= end <= s.len(),
    ensures
        0 <= last_word_end(s, end) <= end,
        last_word_end(s, end) > 0 ==> !is_space(s[last_word_end(s, end) - 1]),
        forall|i: int| last_word_end(s, end) <= i < end ==> is_space(#[trigger] s[i]),
    decreases end,
{
    if end > 0 && is_space(s[end - 1]) {
        lemma_last_word_end(s, end - 1);
    }
}

/// White space before and behind a text is trimmed off, and nothing else.
pub proof fn only_outer_space_is_trimmed(before: Seq<char>, inner: Seq<char>, behind: Seq<char>)
    requires
        all_space(before, true),
        all_space(behind, true),
        inner.len() > 0 ==> !is_space(inner[0]) && !is_space(inner.last()),
    ensures
        trimmed(before + inner + behind) == inner,
{
    let s = before + inner + behind;
    let n = before.len() as int;
    let m = n + inner.len();
    lemma_next_space(s, 0, false);
    let from = next_space(s, 0, false);
    lemma_last_word_end(s, s.len() as int);
    let to = last_word_end(s, s.len() as int);
    if inner.len() > 0 {
        assert(s[n] == inner[0] && s[m - 1] == inner.last());
        assert(from == n) by {
            if from < n {
                assert(s[from] == before[from]);
            }
        }
        assert(to == m) by {
            if to > m {
                assert(s[to - 1] == behind[to - 1 - m]);
            }
        }
        assert(s.subrange(n, m) == inner);
    } else {
        assert forall|i: int| 0 <= i < s.len() implies is_space(#[trigger] s[i]) by {
            if i < n {
                assert(s[i] == before[i]);
            } else {
                assert(s[i] == behind[i - n]);
            }
        }
        assert(from == s.len()) by {
            if from < s.len() {
                assert(is_space(s[from]));
            }
        }
        assert(inner =~= Seq::empty());
    }
}

proof fn lemma_first_at(s: Seq<char>, p: Seq<char>, from: int)
    requires
        0 <= from,
    ensures
        match first_at(s, p, from) {
            Some(i) => from <= i && is_at(s, p, i) && forall|j: int| from <= j < i ==> !is_at(s, p, j),
            None => forall|j: int| from <= j ==> !is_at(s, p, j),
        },
    decreases s.len() + 1 - from,
{
    if from <= s.len() && !is_at(s, p, from) {
        lemma_first_at(s, p, from + 1);
    }
}

proof fn lemma_last_at(s: Seq<char>, p: Seq<char>, from: int)
    ensures
        match last_at(s, p, from) {
            Some(i) => i <= from && is_at(s, p, i) && forall|j: int| i < j <= from ==> !is_at(s, p, j),
            None => forall|j: int| j <= from ==> !is_at(s, p, j),
        },
    decreases from + 1,
{
    if from >= 0 && !is_at(s, p, from) {
        lemma_last_at(s, p, from - 1);
    }
}

/// Whether `p` stands in the text right behind its first `n` characters.
pub open spec fn follows(s: Seq<char>, p: Seq<char>, n: int) -> bool {
    exists|rest: Seq<char>| 0 <= n <= s.len() && s == #[trigger] (s.take(n) + p + rest)
}

proof fn lemma_follows(s: Seq<char>, p: Seq<char>, n: int)
    ensures
        follows(s, p, n) <==> is_at(s, p, n),
{
    if is_at(s, p, n) {
        let rest = s.skip(n + p.len());
        assert(s == s.take(n) + p + rest);
    }
    if follows(s, p, n) {
        let rest = choose|rest: Seq<char>| s == #[trigger] (s.take(n) + p + rest);
        assert((s.take(n) + p + rest).subrange(n, n + p.len()) == p);
    }
}

/// A text is parted where the separator stands for the first time: the two halves and the separator
/// between them are the text. It is not parted where the separator does not stand in it.
pub proof fn texts_are_parted_at_the_first(s: Seq<char>, p: Seq<char>)
    ensures
        match halves(s, p) {
            Some((a, b)) => s == a + p + b && forall|n: int|
                0 <= n < a.len() ==> !#[trigger] follows(s, p, n),
            None => forall|n: int| !#[trigger] follows(s, p, n),
        },
{
    lemma_first_at(s, p, 0);
    assert forall|n: int| #[trigger] follows(s, p, n) <==> is_at(s, p, n) by {
        lemma_follows(s, p, n);
    }
    if let Some(i) = first_at(s, p, 0) {
        assert(s == s.take(i) + p + s.skip(i + p.len()));
    }
}

/// The last piece of a text is what stands behind the separator where that stands for the last time,
/// and the whole text where it does not stand in it.
pub proof fn the_last_piece_is_behind_the_last(s: Seq<char>, p: Seq<char>)
    ensures
        ({
            let last = after_last(s, p);
            ||| last == s && forall|n: int| !#[trigger] follows(s, p, n)
            ||| {
                let at = s.len() - last.len() - p.len();
                &&& follows(s, p, at) && s == s.take(at) + p + last
                &&& forall|n: int| n > at ==> !#[trigger] follows(s, p, n)
            }
        }),
{
    lemma_last_at(s, p, s.len() as int);
    assert forall|n: int| #[trigger] follows(s, p, n) <==> is_at(s, p, n) by {
        lemma_follows(s, p, n);
    }
    if let Some(i) = last_at(s, p, s.len() as int) {
        assert(s == s.take(i) + p + s.skip(i + p.len()));
        assert(s.len() - after_last(s, p).len() - p.len() == i);
    }
}

/// The white space of ASCII: the blank, and the characters from tab to carriage return.
pub proof fn ascii_spaces(c: char)
    requires
        c as u32 <= 0x7f,
    ensures
        is_space(c) <==> c == ' ' || c == '\t' || c == '\n' || c == '\r' || c == '\u{b}' || c
            == '\u{c}',
{
}

/// A number is read digit by digit, each behind ten times what stands before it. Leading zeros and one
/// plus sign do not count; anything else is no number.
pub proof fn numbers_are_read_digit_by_digit(s: Seq<char>, c: char)
    requires
        s.len() > 0,
    ensures
        is_digit(c) && number(s) is Some ==> number(s.push(c)) == Some(
            (number(s)->0 * 10 + (c as nat - 48)) as nat,
        ),
        !is_digit(c) ==> number(s.push(c)) is None,
        is_digit(c) ==> number(seq![c]) == Some((c as nat - 48) as nat),
        s[0] != '+' ==> number(seq!['+'] + s) == number(s),
        s[0] == '+' ==> number(seq!['+'] + s) is None,
        number(Seq::empty()) is None,
        number(seq!['+']) is None,
{
    let d = without_sign(s);
    let t = s.push(c);
    assert(without_sign(t) == d.push(c));
    assert(d.push(c).drop_last() == d);
    assert(d.push(c).last() == c);
    assert(d.push(c)[d.len() as int] == c);
    if number(s) is Some {
        assert forall|i: int| 0 <= i < d.push(c).len() && is_digit(c) implies is_digit(
            #[trigger] d.push(c)[i],
        ) by {
            if i < d.len() {
                assert(d.push(c)[i] == d[i]);
            }
        }
    }
    assert(seq![c].drop_last() == Seq::<char>::empty());
    assert(seq![c].last() == c);
    reveal_with_fuel(digits_value, 2);
    if is_digit(c) {
        assert(without_sign(seq![c]) == seq![c]);
    }
    let plus = seq!['+'] + s;
    assert(plus.skip(1) == s);
    assert(without_sign(plus) == s);
    if s[0] == '+' {
        assert(!is_digit(s[0]));
    }
    assert(seq!['+'].skip(1) == Seq::<char>::empty());
}

proof fn lemma_pieces_back(a: Seq<char>, b: Seq<char>, c: char)
    requires
        !b.contains(c),
    ensures
        piece_texts(a + seq![c] + b, c) == piece_texts(a, c).push(b),
    decreases a.len(),
{
    lemma_find_char(a, c, 0);
    let e = find_char(a, c, 0);
    if e < a.len() {
        let x = a.take(e);
        let y = a.skip(e + 1);
        assert(a == x + seq![c] + y);
        assert(!x.contains(c)) by {
            if x.contains(c) {
                let i = choose|i: int| 0 <= i < x.len() && x[i] == c;
                assert(a[i] == c);
            }
        }
        pieces_end_at_separators(x, y, c);
        pieces_end_at_separators(x, y + seq![c] + b, c);
        assert(a + seq![c] + b == x + seq![c] + (y + seq![c] + b));
        lemma_pieces_back(y, b, c);
        assert(seq![x] + piece_texts(y, c).push(b) == (seq![x] + piece_texts(y, c)).push(b));
    } else {
        assert(!a.contains(c));
        pieces_end_at_separators(a, b, c);
        pieces_end_at_separators(b, Seq::empty(), c);
        assert(seq![a] + seq![b] == seq![a].push(b));
    }
}

/// What stands behind the last separator of a text is its last piece.
pub proof fn the_last_piece_comes_last(a: Seq<char>, b: Seq<char>, c: char)
    requires
        !b.contains(c),
    ensures
        piece_texts(a + seq![c] + b, c) == piece_texts(a, c).push(b),
{
    lemma_pieces_back(a, b, c);
}

/// What a list says, it says item by item: each stands in its place, and none is added or left out.
pub proof fn items_keep_their_places(v: Seq<String>, i: int)
    ensures
        texts(v).len() == v.len(),
        0 <= i < v.len() ==> texts(v)[i] == v[i]@,
{
}

/// A number is written without zeros before it.
pub proof fn decimals_have_no_leading_zeros(n: nat)
    ensures
        n > 0 ==> decimal(n)[0] != '0',
        n < 10 ==> decimal(n).len() == 1,
        decimal(n).len() > 0,
    decreases n,
{
    if n >= 10 {
        decimals_have_no_leading_zeros(n / 10);
    }
}

/// A number counts up to and with the greatest that is allowed.
pub proof fn numbers_are_bounded(s: Seq<char>, max: nat, n: nat)
    ensures
        bounded_number(s, max) == Some(n) <==> number(s) == Some(n) && n <= max,
{
}

/// The white space beyond ASCII: the next line, the blanks that keep words together, the blanks of
/// typesetting, and the separators of lines and paragraphs.
pub proof fn other_spaces(c: char)
    requires
        c as u32 > 0x7f,
    ensures
        is_space(c) <==> c == '\u{85}' || c == '\u{a0}' || c == '\u{1680}' || ('\u{2000}' <= c
            <= '\u{200a}') || c == '\u{2028}' || c == '\u{2029}' || c == '\u{202f}' || c
            == '\u{205f}' || c == '\u{3000}',
{
}

} // verus!
