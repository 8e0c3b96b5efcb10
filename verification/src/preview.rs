//! The part of a document's source that its preview is rendered from.

use vstd::prelude::*;
use vstd::string::StringExecFns;

use crate::text::chars_of;

verus! {

/// Where the line that starts at `pos` ends: the position of the first line
/// feed at or after `pos`, or the end of the text.
pub open spec fn line_end(s: Seq<char>, pos: int) -> int
    decreases s.len() - pos,
{
    if pos < 0 || pos >= s.len() || s[pos] == '\n' {
        pos
    } else {
        line_end(s, pos + 1)
    }
}

/// The text of the line that occupies `s[pos..end]`. A line that a line feed
/// ends loses a carriage return right before it.
pub open spec fn line_text(s: Seq<char>, pos: int, end: int) -> Seq<char> {
    if end < s.len() && pos < end && s[end - 1] == '\r' {
        s.subrange(pos, end - 1)
    } else {
        s.subrange(pos, end)
    }
}

/// The lines of `s` from position `pos` on. A line runs up to a line feed or
/// to the end of the text; nothing follows the last line feed unless text
/// does.
pub open spec fn lines_from(s: Seq<char>, pos: int) -> Seq<Seq<char>>
    decreases s.len() - pos,
    via lines_from_decreases
{
    if pos < 0 || pos >= s.len() {
        Seq::empty()
    } else {
        let end = line_end(s, pos);
        if end < s.len() {
            seq![line_text(s, pos, end)] + lines_from(s, end + 1)
        } else {
            seq![line_text(s, pos, end)]
        }
    }
}

#[via_fn]
proof fn lines_from_decreases(s: Seq<char>, pos: int) {
    if 0 <= pos < s.len() {
        lemma_line_end(s, pos);
    }
}

/// The lines of `s`.
pub open spec fn lines(s: Seq<char>) -> Seq<Seq<char>> {
    lines_from(s, 0)
}

/// The parts, with the separator between each two neighbours.
pub open spec fn joined(parts: Seq<Seq<char>>, separator: Seq<char>) -> Seq<char>
    decreases parts.len(),
{
    if parts.len() == 0 {
        Seq::empty()
    } else if parts.len() == 1 {
        parts[0]
    } else {
        joined(parts.drop_last(), separator) + separator + parts.last()
    }
}

/// The first `limit` lines of `s`, or all of them where there are fewer.
pub open spec fn first_lines(s: Seq<char>, limit: int) -> Seq<Seq<char>> {
    if 0 <= limit < lines(s).len() {
        lines(s).take(limit)
    } else {
        lines(s)
    }
}

/// The source of a preview: the whole text for a limit of -1, its first
/// `limit` lines joined by line feeds for a positive limit, and nothing for
/// any other limit.
pub open spec fn preview_text(s: Seq<char>, limit: int) -> Seq<char> {
    if limit == -1 {
        s
    } else if limit > 0 {
        joined(first_lines(s, limit), seq!['\n'])
    } else {
        Seq::empty()
    }
}

/// A line ends within the text, at a line feed or at the end of the text, and
/// holds no line feed.
pub proof fn lemma_line_end(s: Seq<char>, pos: int)
    requires
        0 <= pos <= s.len(),
    ensures
        pos <= line_end(s, pos) <= s.len(),
        line_end(s, pos) < s.len() ==> s[line_end(s, pos)] == '\n',
        forall|i: int| pos <= i < line_end(s, pos) ==> s[i] != '\n',
    decreases s.len() - pos,
{
    if pos < s.len() && s[pos] != '\n' {
        lemma_line_end(s, pos + 1);
    }
}

/// A position at or after `pos` that no line feed precedes, and that is a
/// line feed or the end of the text, is where the line ends.
pub proof fn lemma_line_end_is(s: Seq<char>, pos: int, end: int)
    requires
        0 <= pos <= end <= s.len(),
        forall|i: int| pos <= i < end ==> s[i] != '\n',
        end < s.len() ==> s[end] == '\n',
    ensures
        line_end(s, pos) == end,
    decreases end - pos,
{
    if pos < end {
        lemma_line_end_is(s, pos + 1, end);
    }
}

/// Whether a preview with this line limit is rendered from the document's
/// source at all.
pub fn needs_source(limit: Option<i64>) -> (r: bool)
    ensures
        r == (limit matches Some(n) && (n == -1 || n > 0)),
{
    match limit {
        Some(n) => n == -1 || n > 0,
        None => false,
    }
}

/// The source of a document's preview: all of `text` for a limit of -1, its
/// first `limit` lines for a positive limit, nothing otherwise.
pub fn preview_source(text: &str, limit: i64) -> (source: String)
    ensures
        source@ == preview_text(text@, limit as int),
{
    if limit == -1 {
        return String::from_str(text);
    }
    let mut source = String::new();
    if limit <= 0 {
        return source;
    }
    let chars = chars_of(text);
    let n = chars.len();
    let mut pos: usize = 0;
    let mut taken: i64 = 0;
    let ghost s = chars@;
    let ghost nl = seq!['\n'];
    let ghost mut done: Seq<Seq<char>> = Seq::empty();
    assert(done + lines_from(s, 0) =~= lines(s));
    while pos < n && taken < limit
        invariant
            n == chars.len(),
            s == chars@,
            nl == seq!['\n'],
            pos <= n,
            0 <= taken <= limit,
            taken == done.len(),
            lines(s) == done + lines_from(s, pos as int),
            source@ == joined(done, nl),
        decreases n - pos,
    {
        let mut end: usize = pos;
        while end < n && chars[end] != '\n'
            invariant
                n == chars.len(),
                pos <= end <= n,
                forall|i: int| pos <= i < end ==> chars@[i] != '\n',
            decreases n - end,
        {
            end += 1;
        }
        let stop: usize = if end < n && pos < end && chars[end - 1] == '\r' {
            end - 1
        } else {
            end
        };
        if taken > 0 {
            source.push('\n');
        }
        let ghost base = source@;
        let mut i: usize = pos;
        assert(chars@.subrange(pos as int, pos as int) =~= Seq::<char>::empty());
        while i < stop
            invariant
                n == chars.len(),
                pos <= i <= stop <= n,
                source@ == base + chars@.subrange(pos as int, i as int),
            decreases stop - i,
        {
            source.push(chars[i]);
            assert(chars@.subrange(pos as int, i as int).push(chars@[i as int])
                =~= chars@.subrange(pos as int, i + 1));
            i += 1;
        }
        proof {
            lemma_line_end_is(s, pos as int, end as int);
            let line = line_text(s, pos as int, end as int);
            let rest = if end < n {
                lines_from(s, end + 1)
            } else {
                Seq::<Seq<char>>::empty()
            };
            assert(line == s.subrange(pos as int, stop as int));
            assert(lines_from(s, pos as int) =~= seq![line] + rest);
            assert(done + lines_from(s, pos as int) =~= done.push(line) + rest);
            assert(done.push(line).drop_last() =~= done);
            assert(source@ =~= joined(done.push(line), nl));
            done = done.push(line);
        }
        taken += 1;
        pos = if end < n {
            end + 1
        } else {
            n
        };
    }
    proof {
        if pos >= n {
            assert(lines(s) =~= done);
        } else {
            assert(lines(s).take(limit as int) =~= done);
        }
    }
    source
}

} // verus!
