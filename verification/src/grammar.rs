//! The line grammar, as functions on sequences of characters.
//!
//! ```text
//! line       := indent content terminator
//! indent     := tab*
//! content    := alphanumeric+
//! terminator := "\n" | "\r\n"
//! source     := line* end-of-input
//! ```

use vstd::prelude::*;
use crate::token::Failure;

verus! {

/// ASCII letters and digits.
pub open spec fn is_alphanumeric(c: char) -> bool {
    ('a' <= c && c <= 'z') || ('A' <= c && c <= 'Z') || ('0' <= c && c <= '9')
}

/// A non-empty run of ASCII letters and digits.
pub open spec fn is_identifier(name: Seq<char>) -> bool {
    name.len() > 0 && forall|j: int| 0 <= j < name.len() ==> is_alphanumeric(#[trigger] name[j])
}

/// The number of tab characters at the start of `s`.
pub open spec fn tab_count(s: Seq<char>) -> nat
    decreases s.len(),
{
    if s.len() > 0 && s[0] == '\t' {
        1 + tab_count(s.skip(1))
    } else {
        0
    }
}

/// The length of the longest run of alphanumeric characters at the start of `s`.
pub open spec fn name_len(s: Seq<char>) -> nat
    decreases s.len(),
{
    if s.len() > 0 && is_alphanumeric(s[0]) {
        1 + name_len(s.skip(1))
    } else {
        0
    }
}

/// The length of the line ending at the start of `s`: 1 for a line feed, 2
/// for a carriage return and a line feed, 0 where `s` starts with neither.
pub open spec fn terminator_len(s: Seq<char>) -> nat {
    if s.len() >= 1 && s[0] == '\n' {
        1
    } else if s.len() >= 2 && s[0] == '\r' && s[1] == '\n' {
        2
    } else {
        0
    }
}

/// A line of the source: how many tabs it starts with, and its identifier.
pub struct Line {
    pub depth: nat,
    pub name: Seq<char>,
}

/// What stands at the start of a non-empty text.
pub enum Shape {
    /// A whole line, which takes up the first `len` characters.
    Complete { line: Line, len: nat },
    /// Tabs and an identifier that reach the end of the text.
    Unterminated,
    /// Anything else.
    Malformed,
}

/// Reads one line from the start of `s`.
pub open spec fn first_line(s: Seq<char>) -> Shape {
    let depth = tab_count(s);
    let n = name_len(s.skip(depth as int));
    let t = terminator_len(s.skip((depth + n) as int));
    if n == 0 {
        Shape::Malformed
    } else if t > 0 {
        Shape::Complete {
            line: Line { depth, name: s.subrange(depth as int, (depth + n) as int) },
            len: depth + n + t,
        }
    } else if depth + n == s.len() {
        Shape::Unterminated
    } else {
        Shape::Malformed
    }
}

/// `first` put in front of the lines of `rest`; a failure in `rest` lies one
/// line further down.
pub open spec fn prepend(first: Line, rest: Result<Seq<Line>, Failure>) -> Result<
    Seq<Line>,
    Failure,
> {
    match rest {
        Ok(lines) => Ok(seq![first] + lines),
        Err(failure) => Err(failure.shifted(1)),
    }
}

/// The lines of a source text, or the first failure.
pub open spec fn parse_lines(s: Seq<char>) -> Result<Seq<Line>, Failure>
    decreases s.len(),
    via parse_lines_shortens
{
    if s.len() == 0 {
        Ok(Seq::empty())
    } else {
        match first_line(s) {
            Shape::Complete { line, len } => prepend(line, parse_lines(s.skip(len as int))),
            Shape::Unterminated => Err(Failure::TrailingInput { line: 0 }),
            Shape::Malformed => Err(Failure::MalformedLine { line: 0 }),
        }
    }
}

/// What is left of `s` once its first `k` lines are taken away. Where fewer
/// than `k` complete lines stand at the start of `s`, what is left after those.
pub open spec fn remaining(s: Seq<char>, k: nat) -> Seq<char>
    decreases k,
{
    if k == 0 {
        s
    } else {
        let r = remaining(s, (k - 1) as nat);
        match first_line(r) {
            Shape::Complete { line, len } => r.skip(len as int),
            _ => r,
        }
    }
}

#[via_fn]
proof fn parse_lines_shortens(s: Seq<char>) {
    lemma_first_line_bound(s);
}

/// The leading tabs of a text are part of it.
pub proof fn lemma_tab_count_bound(s: Seq<char>)
    ensures
        tab_count(s) <= s.len(),
    decreases s.len(),
{
    if s.len() > 0 && s[0] == '\t' {
        lemma_tab_count_bound(s.skip(1));
    }
}

/// The leading identifier of a text is part of it.
pub proof fn lemma_name_len_bound(s: Seq<char>)
    ensures
        name_len(s) <= s.len(),
    decreases s.len(),
{
    if s.len() > 0 && is_alphanumeric(s[0]) {
        lemma_name_len_bound(s.skip(1));
    }
}

/// A complete line lies within the text and is not empty.
pub proof fn lemma_first_line_bound(s: Seq<char>)
    ensures
        first_line(s) matches Shape::Complete { line, len } ==> 0 < len <= s.len(),
{
    let depth = tab_count(s);
    lemma_tab_count_bound(s);
    lemma_name_len_bound(s.skip(depth as int));
}

/// Taking away one line and then `k` more takes away `k + 1` lines.
pub proof fn lemma_remaining_shift(s: Seq<char>, k: nat)
    requires
        first_line(s) is Complete,
    ensures
        remaining(s, k + 1) == remaining(s.skip(first_line(s)->len as int), k),
    decreases k,
{
    let tail = s.skip(first_line(s)->len as int);
    if k == 0 {
        assert(remaining(s, 0) == s);
        assert(remaining(tail, 0) == tail);
    } else {
        lemma_remaining_shift(s, (k - 1) as nat);
        assert(remaining(s, k) == remaining(tail, (k - 1) as nat));
    }
}

/// In a source that parses, line `i` stands at the start of what is left
/// after the first `i` lines.
pub proof fn lemma_line_at(s: Seq<char>, i: nat)
    requires
        parse_lines(s) is Ok,
        i < parse_lines(s)->Ok_0.len(),
    ensures
        first_line(remaining(s, i)) is Complete,
        first_line(remaining(s, i))->line == parse_lines(s)->Ok_0[i as int],
        parse_lines(s)->Ok_0[i as int].depth == tab_count(remaining(s, i)),
    decreases i,
{
    if i > 0 {
        let tail = s.skip(first_line(s)->len as int);
        lemma_first_line_bound(s);
        lemma_line_at(tail, (i - 1) as nat);
        lemma_remaining_shift(s, (i - 1) as nat);
    }
}

/// The leading identifier of a text holds letters and digits only.
pub proof fn lemma_name_run(s: Seq<char>)
    ensures
        forall|j: int| 0 <= j < name_len(s) ==> is_alphanumeric(#[trigger] s[j]),
    decreases s.len(),
{
    if s.len() > 0 && is_alphanumeric(s[0]) {
        lemma_name_run(s.skip(1));
        lemma_name_len_bound(s);
        assert forall|j: int| 0 <= j < name_len(s) implies is_alphanumeric(#[trigger] s[j]) by {
            if j > 0 {
                assert(s[j] == s.skip(1)[j - 1]);
            }
        }
    }
}

/// The name of a complete line is an identifier.
pub proof fn lemma_line_name(s: Seq<char>)
    requires
        first_line(s) is Complete,
    ensures
        is_identifier(first_line(s)->line.name),
{
    let depth = tab_count(s);
    let content = s.skip(depth as int);
    lemma_tab_count_bound(s);
    lemma_name_len_bound(content);
    lemma_name_run(content);
    let name = first_line(s)->line.name;
    assert forall|j: int| 0 <= j < name.len() implies is_alphanumeric(#[trigger] name[j]) by {
        assert(name[j] == content[j]);
    }
}

} // verus!
