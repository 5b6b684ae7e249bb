//! The scanner: depth tracking over the lines of a source text.

use vstd::prelude::*;
use vstd::pervasive::unreached;
use crate::grammar::{
    first_line, lemma_first_line_bound, lemma_name_len_bound, lemma_tab_count_bound, name_len,
    parse_lines, remaining, tab_count, terminator_len, Line,
};
use crate::lexeme::{at_end, identifier, leading_tabs, line_end};
use crate::token::{view_all, Failure, ScanError, Token, TokenView};

verus! {

/// The structural tokens that stand before a line of depth `depth` when the
/// line before it had depth `current`: one `Dedent` per level given up, or one
/// `Indent` per level gained.
pub open spec fn depth_marks(current: nat, depth: nat) -> Seq<TokenView> {
    if depth < current {
        Seq::new((current - depth) as nat, |i: int| TokenView::Dedent)
    } else {
        Seq::new((depth - current) as nat, |i: int| TokenView::Indent)
    }
}

/// The tokens of one line: its structural tokens, then its identifier.
pub open spec fn line_tokens(current: nat, line: Line) -> Seq<TokenView> {
    depth_marks(current, line.depth).push(TokenView::Var(line.name))
}

/// The depth after `lines`, for a scanner that stood at depth `start` before them.
pub open spec fn depth_after(lines: Seq<Line>, start: nat) -> nat {
    if lines.len() == 0 {
        start
    } else {
        lines.last().depth
    }
}

/// The tokens of `lines`, in order, for a scanner that stood at depth `start`
/// before them.
pub open spec fn tokens_of(lines: Seq<Line>, start: nat) -> Seq<TokenView>
    decreases lines.len(),
{
    if lines.len() == 0 {
        Seq::empty()
    } else {
        tokens_of(lines.drop_last(), start) + line_tokens(
            depth_after(lines.drop_last(), start),
            lines.last(),
        )
    }
}

/// What a scan of `source` yields, starting at depth 0.
pub open spec fn scan_spec(source: Seq<char>) -> Result<Seq<TokenView>, Failure> {
    match parse_lines(source) {
        Ok(lines) => Ok(tokens_of(lines, 0)),
        Err(failure) => Err(failure),
    }
}

/// The depth of the line consumed last.
#[derive(Debug)]
pub struct IndentationCounter {
    pub current: usize,
}

/// The lines `done`, followed by what `rest` holds; a failure in `rest` lies
/// `done.len()` lines further down.
pub open spec fn after(done: Seq<Line>, rest: Result<Seq<Line>, Failure>) -> Result<
    Seq<Line>,
    Failure,
> {
    match rest {
        Ok(lines) => Ok(done + lines),
        Err(failure) => Err(failure.shifted(done.len())),
    }
}

/// Taking the first line of `s` over to the lines already done changes nothing.
proof fn lemma_after_step(done: Seq<Line>, s: Seq<char>)
    requires
        s.len() > 0,
        first_line(s) is Complete,
    ensures
        after(done, parse_lines(s)) == after(
            done.push(first_line(s)->line),
            parse_lines(s.skip(first_line(s)->len as int)),
        ),
{
    let line = first_line(s)->line;
    let tail = parse_lines(s.skip(first_line(s)->len as int));
    match tail {
        Ok(lines) => {
            assert(done + (seq![line] + lines) =~= done.push(line) + lines);
        },
        Err(failure) => {},
    }
}

/// Consumes the tabs at the start of `input` and moves the counter to their
/// number. Returns the text after the tabs and the structural tokens for the
/// change of depth.
pub fn indentation<'a>(input: &'a str, counter: &mut IndentationCounter) -> (r: (
    &'a str,
    Vec<Token>,
))
    ensures
        r.0@ == input@.skip(tab_count(input@) as int),
        view_all(r.1@) == depth_marks(old(counter).current as nat, tab_count(input@)),
        final(counter).current == tab_count(input@),
{
    let (rest, tabs) = match leading_tabs(input) {
        Some(found) => found,
        None => unreached(),
    };
    let indent_level: usize = tabs.len();
    let current: usize = counter.current;
    let mut indent_tokens: Vec<Token> = Vec::new();
    if indent_level < current {
        let n: usize = current - indent_level;
        let mut k: usize = 0;
        while k < n
            invariant
                k <= n,
                indent_tokens@.len() == k,
                forall|i: int| 0 <= i < k ==> indent_tokens@[i]@ == TokenView::Dedent,
            decreases n - k,
        {
            indent_tokens.push(Token::Dedent);
            k += 1;
        }
    } else {
        let n: usize = indent_level - current;
        let mut k: usize = 0;
        while k < n
            invariant
                k <= n,
                indent_tokens@.len() == k,
                forall|i: int| 0 <= i < k ==> indent_tokens@[i]@ == TokenView::Indent,
            decreases n - k,
        {
            indent_tokens.push(Token::Indent);
            k += 1;
        }
    }
    counter.current = indent_level;
    proof {
        lemma_tab_count_bound(input@);
        assert(view_all(indent_tokens@) =~= depth_marks(current as nat, indent_level as nat));
    }
    (rest, indent_tokens)
}

/// Scans `source` line by line, starting at the depth that `counter` holds.
///
/// Succeeds exactly on a source made of well-formed lines, with their tokens
/// in order and the counter at the depth of the last line. Otherwise returns
/// the first failure, with the counter at the tab count of the offending line.
pub fn scan_lines(source: &str, counter: &mut IndentationCounter) -> (r: Result<
    Vec<Token>,
    ScanError,
>)
    ensures
        match r {
            Ok(tokens) => {
                &&& parse_lines(source@) is Ok
                &&& view_all(tokens@) == tokens_of(
                    parse_lines(source@)->Ok_0,
                    old(counter).current as nat,
                )
                &&& final(counter).current == depth_after(
                    parse_lines(source@)->Ok_0,
                    old(counter).current as nat,
                )
            },
            Err(error) => {
                &&& parse_lines(source@) == Err::<Seq<Line>, Failure>(error@)
                &&& final(counter).current == tab_count(remaining(source@, error@.line()))
            },
        },
{
    let ghost start: nat = counter.current as nat;
    let ghost mut done: Seq<Line> = Seq::empty();
    let mut tokens: Vec<Token> = Vec::new();
    let mut rest: &str = source;
    let mut line_no: usize = 0;
    proof {
        assert(done + parse_lines(source@)->Ok_0 =~= parse_lines(source@)->Ok_0);
        assert(view_all(tokens@) =~= tokens_of(done, start));
    }
    while !at_end(rest)
        invariant
            parse_lines(source@) == after(done, parse_lines(rest@)),
            rest@ == remaining(source@, done.len()),
            view_all(tokens@) == tokens_of(done, start),
            counter.current == depth_after(done, start),
            line_no == done.len(),
            line_no <= tokens.len(),
        decreases rest@.len(),
    {
        let ghost depth = tab_count(rest@);
        let ghost n = name_len(rest@.skip(depth as int));
        let ghost t = terminator_len(rest@.skip((depth + n) as int));
        let ghost before = counter.current as nat;
        proof {
            lemma_tab_count_bound(rest@);
            lemma_name_len_bound(rest@.skip(depth as int));
            lemma_first_line_bound(rest@);
        }
        let (after_tabs, mut marks) = indentation(rest, counter);
        let (after_name, name) = match identifier(after_tabs) {
            Some(found) => found,
            None => {
                return Err(ScanError::MalformedLine { line: line_no });
            },
        };
        assert(after_name@ =~= rest@.skip((depth + n) as int));
        assert(name@ =~= rest@.subrange(depth as int, (depth + n) as int));
        let next = match line_end(after_name) {
            Some(next) => next,
            None => {
                if at_end(after_name) {
                    return Err(ScanError::TrailingInput { line: line_no });
                } else {
                    return Err(ScanError::MalformedLine { line: line_no });
                }
            },
        };
        assert(next@ =~= rest@.skip((depth + n + t) as int));
        let ghost line = Line { depth, name: name@ };
        let ghost shown = view_all(tokens@);
        let ghost shown_marks = view_all(marks@);
        tokens.append(&mut marks);
        tokens.push(Token::Var(name.to_string()));
        proof {
            lemma_after_step(done, rest@);
            assert(done.push(line).drop_last() =~= done);
            assert(view_all(tokens@) =~= shown + shown_marks.push(TokenView::Var(name@)));
            done = done.push(line);
            assert(line_no < tokens.len());
        }
        rest = next;
        line_no += 1;
    }
    proof {
        assert(done + Seq::<Line>::empty() =~= done);
    }
    Ok(tokens)
}

/// Scans a whole source text, starting at depth 0.
///
/// Succeeds exactly on a source made of well-formed lines, and then returns
/// each line's structural tokens followed by its identifier, in source order.
/// No `Dedent` is added after the last line. Otherwise returns the first
/// failure and no tokens.
pub fn scan(source: &str) -> (r: Result<Vec<Token>, ScanError>)
    ensures
        match r {
            Ok(tokens) => scan_spec(source@) == Ok::<Seq<TokenView>, Failure>(view_all(tokens@)),
            Err(error) => scan_spec(source@) == Err::<Seq<TokenView>, Failure>(error@),
        },
{
    let mut c = IndentationCounter { current: 0 };
    scan_lines(source, &mut c)
}

} // verus!
