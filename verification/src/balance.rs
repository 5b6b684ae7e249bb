//! Depth bookkeeping: the structural tokens emitted so far always add up to
//! the depth of the line read last.

use vstd::prelude::*;
use crate::grammar::{lemma_line_at, parse_lines, remaining, tab_count, Line};
use crate::scanner::{depth_after, depth_marks, line_tokens, scan_spec, tokens_of};
use crate::token::TokenView;

verus! {

/// The number of `Indent` tokens in `tokens`.
pub open spec fn indents(tokens: Seq<TokenView>) -> nat
    decreases tokens.len(),
{
    if tokens.len() == 0 {
        0
    } else if tokens.last() is Indent {
        indents(tokens.drop_last()) + 1
    } else {
        indents(tokens.drop_last())
    }
}

/// The number of `Dedent` tokens in `tokens`.
pub open spec fn dedents(tokens: Seq<TokenView>) -> nat
    decreases tokens.len(),
{
    if tokens.len() == 0 {
        0
    } else if tokens.last() is Dedent {
        dedents(tokens.drop_last()) + 1
    } else {
        dedents(tokens.drop_last())
    }
}

/// Both counts add up over a concatenation.
pub proof fn lemma_counts_concat(a: Seq<TokenView>, b: Seq<TokenView>)
    ensures
        indents(a + b) == indents(a) + indents(b),
        dedents(a + b) == dedents(a) + dedents(b),
    decreases b.len(),
{
    if b.len() == 0 {
        assert(a + b =~= a);
    } else {
        assert((a + b).drop_last() =~= a + b.drop_last());
        lemma_counts_concat(a, b.drop_last());
    }
}

/// A run of one structural token counts once per element on its own side.
proof fn lemma_counts_run(n: nat)
    ensures
        indents(Seq::new(n, |i: int| TokenView::Indent)) == n,
        dedents(Seq::new(n, |i: int| TokenView::Indent)) == 0,
        indents(Seq::new(n, |i: int| TokenView::Dedent)) == 0,
        dedents(Seq::new(n, |i: int| TokenView::Dedent)) == n,
    decreases n,
{
    if n > 0 {
        let m = (n - 1) as nat;
        assert(Seq::new(n, |i: int| TokenView::Indent).drop_last() =~= Seq::new(
            m,
            |i: int| TokenView::Indent,
        ));
        assert(Seq::new(n, |i: int| TokenView::Dedent).drop_last() =~= Seq::new(
            m,
            |i: int| TokenView::Dedent,
        ));
        lemma_counts_run(m);
    }
}

/// The tokens of one line move the balance from the depth before it to its own.
pub proof fn lemma_line_balance(current: nat, line: Line)
    ensures
        indents(line_tokens(current, line)) - dedents(line_tokens(current, line)) == line.depth
            - current,
{
    let marks = depth_marks(current, line.depth);
    if line.depth < current {
        lemma_counts_run((current - line.depth) as nat);
    } else {
        lemma_counts_run((line.depth - current) as nat);
    }
    assert(line_tokens(current, line).drop_last() =~= marks);
}

/// The tokens of a run of lines move the balance from the starting depth to
/// the depth of the last of them.
pub proof fn lemma_tokens_balance(lines: Seq<Line>, start: nat)
    ensures
        indents(tokens_of(lines, start)) - dedents(tokens_of(lines, start)) == depth_after(
            lines,
            start,
        ) - start,
    decreases lines.len(),
{
    if lines.len() > 0 {
        let front = lines.drop_last();
        lemma_tokens_balance(front, start);
        lemma_line_balance(depth_after(front, start), lines.last());
        lemma_counts_concat(
            tokens_of(front, start),
            line_tokens(depth_after(front, start), lines.last()),
        );
    }
}

/// The tokens of the first `k` lines open the tokens of all the lines.
pub proof fn lemma_tokens_prefix(lines: Seq<Line>, start: nat, k: int)
    requires
        0 <= k <= lines.len(),
    ensures
        tokens_of(lines.take(k), start).len() <= tokens_of(lines, start).len(),
        tokens_of(lines, start).take(tokens_of(lines.take(k), start).len() as int) == tokens_of(
            lines.take(k),
            start,
        ),
    decreases lines.len(),
{
    if k == lines.len() {
        assert(lines.take(k) =~= lines);
        assert(tokens_of(lines, start).take(tokens_of(lines, start).len() as int) =~= tokens_of(
            lines,
            start,
        ));
    } else {
        let front = lines.drop_last();
        assert(front.take(k) =~= lines.take(k));
        lemma_tokens_prefix(front, start, k);
        let shown = tokens_of(lines.take(k), start);
        assert(tokens_of(lines, start).take(shown.len() as int) =~= tokens_of(front, start).take(
            shown.len() as int,
        ));
    }
}

/// For every source that scans and every line `i` of it: the tokens emitted
/// up to and including line `i` open the scan's output, and the number of
/// `Indent` tokens among them minus the number of `Dedent` tokens is the
/// number of tabs that line `i` starts with.
pub proof fn lemma_depth_bookkeeping(source: Seq<char>, i: int)
    requires
        parse_lines(source) is Ok,
        0 <= i < parse_lines(source)->Ok_0.len(),
    ensures
        ({
            let lines = parse_lines(source)->Ok_0;
            let output = scan_spec(source)->Ok_0;
            let emitted = tokens_of(lines.take(i + 1), 0);
            &&& scan_spec(source) is Ok
            &&& emitted.len() <= output.len()
            &&& output.take(emitted.len() as int) == emitted
            &&& indents(emitted) - dedents(emitted) == tab_count(remaining(source, i as nat))
            &&& lines[i].depth == tab_count(remaining(source, i as nat))
        }),
{
    let lines = parse_lines(source)->Ok_0;
    lemma_line_at(source, i as nat);
    lemma_tokens_prefix(lines, 0, i + 1);
    lemma_tokens_balance(lines.take(i + 1), 0);
}

} // verus!
