//! Content tokens: every identifier in the output of a scan is a non-empty
//! run of ASCII letters and digits.

use vstd::prelude::*;
use crate::grammar::{is_identifier, lemma_line_at, lemma_line_name, parse_lines, remaining, Line};
use crate::scanner::{depth_after, depth_marks, line_tokens, scan_spec, tokens_of};
use crate::token::TokenView;

verus! {

/// Every `Var` among `tokens` carries an identifier.
pub open spec fn names_well_formed(tokens: Seq<TokenView>) -> bool {
    forall|k: int|
        0 <= k < tokens.len() && (#[trigger] tokens[k]) is Var ==> is_identifier(tokens[k]->Var_0)
}

/// Lines with well-formed names give tokens with well-formed names.
pub proof fn lemma_tokens_names(lines: Seq<Line>, start: nat)
    requires
        forall|i: int| 0 <= i < lines.len() ==> is_identifier(#[trigger] lines[i].name),
    ensures
        names_well_formed(tokens_of(lines, start)),
    decreases lines.len(),
{
    if lines.len() > 0 {
        let front = lines.drop_last();
        let last = lines.last();
        let current = depth_after(front, start);
        lemma_tokens_names(front, start);
        let shown = tokens_of(front, start);
        let marks = depth_marks(current, last.depth);
        let all = tokens_of(lines, start);
        assert(all == shown + line_tokens(current, last));
        assert forall|k: int| 0 <= k < all.len() && (#[trigger] all[k]) is Var implies is_identifier(
            all[k]->Var_0,
        ) by {
            if k < shown.len() {
                assert(all[k] == shown[k]);
            } else if k < shown.len() + marks.len() {
                assert(all[k] == marks[k - shown.len()]);
            } else {
                assert(all[k] == TokenView::Var(last.name));
            }
        }
    }
}

/// For every source that scans, each `Var` of the output carries a
/// non-empty run of ASCII letters and digits.
pub proof fn lemma_scan_names(source: Seq<char>)
    requires
        scan_spec(source) is Ok,
    ensures
        names_well_formed(scan_spec(source)->Ok_0),
{
    let lines = parse_lines(source)->Ok_0;
    assert forall|i: int| 0 <= i < lines.len() implies is_identifier(#[trigger] lines[i].name) by {
        lemma_line_at(source, i as nat);
        lemma_line_name(remaining(source, i as nat));
    }
    lemma_tokens_names(lines, 0);
}

} // verus!
