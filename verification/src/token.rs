//! Tokens, scan errors and their mathematical views.

use vstd::prelude::*;

verus! {

/// One element of the token stream.
#[derive(Debug, PartialEq, Eq)]
pub enum Token {
    /// The content that follows is one level shallower than the content before it.
    Dedent,
    /// The content that follows is one level deeper than the content before it.
    Indent,
    /// The identifier of a line.
    Var(String),
}

/// What a token is: the same three variants, with the identifier as a
/// sequence of characters.
pub enum TokenView {
    Dedent,
    Indent,
    Var(Seq<char>),
}

impl View for Token {
    type V = TokenView;

    open spec fn view(&self) -> TokenView {
        match self {
            Token::Dedent => TokenView::Dedent,
            Token::Indent => TokenView::Indent,
            Token::Var(name) => TokenView::Var(name@),
        }
    }
}

/// The views of a sequence of tokens, in order.
pub open spec fn view_all(tokens: Seq<Token>) -> Seq<TokenView> {
    tokens.map_values(|t: Token| t@)
}

/// Why a scan failed. `line` is the zero-based index of the offending line.
#[derive(Debug, Clone, Copy, PartialEq, Eq)]
pub enum ScanError {
    /// The line is not tabs followed by an identifier followed by a line
    /// ending: its identifier is empty, or something other than a line ending
    /// follows the identifier.
    MalformedLine { line: usize },
    /// The last line is tabs followed by an identifier, and the input ends
    /// where its line ending should stand.
    TrailingInput { line: usize },
}

/// What a scan error is, with the line index as a natural number.
pub enum Failure {
    MalformedLine { line: nat },
    TrailingInput { line: nat },
}

impl View for ScanError {
    type V = Failure;

    open spec fn view(&self) -> Failure {
        match self {
            ScanError::MalformedLine { line } => Failure::MalformedLine { line: *line as nat },
            ScanError::TrailingInput { line } => Failure::TrailingInput { line: *line as nat },
        }
    }
}

impl ScanError {
    /// The zero-based index of the offending line.
    pub fn line(&self) -> (n: usize)
        ensures
            n == self@.line(),
    {
        match self {
            ScanError::MalformedLine { line } => *line,
            ScanError::TrailingInput { line } => *line,
        }
    }
}

impl Failure {
    /// The zero-based index of the offending line.
    pub open spec fn line(self) -> nat {
        match self {
            Failure::MalformedLine { line } => line,
            Failure::TrailingInput { line } => line,
        }
    }

    /// The same failure, `by` lines further down.
    pub open spec fn shifted(self, by: nat) -> Failure {
        match self {
            Failure::MalformedLine { line } => Failure::MalformedLine { line: line + by },
            Failure::TrailingInput { line } => Failure::TrailingInput { line: line + by },
        }
    }
}

} // verus!
