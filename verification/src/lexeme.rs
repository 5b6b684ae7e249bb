//! The pieces of a line, recognised by `nom`.
//!
//! Each function here hands its input to one parser of `nom` and states, over
//! the functions of the grammar, what that parser answers. Verus takes these
//! statements on trust; everything built on them is proved.

use vstd::prelude::*;
use nom::character::complete::{alphanumeric1, line_ending, tab};
use nom::combinator::eof;
use nom::error::ErrorKind;
use nom::multi::many0;
use crate::grammar::{name_len, tab_count, terminator_len};

verus! {

/// Runs `nom::multi::many0` over `nom::character::complete::tab`.
///
/// `tab` takes one tab character or fails without consuming, and `many0`
/// repeats it until it fails. So the call always succeeds: it hands back the
/// tabs that the input starts with, one `'\t'` each, and the text after them.
#[verifier::external_body]
pub(crate) fn leading_tabs<'a>(input: &'a str) -> (r: Option<(&'a str, Vec<char>)>)
    ensures
        r is Some,
        r matches Some((rest, tabs)) ==> {
            &&& tabs@ == input@.take(tab_count(input@) as int)
            &&& rest@ == input@.skip(tab_count(input@) as int)
        },
{
    match many0(tab::<&str, (&str, ErrorKind)>)(input) {
        Ok((rest, tabs)) => Some((rest, tabs)),
        Err(_) => None,
    }
}

/// Runs `nom::character::complete::alphanumeric1`.
///
/// The parser splits the input before its first character that is not an
/// ASCII letter or digit, or at its end where there is none, and fails
/// where that leaves nothing in front. The result is the text after the
/// identifier, then the identifier.
#[verifier::external_body]
pub(crate) fn identifier<'a>(input: &'a str) -> (r: Option<(&'a str, &'a str)>)
    ensures
        r is Some <==> name_len(input@) > 0,
        r matches Some((rest, name)) ==> {
            &&& name@ == input@.take(name_len(input@) as int)
            &&& rest@ == input@.skip(name_len(input@) as int)
        },
{
    match alphanumeric1::<&str, (&str, ErrorKind)>(input) {
        Ok((rest, name)) => Some((rest, name)),
        Err(_) => None,
    }
}

/// Runs `nom::character::complete::line_ending`.
///
/// The parser takes a line feed, or a carriage return followed by a line
/// feed, from the start of the input and fails on anything else. The result
/// is the text after the line ending.
#[verifier::external_body]
pub(crate) fn line_end<'a>(input: &'a str) -> (r: Option<&'a str>)
    ensures
        r is Some <==> terminator_len(input@) > 0,
        r matches Some(rest) ==> rest@ == input@.skip(terminator_len(input@) as int),
{
    match line_ending::<&str, (&str, ErrorKind)>(input) {
        Ok((rest, _)) => Some(rest),
        Err(_) => None,
    }
}

/// Runs `nom::combinator::eof`, which succeeds exactly on an empty input.
#[verifier::external_body]
pub(crate) fn at_end(input: &str) -> (r: bool)
    ensures
        r == (input@.len() == 0),
{
    eof::<&str, (&str, ErrorKind)>(input).is_ok()
}

} // verus!
