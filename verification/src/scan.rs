//! The recognisers that the grammar is built from. Each one looks at the
//! start of a text and, where it matches, hands back what is left of the text
//! and the part it matched, in that order.

use crate::chars::{splits_run, Class};
use vstd::prelude::*;

verus! {

/// What a rule statement lacked at the place where reading it stopped.
#[derive(Clone, Copy, Debug, PartialEq, Eq)]
pub enum Expected {
    /// A letter or digit to begin a pattern.
    AlphaNumeric,
    /// One of the operators `>` and `/`.
    Tag,
    /// The end of the statement.
    Eof,
}

/// The text by which `nom` describes, through `Debug`, the error
/// `Err::Error(Error { input, code })` whose `input` reads `at` and whose
/// `code` is the `ErrorKind` of the same name as `expected`.
pub uninterp spec fn diagnostic(at: Seq<char>, expected: Expected) -> Seq<char>;

/// `nom_unicode::complete::space0`: always matches, and what it matches is the
/// longest prefix of `i` made of characters for which `char::is_whitespace`
/// holds.
#[verifier::external_body]
pub(crate) fn space0<'a>(i: &'a str) -> (r: Option<(&'a str, &'a str)>)
    ensures
        match r {
            Some((rest, head)) => splits_run(i@, head@, rest@, Class::Space, true),
            None => false,
        },
{
    nom_unicode::complete::space0::<&str, nom::error::Error<&str>>(i).ok()
}

/// `nom::character::complete::alphanumeric0`: always matches, and what it
/// matches is the longest prefix of `i` made of ASCII letters and digits.
#[verifier::external_body]
pub(crate) fn alphanumeric0<'a>(i: &'a str) -> (r: Option<(&'a str, &'a str)>)
    ensures
        match r {
            Some((rest, head)) => splits_run(i@, head@, rest@, Class::AlphaNumeric, true),
            None => false,
        },
{
    nom::character::complete::alphanumeric0::<&str, nom::error::Error<&str>>(i).ok()
}

/// `nom::character::complete::alphanumeric1`: matches the longest prefix of
/// `i` made of ASCII letters and digits, and fails exactly where that prefix
/// is empty.
#[verifier::external_body]
pub(crate) fn alphanumeric1<'a>(i: &'a str) -> (r: Option<(&'a str, &'a str)>)
    ensures
        match r {
            Some((rest, head)) => head@.len() > 0 && splits_run(
                i@,
                head@,
                rest@,
                Class::AlphaNumeric,
                true,
            ),
            None => i@.len() == 0 || !Class::AlphaNumeric.holds(i@[0]),
        },
{
    nom::character::complete::alphanumeric1::<&str, nom::error::Error<&str>>(i).ok()
}

/// `nom::bytes::complete::tag`: matches exactly where `i` begins with `word`,
/// and what it matches is that occurrence of `word`.
#[verifier::external_body]
pub(crate) fn tag<'a>(i: &'a str, word: &str) -> (r: Option<(&'a str, &'a str)>)
    ensures
        match r {
            Some((rest, head)) => head@ == word@ && i@ == head@ + rest@,
            None => !word@.is_prefix_of(i@),
        },
{
    nom::bytes::complete::tag::<&str, &str, nom::error::Error<&str>>(word)(i).ok()
}

/// `nom::bytes::complete::take_till`, with membership in `stop` as the
/// predicate: always matches, and what it matches is the longest prefix of
/// `i` that holds no character of `stop`.
#[verifier::external_body]
pub(crate) fn take_till<'a>(i: &'a str, stop: Class) -> (r: Option<(&'a str, &'a str)>)
    ensures
        match r {
            Some((rest, head)) => splits_run(i@, head@, rest@, stop, false),
            None => false,
        },
{
    nom::bytes::complete::take_till::<_, &str, nom::error::Error<&str>>(
        |c: char| stop.contains(c),
    )(i).ok()
}

/// `nom::combinator::eof`: matches exactly where `i` is empty, and hands `i`
/// back twice.
#[verifier::external_body]
pub(crate) fn eof<'a>(i: &'a str) -> (r: Option<(&'a str, &'a str)>)
    ensures
        match r {
            Some((rest, head)) => i@.len() == 0 && rest@ == i@ && head@ == i@,
            None => i@.len() > 0,
        },
{
    nom::combinator::eof::<&str, nom::error::Error<&str>>(i).ok()
}

/// The `Debug` text of the `nom::Err` that a recogniser of `nom` gives when
/// it fails at `at` with the error kind that `expected` stands for.
#[verifier::external_body]
pub(crate) fn describe(at: &str, expected: Expected) -> (text: String)
    ensures
        text@ == diagnostic(at@, expected),
{
    let code = match expected {
        Expected::AlphaNumeric => nom::error::ErrorKind::AlphaNumeric,
        Expected::Tag => nom::error::ErrorKind::Tag,
        Expected::Eof => nom::error::ErrorKind::Eof,
    };
    format!("{:?}", nom::Err::Error(nom::error::Error::new(at, code)))
}

} // verus!
