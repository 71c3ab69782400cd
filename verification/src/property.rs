//! The round-trip check on GraphQL documents: parse, print the syntax tree
//! back to text, parse that text again, and compare.
use vstd::prelude::*;
use apollo_parser::cst::CstNode;
use crate::text::{chars_of, chars_eq};

verus! {

/// The number of syntax errors `apollo_parser` reports on the document
/// `src`.
pub uninterp spec fn syntax_error_count(src: Seq<char>) -> usize;

/// The text of the syntax tree that `apollo_parser` builds for `src`.
pub uninterp spec fn printed_document(src: Seq<char>) -> Seq<char>;

/// Calls `apollo_parser::Parser::new(src).parse()` and counts the errors
/// the tree carries. The parser does not stop or panic on bad input; the
/// contract claims only that the count depends on `src` alone.
#[verifier::external_body]
fn parse_error_count(src: &str) -> (r: usize)
    ensures r == syntax_error_count(src@),
{
    apollo_parser::Parser::new(src).parse().errors().len()
}

/// Calls `apollo_parser::Parser::new(src).parse()` and prints the syntax
/// node of its document back to a string. The contract claims only that the
/// text depends on `src` alone.
#[verifier::external_body]
fn print_document(src: &str) -> (r: String)
    ensures r@ == printed_document(src@),
{
    apollo_parser::Parser::new(src).parse().document().syntax().to_string()
}

/// The verdict of a round trip of `src`: both parses were clean and the
/// second printout is `src` again.
pub open spec fn round_trips(src: Seq<char>, first_errors: bool, second_errors: bool, second_text: Seq<char>) -> bool {
    !first_errors && !second_errors && second_text == src
}

/// The verdict of a round trip from what the two parses gave: whether the
/// first and the second parse reported errors, and the second printout.
pub fn round_trip_verdict(src: &str, first_errors: bool, second_errors: bool, second_text: &str) -> (r: bool)
    ensures r == round_trips(src@, first_errors, second_errors, second_text@),
{
    if first_errors || second_errors {
        false
    } else {
        chars_eq(&chars_of(second_text), &chars_of(src))
    }
}

/// Whether `src` survives a round trip through the parser: it parses
/// without errors, its printout parses without errors, and the printout of
/// that is `src` itself.
pub fn prop_parse_roundtrip(src: &str) -> (r: bool)
    ensures
        r == round_trips(
            src@,
            syntax_error_count(src@) > 0,
            syntax_error_count(printed_document(src@)) > 0,
            printed_document(printed_document(src@)),
        ),
{
    if parse_error_count(src) > 0 {
        return false;
    }
    let first_text = print_document(src);
    if parse_error_count(first_text.as_str()) > 0 {
        return false;
    }
    let second_text = print_document(first_text.as_str());
    round_trip_verdict(src, false, false, second_text.as_str())
}

} // verus!
