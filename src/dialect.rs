//! The lexical rules that the Cypher statement grammar hands to the SQL tokenizer.
use vstd::prelude::*;

verus! {

/// Whether `c` is alphabetic in the Unicode sense.
pub uninterp spec fn alphabetic(c: char) -> bool;

/// Whether `c` is alphabetic or numeric in the Unicode sense.
pub uninterp spec fn alphanumeric(c: char) -> bool;

/// Relies on `char::is_alphabetic`: Unicode's Alphabetic property of `c`.
#[verifier::external_body]
fn is_alphabetic(c: char) -> (r: bool)
    ensures
        r == alphabetic(c),
{
    c.is_alphabetic()
}

/// Relies on `char::is_alphanumeric`: Unicode's Alphabetic or Numeric property of `c`.
#[verifier::external_body]
fn is_alphanumeric(c: char) -> (r: bool)
    ensures
        r == alphanumeric(c),
{
    c.is_alphanumeric()
}

/// The Cypher dialect: identifiers may hold `_` and `$`, and are delimited by backticks.
#[derive(Debug)]
pub struct CypherDialect;

pub open spec fn cypher_identifier_start(c: char) -> bool {
    alphabetic(c) || c == '_' || c == '$'
}

pub open spec fn cypher_identifier_part(c: char) -> bool {
    alphanumeric(c) || c == '_' || c == '$'
}

impl sqlparser::dialect::Dialect for CypherDialect {
    fn is_identifier_start(&self, ch: char) -> (r: bool)
        ensures
            r == cypher_identifier_start(ch),
    {
        is_alphabetic(ch) || ch == '_' || ch == '$'
    }

    fn is_identifier_part(&self, ch: char) -> (r: bool)
        ensures
            r == cypher_identifier_part(ch),
    {
        is_alphanumeric(ch) || ch == '_' || ch == '$'
    }

    fn is_delimited_identifier_start(&self, ch: char) -> (r: bool)
        ensures
            r == (ch == '`'),
    {
        ch == '`'
    }

    fn supports_filter_during_aggregation(&self) -> (r: bool)
        ensures
            !r,
    {
        false
    }

    fn supports_in_empty_list(&self) -> (r: bool)
        ensures
            r,
    {
        true
    }

    fn supports_group_by_expr(&self) -> (r: bool)
        ensures
            r,
    {
        true
    }

    fn supports_connect_by(&self) -> (r: bool)
        ensures
            !r,
    {
        false
    }

    fn supports_match_recognize(&self) -> (r: bool)
        ensures
            !r,
    {
        false
    }

    fn supports_start_transaction_modifier(&self) -> (r: bool)
        ensures
            !r,
    {
        false
    }

    fn supports_named_fn_args_with_eq_operator(&self) -> (r: bool)
        ensures
            !r,
    {
        false
    }

    fn supports_dictionary_syntax(&self) -> (r: bool)
        ensures
            r,
    {
        true
    }

    fn supports_lambda_functions(&self) -> (r: bool)
        ensures
            r,
    {
        true
    }

    fn support_map_literal_syntax(&self) -> (r: bool)
        ensures
            r,
    {
        true
    }

    fn supports_parenthesized_set_variables(&self) -> (r: bool)
        ensures
            !r,
    {
        false
    }

    fn supports_select_wildcard_except(&self) -> (r: bool)
        ensures
            !r,
    {
        false
    }
}

} // verus!
