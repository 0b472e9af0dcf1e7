//! The SQL expression parser, entered at a token of a query.
//!
//! Each call tokenizes the query, hands the tokens from `start` on to
//! sqlparser's parser and gets back what it read and how many tokens it
//! consumed.
use vstd::prelude::*;
use sqlparser::ast::SelectItem;
use sqlparser::parser::Parser as SqlParser;
use sqlparser::tokenizer::Tokenizer;
use crate::ast::{Expr, Ident, ReturnItem};
use crate::dialect::CypherDialect;
use crate::token::lexed;

verus! {

/// What the expression parser reads from token `start` of a query: the
/// expression's canonical text and how many tokens it consumed, or its message.
pub uninterp spec fn expr_read(q: Seq<char>, start: int) -> Result<(Seq<char>, int), Seq<char>>;

/// What the projection-list parser reads from token `start` of a query: the
/// items and how many tokens it consumed, or its message.
pub uninterp spec fn projection_read(q: Seq<char>, start: int) -> Result<(Seq<ReturnItem>, int), Seq<char>>;

/// What the ORDER BY key parser reads from token `start` of a query: the
/// key's expression text, the text of its modifiers and how many tokens it
/// consumed, or its message.
pub uninterp spec fn order_key_read(q: Seq<char>, start: int) -> Result<(Seq<char>, Seq<char>, int), Seq<char>>;

/// Relies on sqlparser's tokenizer, `Parser::parse_expr` and the `Display` of
/// `Expr`: an expression read from token `start` of `query` on.
#[verifier::external_body]
pub(crate) fn parse_expr_at(query: &str, start: usize) -> (r: Result<(String, usize), String>)
    requires
        lexed(query@) matches Some(ls) && start <= ls.len(),
    ensures
        match expr_read(query@, start as int) {
            Ok((t, n)) => r matches Ok(x) && x.0@ == t && x.1 == n,
            Err(m) => r matches Err(x) && x@ == m,
        },
{
    let dialect = CypherDialect;
    let tokens = Tokenizer::new(&dialect, query).tokenize_with_location().unwrap_or_default();
    let mut p = SqlParser::new(&dialect).with_tokens_with_locations(tokens[start..].to_vec());
    match p.parse_expr() {
        Ok(e) => Ok((e.to_string(), p.index())),
        Err(e) => Err(e.to_string()),
    }
}

/// Relies on sqlparser's tokenizer and `Parser::parse_projection`: how many
/// select items it reads from token `start` of `query` on, and how many tokens
/// it consumes, or its message.
#[verifier::external_body]
pub(crate) fn parse_projection_at(query: &str, start: usize) -> (r: Result<(usize, usize), String>)
    requires
        lexed(query@) matches Some(ls) && start <= ls.len(),
    ensures
        match projection_read(query@, start as int) {
            Ok((items, n)) => r matches Ok(x) && x.0 == items.len() && x.1 == n,
            Err(m) => r matches Err(x) && x@ == m,
        },
{
    let dialect = CypherDialect;
    let tokens = Tokenizer::new(&dialect, query).tokenize_with_location().unwrap_or_default();
    let mut p = SqlParser::new(&dialect).with_tokens_with_locations(tokens[start..].to_vec());
    match p.parse_projection() {
        Ok(items) => Ok((items.len(), p.index())),
        Err(e) => Err(e.to_string()),
    }
}

/// Relies on sqlparser's tokenizer, `Parser::parse_projection`, `SelectItem`
/// and their `Display`: item `i` of that list, as an expression with or without
/// alias, a bare wildcard, or a qualified wildcard as written.
#[verifier::external_body]
pub(crate) fn projection_item_at(query: &str, start: usize, i: usize) -> (r: ReturnItem)
    requires
        lexed(query@) matches Some(ls) && start <= ls.len(),
        projection_read(query@, start as int) matches Ok((items, _)) && i < items.len(),
    ensures
        r == projection_read(query@, start as int)->Ok_0.0[i as int],
{
    let dialect = CypherDialect;
    let tokens = Tokenizer::new(&dialect, query).tokenize_with_location().unwrap_or_default();
    let items = SqlParser::new(&dialect).with_tokens_with_locations(tokens[start..].to_vec()).parse_projection().unwrap_or_default();
    match &items[i] {
        SelectItem::UnnamedExpr(e) => ReturnItem::Expr(Expr { text: e.to_string() }),
        SelectItem::ExprWithAlias { expr, alias } => ReturnItem::Aliased {
            expr: Expr { text: expr.to_string() },
            alias: Ident { value: alias.value.clone(), quote_style: alias.quote_style },
        },
        SelectItem::Wildcard(_) => ReturnItem::Wildcard,
        other => ReturnItem::QualifiedWildcard(other.to_string()),
    }
}

/// Relies on sqlparser's tokenizer, `Parser::parse_order_by_expr` and the
/// `Display` of `Expr` and `OrderByOptions`: one ORDER BY key read from token
/// `start` of `query` on.
#[verifier::external_body]
pub(crate) fn parse_order_key_at(query: &str, start: usize) -> (r: Result<(String, String, usize), String>)
    requires
        lexed(query@) matches Some(ls) && start <= ls.len(),
    ensures
        match order_key_read(query@, start as int) {
            Ok((t, o, n)) => r matches Ok(x) && x.0@ == t && x.1@ == o && x.2 == n,
            Err(m) => r matches Err(x) && x@ == m,
        },
{
    let dialect = CypherDialect;
    let tokens = Tokenizer::new(&dialect, query).tokenize_with_location().unwrap_or_default();
    let mut p = SqlParser::new(&dialect).with_tokens_with_locations(tokens[start..].to_vec());
    match p.parse_order_by_expr() {
        Ok(o) => Ok((o.expr.to_string(), o.options.to_string(), p.index())),
        Err(e) => Err(e.to_string()),
    }
}

} // verus!
