//! The Cypher statement grammar: a recursive-descent parser over the token
//! stream, which hands expressions, projections and ORDER BY keys to the SQL
//! expression parser.
use vstd::prelude::*;
use vstd::string::StrSliceExecFns;
use crate::ast::{
    alternating, patterns_wf, CypherStatement, Expr, Ident, OrderKey, Pattern, PatternElement,
    PropertyMap, RelationshipDirection, RelationshipLength, ReturnClause, ReturnItem, SetClause,
    SetTarget,
};
use crate::error::ParseError;
use crate::grammar::{
    dotted_count_at, trailing_dot_count,
    chain_error, node_error, pattern_error, patterns_error, relationship_error,
    alternatives_grammar, bracket_grammar, chain_grammar, pattern_grammar, patterns_grammar, patterns_plain,
    patterns_shapes, ElementShape, direction_of, has_properties, ident_grammar, relationship_grammar, labels_grammar, length_grammar, node_grammar, prefixed, shape_of,
    types_grammar, upper_bound_grammar,
};
use crate::exprs::{expr_read, order_key_read, parse_expr_at, parse_order_key_at, parse_projection_at, projection_item_at, projection_read};
use crate::text::{count_value, eq_ignore_case, parse_count, push_text, same_letter, spells_keyword};
use crate::translate::{element_count, statement_size};
use crate::token::{lexed, query_tokens, Located, Punct, Token, TokenStream};

verus! {

/// The first place at or after `i` that holds no whitespace, or the end.
pub open spec fn skip_ws(ts: Seq<Located>, i: int) -> int
    decreases ts.len() - i,
{
    if i < 0 || i >= ts.len() {
        ts.len() as int
    } else if ts[i].token is Whitespace {
        skip_ws(ts, i + 1)
    } else {
        i
    }
}

pub proof fn lemma_skip_ws_bounds(ts: Seq<Located>, i: int)
    requires
        0 <= i <= ts.len(),
    ensures
        i <= skip_ws(ts, i) <= ts.len(),
        skip_ws(ts, i) < ts.len() ==> !(ts[skip_ws(ts, i)].token is Whitespace),
    decreases ts.len() - i,
{
    if i < ts.len() && ts[i].token is Whitespace {
        lemma_skip_ws_bounds(ts, i + 1);
    }
}

/// The token at place `i` is the punctuation `p`.
pub open spec fn punct_at(ts: Seq<Located>, i: int, p: Punct) -> bool {
    0 <= i < ts.len() && ts[i].token == Token::Punct(p)
}

/// The token at place `i` is the unquoted word `kw`, in any ASCII case.
pub open spec fn keyword_at(ts: Seq<Located>, i: int, kw: Seq<char>) -> bool {
    0 <= i < ts.len() && match ts[i].token {
        Token::Word { value, quote_style } => quote_style is None && spells_keyword(value@, kw),
        _ => false,
    }
}

pub open spec fn word_at(ts: Seq<Located>, i: int) -> bool {
    0 <= i < ts.len() && ts[i].token is Word
}

/// The identifier that a token spells, if it is a word or a quoted string.
pub open spec fn ident_of(t: Token) -> Option<Ident> {
    match t {
        Token::Word { value, quote_style } => Some(Ident { value, quote_style }),
        Token::SingleQuoted(s) => Some(Ident { value: s, quote_style: Some('\'') }),
        Token::DoubleQuoted(s) => Some(Ident { value: s, quote_style: Some('"') }),
        _ => None,
    }
}

/// The digits of a numeric token at place `i`, if there is one.
pub open spec fn number_at(ts: Seq<Located>, i: int) -> Option<Seq<char>> {
    if 0 <= i < ts.len() {
        match ts[i].token {
            Token::Number(n) => Some(n@),
            _ => None,
        }
    } else {
        None
    }
}

/// A statement holds at least one pattern (or DELETE target), and every
/// pattern alternates nodes and relationships.
pub open spec fn statement_wf(s: CypherStatement) -> bool {
    match s {
        CypherStatement::Match { patterns, .. } => patterns_wf(patterns@) && patterns@.len() > 0,
        CypherStatement::Create { patterns } => patterns_wf(patterns@) && patterns@.len() > 0,
        CypherStatement::Merge { patterns, .. } => patterns_wf(patterns@) && patterns@.len() > 0,
        CypherStatement::Delete { what, .. } => what@.len() > 0,
    }
}

/// The token at place `i` is a keyword that starts a statement.
pub open spec fn starts_statement(ts: Seq<Located>, i: int) -> bool {
    ||| keyword_at(ts, i, "MATCH"@)
    ||| keyword_at(ts, i, "OPTIONAL"@)
    ||| keyword_at(ts, i, "CREATE"@)
    ||| keyword_at(ts, i, "MERGE"@)
    ||| keyword_at(ts, i, "DELETE"@)
    ||| keyword_at(ts, i, "DETACH"@)
}

proof fn lemma_keywords_differ(v: Seq<char>, k1: Seq<char>, k2: Seq<char>, i: int)
    requires
        0 <= i < k1.len(),
        i < k2.len(),
        k1[i] != k2[i],
        'A' <= k1[i] <= 'Z',
        'A' <= k2[i] <= 'Z',
    ensures
        !(spells_keyword(v, k1) && spells_keyword(v, k2)),
{
    if spells_keyword(v, k1) && spells_keyword(v, k2) {
        assert(same_letter(v[i], k1[i]));
        assert(same_letter(v[i], k2[i]));
    }
}

/// No token is two of the keywords that start a statement.
proof fn lemma_statement_keywords_exclusive(ts: Seq<Located>, i: int)
    ensures
        !(keyword_at(ts, i, "MATCH"@) && keyword_at(ts, i, "MERGE"@)),
        !(keyword_at(ts, i, "CREATE"@) && keyword_at(ts, i, "DELETE"@)),
        !(keyword_at(ts, i, "CREATE"@) && keyword_at(ts, i, "DETACH"@)),
        !(keyword_at(ts, i, "DELETE"@) && keyword_at(ts, i, "DETACH"@)),
        !(keyword_at(ts, i, "MATCH"@) && keyword_at(ts, i, "DELETE"@)),
        !(keyword_at(ts, i, "MATCH"@) && keyword_at(ts, i, "DETACH"@)),
        !(keyword_at(ts, i, "MATCH"@) && keyword_at(ts, i, "CREATE"@)),
        !(keyword_at(ts, i, "MERGE"@) && keyword_at(ts, i, "DELETE"@)),
        !(keyword_at(ts, i, "MERGE"@) && keyword_at(ts, i, "DETACH"@)),
        !(keyword_at(ts, i, "OPTIONAL"@) && keyword_at(ts, i, "MATCH"@)),
        !(keyword_at(ts, i, "OPTIONAL"@) && keyword_at(ts, i, "CREATE"@)),
        !(keyword_at(ts, i, "OPTIONAL"@) && keyword_at(ts, i, "MERGE"@)),
        !(keyword_at(ts, i, "OPTIONAL"@) && keyword_at(ts, i, "DELETE"@)),
        !(keyword_at(ts, i, "OPTIONAL"@) && keyword_at(ts, i, "DETACH"@)),
        !(keyword_at(ts, i, "CREATE"@) && keyword_at(ts, i, "MERGE"@)),
{
    reveal_strlit("MATCH");
    reveal_strlit("OPTIONAL");
    reveal_strlit("CREATE");
    reveal_strlit("MERGE");
    reveal_strlit("DELETE");
    reveal_strlit("DETACH");
    if 0 <= i < ts.len() {
        if let Token::Word { value, quote_style } = ts[i].token {
            let v = value@;
            lemma_keywords_differ(v, "MATCH"@, "MERGE"@, 1);
            lemma_keywords_differ(v, "CREATE"@, "DELETE"@, 0);
            lemma_keywords_differ(v, "CREATE"@, "DETACH"@, 0);
            lemma_keywords_differ(v, "DELETE"@, "DETACH"@, 2);
        }
    }
}

/// `Expected: <what>, found: <the text of the token at i, or EOF>`.
pub open spec fn expected_message(ts: Seq<Located>, i: int, what: Seq<char>) -> Seq<char> {
    "Expected: "@ + what + ", found: "@ + if 0 <= i < ts.len() {
        ts[i].text@
    } else {
        "EOF"@
    }
}

/// The variable that a SET target names.
pub open spec fn target_variable(t: SetTarget) -> Ident {
    match t {
        SetTarget::Property { variable, .. } => variable,
        SetTarget::Variable(v) => v,
        SetTarget::Label { variable, .. } => variable,
    }
}

/// The error of OPTIONAL without MATCH, or DETACH without DELETE, at place `i`.
pub open spec fn statement_opening_error(ts: Seq<Located>, i: int) -> Option<Seq<char>> {
    let k = skip_ws(ts, i + 1);
    if keyword_at(ts, i, "OPTIONAL"@) && !keyword_at(ts, k, "MATCH"@) {
        Some(expected_message(ts, k, "MATCH"@))
    } else if keyword_at(ts, i, "DETACH"@) && !keyword_at(ts, k, "DELETE"@) {
        Some(expected_message(ts, k, "DELETE"@))
    } else {
        None
    }
}

/// The error of the patterns of a statement that opens at place `i`.
pub open spec fn statement_patterns_error(ts: Seq<Located>, i: int) -> Option<Seq<char>> {
    let k = skip_ws(ts, i + 1);
    if keyword_at(ts, i, "MATCH"@) || keyword_at(ts, i, "CREATE"@) || keyword_at(ts, i, "MERGE"@) {
        patterns_error(ts, i + 1)
    } else if keyword_at(ts, i, "OPTIONAL"@) && keyword_at(ts, k, "MATCH"@) {
        patterns_error(ts, k + 1)
    } else {
        None
    }
}

/// A numeric token at place `i` whose text is no count.
pub open spec fn bad_count_at(ts: Seq<Located>, i: int) -> bool {
    number_at(ts, i) matches Some(t) && count_value(t) is None && trailing_dot_count(t) is None
}

/// A length read at place `p` whose lower bound, or whose upper bound after
/// `..`, is a numeric token that is no count.
pub open spec fn length_invalid(ts: Seq<Located>, p: int) -> bool {
    let j = skip_ws(ts, p);
    let dots_from = if number_at(ts, j) is Some { j + 1 } else { p };
    let k = skip_ws(ts, dots_from);
    let k2 = skip_ws(ts, k + 1);
    ||| bad_count_at(ts, j)
    ||| (number_at(ts, j) is None || count_value(number_at(ts, j)->Some_0) is Some) && punct_at(ts, k, Punct::Period)
        && punct_at(ts, k2, Punct::Period) && bad_count_at(ts, skip_ws(ts, k2 + 1))
}

/// The WHERE and RETURN parts of a MATCH whose patterns end at `e` read
/// without error.
pub open spec fn match_rest_reads(q: Seq<char>, ts: Seq<Located>, e: int) -> bool {
    match clause_expr_grammar(q, ts, e, "WHERE"@) {
        Some((_, e1)) => keyword_at(ts, skip_ws(ts, e1), "RETURN"@) ==> return_grammar(q, ts, skip_ws(ts, e1) + 1) is Some,
        None => false,
    }
}

/// What a MATCH gives once its patterns, with these shapes, end at place `e`:
/// its WHERE text, and its RETURN clause where one follows.
pub open spec fn match_result(q: Seq<char>, ts: Seq<Located>, e: int, shapes: Seq<Seq<ElementShape>>, optional: bool,
    r: Result<CypherStatement, ParseError>) -> bool
{
    match clause_expr_grammar(q, ts, e, "WHERE"@) {
        Some((w, e1)) => {
            let k = skip_ws(ts, e1);
            if keyword_at(ts, k, "RETURN"@) {
                match return_grammar(q, ts, k + 1) {
                    Some((d, its, ks, sk, li, _)) => r matches Ok(CypherStatement::Match { optional: o, patterns, where_clause, return_clause: Some(c) })
                        && o == optional && patterns_shapes(patterns@) == shapes && expr_text_of(where_clause) == w
                        && c.distinct == d && c.items@ == its && keys_view(c.order_by@) == ks && expr_text_of(c.skip) == sk
                        && expr_text_of(c.limit) == li,
                    None => r matches Err(x) && return_error(q, ts, k + 1) == Some(x.message@),
                }
            } else {
                r matches Ok(CypherStatement::Match { optional: o, patterns, where_clause, return_clause: None })
                    && o == optional && patterns_shapes(patterns@) == shapes && expr_text_of(where_clause) == w
            }
        },
        None => r matches Err(x) && clause_expr_error(q, ts, e, "WHERE"@) == Some(x.message@),
    }
}

/// What a MATCH gives once its patterns, with these shapes, end at place `e`
/// and neither WHERE nor RETURN follows: the bare MATCH.
pub open spec fn bare_match(ts: Seq<Located>, e: int, shapes: Seq<Seq<ElementShape>>, optional: bool, r: Result<CypherStatement, ParseError>) -> bool {
    !keyword_at(ts, skip_ws(ts, e), "WHERE"@) && !keyword_at(ts, skip_ws(ts, e), "RETURN"@)
        ==> (r matches Ok(CypherStatement::Match { optional: o, patterns, where_clause: None, return_clause: None })
        && o == optional && patterns_shapes(patterns@) == shapes)
}

/// What a MERGE gives once its patterns, with these shapes, end at place `e`:
/// with no `ON` next, the bare MERGE; with `ON` followed by neither CREATE nor
/// MATCH, the error that says so.
pub open spec fn merge_tail(ts: Seq<Located>, e: int, shapes: Seq<Seq<ElementShape>>, r: Result<CypherStatement, ParseError>) -> bool {
    let q = skip_ws(ts, e);
    let k = skip_ws(ts, q + 1);
    &&& !keyword_at(ts, q, "ON"@) ==> (r matches Ok(CypherStatement::Merge { patterns, on_create: None, on_match: None })
        && patterns_shapes(patterns@) == shapes)
    &&& keyword_at(ts, q, "ON"@) && !keyword_at(ts, k, "CREATE"@) && !keyword_at(ts, k, "MATCH"@)
        ==> (r matches Err(x) && x.message@ == expected_message(ts, k, "CREATE or MATCH after ON"@))
}

/// The SET clauses of a block, as targets and value texts.
pub open spec fn opt_clauses_view(c: Option<Vec<SetClause>>) -> Option<Seq<(SetTarget, Seq<char>)>> {
    match c {
        Some(v) => Some(clauses_view(v@)),
        None => None,
    }
}

/// `ON CREATE SET ...` and `ON MATCH SET ...` blocks read at place `p`, in
/// any number and order, a later block of a kind replacing an earlier one;
/// `on_create` and `on_match` are what the blocks before `p` gave.
pub open spec fn merge_blocks(q: Seq<char>, ts: Seq<Located>, p: int,
    on_create: Option<Seq<(SetTarget, Seq<char>)>>, on_match: Option<Seq<(SetTarget, Seq<char>)>>)
    -> Option<(Option<Seq<(SetTarget, Seq<char>)>>, Option<Seq<(SetTarget, Seq<char>)>>, int)>
    decreases ts.len() - p,
{
    let o = skip_ws(ts, p);
    let k = skip_ws(ts, o + 1);
    let st = skip_ws(ts, k + 1);
    if !keyword_at(ts, o, "ON"@) {
        Some((on_create, on_match, p))
    } else if (keyword_at(ts, k, "CREATE"@) || keyword_at(ts, k, "MATCH"@)) && keyword_at(ts, st, "SET"@) {
        match set_clauses_grammar(q, ts, st + 1) {
            Some((cs, e)) => if p < e <= ts.len() {
                if keyword_at(ts, k, "CREATE"@) {
                    merge_blocks(q, ts, e, Some(cs), on_match)
                } else {
                    merge_blocks(q, ts, e, on_create, Some(cs))
                }
            } else {
                None
            },
            None => None,
        }
    } else {
        None
    }
}

/// A SET target read at place `p`: `var.prop`, `var:Label` or `var`.
pub open spec fn set_target_grammar(ts: Seq<Located>, p: int) -> Option<(SetTarget, int)> {
    match ident_grammar(ts, p) {
        Some((v, e)) => {
            let q = skip_ws(ts, e);
            if punct_at(ts, q, Punct::Period) {
                match ident_grammar(ts, q + 1) {
                    Some((property, e2)) => Some((SetTarget::Property { variable: v, property }, e2)),
                    None => None,
                }
            } else if punct_at(ts, q, Punct::Colon) {
                match ident_grammar(ts, q + 1) {
                    Some((label, e2)) => Some((SetTarget::Label { variable: v, label }, e2)),
                    None => None,
                }
            } else {
                Some((SetTarget::Variable(v), e))
            }
        },
        None => None,
    }
}

/// `target = value` read at place `p`: the target, the value's text and the place after it.
pub open spec fn set_clause_grammar(q: Seq<char>, ts: Seq<Located>, p: int) -> Option<(SetTarget, Seq<char>, int)> {
    match set_target_grammar(ts, p) {
        Some((t, e)) => {
            let k = skip_ws(ts, e);
            if punct_at(ts, k, Punct::Eq) {
                match expr_read(q, k + 1) {
                    Ok((v, n)) => Some((t, v, advanced(ts, k + 1, n))),
                    Err(_) => None,
                }
            } else {
                None
            }
        },
        None => None,
    }
}

pub open spec fn clauses_view(cs: Seq<SetClause>) -> Seq<(SetTarget, Seq<char>)> {
    cs.map_values(|c: SetClause| (c.target, c.value.text@))
}

/// Comma-separated SET assignments read at place `p`.
pub open spec fn set_clauses_grammar(q: Seq<char>, ts: Seq<Located>, p: int) -> Option<(Seq<(SetTarget, Seq<char>)>, int)>
    decreases ts.len() - p,
{
    match set_clause_grammar(q, ts, p) {
        Some((t, v, e)) => {
            let c = skip_ws(ts, e);
            if punct_at(ts, c, Punct::Comma) && p < c {
                match set_clauses_grammar(q, ts, c + 1) {
                    Some((rest, e2)) => Some((seq![(t, v)] + rest, e2)),
                    None => None,
                }
            } else {
                Some((seq![(t, v)], e))
            }
        },
        None => None,
    }
}

pub open spec fn exprs_view(es: Seq<Expr>) -> Seq<Seq<char>> {
    es.map_values(|e: Expr| e.text@)
}

/// Comma-separated expressions read at place `p`: their texts and the place after them.
pub open spec fn exprs_grammar(q: Seq<char>, ts: Seq<Located>, p: int) -> Option<(Seq<Seq<char>>, int)>
    decreases ts.len() - p,
{
    match expr_read(q, p) {
        Ok((t, n)) => {
            let e = advanced(ts, p, n);
            let c = skip_ws(ts, e);
            if punct_at(ts, c, Punct::Comma) && p <= c {
                match exprs_grammar(q, ts, c + 1) {
                    Some((rest, e2)) => Some((seq![t] + rest, e2)),
                    None => None,
                }
            } else {
                Some((seq![t], e))
            }
        },
        Err(_) => None,
    }
}

/// The DELETE statement with these target and WHERE texts.
pub open spec fn deleted(r: Result<CypherStatement, ParseError>, detach: bool, what: Seq<Seq<char>>, w: Option<Seq<char>>) -> bool {
    r matches Ok(CypherStatement::Delete { detach: d, what: targets, where_clause })
        && d == detach && exprs_view(targets@) == what && expr_text_of(where_clause) == w
}

/// The expression parser's message on the first failing expression of a
/// comma-separated list read at place `p`.
pub open spec fn exprs_error(q: Seq<char>, ts: Seq<Located>, p: int) -> Option<Seq<char>>
    decreases ts.len() - p,
{
    match expr_read(q, p) {
        Err(m) => Some(m),
        Ok((_, n)) => {
            let c = skip_ws(ts, advanced(ts, p, n));
            if punct_at(ts, c, Punct::Comma) && p <= c {
                exprs_error(q, ts, c + 1)
            } else {
                None
            }
        },
    }
}

/// The message on which the targets or the WHERE of a DELETE read at place `p` fail.
pub open spec fn delete_error(q: Seq<char>, ts: Seq<Located>, p: int) -> Option<Seq<char>> {
    match exprs_error(q, ts, p) {
        Some(m) => Some(m),
        None => match exprs_grammar(q, ts, p) {
            Some((_, e)) => clause_expr_error(q, ts, e, "WHERE"@),
            None => None,
        },
    }
}

/// The targets and optional WHERE of a DELETE read at place `p`, after DELETE.
pub open spec fn delete_grammar(q: Seq<char>, ts: Seq<Located>, p: int)
    -> Option<(Seq<Seq<char>>, Option<Seq<char>>, int)>
{
    match exprs_grammar(q, ts, p) {
        Some((what, e)) => match clause_expr_grammar(q, ts, e, "WHERE"@) {
            Some((w, e2)) => Some((what, w, e2)),
            None => None,
        },
        None => None,
    }
}

/// The patterns of a statement, if it has any.
pub open spec fn statement_patterns(s: CypherStatement) -> Option<Vec<Pattern>> {
    match s {
        CypherStatement::Match { patterns, .. } => Some(patterns),
        CypherStatement::Create { patterns } => Some(patterns),
        CypherStatement::Merge { patterns, .. } => Some(patterns),
        CypherStatement::Delete { .. } => None,
    }
}

/// The patterns read after the keywords that open a statement at place `i`:
/// after MATCH, OPTIONAL MATCH, CREATE or MERGE.
pub open spec fn patterns_after(ts: Seq<Located>, i: int) -> Option<(Seq<Seq<ElementShape>>, int)> {
    if keyword_at(ts, i, "MATCH"@) || keyword_at(ts, i, "CREATE"@) || keyword_at(ts, i, "MERGE"@) {
        patterns_grammar(ts, i + 1)
    } else if keyword_at(ts, i, "OPTIONAL"@) {
        patterns_grammar(ts, skip_ws(ts, i + 1) + 1)
    } else {
        None
    }
}

/// Map entries as keys and value texts.
pub open spec fn entries_view(es: Seq<(Ident, Expr)>) -> Seq<(Ident, Seq<char>)> {
    es.map_values(|kv: (Ident, Expr)| (kv.0, kv.1.text@))
}

/// `key: value, ...` read at place `p`, up to the closing brace: the keys and
/// the texts that the expression parser gives for the values.
pub open spec fn map_entries_grammar(q: Seq<char>, ts: Seq<Located>, p: int) -> Option<(Seq<(Ident, Seq<char>)>, int)>
    decreases ts.len() - p,
{
    match ident_grammar(ts, p) {
        Some((k, e1)) => {
            let c = skip_ws(ts, e1);
            if punct_at(ts, c, Punct::Colon) {
                match expr_read(q, c + 1) {
                    Ok((t, n)) => {
                        let e2 = advanced(ts, c + 1, n);
                        let q2 = skip_ws(ts, e2);
                        if punct_at(ts, q2, Punct::Comma) && p < q2 {
                            match map_entries_grammar(q, ts, q2 + 1) {
                                Some((rest, e3)) => Some((seq![(k, t)] + rest, e3)),
                                None => None,
                            }
                        } else {
                            Some((seq![(k, t)], e2))
                        }
                    },
                    Err(_) => None,
                }
            } else {
                None
            }
        },
        None => None,
    }
}

/// A map read at place `p`, just after its `{`: its entries and the place
/// after its `}`.
pub open spec fn map_grammar(q: Seq<char>, ts: Seq<Located>, p: int) -> Option<(Seq<(Ident, Seq<char>)>, int)> {
    let c = skip_ws(ts, p);
    if punct_at(ts, c, Punct::RBrace) {
        Some((Seq::empty(), c + 1))
    } else {
        match map_entries_grammar(q, ts, p) {
            Some((es, e)) => {
                let d = skip_ws(ts, e);
                if punct_at(ts, d, Punct::RBrace) { Some((es, d + 1)) } else { None }
            },
            None => None,
        }
    }
}

/// `{key: value, ...}` read at place `p`, with its braces.
pub open spec fn braced_map_grammar(q: Seq<char>, ts: Seq<Located>, p: int) -> Option<(Seq<(Ident, Seq<char>)>, int)> {
    let b = skip_ws(ts, p);
    if punct_at(ts, b, Punct::LBrace) {
        map_grammar(q, ts, b + 1)
    } else {
        None
    }
}

/// The inside of `[...]` with a property map, read at place `p` just after
/// `[`: variable, types, length, entries, and the place after the `]`.
pub open spec fn bracket_map_grammar(q: Seq<char>, ts: Seq<Located>, p: int)
    -> Option<(Option<Ident>, Seq<Ident>, Option<RelationshipLength>, Seq<(Ident, Seq<char>)>, int)>
{
    let qq = skip_ws(ts, p);
    let named = word_at(ts, qq) && (punct_at(ts, skip_ws(ts, qq + 1), Punct::Colon)
        || punct_at(ts, skip_ws(ts, qq + 1), Punct::RBracket));
    let variable = if named { ident_of(ts[qq].token) } else { None };
    let at1 = if named { qq + 1 } else { p };
    match types_grammar(ts, at1) {
        Some((types, at2)) => {
            let q2 = skip_ws(ts, at2);
            let star = punct_at(ts, q2, Punct::Star);
            let length = if star { length_grammar(ts, q2 + 1) } else { Some((RelationshipLength::Variable, at2)) };
            match length {
                Some((l, at3)) => match braced_map_grammar(q, ts, at3) {
                    Some((es, e)) => {
                        let q3 = skip_ws(ts, e);
                        if punct_at(ts, q3, Punct::RBracket) {
                            Some((variable, types, if star { Some(l) } else { None }, es, q3 + 1))
                        } else {
                            None
                        }
                    },
                    None => None,
                },
                None => None,
            }
        },
        None => None,
    }
}

/// A relationship with a property map read at place `p`: its shape, its
/// entries, and the place after it.
pub open spec fn relationship_map_grammar(q: Seq<char>, ts: Seq<Located>, p: int)
    -> Option<(ElementShape, Seq<(Ident, Seq<char>)>, int)>
{
    let q0 = skip_ws(ts, p);
    let left = punct_at(ts, q0, Punct::Lt);
    let at1 = if left { q0 + 1 } else { p };
    let q1 = skip_ws(ts, at1);
    let q2 = skip_ws(ts, q1 + 1);
    if !punct_at(ts, q1, Punct::Minus) || !punct_at(ts, q2, Punct::LBracket) {
        None
    } else {
        match bracket_map_grammar(q, ts, q2 + 1) {
            Some((variable, types, length, es, at3)) => {
                let q3 = skip_ws(ts, at3);
                if punct_at(ts, q3, Punct::Arrow) {
                    Some((ElementShape::Relationship { variable, types, direction: direction_of(left, true), length }, es, q3 + 1))
                } else if punct_at(ts, q3, Punct::Minus) {
                    let q4 = skip_ws(ts, q3 + 1);
                    if punct_at(ts, q4, Punct::Gt) {
                        Some((ElementShape::Relationship { variable, types, direction: direction_of(left, true), length }, es, q4 + 1))
                    } else {
                        Some((ElementShape::Relationship { variable, types, direction: direction_of(left, false), length }, es, q3 + 1))
                    }
                } else {
                    None
                }
            },
            None => None,
        }
    }
}

/// A pattern element's shape and its property map's entries, if it has one.
pub open spec fn element_view(e: PatternElement) -> (ElementShape, Option<Seq<(Ident, Seq<char>)>>) {
    let props = match e {
        PatternElement::Node { properties, .. } => properties,
        PatternElement::Relationship { properties, .. } => properties,
    };
    (shape_of(e), match props {
        Some(m) => Some(entries_view(m.entries@)),
        None => None,
    })
}

/// A node read at place `p`, just after its `(`, with or without a property map.
pub open spec fn full_node_grammar(q: Seq<char>, ts: Seq<Located>, p: int)
    -> Option<((ElementShape, Option<Seq<(Ident, Seq<char>)>>), int)>
{
    match node_grammar(ts, p) {
        Some((sh, e)) => Some(((sh, None), e)),
        None => match node_map_grammar(q, ts, p) {
            Some((variable, labels, es, e)) => Some(((ElementShape::Node { variable, labels }, Some(es)), e)),
            None => None,
        },
    }
}

/// A relationship read at place `p`, with or without a property map.
pub open spec fn full_relationship_grammar(q: Seq<char>, ts: Seq<Located>, p: int)
    -> Option<((ElementShape, Option<Seq<(Ident, Seq<char>)>>), int)>
{
    match relationship_grammar(ts, p) {
        Some((sh, e)) => Some(((sh, None), e)),
        None => match relationship_map_grammar(q, ts, p) {
            Some((sh, es, e)) => Some(((sh, Some(es)), e)),
            None => None,
        },
    }
}

/// Relationship-and-node steps read at place `p`, property maps included.
pub open spec fn full_chain_grammar(q: Seq<char>, ts: Seq<Located>, p: int)
    -> Option<(Seq<(ElementShape, Option<Seq<(Ident, Seq<char>)>>)>, int)>
    decreases ts.len() - p,
{
    let k = skip_ws(ts, p);
    if punct_at(ts, k, Punct::Minus) || punct_at(ts, k, Punct::Lt) {
        match full_relationship_grammar(q, ts, p) {
            Some((rel, e1)) => {
                let k1 = skip_ws(ts, e1);
                if punct_at(ts, k1, Punct::LParen) {
                    match full_node_grammar(q, ts, k1 + 1) {
                        Some((node, e2)) => if p < e2 <= ts.len() {
                            match full_chain_grammar(q, ts, e2) {
                                Some((rest, e3)) => Some((seq![rel, node] + rest, e3)),
                                None => None,
                            }
                        } else {
                            None
                        },
                        None => None,
                    }
                } else {
                    None
                }
            },
            None => None,
        }
    } else {
        Some((Seq::empty(), p))
    }
}

/// A pattern read at place `p`, property maps included: each element's shape
/// and entries, and the place after it.
pub open spec fn full_pattern_grammar(q: Seq<char>, ts: Seq<Located>, p: int)
    -> Option<(Seq<(ElementShape, Option<Seq<(Ident, Seq<char>)>>)>, int)>
{
    let k = skip_ws(ts, p);
    if punct_at(ts, k, Punct::LParen) {
        match full_node_grammar(q, ts, k + 1) {
            Some((node, e1)) => match full_chain_grammar(q, ts, e1) {
                Some((rest, e2)) => Some((seq![node] + rest, e2)),
                None => None,
            },
            None => None,
        }
    } else {
        None
    }
}

/// Comma-separated patterns read at place `p`, property maps included.
pub open spec fn full_patterns_grammar(q: Seq<char>, ts: Seq<Located>, p: int)
    -> Option<(Seq<Seq<(ElementShape, Option<Seq<(Ident, Seq<char>)>>)>>, int)>
    decreases ts.len() - p,
{
    match full_pattern_grammar(q, ts, p) {
        Some((vs, e)) => {
            let k = skip_ws(ts, e);
            if punct_at(ts, k, Punct::Comma) && p < k {
                match full_patterns_grammar(q, ts, k + 1) {
                    Some((rest, e2)) => Some((seq![vs] + rest, e2)),
                    None => None,
                }
            } else {
                Some((seq![vs], e))
            }
        },
        None => None,
    }
}

/// Each pattern's element views.
pub open spec fn patterns_views(ps: Seq<Pattern>) -> Seq<Seq<(ElementShape, Option<Seq<(Ident, Seq<char>)>>)>> {
    ps.map_values(|p: Pattern| p@.map_values(|el: PatternElement| element_view(el)))
}

/// A node with a property map read at place `p`, just after its `(`: its
/// variable, labels and entries, and the place after its `)`.
pub open spec fn node_map_grammar(q: Seq<char>, ts: Seq<Located>, p: int)
    -> Option<(Option<Ident>, Seq<Ident>, Seq<(Ident, Seq<char>)>, int)>
{
    let qq = skip_ws(ts, p);
    let variable = if word_at(ts, qq) { ident_of(ts[qq].token) } else { None };
    let at1 = if word_at(ts, qq) { qq + 1 } else { p };
    match labels_grammar(ts, at1) {
        Some((labels, at2)) => match braced_map_grammar(q, ts, at2) {
            Some((es, e)) => {
                let f = skip_ws(ts, e);
                if punct_at(ts, f, Punct::RParen) { Some((variable, labels, es, f + 1)) } else { None }
            },
            None => None,
        },
        None => None,
    }
}

pub open spec fn expr_text_of(e: Option<Expr>) -> Option<Seq<char>> {
    match e {
        Some(e) => Some(e.text@),
        None => None,
    }
}

pub open spec fn keys_view(ks: Seq<OrderKey>) -> Seq<(Seq<char>, Seq<char>)> {
    ks.map_values(|k: OrderKey| (k.expr.text@, k.options@))
}

/// `kw expr` read at place `p` if the keyword comes next: the expression's
/// text, or none, and the place after it.
pub open spec fn clause_expr_grammar(q: Seq<char>, ts: Seq<Located>, p: int, kw: Seq<char>) -> Option<(Option<Seq<char>>, int)> {
    let k = skip_ws(ts, p);
    if keyword_at(ts, k, kw) {
        match expr_read(q, k + 1) {
            Ok((t, n)) => Some((Some(t), advanced(ts, k + 1, n))),
            Err(_) => None,
        }
    } else {
        Some((None, p))
    }
}

/// The expression parser's message where `kw expr` at place `p` fails on its expression.
pub open spec fn clause_expr_error(q: Seq<char>, ts: Seq<Located>, p: int, kw: Seq<char>) -> Option<Seq<char>> {
    let k = skip_ws(ts, p);
    if keyword_at(ts, k, kw) {
        match expr_read(q, k + 1) {
            Err(m) => Some(m),
            Ok(_) => None,
        }
    } else {
        None
    }
}

/// The message of the projection, ORDER BY, SKIP or LIMIT parse on which a
/// RETURN clause read at place `p` fails.
pub open spec fn return_error(q: Seq<char>, ts: Seq<Located>, p: int) -> Option<Seq<char>> {
    let d = skip_ws(ts, p);
    let a = if keyword_at(ts, d, "DISTINCT"@) { d + 1 } else { p };
    match projection_read(q, a) {
        Err(m) => Some(m),
        Ok((_, n)) => {
            let e1 = advanced(ts, a, n);
            let o = skip_ws(ts, e1);
            let b = skip_ws(ts, o + 1);
            let keys = if keyword_at(ts, o, "ORDER"@) && keyword_at(ts, b, "BY"@) {
                match order_key_read(q, b + 1) {
                    Ok((_, _, n2)) => Ok(advanced(ts, b + 1, n2)),
                    Err(m) => Err(m),
                }
            } else {
                Ok(e1)
            };
            match keys {
                Err(m) => Some(m),
                Ok(e2) => match clause_expr_error(q, ts, e2, "SKIP"@) {
                    Some(m) => Some(m),
                    None => match clause_expr_grammar(q, ts, e2, "SKIP"@) {
                        Some((_, e3)) => clause_expr_error(q, ts, e3, "LIMIT"@),
                        None => None,
                    },
                },
            }
        },
    }
}

/// A RETURN clause read at place `p`, after RETURN: whether DISTINCT, the
/// items, the ORDER BY key (expression and modifiers), the SKIP and LIMIT texts, and the
/// place after it. SKIP is read only before LIMIT.
pub open spec fn return_grammar(q: Seq<char>, ts: Seq<Located>, p: int)
    -> Option<(bool, Seq<ReturnItem>, Seq<(Seq<char>, Seq<char>)>, Option<Seq<char>>, Option<Seq<char>>, int)>
{
    let d = skip_ws(ts, p);
    let distinct = keyword_at(ts, d, "DISTINCT"@);
    let a = if distinct { d + 1 } else { p };
    match projection_read(q, a) {
        Ok((items, n)) => {
            let e1 = advanced(ts, a, n);
            let o = skip_ws(ts, e1);
            let b = skip_ws(ts, o + 1);
            let keys = if keyword_at(ts, o, "ORDER"@) && keyword_at(ts, b, "BY"@) {
                match order_key_read(q, b + 1) {
                    Ok((t, opts, n2)) => Some((seq![(t, opts)], advanced(ts, b + 1, n2))),
                    Err(_) => None,
                }
            } else {
                Some((Seq::empty(), e1))
            };
            match keys {
                Some((ks, e2)) => match clause_expr_grammar(q, ts, e2, "SKIP"@) {
                    Some((skip, e3)) => match clause_expr_grammar(q, ts, e3, "LIMIT"@) {
                        Some((limit, e4)) => Some((distinct, items, ks, skip, limit, e4)),
                        None => None,
                    },
                    None => None,
                },
                None => None,
            }
        },
        Err(_) => None,
    }
}

/// The place `n` tokens after `p`, or the end.
pub open spec fn advanced(ts: Seq<Located>, p: int, n: int) -> int {
    if p + n > ts.len() { ts.len() as int } else { p + n }
}

/// A parser over one statement's tokens, at a position of them.
pub struct Parser {
    tokens: TokenStream,
    index: usize,
}

impl Parser {
    pub closed spec fn wf(&self) -> bool {
        &&& self.tokens.wf()
        &&& self.index <= self.tokens@.len()
        &&& self.tokens@.len() <= usize::MAX
    }

    /// The tokens, whitespace included.
    pub closed spec fn tokens(&self) -> Seq<Located> {
        self.tokens@
    }

    /// The query that the tokens were read from.
    pub closed spec fn query(&self) -> Seq<char> {
        self.tokens.query()
    }

    /// The place of the first token not yet read.
    pub closed spec fn pos(&self) -> int {
        self.index as int
    }

    /// The place of the next token that is not whitespace, or the end.
    pub open spec fn next_pos(&self) -> int {
        skip_ws(self.tokens(), self.pos())
    }

    /// `next` is `self` after reading on: same tokens, a place no earlier.
    pub open spec fn moved_to(&self, next: &Parser) -> bool {
        &&& next.wf()
        &&& next.tokens() == self.tokens()
        &&& next.query() == self.query()
        &&& self.pos() <= next.pos()
    }

    /// A parser at the start of the tokens.
    pub fn new(tokens: TokenStream) -> (r: Parser)
        requires
            tokens.wf(),
        ensures
            r.wf(),
            r.tokens() == tokens@,
            r.query() == tokens.query(),
            r.pos() == 0,
    {
        let _ = tokens.len();
        Parser { tokens, index: 0 }
    }

    /// Tokenizes `query` and places a parser at its start.
    pub fn from_query(query: &str) -> (r: Result<Parser, ParseError>)
        ensures
            r is Ok <==> lexed(query@) is Some,
            r matches Ok(p) ==> p.wf() && p.pos() == 0 && p.tokens() == query_tokens(query@) && p.query() == query@,
    {
        match TokenStream::tokenize(query) {
            Ok(tokens) => Ok(Parser::new(tokens)),
            Err(e) => Err(e),
        }
    }

    /// The place of the first token not yet read.
    pub fn index(&self) -> (r: usize)
        ensures
            r == self.pos(),
    {
        self.index
    }

    fn skip_from(&self, from: usize) -> (r: usize)
        requires
            self.wf(),
            from <= self.tokens@.len(),
        ensures
            r == skip_ws(self.tokens(), from as int),
            from <= r <= self.tokens@.len(),
    {
        let n = self.tokens.len();
        let mut i = from;
        while i < n && matches!(self.tokens.get(i).token, Token::Whitespace)
            invariant
                self.wf(),
                n == self.tokens@.len(),
                from <= i <= n,
                skip_ws(self.tokens(), i as int) == skip_ws(self.tokens(), from as int),
            decreases n - i,
        {
            i = i + 1;
        }
        i
    }

    fn peek_index(&self) -> (r: usize)
        requires
            self.wf(),
        ensures
            r == self.next_pos(),
            self.pos() <= r <= self.tokens().len(),
    {
        self.skip_from(self.index)
    }

    /// The place of the significant token after the next one.
    fn second_index(&self) -> (r: usize)
        requires
            self.wf(),
        ensures
            r <= self.tokens().len(),
            self.next_pos() < self.tokens().len() ==> r == skip_ws(self.tokens(), self.next_pos() + 1),
    {
        let i = self.peek_index();
        if i == self.tokens.len() {
            i
        } else {
            self.skip_from(i + 1)
        }
    }

    fn punct_at(&self, i: usize, p: Punct) -> (r: bool)
        requires
            self.wf(),
        ensures
            r == punct_at(self.tokens(), i as int, p),
    {
        if i < self.tokens.len() {
            match &self.tokens.get(i).token {
                Token::Punct(q) => *q == p,
                _ => false,
            }
        } else {
            false
        }
    }

    fn word_at(&self, i: usize) -> (r: bool)
        requires
            self.wf(),
        ensures
            r == word_at(self.tokens(), i as int),
    {
        i < self.tokens.len() && matches!(self.tokens.get(i).token, Token::Word { .. })
    }

    fn peek_punct(&self, p: Punct) -> (r: bool)
        requires
            self.wf(),
        ensures
            r == punct_at(self.tokens(), self.next_pos(), p),
    {
        let i = self.peek_index();
        self.punct_at(i, p)
    }

    /// Reads the punctuation `p` if it comes next.
    fn consume_punct(&mut self, p: Punct) -> (r: bool)
        requires
            old(self).wf(),
        ensures
            old(self).moved_to(final(self)),
            r == punct_at(old(self).tokens(), old(self).next_pos(), p),
            r ==> final(self).pos() == old(self).next_pos() + 1 && final(self).pos() > old(self).pos(),
            !r ==> final(self).pos() == old(self).pos(),
    {
        let i = self.peek_index();
        if self.punct_at(i, p) {
            self.index = i + 1;
            true
        } else {
            false
        }
    }

    fn peek_keyword(&self, kw: &str) -> (r: bool)
        requires
            self.wf(),
        ensures
            r == keyword_at(self.tokens(), self.next_pos(), kw@),
    {
        let i = self.peek_index();
        if i < self.tokens.len() {
            match &self.tokens.get(i).token {
                Token::Word { value, quote_style } => quote_style.is_none() && eq_ignore_case(value.as_str(), kw),
                _ => false,
            }
        } else {
            false
        }
    }

    /// Reads the keyword `kw` if it comes next.
    fn parse_keyword(&mut self, kw: &str) -> (r: bool)
        requires
            old(self).wf(),
        ensures
            old(self).moved_to(final(self)),
            r == keyword_at(old(self).tokens(), old(self).next_pos(), kw@),
            r ==> final(self).pos() == old(self).next_pos() + 1 && final(self).pos() > old(self).pos(),
            !r ==> final(self).pos() == old(self).pos(),
    {
        if self.peek_keyword(kw) {
            self.index = self.peek_index() + 1;
            true
        } else {
            false
        }
    }

    /// The error for a next token that is not `what`.
    fn expected(&self, what: &str) -> (r: ParseError)
        requires
            self.wf(),
        ensures
            r.message@ == expected_message(self.tokens(), self.next_pos(), what@),
            self.next_pos() < self.tokens().len() ==> r.line == self.tokens()[self.next_pos()].line
                && r.column == self.tokens()[self.next_pos()].column,
            self.next_pos() >= self.tokens().len() ==> r.line == 0 && r.column == 0,
    {
        proof {
            reveal_strlit("Expected: ");
            reveal_strlit(", found: ");
            reveal_strlit("EOF");
        }
        let i = self.peek_index();
        let mut message = String::from_str("Expected: ");
        push_text(&mut message, what);
        push_text(&mut message, ", found: ");
        if i < self.tokens.len() {
            let t = self.tokens.get(i);
            push_text(&mut message, t.text.as_str());
            assert(message@ =~= "Expected: "@ + what@ + ", found: "@ + t.text@);
            ParseError { message, line: t.line, column: t.column }
        } else {
            push_text(&mut message, "EOF");
            assert(message@ =~= "Expected: "@ + what@ + ", found: "@ + "EOF"@);
            ParseError { message, line: 0, column: 0 }
        }
    }

    fn expect_keyword(&mut self, kw: &str) -> (r: Result<(), ParseError>)
        requires
            old(self).wf(),
        ensures
            old(self).moved_to(final(self)),
            r is Ok == keyword_at(old(self).tokens(), old(self).next_pos(), kw@),
            r is Ok ==> final(self).pos() == old(self).next_pos() + 1 && final(self).pos() > old(self).pos(),
            r matches Err(e) ==> e.message@ == expected_message(old(self).tokens(), old(self).next_pos(), kw@),
    {
        if self.parse_keyword(kw) {
            Ok(())
        } else {
            Err(self.expected(kw))
        }
    }

    fn expect_punct(&mut self, p: Punct) -> (r: Result<(), ParseError>)
        requires
            old(self).wf(),
        ensures
            old(self).moved_to(final(self)),
            r is Ok == punct_at(old(self).tokens(), old(self).next_pos(), p),
            r is Ok ==> final(self).pos() == old(self).next_pos() + 1 && final(self).pos() > old(self).pos(),
            r matches Err(e) ==> e.message@ == expected_message(old(self).tokens(), old(self).next_pos(), p.text()),
    {
        if self.consume_punct(p) {
            Ok(())
        } else {
            Err(self.expected(p.to_str()))
        }
    }
}

impl Parser {
    fn advance_by(&mut self, n: usize)
        requires
            old(self).wf(),
        ensures
            old(self).moved_to(final(self)),
            final(self).query() == old(self).query(),
            final(self).pos() == advanced(old(self).tokens(), old(self).pos(), n as int),
    {
        let len = self.tokens.len();
        if n > len - self.index {
            self.index = len;
        } else {
            self.index = self.index + n;
        }
    }

    /// Reads a word or a quoted string as an identifier.
    pub fn parse_identifier(&mut self) -> (r: Result<Ident, ParseError>)
        requires
            old(self).wf(),
        ensures
            old(self).moved_to(final(self)),
            r is Ok <==> old(self).next_pos() < old(self).tokens().len()
                && ident_of(old(self).tokens()[old(self).next_pos()].token) is Some,
            r matches Ok(id) ==> ident_of(old(self).tokens()[old(self).next_pos()].token) == Some(id)
                && final(self).pos() == old(self).next_pos() + 1 && final(self).pos() > old(self).pos(),
    {
        let i = self.peek_index();
        if i >= self.tokens.len() {
            return Err(self.expected("identifier"));
        }
        let id = match &self.tokens.get(i).token {
            Token::Word { value, quote_style } => Ident { value: value.clone(), quote_style: *quote_style },
            Token::SingleQuoted(s) => Ident { value: s.clone(), quote_style: Some('\'') },
            Token::DoubleQuoted(s) => Ident { value: s.clone(), quote_style: Some('"') },
            _ => {
                return Err(self.expected("identifier"));
            },
        };
        self.index = i + 1;
        Ok(id)
    }

    /// Reads an expression through the SQL expression parser.
    pub fn parse_expr(&mut self) -> (r: Result<Expr, ParseError>)
        requires
            old(self).wf(),
        ensures
            old(self).moved_to(final(self)),
            final(self).query() == old(self).query(),
            match expr_read(old(self).query(), old(self).pos()) {
                Ok((t, n)) => r matches Ok(e) && e.text@ == t
                    && final(self).pos() == advanced(old(self).tokens(), old(self).pos(), n),
                Err(m) => r matches Err(e) && e.message@ == m,
            },
    {
        match parse_expr_at(self.tokens.query_str(), self.index) {
            Ok((text, n)) => {
                self.advance_by(n);
                Ok(Expr { text })
            },
            Err(message) => Err(ParseError { message, line: 0, column: 0 }),
        }
    }

    /// Reads a projection list through the SQL expression parser.
    pub fn parse_projection(&mut self) -> (r: Result<Vec<ReturnItem>, ParseError>)
        requires
            old(self).wf(),
        ensures
            old(self).moved_to(final(self)),
            match projection_read(old(self).query(), old(self).pos()) {
                Ok((items, n)) => r matches Ok(v) && v@ == items
                    && final(self).pos() == advanced(old(self).tokens(), old(self).pos(), n),
                Err(m) => r matches Err(e) && e.message@ == m,
            },
    {
        let start = self.index;
        match parse_projection_at(self.tokens.query_str(), start) {
            Ok((count, n)) => {
                let mut items: Vec<ReturnItem> = Vec::new();
                let mut i: usize = 0;
                while i < count
                    invariant
                        self.wf(),
                        start == self.pos(),
                        start == old(self).pos(),
                        self.query() == old(self).query(),
                        self.tokens() == old(self).tokens(),
                        self.index == old(self).index,
                        projection_read(self.query(), start as int) matches Ok((its, _)) && count == its.len(),
                        i <= count,
                        items@ == projection_read(self.query(), start as int)->Ok_0.0.subrange(0, i as int),
                    decreases count - i,
                {
                    items.push(projection_item_at(self.tokens.query_str(), start, i));
                    i = i + 1;
                    assert(items@ =~= projection_read(self.query(), start as int)->Ok_0.0.subrange(0, i as int));
                }
                assert(projection_read(self.query(), start as int)->Ok_0.0.subrange(0, count as int)
                    =~= projection_read(self.query(), start as int)->Ok_0.0);
                self.advance_by(n);
                Ok(items)
            },
            Err(message) => Err(ParseError { message, line: 0, column: 0 }),
        }
    }

    /// Reads one ORDER BY key through the SQL expression parser.
    pub fn parse_order_by_expr(&mut self) -> (r: Result<OrderKey, ParseError>)
        requires
            old(self).wf(),
        ensures
            old(self).moved_to(final(self)),
            match order_key_read(old(self).query(), old(self).pos()) {
                Ok((t, o, n)) => r matches Ok(k) && k.expr.text@ == t && k.options@ == o
                    && final(self).pos() == advanced(old(self).tokens(), old(self).pos(), n),
                Err(m) => r matches Err(e) && e.message@ == m,
            },
    {
        match parse_order_key_at(self.tokens.query_str(), self.index) {
            Ok((text, options, n)) => {
                self.advance_by(n);
                Ok(OrderKey { expr: Expr { text }, options })
            },
            Err(message) => Err(ParseError { message, line: 0, column: 0 }),
        }
    }

    /// Reads `key: value, ...` up to the closing brace, which it leaves.
    pub fn parse_map_literal(&mut self) -> (r: Result<PropertyMap, ParseError>)
        requires
            old(self).wf(),
        ensures
            old(self).moved_to(final(self)),
            r matches Ok(m) ==> (m.entries@.len() == 0 <==> punct_at(old(self).tokens(), old(self).next_pos(), Punct::RBrace)),
            match map_grammar(old(self).query(), old(self).tokens(), old(self).pos()) {
                Some((es, e)) => r matches Ok(m) && entries_view(m.entries@) == es && final(self).pos() == e,
                None => r is Err,
            },
            !punct_at(old(self).tokens(), old(self).next_pos(), Punct::RBrace) ==> (
                map_entries_grammar(old(self).query(), old(self).tokens(), old(self).pos()) matches Some((_, e))
                ==> (!punct_at(old(self).tokens(), skip_ws(old(self).tokens(), e), Punct::RBrace)
                ==> (r matches Err(x) && x.message@ == expected_message(old(self).tokens(), skip_ws(old(self).tokens(), e), "}"@)))),
    {
        proof {
            reveal_strlit("}");
        }
        let ghost q = self.query();
        let ghost ts = self.tokens();
        let ghost at0 = self.pos();
        let mut entries: Vec<(Ident, Expr)> = Vec::new();
        if self.consume_punct(Punct::RBrace) {
            return Ok(PropertyMap { entries });
        }
        loop
            invariant_except_break
                map_entries_grammar(q, ts, at0) == prefixed(entries_view(entries@), map_entries_grammar(q, ts, self.pos())),
            invariant
                old(self).moved_to(self),
                q == old(self).query(),
                ts == old(self).tokens(),
                at0 == old(self).pos(),
                !punct_at(old(self).tokens(), old(self).next_pos(), Punct::RBrace),
            ensures
                entries@.len() > 0,
                map_entries_grammar(q, ts, at0) == Some((entries_view(entries@), self.pos())),
            decreases self.tokens().len() - self.pos(),
        {
            let ghost before = self.pos();
            let ghost prev = entries@;
            let key = self.parse_identifier()?;
            self.expect_punct(Punct::Colon)?;
            let value = self.parse_expr()?;
            let ghost after = self.pos();
            entries.push((key, value));
            proof {
                assert(entries_view(entries@) =~= entries_view(prev).push((key, value.text@)));
            }
            if !self.consume_punct(Punct::Comma) {
                proof {
                    assert(entries_view(prev) + seq![(key, value.text@)] =~= entries_view(entries@));
                }
                break;
            }
            proof {
                lemma_skip_ws_bounds(ts, after);
                let g = map_entries_grammar(q, ts, self.pos());
                let rest = if g is Some { g->Some_0.0 } else { Seq::<(Ident, Seq<char>)>::empty() };
                assert(entries_view(prev) + (seq![(key, value.text@)] + rest) =~= entries_view(entries@) + rest);
            }
            assert(self.pos() > before);
        }
        self.expect_punct(Punct::RBrace)?;
        Ok(PropertyMap { entries })
    }

    /// Reads a property map between braces, if one comes next.
    fn parse_opt_properties(&mut self) -> (r: Result<Option<PropertyMap>, ParseError>)
        requires
            old(self).wf(),
        ensures
            old(self).moved_to(final(self)),
            !punct_at(old(self).tokens(), old(self).next_pos(), Punct::LBrace)
                ==> r == Ok::<Option<PropertyMap>, ParseError>(None) && final(self).pos() == old(self).pos(),
            punct_at(old(self).tokens(), old(self).next_pos(), Punct::LBrace) ==> match braced_map_grammar(old(self).query(), old(self).tokens(), old(self).pos()) {
                Some((es, e)) => r matches Ok(Some(m)) && entries_view(m.entries@) == es && final(self).pos() == e,
                None => r is Err,
            },
    {
        if self.consume_punct(Punct::LBrace) {
            let m = self.parse_map_literal()?;
            Ok(Some(m))
        } else {
            Ok(None)
        }
    }

    /// Reads a node after its opening parenthesis: `var:L1:L2 {props})`.
    pub fn parse_cypher_node(&mut self) -> (r: Result<PatternElement, ParseError>)
        requires
            old(self).wf(),
        ensures
            old(self).moved_to(final(self)),
            r matches Ok(e) ==> e is Node && final(self).pos() > old(self).pos(),
            node_grammar(old(self).tokens(), old(self).pos()) matches Some((shape, e)) ==> (r matches Ok(el)
                && shape_of(el) == shape && !has_properties(el) && final(self).pos() == e),
            node_error(old(self).tokens(), old(self).pos()) matches Some(m) ==> (r matches Err(e) && e.message@ == m),
            node_map_grammar(old(self).query(), old(self).tokens(), old(self).pos()) matches Some((v, ls, es, e))
                ==> (r matches Ok(PatternElement::Node { variable, labels, properties: Some(m) })
                && variable == v && labels@ == ls && entries_view(m.entries@) == es && final(self).pos() == e),
    {
        let ghost ts = self.tokens();
        let mut variable: Option<Ident> = None;
        let i = self.peek_index();
        if self.word_at(i) {
            variable = Some(self.parse_identifier()?);
        }
        let ghost at1 = self.pos();
        let mut labels: Vec<Ident> = Vec::new();
        loop
            invariant
                old(self).moved_to(self),
                ts == self.tokens(),
                ts == old(self).tokens(),
                at1 <= self.pos(),
                at1 == if word_at(ts, old(self).next_pos()) { old(self).next_pos() + 1 } else { old(self).pos() },
                labels_grammar(ts, at1) is Some ==> labels_grammar(ts, at1) == prefixed(labels@, labels_grammar(ts, self.pos())),
            ensures
                labels_grammar(ts, at1) is Some ==> labels_grammar(ts, at1) == Some((labels@, self.pos())),
            decreases self.tokens().len() - self.pos(),
        {
            let ghost before = self.pos();
            if !self.consume_punct(Punct::Colon) {
                assert(labels@ + Seq::<Ident>::empty() =~= labels@);
                break;
            }
            let id = match self.parse_identifier() {
                Ok(id) => id,
                Err(e) => {
                    assert(labels_grammar(ts, before) is None);
                    assert(labels_grammar(ts, at1) is None);
                    return Err(e);
                },
            };
            proof {
                let g = labels_grammar(ts, self.pos());
                assert(labels@.push(id) + (if g is Some { g->Some_0.0 } else { Seq::empty() })
                    =~= labels@ + (seq![id] + (if g is Some { g->Some_0.0 } else { Seq::empty() })));
            }
            labels.push(id);
        }
        let properties = self.parse_opt_properties()?;
        proof {
            reveal_strlit(")");
        }
        self.expect_punct(Punct::RParen)?;
        Ok(PatternElement::Node { variable, labels, properties })
    }

    /// Reads relationship types: `:T1|T2:T3...`.
    fn parse_relationship_types(&mut self) -> (r: Result<Vec<Ident>, ParseError>)
        requires
            old(self).wf(),
        ensures
            old(self).moved_to(final(self)),
            types_grammar(old(self).tokens(), old(self).pos()) matches Some((tys, e)) ==> (r matches Ok(v)
                && v@ == tys && final(self).pos() == e),
    {
        let ghost ts = self.tokens();
        let ghost at0 = self.pos();
        let mut types: Vec<Ident> = Vec::new();
        loop
            invariant
                old(self).moved_to(self),
                ts == self.tokens(),
                at0 == old(self).pos(),
                types_grammar(ts, at0) is Some ==> types_grammar(ts, at0) == prefixed(types@, types_grammar(ts, self.pos())),
            ensures
                types_grammar(ts, at0) is Some ==> types_grammar(ts, at0) == Some((types@, self.pos())),
            decreases self.tokens().len() - self.pos(),
        {
            let ghost before = self.pos();
            if !self.consume_punct(Punct::Colon) {
                assert(types@ + Seq::<Ident>::empty() =~= types@);
                break;
            }
            let id = match self.parse_identifier() {
                Ok(id) => id,
                Err(e) => {
                    assert(types_grammar(ts, before) is None);
                    return Err(e);
                },
            };
            let ghost e0 = self.pos();
            let ghost k: int = types@.len() as int + 1;
            types.push(id);
            loop
                invariant
                    old(self).moved_to(self),
                    ts == self.tokens(),
                    at0 == old(self).pos(),
                    before < e0 <= self.pos(),
                    1 <= k <= types@.len(),
                    punct_at(ts, skip_ws(ts, before as int), Punct::Colon),
                    ident_grammar(ts, skip_ws(ts, before as int) + 1) == Some((id, e0)),
                    types@[k - 1] == id,
                    alternatives_grammar(ts, e0) is Some ==> alternatives_grammar(ts, e0)
                        == prefixed(types@.subrange(k, types@.len() as int), alternatives_grammar(ts, self.pos())),
                    types_grammar(ts, at0) is Some ==> types_grammar(ts, at0) == prefixed(types@.subrange(0, k - 1), types_grammar(ts, before)),
                ensures
                    alternatives_grammar(ts, e0) is Some ==> alternatives_grammar(ts, e0)
                        == Some((types@.subrange(k, types@.len() as int), self.pos())),
                decreases self.tokens().len() - self.pos(),
            {
                let ghost before_alt = self.pos();
                if !self.consume_punct(Punct::Pipe) {
                    assert(types@.subrange(k, types@.len() as int) + Seq::<Ident>::empty()
                        =~= types@.subrange(k, types@.len() as int));
                    break;
                }
                let alt = match self.parse_identifier() {
                    Ok(a) => a,
                    Err(e) => {
                        assert(alternatives_grammar(ts, before_alt) is None);
                        assert(alternatives_grammar(ts, e0) is None);
                        assert(types_grammar(ts, before) is None);
                        return Err(e);
                    },
                };
                proof {
                    let g = alternatives_grammar(ts, self.pos());
                    let rest = if g is Some { g->Some_0.0 } else { Seq::<Ident>::empty() };
                    assert(types@.push(alt).subrange(k, types@.len() as int + 1) + rest
                        =~= types@.subrange(k, types@.len() as int) + (seq![alt] + rest));
                    assert(types@.push(alt).subrange(0, k - 1) =~= types@.subrange(0, k - 1));
                }
                types.push(alt);
            }
            proof {
                let alts = types@.subrange(k, types@.len() as int);
                let g = types_grammar(ts, self.pos());
                let rest = if g is Some { g->Some_0.0 } else { Seq::<Ident>::empty() };
                assert(types@ + rest =~= types@.subrange(0, k - 1) + (seq![id] + alts + rest));
            }
        }
        Ok(types)
    }

    /// Reads a relationship: `<-[var:T1|T2*len {props}]->` and its other forms.
    pub fn parse_cypher_relationship(&mut self) -> (r: Result<PatternElement, ParseError>)
        requires
            old(self).wf(),
        ensures
            old(self).moved_to(final(self)),
            r matches Ok(e) ==> e is Relationship && final(self).pos() > old(self).pos(),
            relationship_grammar(old(self).tokens(), old(self).pos()) matches Some((shape, e)) ==> (r matches Ok(el)
                && shape_of(el) == shape && !has_properties(el) && final(self).pos() == e),
            relationship_error(old(self).tokens(), old(self).pos()) matches Some(m) ==> (r matches Err(e) && e.message@ == m),
            relationship_map_grammar(old(self).query(), old(self).tokens(), old(self).pos()) matches Some((shape, es, e))
                ==> (r matches Ok(el) && shape_of(el) == shape && final(self).pos() == e
                && (el matches PatternElement::Relationship { properties: Some(m), .. } && entries_view(m.entries@) == es)),
    {
        let ghost ts = self.tokens();
        let ghost q = self.query();
        let direction_left = self.consume_punct(Punct::Lt);
        self.expect_punct(Punct::Minus)?;
        let ghost after_minus = self.pos();
        let mut variable: Option<Ident> = None;
        let mut types: Vec<Ident> = Vec::new();
        let mut length: Option<RelationshipLength> = None;
        let mut properties: Option<PropertyMap> = None;
        let ghost body: Option<(Option<Ident>, Seq<Ident>, Option<RelationshipLength>, int)> =
            Some((None, Seq::empty(), None, after_minus));
        let ghost map_body: Option<(Option<Ident>, Seq<Ident>, Option<RelationshipLength>, Seq<(Ident, Seq<char>)>, int)> = None;
        if self.consume_punct(Punct::LBracket) {
            proof {
                body = bracket_grammar(ts, self.pos());
                map_body = bracket_map_grammar(q, ts, self.pos());
            }
            let i = self.peek_index();
            if self.word_at(i) {
                let j = self.second_index();
                if self.punct_at(j, Punct::Colon) || self.punct_at(j, Punct::RBracket) {
                    variable = Some(self.parse_identifier()?);
                }
            }
            types = self.parse_relationship_types()?;
            if self.consume_punct(Punct::Star) {
                length = Some(self.parse_cypher_relationship_length()?);
            }
            properties = self.parse_opt_properties()?;
            self.expect_punct(Punct::RBracket)?;
            assert(body is Some ==> body == Some((variable, types@, length, self.pos())) && properties is None);
            assert(map_body is Some ==> (properties matches Some(m) && map_body == Some((variable, types@, length,
                entries_view(m.entries@), self.pos()))));
        }
        let direction_right = if self.consume_punct(Punct::Arrow) {
            true
        } else if self.consume_punct(Punct::Minus) {
            self.consume_punct(Punct::Gt)
        } else {
            return Err(self.expected("relationship direction (- or ->)"));
        };
        let direction = if direction_left && direction_right {
            RelationshipDirection::Both
        } else if direction_left {
            RelationshipDirection::Left
        } else if direction_right {
            RelationshipDirection::Right
        } else {
            RelationshipDirection::Undirected
        };
        assert(direction == direction_of(direction_left, direction_right));
        Ok(PatternElement::Relationship { variable, types, properties, direction, length })
    }

    /// The count written by the numeric token at `i`: `None` if no numeric
    /// token stands there, `Some(None)` if its text is no count.
    fn count_at(&self, i: usize) -> (r: Option<Option<u64>>)
        requires
            self.wf(),
        ensures
            r == match number_at(self.tokens(), i as int) {
                Some(t) => Some(count_value(t)),
                None => None::<Option<u64>>,
            },
    {
        if i < self.tokens.len() {
            match &self.tokens.get(i).token {
                Token::Number(n) => Some(parse_count(n.as_str())),
                _ => None,
            }
        } else {
            None
        }
    }

    /// The count of a numeric token at `i` written with one `.` after it
    /// (`trailing`) or before it.
    fn dotted_count(&self, i: usize, trailing: bool) -> (r: Option<u64>)
        requires
            self.wf(),
        ensures
            r == dotted_count_at(self.tokens(), i as int, trailing),
    {
        if i >= self.tokens.len() {
            return None;
        }
        match &self.tokens.get(i).token {
            Token::Number(n) => {
                let t = n.as_str();
                let len = t.unicode_len();
                if len == 0 {
                    return None;
                }
                if trailing {
                    if t.get_char(len - 1) != '.' {
                        return None;
                    }
                    let digits = t.substring_char(0, len - 1);
                    assert(digits@ =~= t@.drop_last());
                    parse_count(digits)
                } else {
                    if t.get_char(0) != '.' {
                        return None;
                    }
                    let digits = t.substring_char(1, len);
                    assert(digits@ =~= t@.drop_first());
                    parse_count(digits)
                }
            },
            _ => None,
        }
    }

    fn invalid_count(&self, i: usize) -> (r: ParseError)
        requires
            self.wf(),
            i < self.tokens().len(),
        ensures
            r.message@ == "Invalid number in relationship length"@,
            r.line == self.tokens()[i as int].line && r.column == self.tokens()[i as int].column,
    {
        proof {
            reveal_strlit("Invalid number in relationship length");
        }
        let t = self.tokens.get(i);
        ParseError {
            message: String::from_str("Invalid number in relationship length"),
            line: t.line,
            column: t.column,
        }
    }

    /// Reads an optional upper bound after `..`.
    fn parse_upper_bound(&mut self) -> (r: Result<Option<u64>, ParseError>)
        requires
            old(self).wf(),
        ensures
            old(self).moved_to(final(self)),
            match upper_bound_grammar(old(self).tokens(), old(self).pos()) {
                Some((m, e)) => r == Ok::<Option<u64>, ParseError>(m) && final(self).pos() == e,
                None => r is Err,
            },
            bad_count_at(old(self).tokens(), old(self).next_pos()) ==> (r matches Err(e)
                && e.message@ == "Invalid number in relationship length"@),
    {
        let j = self.peek_index();
        match self.count_at(j) {
            None => Ok(None),
            Some(None) => Err(self.invalid_count(j)),
            Some(Some(max)) => {
                self.index = j + 1;
                Ok(Some(max))
            },
        }
    }

    /// Reads a length after `*`: `n`, `n..m`, `n..`, `..m`, `..` or nothing.
    pub fn parse_cypher_relationship_length(&mut self) -> (r: Result<RelationshipLength, ParseError>)
        requires
            old(self).wf(),
        ensures
            old(self).moved_to(final(self)),
            match length_grammar(old(self).tokens(), old(self).pos()) {
                Some((l, e)) => r == Ok::<RelationshipLength, ParseError>(l) && final(self).pos() == e,
                None => r is Err,
            },
            length_invalid(old(self).tokens(), old(self).pos()) ==> (r matches Err(e)
                && e.message@ == "Invalid number in relationship length"@),
    {
        let i = self.peek_index();
        match self.count_at(i) {
            Some(None) => match self.dotted_count(i, true) {
                Some(min) => {
                    self.index = i + 1;
                    if self.consume_punct(Punct::Period) {
                        let max = self.parse_upper_bound()?;
                        Ok(RelationshipLength::Range(Some(min), max))
                    } else {
                        let k = self.peek_index();
                        match self.dotted_count(k, false) {
                            Some(max) => {
                                self.index = k + 1;
                                Ok(RelationshipLength::Range(Some(min), Some(max)))
                            },
                            None => Err(self.expected("..")),
                        }
                    }
                },
                None => Err(self.invalid_count(i)),
            },
            Some(Some(min)) => {
                self.index = i + 1;
                if self.consume_punct(Punct::Period) {
                    self.expect_punct(Punct::Period)?;
                    let max = self.parse_upper_bound()?;
                    Ok(RelationshipLength::Range(Some(min), max))
                } else {
                    Ok(RelationshipLength::Exact(min))
                }
            },
            None => {
                if self.consume_punct(Punct::Period) {
                    let k = self.peek_index();
                    if let Some(max) = self.dotted_count(k, false) {
                        self.index = k + 1;
                        return Ok(RelationshipLength::Range(None, Some(max)));
                    }
                    self.expect_punct(Punct::Period)?;
                    match self.parse_upper_bound()? {
                        Some(max) => Ok(RelationshipLength::Range(None, Some(max))),
                        None => Ok(RelationshipLength::Variable),
                    }
                } else {
                    Ok(RelationshipLength::Variable)
                }
            },
        }
    }
}

impl Parser {
    /// Reads a pattern: a node, then relationship and node in turn.
    #[verifier::rlimit(100)]
    pub fn parse_cypher_pattern(&mut self) -> (r: Result<Pattern, ParseError>)
        requires
            old(self).wf(),
        ensures
            old(self).moved_to(final(self)),
            r matches Ok(p) ==> p.wf() && final(self).pos() > old(self).pos(),
            !punct_at(old(self).tokens(), old(self).next_pos(), Punct::LParen) ==> r is Err,
            r matches Ok(p) ==> p@.len() <= final(self).pos() - old(self).pos(),
            pattern_grammar(old(self).tokens(), old(self).pos()) matches Some((shapes, e)) ==> (r matches Ok(p)
                && p@.map_values(|el: PatternElement| shape_of(el)) == shapes
                && (forall|k: int| 0 <= k < p@.len() ==> !has_properties(#[trigger] p@[k]))
                && final(self).pos() == e),
            pattern_error(old(self).tokens(), old(self).pos()) matches Some(m) ==> (r matches Err(e) && e.message@ == m),
            full_pattern_grammar(old(self).query(), old(self).tokens(), old(self).pos()) matches Some((vs, e))
                ==> (r matches Ok(p) && p@.map_values(|el: PatternElement| element_view(el)) == vs && final(self).pos() == e),
    {
        let ghost ts = self.tokens();
        if !self.consume_punct(Punct::LParen) {
            return Err(self.expected("pattern starting with '('"));
        }
        let mut elements: Vec<PatternElement> = Vec::new();
        let node = self.parse_cypher_node()?;
        elements.push(node);
        let ghost e1 = self.pos();
        assert(alternating(elements@));
        while self.peek_punct(Punct::Minus) || self.peek_punct(Punct::Lt)
            invariant
                old(self).moved_to(self),
                ts == self.tokens(),
                self.pos() > old(self).pos(),
                e1 <= self.pos(),
                alternating(elements@),
                elements@.len() >= 1,
                elements@.len() <= self.pos() - old(self).pos(),
                pattern_error(ts, old(self).pos()) is Some ==> pattern_error(ts, old(self).pos()) == chain_error(ts, self.pos()),
                full_pattern_grammar(self.query(), ts, old(self).pos()) is Some ==> full_pattern_grammar(self.query(), ts, old(self).pos())
                    == prefixed(elements@.map_values(|el: PatternElement| element_view(el)), full_chain_grammar(self.query(), ts, self.pos())),
                self.query() == old(self).query(),
                pattern_grammar(ts, old(self).pos()) is Some ==> (
                    pattern_grammar(ts, old(self).pos()) == prefixed(
                        elements@.map_values(|el: PatternElement| shape_of(el)),
                        chain_grammar(ts, self.pos()),
                    )
                    && (forall|k: int| 0 <= k < elements@.len() ==> !has_properties(#[trigger] elements@[k]))),
            decreases self.tokens().len() - self.pos(),
        {
            let ghost before = self.pos();
            let rel = self.parse_cypher_relationship()?;
            if !self.consume_punct(Punct::LParen) {
                return Err(self.expected("node after relationship"));
            }
            let node = self.parse_cypher_node()?;
            let ghost prev = elements@;
            elements.push(rel);
            elements.push(node);
            assert forall|i: int| 0 <= i < elements@.len() implies (#[trigger] elements@[i] is Node <==> i % 2 == 0) by {
                if i < prev.len() {
                    assert(elements@[i] == prev[i]);
                }
            }
            proof {
                if full_pattern_grammar(self.query(), ts, old(self).pos()) is Some {
                    let g = full_chain_grammar(self.query(), ts, self.pos());
                    let rest = if g is Some { g->Some_0.0 } else { Seq::<(ElementShape, Option<Seq<(Ident, Seq<char>)>>)>::empty() };
                    let f = |el: PatternElement| element_view(el);
                    assert(elements@.map_values(f) =~= prev.map_values(f).push(element_view(rel)).push(element_view(node)));
                    assert(elements@.map_values(f) + rest =~= prev.map_values(f) + (seq![element_view(rel), element_view(node)] + rest));
                }
            }
            proof {
                if pattern_grammar(ts, old(self).pos()) is Some {
                    let g = chain_grammar(ts, self.pos());
                    let rest = if g is Some { g->Some_0.0 } else { Seq::<ElementShape>::empty() };
                    let f = |el: PatternElement| shape_of(el);
                    assert(elements@.map_values(f) =~= prev.map_values(f).push(shape_of(rel)).push(shape_of(node)));
                    assert(elements@.map_values(f) + rest =~= prev.map_values(f) + (seq![shape_of(rel), shape_of(node)] + rest));
                    assert forall|k: int| 0 <= k < elements@.len() implies !has_properties(#[trigger] elements@[k]) by {
                        if k < prev.len() {
                            assert(elements@[k] == prev[k]);
                        }
                    }
                }
            }
        }
        proof {
            if pattern_grammar(ts, old(self).pos()) is Some {
                let f = |el: PatternElement| shape_of(el);
                assert(elements@.map_values(f) + Seq::<ElementShape>::empty() =~= elements@.map_values(f));
            }
            if full_pattern_grammar(self.query(), ts, old(self).pos()) is Some {
                let f = |el: PatternElement| element_view(el);
                assert(elements@.map_values(f) + Seq::<(ElementShape, Option<Seq<(Ident, Seq<char>)>>)>::empty()
                    =~= elements@.map_values(f));
            }
        }
        match Pattern::new(elements) {
            Some(p) => Ok(p),
            None => vstd::pervasive::unreached(),
        }
    }

    /// Reads comma-separated patterns.
    pub fn parse_cypher_patterns(&mut self) -> (r: Result<Vec<Pattern>, ParseError>)
        requires
            old(self).wf(),
        ensures
            old(self).moved_to(final(self)),
            r matches Ok(ps) ==> patterns_wf(ps@) && ps@.len() > 0,
            r matches Ok(ps) ==> element_count(ps@) <= final(self).pos() - old(self).pos(),
            patterns_grammar(old(self).tokens(), old(self).pos()) matches Some((shapes, e)) ==> (r matches Ok(ps)
                && patterns_shapes(ps@) == shapes && patterns_plain(ps@) && final(self).pos() == e),
            patterns_error(old(self).tokens(), old(self).pos()) matches Some(m) ==> (r matches Err(e) && e.message@ == m),
            full_patterns_grammar(old(self).query(), old(self).tokens(), old(self).pos()) matches Some((vs, e))
                ==> (r matches Ok(ps) && patterns_views(ps@) == vs && final(self).pos() == e),
    {
        let ghost ts = self.tokens();
        let ghost at0 = self.pos();
        let mut patterns: Vec<Pattern> = Vec::new();
        loop
            invariant_except_break
                patterns_error(ts, at0) is Some ==> patterns_error(ts, at0) == patterns_error(ts, self.pos()),
                full_patterns_grammar(self.query(), ts, at0) is Some ==> full_patterns_grammar(self.query(), ts, at0)
                    == prefixed(patterns_views(patterns@), full_patterns_grammar(self.query(), ts, self.pos())),
                patterns_grammar(ts, at0) is Some ==> patterns_grammar(ts, at0)
                    == prefixed(patterns_shapes(patterns@), patterns_grammar(ts, self.pos()))
                    && patterns_plain(patterns@),
            invariant
                old(self).moved_to(self),
                ts == self.tokens(),
                at0 == old(self).pos(),
                patterns_wf(patterns@),
                element_count(patterns@) <= self.pos() - old(self).pos(),
                patterns@.len() > 0 ==> self.pos() > at0,
            ensures
                patterns_wf(patterns@),
                patterns@.len() > 0,
                patterns_error(ts, at0) is None,
                full_patterns_grammar(self.query(), ts, at0) is Some ==> full_patterns_grammar(self.query(), ts, at0)
                    == Some((patterns_views(patterns@), self.pos())),
                self.query() == old(self).query(),
                patterns_grammar(ts, at0) is Some ==> patterns_grammar(ts, at0) == Some((patterns_shapes(patterns@), self.pos()))
                    && patterns_plain(patterns@),
            decreases self.tokens().len() - self.pos(),
        {
            let ghost before = self.pos();
            let p = self.parse_cypher_pattern()?;
            let ghost after = self.pos();
            let ghost prev = patterns@;
            patterns.push(p);
            assert(patterns@.drop_last() =~= prev);
            let ghost pv = p@.map_values(|el: PatternElement| element_view(el));
            assert(patterns_views(patterns@) =~= patterns_views(prev).push(pv));
            proof {
                if patterns_grammar(ts, at0) is Some {
                    assert(patterns_shapes(patterns@) =~= patterns_shapes(prev).push(p@.map_values(|el: PatternElement| shape_of(el))));
                    assert forall|a: int, k: int| 0 <= a < patterns@.len() && 0 <= k < patterns@[a]@.len()
                        implies !has_properties(#[trigger] patterns@[a]@[k]) by {
                        if a < prev.len() {
                            assert(patterns@[a] == prev[a]);
                        }
                    }
                }
            }
            if !self.consume_punct(Punct::Comma) {
                proof {
                    assert(patterns_views(prev) + seq![pv] =~= patterns_views(patterns@));
                    assert(patterns_error(ts, before) is None);
                    if patterns_grammar(ts, at0) is Some {
                        let sh = p@.map_values(|el: PatternElement| shape_of(el));
                        assert(patterns_shapes(prev) + seq![sh] =~= patterns_shapes(patterns@));
                    }
                }
                break;
            }
            proof {
                lemma_skip_ws_bounds(ts, after);
                let fg = full_patterns_grammar(self.query(), ts, self.pos());
                let frest = if fg is Some { fg->Some_0.0 } else { Seq::<Seq<(ElementShape, Option<Seq<(Ident, Seq<char>)>>)>>::empty() };
                assert(patterns_views(prev) + (seq![pv] + frest) =~= patterns_views(patterns@) + frest);
                if patterns_grammar(ts, at0) is Some {
                    let g = patterns_grammar(ts, self.pos());
                    let sh = p@.map_values(|el: PatternElement| shape_of(el));
                    let rest = if g is Some { g->Some_0.0 } else { Seq::<Seq<ElementShape>>::empty() };
                    assert(patterns_shapes(prev) + (seq![sh] + rest) =~= patterns_shapes(patterns@) + rest);
                }
            }
        }
        Ok(patterns)
    }

    /// Reads comma-separated expressions.
    fn parse_exprs(&mut self) -> (r: Result<Vec<Expr>, ParseError>)
        requires
            old(self).wf(),
        ensures
            old(self).moved_to(final(self)),
            r matches Ok(es) ==> es@.len() > 0,
            exprs_grammar(old(self).query(), old(self).tokens(), old(self).pos()) matches Some((ts, e))
                ==> (r matches Ok(es) && exprs_view(es@) == ts && final(self).pos() == e),
            exprs_grammar(old(self).query(), old(self).tokens(), old(self).pos()) is None ==> r is Err,
            exprs_error(old(self).query(), old(self).tokens(), old(self).pos()) matches Some(m) ==> (r matches Err(x) && x.message@ == m),
            expr_read(old(self).query(), old(self).pos()) matches Err(m) ==> (r matches Err(x) && x.message@ == m),
    {
        let ghost q = self.query();
        let ghost toks = self.tokens();
        let ghost at0 = self.pos();
        let mut exprs: Vec<Expr> = Vec::new();
        loop
            invariant_except_break
                exprs_grammar(q, toks, at0) == prefixed(exprs_view(exprs@), exprs_grammar(q, toks, self.pos())),
                exprs_error(q, toks, at0) == exprs_error(q, toks, self.pos()),
            invariant
                old(self).moved_to(self),
                exprs@.len() == 0 ==> self.pos() == old(self).pos(),
                exprs@.len() > 0 ==> expr_read(q, at0) is Ok,
                q == old(self).query(),
                toks == old(self).tokens(),
                at0 == old(self).pos(),
            ensures
                exprs@.len() > 0,
                exprs_grammar(q, toks, at0) == Some((exprs_view(exprs@), self.pos())),
                exprs_error(q, toks, at0) is None,
            decreases self.tokens().len() - self.pos(),
        {
            let ghost before = self.pos();
            let ghost prev = exprs@;
            let e = self.parse_expr()?;
            let ghost after = self.pos();
            exprs.push(e);
            proof {
                assert(exprs_view(exprs@) =~= exprs_view(prev).push(e.text@));
            }
            if !self.consume_punct(Punct::Comma) {
                proof {
                    assert(exprs_view(prev) + seq![e.text@] =~= exprs_view(exprs@));
                }
                break;
            }
            proof {
                lemma_skip_ws_bounds(toks, after);
                let g = exprs_grammar(q, toks, self.pos());
                let rest = if g is Some { g->Some_0.0 } else { Seq::<Seq<char>>::empty() };
                assert(exprs_view(prev) + (seq![e.text@] + rest) =~= exprs_view(exprs@) + rest);
            }
            assert(self.pos() > before);
        }
        Ok(exprs)
    }

    /// Reads `WHERE condition`, if it comes next.
    fn parse_opt_where(&mut self) -> (r: Result<Option<Expr>, ParseError>)
        requires
            old(self).wf(),
        ensures
            old(self).moved_to(final(self)),
            r matches Ok(w) ==> (w is Some <==> keyword_at(old(self).tokens(), old(self).next_pos(), "WHERE"@)),
            !keyword_at(old(self).tokens(), old(self).next_pos(), "WHERE"@)
                ==> r == Ok::<Option<Expr>, ParseError>(None) && final(self).pos() == old(self).pos(),
            match clause_expr_grammar(old(self).query(), old(self).tokens(), old(self).pos(), "WHERE"@) {
                Some((t, e)) => r matches Ok(x) && expr_text_of(x) == t && final(self).pos() == e,
                None => r matches Err(x)
                    && clause_expr_error(old(self).query(), old(self).tokens(), old(self).pos(), "WHERE"@) == Some(x.message@),
            },
    {
        if self.parse_keyword("WHERE") {
            Ok(Some(self.parse_expr()?))
        } else {
            Ok(None)
        }
    }

    /// Reads a RETURN clause after the RETURN keyword.
    pub fn parse_cypher_return_clause(&mut self) -> (r: Result<ReturnClause, ParseError>)
        requires
            old(self).wf(),
        ensures
            old(self).moved_to(final(self)),
            r matches Ok(c) ==> (c.distinct <==> keyword_at(old(self).tokens(), old(self).next_pos(), "DISTINCT"@))
                && c.order_by@.len() <= 1,
            match return_grammar(old(self).query(), old(self).tokens(), old(self).pos()) {
                Some((distinct, items, keys, skip, limit, e)) => r matches Ok(c) && c.distinct == distinct
                    && c.items@ == items
                    && keys_view(c.order_by@) == keys && expr_text_of(c.skip) == skip
                    && expr_text_of(c.limit) == limit && final(self).pos() == e,
                None => r matches Err(x) && return_error(old(self).query(), old(self).tokens(), old(self).pos()) == Some(x.message@),
            },
    {
        proof {
            reveal_strlit("DISTINCT");
            reveal_strlit("ORDER");
            reveal_strlit("BY");
            reveal_strlit("SKIP");
            reveal_strlit("LIMIT");
        }
        let distinct = self.parse_keyword("DISTINCT");
        let items = self.parse_projection()?;
        let mut order_by: Vec<OrderKey> = Vec::new();
        if self.peek_keyword("ORDER") && self.keyword_at(self.second_index(), "BY") {
            self.index = self.peek_index() + 1;
            self.index = self.peek_index() + 1;
            order_by.push(self.parse_order_by_expr()?);
        }
        assert(keys_view(order_by@) =~= if order_by@.len() == 0 { Seq::empty() } else {
            seq![(order_by@[0].expr.text@, order_by@[0].options@)] });
        let skip = self.parse_clause_expr("SKIP")?;
        let limit = self.parse_clause_expr("LIMIT")?;
        Ok(ReturnClause { distinct, items, order_by, limit, skip })
    }

    /// Reads `kw expr` if the keyword `kw` comes next.
    fn parse_clause_expr(&mut self, kw: &str) -> (r: Result<Option<Expr>, ParseError>)
        requires
            old(self).wf(),
        ensures
            old(self).moved_to(final(self)),
            match clause_expr_grammar(old(self).query(), old(self).tokens(), old(self).pos(), kw@) {
                Some((t, e)) => r matches Ok(x) && expr_text_of(x) == t && final(self).pos() == e,
                None => r matches Err(x)
                    && clause_expr_error(old(self).query(), old(self).tokens(), old(self).pos(), kw@) == Some(x.message@),
            },
    {
        if self.parse_keyword(kw) {
            Ok(Some(self.parse_expr()?))
        } else {
            Ok(None)
        }
    }

    fn keyword_at(&self, i: usize, kw: &str) -> (r: bool)
        requires
            self.wf(),
        ensures
            r == keyword_at(self.tokens(), i as int, kw@),
    {
        if i < self.tokens.len() {
            match &self.tokens.get(i).token {
                Token::Word { value, quote_style } => quote_style.is_none() && eq_ignore_case(value.as_str(), kw),
                _ => false,
            }
        } else {
            false
        }
    }

    /// Reads a SET target: `var.prop`, `var:Label` or `var`.
    pub fn parse_cypher_set_target(&mut self) -> (r: Result<SetTarget, ParseError>)
        requires
            old(self).wf(),
        ensures
            old(self).moved_to(final(self)),
            r is Ok ==> final(self).pos() > old(self).pos(),
            r matches Ok(t) ==> ident_grammar(old(self).tokens(), old(self).pos()) matches Some((v, e))
                && target_variable(t) == v
                && (t is Property <==> punct_at(old(self).tokens(), skip_ws(old(self).tokens(), e), Punct::Period))
                && (t is Label <==> !punct_at(old(self).tokens(), skip_ws(old(self).tokens(), e), Punct::Period)
                    && punct_at(old(self).tokens(), skip_ws(old(self).tokens(), e), Punct::Colon)),
            match set_target_grammar(old(self).tokens(), old(self).pos()) {
                Some((t, e)) => r == Ok::<SetTarget, ParseError>(t) && final(self).pos() == e,
                None => r is Err,
            },
    {
        let variable = self.parse_identifier()?;
        if self.consume_punct(Punct::Period) {
            let property = self.parse_identifier()?;
            Ok(SetTarget::Property { variable, property })
        } else if self.consume_punct(Punct::Colon) {
            let label = self.parse_identifier()?;
            Ok(SetTarget::Label { variable, label })
        } else {
            Ok(SetTarget::Variable(variable))
        }
    }

    /// Reads `target = value`.
    pub fn parse_cypher_set_clause(&mut self) -> (r: Result<SetClause, ParseError>)
        requires
            old(self).wf(),
        ensures
            old(self).moved_to(final(self)),
            r is Ok ==> final(self).pos() > old(self).pos(),
            set_clause_grammar(old(self).query(), old(self).tokens(), old(self).pos()) matches Some((t, v, e))
                ==> (r matches Ok(c) && c.target == t && c.value.text@ == v && final(self).pos() == e),
            set_clause_grammar(old(self).query(), old(self).tokens(), old(self).pos()) is None ==> r is Err,
            set_target_grammar(old(self).tokens(), old(self).pos()) matches Some((_, e))
                ==> (!punct_at(old(self).tokens(), skip_ws(old(self).tokens(), e), Punct::Eq)
                ==> (r matches Err(x) && x.message@ == expected_message(old(self).tokens(), skip_ws(old(self).tokens(), e), "="@))),
    {
        proof {
            reveal_strlit("=");
        }
        let target = self.parse_cypher_set_target()?;
        self.expect_punct(Punct::Eq)?;
        let value = self.parse_expr()?;
        Ok(SetClause { target, value })
    }

    /// Reads comma-separated SET assignments.
    pub fn parse_cypher_set_clauses(&mut self) -> (r: Result<Vec<SetClause>, ParseError>)
        requires
            old(self).wf(),
        ensures
            old(self).moved_to(final(self)),
            r matches Ok(cs) ==> cs@.len() > 0,
            set_clauses_grammar(old(self).query(), old(self).tokens(), old(self).pos()) matches Some((cs, e))
                ==> (r matches Ok(v) && clauses_view(v@) == cs && final(self).pos() == e),
            set_clauses_grammar(old(self).query(), old(self).tokens(), old(self).pos()) is None ==> r is Err,
    {
        let ghost q = self.query();
        let ghost ts = self.tokens();
        let ghost at0 = self.pos();
        let mut clauses: Vec<SetClause> = Vec::new();
        loop
            invariant_except_break
                set_clauses_grammar(q, ts, at0) == prefixed(clauses_view(clauses@), set_clauses_grammar(q, ts, self.pos())),
            invariant
                old(self).moved_to(self),
                q == old(self).query(),
                ts == old(self).tokens(),
                at0 == old(self).pos(),
            ensures
                clauses@.len() > 0,
                set_clauses_grammar(q, ts, at0) == Some((clauses_view(clauses@), self.pos())),
            decreases self.tokens().len() - self.pos(),
        {
            let ghost prev = clauses@;
            let c = self.parse_cypher_set_clause()?;
            let ghost after = self.pos();
            let ghost cv = (c.target, c.value.text@);
            clauses.push(c);
            proof {
                assert(clauses_view(clauses@) =~= clauses_view(prev).push(cv));
            }
            if !self.consume_punct(Punct::Comma) {
                proof {
                    assert(clauses_view(prev) + seq![cv] =~= clauses_view(clauses@));
                }
                break;
            }
            proof {
                lemma_skip_ws_bounds(ts, after);
                let g = set_clauses_grammar(q, ts, self.pos());
                let rest = if g is Some { g->Some_0.0 } else { Seq::<(SetTarget, Seq<char>)>::empty() };
                assert(clauses_view(prev) + (seq![cv] + rest) =~= clauses_view(clauses@) + rest);
            }
        }
        Ok(clauses)
    }
}

impl Parser {
    /// Reads a Cypher statement, choosing the grammar by its leading keyword:
    /// MATCH, OPTIONAL MATCH, CREATE, MERGE, DELETE or DETACH DELETE.
    pub fn parse_cypher_statement(&mut self) -> (r: Result<CypherStatement, ParseError>)
        requires
            old(self).wf(),
        ensures
            old(self).moved_to(final(self)),
            r matches Ok(s) ==> statement_wf(s),
            r matches Ok(s) ==> statement_size(s) < u64::MAX,
            keyword_at(old(self).tokens(), old(self).next_pos(), "MATCH"@) && r is Ok
                ==> (r->Ok_0 matches CypherStatement::Match { optional: false, .. }),
            keyword_at(old(self).tokens(), old(self).next_pos(), "OPTIONAL"@) && r is Ok
                ==> (r->Ok_0 matches CypherStatement::Match { optional: true, .. }),
            keyword_at(old(self).tokens(), old(self).next_pos(), "CREATE"@) && r is Ok ==> r->Ok_0 is Create,
            keyword_at(old(self).tokens(), old(self).next_pos(), "MERGE"@) && r is Ok ==> r->Ok_0 is Merge,
            keyword_at(old(self).tokens(), old(self).next_pos(), "DELETE"@) && r is Ok
                ==> (r->Ok_0 matches CypherStatement::Delete { detach: false, .. }),
            keyword_at(old(self).tokens(), old(self).next_pos(), "DETACH"@) && r is Ok
                ==> (r->Ok_0 matches CypherStatement::Delete { detach: true, .. }),
            !starts_statement(old(self).tokens(), old(self).next_pos()) ==> r is Err,
            patterns_after(old(self).tokens(), old(self).next_pos()) matches Some((shapes, _))
                ==> (r matches Ok(s) ==> statement_patterns(s) matches Some(ps)
                && patterns_shapes(ps@) == shapes && patterns_plain(ps@)),
            keyword_at(old(self).tokens(), old(self).next_pos(), "CREATE"@)
                && patterns_grammar(old(self).tokens(), old(self).next_pos() + 1) is Some ==> r is Ok,
            keyword_at(old(self).tokens(), old(self).next_pos(), "CREATE"@) ==> (
                full_patterns_grammar(old(self).query(), old(self).tokens(), old(self).next_pos() + 1) matches Some((vs, _))
                ==> (r matches Ok(CypherStatement::Create { patterns }) && patterns_views(patterns@) == vs)),
            !starts_statement(old(self).tokens(), old(self).next_pos()) ==> (r matches Err(e)
                && e.message@ == expected_message(old(self).tokens(), old(self).next_pos(), "MATCH, CREATE, MERGE, or DELETE"@)),
            statement_opening_error(old(self).tokens(), old(self).next_pos()) matches Some(m)
                ==> (r matches Err(e) && e.message@ == m),
            statement_patterns_error(old(self).tokens(), old(self).next_pos()) matches Some(m)
                ==> (r matches Err(e) && e.message@ == m),
            keyword_at(old(self).tokens(), old(self).next_pos(), "MATCH"@) ==> (
                patterns_grammar(old(self).tokens(), old(self).next_pos() + 1) matches Some((shapes, e))
                ==> bare_match(old(self).tokens(), e, shapes, false, r)),
            keyword_at(old(self).tokens(), old(self).next_pos(), "OPTIONAL"@)
                && keyword_at(old(self).tokens(), skip_ws(old(self).tokens(), old(self).next_pos() + 1), "MATCH"@) ==> (
                patterns_grammar(old(self).tokens(), skip_ws(old(self).tokens(), old(self).next_pos() + 1) + 1)
                matches Some((shapes, e)) ==> bare_match(old(self).tokens(), e, shapes, true, r)),
            keyword_at(old(self).tokens(), old(self).next_pos(), "MATCH"@) ==> (
                patterns_grammar(old(self).tokens(), old(self).next_pos() + 1) matches Some((shapes, e))
                ==> match_result(old(self).query(), old(self).tokens(), e, shapes, false, r)),
            keyword_at(old(self).tokens(), old(self).next_pos(), "OPTIONAL"@)
                && keyword_at(old(self).tokens(), skip_ws(old(self).tokens(), old(self).next_pos() + 1), "MATCH"@) ==> (
                patterns_grammar(old(self).tokens(), skip_ws(old(self).tokens(), old(self).next_pos() + 1) + 1)
                matches Some((shapes, e)) ==> match_result(old(self).query(), old(self).tokens(), e, shapes, true, r)),
            keyword_at(old(self).tokens(), old(self).next_pos(), "MERGE"@) ==> (
                patterns_grammar(old(self).tokens(), old(self).next_pos() + 1) matches Some((shapes, e))
                ==> merge_tail(old(self).tokens(), e, shapes, r)),
            keyword_at(old(self).tokens(), old(self).next_pos(), "MERGE"@) ==> (
                patterns_grammar(old(self).tokens(), old(self).next_pos() + 1) matches Some((shapes, e))
                ==> (merge_blocks(old(self).query(), old(self).tokens(), e, None, None) matches Some((oc, om, _))
                ==> (r matches Ok(CypherStatement::Merge { patterns, on_create, on_match })
                    && patterns_shapes(patterns@) == shapes && opt_clauses_view(on_create) == oc
                    && opt_clauses_view(on_match) == om))),
            keyword_at(old(self).tokens(), old(self).next_pos(), "DELETE"@) ==> (
                delete_grammar(old(self).query(), old(self).tokens(), old(self).next_pos() + 1) matches Some((what, w, e))
                ==> deleted(r, false, what, w)),
            keyword_at(old(self).tokens(), old(self).next_pos(), "DELETE"@) ==> (
                delete_error(old(self).query(), old(self).tokens(), old(self).next_pos() + 1) matches Some(m)
                ==> (r matches Err(x) && x.message@ == m)),
            keyword_at(old(self).tokens(), old(self).next_pos(), "DETACH"@)
                && keyword_at(old(self).tokens(), skip_ws(old(self).tokens(), old(self).next_pos() + 1), "DELETE"@) ==> (
                delete_grammar(old(self).query(), old(self).tokens(), skip_ws(old(self).tokens(), old(self).next_pos() + 1) + 1)
                matches Some((what, w, e)) ==> deleted(r, true, what, w)),
            keyword_at(old(self).tokens(), old(self).next_pos(), "DETACH"@)
                && keyword_at(old(self).tokens(), skip_ws(old(self).tokens(), old(self).next_pos() + 1), "DELETE"@) ==> (
                delete_error(old(self).query(), old(self).tokens(), skip_ws(old(self).tokens(), old(self).next_pos() + 1) + 1)
                matches Some(m) ==> (r matches Err(x) && x.message@ == m)),
    {
        proof {
            reveal_strlit("MATCH");
            reveal_strlit("OPTIONAL");
            reveal_strlit("CREATE");
            reveal_strlit("MERGE");
            reveal_strlit("DELETE");
            reveal_strlit("DETACH");
            lemma_statement_keywords_exclusive(self.tokens(), self.next_pos());
            assert(usize::MAX <= u64::MAX);
        }
        if self.peek_keyword("MATCH") {
            self.parse_cypher_match()
        } else if self.peek_keyword("OPTIONAL") {
            self.index = self.peek_index() + 1;
            self.expect_keyword("MATCH")?;
            self.parse_cypher_match_with_optional(true)
        } else if self.peek_keyword("CREATE") {
            self.parse_cypher_create()
        } else if self.peek_keyword("MERGE") {
            self.parse_cypher_merge()
        } else if self.peek_keyword("DELETE") {
            self.parse_cypher_delete()
        } else if self.peek_keyword("DETACH") {
            self.parse_cypher_detach_delete()
        } else {
            Err(self.expected("MATCH, CREATE, MERGE, or DELETE"))
        }
    }

    /// Reads `MATCH patterns [WHERE ...] [RETURN ...]`.
    pub fn parse_cypher_match(&mut self) -> (r: Result<CypherStatement, ParseError>)
        requires
            old(self).wf(),
        ensures
            old(self).moved_to(final(self)),
            r matches Ok(s) ==> statement_wf(s) && (s matches CypherStatement::Match { optional: false, .. }),
            r matches Ok(s) ==> statement_size(s) < final(self).pos() - old(self).pos(),
            patterns_grammar(old(self).tokens(), old(self).next_pos() + 1) matches Some((shapes, _))
                ==> (r matches Ok(CypherStatement::Match { patterns, .. })
                ==> patterns_shapes(patterns@) == shapes && patterns_plain(patterns@)),
            keyword_at(old(self).tokens(), old(self).next_pos(), "MATCH"@) ==> (
                patterns_error(old(self).tokens(), old(self).next_pos() + 1) matches Some(m)
                ==> (r matches Err(x) && x.message@ == m)),
            keyword_at(old(self).tokens(), old(self).next_pos(), "MATCH"@) ==> (
                patterns_grammar(old(self).tokens(), old(self).next_pos() + 1) matches Some((shapes, e))
                ==> bare_match(old(self).tokens(), e, shapes, false, r)),
            keyword_at(old(self).tokens(), old(self).next_pos(), "MATCH"@) ==> (
                patterns_grammar(old(self).tokens(), old(self).next_pos() + 1) matches Some((shapes, e))
                ==> match_result(old(self).query(), old(self).tokens(), e, shapes, false, r)),
    {
        self.parse_cypher_match_with_optional(false)
    }

    /// Reads the rest of a MATCH statement; the MATCH keyword is read here
    /// unless `optional`, where OPTIONAL MATCH has been read already.
    pub fn parse_cypher_match_with_optional(&mut self, optional: bool) -> (r: Result<CypherStatement, ParseError>)
        requires
            old(self).wf(),
        ensures
            old(self).moved_to(final(self)),
            r matches Ok(s) ==> statement_wf(s) && (s matches CypherStatement::Match { optional: o, .. } && o == optional),
            r matches Ok(s) ==> statement_size(s) + (if optional { 0int } else { 1int }) <= final(self).pos() - old(self).pos(),
            patterns_grammar(old(self).tokens(), if optional { old(self).pos() } else { old(self).next_pos() + 1 })
                matches Some((shapes, e)) ==> (r matches Ok(CypherStatement::Match { patterns, where_clause, return_clause, .. })
                ==> patterns_shapes(patterns@) == shapes && patterns_plain(patterns@)
                && (where_clause is Some <==> keyword_at(old(self).tokens(), skip_ws(old(self).tokens(), e), "WHERE"@))
                && (where_clause is None ==> (return_clause is Some
                    <==> keyword_at(old(self).tokens(), skip_ws(old(self).tokens(), e), "RETURN"@)))),
            optional || keyword_at(old(self).tokens(), old(self).next_pos(), "MATCH"@) ==> (
                patterns_error(old(self).tokens(), if optional { old(self).pos() } else { old(self).next_pos() + 1 })
                matches Some(m) ==> (r matches Err(x) && x.message@ == m)),
            optional || keyword_at(old(self).tokens(), old(self).next_pos(), "MATCH"@) ==> (
                patterns_grammar(old(self).tokens(), if optional { old(self).pos() } else { old(self).next_pos() + 1 })
                matches Some((shapes, e)) ==> bare_match(old(self).tokens(), e, shapes, optional, r)),
            optional || keyword_at(old(self).tokens(), old(self).next_pos(), "MATCH"@) ==> (
                patterns_grammar(old(self).tokens(), if optional { old(self).pos() } else { old(self).next_pos() + 1 })
                matches Some((shapes, e)) ==> match_result(old(self).query(), old(self).tokens(), e, shapes, optional, r)),
    {
        proof {
            reveal_strlit("MATCH");
        }
        if !optional {
            self.expect_keyword("MATCH")?;
        }
        let patterns = self.parse_cypher_patterns()?;
        let ghost after_patterns = self.pos();
        let where_clause = self.parse_opt_where()?;
        assert(where_clause is None ==> self.pos() == after_patterns);
        let return_clause = if self.parse_keyword("RETURN") {
            Some(self.parse_cypher_return_clause()?)
        } else {
            None
        };
        Ok(CypherStatement::Match { optional, patterns, where_clause, return_clause })
    }

    /// Reads `CREATE patterns`.
    pub fn parse_cypher_create(&mut self) -> (r: Result<CypherStatement, ParseError>)
        requires
            old(self).wf(),
        ensures
            old(self).moved_to(final(self)),
            r matches Ok(s) ==> statement_wf(s) && s is Create,
            r matches Ok(s) ==> statement_size(s) < final(self).pos() - old(self).pos(),
            keyword_at(old(self).tokens(), old(self).next_pos(), "CREATE"@) ==> (
                patterns_grammar(old(self).tokens(), old(self).next_pos() + 1) matches Some((shapes, _))
                ==> (r matches Ok(CypherStatement::Create { patterns })
                && patterns_shapes(patterns@) == shapes && patterns_plain(patterns@))),
            keyword_at(old(self).tokens(), old(self).next_pos(), "CREATE"@) ==> (
                patterns_error(old(self).tokens(), old(self).next_pos() + 1) matches Some(m)
                ==> (r matches Err(x) && x.message@ == m)),
            keyword_at(old(self).tokens(), old(self).next_pos(), "CREATE"@) ==> (
                full_patterns_grammar(old(self).query(), old(self).tokens(), old(self).next_pos() + 1) matches Some((vs, _))
                ==> (r matches Ok(CypherStatement::Create { patterns }) && patterns_views(patterns@) == vs)),
    {
        self.expect_keyword("CREATE")?;
        let patterns = self.parse_cypher_patterns()?;
        Ok(CypherStatement::Create { patterns })
    }

    /// Reads `MERGE patterns` with any number of `ON CREATE SET ...` and
    /// `ON MATCH SET ...` blocks; a later block of a kind replaces an earlier one.
    pub fn parse_cypher_merge(&mut self) -> (r: Result<CypherStatement, ParseError>)
        requires
            old(self).wf(),
        ensures
            old(self).moved_to(final(self)),
            r matches Ok(s) ==> statement_wf(s) && s is Merge,
            r matches Ok(s) ==> statement_size(s) < final(self).pos() - old(self).pos(),
            patterns_grammar(old(self).tokens(), old(self).next_pos() + 1) matches Some((shapes, _))
                ==> (r matches Ok(CypherStatement::Merge { patterns, .. })
                ==> patterns_shapes(patterns@) == shapes && patterns_plain(patterns@)),
            keyword_at(old(self).tokens(), old(self).next_pos(), "MERGE"@) ==> (
                patterns_error(old(self).tokens(), old(self).next_pos() + 1) matches Some(m)
                ==> (r matches Err(e) && e.message@ == m)),
            keyword_at(old(self).tokens(), old(self).next_pos(), "MERGE"@) ==> (
                patterns_grammar(old(self).tokens(), old(self).next_pos() + 1) matches Some((shapes, e))
                ==> merge_tail(old(self).tokens(), e, shapes, r)),
            keyword_at(old(self).tokens(), old(self).next_pos(), "MERGE"@) ==> (
                patterns_grammar(old(self).tokens(), old(self).next_pos() + 1) matches Some((shapes, e))
                ==> (merge_blocks(old(self).query(), old(self).tokens(), e, None, None) matches Some((oc, om, _))
                ==> (r matches Ok(CypherStatement::Merge { patterns, on_create, on_match })
                    && patterns_shapes(patterns@) == shapes && opt_clauses_view(on_create) == oc
                    && opt_clauses_view(on_match) == om))),
    {
        proof {
            reveal_strlit("MERGE");
            reveal_strlit("CREATE or MATCH after ON");
        }
        self.expect_keyword("MERGE")?;
        let patterns = self.parse_cypher_patterns()?;
        let ghost after_patterns = self.pos();
        let ghost mut started = false;
        let mut on_create: Option<Vec<SetClause>> = None;
        let mut on_match: Option<Vec<SetClause>> = None;
        loop
            invariant
                old(self).moved_to(self),
                !started ==> self.pos() == after_patterns && on_create is None && on_match is None,
                element_count(patterns@) < self.pos() - old(self).pos(),
                keyword_at(old(self).tokens(), old(self).next_pos(), "MERGE"@) ==> (
                    patterns_grammar(old(self).tokens(), old(self).next_pos() + 1) matches Some((_, e))
                    ==> merge_blocks(old(self).query(), old(self).tokens(), e, None, None)
                    == merge_blocks(old(self).query(), old(self).tokens(), self.pos(),
                        opt_clauses_view(on_create), opt_clauses_view(on_match))),
                keyword_at(old(self).tokens(), old(self).next_pos(), "MERGE"@) ==> (
                    patterns_error(old(self).tokens(), old(self).next_pos() + 1) is None),
                keyword_at(old(self).tokens(), old(self).next_pos(), "MERGE"@) ==> (
                    patterns_grammar(old(self).tokens(), old(self).next_pos() + 1) matches Some((shapes, _))
                    ==> patterns_shapes(patterns@) == shapes),
                keyword_at(old(self).tokens(), old(self).next_pos(), "MERGE"@) ==> (
                    patterns_grammar(old(self).tokens(), old(self).next_pos() + 1) matches Some((_, e))
                    ==> after_patterns == e && (started ==> keyword_at(old(self).tokens(), skip_ws(old(self).tokens(), e), "ON"@)
                    && (keyword_at(old(self).tokens(), skip_ws(old(self).tokens(), skip_ws(old(self).tokens(), e) + 1), "CREATE"@)
                    || keyword_at(old(self).tokens(), skip_ws(old(self).tokens(), skip_ws(old(self).tokens(), e) + 1), "MATCH"@)))),
            ensures
                !started ==> !keyword_at(old(self).tokens(), skip_ws(old(self).tokens(), after_patterns), "ON"@),
                !keyword_at(old(self).tokens(), self.next_pos(), "ON"@),
            decreases self.tokens().len() - self.pos(),
        {
            if !self.parse_keyword("ON") {
                break;
            }
            if self.parse_keyword("CREATE") {
                proof {
                    started = true;
                }
                self.expect_keyword("SET")?;
                on_create = Some(self.parse_cypher_set_clauses()?);
            } else if self.parse_keyword("MATCH") {
                proof {
                    started = true;
                }
                self.expect_keyword("SET")?;
                on_match = Some(self.parse_cypher_set_clauses()?);
            } else {
                return Err(self.expected("CREATE or MATCH after ON"));
            }
        }
        let r = Ok(CypherStatement::Merge { patterns, on_create, on_match });
        proof {
            let ts = old(self).tokens();
            let n = old(self).next_pos();
            if keyword_at(ts, n, "MERGE"@) && patterns_grammar(ts, n + 1) is Some {
                let (shapes, e) = patterns_grammar(ts, n + 1)->Some_0;
                if !started {
                    assert(!keyword_at(ts, skip_ws(ts, e), "ON"@));
                }
                assert(merge_tail(ts, e, shapes, r));
            }
        }
        r
    }

    fn parse_delete_rest(&mut self, detach: bool) -> (r: Result<CypherStatement, ParseError>)
        requires
            old(self).wf(),
        ensures
            old(self).moved_to(final(self)),
            r matches Ok(s) ==> (s matches CypherStatement::Delete { detach: d, what, .. } && d == detach
                && what@.len() > 0),
            !keyword_at(old(self).tokens(), old(self).next_pos(), "DELETE"@) ==> (r matches Err(e)
                && e.message@ == expected_message(old(self).tokens(), old(self).next_pos(), "DELETE"@)),
            keyword_at(old(self).tokens(), old(self).next_pos(), "DELETE"@) ==> (
                delete_grammar(old(self).query(), old(self).tokens(), old(self).next_pos() + 1) matches Some((what, w, e))
                ==> (r matches Ok(CypherStatement::Delete { detach: d, what: targets, where_clause })
                && d == detach && exprs_view(targets@) == what && expr_text_of(where_clause) == w && final(self).pos() == e)),
            keyword_at(old(self).tokens(), old(self).next_pos(), "DELETE"@) ==> (
                delete_error(old(self).query(), old(self).tokens(), old(self).next_pos() + 1) matches Some(m)
                ==> (r matches Err(x) && x.message@ == m)),
    {
        self.expect_keyword("DELETE")?;
        let what = self.parse_exprs()?;
        let where_clause = self.parse_opt_where()?;
        Ok(CypherStatement::Delete { detach, what, where_clause })
    }

    /// Reads `DELETE targets [WHERE ...]`.
    pub fn parse_cypher_delete(&mut self) -> (r: Result<CypherStatement, ParseError>)
        requires
            old(self).wf(),
        ensures
            old(self).moved_to(final(self)),
            r matches Ok(s) ==> statement_wf(s) && (s matches CypherStatement::Delete { detach: false, .. }),
            keyword_at(old(self).tokens(), old(self).next_pos(), "DELETE"@) ==> (
                delete_grammar(old(self).query(), old(self).tokens(), old(self).next_pos() + 1) matches Some((what, w, e))
                ==> deleted(r, false, what, w)),
            keyword_at(old(self).tokens(), old(self).next_pos(), "DELETE"@) ==> (
                delete_error(old(self).query(), old(self).tokens(), old(self).next_pos() + 1) matches Some(m)
                ==> (r matches Err(x) && x.message@ == m)),
    {
        self.parse_delete_rest(false)
    }

    /// Reads `DETACH DELETE targets [WHERE ...]`.
    pub fn parse_cypher_detach_delete(&mut self) -> (r: Result<CypherStatement, ParseError>)
        requires
            old(self).wf(),
        ensures
            old(self).moved_to(final(self)),
            r matches Ok(s) ==> statement_wf(s) && (s matches CypherStatement::Delete { detach: true, .. }),
            keyword_at(old(self).tokens(), old(self).next_pos(), "DETACH"@)
                && keyword_at(old(self).tokens(), skip_ws(old(self).tokens(), old(self).next_pos() + 1), "DELETE"@) ==> (
                delete_grammar(old(self).query(), old(self).tokens(), skip_ws(old(self).tokens(), old(self).next_pos() + 1) + 1)
                matches Some((what, w, e)) ==> deleted(r, true, what, w)),
            keyword_at(old(self).tokens(), old(self).next_pos(), "DETACH"@)
                && keyword_at(old(self).tokens(), skip_ws(old(self).tokens(), old(self).next_pos() + 1), "DELETE"@) ==> (
                delete_error(old(self).query(), old(self).tokens(), skip_ws(old(self).tokens(), old(self).next_pos() + 1) + 1)
                matches Some(m) ==> (r matches Err(x) && x.message@ == m)),
            keyword_at(old(self).tokens(), old(self).next_pos(), "DETACH"@)
                && !keyword_at(old(self).tokens(), skip_ws(old(self).tokens(), old(self).next_pos() + 1), "DELETE"@)
                ==> (r matches Err(e) && e.message@ == expected_message(old(self).tokens(),
                    skip_ws(old(self).tokens(), old(self).next_pos() + 1), "DELETE"@)),
    {
        self.expect_keyword("DETACH")?;
        self.parse_delete_rest(true)
    }
}

} // verus!
