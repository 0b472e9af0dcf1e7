//! The token-level grammar of relationship lengths, the token layout of their
//! canonical text, and the law that ties the two together.
use vstd::prelude::*;
use crate::ast::{Ident, Pattern, PatternElement, RelationshipDirection, RelationshipLength};
use crate::parser::{expected_message, ident_of, number_at, punct_at, skip_ws, word_at};
use crate::text::{count_value, decimal_text, lemma_decimal_round_trip};
use crate::token::{Located, Punct, Token};

verus! {

/// An optional upper bound read at place `p`: the bound and the place after
/// it, or `None` where a numeric token there is no count.
pub open spec fn upper_bound_grammar(ts: Seq<Located>, p: int) -> Option<(Option<u64>, int)> {
    let q = skip_ws(ts, p);
    match number_at(ts, q) {
        None => Some((None, p)),
        Some(t) => match count_value(t) {
            Some(m) => Some((Some(m), q + 1)),
            None => None,
        },
    }
}

/// `..` and an optional upper bound, read at place `p`.
pub open spec fn dots_grammar(ts: Seq<Located>, p: int) -> Option<(Option<u64>, int)> {
    let k = skip_ws(ts, p);
    if punct_at(ts, k, Punct::Period) {
        let k2 = skip_ws(ts, k + 1);
        if punct_at(ts, k2, Punct::Period) {
            upper_bound_grammar(ts, k2 + 1)
        } else {
            None
        }
    } else {
        None
    }
}

/// The count written by a numeric token's text with one `.` after it (`2.`).
pub open spec fn trailing_dot_count(t: Seq<char>) -> Option<u64> {
    if t.len() > 0 && t.last() == '.' { count_value(t.drop_last()) } else { None }
}

/// The count written by a numeric token's text with one `.` before it (`.3`).
pub open spec fn leading_dot_count(t: Seq<char>) -> Option<u64> {
    if t.len() > 0 && t[0] == '.' { count_value(t.drop_first()) } else { None }
}

pub open spec fn dotted_count_at(ts: Seq<Located>, i: int, trailing: bool) -> Option<u64> {
    match number_at(ts, i) {
        Some(t) => if trailing { trailing_dot_count(t) } else { leading_dot_count(t) },
        None => None,
    }
}

/// A length read at place `p`, just after `*`: `n`, `n..`, `n..m`, `..m`,
/// `..` (any length) or nothing (any length). Gives the length and the place
/// after it, or `None` where the tokens are no length. A count and an adjacent
/// `.` may come as one numeric token (`1.` and `.3` in `*1..3`), as the SQL
/// tokenizer writes them.
pub open spec fn length_grammar(ts: Seq<Located>, p: int) -> Option<(RelationshipLength, int)> {
    let j = skip_ws(ts, p);
    match number_at(ts, j) {
        Some(t) => match count_value(t) {
            None => match trailing_dot_count(t) {
                Some(min) => {
                    let k = skip_ws(ts, j + 1);
                    if punct_at(ts, k, Punct::Period) {
                        match upper_bound_grammar(ts, k + 1) {
                            Some((max, e)) => Some((RelationshipLength::Range(Some(min), max), e)),
                            None => None,
                        }
                    } else {
                        match dotted_count_at(ts, k, false) {
                            Some(m) => Some((RelationshipLength::Range(Some(min), Some(m)), k + 1)),
                            None => None,
                        }
                    }
                },
                None => None,
            },
            Some(min) => if punct_at(ts, skip_ws(ts, j + 1), Punct::Period) {
                match dots_grammar(ts, j + 1) {
                    Some((max, e)) => Some((RelationshipLength::Range(Some(min), max), e)),
                    None => None,
                }
            } else {
                Some((RelationshipLength::Exact(min), j + 1))
            },
        },
        None => if punct_at(ts, j, Punct::Period) {
            let k2 = skip_ws(ts, j + 1);
            match dotted_count_at(ts, k2, false) {
                Some(m) => Some((RelationshipLength::Range(None, Some(m)), k2 + 1)),
                None => match dots_grammar(ts, p) {
                    Some((Some(m), e)) => Some((RelationshipLength::Range(None, Some(m)), e)),
                    Some((None, e)) => Some((RelationshipLength::Variable, e)),
                    None => None,
                },
            }
        } else {
            Some((RelationshipLength::Variable, p))
        },
    }
}

/// The texts of the tokens, one after another.
pub open spec fn spelled(ls: Seq<Located>) -> Seq<char>
    decreases ls.len(),
{
    if ls.len() == 0 {
        Seq::empty()
    } else {
        spelled(ls.drop_last()) + ls.last().text@
    }
}

/// A numeric token that writes `n` in decimal.
pub open spec fn count_token(t: Located, n: u64) -> bool {
    &&& t.token matches Token::Number(s)
    &&& s@ == decimal_text(n as nat)
    &&& t.text@ == decimal_text(n as nat)
}

pub open spec fn punct_token(t: Located, p: Punct) -> bool {
    t.token == Token::Punct(p) && t.text@ == p.text()
}

/// The tokens of a length's text after its `*`.
pub open spec fn length_layout(ls: Seq<Located>, l: RelationshipLength) -> bool {
    match l {
        RelationshipLength::Exact(n) => ls.len() == 1 && count_token(ls[0], n),
        RelationshipLength::Range(lo, hi) => {
            let k: int = if lo is Some { 1 } else { 0 };
            &&& ls.len() == k + 2 + if hi is Some { 1int } else { 0 }
            &&& lo matches Some(a) ==> count_token(ls[0], a)
            &&& punct_token(ls[k], Punct::Period)
            &&& punct_token(ls[k + 1], Punct::Period)
            &&& hi matches Some(b) ==> count_token(ls[k + 2], b)
        },
        RelationshipLength::Variable => ls.len() == 0,
    }
}

proof fn lemma_count_token(n: u64)
    ensures
        count_value(decimal_text(n as nat)) == Some(n),
{
    lemma_decimal_round_trip(n as nat);
}

proof fn lemma_spelled_append(a: Seq<Located>, t: Located)
    ensures
        spelled(a.push(t)) == spelled(a) + t.text@,
{
    assert(a.push(t).drop_last() =~= a);
}

/// The tokens of a length's layout spell its text after the `*`.
pub proof fn lemma_length_spelled(l: RelationshipLength, body: Seq<Located>)
    requires
        length_layout(body, l),
    ensures
        "*"@ + spelled(body) == l.text(),
{
    reveal_strlit("*");
    reveal_strlit("..");
    reveal_strlit(".");
    match l {
        RelationshipLength::Exact(n) => {
            assert(body =~= Seq::<Located>::empty().push(body[0]));
            lemma_spelled_append(Seq::<Located>::empty(), body[0]);
            assert("*"@ + spelled(body) =~= l.text());
        },
        RelationshipLength::Range(lo, hi) => {
            let k: int = if lo is Some { 1 } else { 0 };
            let at0 = if let Some(a) = lo { seq![body[0]] } else { Seq::<Located>::empty() };
            let at1 = at0.push(body[k]).push(body[k + 1]);
            let at2 = if let Some(b) = hi { at1.push(body[k + 2]) } else { at1 };
            assert(at2 =~= body);
            if let Some(a) = lo {
                assert(at0 =~= Seq::<Located>::empty().push(body[0]));
                lemma_spelled_append(Seq::<Located>::empty(), body[0]);
            }
            lemma_spelled_append(at0, body[k]);
            lemma_spelled_append(at0.push(body[k]), body[k + 1]);
            if let Some(b) = hi {
                lemma_spelled_append(at1, body[k + 2]);
            }
            assert(spelled(at0) =~= crate::ast::opt_count_text(lo));
            assert(spelled(at2) =~= crate::ast::opt_count_text(lo) + ".."@ + crate::ast::opt_count_text(hi));
            assert("*"@ + spelled(body) =~= l.text());
        },
        RelationshipLength::Variable => {
            assert(body =~= Seq::<Located>::empty());
            assert("*"@ + spelled(body) =~= l.text());
        },
    }
}

/// Reading back the text of a relationship length gives the length again, so
/// writing, reading and writing once more gives the first text; `*..` is the
/// exception, which reads back as any length (`*`).
///
/// `body` holds one token per part of the text after the `*` (a count, each
/// `.`, a count) and the relationship's closing `]` follows it. That is the
/// grammar's token form of the text; the SQL tokenizer reads a count and an
/// adjacent `.` as one numeric token (`1.`, `.3`), which the grammar also
/// accepts.
pub proof fn lemma_length_round_trip(l: RelationshipLength, body: Seq<Located>, rest: Seq<Located>)
    requires
        length_layout(body, l),
        !(l matches RelationshipLength::Range(None, None)),
        rest.len() > 0,
        rest[0].token == Token::Punct(Punct::RBracket),
    ensures
        "*"@ + spelled(body) == l.text(),
        length_grammar(body + rest, 0) == Some((l, body.len() as int)),
{
    let ts = body + rest;
    lemma_length_spelled(l, body);
    assert(skip_ws(ts, body.len() as int) == body.len());
    match l {
        RelationshipLength::Exact(n) => {
            lemma_count_token(n);
            assert(ts[0] == body[0]);
            assert(skip_ws(ts, 0) == 0);
        },
        RelationshipLength::Range(lo, hi) => {
            let k: int = if lo is Some { 1 } else { 0 };
            let e = body.len() as int;
            assert(ts[k] == body[k]);
            assert(ts[k + 1] == body[k + 1]);
            assert(skip_ws(ts, k) == k);
            assert(skip_ws(ts, k + 1) == k + 1);
            assert(skip_ws(ts, k + 2) == k + 2);
            if let Some(a) = lo {
                lemma_count_token(a);
                assert(ts[0] == body[0]);
                assert(skip_ws(ts, 0) == 0);
            }
            if let Some(b) = hi {
                lemma_count_token(b);
                assert(ts[k + 2] == body[k + 2]);
                assert(skip_ws(ts, k + 3) == k + 3);
            } else {
                assert(number_at(ts, e) is None);
            }
        },
        RelationshipLength::Variable => {
            assert(body =~= Seq::<Located>::empty());
            assert(ts =~= rest);
            assert(skip_ws(ts, 0) == 0);
        },
    }
}

// ---------------------------------------------------------------------------
// Patterns without property maps

/// A pattern element as the grammar sees it when no property map is written.
pub enum ElementShape {
    Node { variable: Option<Ident>, labels: Seq<Ident> },
    Relationship {
        variable: Option<Ident>,
        types: Seq<Ident>,
        direction: RelationshipDirection,
        length: Option<RelationshipLength>,
    },
}

pub open spec fn shape_of(e: PatternElement) -> ElementShape {
    match e {
        PatternElement::Node { variable, labels, .. } => ElementShape::Node { variable, labels: labels@ },
        PatternElement::Relationship { variable, types, direction, length, .. } =>
            ElementShape::Relationship { variable, types: types@, direction, length },
    }
}

pub open spec fn has_properties(e: PatternElement) -> bool {
    match e {
        PatternElement::Node { properties, .. } => properties is Some,
        PatternElement::Relationship { properties, .. } => properties is Some,
    }
}

/// `pre` put before the items that a grammar read.
pub open spec fn prefixed<T>(pre: Seq<T>, r: Option<(Seq<T>, int)>) -> Option<(Seq<T>, int)> {
    match r {
        Some((s, e)) => Some((pre + s, e)),
        None => None,
    }
}

/// An identifier read at place `p`, and the place after it.
pub open spec fn ident_grammar(ts: Seq<Located>, p: int) -> Option<(Ident, int)> {
    let q = skip_ws(ts, p);
    if 0 <= q < ts.len() && ident_of(ts[q].token) is Some {
        Some((ident_of(ts[q].token)->Some_0, q + 1))
    } else {
        None
    }
}

/// `:L1:L2...` read at place `p`.
pub open spec fn labels_grammar(ts: Seq<Located>, p: int) -> Option<(Seq<Ident>, int)>
    decreases ts.len() - p,
{
    let q = skip_ws(ts, p);
    if punct_at(ts, q, Punct::Colon) {
        match ident_grammar(ts, q + 1) {
            Some((id, e)) => if p < e <= ts.len() {
                match labels_grammar(ts, e) {
                    Some((rest, e2)) => Some((seq![id] + rest, e2)),
                    None => None,
                }
            } else {
                None
            },
            None => None,
        }
    } else {
        Some((Seq::empty(), p))
    }
}

/// `|T2|T3...` read at place `p`.
pub open spec fn alternatives_grammar(ts: Seq<Located>, p: int) -> Option<(Seq<Ident>, int)>
    decreases ts.len() - p,
{
    let q = skip_ws(ts, p);
    if punct_at(ts, q, Punct::Pipe) {
        match ident_grammar(ts, q + 1) {
            Some((id, e)) => if p < e <= ts.len() {
                match alternatives_grammar(ts, e) {
                    Some((rest, e2)) => Some((seq![id] + rest, e2)),
                    None => None,
                }
            } else {
                None
            },
            None => None,
        }
    } else {
        Some((Seq::empty(), p))
    }
}

/// `:T1|T2:T3...` read at place `p`.
pub open spec fn types_grammar(ts: Seq<Located>, p: int) -> Option<(Seq<Ident>, int)>
    decreases ts.len() - p,
{
    let q = skip_ws(ts, p);
    if punct_at(ts, q, Punct::Colon) {
        match ident_grammar(ts, q + 1) {
            Some((id, e)) => match alternatives_grammar(ts, e) {
                Some((alts, e1)) => if p < e1 <= ts.len() {
                    match types_grammar(ts, e1) {
                        Some((rest, e2)) => Some((seq![id] + alts + rest, e2)),
                        None => None,
                    }
                } else {
                    None
                },
                None => None,
            },
            None => None,
        }
    } else {
        Some((Seq::empty(), p))
    }
}

/// A node read at place `p`, just after its `(`, when it carries no property map.
pub open spec fn node_grammar(ts: Seq<Located>, p: int) -> Option<(ElementShape, int)> {
    let q = skip_ws(ts, p);
    let variable = if word_at(ts, q) { ident_of(ts[q].token) } else { None };
    let at1 = if word_at(ts, q) { q + 1 } else { p };
    match labels_grammar(ts, at1) {
        Some((labels, at2)) => {
            let q2 = skip_ws(ts, at2);
            if punct_at(ts, q2, Punct::RParen) {
                Some((ElementShape::Node { variable, labels }, q2 + 1))
            } else {
                None
            }
        },
        None => None,
    }
}

/// The inside of `[...]` read at place `p`, just after `[`, up to and with
/// the `]`, when it carries no property map.
pub open spec fn bracket_grammar(ts: Seq<Located>, p: int) -> Option<(Option<Ident>, Seq<Ident>, Option<RelationshipLength>, int)> {
    let q = skip_ws(ts, p);
    let named = word_at(ts, q) && (punct_at(ts, skip_ws(ts, q + 1), Punct::Colon)
        || punct_at(ts, skip_ws(ts, q + 1), Punct::RBracket));
    let variable = if named { ident_of(ts[q].token) } else { None };
    let at1 = if named { q + 1 } else { p };
    match types_grammar(ts, at1) {
        Some((types, at2)) => {
            let q2 = skip_ws(ts, at2);
            let length = if punct_at(ts, q2, Punct::Star) { length_grammar(ts, q2 + 1) } else { Some((RelationshipLength::Variable, at2)) };
            match length {
                Some((l, at3)) => {
                    let q3 = skip_ws(ts, at3);
                    if punct_at(ts, q3, Punct::RBracket) {
                        Some((variable, types, if punct_at(ts, q2, Punct::Star) { Some(l) } else { None }, q3 + 1))
                    } else {
                        None
                    }
                },
                None => None,
            }
        },
        None => None,
    }
}

pub open spec fn direction_of(left: bool, right: bool) -> RelationshipDirection {
    if left && right {
        RelationshipDirection::Both
    } else if left {
        RelationshipDirection::Left
    } else if right {
        RelationshipDirection::Right
    } else {
        RelationshipDirection::Undirected
    }
}

/// A relationship read at place `p`, when it carries no property map.
pub open spec fn relationship_grammar(ts: Seq<Located>, p: int) -> Option<(ElementShape, int)> {
    let q0 = skip_ws(ts, p);
    let left = punct_at(ts, q0, Punct::Lt);
    let at1 = if left { q0 + 1 } else { p };
    let q1 = skip_ws(ts, at1);
    if !punct_at(ts, q1, Punct::Minus) {
        None
    } else {
        let q2 = skip_ws(ts, q1 + 1);
        let body = if punct_at(ts, q2, Punct::LBracket) {
            bracket_grammar(ts, q2 + 1)
        } else {
            Some((None, Seq::empty(), None, q1 + 1))
        };
        match body {
            Some((variable, types, length, at3)) => {
                let q3 = skip_ws(ts, at3);
                if punct_at(ts, q3, Punct::Arrow) {
                    Some((ElementShape::Relationship { variable, types, direction: direction_of(left, true), length }, q3 + 1))
                } else if punct_at(ts, q3, Punct::Minus) {
                    let q4 = skip_ws(ts, q3 + 1);
                    if punct_at(ts, q4, Punct::Gt) {
                        Some((ElementShape::Relationship { variable, types, direction: direction_of(left, true), length }, q4 + 1))
                    } else {
                        Some((ElementShape::Relationship { variable, types, direction: direction_of(left, false), length }, q3 + 1))
                    }
                } else {
                    None
                }
            },
            None => None,
        }
    }
}

/// Relationship-and-node steps read at place `p`, while a `-` or `<` follows.
pub open spec fn chain_grammar(ts: Seq<Located>, p: int) -> Option<(Seq<ElementShape>, int)>
    decreases ts.len() - p,
{
    let q = skip_ws(ts, p);
    if punct_at(ts, q, Punct::Minus) || punct_at(ts, q, Punct::Lt) {
        match relationship_grammar(ts, p) {
            Some((rel, e1)) => {
                let q1 = skip_ws(ts, e1);
                if punct_at(ts, q1, Punct::LParen) {
                    match node_grammar(ts, q1 + 1) {
                        Some((node, e2)) => if p < e2 <= ts.len() {
                            match chain_grammar(ts, e2) {
                                Some((rest, e3)) => Some((seq![rel, node] + rest, e3)),
                                None => None,
                            }
                        } else {
                            None
                        },
                        None => None,
                    }
                } else {
                    None
                }
            },
            None => None,
        }
    } else {
        Some((Seq::empty(), p))
    }
}

/// A pattern read at place `p`, when none of its elements carries a property map.
pub open spec fn pattern_grammar(ts: Seq<Located>, p: int) -> Option<(Seq<ElementShape>, int)> {
    let q = skip_ws(ts, p);
    if punct_at(ts, q, Punct::LParen) {
        match node_grammar(ts, q + 1) {
            Some((node, e1)) => match chain_grammar(ts, e1) {
                Some((rest, e2)) => Some((seq![node] + rest, e2)),
                None => None,
            },
            None => None,
        }
    } else {
        None
    }
}

/// Comma-separated patterns read at place `p`, when none carries a property map.
pub open spec fn patterns_grammar(ts: Seq<Located>, p: int) -> Option<(Seq<Seq<ElementShape>>, int)>
    decreases ts.len() - p,
{
    match pattern_grammar(ts, p) {
        Some((shapes, e)) => {
            let q = skip_ws(ts, e);
            if punct_at(ts, q, Punct::Comma) && p < q {
                match patterns_grammar(ts, q + 1) {
                    Some((rest, e2)) => Some((seq![shapes] + rest, e2)),
                    None => None,
                }
            } else {
                Some((seq![shapes], e))
            }
        },
        None => None,
    }
}

/// The shapes of each pattern's elements.
pub open spec fn patterns_shapes(ps: Seq<Pattern>) -> Seq<Seq<ElementShape>> {
    ps.map_values(|p: Pattern| p@.map_values(|el: PatternElement| shape_of(el)))
}

/// No element of any pattern carries a property map.
pub open spec fn patterns_plain(ps: Seq<Pattern>) -> bool {
    forall|i: int, k: int| 0 <= i < ps.len() && 0 <= k < ps[i]@.len() ==> !has_properties(#[trigger] ps[i]@[k])
}

// ---------------------------------------------------------------------------
// Where a pattern fails, and with which message

/// The place after a node's labels, read just after its `(`.
pub open spec fn node_labels_end(ts: Seq<Located>, p: int) -> Option<int> {
    let q = skip_ws(ts, p);
    let at1 = if word_at(ts, q) { q + 1 } else { p };
    match labels_grammar(ts, at1) {
        Some((_, at2)) => Some(at2),
        None => None,
    }
}

/// The message of a node whose labels are followed by neither a property map nor `)`.
pub open spec fn node_error(ts: Seq<Located>, p: int) -> Option<Seq<char>> {
    match node_labels_end(ts, p) {
        Some(at2) => {
            let q2 = skip_ws(ts, at2);
            if !punct_at(ts, q2, Punct::LBrace) && !punct_at(ts, q2, Punct::RParen) {
                Some(expected_message(ts, q2, ")"@))
            } else {
                None
            }
        },
        None => None,
    }
}

/// The place after a relationship's `-` and bracket, before its direction.
pub open spec fn relationship_body_end(ts: Seq<Located>, p: int) -> Option<int> {
    let q0 = skip_ws(ts, p);
    let at1 = if punct_at(ts, q0, Punct::Lt) { q0 + 1 } else { p };
    let q1 = skip_ws(ts, at1);
    if !punct_at(ts, q1, Punct::Minus) {
        None
    } else {
        let q2 = skip_ws(ts, q1 + 1);
        if punct_at(ts, q2, Punct::LBracket) {
            match bracket_grammar(ts, q2 + 1) {
                Some((_, _, _, at3)) => Some(at3),
                None => None,
            }
        } else {
            Some(q1 + 1)
        }
    }
}

/// The message of a relationship followed by neither `-` nor `->`.
pub open spec fn relationship_error(ts: Seq<Located>, p: int) -> Option<Seq<char>> {
    match relationship_body_end(ts, p) {
        Some(at3) => {
            let q3 = skip_ws(ts, at3);
            if !punct_at(ts, q3, Punct::Arrow) && !punct_at(ts, q3, Punct::Minus) {
                Some(expected_message(ts, q3, "relationship direction (- or ->)"@))
            } else {
                None
            }
        },
        None => None,
    }
}

/// The message of the first failing step of a chain read at place `p`.
pub open spec fn chain_error(ts: Seq<Located>, p: int) -> Option<Seq<char>>
    decreases ts.len() - p,
{
    let q = skip_ws(ts, p);
    if punct_at(ts, q, Punct::Minus) || punct_at(ts, q, Punct::Lt) {
        match relationship_error(ts, p) {
            Some(m) => Some(m),
            None => match relationship_grammar(ts, p) {
                Some((_, e1)) => {
                    let q1 = skip_ws(ts, e1);
                    if !punct_at(ts, q1, Punct::LParen) {
                        Some(expected_message(ts, q1, "node after relationship"@))
                    } else {
                        match node_error(ts, q1 + 1) {
                            Some(m) => Some(m),
                            None => match node_grammar(ts, q1 + 1) {
                                Some((_, e2)) => if p < e2 <= ts.len() {
                                    chain_error(ts, e2)
                                } else {
                                    None
                                },
                                None => None,
                            },
                        }
                    }
                },
                None => None,
            },
        }
    } else {
        None
    }
}

/// The message of a pattern read at place `p` that fails on a missing `(`,
/// a node left open, a relationship without direction or a relationship
/// without a node after it.
pub open spec fn pattern_error(ts: Seq<Located>, p: int) -> Option<Seq<char>> {
    let q = skip_ws(ts, p);
    if !punct_at(ts, q, Punct::LParen) {
        Some(expected_message(ts, q, "pattern starting with '('"@))
    } else {
        match node_error(ts, q + 1) {
            Some(m) => Some(m),
            None => match node_grammar(ts, q + 1) {
                Some((_, e1)) => chain_error(ts, e1),
                None => None,
            },
        }
    }
}

/// The message of the first failing pattern of a comma-separated list.
pub open spec fn patterns_error(ts: Seq<Located>, p: int) -> Option<Seq<char>>
    decreases ts.len() - p,
{
    match pattern_error(ts, p) {
        Some(m) => Some(m),
        None => match pattern_grammar(ts, p) {
            Some((_, e)) => {
                let q = skip_ws(ts, e);
                if punct_at(ts, q, Punct::Comma) && p < q {
                    patterns_error(ts, q + 1)
                } else {
                    None
                }
            },
            None => None,
        },
    }
}

} // verus!
