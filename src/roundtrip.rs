//! The tokens of a pattern's canonical text, and the law that reading them
//! gives the pattern back.
use vstd::prelude::*;
use crate::ast::{
    alternating, elements_text, labels_text, opt_ident_text, opt_length_text, types_text, Ident, Pattern,
    PatternElement, RelationshipLength,
};
use crate::grammar::{
    alternatives_grammar, bracket_grammar, chain_grammar, count_token, direction_of, has_properties,
    labels_grammar, lemma_length_spelled, length_grammar, length_layout, node_grammar, pattern_grammar,
    punct_token, relationship_grammar, shape_of, spelled, types_grammar, ElementShape,
};
use crate::parser::{number_at, skip_ws};
use crate::text::{count_value, decimal_text, lemma_decimal_round_trip};
use crate::token::{Located, Punct, Token};

verus! {

pub open spec fn opt_size<T>(o: Option<T>) -> int {
    if o is Some { 1 } else { 0 }
}

/// Place `i` holds the punctuation `p`, written as itself.
pub open spec fn tok_punct(ts: Seq<Located>, i: int, p: Punct) -> bool {
    0 <= i < ts.len() && punct_token(ts[i], p)
}

/// Place `i` holds the word of identifier `id`, written as its text.
pub open spec fn tok_ident(ts: Seq<Located>, i: int, id: Ident) -> bool {
    &&& 0 <= i < ts.len()
    &&& ts[i].token == Token::Word { value: id.value, quote_style: id.quote_style }
    &&& ts[i].text@ == id.text()
}

/// How many tokens a length's text has after its `*`.
pub open spec fn length_size(l: RelationshipLength) -> int {
    match l {
        RelationshipLength::Exact(_) => 1,
        RelationshipLength::Range(lo, hi) => opt_size(lo) + 2 + opt_size(hi),
        RelationshipLength::Variable => 0,
    }
}

/// `:L1:L2...` from place `b`.
pub open spec fn labels_at(ts: Seq<Located>, b: int, labels: Seq<Ident>) -> bool {
    forall|k: int| 0 <= k < labels.len() ==> tok_punct(ts, b + 2 * k, Punct::Colon)
        && tok_ident(ts, b + 2 * k + 1, #[trigger] labels[k])
}

/// `:T1|T2|...` from place `c`.
pub open spec fn types_at(ts: Seq<Located>, c: int, types: Seq<Ident>) -> bool {
    forall|k: int| 0 <= k < types.len() ==> tok_punct(ts, c + 2 * k, if k == 0 { Punct::Colon } else { Punct::Pipe })
        && tok_ident(ts, c + 2 * k + 1, #[trigger] types[k])
}

/// How many tokens an element's text has, with the `-` on either side of a
/// relationship.
pub open spec fn element_size(e: PatternElement) -> int {
    match e {
        PatternElement::Node { variable, labels, .. } => 2 + opt_size(variable) + 2 * labels@.len(),
        PatternElement::Relationship { variable, types, length, .. } => 4 + opt_size(variable) + 2 * types@.len()
            + match length {
                Some(l) => 1 + length_size(l),
                None => 0,
            },
    }
}

/// Places from `i` on hold the tokens of an element's text: `(var:L1:L2)` for
/// a node, `-[var:T1|T2*len]-` for an undirected relationship.
pub open spec fn element_at(ts: Seq<Located>, i: int, e: PatternElement) -> bool {
    match e {
        PatternElement::Node { variable, labels, .. } => {
            &&& tok_punct(ts, i, Punct::LParen)
            &&& variable matches Some(v) ==> tok_ident(ts, i + 1, v)
            &&& labels_at(ts, i + 1 + opt_size(variable), labels@)
            &&& tok_punct(ts, i + element_size(e) - 1, Punct::RParen)
        },
        PatternElement::Relationship { variable, types, length, .. } => {
            let m = i + 2 + opt_size(variable) + 2 * types@.len();
            &&& tok_punct(ts, i, Punct::Minus)
            &&& tok_punct(ts, i + 1, Punct::LBracket)
            &&& variable matches Some(v) ==> tok_ident(ts, i + 2, v)
            &&& types_at(ts, i + 2 + opt_size(variable), types@)
            &&& length matches Some(l) ==> tok_punct(ts, m, Punct::Star)
                && length_layout(ts.subrange(m + 1, m + 1 + length_size(l)), l)
            &&& tok_punct(ts, i + element_size(e) - 2, Punct::RBracket)
            &&& tok_punct(ts, i + element_size(e) - 1, Punct::Minus)
        },
    }
}

pub open spec fn elements_size(es: Seq<PatternElement>) -> int
    decreases es.len(),
{
    if es.len() == 0 {
        0
    } else {
        element_size(es[0]) + elements_size(es.drop_first())
    }
}

/// Places from `i` on hold the tokens of the elements' texts, one after another.
pub open spec fn elements_at(ts: Seq<Located>, i: int, es: Seq<PatternElement>) -> bool
    decreases es.len(),
{
    if es.len() == 0 {
        true
    } else {
        element_at(ts, i, es[0]) && elements_at(ts, i + element_size(es[0]), es.drop_first())
    }
}

/// An element whose canonical text reads back as itself: no property map and,
/// for a relationship, no direction, no `*..` length, and no variable right
/// before a length.
pub open spec fn reads_back(e: PatternElement) -> bool {
    match e {
        PatternElement::Node { properties, .. } => properties is None,
        PatternElement::Relationship { variable, types, properties, direction, length } => {
            &&& properties is None
            &&& direction is Undirected
            &&& !(length matches Some(RelationshipLength::Range(None, None)))
            &&& variable is Some && types@.len() == 0 ==> length is None
        },
    }
}

proof fn lemma_skip_here(ts: Seq<Located>, j: int)
    requires
        0 <= j < ts.len(),
        !(ts[j].token is Whitespace),
    ensures
        skip_ws(ts, j) == j,
{
}

proof fn lemma_labels(ts: Seq<Located>, b: int, labels: Seq<Ident>, k: int)
    requires
        0 <= b,
        0 <= k <= labels.len(),
        labels_at(ts, b, labels),
        0 <= b + 2 * labels.len() < ts.len(),
        !(ts[b + 2 * labels.len()].token is Whitespace),
        ts[b + 2 * labels.len()].token != Token::Punct(Punct::Colon),
    ensures
        labels_grammar(ts, b + 2 * k) == Some((labels.subrange(k, labels.len() as int), b + 2 * labels.len())),
    decreases labels.len() - k,
{
    let n = labels.len() as int;
    if k == n {
        lemma_skip_here(ts, b + 2 * n);
        assert(labels.subrange(k, n) =~= Seq::<Ident>::empty());
    } else {
        let id = labels[k];
        assert(labels_at(ts, b, labels));
        assert(0 <= k < labels.len());
        assert(tok_ident(ts, b + 2 * k + 1, id));
        lemma_skip_here(ts, b + 2 * k);
        lemma_skip_here(ts, b + 2 * k + 1);
        lemma_labels(ts, b, labels, k + 1);
        assert(b + 2 * (k + 1) == b + 2 * k + 2);
        assert(seq![labels[k]] + labels.subrange(k + 1, n) =~= labels.subrange(k, n));
    }
}

proof fn lemma_alternatives(ts: Seq<Located>, c: int, types: Seq<Ident>, k: int)
    requires
        0 <= c,
        1 <= k <= types.len(),
        types_at(ts, c, types),
        0 <= c + 2 * types.len() < ts.len(),
        !(ts[c + 2 * types.len()].token is Whitespace),
        ts[c + 2 * types.len()].token != Token::Punct(Punct::Pipe),
    ensures
        alternatives_grammar(ts, c + 2 * k) == Some((types.subrange(k, types.len() as int), c + 2 * types.len())),
    decreases types.len() - k,
{
    let n = types.len() as int;
    if k == n {
        lemma_skip_here(ts, c + 2 * n);
        assert(types.subrange(k, n) =~= Seq::<Ident>::empty());
    } else {
        assert(tok_ident(ts, c + 2 * k + 1, types[k]));
        assert(tok_punct(ts, c + 2 * k, Punct::Pipe));
        lemma_skip_here(ts, c + 2 * k);
        lemma_skip_here(ts, c + 2 * k + 1);
        lemma_alternatives(ts, c, types, k + 1);
        assert(c + 2 * (k + 1) == c + 2 * k + 2);
        assert(seq![types[k]] + types.subrange(k + 1, n) =~= types.subrange(k, n));
    }
}

proof fn lemma_types(ts: Seq<Located>, c: int, types: Seq<Ident>)
    requires
        0 <= c,
        types_at(ts, c, types),
        0 <= c + 2 * types.len() < ts.len(),
        !(ts[c + 2 * types.len()].token is Whitespace),
        ts[c + 2 * types.len()].token != Token::Punct(Punct::Pipe),
        ts[c + 2 * types.len()].token != Token::Punct(Punct::Colon),
    ensures
        types_grammar(ts, c) == Some((types, c + 2 * types.len())),
{
    let n = types.len() as int;
    if n == 0 {
        lemma_skip_here(ts, c);
        assert(types =~= Seq::<Ident>::empty());
    } else {
        assert(tok_ident(ts, c + 2 * 0 + 1, types[0]));
        assert(tok_punct(ts, c, Punct::Colon));
        lemma_skip_here(ts, c);
        lemma_skip_here(ts, c + 1);
        lemma_alternatives(ts, c, types, 1);
        lemma_skip_here(ts, c + 2 * n);
        assert(types_grammar(ts, c + 2 * n) == Some((Seq::<Ident>::empty(), c + 2 * n)));
        assert(seq![types[0]] + types.subrange(1, n) + Seq::<Ident>::empty() =~= types);
    }
}

proof fn lemma_count_at(ts: Seq<Located>, j: int, n: u64)
    requires
        0 <= j < ts.len(),
        count_token(ts[j], n),
    ensures
        skip_ws(ts, j) == j,
        number_at(ts, j) == Some(decimal_text(n as nat)),
        count_value(decimal_text(n as nat)) == Some(n),
{
    lemma_decimal_round_trip(n as nat);
}

proof fn lemma_length_at(ts: Seq<Located>, p: int, l: RelationshipLength)
    requires
        0 <= p,
        p + length_size(l) < ts.len(),
        length_layout(ts.subrange(p, p + length_size(l)), l),
        !(l matches RelationshipLength::Range(None, None)),
        ts[p + length_size(l)].token == Token::Punct(Punct::RBracket),
    ensures
        length_grammar(ts, p) == Some((l, p + length_size(l))),
{
    let body = ts.subrange(p, p + length_size(l));
    let e = p + length_size(l);
    lemma_skip_here(ts, e);
    match l {
        RelationshipLength::Exact(n) => {
            assert(body[0] == ts[p]);
            lemma_count_at(ts, p, n);
            lemma_skip_here(ts, p + 1);
        },
        RelationshipLength::Range(lo, hi) => {
            let k: int = if lo is Some { 1 } else { 0 };
            assert(body[k] == ts[p + k]);
            assert(body[k + 1] == ts[p + k + 1]);
            lemma_skip_here(ts, p + k);
            lemma_skip_here(ts, p + k + 1);
            if let Some(a) = lo {
                assert(body[0] == ts[p]);
                lemma_count_at(ts, p, a);
            }
            if let Some(b) = hi {
                assert(body[k + 2] == ts[p + k + 2]);
                lemma_count_at(ts, p + k + 2, b);
            } else {
                assert(number_at(ts, e) is None);
            }
            lemma_skip_here(ts, p + k + 2);
        },
        RelationshipLength::Variable => {},
    }
}

proof fn lemma_node(ts: Seq<Located>, i: int, e: PatternElement)
    requires
        0 <= i,
        e is Node,
        element_at(ts, i, e),
    ensures
        node_grammar(ts, i + 1) == Some((shape_of(e), i + element_size(e))),
{
    if let PatternElement::Node { variable, labels, properties } = e {
        let b = i + 1 + opt_size(variable);
        let n = labels@.len() as int;
        if n > 0 {
            assert(tok_ident(ts, b + 2 * 0 + 1, labels@[0]));
        }
        lemma_skip_here(ts, i + 1);
        lemma_labels(ts, b, labels@, 0);
        assert(labels@.subrange(0, n) =~= labels@);
        lemma_skip_here(ts, b + 2 * n);
    }
}

proof fn lemma_relationship(ts: Seq<Located>, i: int, e: PatternElement)
    requires
        0 <= i,
        e is Relationship,
        reads_back(e),
        element_at(ts, i, e),
        tok_punct(ts, i + element_size(e), Punct::LParen),
    ensures
        relationship_grammar(ts, i) == Some((shape_of(e), i + element_size(e))),
{
    if let PatternElement::Relationship { variable, types, properties, direction, length } = e {
        let c = i + 2 + opt_size(variable);
        let n = types@.len() as int;
        let m = c + 2 * n;
        let close = i + element_size(e) - 2;
        lemma_skip_here(ts, i);
        lemma_skip_here(ts, i + 1);
        if n > 0 {
            assert(tok_ident(ts, c + 2 * 0 + 1, types@[0]));
        }
        if variable is None {
            if n == 0 {
                assert(c == m);
            }
        }
        lemma_skip_here(ts, i + 2);
        lemma_skip_here(ts, m);
        lemma_skip_here(ts, close);
        lemma_skip_here(ts, close + 1);
        lemma_skip_here(ts, close + 2);
        if n > 0 {
            assert(tok_punct(ts, c + 2 * 0, Punct::Colon));
        }
        match length {
            Some(l) => {
                lemma_length_at(ts, m + 1, l);
            },
            None => {},
        }
        lemma_types(ts, c, types@);
        if variable is Some {
            lemma_skip_here(ts, i + 3);
        }
        assert(bracket_grammar(ts, i + 2) == Some((variable, types@, length, close + 1)));
        assert(direction == direction_of(false, false));
    }
}

proof fn lemma_chain(ts: Seq<Located>, j: int, rest: Seq<PatternElement>)
    requires
        0 <= j,
        rest.len() % 2 == 0,
        forall|k: int| 0 <= k < rest.len() ==> (#[trigger] rest[k] is Node <==> k % 2 == 1),
        forall|k: int| 0 <= k < rest.len() ==> reads_back(#[trigger] rest[k]),
        elements_at(ts, j, rest),
        j + elements_size(rest) == ts.len() || !(ts[j + elements_size(rest)].token is Whitespace
            || ts[j + elements_size(rest)].token == Token::Punct(Punct::Minus)
            || ts[j + elements_size(rest)].token == Token::Punct(Punct::Lt)),
    ensures
        chain_grammar(ts, j) == Some((rest.map_values(|el: PatternElement| shape_of(el)), j + elements_size(rest))),
    decreases rest.len(),
{
    if rest.len() == 0 {
        if j < ts.len() {
            lemma_skip_here(ts, j);
        }
        assert(rest.map_values(|el: PatternElement| shape_of(el)) =~= Seq::<ElementShape>::empty());
    } else {
        let rel = rest[0];
        let tail1 = rest.drop_first();
        let node = tail1[0];
        let tail = tail1.drop_first();
        assert(rest[1] is Node);
        assert(element_at(ts, j, rel));
        let j1 = j + element_size(rel);
        assert(elements_at(ts, j1, tail1));
        assert(element_at(ts, j1, node));
        let j2 = j1 + element_size(node);
        assert(elements_at(ts, j2, tail));
        assert forall|k: int| 0 <= k < tail.len() implies (#[trigger] tail[k] is Node <==> k % 2 == 1) by {
            assert(tail[k] == rest[k + 2]);
        }
        assert forall|k: int| 0 <= k < tail.len() implies reads_back(#[trigger] tail[k]) by {
            assert(tail[k] == rest[k + 2]);
        }
        assert(elements_size(tail1) == element_size(node) + elements_size(tail));
        assert(elements_size(rest) == element_size(rel) + element_size(node) + elements_size(tail));
        lemma_chain(ts, j2, tail);
        assert(tok_punct(ts, j1, Punct::LParen));
        lemma_skip_here(ts, j);
        lemma_relationship(ts, j, rel);
        lemma_skip_here(ts, j1);
        lemma_node(ts, j1, node);
        let f = |el: PatternElement| shape_of(el);
        assert(seq![shape_of(rel), shape_of(node)] + tail.map_values(f) =~= rest.map_values(f));
    }
}

/// Element texts depend only on the element's shape, where no property map is written.
proof fn lemma_text_by_shape(a: Seq<PatternElement>, b: Seq<PatternElement>)
    requires
        a.map_values(|el: PatternElement| shape_of(el)) == b.map_values(|el: PatternElement| shape_of(el)),
        forall|k: int| 0 <= k < a.len() ==> !has_properties(#[trigger] a[k]),
        forall|k: int| 0 <= k < b.len() ==> !has_properties(#[trigger] b[k]),
    ensures
        elements_text(a) == elements_text(b),
    decreases a.len(),
{
    let f = |el: PatternElement| shape_of(el);
    assert(a.len() == a.map_values(f).len());
    assert(b.len() == b.map_values(f).len());
    assert forall|k: int| 0 <= k < a.len() implies (#[trigger] a[k]).text() == b[k].text() by {
        assert(a.map_values(f)[k] == b.map_values(f)[k]);
        assert(!has_properties(a[k]) && !has_properties(b[k]));
    }
    if a.len() > 0 {
        assert(a.drop_last().map_values(f) =~= a.map_values(f).drop_last());
        assert(b.drop_last().map_values(f) =~= b.map_values(f).drop_last());
        lemma_text_by_shape(a.drop_last(), b.drop_last());
        assert(a.last().text() == b.last().text());
    }
}

proof fn lemma_spelled_split(ts: Seq<Located>, a: int, b: int, c: int)
    requires
        0 <= a <= b <= c <= ts.len(),
    ensures
        spelled(ts.subrange(a, c)) == spelled(ts.subrange(a, b)) + spelled(ts.subrange(b, c)),
    decreases c - b,
{
    if c > b {
        lemma_spelled_split(ts, a, b, c - 1);
        assert(ts.subrange(a, c).drop_last() =~= ts.subrange(a, c - 1));
        assert(ts.subrange(b, c).drop_last() =~= ts.subrange(b, c - 1));
    } else {
        assert(ts.subrange(b, c) =~= Seq::<Located>::empty());
        assert(ts.subrange(a, c) =~= ts.subrange(a, b));
    }
}

proof fn lemma_spelled_one(ts: Seq<Located>, a: int)
    requires
        0 <= a < ts.len(),
    ensures
        spelled(ts.subrange(a, a + 1)) == ts[a].text@,
{
    let s1 = ts.subrange(a, a + 1);
    assert(s1.drop_last() =~= Seq::<Located>::empty());
    assert(s1.last() == ts[a]);
    assert(spelled(Seq::<Located>::empty()) == Seq::<char>::empty());
    assert(spelled(s1) =~= ts[a].text@);
}

proof fn lemma_spelled_two(ts: Seq<Located>, a: int)
    requires
        0 <= a,
        a + 2 <= ts.len(),
    ensures
        spelled(ts.subrange(a, a + 2)) == ts[a].text@ + ts[a + 1].text@,
{
    lemma_spelled_split(ts, a, a + 1, a + 2);
    lemma_spelled_one(ts, a);
    lemma_spelled_one(ts, a + 1);
}

proof fn lemma_labels_spelled(ts: Seq<Located>, b: int, labels: Seq<Ident>, n: int)
    requires
        0 <= b,
        0 <= n <= labels.len(),
        labels_at(ts, b, labels),
        b + 2 * labels.len() <= ts.len(),
    ensures
        spelled(ts.subrange(b, b + 2 * n)) == labels_text(labels.subrange(0, n)),
    decreases n,
{
    reveal_strlit(":");
    if n == 0 {
        assert(ts.subrange(b, b) =~= Seq::<Located>::empty());
        assert(labels.subrange(0, 0) =~= Seq::<Ident>::empty());
    } else {
        lemma_labels_spelled(ts, b, labels, n - 1);
        assert(tok_ident(ts, b + 2 * (n - 1) + 1, labels[n - 1]));
        lemma_spelled_split(ts, b, b + 2 * (n - 1), b + 2 * n);
        lemma_spelled_two(ts, b + 2 * (n - 1));
        let sub = labels.subrange(0, n);
        assert(sub.drop_last() =~= labels.subrange(0, n - 1));
        assert(sub.last() == labels[n - 1]);
        assert(spelled(ts.subrange(b, b + 2 * n)) =~= labels_text(sub));
    }
}

proof fn lemma_types_spelled(ts: Seq<Located>, c: int, types: Seq<Ident>, n: int)
    requires
        0 <= c,
        0 <= n <= types.len(),
        types_at(ts, c, types),
        c + 2 * types.len() <= ts.len(),
    ensures
        spelled(ts.subrange(c, c + 2 * n)) == types_text(types.subrange(0, n)),
    decreases n,
{
    reveal_strlit(":");
    reveal_strlit("|");
    if n == 0 {
        assert(ts.subrange(c, c) =~= Seq::<Located>::empty());
        assert(types.subrange(0, 0) =~= Seq::<Ident>::empty());
    } else {
        lemma_types_spelled(ts, c, types, n - 1);
        assert(tok_ident(ts, c + 2 * (n - 1) + 1, types[n - 1]));
        lemma_spelled_split(ts, c, c + 2 * (n - 1), c + 2 * n);
        lemma_spelled_two(ts, c + 2 * (n - 1));
        let sub = types.subrange(0, n);
        assert(sub.drop_last() =~= types.subrange(0, n - 1));
        assert(sub.last() == types[n - 1]);
        assert(spelled(ts.subrange(c, c + 2 * n)) =~= types_text(sub));
    }
}

/// The text that an element's tokens spell: a node's text, and a
/// relationship's text with the `-` on either side.
pub open spec fn element_piece(e: PatternElement) -> Seq<char> {
    match e {
        PatternElement::Node { .. } => e.text(),
        PatternElement::Relationship { .. } => "-"@ + e.text() + "-"@,
    }
}

pub open spec fn pieces(es: Seq<PatternElement>) -> Seq<char>
    decreases es.len(),
{
    if es.len() == 0 {
        Seq::empty()
    } else {
        element_piece(es[0]) + pieces(es.drop_first())
    }
}

proof fn lemma_opt_ident_spelled(ts: Seq<Located>, a: int, v: Option<Ident>)
    requires
        0 <= a,
        a + opt_size(v) <= ts.len(),
        v matches Some(id) ==> tok_ident(ts, a, id),
    ensures
        spelled(ts.subrange(a, a + opt_size(v))) == opt_ident_text(v),
{
    if let Some(id) = v {
        lemma_spelled_one(ts, a);
    } else {
        assert(ts.subrange(a, a) =~= Seq::<Located>::empty());
    }
}

proof fn lemma_node_spelled(ts: Seq<Located>, i: int, e: PatternElement)
    requires
        0 <= i,
        i + element_size(e) <= ts.len(),
        e is Node,
        element_at(ts, i, e),
        reads_back(e),
    ensures
        spelled(ts.subrange(i, i + element_size(e))) == element_piece(e),
{
    reveal_strlit("(");
    reveal_strlit(")");
    let end = i + element_size(e);
    if let PatternElement::Node { variable, labels, properties } = e {
        let b = i + 1 + opt_size(variable);
        let n = labels@.len() as int;
        lemma_spelled_split(ts, i, i + 1, end);
        lemma_spelled_one(ts, i);
        lemma_spelled_split(ts, i + 1, b, end);
        lemma_opt_ident_spelled(ts, i + 1, variable);
        lemma_spelled_split(ts, b, b + 2 * n, end);
        lemma_labels_spelled(ts, b, labels@, n);
        assert(labels@.subrange(0, n) =~= labels@);
        assert(end == b + 2 * n + 1);
        lemma_spelled_one(ts, b + 2 * n);
        let t_var = opt_ident_text(variable);
        let t_labels = labels_text(labels@);
        assert(spelled(ts.subrange(b, end)) == t_labels + ")"@);
        assert(spelled(ts.subrange(i + 1, end)) == t_var + (t_labels + ")"@));
        assert(spelled(ts.subrange(i, end)) == "("@ + (t_var + (t_labels + ")"@)));
        assert(spelled(ts.subrange(i, end)) =~= element_piece(e));
    }
}

proof fn lemma_relationship_spelled(ts: Seq<Located>, i: int, e: PatternElement)
    requires
        0 <= i,
        i + element_size(e) <= ts.len(),
        e is Relationship,
        element_at(ts, i, e),
        reads_back(e),
    ensures
        spelled(ts.subrange(i, i + element_size(e))) == element_piece(e),
{
    reveal_strlit("[");
    reveal_strlit("]");
    reveal_strlit("-");
    let end = i + element_size(e);
    if let PatternElement::Relationship { variable, types, properties, direction, length } = e {
        let c = i + 2 + opt_size(variable);
        let n = types@.len() as int;
        let m = c + 2 * n;
        let close = end - 2;
        lemma_spelled_split(ts, i, i + 2, end);
        lemma_spelled_two(ts, i);
        lemma_spelled_split(ts, i + 2, c, end);
        lemma_opt_ident_spelled(ts, i + 2, variable);
        lemma_spelled_split(ts, c, m, end);
        lemma_types_spelled(ts, c, types@, n);
        assert(types@.subrange(0, n) =~= types@);
        lemma_spelled_split(ts, m, close, end);
        lemma_spelled_two(ts, close);
        match length {
            Some(l) => {
                lemma_spelled_split(ts, m, m + 1, close);
                lemma_spelled_one(ts, m);
                lemma_length_spelled(l, ts.subrange(m + 1, close));
            },
            None => {
                assert(ts.subrange(m, close) =~= Seq::<Located>::empty());
            },
        }
        let t_len = opt_length_text(length);
        assert(spelled(ts.subrange(m, close)) =~= t_len);
        let t_var = opt_ident_text(variable);
        let t_types = types_text(types@);
        assert(spelled(ts.subrange(m, end)) == t_len + ("]"@ + "-"@));
        assert(spelled(ts.subrange(c, end)) == t_types + (t_len + ("]"@ + "-"@)));
        assert(spelled(ts.subrange(i + 2, end)) == t_var + (t_types + (t_len + ("]"@ + "-"@))));
        assert(spelled(ts.subrange(i, end)) == ("-"@ + "["@) + (t_var + (t_types + (t_len + ("]"@ + "-"@)))));
        assert(e.text() =~= "["@ + t_var + t_types + t_len + "]"@);
        assert(spelled(ts.subrange(i, end)) =~= element_piece(e));
    }
}

proof fn lemma_elements_spelled(ts: Seq<Located>, i: int, es: Seq<PatternElement>)
    requires
        0 <= i,
        i + elements_size(es) <= ts.len(),
        elements_at(ts, i, es),
        forall|k: int| 0 <= k < es.len() ==> reads_back(#[trigger] es[k]),
    ensures
        spelled(ts.subrange(i, i + elements_size(es))) == pieces(es),
    decreases es.len(),
{
    if es.len() == 0 {
        assert(ts.subrange(i, i) =~= Seq::<Located>::empty());
    } else {
        let j = i + element_size(es[0]);
        let rest = es.drop_first();
        assert forall|k: int| 0 <= k < rest.len() implies reads_back(#[trigger] rest[k]) by {
            assert(rest[k] == es[k + 1]);
        }
        lemma_elements_size_nonneg(rest);
        lemma_element_size_pos(es[0]);
        lemma_elements_spelled(ts, j, rest);
        if es[0] is Node {
            lemma_node_spelled(ts, i, es[0]);
        } else {
            lemma_relationship_spelled(ts, i, es[0]);
        }
        lemma_spelled_split(ts, i, j, i + elements_size(es));
    }
}

proof fn lemma_element_size_pos(e: PatternElement)
    ensures
        element_size(e) >= 2,
{
    match e {
        PatternElement::Relationship { length, .. } => {
            if let Some(l) = length {
                match l {
                    RelationshipLength::Range(_, _) => {},
                    _ => {},
                }
            }
        },
        _ => {},
    }
}

proof fn lemma_elements_size_nonneg(es: Seq<PatternElement>)
    ensures
        elements_size(es) >= 0,
    decreases es.len(),
{
    if es.len() > 0 {
        lemma_element_size_pos(es[0]);
        lemma_elements_size_nonneg(es.drop_first());
    }
}

proof fn lemma_pieces_push(es: Seq<PatternElement>, x: PatternElement)
    ensures
        pieces(es.push(x)) == pieces(es) + element_piece(x),
    decreases es.len(),
{
    if es.len() == 0 {
        assert(es.push(x).drop_first() =~= Seq::<PatternElement>::empty());
        assert(pieces(Seq::<PatternElement>::empty()) == Seq::<char>::empty());
        assert(pieces(es) == Seq::<char>::empty());
        assert(pieces(es.push(x)) =~= pieces(es) + element_piece(x));
    } else {
        assert(es.push(x).drop_first() =~= es.drop_first().push(x));
        lemma_pieces_push(es.drop_first(), x);
        assert(pieces(es.push(x)) =~= pieces(es) + element_piece(x));
    }
}

proof fn lemma_pieces_text(es: Seq<PatternElement>)
    requires
        alternating(es),
    ensures
        pieces(es) == elements_text(es),
    decreases es.len(),
{
    reveal_strlit("-");
    if es.len() == 1 {
        assert(es.drop_first() =~= Seq::<PatternElement>::empty());
        assert(pieces(Seq::<PatternElement>::empty()) == Seq::<char>::empty());
        assert(pieces(es) =~= es[0].text());
    } else {
        let init = es.drop_last();
        let init2 = init.drop_last();
        assert(es[es.len() - 2] is Relationship);
        assert(es[es.len() - 1] is Node);
        assert forall|k: int| 0 <= k < init2.len() implies (#[trigger] init2[k] is Node <==> k % 2 == 0) by {
            assert(init2[k] == es[k]);
        }
        lemma_pieces_text(init2);
        assert(init2.push(es[es.len() - 2]) =~= init);
        assert(init.push(es[es.len() - 1]) =~= es);
        lemma_pieces_push(init2, es[es.len() - 2]);
        lemma_pieces_push(init, es[es.len() - 1]);
        assert(init2.len() >= 1);
        assert(init.drop_last() =~= init2);
        assert(elements_text(init) == elements_text(init2) + "-"@ + init.last().text());
        assert(pieces(es) =~= elements_text(es));
    }
}

proof fn lemma_elements_end(ts: Seq<Located>, i: int, es: Seq<PatternElement>)
    requires
        0 <= i,
        es.len() > 0,
        elements_at(ts, i, es),
    ensures
        i + elements_size(es) <= ts.len(),
    decreases es.len(),
{
    let e = es[0];
    assert(element_at(ts, i, e));
    assert(tok_punct(ts, i + element_size(e) - 1, if e is Node { Punct::RParen } else { Punct::Minus }));
    lemma_element_size_pos(e);
    assert(elements_size(es) == element_size(e) + elements_size(es.drop_first()));
    if es.len() > 1 {
        lemma_elements_end(ts, i + element_size(e), es.drop_first());
    } else {
        assert(es.drop_first() =~= Seq::<PatternElement>::empty());
        assert(elements_size(es.drop_first()) == 0);
    }
}

proof fn lemma_pattern_grammar(p: Pattern, ts: Seq<Located>, i: int)
    requires
        p.wf(),
        forall|k: int| 0 <= k < p@.len() ==> reads_back(#[trigger] p@[k]),
        0 <= i,
        elements_at(ts, i, p@),
        i + elements_size(p@) == ts.len() || !(ts[i + elements_size(p@)].token is Whitespace
            || ts[i + elements_size(p@)].token == Token::Punct(Punct::Minus)
            || ts[i + elements_size(p@)].token == Token::Punct(Punct::Lt)),
    ensures
        pattern_grammar(ts, i) == Some((p@.map_values(|el: PatternElement| shape_of(el)), i + elements_size(p@))),
{
    let es = p@;
    let first = es[0];
    let tail = es.drop_first();
    assert(alternating(es));
    assert(es[0] is Node);
    assert(element_at(ts, i, first));
    let j = i + element_size(first);
    assert(elements_at(ts, j, tail));
    assert(elements_size(es) == element_size(first) + elements_size(tail));
    assert forall|k: int| 0 <= k < tail.len() implies (#[trigger] tail[k] is Node <==> k % 2 == 1) by {
        assert(tail[k] == es[k + 1]);
    }
    assert forall|k: int| 0 <= k < tail.len() implies reads_back(#[trigger] tail[k]) by {
        assert(tail[k] == es[k + 1]);
    }
    lemma_chain(ts, j, tail);
    lemma_skip_here(ts, i);
    lemma_node(ts, i, first);
    let f = |el: PatternElement| shape_of(el);
    assert(seq![shape_of(first)] + tail.map_values(f) =~= es.map_values(f));
}

/// Reading the tokens of a pattern's canonical text gives the pattern back,
/// so that writing it again gives the same text. This holds for patterns
/// whose elements carry no property map (their values go to the expression
/// parser) and whose relationships are undirected: a directed relationship is
/// written `[..]>` or `<[..]`, which the grammar does not read.
///
/// `ts` holds the pattern's tokens from place `i` on, in the grammar's token
/// form (`element_at`: a length has one token per count and per `.`),
/// followed by the end or by a token that does not continue a pattern.
pub proof fn lemma_pattern_round_trip(p: Pattern, ts: Seq<Located>, i: int)
    requires
        p.wf(),
        forall|k: int| 0 <= k < p@.len() ==> reads_back(#[trigger] p@[k]),
        0 <= i,
        elements_at(ts, i, p@),
        i + elements_size(p@) == ts.len() || !(ts[i + elements_size(p@)].token is Whitespace
            || ts[i + elements_size(p@)].token == Token::Punct(Punct::Minus)
            || ts[i + elements_size(p@)].token == Token::Punct(Punct::Lt)),
    ensures
        spelled(ts.subrange(i, i + elements_size(p@))) == p.text(),
        pattern_grammar(ts, i) == Some((p@.map_values(|el: PatternElement| shape_of(el)), i + elements_size(p@))),
        forall|q: Pattern| #![auto]
            q@.map_values(|el: PatternElement| shape_of(el)) == p@.map_values(|el: PatternElement| shape_of(el))
            && (forall|k: int| 0 <= k < q@.len() ==> !has_properties(#[trigger] q@[k]))
            ==> q.text() == p.text(),
{
    let es = p@;
    assert(alternating(es));
    lemma_pattern_grammar(p, ts, i);
    lemma_elements_end(ts, i, es);
    lemma_elements_spelled(ts, i, es);
    lemma_pieces_text(es);
    let f = |el: PatternElement| shape_of(el);
    assert forall|q: Pattern| #![auto]
        q@.map_values(f) == es.map_values(f) && (forall|k: int| 0 <= k < q@.len() ==> !has_properties(#[trigger] q@[k]))
        implies q.text() == p.text() by {
        assert forall|k: int| 0 <= k < es.len() implies !has_properties(#[trigger] es[k]) by {
            assert(reads_back(es[k]));
        }
        lemma_text_by_shape(q@, es);
    }
}

} // verus!
