//! The statement tree of the Cypher grammar and its canonical text.
use vstd::prelude::*;
use crate::text::{decimal, decimal_text, push_char, push_text};

verus! {

/// An identifier, with the quote character it was delimited by, if any.
pub struct Ident {
    pub value: String,
    pub quote_style: Option<char>,
}

/// An expression of the SQL expression language, held as its canonical text.
pub struct Expr {
    pub text: String,
}

/// A property map `{key: value, ...}`, keys in the order written.
pub struct PropertyMap {
    pub entries: Vec<(Ident, Expr)>,
}

/// Direction of a relationship.
pub enum RelationshipDirection {
    /// `<-[..]-`
    Left,
    /// `-[..]->`
    Right,
    /// `<-[..]->`
    Both,
    /// `-[..]-`
    Undirected,
}

/// How many hops a relationship may span.
pub enum RelationshipLength {
    /// Exactly n hops: `*n`.
    Exact(u64),
    /// From min to max hops, either bound open: `*min..max`.
    Range(Option<u64>, Option<u64>),
    /// Any number of hops: `*`.
    Variable,
}

/// A node or a relationship of a pattern.
pub enum PatternElement {
    Node {
        variable: Option<Ident>,
        labels: Vec<Ident>,
        properties: Option<PropertyMap>,
    },
    Relationship {
        variable: Option<Ident>,
        types: Vec<Ident>,
        properties: Option<PropertyMap>,
        direction: RelationshipDirection,
        length: Option<RelationshipLength>,
    },
}

/// A chain of nodes joined by relationships: node, relationship, node, ...
pub struct Pattern {
    elements: Vec<PatternElement>,
}

/// One projection item of a RETURN clause.
pub enum ReturnItem {
    /// An expression without alias.
    Expr(Expr),
    /// `expr AS alias`.
    Aliased { expr: Expr, alias: Ident },
    /// `*`.
    Wildcard,
    /// `alias.*` and other qualified wildcards, as written.
    QualifiedWildcard(String),
}

/// An ORDER BY key: the expression and the modifiers written after it
/// (` ASC`, ` DESC`, ` NULLS FIRST`, ...), as text.
pub struct OrderKey {
    pub expr: Expr,
    pub options: String,
}

/// `RETURN [DISTINCT] items [ORDER BY keys] [SKIP n] [LIMIT n]`.
pub struct ReturnClause {
    pub distinct: bool,
    pub items: Vec<ReturnItem>,
    pub order_by: Vec<OrderKey>,
    pub limit: Option<Expr>,
    pub skip: Option<Expr>,
}

/// What a SET assignment changes.
pub enum SetTarget {
    /// `variable.property`
    Property { variable: Ident, property: Ident },
    /// `variable`
    Variable(Ident),
    /// `variable:Label`
    Label { variable: Ident, label: Ident },
}

/// `target = value`.
pub struct SetClause {
    pub target: SetTarget,
    pub value: Expr,
}

/// A Cypher statement.
pub enum CypherStatement {
    /// `[OPTIONAL] MATCH patterns [WHERE condition] [RETURN ...]`
    Match {
        optional: bool,
        patterns: Vec<Pattern>,
        where_clause: Option<Expr>,
        return_clause: Option<ReturnClause>,
    },
    /// `CREATE patterns`
    Create { patterns: Vec<Pattern> },
    /// `MERGE patterns [ON CREATE SET ...] [ON MATCH SET ...]`
    Merge {
        patterns: Vec<Pattern>,
        on_create: Option<Vec<SetClause>>,
        on_match: Option<Vec<SetClause>>,
    },
    /// `[DETACH] DELETE targets [WHERE condition]`
    Delete { detach: bool, what: Vec<Expr>, where_clause: Option<Expr> },
}

// ---------------------------------------------------------------------------
// Well-formedness

/// Nodes stand at the even places and relationships at the odd ones, and the
/// chain starts and ends with a node.
pub open spec fn alternating(elements: Seq<PatternElement>) -> bool {
    &&& elements.len() % 2 == 1
    &&& forall|i: int| 0 <= i < elements.len() ==> (#[trigger] elements[i] is Node <==> i % 2 == 0)
}

impl Pattern {
    pub closed spec fn view(&self) -> Seq<PatternElement> {
        self.elements@
    }

    pub open spec fn wf(&self) -> bool {
        alternating(self@)
    }

    /// Builds a pattern; `None` unless the elements alternate node,
    /// relationship, node, ..., starting and ending with a node.
    pub fn new(elements: Vec<PatternElement>) -> (r: Option<Pattern>)
        ensures
            r is Some <==> alternating(elements@),
            r matches Some(p) ==> p@ == elements@ && p.wf(),
    {
        let n = elements.len();
        if n % 2 == 0 {
            return None;
        }
        let mut i: usize = 0;
        while i < n
            invariant
                n == elements@.len(),
                i <= n,
                forall|j: int| 0 <= j < i ==> (#[trigger] elements@[j] is Node <==> j % 2 == 0),
            decreases n - i,
        {
            let is_node = match &elements[i] {
                PatternElement::Node { .. } => true,
                PatternElement::Relationship { .. } => false,
            };
            if is_node != (i % 2 == 0) {
                return None;
            }
            i = i + 1;
        }
        Some(Pattern { elements })
    }

    /// The elements, in order.
    pub fn elements(&self) -> (r: &Vec<PatternElement>)
        ensures
            r@ == self@,
    {
        &self.elements
    }
}

pub open spec fn patterns_wf(ps: Seq<Pattern>) -> bool {
    forall|i: int| 0 <= i < ps.len() ==> #[trigger] ps[i].wf()
}

// ---------------------------------------------------------------------------
// Canonical text

/// What sqlparser's quote escaping makes of `v` between the quotes `q`.
pub uninterp spec fn escaped_quotes(v: Seq<char>, q: char) -> Seq<char>;

/// Relies on sqlparser's `escape_quoted_string` and its `Display`: the text
/// that an identifier quoted by `q` shows between its quotes.
#[verifier::external_body]
fn escape_quoted(v: &str, q: char) -> (r: String)
    ensures
        r@ == escaped_quotes(v@, q),
{
    sqlparser::ast::escape_quoted_string(v, q).to_string()
}

pub open spec fn opt_count_text(o: Option<u64>) -> Seq<char> {
    match o {
        Some(n) => decimal_text(n as nat),
        None => Seq::empty(),
    }
}

impl Ident {
    /// Bare, or between its quotes with sqlparser's escaping inside;
    /// `[`-quoted identifiers close with `]`.
    pub open spec fn text(&self) -> Seq<char> {
        match self.quote_style {
            None => self.value@,
            Some(q) => if q == '[' {
                seq!['['] + self.value@ + seq![']']
            } else {
                seq![q] + escaped_quotes(self.value@, q) + seq![q]
            },
        }
    }

    pub fn write(&self, out: &mut String)
        ensures
            final(out)@ == old(out)@ + self.text(),
    {
        match self.quote_style {
            None => push_text(out, self.value.as_str()),
            Some(q) => {
                if q == '[' {
                    push_text(out, "[");
                    push_text(out, self.value.as_str());
                    push_text(out, "]");
                    proof {
                        reveal_strlit("[");
                        reveal_strlit("]");
                    }
                    assert(final(out)@ =~= old(out)@ + self.text());
                } else {
                    push_char(out, q);
                    let escaped = escape_quoted(self.value.as_str(), q);
                    push_text(out, escaped.as_str());
                    push_char(out, q);
                    assert(final(out)@ =~= old(out)@ + self.text());
                }
            },
        }
    }
}

impl Expr {
    pub open spec fn text(&self) -> Seq<char> {
        self.text@
    }
}

pub open spec fn entries_text(es: Seq<(Ident, Expr)>) -> Seq<char>
    decreases es.len(),
{
    if es.len() == 0 {
        Seq::empty()
    } else {
        let last = es.last();
        let item = last.0.text() + ": "@ + last.1.text();
        if es.len() == 1 {
            item
        } else {
            entries_text(es.drop_last()) + ", "@ + item
        }
    }
}

impl PropertyMap {
    pub open spec fn text(&self) -> Seq<char> {
        "{"@ + entries_text(self.entries@) + "}"@
    }

    pub fn write(&self, out: &mut String)
        ensures
            final(out)@ == old(out)@ + self.text(),
    {
        proof {
            reveal_strlit("{");
            reveal_strlit("}");
            reveal_strlit(": ");
            reveal_strlit(", ");
        }
        push_text(out, "{");
        let ghost start = out@;
        let mut i: usize = 0;
        while i < self.entries.len()
            invariant
                i <= self.entries@.len(),
                out@ == start + entries_text(self.entries@.subrange(0, i as int)),
            decreases self.entries@.len() - i,
        {
            let ghost sub = self.entries@.subrange(0, i + 1);
            assert(sub.drop_last() =~= self.entries@.subrange(0, i as int));
            if i > 0 {
                push_text(out, ", ");
            }
            self.entries[i].0.write(out);
            push_text(out, ": ");
            push_text(out, self.entries[i].1.text.as_str());
            i = i + 1;
            assert(out@ =~= start + entries_text(self.entries@.subrange(0, i as int)));
        }
        assert(self.entries@.subrange(0, self.entries@.len() as int) =~= self.entries@);
        push_text(out, "}");
        assert(final(out)@ =~= old(out)@ + self.text());
    }
}

impl RelationshipLength {
    /// `*n`, `*min..max` with either bound left out, or `*`.
    pub open spec fn text(&self) -> Seq<char> {
        match self {
            RelationshipLength::Exact(n) => "*"@ + decimal_text(*n as nat),
            RelationshipLength::Range(lo, hi) => "*"@ + opt_count_text(*lo) + ".."@ + opt_count_text(*hi),
            RelationshipLength::Variable => "*"@,
        }
    }

    pub fn write(&self, out: &mut String)
        ensures
            final(out)@ == old(out)@ + self.text(),
    {
        proof {
            reveal_strlit("*");
            reveal_strlit("..");
        }
        push_text(out, "*");
        match self {
            RelationshipLength::Exact(n) => {
                push_text(out, decimal(*n).as_str());
            },
            RelationshipLength::Range(lo, hi) => {
                if let Some(v) = lo {
                    push_text(out, decimal(*v).as_str());
                }
                push_text(out, "..");
                if let Some(v) = hi {
                    push_text(out, decimal(*v).as_str());
                }
            },
            RelationshipLength::Variable => {},
        }
        assert(final(out)@ =~= old(out)@ + self.text());
    }

    pub fn to_text(&self) -> (r: String)
        ensures
            r@ == self.text(),
    {
        let mut s = String::new();
        self.write(&mut s);
        s
    }
}

pub open spec fn opt_ident_text(v: Option<Ident>) -> Seq<char> {
    match v {
        Some(i) => i.text(),
        None => Seq::empty(),
    }
}

pub open spec fn opt_props_text(p: Option<PropertyMap>) -> Seq<char> {
    match p {
        Some(m) => " "@ + m.text(),
        None => Seq::empty(),
    }
}

pub open spec fn opt_length_text(l: Option<RelationshipLength>) -> Seq<char> {
    match l {
        Some(l) => l.text(),
        None => Seq::empty(),
    }
}

/// `:L1:L2...`
pub open spec fn labels_text(ls: Seq<Ident>) -> Seq<char>
    decreases ls.len(),
{
    if ls.len() == 0 {
        Seq::empty()
    } else {
        labels_text(ls.drop_last()) + ":"@ + ls.last().text()
    }
}

/// `:T1|T2|...`
pub open spec fn types_text(ts: Seq<Ident>) -> Seq<char>
    decreases ts.len(),
{
    if ts.len() == 0 {
        Seq::empty()
    } else {
        types_text(ts.drop_last()) + (if ts.len() == 1 { ":"@ } else { "|"@ }) + ts.last().text()
    }
}

pub open spec fn opens_left(d: RelationshipDirection) -> bool {
    d is Left || d is Both
}

pub open spec fn opens_right(d: RelationshipDirection) -> bool {
    d is Right || d is Both
}

impl PatternElement {
    /// A node as `(var:L1:L2 {props})`; a relationship as `[var:T1|T2*len {props}]`,
    /// led by `<` when it points left or both ways and closed by `>` when it
    /// points right or both ways.
    pub open spec fn text(&self) -> Seq<char> {
        match self {
            PatternElement::Node { variable, labels, properties } =>
                "("@ + opt_ident_text(*variable) + labels_text(labels@) + opt_props_text(*properties) + ")"@,
            PatternElement::Relationship { variable, types, properties, direction, length } =>
                (if opens_left(*direction) { "<"@ } else { Seq::empty() })
                + "["@ + opt_ident_text(*variable) + types_text(types@) + opt_length_text(*length)
                + opt_props_text(*properties) + "]"@
                + (if opens_right(*direction) { ">"@ } else { Seq::empty() }),
        }
    }

    pub fn write(&self, out: &mut String)
        ensures
            final(out)@ == old(out)@ + self.text(),
    {
        proof {
            reveal_strlit("(");
            reveal_strlit(")");
            reveal_strlit("[");
            reveal_strlit("]");
            reveal_strlit("<");
            reveal_strlit(">");
        }
        match self {
            PatternElement::Node { variable, labels, properties } => {
                let ghost o = out@;
                push_text(out, "(");
                write_opt_ident(variable, out);
                assert(out@ =~= o + ("("@ + opt_ident_text(*variable)));
                write_labels(labels, out);
                assert(out@ =~= o + ("("@ + opt_ident_text(*variable) + labels_text(labels@)));
                write_opt_props(properties, out);
                assert(out@ =~= o + ("("@ + opt_ident_text(*variable) + labels_text(labels@)
                    + opt_props_text(*properties)));
                push_text(out, ")");
                assert(final(out)@ =~= old(out)@ + self.text());
            },
            PatternElement::Relationship { variable, types, properties, direction, length } => {
                write_relationship(variable, types, properties, direction, length, out);
            },
        }
    }
}

fn write_relationship(
    variable: &Option<Ident>,
    types: &Vec<Ident>,
    properties: &Option<PropertyMap>,
    direction: &RelationshipDirection,
    length: &Option<RelationshipLength>,
    out: &mut String,
)
    ensures
        final(out)@ == old(out)@ + (PatternElement::Relationship {
            variable: *variable,
            types: *types,
            properties: *properties,
            direction: *direction,
            length: *length,
        }).text(),
{
    proof {
        reveal_strlit("[");
        reveal_strlit("]");
        reveal_strlit("<");
        reveal_strlit(">");
    }
    let ghost o = out@;
    let ghost pre = if opens_left(*direction) { "<"@ } else { Seq::<char>::empty() };
    let ghost suf = if opens_right(*direction) { ">"@ } else { Seq::<char>::empty() };
    match direction {
        RelationshipDirection::Left => push_text(out, "<"),
        RelationshipDirection::Both => push_text(out, "<"),
        _ => {},
    }
    assert(out@ =~= o + pre);
    push_text(out, "[");
    write_opt_ident(variable, out);
    let ghost t1 = pre + "["@ + opt_ident_text(*variable);
    assert(out@ =~= o + t1);
    write_types(types, out);
    let ghost t2 = t1 + types_text(types@);
    assert(out@ =~= o + t2);
    write_opt_length(length, out);
    let ghost t3 = t2 + opt_length_text(*length);
    assert(out@ =~= o + t3);
    write_opt_props(properties, out);
    let ghost t4 = t3 + opt_props_text(*properties);
    assert(out@ =~= o + t4);
    push_text(out, "]");
    let ghost t5 = t4 + "]"@;
    assert(out@ =~= o + t5);
    match direction {
        RelationshipDirection::Right => push_text(out, ">"),
        RelationshipDirection::Both => push_text(out, ">"),
        _ => {},
    }
    assert(out@ =~= o + (t5 + suf));
}

fn write_opt_length(l: &Option<RelationshipLength>, out: &mut String)
    ensures
        final(out)@ == old(out)@ + opt_length_text(*l),
{
    if let Some(l) = l {
        l.write(out);
    } else {
        assert(final(out)@ =~= old(out)@ + opt_length_text(*l));
    }
}

fn write_opt_ident(v: &Option<Ident>, out: &mut String)
    ensures
        final(out)@ == old(out)@ + opt_ident_text(*v),
{
    if let Some(v) = v {
        v.write(out);
    } else {
        assert(final(out)@ =~= old(out)@ + opt_ident_text(*v));
    }
}

fn write_opt_props(p: &Option<PropertyMap>, out: &mut String)
    ensures
        final(out)@ == old(out)@ + opt_props_text(*p),
{
    proof {
        reveal_strlit(" ");
    }
    if let Some(m) = p {
        push_text(out, " ");
        m.write(out);
    }
    assert(final(out)@ =~= old(out)@ + opt_props_text(*p));
}

fn write_labels(labels: &Vec<Ident>, out: &mut String)
    ensures
        final(out)@ == old(out)@ + labels_text(labels@),
{
    proof {
        reveal_strlit(":");
    }
    let ghost s1 = out@;
    let mut i: usize = 0;
    while i < labels.len()
        invariant
            i <= labels@.len(),
            out@ == s1 + labels_text(labels@.subrange(0, i as int)),
        decreases labels@.len() - i,
    {
        assert(labels@.subrange(0, i + 1).drop_last() =~= labels@.subrange(0, i as int));
        push_text(out, ":");
        labels[i].write(out);
        i = i + 1;
        assert(out@ =~= s1 + labels_text(labels@.subrange(0, i as int)));
    }
    assert(labels@.subrange(0, labels@.len() as int) =~= labels@);
}

fn write_types(types: &Vec<Ident>, out: &mut String)
    ensures
        final(out)@ == old(out)@ + types_text(types@),
{
    proof {
        reveal_strlit(":");
        reveal_strlit("|");
    }
    let ghost s1 = out@;
    let mut i: usize = 0;
    while i < types.len()
        invariant
            i <= types@.len(),
            out@ == s1 + types_text(types@.subrange(0, i as int)),
        decreases types@.len() - i,
    {
        assert(types@.subrange(0, i + 1).drop_last() =~= types@.subrange(0, i as int));
        if i == 0 {
            push_text(out, ":");
        } else {
            push_text(out, "|");
        }
        types[i].write(out);
        i = i + 1;
        assert(out@ =~= s1 + types_text(types@.subrange(0, i as int)));
    }
    assert(types@.subrange(0, types@.len() as int) =~= types@);
}

/// The elements' texts joined by `-`.
pub open spec fn elements_text(es: Seq<PatternElement>) -> Seq<char>
    decreases es.len(),
{
    if es.len() == 0 {
        Seq::empty()
    } else if es.len() == 1 {
        es[0].text()
    } else {
        elements_text(es.drop_last()) + "-"@ + es.last().text()
    }
}

impl Pattern {
    pub open spec fn text(&self) -> Seq<char> {
        elements_text(self@)
    }

    pub fn write(&self, out: &mut String)
        ensures
            final(out)@ == old(out)@ + self.text(),
    {
        proof {
            reveal_strlit("-");
        }
        let ghost start = out@;
        let mut i: usize = 0;
        while i < self.elements.len()
            invariant
                i <= self@.len(),
                self@ == self.elements@,
                out@ == start + elements_text(self@.subrange(0, i as int)),
            decreases self@.len() - i,
        {
            let ghost sub = self@.subrange(0, i + 1);
            assert(sub.drop_last() =~= self@.subrange(0, i as int));
            if i > 0 {
                push_text(out, "-");
            } else {
                assert(sub =~= seq![self@[0]]);
            }
            self.elements[i].write(out);
            i = i + 1;
            assert(out@ =~= start + elements_text(self@.subrange(0, i as int)));
        }
        assert(self@.subrange(0, self@.len() as int) =~= self@);
    }

    pub fn to_text(&self) -> (r: String)
        ensures
            r@ == self.text(),
    {
        let mut s = String::new();
        self.write(&mut s);
        s
    }
}

/// The patterns' texts joined by `, `.
pub open spec fn patterns_text(ps: Seq<Pattern>) -> Seq<char>
    decreases ps.len(),
{
    if ps.len() == 0 {
        Seq::empty()
    } else if ps.len() == 1 {
        ps[0].text()
    } else {
        patterns_text(ps.drop_last()) + ", "@ + ps.last().text()
    }
}

pub fn write_patterns(ps: &Vec<Pattern>, out: &mut String)
    ensures
        final(out)@ == old(out)@ + patterns_text(ps@),
{
    proof {
        reveal_strlit(", ");
    }
    let ghost start = out@;
    let mut i: usize = 0;
    while i < ps.len()
        invariant
            i <= ps@.len(),
            out@ == start + patterns_text(ps@.subrange(0, i as int)),
        decreases ps@.len() - i,
    {
        let ghost sub = ps@.subrange(0, i + 1);
        assert(sub.drop_last() =~= ps@.subrange(0, i as int));
        if i > 0 {
            push_text(out, ", ");
        } else {
            assert(sub =~= seq![ps@[0]]);
        }
        ps[i].write(out);
        i = i + 1;
        assert(out@ =~= start + patterns_text(ps@.subrange(0, i as int)));
    }
    assert(ps@.subrange(0, ps@.len() as int) =~= ps@);
}

} // verus!
