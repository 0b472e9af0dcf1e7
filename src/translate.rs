//! Translation of Cypher statements into SQL over a node table and a
//! relationship table.
use vstd::prelude::*;
use vstd::string::StrSliceExecFns;
use crate::ast::{CypherStatement, Expr, Ident, OrderKey, Pattern, PatternElement, ReturnClause, ReturnItem, SetClause};
use crate::error::{CypherError, ParseError, TranslationError};
use crate::grammar::{patterns_grammar, patterns_shapes};
use crate::parser::{
    delete_grammar, merge_blocks, expected_message, full_patterns_grammar, patterns_views, keyword_at, match_result, match_rest_reads, skip_ws, starts_statement, statement_opening_error,
    statement_patterns_error, Parser,
};
use crate::token::{lexed, query_tokens, Located};
use crate::text::{decimal, decimal_text, push_text};

verus! {

/// How graph data is laid out in tables.
pub struct TransformConfig {
    /// The table that holds nodes: `id`, `label`, `properties`.
    pub node_table: String,
    /// The table that holds relationships: `from_id`, `to_id`, `type`, `properties`.
    pub relationship_table: String,
    /// Whether a labelled node lives in a table named after its first label.
    pub use_label_tables: bool,
}

impl TransformConfig {
    /// Nodes in `nodes`, relationships in `relationships`, one table per label.
    pub fn default() -> (r: TransformConfig)
        ensures
            r.node_table@ == "nodes"@,
            r.relationship_table@ == "relationships"@,
            r.use_label_tables,
    {
        proof {
            reveal_strlit("nodes");
            reveal_strlit("relationships");
        }
        TransformConfig {
            node_table: String::from_str("nodes"),
            relationship_table: String::from_str("relationships"),
            use_label_tables: true,
        }
    }

    /// Nodes in `nodes` and relationships in `relationships`, labels as a column.
    pub fn single_node_table() -> (r: TransformConfig)
        ensures
            r.node_table@ == "nodes"@,
            r.relationship_table@ == "relationships"@,
            !r.use_label_tables,
    {
        proof {
            reveal_strlit("nodes");
            reveal_strlit("relationships");
        }
        TransformConfig {
            node_table: String::from_str("nodes"),
            relationship_table: String::from_str("relationships"),
            use_label_tables: false,
        }
    }
}

// ---------------------------------------------------------------------------
// The translation of MATCH patterns, as a fold over their elements

/// What the elements read so far contribute to a SELECT.
pub struct MatchPlan {
    /// Nodes and relationships counted so far, across all patterns.
    pub nodes: nat,
    pub rels: nat,
    /// The alias of the last node.
    pub prev: Seq<char>,
    /// The alias of the last element, where that is a relationship.
    pub after_rel: Option<Seq<char>>,
    /// `table alias` of the first node.
    pub from: Option<Seq<char>>,
    /// `JOIN ...` clauses, in order.
    pub joins: Seq<Seq<char>>,
    /// Predicates to be ANDed, in order.
    pub conds: Seq<Seq<char>>,
}

pub open spec fn empty_plan() -> MatchPlan {
    MatchPlan { nodes: 0, rels: 0, prev: Seq::empty(), after_rel: None, from: None, joins: Seq::empty(), conds: Seq::empty() }
}

/// The variable's name, or `prefix` followed by the element's number.
pub open spec fn alias_text(variable: Option<Ident>, prefix: Seq<char>, k: nat) -> Seq<char> {
    match variable {
        Some(v) => v.value@,
        None => prefix + decimal_text(k),
    }
}

/// The table of a node: its first label's with label tables, else the node table.
pub open spec fn node_table_text(cfg: TransformConfig, labels: Seq<Ident>) -> Seq<char> {
    if cfg.use_label_tables && labels.len() > 0 {
        labels[0].value@
    } else {
        cfg.node_table@
    }
}

/// `alias.column = 'value'`.
pub open spec fn equals_text(alias: Seq<char>, column: Seq<char>, value: Seq<char>) -> Seq<char> {
    alias + "."@ + column + " = '"@ + value + "'"@
}

/// `alias.type = 'T1' OR alias.type = 'T2' ...`, from the first type up to `n`.
pub open spec fn type_alternatives(alias: Seq<char>, types: Seq<Ident>) -> Seq<char>
    decreases types.len(),
{
    if types.len() == 0 {
        Seq::empty()
    } else if types.len() == 1 {
        equals_text(alias, "type"@, types[0].value@)
    } else {
        type_alternatives(alias, types.drop_last()) + " OR "@ + equals_text(alias, "type"@, types.last().value@)
    }
}

/// The predicate on a relationship's type: any of the declared types, in
/// parentheses when there are several.
pub open spec fn type_condition(alias: Seq<char>, types: Seq<Ident>) -> Seq<char> {
    if types.len() == 1 {
        type_alternatives(alias, types)
    } else {
        "("@ + type_alternatives(alias, types) + ")"@
    }
}

/// How a node joins: to the `to_id` of the relationship just before it, or,
/// where it opens a pattern, unconditionally.
pub open spec fn node_join_condition(after_rel: Option<Seq<char>>, a: Seq<char>) -> Seq<char> {
    match after_rel {
        Some(r) => r + ".to_id = "@ + a + ".id"@,
        None => "TRUE"@,
    }
}

/// One element's contribution.
pub open spec fn plan_step(cfg: TransformConfig, st: MatchPlan, e: PatternElement) -> MatchPlan {
    match e {
        PatternElement::Node { variable, labels, .. } => {
            let k = st.nodes + 1;
            let a = alias_text(variable, "n"@, k);
            let table = node_table_text(cfg, labels@);
            let conds = if !cfg.use_label_tables && labels@.len() > 0 {
                st.conds.push(equals_text(a, "label"@, labels@[0].value@))
            } else {
                st.conds
            };
            match st.from {
                None => MatchPlan { nodes: k, prev: a, after_rel: None, from: Some(table + " "@ + a), conds, ..st },
                Some(_) => MatchPlan {
                    nodes: k,
                    prev: a,
                    after_rel: None,
                    joins: st.joins.push("JOIN "@ + table + " "@ + a + " ON "@ + node_join_condition(st.after_rel, a)),
                    conds,
                    ..st
                },
            }
        },
        PatternElement::Relationship { variable, types, .. } => {
            let k = st.rels + 1;
            let a = alias_text(variable, "r"@, k);
            let join = "JOIN "@ + cfg.relationship_table@ + " "@ + a + " ON "@ + st.prev + ".id = "@ + a
                + ".from_id"@;
            let conds = if types@.len() > 0 {
                st.conds.push(type_condition(a, types@))
            } else {
                st.conds
            };
            MatchPlan { rels: k, after_rel: Some(a), joins: st.joins.push(join), conds, ..st }
        },
    }
}

pub open spec fn plan_elements(cfg: TransformConfig, st: MatchPlan, es: Seq<PatternElement>) -> MatchPlan
    decreases es.len(),
{
    if es.len() == 0 {
        st
    } else {
        plan_step(cfg, plan_elements(cfg, st, es.drop_last()), es.last())
    }
}

/// The contribution of all patterns, read left to right with one node
/// counter and one relationship counter.
pub open spec fn plan_patterns(cfg: TransformConfig, ps: Seq<Pattern>) -> MatchPlan
    decreases ps.len(),
{
    if ps.len() == 0 {
        empty_plan()
    } else {
        plan_elements(cfg, plan_patterns(cfg, ps.drop_last()), ps.last()@)
    }
}

/// How many elements the patterns hold in all.
pub open spec fn element_count(ps: Seq<Pattern>) -> nat
    decreases ps.len(),
{
    if ps.len() == 0 {
        0
    } else {
        element_count(ps.drop_last()) + ps.last()@.len()
    }
}

pub open spec fn texts(v: Seq<String>) -> Seq<Seq<char>> {
    v.map_values(|s: String| s@)
}

pub open spec fn opt_text(o: Option<String>) -> Option<Seq<char>> {
    match o {
        Some(s) => Some(s@),
        None => None,
    }
}

proof fn lemma_texts_push(v: Seq<String>, s: String)
    ensures
        texts(v.push(s)) == texts(v).push(s@),
{
    assert(texts(v.push(s)) =~= texts(v).push(s@));
}

/// The running state of the fold over pattern elements.
struct PlanBuilder {
    nodes: u64,
    rels: u64,
    prev: String,
    after_rel: Option<String>,
    from: Option<String>,
    joins: Vec<String>,
    conds: Vec<String>,
}

impl PlanBuilder {
    closed spec fn view(&self) -> MatchPlan {
        MatchPlan {
            nodes: self.nodes as nat,
            rels: self.rels as nat,
            prev: self.prev@,
            after_rel: opt_text(self.after_rel),
            from: opt_text(self.from),
            joins: texts(self.joins@),
            conds: texts(self.conds@),
        }
    }

    fn new() -> (r: PlanBuilder)
        ensures
            r@ == empty_plan(),
    {
        let r = PlanBuilder {
            nodes: 0,
            rels: 0,
            prev: String::new(),
            after_rel: None,
            from: None,
            joins: Vec::new(),
            conds: Vec::new(),
        };
        assert(r@.joins =~= Seq::<Seq<char>>::empty());
        assert(r@.conds =~= Seq::<Seq<char>>::empty());
        r
    }
}

fn alias(variable: &Option<Ident>, prefix: &str, k: u64) -> (r: String)
    ensures
        r@ == alias_text(*variable, prefix@, k as nat),
{
    match variable {
        Some(v) => v.value.clone(),
        None => {
            let mut s = String::from_str(prefix);
            push_text(&mut s, decimal(k).as_str());
            s
        },
    }
}

fn equals(alias: &String, column: &str, value: &String) -> (r: String)
    ensures
        r@ == equals_text(alias@, column@, value@),
{
    proof {
        reveal_strlit(".");
        reveal_strlit(" = '");
        reveal_strlit("'");
    }
    let mut s = alias.clone();
    push_text(&mut s, ".");
    push_text(&mut s, column);
    push_text(&mut s, " = '");
    push_text(&mut s, value.as_str());
    push_text(&mut s, "'");
    assert(s@ =~= equals_text(alias@, column@, value@));
    s
}

fn write_type_condition(alias: &String, types: &Vec<Ident>) -> (r: String)
    ensures
        r@ == type_condition(alias@, types@),
{
    proof {
        reveal_strlit("type");
        reveal_strlit(" OR ");
        reveal_strlit("(");
        reveal_strlit(")");
    }
    let mut alts = String::new();
    let mut i: usize = 0;
    while i < types.len()
        invariant
            i <= types@.len(),
            alts@ == type_alternatives(alias@, types@.subrange(0, i as int)),
        decreases types@.len() - i,
    {
        let ghost sub = types@.subrange(0, i + 1);
        assert(sub.drop_last() =~= types@.subrange(0, i as int));
        if i > 0 {
            push_text(&mut alts, " OR ");
        }
        let eq = equals(alias, "type", &types[i].value);
        push_text(&mut alts, eq.as_str());
        i = i + 1;
        assert(alts@ =~= type_alternatives(alias@, types@.subrange(0, i as int)));
    }
    assert(types@.subrange(0, types@.len() as int) =~= types@);
    if types.len() == 1 {
        alts
    } else {
        let mut s = String::from_str("(");
        push_text(&mut s, alts.as_str());
        push_text(&mut s, ")");
        s
    }
}

/// Adds one element to the plan.
fn add_element(cfg: &TransformConfig, b: &mut PlanBuilder, e: &PatternElement)
    requires
        old(b).nodes < u64::MAX,
        old(b).rels < u64::MAX,
    ensures
        final(b)@ == plan_step(*cfg, old(b)@, *e),
        final(b).nodes + final(b).rels == old(b).nodes + old(b).rels + 1,
{
    proof {
        reveal_strlit("n");
        reveal_strlit("r");
        reveal_strlit("label");
        reveal_strlit(" ");
        reveal_strlit("JOIN ");
        reveal_strlit("TRUE");
        reveal_strlit(".to_id = ");
        reveal_strlit(".id");
        reveal_strlit(" ON ");
        reveal_strlit(".id = ");
        reveal_strlit(".from_id");
    }
    match e {
        PatternElement::Node { variable, labels, .. } => {
            let k = b.nodes + 1;
            let a = alias(variable, "n", k);
            let table = if cfg.use_label_tables && labels.len() > 0 {
                labels[0].value.clone()
            } else {
                cfg.node_table.clone()
            };
            if !cfg.use_label_tables && labels.len() > 0 {
                let c = equals(&a, "label", &labels[0].value);
                proof {
                    lemma_texts_push(b.conds@, c);
                }
                b.conds.push(c);
            }
            let mut entry = table;
            if b.from.is_none() {
                push_text(&mut entry, " ");
                push_text(&mut entry, a.as_str());
                b.from = Some(entry);
            } else {
                let mut j = String::from_str("JOIN ");
                push_text(&mut j, entry.as_str());
                push_text(&mut j, " ");
                push_text(&mut j, a.as_str());
                push_text(&mut j, " ON ");
                match &b.after_rel {
                    Some(r) => {
                        push_text(&mut j, r.as_str());
                        push_text(&mut j, ".to_id = ");
                        push_text(&mut j, a.as_str());
                        push_text(&mut j, ".id");
                    },
                    None => push_text(&mut j, "TRUE"),
                }
                assert(j@ =~= "JOIN "@ + entry@ + " "@ + a@ + " ON "@ + node_join_condition(opt_text(b.after_rel), a@));
                proof {
                    lemma_texts_push(b.joins@, j);
                }
                b.joins.push(j);
            }
            b.nodes = k;
            b.prev = a;
            b.after_rel = None;
        },
        PatternElement::Relationship { variable, types, .. } => {
            let k = b.rels + 1;
            let a = alias(variable, "r", k);
            let mut j = String::from_str("JOIN ");
            push_text(&mut j, cfg.relationship_table.as_str());
            push_text(&mut j, " ");
            push_text(&mut j, a.as_str());
            push_text(&mut j, " ON ");
            push_text(&mut j, b.prev.as_str());
            push_text(&mut j, ".id = ");
            push_text(&mut j, a.as_str());
            push_text(&mut j, ".from_id");
            proof {
                lemma_texts_push(b.joins@, j);
            }
            b.joins.push(j);
            if types.len() > 0 {
                let c = write_type_condition(&a, types);
                proof {
                    lemma_texts_push(b.conds@, c);
                }
                b.conds.push(c);
            }
            b.rels = k;
            b.after_rel = Some(a);
        },
    }
    assert(b@ =~= plan_step(*cfg, old(b)@, *e));
}

// ---------------------------------------------------------------------------
// Projection items and ORDER BY keys

/// Place `i` holds the only `.` of `t`.
pub open spec fn sole_dot(t: Seq<char>, i: int) -> bool {
    &&& 0 <= i < t.len()
    &&& t[i] == '.'
    &&& forall|j: int| 0 <= j < t.len() && j != i ==> t[j] != '.'
}

/// `var.prop` split at its only dot; `None` for text with no dot or several.
pub open spec fn split_property(t: Seq<char>) -> Option<(Seq<char>, Seq<char>)> {
    if exists|i: int| sole_dot(t, i) {
        let i = choose|i: int| sole_dot(t, i);
        Some((t.subrange(0, i), t.subrange(i + 1, t.len() as int)))
    } else {
        None
    }
}

/// Reading property `prop` of the `properties` column of `var`.
pub open spec fn json_extract_text(var: Seq<char>, prop: Seq<char>) -> Seq<char> {
    "json_extract("@ + var + ".properties, '$."@ + prop + "')"@
}

/// A projection item in SQL: a property access becomes a JSON read named
/// after the property (or the alias); other expressions and wildcards pass
/// through as written.
pub open spec fn item_sql(it: ReturnItem) -> Seq<char> {
    match it {
        ReturnItem::Expr(e) => match split_property(e.text@) {
            Some((v, p)) => json_extract_text(v, p) + " as "@ + p,
            None => e.text@,
        },
        ReturnItem::Aliased { expr, alias } => match split_property(expr.text@) {
            Some((v, p)) => json_extract_text(v, p) + " AS "@ + alias.text(),
            None => expr.text@ + " AS "@ + alias.text(),
        },
        ReturnItem::Wildcard => "*"@,
        ReturnItem::QualifiedWildcard(w) => w@,
    }
}

/// An ORDER BY key in SQL, always ascending, property accesses rewritten.
pub open spec fn key_sql(k: OrderKey) -> Seq<char> {
    match split_property(k.expr.text@) {
        Some((v, p)) => json_extract_text(v, p) + " ASC"@,
        None => k.expr.text@ + " ASC"@,
    }
}

fn split_at_dot(t: &str) -> (r: Option<(String, String)>)
    ensures
        match split_property(t@) {
            Some((v, p)) => r matches Some(x) && x.0@ == v && x.1@ == p,
            None => r is None,
        },
{
    let n = t.unicode_len();
    let mut i: usize = 0;
    while i < n && t.get_char(i) != '.'
        invariant
            n == t@.len(),
            i <= n,
            forall|j: int| 0 <= j < i ==> t@[j] != '.',
        decreases n - i,
    {
        i = i + 1;
    }
    if i == n {
        assert(!exists|k: int| sole_dot(t@, k));
        return None;
    }
    let mut j: usize = i + 1;
    while j < n && t.get_char(j) != '.'
        invariant
            n == t@.len(),
            i < j <= n,
            t@[i as int] == '.',
            forall|k: int| 0 <= k < i ==> t@[k] != '.',
            forall|k: int| i < k < j ==> t@[k] != '.',
        decreases n - j,
    {
        j = j + 1;
    }
    if j < n {
        assert(!exists|k: int| sole_dot(t@, k)) by {
            if exists|k: int| sole_dot(t@, k) {
                let k = choose|k: int| sole_dot(t@, k);
                if k == i {
                    assert(t@[j as int] != '.');
                } else {
                    assert(t@[i as int] != '.');
                }
            }
        }
        return None;
    }
    assert(sole_dot(t@, i as int));
    proof {
        let k = choose|k: int| sole_dot(t@, k);
        if k != i {
            assert(t@[i as int] != '.');
        }
    }
    let var = String::from_str(t.substring_char(0, i));
    let prop = String::from_str(t.substring_char(i + 1, n));
    Some((var, prop))
}

fn json_extract(var: &String, prop: &String) -> (r: String)
    ensures
        r@ == json_extract_text(var@, prop@),
{
    proof {
        reveal_strlit("json_extract(");
        reveal_strlit(".properties, '$.");
        reveal_strlit("')");
    }
    let mut s = String::from_str("json_extract(");
    push_text(&mut s, var.as_str());
    push_text(&mut s, ".properties, '$.");
    push_text(&mut s, prop.as_str());
    push_text(&mut s, "')");
    assert(s@ =~= json_extract_text(var@, prop@));
    s
}

fn item_to_sql(it: &ReturnItem) -> (r: String)
    ensures
        r@ == item_sql(*it),
{
    proof {
        reveal_strlit(" as ");
        reveal_strlit(" AS ");
        reveal_strlit("*");
    }
    match it {
        ReturnItem::Expr(e) => match split_at_dot(e.text.as_str()) {
            Some((v, p)) => {
                let mut s = json_extract(&v, &p);
                push_text(&mut s, " as ");
                push_text(&mut s, p.as_str());
                s
            },
            None => e.text.clone(),
        },
        ReturnItem::Aliased { expr, alias } => {
            let mut s = match split_at_dot(expr.text.as_str()) {
                Some((v, p)) => json_extract(&v, &p),
                None => expr.text.clone(),
            };
            push_text(&mut s, " AS ");
            alias.write(&mut s);
            s
        },
        ReturnItem::Wildcard => String::from_str("*"),
        ReturnItem::QualifiedWildcard(w) => w.clone(),
    }
}

fn key_to_sql(k: &OrderKey) -> (r: String)
    ensures
        r@ == key_sql(*k),
{
    proof {
        reveal_strlit(" ASC");
    }
    let mut s = match split_at_dot(k.expr.text.as_str()) {
        Some((v, p)) => json_extract(&v, &p),
        None => k.expr.text.clone(),
    };
    push_text(&mut s, " ASC");
    s
}

// ---------------------------------------------------------------------------
// SQL statements

/// A SELECT, clause by clause, each clause as SQL text.
pub struct SelectQuery {
    pub distinct: bool,
    pub projection: Vec<String>,
    /// `table alias` of the first node; absent only when no node was matched.
    pub from: Option<String>,
    pub joins: Vec<String>,
    /// Predicates, ANDed.
    pub conditions: Vec<String>,
    pub order_by: Vec<String>,
    pub limit: Option<String>,
    pub offset: Option<String>,
}

/// An INSERT of one row.
pub struct InsertStatement {
    pub table: String,
    pub columns: Vec<String>,
    pub values: Vec<String>,
}

/// A statement of the relational side.
pub enum SqlStatement {
    Select(SelectQuery),
    Insert(InsertStatement),
}

/// Texts joined by `sep`.
pub open spec fn join_with(ts: Seq<Seq<char>>, sep: Seq<char>) -> Seq<char>
    decreases ts.len(),
{
    if ts.len() == 0 {
        Seq::empty()
    } else if ts.len() == 1 {
        ts[0]
    } else {
        join_with(ts.drop_last(), sep) + sep + ts.last()
    }
}

pub open spec fn opt_part(head: Seq<char>, o: Option<String>) -> Seq<char> {
    match o {
        Some(s) => head + s@,
        None => Seq::empty(),
    }
}

pub open spec fn list_part(head: Seq<char>, v: Seq<String>, sep: Seq<char>) -> Seq<char> {
    if v.len() > 0 {
        head + join_with(texts(v), sep)
    } else {
        Seq::empty()
    }
}

impl SelectQuery {
    /// `SELECT [DISTINCT] items FROM from [joins] [WHERE ...] [ORDER BY ...] [LIMIT n] [OFFSET n]`;
    /// an empty projection selects `*`.
    pub open spec fn text(&self) -> Seq<char> {
        "SELECT "@ + (if self.distinct { "DISTINCT "@ } else { Seq::empty() })
            + (if self.projection@.len() == 0 { "*"@ } else { join_with(texts(self.projection@), ", "@) })
            + " FROM "@ + opt_part(Seq::empty(), self.from) + list_part(" "@, self.joins@, " "@)
            + list_part(" WHERE "@, self.conditions@, " AND "@) + list_part(" ORDER BY "@, self.order_by@, ", "@)
            + opt_part(" LIMIT "@, self.limit) + opt_part(" OFFSET "@, self.offset)
    }
}

impl InsertStatement {
    pub open spec fn text(&self) -> Seq<char> {
        "INSERT INTO "@ + self.table@ + " ("@ + join_with(texts(self.columns@), ", "@) + ") VALUES ("@
            + join_with(texts(self.values@), ", "@) + ")"@
    }
}

impl SqlStatement {
    pub open spec fn text(&self) -> Seq<char> {
        match self {
            SqlStatement::Select(q) => q.text(),
            SqlStatement::Insert(i) => i.text(),
        }
    }
}

fn write_joined(v: &Vec<String>, sep: &str, out: &mut String)
    ensures
        final(out)@ == old(out)@ + join_with(texts(v@), sep@),
{
    let ghost ts = texts(v@);
    let ghost start = out@;
    let mut i: usize = 0;
    while i < v.len()
        invariant
            i <= v@.len(),
            ts == texts(v@),
            out@ == start + join_with(ts.subrange(0, i as int), sep@),
        decreases v@.len() - i,
    {
        let ghost sub = ts.subrange(0, i + 1);
        assert(sub.drop_last() =~= ts.subrange(0, i as int));
        if i > 0 {
            push_text(out, sep);
        } else {
            assert(sub =~= seq![ts[0]]);
        }
        push_text(out, v[i].as_str());
        i = i + 1;
        assert(out@ =~= start + join_with(ts.subrange(0, i as int), sep@));
    }
    assert(ts.subrange(0, v@.len() as int) =~= ts);
}

fn write_list_part(head: &str, v: &Vec<String>, sep: &str, out: &mut String)
    ensures
        final(out)@ == old(out)@ + list_part(head@, v@, sep@),
{
    if v.len() > 0 {
        push_text(out, head);
        write_joined(v, sep, out);
        assert(final(out)@ =~= old(out)@ + list_part(head@, v@, sep@));
    } else {
        assert(final(out)@ =~= old(out)@ + list_part(head@, v@, sep@));
    }
}

fn write_opt_part(head: &str, o: &Option<String>, out: &mut String)
    ensures
        final(out)@ == old(out)@ + opt_part(head@, *o),
{
    if let Some(s) = o {
        push_text(out, head);
        push_text(out, s.as_str());
    }
    assert(final(out)@ =~= old(out)@ + opt_part(head@, *o));
}

impl SelectQuery {
    pub fn to_sql(&self) -> (r: String)
        ensures
            r@ == self.text(),
    {
        proof {
            reveal_strlit("SELECT ");
            reveal_strlit("DISTINCT ");
            reveal_strlit("*");
            reveal_strlit(" FROM ");
            reveal_strlit("");
        }
        let mut s = String::from_str("SELECT ");
        if self.distinct {
            push_text(&mut s, "DISTINCT ");
        }
        if self.projection.len() == 0 {
            push_text(&mut s, "*");
        } else {
            write_joined(&self.projection, ", ", &mut s);
        }
        push_text(&mut s, " FROM ");
        write_opt_part("", &self.from, &mut s);
        write_list_part(" ", &self.joins, " ", &mut s);
        write_list_part(" WHERE ", &self.conditions, " AND ", &mut s);
        write_list_part(" ORDER BY ", &self.order_by, ", ", &mut s);
        write_opt_part(" LIMIT ", &self.limit, &mut s);
        write_opt_part(" OFFSET ", &self.offset, &mut s);
        assert(s@ =~= self.text());
        s
    }
}

impl InsertStatement {
    pub fn to_sql(&self) -> (r: String)
        ensures
            r@ == self.text(),
    {
        proof {
            reveal_strlit("INSERT INTO ");
            reveal_strlit(" (");
            reveal_strlit(") VALUES (");
            reveal_strlit(")");
        }
        let mut s = String::from_str("INSERT INTO ");
        push_text(&mut s, self.table.as_str());
        push_text(&mut s, " (");
        write_joined(&self.columns, ", ", &mut s);
        push_text(&mut s, ") VALUES (");
        write_joined(&self.values, ", ", &mut s);
        push_text(&mut s, ")");
        assert(s@ =~= self.text());
        s
    }
}

impl SqlStatement {
    /// The statement as SQL text.
    pub fn to_sql(&self) -> (r: String)
        ensures
            r@ == self.text(),
    {
        match self {
            SqlStatement::Select(q) => q.to_sql(),
            SqlStatement::Insert(i) => i.to_sql(),
        }
    }
}

// ---------------------------------------------------------------------------
// MATCH

pub open spec fn expr_text_opt(e: Option<Expr>) -> Option<Seq<char>> {
    match e {
        Some(e) => Some(e.text@),
        None => None,
    }
}

/// `q` is the SELECT that a MATCH with these parts translates to.
pub open spec fn match_select(
    cfg: TransformConfig,
    patterns: Seq<Pattern>,
    where_clause: Option<Expr>,
    ret: Option<ReturnClause>,
    q: SelectQuery,
) -> bool {
    let plan = plan_patterns(cfg, patterns);
    &&& q.distinct == match ret {
        Some(c) => c.distinct,
        None => false,
    }
    &&& texts(q.projection@) == match ret {
        Some(c) => c.items@.map_values(|it: ReturnItem| item_sql(it)),
        None => seq!["*"@],
    }
    &&& opt_text(q.from) == plan.from
    &&& texts(q.joins@) == plan.joins
    &&& texts(q.conditions@) == match where_clause {
        Some(w) => plan.conds.push(w.text@),
        None => plan.conds,
    }
    &&& texts(q.order_by@) == match ret {
        Some(c) => c.order_by@.map_values(|k: OrderKey| key_sql(k)),
        None => Seq::empty(),
    }
    &&& opt_text(q.limit) == match ret {
        Some(c) => expr_text_opt(c.limit),
        None => None,
    }
    &&& opt_text(q.offset) == match ret {
        Some(c) => expr_text_opt(c.skip),
        None => None,
    }
}

proof fn lemma_element_count_prefix(ps: Seq<Pattern>, i: int)
    requires
        0 <= i <= ps.len(),
    ensures
        element_count(ps.subrange(0, i)) <= element_count(ps),
    decreases ps.len() - i,
{
    if i < ps.len() {
        lemma_element_count_prefix(ps, i + 1);
        assert(ps.subrange(0, i + 1).drop_last() =~= ps.subrange(0, i));
    } else {
        assert(ps.subrange(0, i) =~= ps);
    }
}

fn build_plan(cfg: &TransformConfig, ps: &Vec<Pattern>) -> (r: PlanBuilder)
    requires
        element_count(ps@) < u64::MAX,
    ensures
        r@ == plan_patterns(*cfg, ps@),
{
    let mut b = PlanBuilder::new();
    let mut i: usize = 0;
    while i < ps.len()
        invariant
            i <= ps@.len(),
            element_count(ps@) < u64::MAX,
            b@ == plan_patterns(*cfg, ps@.subrange(0, i as int)),
            b.nodes + b.rels == element_count(ps@.subrange(0, i as int)),
        decreases ps@.len() - i,
    {
        let ghost sub = ps@.subrange(0, i + 1);
        assert(sub.drop_last() =~= ps@.subrange(0, i as int));
        proof {
            lemma_element_count_prefix(ps@, i + 1);
        }
        let es = ps[i].elements();
        let ghost base = b@;
        let ghost count = b.nodes + b.rels;
        let mut j: usize = 0;
        while j < es.len()
            invariant
                j <= es@.len(),
                es@ == ps@[i as int]@,
                count + es@.len() <= element_count(ps@),
                element_count(ps@) < u64::MAX,
                b.nodes + b.rels == count + j,
                b@ == plan_elements(*cfg, base, es@.subrange(0, j as int)),
            decreases es@.len() - j,
        {
            assert(es@.subrange(0, j + 1).drop_last() =~= es@.subrange(0, j as int));
            add_element(cfg, &mut b, &es[j]);
            j = j + 1;
        }
        assert(es@.subrange(0, es@.len() as int) =~= es@);
        i = i + 1;
    }
    assert(ps@.subrange(0, ps@.len() as int) =~= ps@);
    b
}

fn projection(ret: &Option<ReturnClause>) -> (r: Vec<String>)
    ensures
        texts(r@) == match *ret {
            Some(c) => c.items@.map_values(|it: ReturnItem| item_sql(it)),
            None => seq!["*"@],
        },
{
    proof {
        reveal_strlit("*");
    }
    let mut v: Vec<String> = Vec::new();
    match ret {
        Some(c) => {
            let mut i: usize = 0;
            while i < c.items.len()
                invariant
                    i <= c.items@.len(),
                    texts(v@) == c.items@.subrange(0, i as int).map_values(|it: ReturnItem| item_sql(it)),
                decreases c.items@.len() - i,
            {
                let t = item_to_sql(&c.items[i]);
                proof {
                    lemma_texts_push(v@, t);
                }
                v.push(t);
                i = i + 1;
                assert(texts(v@) =~= c.items@.subrange(0, i as int).map_values(|it: ReturnItem| item_sql(it)));
            }
            assert(c.items@.subrange(0, c.items@.len() as int) =~= c.items@);
        },
        None => {
            let t = String::from_str("*");
            proof {
                lemma_texts_push(v@, t);
            }
            v.push(t);
            assert(texts(v@) =~= seq!["*"@]);
        },
    }
    v
}

fn order_keys(ret: &Option<ReturnClause>) -> (r: Vec<String>)
    ensures
        texts(r@) == match *ret {
            Some(c) => c.order_by@.map_values(|k: OrderKey| key_sql(k)),
            None => Seq::empty(),
        },
{
    let mut v: Vec<String> = Vec::new();
    match ret {
        Some(c) => {
            let mut i: usize = 0;
            while i < c.order_by.len()
                invariant
                    i <= c.order_by@.len(),
                    texts(v@) == c.order_by@.subrange(0, i as int).map_values(|k: OrderKey| key_sql(k)),
                decreases c.order_by@.len() - i,
            {
                let t = key_to_sql(&c.order_by[i]);
                proof {
                    lemma_texts_push(v@, t);
                }
                v.push(t);
                i = i + 1;
                assert(texts(v@) =~= c.order_by@.subrange(0, i as int).map_values(|k: OrderKey| key_sql(k)));
            }
            assert(c.order_by@.subrange(0, c.order_by@.len() as int) =~= c.order_by@);
        },
        None => {
            assert(texts(v@) =~= Seq::<Seq<char>>::empty());
        },
    }
    v
}

fn expr_text(e: &Option<Expr>) -> (r: Option<String>)
    ensures
        opt_text(r) == expr_text_opt(*e),
{
    match e {
        Some(e) => Some(e.text.clone()),
        None => None,
    }
}

// ---------------------------------------------------------------------------
// CREATE

/// The first name quoted, or `NULL` where there is none.
pub open spec fn first_or_null(names: Seq<Ident>) -> Seq<char> {
    if names.len() > 0 {
        "'"@ + names[0].value@ + "'"@
    } else {
        "NULL"@
    }
}

/// The row that CREATE inserts for one element: table, columns, values.
pub open spec fn insert_row(cfg: TransformConfig, e: PatternElement) -> (Seq<char>, Seq<Seq<char>>, Seq<Seq<char>>) {
    match e {
        PatternElement::Node { labels, .. } => (
            node_table_text(cfg, labels@),
            seq!["label"@, "properties"@],
            seq![first_or_null(labels@), "'{}'"@],
        ),
        PatternElement::Relationship { types, .. } => (
            cfg.relationship_table@,
            seq!["from_id"@, "to_id"@, "type"@, "properties"@],
            seq!["?"@, "?"@, first_or_null(types@), "'{}'"@],
        ),
    }
}

/// The rows of all elements of all patterns, in order.
pub open spec fn create_rows(cfg: TransformConfig, ps: Seq<Pattern>) -> Seq<(Seq<char>, Seq<Seq<char>>, Seq<Seq<char>>)>
    decreases ps.len(),
{
    if ps.len() == 0 {
        Seq::empty()
    } else {
        create_rows(cfg, ps.drop_last()) + ps.last()@.map_values(|e: PatternElement| insert_row(cfg, e))
    }
}

pub open spec fn row_of(s: SqlStatement) -> Option<(Seq<char>, Seq<Seq<char>>, Seq<Seq<char>>)> {
    match s {
        SqlStatement::Insert(i) => Some((i.table@, texts(i.columns@), texts(i.values@))),
        SqlStatement::Select(_) => None,
    }
}

/// The statements are INSERTs of exactly these rows, in order.
pub open spec fn inserts_rows(v: Seq<SqlStatement>, rows: Seq<(Seq<char>, Seq<Seq<char>>, Seq<Seq<char>>)>) -> bool {
    &&& v.len() == rows.len()
    &&& forall|i: int| 0 <= i < v.len() ==> #[trigger] row_of(v[i]) == Some(rows[i])
}

fn strings2(a: &str, b: &str) -> (r: Vec<String>)
    ensures
        texts(r@) == seq![a@, b@],
{
    let mut v: Vec<String> = Vec::new();
    v.push(String::from_str(a));
    v.push(String::from_str(b));
    assert(texts(v@) =~= seq![a@, b@]);
    v
}

fn strings4(a: &str, b: &str, c: &str, d: &str) -> (r: Vec<String>)
    ensures
        texts(r@) == seq![a@, b@, c@, d@],
{
    let mut v: Vec<String> = Vec::new();
    v.push(String::from_str(a));
    v.push(String::from_str(b));
    v.push(String::from_str(c));
    v.push(String::from_str(d));
    assert(texts(v@) =~= seq![a@, b@, c@, d@]);
    v
}

fn quote_first(names: &Vec<Ident>) -> (r: String)
    ensures
        r@ == first_or_null(names@),
{
    proof {
        reveal_strlit("'");
        reveal_strlit("NULL");
    }
    if names.len() > 0 {
        let mut s = String::from_str("'");
        push_text(&mut s, names[0].value.as_str());
        push_text(&mut s, "'");
        s
    } else {
        String::from_str("NULL")
    }
}

fn insert_for(cfg: &TransformConfig, e: &PatternElement) -> (r: InsertStatement)
    ensures
        row_of(SqlStatement::Insert(r)) == Some(insert_row(*cfg, *e)),
{
    proof {
        reveal_strlit("label");
        reveal_strlit("properties");
        reveal_strlit("from_id");
        reveal_strlit("to_id");
        reveal_strlit("type");
        reveal_strlit("?");
        reveal_strlit("'{}'");
    }
    match e {
        PatternElement::Node { labels, .. } => {
            let table = if cfg.use_label_tables && labels.len() > 0 {
                labels[0].value.clone()
            } else {
                cfg.node_table.clone()
            };
            let first = quote_first(labels);
            let mut values: Vec<String> = Vec::new();
            values.push(first);
            values.push(String::from_str("'{}'"));
            assert(texts(values@) =~= seq![first_or_null(labels@), "'{}'"@]);
            InsertStatement { table, columns: strings2("label", "properties"), values }
        },
        PatternElement::Relationship { types, .. } => {
            let first = quote_first(types);
            let mut values: Vec<String> = Vec::new();
            values.push(String::from_str("?"));
            values.push(String::from_str("?"));
            values.push(first);
            values.push(String::from_str("'{}'"));
            assert(texts(values@) =~= seq!["?"@, "?"@, first_or_null(types@), "'{}'"@]);
            InsertStatement {
                table: cfg.relationship_table.clone(),
                columns: strings4("from_id", "to_id", "type", "properties"),
                values,
            }
        },
    }
}

// ---------------------------------------------------------------------------
// The transformer

/// How many pattern elements a statement holds.
pub open spec fn statement_size(s: CypherStatement) -> nat {
    match s {
        CypherStatement::Match { patterns, .. } => element_count(patterns@),
        CypherStatement::Create { patterns } => element_count(patterns@),
        CypherStatement::Merge { patterns, .. } => element_count(patterns@),
        CypherStatement::Delete { .. } => 0,
    }
}

/// What translating `s` under `cfg` gives: one SELECT for MATCH, one INSERT
/// per element for CREATE, and an error for MERGE and DELETE.
pub open spec fn translation(cfg: TransformConfig, s: CypherStatement, r: Result<Vec<SqlStatement>, TranslationError>) -> bool {
    match s {
        CypherStatement::Match { patterns, where_clause, return_clause, .. } => match r {
            Ok(v) => v@.len() == 1 && match v@[0] {
                SqlStatement::Select(q) => match_select(cfg, patterns@, where_clause, return_clause, q),
                SqlStatement::Insert(_) => false,
            },
            Err(_) => false,
        },
        CypherStatement::Create { patterns } => match r {
            Ok(v) => inserts_rows(v@, create_rows(cfg, patterns@)),
            Err(_) => false,
        },
        CypherStatement::Merge { .. } => match r {
            Ok(_) => false,
            Err(e) => e.message@ == "MERGE transformation not yet implemented"@,
        },
        CypherStatement::Delete { .. } => match r {
            Ok(_) => false,
            Err(e) => e.message@ == "DELETE transformation not yet implemented"@,
        },
    }
}

/// Translates Cypher statements into SQL under one table layout.
pub struct CypherToSqlTransformer {
    pub config: TransformConfig,
}

impl CypherToSqlTransformer {
    /// A transformer with the default layout.
    pub fn new() -> (r: CypherToSqlTransformer)
        ensures
            r.config.node_table@ == "nodes"@,
            r.config.relationship_table@ == "relationships"@,
            r.config.use_label_tables,
    {
        CypherToSqlTransformer { config: TransformConfig::default() }
    }

    /// A transformer with the given layout.
    pub fn with_config(config: TransformConfig) -> (r: CypherToSqlTransformer)
        ensures
            r.config == config,
    {
        CypherToSqlTransformer { config }
    }

    /// Translates one statement.
    pub fn transform(&self, stmt: &CypherStatement) -> (r: Result<Vec<SqlStatement>, TranslationError>)
        requires
            statement_size(*stmt) < u64::MAX,
        ensures
            translation(self.config, *stmt, r),
    {
        match stmt {
            CypherStatement::Match { optional, patterns, where_clause, return_clause } => {
                self.transform_match(*optional, patterns, where_clause, return_clause)
            },
            CypherStatement::Create { patterns } => self.transform_create(patterns),
            CypherStatement::Merge { patterns, on_create, on_match } => self.transform_merge(patterns, on_create, on_match),
            CypherStatement::Delete { detach, what, where_clause } => self.transform_delete(*detach, what, where_clause),
        }
    }

    /// A MATCH as one SELECT.
    pub fn transform_match(
        &self,
        optional: bool,
        patterns: &Vec<Pattern>,
        where_clause: &Option<Expr>,
        return_clause: &Option<ReturnClause>,
    ) -> (r: Result<Vec<SqlStatement>, TranslationError>)
        requires
            element_count(patterns@) < u64::MAX,
        ensures
            r matches Ok(v) && v@.len() == 1 && (v@[0] matches SqlStatement::Select(q)
                && match_select(self.config, patterns@, *where_clause, *return_clause, q)),
    {
        let plan = build_plan(&self.config, patterns);
        let PlanBuilder { from, joins, conds, .. } = plan;
        let mut conditions = conds;
        if let Some(w) = where_clause {
            let t = w.text.clone();
            proof {
                lemma_texts_push(conditions@, t);
            }
            conditions.push(t);
        }
        let (distinct, limit, offset) = match return_clause {
            Some(c) => (c.distinct, expr_text(&c.limit), expr_text(&c.skip)),
            None => (false, None, None),
        };
        let q = SelectQuery {
            distinct,
            projection: projection(return_clause),
            from,
            joins,
            conditions,
            order_by: order_keys(return_clause),
            limit,
            offset,
        };
        let mut v: Vec<SqlStatement> = Vec::new();
        v.push(SqlStatement::Select(q));
        Ok(v)
    }

    /// A CREATE as one INSERT per element, in pattern order.
    pub fn transform_create(&self, patterns: &Vec<Pattern>) -> (r: Result<Vec<SqlStatement>, TranslationError>)
        ensures
            r matches Ok(v) && inserts_rows(v@, create_rows(self.config, patterns@)),
    {
        let mut v: Vec<SqlStatement> = Vec::new();
        let mut i: usize = 0;
        while i < patterns.len()
            invariant
                i <= patterns@.len(),
                inserts_rows(v@, create_rows(self.config, patterns@.subrange(0, i as int))),
            decreases patterns@.len() - i,
        {
            let ghost sub = patterns@.subrange(0, i + 1);
            assert(sub.drop_last() =~= patterns@.subrange(0, i as int));
            let ghost before = create_rows(self.config, patterns@.subrange(0, i as int));
            let es = patterns[i].elements();
            let ghost rows = es@.map_values(|e: PatternElement| insert_row(self.config, e));
            let mut j: usize = 0;
            while j < es.len()
                invariant
                    j <= es@.len(),
                    es@ == patterns@[i as int]@,
                    rows == es@.map_values(|e: PatternElement| insert_row(self.config, e)),
                    inserts_rows(v@, before + rows.subrange(0, j as int)),
                decreases es@.len() - j,
            {
                let ins = insert_for(&self.config, &es[j]);
                v.push(SqlStatement::Insert(ins));
                j = j + 1;
                assert(before + rows.subrange(0, j as int) =~= (before + rows.subrange(0, j - 1)).push(rows[j - 1]));
            }
            assert(rows.subrange(0, es@.len() as int) =~= rows);
            i = i + 1;
        }
        assert(patterns@.subrange(0, patterns@.len() as int) =~= patterns@);
        Ok(v)
    }

    /// MERGE has no translation yet.
    pub fn transform_merge(
        &self,
        patterns: &Vec<Pattern>,
        on_create: &Option<Vec<SetClause>>,
        on_match: &Option<Vec<SetClause>>,
    ) -> (r: Result<Vec<SqlStatement>, TranslationError>)
        ensures
            r matches Err(e) && e.message@ == "MERGE transformation not yet implemented"@,
    {
        proof {
            reveal_strlit("MERGE transformation not yet implemented");
        }
        Err(TranslationError { message: String::from_str("MERGE transformation not yet implemented") })
    }

    /// DELETE has no translation yet.
    pub fn transform_delete(
        &self,
        detach: bool,
        what: &Vec<Expr>,
        where_clause: &Option<Expr>,
    ) -> (r: Result<Vec<SqlStatement>, TranslationError>)
        ensures
            r matches Err(e) && e.message@ == "DELETE transformation not yet implemented"@,
    {
        proof {
            reveal_strlit("DELETE transformation not yet implemented");
        }
        Err(TranslationError { message: String::from_str("DELETE transformation not yet implemented") })
    }
}

// ---------------------------------------------------------------------------
// From statement to SQL text

/// Statements' SQL joined by `;` and a line break.
pub open spec fn script_text(v: Seq<SqlStatement>) -> Seq<char> {
    join_with(v.map_values(|s: SqlStatement| s.text()), ";\n"@)
}

/// Nodes in `nodes`, labels as a column, relationships in `relationships`.
pub open spec fn is_single_node_table(cfg: TransformConfig) -> bool {
    &&& cfg.node_table@ == "nodes"@
    &&& cfg.relationship_table@ == "relationships"@
    &&& !cfg.use_label_tables
}

/// `t` is the SQL text that `s` translates to under the single-node-table layout.
pub open spec fn basic_sql(s: CypherStatement, t: Seq<char>) -> bool {
    exists|cfg: TransformConfig, v: Vec<SqlStatement>|
        is_single_node_table(cfg) && #[trigger] translation(cfg, s, Ok(v)) && t == script_text(v@)
}

fn script(v: &Vec<SqlStatement>) -> (r: String)
    ensures
        r@ == script_text(v@),
{
    proof {
        reveal_strlit(";\n");
    }
    let ghost ts = v@.map_values(|s: SqlStatement| s.text());
    let mut out = String::new();
    let mut i: usize = 0;
    while i < v.len()
        invariant
            i <= v@.len(),
            ts == v@.map_values(|s: SqlStatement| s.text()),
            out@ == join_with(ts.subrange(0, i as int), ";\n"@),
        decreases v@.len() - i,
    {
        let ghost sub = ts.subrange(0, i + 1);
        assert(sub.drop_last() =~= ts.subrange(0, i as int));
        if i > 0 {
            push_text(&mut out, ";\n");
        } else {
            assert(sub =~= seq![ts[0]]);
            assert(out@ =~= Seq::<char>::empty());
        }
        let t = v[i].to_sql();
        push_text(&mut out, t.as_str());
        i = i + 1;
        assert(out@ =~= join_with(ts.subrange(0, i as int), ";\n"@));
    }
    assert(ts.subrange(0, v@.len() as int) =~= ts);
    out
}

/// The SQL text of a statement under the single-node-table layout: nodes in
/// `nodes` with their label as a column, relationships in `relationships`.
pub fn transform_cypher_to_sql_basic(stmt: &CypherStatement) -> (r: Result<String, TranslationError>)
    requires
        statement_size(*stmt) < u64::MAX,
    ensures
        r matches Ok(t) ==> basic_sql(*stmt, t@),
        r is Err <==> (stmt is Merge || stmt is Delete),
        stmt is Merge ==> (r matches Err(e) && e.message@ == "MERGE transformation not yet implemented"@),
        stmt is Delete ==> (r matches Err(e) && e.message@ == "DELETE transformation not yet implemented"@),
{
    let cfg = TransformConfig::single_node_table();
    let transformer = CypherToSqlTransformer::with_config(cfg);
    match transformer.transform(stmt) {
        Ok(v) => {
            let t = script(&v);
            assert(translation(transformer.config, *stmt, Ok(v)));
            Ok(t)
        },
        Err(e) => Err(e),
    }
}

/// The messages of translation errors: MERGE and DELETE, which have no translation.
pub open spec fn translation_message(m: Seq<char>) -> bool {
    ||| m == "MERGE transformation not yet implemented"@
    ||| m == "DELETE transformation not yet implemented"@
}

/// `r` is the SQL text of a statement that `ok` describes.
pub open spec fn translates(r: Result<String, CypherError>, ok: spec_fn(CypherStatement) -> bool) -> bool {
    r matches Ok(t) && exists|s: CypherStatement| #[trigger] basic_sql(s, t@) && ok(s)
}

/// What the text pipeline gives for a query whose tokens open at place `i`:
/// the parse errors that the statement grammar names; for a MATCH (or
/// OPTIONAL MATCH) whose parts read, the SQL text of the statement read; for
/// a CREATE, the SQL text of its patterns; for MERGE and DELETE, their
/// translation errors.
pub open spec fn query_outcome(q: Seq<char>, ts: Seq<Located>, i: int, r: Result<String, CypherError>) -> bool {
    let k = skip_ws(ts, i + 1);
    &&& !starts_statement(ts, i) ==> (r matches Err(CypherError::Parse(e))
        && e.message@ == expected_message(ts, i, "MATCH, CREATE, MERGE, or DELETE"@))
    &&& statement_opening_error(ts, i) matches Some(m) ==> (r matches Err(CypherError::Parse(e)) && e.message@ == m)
    &&& statement_patterns_error(ts, i) matches Some(m) ==> (r matches Err(CypherError::Parse(e)) && e.message@ == m)
    &&& keyword_at(ts, i, "MATCH"@) ==> (patterns_grammar(ts, i + 1) matches Some((shapes, e))
        ==> (match_rest_reads(q, ts, e) ==> translates(r,
            |s: CypherStatement| match_result(q, ts, e, shapes, false, Ok::<CypherStatement, ParseError>(s)))))
    &&& keyword_at(ts, i, "OPTIONAL"@) && keyword_at(ts, k, "MATCH"@) ==> (patterns_grammar(ts, k + 1) matches Some((shapes, e))
        ==> (match_rest_reads(q, ts, e) ==> translates(r,
            |s: CypherStatement| match_result(q, ts, e, shapes, true, Ok::<CypherStatement, ParseError>(s)))))
    &&& keyword_at(ts, i, "CREATE"@) ==> (patterns_grammar(ts, i + 1) matches Some((shapes, _))
        ==> translates(r, |s: CypherStatement| s matches CypherStatement::Create { patterns }
            && patterns_shapes(patterns@) == shapes))
    &&& keyword_at(ts, i, "CREATE"@) ==> (full_patterns_grammar(q, ts, i + 1) matches Some((vs, _))
        ==> translates(r, |s: CypherStatement| s matches CypherStatement::Create { patterns }
            && patterns_views(patterns@) == vs))
    &&& keyword_at(ts, i, "MERGE"@) ==> (patterns_grammar(ts, i + 1) matches Some((shapes, e))
        ==> (!keyword_at(ts, skip_ws(ts, e), "ON"@) ==> (r matches Err(CypherError::Translation(x))
        && x.message@ == "MERGE transformation not yet implemented"@)))
    &&& keyword_at(ts, i, "MERGE"@) ==> (patterns_grammar(ts, i + 1) matches Some((_, e))
        ==> (merge_blocks(q, ts, e, None, None) is Some ==> (r matches Err(CypherError::Translation(x))
        && x.message@ == "MERGE transformation not yet implemented"@)))
    &&& keyword_at(ts, i, "DETACH"@) && keyword_at(ts, k, "DELETE"@) ==> (delete_grammar(q, ts, k + 1) is Some
        ==> (r matches Err(CypherError::Translation(x)) && x.message@ == "DELETE transformation not yet implemented"@))
    &&& keyword_at(ts, i, "DELETE"@) ==> (delete_grammar(q, ts, i + 1) is Some ==> (r matches Err(CypherError::Translation(x))
        && x.message@ == "DELETE transformation not yet implemented"@))
}

/// Parses a Cypher query and translates it under the single-node-table layout.
#[verifier::rlimit(60)]
pub fn transform_cypher_to_sql(query: &str) -> (r: Result<String, CypherError>)
    ensures
        r matches Ok(t) ==> exists|s: CypherStatement| #[trigger] basic_sql(s, t@),
        lexed(query@) is None ==> r matches Err(CypherError::Parse(_)),
        lexed(query@) is Some ==> query_outcome(query@, query_tokens(query@), skip_ws(query_tokens(query@), 0), r),
        r matches Err(CypherError::Translation(e)) ==> translation_message(e.message@),
{
    let mut parser = match Parser::from_query(query) {
        Ok(p) => p,
        Err(e) => {
            return Err(CypherError::Parse(e));
        },
    };
    let stmt = match parser.parse_cypher_statement() {
        Ok(s) => s,
        Err(e) => {
            return Err(CypherError::Parse(e));
        },
    };
    match transform_cypher_to_sql_basic(&stmt) {
        Ok(t) => {
            let r: Result<String, CypherError> = Ok(t);
            assert(r matches Ok(x) && basic_sql(stmt, x@));
            r
        },
        Err(e) => Err(CypherError::Translation(e)),
    }
}

} // verus!
