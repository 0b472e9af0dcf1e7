//! The canonical text of clauses and statements.
use vstd::prelude::*;
use crate::ast::{patterns_text, write_patterns, CypherStatement, Expr, OrderKey, ReturnClause, ReturnItem, SetClause, SetTarget};
use crate::text::push_text;

verus! {

impl ReturnItem {
    pub open spec fn text(&self) -> Seq<char> {
        match self {
            ReturnItem::Expr(e) => e.text(),
            ReturnItem::Aliased { expr, alias } => expr.text() + " AS "@ + alias.text(),
            ReturnItem::Wildcard => "*"@,
            ReturnItem::QualifiedWildcard(s) => s@,
        }
    }

    pub fn write(&self, out: &mut String)
        ensures
            final(out)@ == old(out)@ + self.text(),
    {
        proof {
            reveal_strlit(" AS ");
            reveal_strlit("*");
        }
        match self {
            ReturnItem::Expr(e) => push_text(out, e.text.as_str()),
            ReturnItem::Aliased { expr, alias } => {
                push_text(out, expr.text.as_str());
                push_text(out, " AS ");
                alias.write(out);
            },
            ReturnItem::Wildcard => push_text(out, "*"),
            ReturnItem::QualifiedWildcard(s) => push_text(out, s.as_str()),
        }
        assert(final(out)@ =~= old(out)@ + self.text());
    }
}

impl OrderKey {
    pub open spec fn text(&self) -> Seq<char> {
        self.expr.text() + self.options@
    }
}

impl SetTarget {
    pub open spec fn text(&self) -> Seq<char> {
        match self {
            SetTarget::Property { variable, property } => variable.text() + "."@ + property.text(),
            SetTarget::Variable(v) => v.text(),
            SetTarget::Label { variable, label } => variable.text() + ":"@ + label.text(),
        }
    }
}

impl SetClause {
    pub open spec fn text(&self) -> Seq<char> {
        self.target.text() + " = "@ + self.value.text()
    }

    pub fn write(&self, out: &mut String)
        ensures
            final(out)@ == old(out)@ + self.text(),
    {
        proof {
            reveal_strlit(".");
            reveal_strlit(":");
            reveal_strlit(" = ");
        }
        match &self.target {
            SetTarget::Property { variable, property } => {
                variable.write(out);
                push_text(out, ".");
                property.write(out);
            },
            SetTarget::Variable(v) => v.write(out),
            SetTarget::Label { variable, label } => {
                variable.write(out);
                push_text(out, ":");
                label.write(out);
            },
        }
        push_text(out, " = ");
        push_text(out, self.value.text.as_str());
        assert(final(out)@ =~= old(out)@ + self.text());
    }
}

/// Texts of a list joined by `, `.
pub open spec fn join_texts(ts: Seq<Seq<char>>) -> Seq<char>
    decreases ts.len(),
{
    if ts.len() == 0 {
        Seq::empty()
    } else if ts.len() == 1 {
        ts[0]
    } else {
        join_texts(ts.drop_last()) + ", "@ + ts.last()
    }
}

pub open spec fn items_text(s: Seq<ReturnItem>) -> Seq<char> {
    join_texts(s.map_values(|x: ReturnItem| x.text()))
}

pub open spec fn keys_text(s: Seq<OrderKey>) -> Seq<char> {
    join_texts(s.map_values(|x: OrderKey| x.text()))
}

pub open spec fn sets_text(s: Seq<SetClause>) -> Seq<char> {
    join_texts(s.map_values(|x: SetClause| x.text()))
}

pub open spec fn exprs_text(s: Seq<Expr>) -> Seq<char> {
    join_texts(s.map_values(|x: Expr| x.text()))
}

proof fn lemma_join_step(ts: Seq<Seq<char>>, i: int)
    requires
        0 <= i < ts.len(),
    ensures
        join_texts(ts.subrange(0, i + 1)) == if i == 0 {
            ts[0]
        } else {
            join_texts(ts.subrange(0, i)) + ", "@ + ts[i]
        },
{
    assert(ts.subrange(0, i + 1).drop_last() =~= ts.subrange(0, i));
}

fn write_items(s: &Vec<ReturnItem>, out: &mut String)
    ensures
        final(out)@ == old(out)@ + items_text(s@),
{
    proof {
        reveal_strlit(", ");
    }
    let ghost ts = s@.map_values(|x: ReturnItem| x.text());
    let ghost start = out@;
    let mut i: usize = 0;
    while i < s.len()
        invariant
            i <= s@.len(),
            ts.len() == s@.len(),
            ts == s@.map_values(|x: ReturnItem| x.text()),
            out@ == start + join_texts(ts.subrange(0, i as int)),
        decreases s@.len() - i,
    {
        proof {
            lemma_join_step(ts, i as int);
        }
        if i > 0 {
            push_text(out, ", ");
        }
        s[i].write(out);
        i = i + 1;
        assert(out@ =~= start + join_texts(ts.subrange(0, i as int)));
    }
    assert(ts.subrange(0, s@.len() as int) =~= ts);
}

fn write_keys(s: &Vec<OrderKey>, out: &mut String)
    ensures
        final(out)@ == old(out)@ + keys_text(s@),
{
    proof {
        reveal_strlit(", ");
    }
    let ghost ts = s@.map_values(|x: OrderKey| x.text());
    let ghost start = out@;
    let mut i: usize = 0;
    while i < s.len()
        invariant
            i <= s@.len(),
            ts.len() == s@.len(),
            ts == s@.map_values(|x: OrderKey| x.text()),
            out@ == start + join_texts(ts.subrange(0, i as int)),
        decreases s@.len() - i,
    {
        proof {
            lemma_join_step(ts, i as int);
        }
        if i > 0 {
            push_text(out, ", ");
        }
        push_text(out, s[i].expr.text.as_str());
        push_text(out, s[i].options.as_str());
        i = i + 1;
        assert(out@ =~= start + join_texts(ts.subrange(0, i as int)));
    }
    assert(ts.subrange(0, s@.len() as int) =~= ts);
}

fn write_sets(s: &Vec<SetClause>, out: &mut String)
    ensures
        final(out)@ == old(out)@ + sets_text(s@),
{
    proof {
        reveal_strlit(", ");
    }
    let ghost ts = s@.map_values(|x: SetClause| x.text());
    let ghost start = out@;
    let mut i: usize = 0;
    while i < s.len()
        invariant
            i <= s@.len(),
            ts.len() == s@.len(),
            ts == s@.map_values(|x: SetClause| x.text()),
            out@ == start + join_texts(ts.subrange(0, i as int)),
        decreases s@.len() - i,
    {
        proof {
            lemma_join_step(ts, i as int);
        }
        if i > 0 {
            push_text(out, ", ");
        }
        s[i].write(out);
        i = i + 1;
        assert(out@ =~= start + join_texts(ts.subrange(0, i as int)));
    }
    assert(ts.subrange(0, s@.len() as int) =~= ts);
}

fn write_exprs(s: &Vec<Expr>, out: &mut String)
    ensures
        final(out)@ == old(out)@ + exprs_text(s@),
{
    proof {
        reveal_strlit(", ");
    }
    let ghost ts = s@.map_values(|x: Expr| x.text());
    let ghost start = out@;
    let mut i: usize = 0;
    while i < s.len()
        invariant
            i <= s@.len(),
            ts.len() == s@.len(),
            ts == s@.map_values(|x: Expr| x.text()),
            out@ == start + join_texts(ts.subrange(0, i as int)),
        decreases s@.len() - i,
    {
        proof {
            lemma_join_step(ts, i as int);
        }
        if i > 0 {
            push_text(out, ", ");
        }
        push_text(out, s[i].text.as_str());
        i = i + 1;
        assert(out@ =~= start + join_texts(ts.subrange(0, i as int)));
    }
    assert(ts.subrange(0, s@.len() as int) =~= ts);
}

pub open spec fn opt_clause_text(head: Seq<char>, e: Option<Expr>) -> Seq<char> {
    match e {
        Some(e) => head + e.text(),
        None => Seq::empty(),
    }
}

fn write_opt_clause(head: &str, e: &Option<Expr>, out: &mut String)
    ensures
        final(out)@ == old(out)@ + opt_clause_text(head@, *e),
{
    if let Some(e) = e {
        push_text(out, head);
        push_text(out, e.text.as_str());
    }
    assert(final(out)@ =~= old(out)@ + opt_clause_text(head@, *e));
}

impl ReturnClause {
    /// `RETURN`, then ` DISTINCT`, the items, ` ORDER BY` keys, ` SKIP` and
    /// ` LIMIT`, in that order, each where present.
    pub open spec fn text(&self) -> Seq<char> {
        "RETURN"@ + (if self.distinct { " DISTINCT"@ } else { Seq::empty() }) + " "@
            + items_text(self.items@)
            + (if self.order_by@.len() > 0 { " ORDER BY "@ + keys_text(self.order_by@) } else { Seq::empty() })
            + opt_clause_text(" SKIP "@, self.skip) + opt_clause_text(" LIMIT "@, self.limit)
    }

    pub fn write(&self, out: &mut String)
        ensures
            final(out)@ == old(out)@ + self.text(),
    {
        proof {
            reveal_strlit("RETURN");
            reveal_strlit(" DISTINCT");
            reveal_strlit(" ");
            reveal_strlit(" ORDER BY ");
        }
        let ghost o = out@;
        push_text(out, "RETURN");
        if self.distinct {
            push_text(out, " DISTINCT");
        }
        push_text(out, " ");
        let ghost t1 = "RETURN"@ + (if self.distinct { " DISTINCT"@ } else { Seq::empty() }) + " "@;
        assert(out@ =~= o + t1);
        write_items(&self.items, out);
        let ghost t2 = t1 + items_text(self.items@);
        assert(out@ =~= o + t2);
        if self.order_by.len() > 0 {
            push_text(out, " ORDER BY ");
            write_keys(&self.order_by, out);
        }
        let ghost t3 = t2 + (if self.order_by@.len() > 0 { " ORDER BY "@ + keys_text(self.order_by@) } else { Seq::empty() });
        assert(out@ =~= o + t3);
        write_opt_clause(" SKIP ", &self.skip, out);
        let ghost t4 = t3 + opt_clause_text(" SKIP "@, self.skip);
        assert(out@ =~= o + t4);
        write_opt_clause(" LIMIT ", &self.limit, out);
        assert(out@ =~= o + (t4 + opt_clause_text(" LIMIT "@, self.limit)));
    }
}

pub open spec fn opt_sets_text(head: Seq<char>, s: Option<Vec<SetClause>>) -> Seq<char> {
    match s {
        Some(s) => head + sets_text(s@),
        None => Seq::empty(),
    }
}

fn write_opt_sets(head: &str, s: &Option<Vec<SetClause>>, out: &mut String)
    ensures
        final(out)@ == old(out)@ + opt_sets_text(head@, *s),
{
    if let Some(s) = s {
        push_text(out, head);
        write_sets(s, out);
    }
    assert(final(out)@ =~= old(out)@ + opt_sets_text(head@, *s));
}

impl CypherStatement {
    /// The statement's canonical text.
    pub open spec fn text(&self) -> Seq<char> {
        match self {
            CypherStatement::Match { optional, patterns, where_clause, return_clause } =>
                (if *optional { "OPTIONAL "@ } else { Seq::empty() }) + "MATCH "@ + patterns_text(patterns@)
                    + opt_clause_text(" WHERE "@, *where_clause)
                    + match return_clause {
                        Some(r) => " "@ + r.text(),
                        None => Seq::empty(),
                    },
            CypherStatement::Create { patterns } => "CREATE "@ + patterns_text(patterns@),
            CypherStatement::Merge { patterns, on_create, on_match } =>
                "MERGE "@ + patterns_text(patterns@) + opt_sets_text(" ON CREATE SET "@, *on_create)
                    + opt_sets_text(" ON MATCH SET "@, *on_match),
            CypherStatement::Delete { detach, what, where_clause } =>
                (if *detach { "DETACH "@ } else { Seq::empty() }) + "DELETE "@ + exprs_text(what@)
                    + opt_clause_text(" WHERE "@, *where_clause),
        }
    }

    pub fn write(&self, out: &mut String)
        ensures
            final(out)@ == old(out)@ + self.text(),
    {
        proof {
            reveal_strlit("OPTIONAL ");
            reveal_strlit("MATCH ");
            reveal_strlit("CREATE ");
            reveal_strlit("MERGE ");
            reveal_strlit("DETACH ");
            reveal_strlit("DELETE ");
            reveal_strlit(" ");
        }
        let ghost o = out@;
        match self {
            CypherStatement::Match { optional, patterns, where_clause, return_clause } => {
                if *optional {
                    push_text(out, "OPTIONAL ");
                }
                push_text(out, "MATCH ");
                write_patterns(patterns, out);
                let ghost t1 = (if *optional { "OPTIONAL "@ } else { Seq::empty() }) + "MATCH "@
                    + patterns_text(patterns@);
                assert(out@ =~= o + t1);
                write_opt_clause(" WHERE ", where_clause, out);
                let ghost t2 = t1 + opt_clause_text(" WHERE "@, *where_clause);
                assert(out@ =~= o + t2);
                if let Some(r) = return_clause {
                    push_text(out, " ");
                    r.write(out);
                }
                assert(out@ =~= o + self.text());
            },
            CypherStatement::Create { patterns } => {
                push_text(out, "CREATE ");
                write_patterns(patterns, out);
                assert(out@ =~= o + self.text());
            },
            CypherStatement::Merge { patterns, on_create, on_match } => {
                push_text(out, "MERGE ");
                write_patterns(patterns, out);
                let ghost t1 = "MERGE "@ + patterns_text(patterns@);
                assert(out@ =~= o + t1);
                write_opt_sets(" ON CREATE SET ", on_create, out);
                let ghost t2 = t1 + opt_sets_text(" ON CREATE SET "@, *on_create);
                assert(out@ =~= o + t2);
                write_opt_sets(" ON MATCH SET ", on_match, out);
                assert(out@ =~= o + self.text());
            },
            CypherStatement::Delete { detach, what, where_clause } => {
                if *detach {
                    push_text(out, "DETACH ");
                }
                push_text(out, "DELETE ");
                write_exprs(what, out);
                let ghost t1 = (if *detach { "DETACH "@ } else { Seq::empty() }) + "DELETE "@
                    + exprs_text(what@);
                assert(out@ =~= o + t1);
                write_opt_clause(" WHERE ", where_clause, out);
                assert(out@ =~= o + self.text());
            },
        }
    }

    /// The statement's canonical text.
    pub fn to_text(&self) -> (r: String)
        ensures
            r@ == self.text(),
    {
        let mut s = String::new();
        self.write(&mut s);
        s
    }
}

} // verus!
