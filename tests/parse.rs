use sqlparser::dialect::Dialect;
use cypher_sql::{
    CypherStatement, Ident, Parser, Pattern, PatternElement, RelationshipDirection, RelationshipLength,
    SetTarget,
};

fn parse(query: &str) -> CypherStatement {
    let mut parser = Parser::from_query(query).ok().expect("tokenizes");
    match parser.parse_cypher_statement() {
        Ok(s) => s,
        Err(e) => panic!("parse failed: {}", e.message),
    }
}

fn parse_err(query: &str) -> String {
    let mut parser = Parser::from_query(query).ok().expect("tokenizes");
    match parser.parse_cypher_statement() {
        Ok(_) => panic!("expected an error for {query}"),
        Err(e) => e.message,
    }
}

fn first_pattern(s: &CypherStatement) -> &Pattern {
    match s {
        CypherStatement::Match { patterns, .. } => &patterns[0],
        CypherStatement::Create { patterns } => &patterns[0],
        CypherStatement::Merge { patterns, .. } => &patterns[0],
        CypherStatement::Delete { .. } => panic!("no patterns"),
    }
}

fn relationship(s: &CypherStatement) -> (&Option<Ident>, &Vec<Ident>, &RelationshipDirection, &Option<RelationshipLength>) {
    match &first_pattern(s).elements()[1] {
        PatternElement::Relationship { variable, types, direction, length, .. } => (variable, types, direction, length),
        PatternElement::Node { .. } => panic!("expected a relationship"),
    }
}

fn length_of(query: &str) -> RelationshipLength {
    let s = parse(query);
    let (_, _, _, length) = relationship(&s);
    match length {
        Some(RelationshipLength::Exact(n)) => RelationshipLength::Exact(*n),
        Some(RelationshipLength::Range(a, b)) => RelationshipLength::Range(*a, *b),
        Some(RelationshipLength::Variable) => RelationshipLength::Variable,
        None => panic!("no length"),
    }
}

#[test]
fn canonical_text_of_match() {
    let s = parse("MATCH (n:Person)-[r:KNOWS]->(m:Person) WHERE n.age > 30 RETURN DISTINCT n.name ORDER BY n.age DESC SKIP 1 LIMIT 2");
    assert_eq!(
        s.to_text(),
        "MATCH (n:Person)-[r:KNOWS]>-(m:Person) WHERE n.age > 30 RETURN DISTINCT n.name ORDER BY n.age DESC SKIP 1 LIMIT 2"
    );
}

#[test]
fn optional_match_flag() {
    let s = parse("OPTIONAL MATCH (n) RETURN n");
    assert!(matches!(s, CypherStatement::Match { optional: true, .. }));
    assert_eq!(s.to_text(), "OPTIONAL MATCH (n) RETURN n");
}

#[test]
fn directions() {
    let s = parse("MATCH (a)<-[r]-(b)");
    assert!(matches!(relationship(&s).2, RelationshipDirection::Left));
    let s = parse("MATCH (a)-[r]-(b)");
    assert!(matches!(relationship(&s).2, RelationshipDirection::Undirected));
    let s = parse("MATCH (a)<-[r]->(b)");
    assert!(matches!(relationship(&s).2, RelationshipDirection::Both));
    assert_eq!(s.to_text(), "MATCH (a)-<[r]>-(b)");
    let s = parse("MATCH (a)-[]->(b)");
    assert!(matches!(relationship(&s).2, RelationshipDirection::Right));
}

#[test]
fn relationship_types_and_variable() {
    let s = parse("MATCH (a)-[r:X|Y:Z]->(b)");
    let (variable, types, _, _) = relationship(&s);
    assert_eq!(variable.as_ref().map(|v| v.value.as_str()), Some("r"));
    let names: Vec<&str> = types.iter().map(|t| t.value.as_str()).collect();
    assert_eq!(names, vec!["X", "Y", "Z"]);
    let s = parse("MATCH (a)-[:X]->(b)");
    assert!(relationship(&s).0.is_none());
}

#[test]
fn lengths() {
    assert!(matches!(length_of("MATCH (a)-[*3]->(b)"), RelationshipLength::Exact(3)));
    assert!(matches!(length_of("MATCH (a)-[*]->(b)"), RelationshipLength::Variable));
    assert!(matches!(length_of("MATCH (a)-[* .. 5]->(b)"), RelationshipLength::Range(None, Some(5))));
    assert!(matches!(length_of("MATCH (a)-[*1 .. 3]->(b)"), RelationshipLength::Range(Some(1), Some(3))));
    assert!(matches!(length_of("MATCH (a)-[* ..]->(b)"), RelationshipLength::Variable));
    assert!(matches!(length_of("MATCH (a)-[*2 ..]->(b)"), RelationshipLength::Range(Some(2), None)));
}

#[test]
fn length_text() {
    assert_eq!(RelationshipLength::Exact(7).to_text(), "*7");
    assert_eq!(RelationshipLength::Range(Some(1), Some(3)).to_text(), "*1..3");
    assert_eq!(RelationshipLength::Range(None, Some(3)).to_text(), "*..3");
    assert_eq!(RelationshipLength::Range(Some(2), None).to_text(), "*2..");
    assert_eq!(RelationshipLength::Range(None, None).to_text(), "*..");
    assert_eq!(RelationshipLength::Variable.to_text(), "*");
    assert_eq!(RelationshipLength::Exact(u64::MAX).to_text(), "*18446744073709551615");
}

#[test]
fn oversized_length_is_rejected() {
    let m = parse_err("MATCH (a)-[*99999999999999999999]->(b)");
    assert_eq!(m, "Invalid number in relationship length");
}

#[test]
fn node_labels_and_properties() {
    let s = parse("CREATE (n:Person:Admin:Person {name: 'Alice', age: 3})");
    match &first_pattern(&s).elements()[0] {
        PatternElement::Node { variable, labels, properties } => {
            assert_eq!(variable.as_ref().unwrap().value, "n");
            let names: Vec<&str> = labels.iter().map(|l| l.value.as_str()).collect();
            assert_eq!(names, vec!["Person", "Admin", "Person"]);
            let props = properties.as_ref().unwrap();
            assert_eq!(props.entries.len(), 2);
            assert_eq!(props.entries[0].0.value, "name");
            assert_eq!(props.entries[0].1.text, "'Alice'");
        }
        PatternElement::Relationship { .. } => panic!("expected a node"),
    }
    assert_eq!(s.to_text(), "CREATE (n:Person:Admin:Person {name: 'Alice', age: 3})");
}

#[test]
fn node_without_variable() {
    let s = parse("MATCH (:Person) RETURN 1");
    match &first_pattern(&s).elements()[0] {
        PatternElement::Node { variable, labels, .. } => {
            assert!(variable.is_none());
            assert_eq!(labels[0].value, "Person");
        }
        PatternElement::Relationship { .. } => panic!("expected a node"),
    }
}

#[test]
fn merge_with_set_blocks() {
    let s = parse("MERGE (n:Person {name: 'Bob'}) ON CREATE SET n.created = 1 ON MATCH SET n:Seen = 2, n = 3");
    match &s {
        CypherStatement::Merge { on_create, on_match, .. } => {
            let c = on_create.as_ref().unwrap();
            assert!(matches!(&c[0].target, SetTarget::Property { .. }));
            let m = on_match.as_ref().unwrap();
            assert!(matches!(&m[0].target, SetTarget::Label { .. }));
            assert!(matches!(&m[1].target, SetTarget::Variable(_)));
        }
        _ => panic!("expected MERGE"),
    }
    assert_eq!(
        s.to_text(),
        "MERGE (n:Person {name: 'Bob'}) ON CREATE SET n.created = 1 ON MATCH SET n:Seen = 2, n = 3"
    );
}

#[test]
fn merge_on_requires_create_or_match() {
    let m = parse_err("MERGE (n) ON DELETE SET n.x = 1");
    assert_eq!(m, "Expected: CREATE or MATCH after ON, found: DELETE");
}

#[test]
fn detach_delete() {
    let s = parse("DETACH DELETE n, m WHERE n.x = 1");
    match &s {
        CypherStatement::Delete { detach, what, where_clause } => {
            assert!(*detach);
            assert_eq!(what.len(), 2);
            assert_eq!(where_clause.as_ref().unwrap().text, "n.x = 1");
        }
        _ => panic!("expected DELETE"),
    }
    assert_eq!(s.to_text(), "DETACH DELETE n, m WHERE n.x = 1");
}

#[test]
fn pattern_must_open_with_paren() {
    assert_eq!(parse_err("MATCH n"), "Expected: pattern starting with '(', found: n");
}

#[test]
fn missing_direction() {
    assert_eq!(parse_err("MATCH (a)-[r]>(b)"), "Expected: relationship direction (- or ->), found: >");
}

#[test]
fn pattern_constructor_checks_alternation() {
    let node = || PatternElement::Node { variable: None, labels: vec![], properties: None };
    let rel = || PatternElement::Relationship {
        variable: None,
        types: vec![],
        properties: None,
        direction: RelationshipDirection::Right,
        length: None,
    };
    assert!(Pattern::new(vec![node()]).is_some());
    assert!(Pattern::new(vec![node(), rel(), node()]).is_some());
    assert!(Pattern::new(vec![]).is_none());
    assert!(Pattern::new(vec![node(), node()]).is_none());
    assert!(Pattern::new(vec![rel()]).is_none());
    assert!(Pattern::new(vec![node(), rel(), rel()]).is_none());
    let p = Pattern::new(vec![node(), rel(), node()]).unwrap();
    assert_eq!(p.to_text(), "()-[]>-()");
}

#[test]
fn quoted_identifiers_render_with_quotes() {
    let s = parse("MATCH (`my var`:`La``bel`) RETURN 1");
    assert_eq!(s.to_text(), "MATCH (`my var`:`La``bel`) RETURN 1");
}

fn reparsed_text(query: &str) -> String {
    let first = parse(query).to_text();
    parse(&first).to_text()
}

#[test]
fn undirected_pattern_text_reads_back() {
    let text = parse("MATCH (a:X:Y)-[r:T|U*2]-(b), (c)").to_text();
    assert_eq!(text, "MATCH (a:X:Y)-[r:T|U*2]-(b), (c)");
    assert_eq!(reparsed_text("MATCH (a:X:Y)-[r:T|U*2]-(b), (c)"), text);
    assert_eq!(reparsed_text("CREATE (:A)-[:R]-()"), "CREATE (:A)-[:R]-()");
}

#[test]
fn directed_pattern_text_does_not_read_back() {
    let text = parse("MATCH (a)-[r]->(b)").to_text();
    assert_eq!(text, "MATCH (a)-[r]>-(b)");
    let mut parser = Parser::from_query(&text).ok().unwrap();
    assert!(parser.parse_cypher_statement().is_err());
}

#[test]
fn length_text_reads_back() {
    assert_eq!(reparsed_text("MATCH (a)-[*3]-(b)"), "MATCH (a)-[*3]-(b)");
    assert_eq!(reparsed_text("MATCH (a)-[*]-(b)"), "MATCH (a)-[*]-(b)");
    let s = parse("MATCH (a)-[*2 .. 5]-(b)");
    assert_eq!(s.to_text(), "MATCH (a)-[*2..5]-(b)");
    let s = parse("MATCH (a)-[* ..]-(b)");
    assert_eq!(s.to_text(), "MATCH (a)-[*]-(b)");
}

#[test]
fn cypher_dialect_identifiers() {
    let d = cypher_sql::CypherDialect;
    assert!(d.is_identifier_start('é'));
    assert!(d.is_identifier_start('$'));
    assert!(d.is_identifier_start('_'));
    assert!(!d.is_identifier_start('1'));
    assert!(d.is_identifier_part('1'));
    assert!(d.is_identifier_part('ß'));
    assert!(!d.is_identifier_part('-'));
    assert!(d.is_delimited_identifier_start('`'));
    assert!(!d.is_delimited_identifier_start('"'));
    assert!(d.support_map_literal_syntax());
    assert!(!d.supports_connect_by());
}

#[test]
fn dollar_identifiers_tokenize_as_words() {
    let s = parse("MATCH ($n:$L) RETURN 1");
    assert_eq!(s.to_text(), "MATCH ($n:$L) RETURN 1");
}

#[test]
fn optional_requires_match() {
    assert_eq!(parse_err("OPTIONAL CREATE (n)"), "Expected: MATCH, found: CREATE");
}

#[test]
fn detach_requires_delete() {
    assert_eq!(parse_err("DETACH n"), "Expected: DELETE, found: n");
}

#[test]
fn relationship_needs_a_node_after_it() {
    assert_eq!(parse_err("MATCH (a)-[r]->"), "Expected: node after relationship, found: EOF");
}

#[test]
fn relationship_direction_required_before_node() {
    assert_eq!(parse_err("MATCH (a)-[r](b)"), "Expected: relationship direction (- or ->), found: (");
}

#[test]
fn empty_property_map() {
    let s = parse("CREATE (n {})");
    match &first_pattern(&s).elements()[0] {
        PatternElement::Node { properties, .. } => assert_eq!(properties.as_ref().unwrap().entries.len(), 0),
        PatternElement::Relationship { .. } => panic!("expected a node"),
    }
}

#[test]
fn return_clause_parts() {
    let s = parse("MATCH (n) RETURN DISTINCT n ORDER BY n.age SKIP 5 LIMIT 10");
    match &s {
        CypherStatement::Match { return_clause: Some(c), .. } => {
            assert!(c.distinct);
            assert_eq!(c.items.len(), 1);
            assert_eq!(c.order_by[0].expr.text, "n.age");
            assert_eq!(c.skip.as_ref().unwrap().text, "5");
            assert_eq!(c.limit.as_ref().unwrap().text, "10");
        }
        _ => panic!("expected MATCH with RETURN"),
    }
}

#[test]
fn set_needs_equals() {
    assert_eq!(parse_err("MERGE (n) ON CREATE SET n.x 1"), "Expected: =, found: 1");
}

#[test]
fn ranges_read_as_the_tokenizer_writes_them() {
    assert!(matches!(length_of("MATCH (a)-[*1..3]->(b)"), RelationshipLength::Range(Some(1), Some(3))));
    assert!(matches!(length_of("MATCH (a)-[*2..]->(b)"), RelationshipLength::Range(Some(2), None)));
    assert!(matches!(length_of("MATCH (a)-[*..4]->(b)"), RelationshipLength::Range(None, Some(4))));
    assert_eq!(reparsed_text("MATCH (a)-[*1..3]-(b)"), "MATCH (a)-[*1..3]-(b)");
    assert_eq!(reparsed_text("MATCH (a)-[*2..]-(b)"), "MATCH (a)-[*2..]-(b)");
    assert_eq!(reparsed_text("MATCH (a)-[*..4]-(b)"), "MATCH (a)-[*..4]-(b)");
}

#[test]
fn merge_with_both_blocks() {
    let s = parse("MERGE (n:Person) ON CREATE SET n.created = 1 ON MATCH SET n.seen = 2");
    match &s {
        CypherStatement::Merge { on_create: Some(c), on_match: Some(m), .. } => {
            assert_eq!(c[0].value.text, "1");
            assert_eq!(m[0].value.text, "2");
        }
        _ => panic!("expected MERGE with both blocks"),
    }
}
