use cypher_sql::{
    transform_cypher_to_sql, CypherError, CypherStatement, CypherToSqlTransformer, Parser,
    SqlStatement, TransformConfig,
};

fn parse(query: &str) -> CypherStatement {
    let mut parser = Parser::from_query(query).ok().expect("tokenizes");
    match parser.parse_cypher_statement() {
        Ok(s) => s,
        Err(e) => panic!("parse failed: {}", e.message),
    }
}

fn sql_with(config: TransformConfig, query: &str) -> Vec<String> {
    let stmt = parse(query);
    let transformer = CypherToSqlTransformer::with_config(config);
    match transformer.transform(&stmt) {
        Ok(v) => v.iter().map(|s| s.to_sql()).collect(),
        Err(e) => panic!("transform failed: {}", e.message),
    }
}

fn basic(query: &str) -> String {
    match transform_cypher_to_sql(query) {
        Ok(s) => s,
        Err(CypherError::Parse(e)) => panic!("parse error: {}", e.message),
        Err(CypherError::Translation(e)) => panic!("translation error: {}", e.message),
    }
}

#[test]
fn match_label_column() {
    assert_eq!(
        basic("MATCH (n:Person) RETURN n.name"),
        "SELECT json_extract(n.properties, '$.name') as name FROM nodes n WHERE n.label = 'Person'"
    );
}

#[test]
fn match_label_tables() {
    let out = sql_with(TransformConfig::default(), "MATCH (n:Person) RETURN n.name");
    assert_eq!(out, vec!["SELECT json_extract(n.properties, '$.name') as name FROM Person n".to_string()]);
}

#[test]
fn match_relationship_joins() {
    let out = basic("MATCH (n:Person)-[r:KNOWS]->(m:Person) RETURN n.name, m.name");
    assert_eq!(
        out,
        "SELECT json_extract(n.properties, '$.name') as name, json_extract(m.properties, '$.name') as name \
         FROM nodes n JOIN relationships r ON n.id = r.from_id JOIN nodes m ON r.to_id = m.id \
         WHERE n.label = 'Person' AND r.type = 'KNOWS' AND m.label = 'Person'"
    );
    assert_eq!(out.matches("JOIN relationships").count(), 1);
    assert_eq!(out.matches("JOIN nodes").count(), 1);
    assert!(out.contains("r.type = 'KNOWS' AND m.label = 'Person'"));
}

#[test]
fn match_relationship_label_tables() {
    let out = sql_with(TransformConfig::default(), "MATCH (n:Person)-[r:KNOWS]->(m:Person) RETURN n.name, m.name");
    assert_eq!(
        out[0],
        "SELECT json_extract(n.properties, '$.name') as name, json_extract(m.properties, '$.name') as name \
         FROM Person n JOIN relationships r ON n.id = r.from_id JOIN Person m ON r.to_id = m.id WHERE r.type = 'KNOWS'"
    );
}

#[test]
fn create_node_label_column() {
    assert_eq!(basic("CREATE (n:Person)"), "INSERT INTO nodes (label, properties) VALUES ('Person', '{}')");
}

#[test]
fn create_node_label_table() {
    let out = sql_with(TransformConfig::default(), "CREATE (n:Person)");
    assert_eq!(out, vec!["INSERT INTO Person (label, properties) VALUES ('Person', '{}')".to_string()]);
}

#[test]
fn create_path_inserts_each_element() {
    assert_eq!(
        basic("CREATE (a:User)-[:FOLLOWS]->(b)"),
        "INSERT INTO nodes (label, properties) VALUES ('User', '{}');\n\
         INSERT INTO relationships (from_id, to_id, type, properties) VALUES (?, ?, 'FOLLOWS', '{}');\n\
         INSERT INTO nodes (label, properties) VALUES (NULL, '{}')"
    );
}

#[test]
fn match_unlabelled_node() {
    assert_eq!(basic("MATCH (n) RETURN n.id"), "SELECT json_extract(n.properties, '$.id') as id FROM nodes n");
}

#[test]
fn match_missing_paren_is_parse_error() {
    match transform_cypher_to_sql("MATCH (n:Person RETURN n") {
        Err(CypherError::Parse(e)) => {
            assert!(e.message.contains("Expected: )"), "{}", e.message);
            assert_eq!(e.message, "Expected: ), found: RETURN");
            assert_eq!((e.line, e.column), (1, 17));
        }
        _ => panic!("expected a parse error"),
    }
}

#[test]
fn merge_is_not_translated() {
    match transform_cypher_to_sql("MERGE (n:Person)") {
        Err(CypherError::Translation(e)) => assert_eq!(e.message, "MERGE transformation not yet implemented"),
        _ => panic!("expected a translation error"),
    }
}

#[test]
fn delete_is_not_translated() {
    match transform_cypher_to_sql("MATCH (n) DELETE n") {
        Ok(s) => assert!(s.starts_with("SELECT")),
        Err(_) => panic!("MATCH with trailing tokens still parses"),
    }
    match transform_cypher_to_sql("DETACH DELETE n") {
        Err(CypherError::Translation(e)) => assert_eq!(e.message, "DELETE transformation not yet implemented"),
        _ => panic!("expected a translation error"),
    }
}

#[test]
fn unknown_leading_keyword() {
    match transform_cypher_to_sql("SELECT 1") {
        Err(CypherError::Parse(e)) => assert_eq!(e.message, "Expected: MATCH, CREATE, MERGE, or DELETE, found: SELECT"),
        _ => panic!("expected a parse error"),
    }
}

#[test]
fn anonymous_aliases_count_across_patterns() {
    assert_eq!(
        basic("MATCH (:A)-[:R]-(), (c) RETURN *"),
        "SELECT * FROM nodes n1 JOIN relationships r1 ON n1.id = r1.from_id JOIN nodes n2 ON r1.to_id = n2.id \
         JOIN nodes c ON TRUE WHERE n1.label = 'A' AND r1.type = 'R'"
    );
}

#[test]
fn several_types_are_alternatives() {
    assert_eq!(
        basic("MATCH (a)-[r:X|Y]->(b) RETURN a"),
        "SELECT a FROM nodes a JOIN relationships r ON a.id = r.from_id JOIN nodes b ON r.to_id = b.id \
         WHERE (r.type = 'X' OR r.type = 'Y')"
    );
}

#[test]
fn where_order_skip_limit() {
    assert_eq!(
        basic("MATCH (n:Person) WHERE n.age > 30 RETURN DISTINCT n.name AS who, n ORDER BY n.age SKIP 5 LIMIT 10"),
        "SELECT DISTINCT json_extract(n.properties, '$.name') AS who, n FROM nodes n \
         WHERE n.label = 'Person' AND n.age > 30 ORDER BY json_extract(n.properties, '$.age') ASC LIMIT 10 OFFSET 5"
    );
}

#[test]
fn match_without_return_selects_all() {
    assert_eq!(basic("MATCH (n)"), "SELECT * FROM nodes n");
}

#[test]
fn select_renders_from_parts() {
    let stmt = parse("OPTIONAL MATCH (x:T) RETURN x.a");
    let out = CypherToSqlTransformer::new().transform(&stmt).ok().unwrap();
    match &out[0] {
        SqlStatement::Select(q) => {
            assert_eq!(q.from.as_deref(), Some("T x"));
            assert!(q.conditions.is_empty());
            assert_eq!(q.projection, vec!["json_extract(x.properties, '$.a') as a".to_string()]);
        }
        SqlStatement::Insert(_) => panic!("expected a SELECT"),
    }
}

#[test]
fn deep_nesting_is_a_parse_error() {
    let query = format!("MATCH (n) WHERE {}1{} RETURN n", "(".repeat(200), ")".repeat(200));
    match transform_cypher_to_sql(&query) {
        Err(CypherError::Parse(e)) => assert!(e.message.contains("recursion limit exceeded"), "{}", e.message),
        _ => panic!("expected a parse error"),
    }
}

#[test]
fn create_properties_become_empty_object() {
    assert_eq!(
        basic("CREATE (n:Person {name: 'Alice'})"),
        "INSERT INTO nodes (label, properties) VALUES ('Person', '{}')"
    );
}

#[test]
fn custom_tables() {
    let config = TransformConfig {
        node_table: "vertices".to_string(),
        relationship_table: "edges".to_string(),
        use_label_tables: false,
    };
    let out = sql_with(config, "MATCH (a)-[e]-(b) RETURN a.x");
    assert_eq!(
        out,
        vec!["SELECT json_extract(a.properties, '$.x') as x FROM vertices a JOIN edges e ON a.id = e.from_id \
              JOIN vertices b ON e.to_id = b.id"
            .to_string()]
    );
}

#[test]
fn tokenizer_errors_are_parse_errors() {
    match transform_cypher_to_sql("MATCH (n) WHERE n.name = 'open") {
        Err(CypherError::Parse(e)) => assert!(!e.message.is_empty()),
        _ => panic!("expected a parse error"),
    }
}

#[test]
fn qualified_wildcard_passes_through() {
    assert_eq!(basic("MATCH (n) RETURN n.*"), "SELECT n.* FROM nodes n");
}

#[test]
fn unrelated_patterns_join_unconditionally() {
    assert_eq!(basic("MATCH (), () RETURN *"), "SELECT * FROM nodes n1 JOIN nodes n2 ON TRUE");
}

#[test]
fn aliased_and_plain_items() {
    assert_eq!(
        basic("MATCH (n) RETURN n.name AS nm, n"),
        "SELECT json_extract(n.properties, '$.name') AS nm, n FROM nodes n"
    );
}
