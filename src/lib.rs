//! Cypher graph queries: a statement parser over a SQL token stream and a
//! translator into relational SQL text.
pub mod ast;
pub mod dialect;
pub mod error;
mod exprs;
pub mod grammar;
pub mod parser;
pub mod render;
pub mod roundtrip;
pub mod text;
pub mod token;
pub mod translate;

pub use ast::{
    CypherStatement, Expr, Ident, OrderKey, Pattern, PatternElement, PropertyMap,
    RelationshipDirection, RelationshipLength, ReturnClause, ReturnItem, SetClause, SetTarget,
};
pub use dialect::CypherDialect;
pub use error::{CypherError, ParseError, TranslationError};
pub use parser::Parser;
pub use translate::{
    transform_cypher_to_sql, transform_cypher_to_sql_basic, CypherToSqlTransformer,
    InsertStatement, SelectQuery, SqlStatement, TransformConfig,
};
