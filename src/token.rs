//! The token stream that the statement parser reads: the SQL tokenizer's
//! tokens, with a plain view of each.
use vstd::prelude::*;
use vstd::string::StringExecFns;
use crate::dialect::CypherDialect;
use crate::error::ParseError;

verus! {

/// The tokens that the statement grammar tells apart.
pub enum Token {
    /// A keyword or an identifier, with its quote character if it was delimited.
    Word { value: String, quote_style: Option<char> },
    /// An unsigned numeric literal, as written.
    Number(String),
    SingleQuoted(String),
    DoubleQuoted(String),
    Punct(Punct),
    Whitespace,
    /// Any token that the statement grammar does not use itself.
    Other,
}

/// The punctuation that the statement grammar reads.
#[derive(PartialEq, Eq, Structural, Clone, Copy)]
pub enum Punct {
    LParen,
    RParen,
    LBracket,
    RBracket,
    LBrace,
    RBrace,
    Colon,
    Comma,
    Minus,
    Lt,
    Gt,
    Arrow,
    Star,
    Period,
    Pipe,
    Eq,
}

impl Punct {
    /// The punctuation's source text.
    pub open spec fn text(self) -> Seq<char> {
        match self {
            Punct::LParen => "("@,
            Punct::RParen => ")"@,
            Punct::LBracket => "["@,
            Punct::RBracket => "]"@,
            Punct::LBrace => "{"@,
            Punct::RBrace => "}"@,
            Punct::Colon => ":"@,
            Punct::Comma => ","@,
            Punct::Minus => "-"@,
            Punct::Lt => "<"@,
            Punct::Gt => ">"@,
            Punct::Arrow => "->"@,
            Punct::Star => "*"@,
            Punct::Period => "."@,
            Punct::Pipe => "|"@,
            Punct::Eq => "="@,
        }
    }

    pub fn to_str(self) -> (r: &'static str)
        ensures
            r@ == self.text(),
    {
        proof {
            reveal_strlit("(");
            reveal_strlit(")");
            reveal_strlit("[");
            reveal_strlit("]");
            reveal_strlit("{");
            reveal_strlit("}");
            reveal_strlit(":");
            reveal_strlit(",");
            reveal_strlit("-");
            reveal_strlit("<");
            reveal_strlit(">");
            reveal_strlit("->");
            reveal_strlit("*");
            reveal_strlit(".");
            reveal_strlit("|");
            reveal_strlit("=");
        }
        match self {
            Punct::LParen => "(",
            Punct::RParen => ")",
            Punct::LBracket => "[",
            Punct::RBracket => "]",
            Punct::LBrace => "{",
            Punct::RBrace => "}",
            Punct::Colon => ":",
            Punct::Comma => ",",
            Punct::Minus => "-",
            Punct::Lt => "<",
            Punct::Gt => ">",
            Punct::Arrow => "->",
            Punct::Star => "*",
            Punct::Period => ".",
            Punct::Pipe => "|",
            Punct::Eq => "=",
        }
    }
}

/// A token with its source text and the line and column where it starts.
pub struct Located {
    pub token: Token,
    pub text: String,
    pub line: u64,
    pub column: u64,
}

/// The token that a punctuation text stands for.
pub open spec fn punctuation(t: Seq<char>) -> Token {
    if t == "("@ { Token::Punct(Punct::LParen) }
    else if t == ")"@ { Token::Punct(Punct::RParen) }
    else if t == "["@ { Token::Punct(Punct::LBracket) }
    else if t == "]"@ { Token::Punct(Punct::RBracket) }
    else if t == "{"@ { Token::Punct(Punct::LBrace) }
    else if t == "}"@ { Token::Punct(Punct::RBrace) }
    else if t == ":"@ { Token::Punct(Punct::Colon) }
    else if t == ","@ { Token::Punct(Punct::Comma) }
    else if t == "-"@ { Token::Punct(Punct::Minus) }
    else if t == "<"@ { Token::Punct(Punct::Lt) }
    else if t == ">"@ { Token::Punct(Punct::Gt) }
    else if t == "->"@ { Token::Punct(Punct::Arrow) }
    else if t == "*"@ { Token::Punct(Punct::Star) }
    else if t == "."@ { Token::Punct(Punct::Period) }
    else if t == "|"@ { Token::Punct(Punct::Pipe) }
    else if t == "="@ { Token::Punct(Punct::Eq) }
    else { Token::Other }
}

/// What the SQL tokenizer reports of one token, as plain values.
pub struct Lexeme {
    /// The token's source form.
    pub text: String,
    /// A word's value and quote character.
    pub word: Option<(String, Option<char>)>,
    /// A numeric literal's digits.
    pub number: Option<String>,
    /// A quoted string's text and quote character.
    pub quoted: Option<(String, char)>,
    pub whitespace: bool,
    pub line: u64,
    pub column: u64,
}

/// The tokens that sqlparser's tokenizer, under the Cypher dialect, makes of
/// a query; `None` where it rejects the query.
pub uninterp spec fn lexed(q: Seq<char>) -> Option<Seq<Lexeme>>;

/// The query has tokens and `i` is one of their places.
pub open spec fn lexed_at(q: Seq<char>, i: int) -> bool {
    lexed(q) matches Some(ls) && 0 <= i < ls.len()
}

/// Relies on sqlparser's `Tokenizer::tokenize_with_location`: how many tokens
/// it makes of `query`, or its message.
#[verifier::external_body]
fn lex_count(query: &str) -> (r: Result<usize, String>)
    ensures
        match lexed(query@) {
            Some(ls) => r matches Ok(n) && n == ls.len(),
            None => r is Err,
        },
{
    let dialect = CypherDialect;
    let tokens = sqlparser::tokenizer::Tokenizer::new(&dialect, query).tokenize_with_location();
    tokens.map(|t| t.len()).map_err(|e| e.to_string())
}

/// Relies on sqlparser's tokenizer and the `Display` of a token: the source
/// form of token `i`.
#[verifier::external_body]
fn lexeme_text(query: &str, i: usize) -> (r: String)
    requires
        lexed_at(query@, i as int),
    ensures
        r == lexed(query@)->Some_0[i as int].text,
{
    let dialect = CypherDialect;
    let tokens = sqlparser::tokenizer::Tokenizer::new(&dialect, query).tokenize_with_location().unwrap_or_default();
    tokens[i].token.to_string()
}

/// Relies on sqlparser's tokenizer and `Token::Word`: the value and quote
/// character of token `i`, if it is a word.
#[verifier::external_body]
fn lexeme_word(query: &str, i: usize) -> (r: Option<(String, Option<char>)>)
    requires
        lexed_at(query@, i as int),
    ensures
        r == lexed(query@)->Some_0[i as int].word,
{
    let dialect = CypherDialect;
    let tokens = sqlparser::tokenizer::Tokenizer::new(&dialect, query).tokenize_with_location().unwrap_or_default();
    match &tokens[i].token {
        sqlparser::tokenizer::Token::Word(w) => Some((w.value.clone(), w.quote_style)),
        _ => None,
    }
}

/// Relies on sqlparser's tokenizer and `Token::Number`: the digits of token
/// `i`, if it is a numeric literal.
#[verifier::external_body]
fn lexeme_number(query: &str, i: usize) -> (r: Option<String>)
    requires
        lexed_at(query@, i as int),
    ensures
        r == lexed(query@)->Some_0[i as int].number,
{
    let dialect = CypherDialect;
    let tokens = sqlparser::tokenizer::Tokenizer::new(&dialect, query).tokenize_with_location().unwrap_or_default();
    match &tokens[i].token {
        sqlparser::tokenizer::Token::Number(n, _) => Some(n.clone()),
        _ => None,
    }
}

/// Relies on sqlparser's tokenizer and `Token::SingleQuotedString` /
/// `Token::DoubleQuotedString`: the text and quote character of token `i`.
#[verifier::external_body]
fn lexeme_quoted(query: &str, i: usize) -> (r: Option<(String, char)>)
    requires
        lexed_at(query@, i as int),
    ensures
        r == lexed(query@)->Some_0[i as int].quoted,
{
    let dialect = CypherDialect;
    let tokens = sqlparser::tokenizer::Tokenizer::new(&dialect, query).tokenize_with_location().unwrap_or_default();
    match &tokens[i].token {
        sqlparser::tokenizer::Token::SingleQuotedString(s) => Some((s.clone(), '\'')),
        sqlparser::tokenizer::Token::DoubleQuotedString(s) => Some((s.clone(), '"')),
        _ => None,
    }
}

/// Relies on sqlparser's tokenizer and `Token::Whitespace`: whether token `i`
/// is spaces, a line break or a comment.
#[verifier::external_body]
fn lexeme_whitespace(query: &str, i: usize) -> (r: bool)
    requires
        lexed_at(query@, i as int),
    ensures
        r == lexed(query@)->Some_0[i as int].whitespace,
{
    let dialect = CypherDialect;
    let tokens = sqlparser::tokenizer::Tokenizer::new(&dialect, query).tokenize_with_location().unwrap_or_default();
    matches!(tokens[i].token, sqlparser::tokenizer::Token::Whitespace(_))
}

/// Relies on sqlparser's tokenizer and `Span`: the line and column where token
/// `i` starts.
#[verifier::external_body]
fn lexeme_start(query: &str, i: usize) -> (r: (u64, u64))
    requires
        lexed_at(query@, i as int),
    ensures
        r.0 == lexed(query@)->Some_0[i as int].line,
        r.1 == lexed(query@)->Some_0[i as int].column,
{
    let dialect = CypherDialect;
    let tokens = sqlparser::tokenizer::Tokenizer::new(&dialect, query).tokenize_with_location().unwrap_or_default();
    (tokens[i].span.start.line, tokens[i].span.start.column)
}

/// The statement grammar's view of a lexeme.
pub open spec fn locate(l: Lexeme) -> Located {
    let token = match l.word {
        Some((value, quote_style)) => Token::Word { value, quote_style },
        None => match l.number {
            Some(n) => Token::Number(n),
            None => match l.quoted {
                Some((s, q)) => if q == '\'' { Token::SingleQuoted(s) } else { Token::DoubleQuoted(s) },
                None => if l.whitespace { Token::Whitespace } else { punctuation(l.text@) },
            },
        },
    };
    Located { token, text: l.text, line: l.line, column: l.column }
}

/// The statement grammar's view of the tokens of a query that the tokenizer accepts.
pub open spec fn query_tokens(q: Seq<char>) -> Seq<Located> {
    lexed(q)->Some_0.map_values(|l: Lexeme| locate(l))
}

/// The view of token `i` of the query.
fn view_token(query: &str, i: usize) -> (r: Located)
    requires
        lexed_at(query@, i as int),
    ensures
        r == locate(lexed(query@)->Some_0[i as int]),
{
    let text = lexeme_text(query, i);
    let (line, column) = lexeme_start(query, i);
    let token = if let Some((value, quote_style)) = lexeme_word(query, i) {
        Token::Word { value, quote_style }
    } else if let Some(n) = lexeme_number(query, i) {
        Token::Number(n)
    } else if let Some((s, q)) = lexeme_quoted(query, i) {
        if q == '\'' {
            Token::SingleQuoted(s)
        } else {
            Token::DoubleQuoted(s)
        }
    } else if lexeme_whitespace(query, i) {
        Token::Whitespace
    } else {
        classify_punctuation(text.as_str())
    };
    Located { token, text, line, column }
}

fn classify_punctuation(t: &str) -> (r: Token)
    ensures
        r == punctuation(t@),
{
    proof {
        reveal_strlit("(");
        reveal_strlit(")");
        reveal_strlit("[");
        reveal_strlit("]");
        reveal_strlit("{");
        reveal_strlit("}");
        reveal_strlit(":");
        reveal_strlit(",");
        reveal_strlit("-");
        reveal_strlit("<");
        reveal_strlit(">");
        reveal_strlit("->");
        reveal_strlit("*");
        reveal_strlit(".");
        reveal_strlit("|");
        reveal_strlit("=");
    }
    let s = String::from_str(t);
    if s == String::from_str("(") { Token::Punct(Punct::LParen) }
    else if s == String::from_str(")") { Token::Punct(Punct::RParen) }
    else if s == String::from_str("[") { Token::Punct(Punct::LBracket) }
    else if s == String::from_str("]") { Token::Punct(Punct::RBracket) }
    else if s == String::from_str("{") { Token::Punct(Punct::LBrace) }
    else if s == String::from_str("}") { Token::Punct(Punct::RBrace) }
    else if s == String::from_str(":") { Token::Punct(Punct::Colon) }
    else if s == String::from_str(",") { Token::Punct(Punct::Comma) }
    else if s == String::from_str("-") { Token::Punct(Punct::Minus) }
    else if s == String::from_str("<") { Token::Punct(Punct::Lt) }
    else if s == String::from_str(">") { Token::Punct(Punct::Gt) }
    else if s == String::from_str("->") { Token::Punct(Punct::Arrow) }
    else if s == String::from_str("*") { Token::Punct(Punct::Star) }
    else if s == String::from_str(".") { Token::Punct(Punct::Period) }
    else if s == String::from_str("|") { Token::Punct(Punct::Pipe) }
    else if s == String::from_str("=") { Token::Punct(Punct::Eq) }
    else { Token::Other }
}

/// The tokens of a statement's query, viewed one by one; the query itself is
/// kept for the expression parser.
pub struct TokenStream {
    query: String,
    located: Vec<Located>,
}

impl TokenStream {
    pub closed spec fn wf(&self) -> bool {
        lexed(self.query@) matches Some(ls) && self.located@ == ls.map_values(|l: Lexeme| locate(l))
    }

    /// The plain view of the tokens, in order.
    pub closed spec fn view(&self) -> Seq<Located> {
        self.located@
    }

    /// The query the tokens were read from.
    pub closed spec fn query(&self) -> Seq<char> {
        self.query@
    }

    /// Splits a query into tokens; fails with the tokenizer's message exactly
    /// where the tokenizer rejects the query.
    pub fn tokenize(query: &str) -> (r: Result<TokenStream, ParseError>)
        ensures
            r is Ok <==> lexed(query@) is Some,
            r matches Ok(s) ==> s.wf() && s.query() == query@
                && s@ == lexed(query@)->Some_0.map_values(|l: Lexeme| locate(l)),
    {
        match lex_count(query) {
            Err(message) => Err(ParseError { message, line: 0, column: 0 }),
            Ok(n) => {
                let mut located: Vec<Located> = Vec::new();
                let mut i: usize = 0;
                while i < n
                    invariant
                        lexed(query@) matches Some(ls) && n == ls.len(),
                        i <= n,
                        located@ == lexed(query@)->Some_0.subrange(0, i as int).map_values(|l: Lexeme| locate(l)),
                    decreases n - i,
                {
                    located.push(view_token(query, i));
                    i = i + 1;
                    assert(located@ =~= lexed(query@)->Some_0.subrange(0, i as int).map_values(|l: Lexeme| locate(l)));
                }
                assert(lexed(query@)->Some_0.subrange(0, n as int) =~= lexed(query@)->Some_0);
                Ok(TokenStream { query: String::from_str(query), located })
            },
        }
    }

    pub fn len(&self) -> (r: usize)
        requires
            self.wf(),
        ensures
            r == self@.len(),
    {
        self.located.len()
    }

    pub fn get(&self, i: usize) -> (r: &Located)
        requires
            self.wf(),
            i < self@.len(),
        ensures
            *r == self@[i as int],
    {
        &self.located[i]
    }

    pub(crate) fn query_str(&self) -> (r: &str)
        requires
            self.wf(),
        ensures
            r@ == self.query(),
            lexed(r@) matches Some(ls) && ls.len() == self@.len(),
    {
        self.query.as_str()
    }
}

} // verus!
