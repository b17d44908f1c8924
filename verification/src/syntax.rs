//! Lexing, generic expansion, module combination and parsing of Adamantium
//! source into a name-resolved syntax tree.

#![verifier::loop_isolation(false)]

mod generics;
mod lexer;
mod modules;
mod parser;

use crate::text::{concat2, concat3, nat_digits, push_char, push_u128, usize_text};
use crate::types::Type;
use vstd::prelude::*;


pub use lexer::{
    block_end, comment_end, digits_end, is_symbol_char, is_white_space, lex, lex_from, lexed,
    lexeme_of, lexemes, number_end, prepended, string_end, token_at, unescaped, white_space,
    word_end, Lexeme,
};
pub use generics::{declares_generics, expand_generics, generic_header_from};
pub use modules::{
    dependencies_from, extended, joined_path, module_dependencies, module_prefix, parse_modules,
    path_at, prefix_of, source_dependencies, token_dependencies,
};
pub use parser::{
    all_slots_declared, arms_extent, call_extent, declares, expr_extent, exprs_extent,
    fields_extent, larger, parse, slots_declared, statement_extent, statements_extent,
};



verus! {

/// A lexical token.
#[derive(Clone, Debug, PartialEq)]
pub enum Token {
    Word(String),
    Number(String),
    String(String),
    Symbol(char),
    End,
}

/// A token with the position where it starts.
pub type PositionedToken = (Token, Position);

/// A line and column in the source, both counted from 1.
#[derive(Clone, Copy, Debug)]
pub struct Position {
    pub line: usize,
    pub column: usize,
}

/// What `Position::error` writes: `line:column: message`.
pub open spec fn position_text(p: Position, message: Seq<char>) -> Seq<char> {
    nat_digits(p.line as nat) + ":"@ + nat_digits(p.column as nat) + ": "@ + message
}

impl Position {
    /// The message prefixed with `line:column: `.
    pub fn error(self, message: &str) -> (r: String)
        ensures
            r@ == position_text(self, message@),
    {
        let mut r = String::new();
        push_u128(&mut r, self.line as u128);
        r.append(":");
        push_u128(&mut r, self.column as u128);
        r.append(": ");
        r.append(message);
        r
    }

    /// The line of the position.
    pub fn line(self) -> (r: usize)
        ensures
            r == self.line,
    {
        self.line
    }
}

/// An arithmetic operator.
#[derive(Clone, Copy, Debug, PartialEq, Eq, Structural)]
pub enum Operator {
    Add,
    Subtract,
    Multiply,
    Divide,
    Remainder,
}

/// `and` / `&&` and `or` / `||`.
#[derive(Clone, Copy, Debug, PartialEq, Eq, Structural)]
pub enum LogicalOperator {
    And,
    Or,
}

/// A comparison operator.
#[derive(Clone, Copy, Debug, PartialEq, Eq, Structural)]
pub enum Comparison {
    Equal,
    NotEqual,
    Less,
    LessEqual,
    Greater,
    GreaterEqual,
}

/// The arithmetic operator written with `c`.
pub open spec fn operator_of(c: char) -> Option<Operator> {
    if c == '+' { Some(Operator::Add) }
    else if c == '-' { Some(Operator::Subtract) }
    else if c == '*' { Some(Operator::Multiply) }
    else if c == '/' { Some(Operator::Divide) }
    else if c == '%' { Some(Operator::Remainder) }
    else { None }
}

impl Operator {
    /// The arithmetic operator written with `c`.
    pub fn from_char(c: char) -> (r: Option<Operator>)
        ensures
            r == operator_of(c),
    {
        if c == '+' { Some(Operator::Add) }
        else if c == '-' { Some(Operator::Subtract) }
        else if c == '*' { Some(Operator::Multiply) }
        else if c == '/' { Some(Operator::Divide) }
        else if c == '%' { Some(Operator::Remainder) }
        else { None }
    }
}

/// An expression whose variables are resolved to storage slots.
#[derive(Debug)]
pub enum Expr {
    Integer(i128),
    Decimal(String),
    String(Vec<u8>),
    Bool(bool),
    NoneValue,
    EnumVariant(Type, u32),
    Construct(u32, Vec<(String, Expr)>),
    List(Vec<Expr>),
    Index(Box<Expr>, Box<Expr>, Position),
    Annotated(Box<Expr>, Type),
    Cast(Box<Expr>, Type, Position),
    Variable(usize),
    Field(Box<Expr>, String, Position),
    MethodCall(Box<Expr>, String, Vec<Expr>, Position),
    Negate(Box<Expr>),
    Positive(Box<Expr>),
    Not(Box<Expr>),
    Binary(Operator, Box<Expr>, Box<Expr>),
    Logical(LogicalOperator, Box<Expr>, Box<Expr>),
    Compare(Comparison, Box<Expr>, Box<Expr>),
    Call(Call),
}

/// A call of a named function.
#[derive(Debug)]
pub struct Call {
    pub name: String,
    pub arguments: Vec<Expr>,
    pub position: Position,
}

/// A statement whose variables are resolved to storage slots.
#[derive(Debug)]
pub enum Statement {
    Noop(Option<String>),
    Assign(usize, Expr),
    Disconnect(usize, usize),
    Remove(usize),
    Clamp(usize, Expr, Expr),
    Print(Expr, bool),
    Call(Call),
    SetField(Expr, String, Expr),
    SetIndex(Expr, Expr, Expr),
    MethodCall(Expr),
    Message(Expr, bool, Position),
    If(Expr, Vec<Statement>, Vec<Statement>),
    While(Expr, Vec<Statement>),
    Until(Expr, Vec<Statement>),
    Loop(Vec<Statement>),
    For(usize, Expr, Expr, Vec<Statement>),
    Match(Expr, Vec<(Expr, Vec<Statement>)>, Option<Vec<Statement>>),
    Break,
    Continue,
    Exit,
    Return,
}

/// A parsed function: its parameters are the first `parameters` slots, the
/// named result (if any) is slot `result`, and `types` holds the declared type
/// of every slot.
#[derive(Debug)]
pub struct Function {
    pub name: String,
    pub parameters: usize,
    pub optional_parameters: Vec<bool>,
    pub result: Option<usize>,
    pub statements: Vec<Statement>,
    pub positions: Vec<Position>,
    pub types: Vec<Option<Type>>,
    pub bindings: Vec<(String, Position)>,
    pub position: Position,
    pub owner: Option<u32>,
}

/// A field of a class.
#[derive(Clone, Debug)]
pub struct ClassField {
    pub name: String,
    pub ty: Type,
    pub public: bool,
}

/// A method of a class and the generated function that implements it.
#[derive(Clone, Debug)]
pub struct ClassMethod {
    pub name: String,
    pub function: String,
    pub public: bool,
}

/// A class: its number, fields, methods and implemented traits.
#[derive(Clone, Debug)]
pub struct ClassDefinition {
    pub id: u32,
    pub name: String,
    pub fields: Vec<ClassField>,
    pub methods: Vec<ClassMethod>,
    pub traits: Vec<String>,
}

/// A parsed program: functions (class methods included) and classes, the
/// classes in the order of their numbers.
#[derive(Debug)]
pub struct Program {
    pub functions: Vec<Function>,
    pub classes: Vec<ClassDefinition>,
}

/// Token sequences that the parser accepts: they end with `End` (reading
/// stops at the first `End`).
pub open spec fn well_formed_tokens(tokens: Seq<PositionedToken>) -> bool {
    &&& tokens.len() > 0
    &&& tokens.last().0 is End
}

/// Token sequences with a final `End` and no other, as the lexer makes them.
pub open spec fn single_end(tokens: Seq<PositionedToken>) -> bool {
    &&& well_formed_tokens(tokens)
    &&& forall|i: int| 0 <= i < tokens.len() - 1 ==> !(#[trigger] tokens[i].0 is End)
}

/// A token equal to `token`.
pub fn clone_token(token: &Token) -> (r: Token)
    ensures
        r == *token,
{
    match token {
        Token::Word(value) => Token::Word(value.clone()),
        Token::Number(value) => Token::Number(value.clone()),
        Token::String(value) => Token::String(value.clone()),
        Token::Symbol(c) => Token::Symbol(*c),
        Token::End => Token::End,
    }
}

/// A positioned token equal to `token`.
pub fn clone_positioned(token: &PositionedToken) -> (r: PositionedToken)
    ensures
        r == *token,
{
    (clone_token(&token.0), token.1)
}

/// Two tokens of the same kind with the same text or symbol.
pub open spec fn token_equal(a: Token, b: Token) -> bool {
    match (a, b) {
        (Token::Word(x), Token::Word(y)) => x@ == y@,
        (Token::Number(x), Token::Number(y)) => x@ == y@,
        (Token::String(x), Token::String(y)) => x@ == y@,
        (Token::Symbol(x), Token::Symbol(y)) => x == y,
        (Token::End, Token::End) => true,
        _ => false,
    }
}

/// Whether two tokens are equal.
pub fn same_token(a: &Token, b: &Token) -> (r: bool)
    ensures
        r == token_equal(*a, *b),
{
    match (a, b) {
        (Token::Word(x), Token::Word(y)) => x.eq(y),
        (Token::Number(x), Token::Number(y)) => x.eq(y),
        (Token::String(x), Token::String(y)) => x.eq(y),
        (Token::Symbol(x), Token::Symbol(y)) => *x == *y,
        (Token::End, Token::End) => true,
        _ => false,
    }
}

/// Whether the token is the word `word`.
pub fn is_word(token: &Token, word: &str) -> (r: bool)
    ensures
        r == (token is Word && token->Word_0@ == word@),
{
    match token {
        Token::Word(value) => crate::text::str_eq(value.as_str(), word),
        _ => false,
    }
}

/// Whether the token is the symbol `c`.
pub fn is_symbol(token: &Token, c: char) -> (r: bool)
    ensures
        r == (*token == Token::Symbol(c)),
{
    match token {
        Token::Symbol(value) => *value == c,
        _ => false,
    }
}

/// Whether the token is `End`.
pub fn is_end(token: &Token) -> (r: bool)
    ensures
        r == (*token is End),
{
    match token {
        Token::End => true,
        _ => false,
    }
}

/// The escaped form of a character inside a debug-printed literal quoted
/// with `quote`.
pub open spec fn escaped_char(c: char, quote: char) -> Seq<char> {
    if c == '\n' {
        seq!['\\', 'n']
    } else if c == '\r' {
        seq!['\\', 'r']
    } else if c == '\t' {
        seq!['\\', 't']
    } else if c == '\0' {
        seq!['\\', '0']
    } else if c == '\\' {
        seq!['\\', '\\']
    } else if c == quote {
        seq!['\\', c]
    } else {
        seq![c]
    }
}

/// The characters of `s`, each escaped for a literal quoted with `quote`.
pub open spec fn escaped_text(s: Seq<char>, quote: char) -> Seq<char>
    decreases s.len(),
{
    if s.len() == 0 {
        seq![]
    } else {
        escaped_text(s.drop_last(), quote) + escaped_char(s.last(), quote)
    }
}

/// The escaped form of a character inside a debug-printed literal.
fn push_escaped(out: &mut String, c: char, quote: char)
    ensures
        final(out)@ == old(out)@ + escaped_char(c, quote),
{
    proof {
        reveal_strlit("\\n");
        reveal_strlit("\\r");
        reveal_strlit("\\t");
        reveal_strlit("\\0");
        reveal_strlit("\\\\");
    }
    if c == '\n' {
        out.append("\\n");
    } else if c == '\r' {
        out.append("\\r");
    } else if c == '\t' {
        out.append("\\t");
    } else if c == '\0' {
        out.append("\\0");
    } else if c == '\\' {
        out.append("\\\\");
    } else if c == quote {
        push_char(out, '\\');
        push_char(out, c);
    } else {
        push_char(out, c);
    }
    assert(final(out)@ =~= old(out)@ + escaped_char(c, quote));
}

fn push_quoted(out: &mut String, value: &str)
    ensures
        final(out)@ == old(out)@ + seq!['"'] + escaped_text(value@, '"') + seq!['"'],
{
    let chars = crate::text::chars_of(value);
    push_char(out, '"');
    let ghost start = out@;
    let mut i: usize = 0;
    while i < chars.len()
        invariant
            chars@ == value@,
            i <= chars.len(),
            out@ == start + escaped_text(value@.subrange(0, i as int), '"'),
        decreases chars.len() - i,
    {
        push_escaped(out, chars[i], '"');
        proof {
            let next = value@.subrange(0, i + 1);
            assert(next.drop_last() =~= value@.subrange(0, i as int));
            assert(out@ =~= start + escaped_text(next, '"'));
        }
        i = i + 1;
    }
    assert(value@.subrange(0, chars.len() as int) =~= value@);
    push_char(out, '"');
    assert(out@ =~= old(out)@ + seq!['"'] + escaped_text(value@, '"') + seq!['"']);
}

/// How `{:?}` prints a token.
pub open spec fn token_text(token: Token) -> Seq<char> {
    match token {
        Token::Word(v) => "Word("@ + seq!['"'] + escaped_text(v@, '"') + seq!['"'] + ")"@,
        Token::Number(v) => "Number("@ + seq!['"'] + escaped_text(v@, '"') + seq!['"'] + ")"@,
        Token::String(v) => "String("@ + seq!['"'] + escaped_text(v@, '"') + seq!['"'] + ")"@,
        Token::Symbol(c) => "Symbol('"@ + escaped_char(c, '\'') + "')"@,
        Token::End => "End"@,
    }
}

/// The token as `{:?}` prints it, for example `Symbol(';')` or `Word("r")`.
pub fn token_debug(token: &Token) -> (r: String)
    ensures
        r@ == token_text(*token),
{
    let mut out = String::new();
    match token {
        Token::Word(value) => {
            out.append("Word(");
            push_quoted(&mut out, value.as_str());
            out.append(")");
        },
        Token::Number(value) => {
            out.append("Number(");
            push_quoted(&mut out, value.as_str());
            out.append(")");
        },
        Token::String(value) => {
            out.append("String(");
            push_quoted(&mut out, value.as_str());
            out.append(")");
        },
        Token::Symbol(c) => {
            out.append("Symbol('");
            push_escaped(&mut out, *c, '\'');
            out.append("')");
        },
        Token::End => {
            out.append("End");
        },
    }
    out
}

/// The character as `{:?}` prints it, for example `'@'`.
pub fn char_debug(c: char) -> (r: String)
    ensures
        r@ == seq!['\''] + escaped_char(c, '\'') + seq!['\''],
{
    let mut out = String::new();
    push_char(&mut out, '\'');
    push_escaped(&mut out, c, '\'');
    push_char(&mut out, '\'');
    assert(out@ =~= seq!['\''] + escaped_char(c, '\'') + seq!['\'']);
    out
}

} // verus!
