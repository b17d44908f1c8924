//! The recursive-descent parser: tokens to functions and classes whose
//! variables are resolved to storage slots.

#![verifier::loop_isolation(false)]

use super::generics::expand_generics;
use super::lexer::{lex, lexed};
use super::{
    is_end, is_symbol, is_word, same_token, token_debug, token_equal, well_formed_tokens, Call,
    ClassDefinition, ClassField, ClassMethod, Comparison, Expr, Function, LogicalOperator,
    Operator, Position, PositionedToken, Program, Statement, Token,
};
use crate::text::{concat2, concat3, owned, str_eq};
use crate::types::{named_type, parse_i128, Type};
use vstd::prelude::*;

verus! {

#[derive(Clone, Copy)]
struct Binding {
    slot: usize,
    initialized: bool,
    changeable: bool,
    alias: bool,
}

#[derive(Clone)]
enum SymbolAlias {
    Function(String),
    Enum(String),
    Class(String),
}

struct EnumDefinition {
    ty: Type,
    variants: Vec<(String, u32)>,
}

#[derive(Clone)]
struct TraitMethod {
    name: String,
    parameters: Vec<Type>,
    result: Type,
}

struct TraitDefinition {
    methods: Vec<TraitMethod>,
}

/// The parser's state: the token stream and cursor, the variables of the
/// function being parsed, and the enums, classes, traits and type aliases
/// declared so far.
struct Parser {
    tokens: Vec<PositionedToken>,
    cursor: usize,
    bindings: Vec<(String, Binding)>,
    removed_variables: Vec<String>,
    result_name: Option<String>,
    types: Vec<Option<Type>>,
    declarations: Vec<(String, Position)>,
    enums: Vec<(String, EnumDefinition)>,
    classes: Vec<ClassDefinition>,
    traits: Vec<(String, TraitDefinition)>,
    type_aliases: Vec<(String, Type)>,
    loop_depth: usize,
    lifecycle_hook: Option<String>,
    symbol_aliases: Vec<(String, SymbolAlias)>,
}

/// Whether `alias(` occurs at or after `index` before the block that is
/// open there (at `depth` nested braces below it) closes.
pub open spec fn called_ahead(
    tokens: Seq<PositionedToken>,
    index: int,
    depth: int,
    alias: Seq<char>,
) -> bool
    decreases tokens.len() - index,
{
    if index < 0 || index + 1 >= tokens.len() {
        false
    } else if tokens[index].0 == Token::Symbol('}') && depth == 0 {
        false
    } else if tokens[index].0 is Word && tokens[index].0->Word_0@ == alias && tokens[index
        + 1].0 == Token::Symbol('(') {
        true
    } else {
        let next_depth = if tokens[index].0 == Token::Symbol('{') {
            depth + 1
        } else if tokens[index].0 == Token::Symbol('}') {
            depth - 1
        } else {
            depth
        };
        called_ahead(tokens, index + 1, next_depth, alias)
    }
}

/// Whether some entry is named `name`.
pub open spec fn has_name<T>(entries: Seq<(String, T)>, name: Seq<char>) -> bool {
    exists|i: int| 0 <= i < entries.len() && (#[trigger] entries[i]).0@ == name
}

/// Whether entry `i` is the first one named `name`.
pub open spec fn first_name_at<T>(entries: Seq<(String, T)>, name: Seq<char>, i: int) -> bool {
    &&& 0 <= i < entries.len()
    &&& entries[i].0@ == name
    &&& forall|j: int| 0 <= j < i ==> (#[trigger] entries[j]).0@ != name
}

/// The index of the first entry named `name`.
fn find_named<T>(entries: &Vec<(String, T)>, name: &str) -> (r: Option<usize>)
    ensures
        r matches Some(i) ==> i < entries@.len() && entries@[i as int].0@ == name@,
        r matches Some(i) ==> first_name_at(entries@, name@, i as int),
        r is None <==> !has_name(entries@, name@),
        r is None ==> forall|i: int| 0 <= i < entries@.len() ==> entries@[i].0@ != name@,
{
    let mut i: usize = 0;
    while i < entries.len()
        invariant
            i <= entries.len(),
            forall|j: int| 0 <= j < i ==> entries@[j].0@ != name@,
        decreases entries.len() - i,
    {
        if str_eq(entries[i].0.as_str(), name) {
            return Some(i);
        }
        i = i + 1;
    }
    None
}

/// Whether `names` holds `name`.
fn contains_name(names: &Vec<String>, name: &str) -> (r: bool)
    ensures
        r == exists|i: int| 0 <= i < names@.len() && names@[i]@ == name@,
{
    let mut i: usize = 0;
    while i < names.len()
        invariant
            i <= names.len(),
            forall|j: int| 0 <= j < i ==> names@[j]@ != name@,
        decreases names.len() - i,
    {
        if str_eq(names[i].as_str(), name) {
            assert(names@[i as int]@ == name@);
            return true;
        }
        i = i + 1;
    }
    false
}

/// Removes every occurrence of `name` from `names`.
fn remove_name(names: &mut Vec<String>, name: &str)
    ensures
        forall|i: int| 0 <= i < final(names)@.len() ==> final(names)@[i]@ != name@,
{
    let mut kept: Vec<String> = Vec::new();
    let mut i: usize = 0;
    while i < names.len()
        invariant
            i <= names.len(),
            forall|j: int| 0 <= j < kept@.len() ==> kept@[j]@ != name@,
        decreases names.len() - i,
    {
        if !str_eq(names[i].as_str(), name) {
            kept.push(names[i].clone());
        }
        i = i + 1;
    }
    *names = kept;
}

/// The larger of two numbers.
pub open spec fn larger(a: nat, b: nat) -> nat {
    if a >= b { a } else { b }
}

/// One more than the largest variable slot that an expression refers to, or
/// zero when it refers to none.
pub open spec fn expr_extent(e: Expr) -> nat
    decreases e,
{
    match e {
        Expr::Variable(slot) => (slot + 1) as nat,
        Expr::Construct(_, fields) => fields_extent(fields@),
        Expr::List(items) => exprs_extent(items@),
        Expr::Index(list, index, _) => larger(expr_extent(*list), expr_extent(*index)),
        Expr::Annotated(inner, _) => expr_extent(*inner),
        Expr::Cast(inner, _, _) => expr_extent(*inner),
        Expr::Field(object, _, _) => expr_extent(*object),
        Expr::MethodCall(object, _, arguments, _) => larger(
            expr_extent(*object),
            exprs_extent(arguments@),
        ),
        Expr::Negate(inner) => expr_extent(*inner),
        Expr::Positive(inner) => expr_extent(*inner),
        Expr::Not(inner) => expr_extent(*inner),
        Expr::Binary(_, a, b) => larger(expr_extent(*a), expr_extent(*b)),
        Expr::Logical(_, a, b) => larger(expr_extent(*a), expr_extent(*b)),
        Expr::Compare(_, a, b) => larger(expr_extent(*a), expr_extent(*b)),
        Expr::Call(call) => call_extent(call),
        _ => 0,
    }
}

/// The extent of a call's arguments.
pub open spec fn call_extent(call: Call) -> nat
    decreases call,
{
    exprs_extent(call.arguments@)
}

/// The largest extent of a sequence of expressions.
pub open spec fn exprs_extent(expressions: Seq<Expr>) -> nat
    decreases expressions,
{
    if expressions.len() == 0 {
        0
    } else {
        larger(
            exprs_extent(expressions.subrange(0, expressions.len() - 1)),
            expr_extent(expressions[expressions.len() - 1]),
        )
    }
}

/// The largest extent of the values of named fields.
pub open spec fn fields_extent(fields: Seq<(String, Expr)>) -> nat
    decreases fields,
{
    if fields.len() == 0 {
        0
    } else {
        larger(
            fields_extent(fields.subrange(0, fields.len() - 1)),
            expr_extent(fields[fields.len() - 1].1),
        )
    }
}

/// One more than the largest variable slot that a statement refers to, in
/// itself or in the statements it holds, or zero when it refers to none.
pub open spec fn statement_extent(statement: Statement) -> nat
    decreases statement,
{
    match statement {
        Statement::Assign(slot, value) => larger((slot + 1) as nat, expr_extent(value)),
        Statement::Disconnect(destination, source) => larger(
            (destination + 1) as nat,
            (source + 1) as nat,
        ),
        Statement::Remove(slot) => (slot + 1) as nat,
        Statement::Clamp(slot, low, high) => larger(
            (slot + 1) as nat,
            larger(expr_extent(low), expr_extent(high)),
        ),
        Statement::Print(value, _) => expr_extent(value),
        Statement::Call(call) => call_extent(call),
        Statement::SetField(object, _, value) => larger(expr_extent(object), expr_extent(value)),
        Statement::SetIndex(list, index, value) => larger(
            expr_extent(list),
            larger(expr_extent(index), expr_extent(value)),
        ),
        Statement::MethodCall(call) => expr_extent(call),
        Statement::Message(message, _, _) => expr_extent(message),
        Statement::If(condition, yes, no) => larger(
            expr_extent(condition),
            larger(statements_extent(yes@), statements_extent(no@)),
        ),
        Statement::While(condition, body) => larger(
            expr_extent(condition),
            statements_extent(body@),
        ),
        Statement::Until(condition, body) => larger(
            expr_extent(condition),
            statements_extent(body@),
        ),
        Statement::Loop(body) => statements_extent(body@),
        Statement::For(slot, start, end, body) => larger(
            (slot + 1) as nat,
            larger(larger(expr_extent(start), expr_extent(end)), statements_extent(body@)),
        ),
        Statement::Match(value, arms, fallback) => larger(
            expr_extent(value),
            larger(
                arms_extent(arms@),
                match fallback {
                    Some(body) => statements_extent(body@),
                    None => 0,
                },
            ),
        ),
        _ => 0,
    }
}

/// The largest extent of a sequence of statements.
pub open spec fn statements_extent(statements: Seq<Statement>) -> nat
    decreases statements,
{
    if statements.len() == 0 {
        0
    } else {
        larger(
            statements_extent(statements.subrange(0, statements.len() - 1)),
            statement_extent(statements[statements.len() - 1]),
        )
    }
}

/// The largest extent of the patterns and bodies of match arms.
pub open spec fn arms_extent(arms: Seq<(Expr, Vec<Statement>)>) -> nat
    decreases arms,
{
    if arms.len() == 0 {
        0
    } else {
        larger(
            arms_extent(arms.subrange(0, arms.len() - 1)),
            larger(expr_extent(arms[arms.len() - 1].0), statements_extent(arms[arms.len() - 1].1@)),
        )
    }
}

/// Whether a parsed function declares every variable slot it uses: its
/// statements, parameters and named result refer only to slots that it has
/// a (possibly unknown) type for.
pub open spec fn slots_declared(function: Function) -> bool {
    &&& statements_extent(function.statements@) <= function.types@.len()
    &&& function.parameters <= function.types@.len()
    &&& function.result matches Some(slot) ==> slot < function.types@.len()
}

/// Whether every function of a sequence declares the slots it uses and has
/// one position for each of its statements.
pub open spec fn all_slots_declared(functions: Seq<Function>) -> bool {
    forall|i: int| 0 <= i < functions.len() ==> slots_declared(#[trigger] functions[i])
        && functions[i].positions@.len() == functions[i].statements@.len()
}

proof fn lemma_exprs_push(expressions: Seq<Expr>, e: Expr)
    ensures
        exprs_extent(expressions.push(e)) == larger(exprs_extent(expressions), expr_extent(e)),
{
    assert(expressions.push(e).subrange(0, expressions.len() as int) =~= expressions);
}

proof fn lemma_fields_push(fields: Seq<(String, Expr)>, field: (String, Expr))
    ensures
        fields_extent(fields.push(field)) == larger(fields_extent(fields), expr_extent(field.1)),
{
    assert(fields.push(field).subrange(0, fields.len() as int) =~= fields);
}

proof fn lemma_statements_push(statements: Seq<Statement>, statement: Statement)
    ensures
        statements_extent(statements.push(statement)) == larger(
            statements_extent(statements),
            statement_extent(statement),
        ),
{
    assert(statements.push(statement).subrange(0, statements.len() as int) =~= statements);
}

proof fn lemma_arms_push(arms: Seq<(Expr, Vec<Statement>)>, arm: (Expr, Vec<Statement>))
    ensures
        arms_extent(arms.push(arm)) == larger(
            arms_extent(arms),
            larger(expr_extent(arm.0), statements_extent(arm.1@)),
        ),
{
    assert(arms.push(arm).subrange(0, arms.len() as int) =~= arms);
}

/// Words that cannot name a variable, function or type.
pub open spec fn reserved_word(name: Seq<char>) -> bool {
    name == "fun"@ || name == "var"@ || name == "variable"@ || name == "print"@
        || name == "return"@ || name == "static"@ || name == "stc"@ || name == "ch"@
        || name == "changeable"@ || name == "true"@ || name == "false"@ || name == "offset"@
        || name == "oofset"@ || name == "List"@ || name == "enum"@ || name == "class"@
        || name == "use"@ || name == "pack"@ || name == "pub"@ || name == "if"@
        || name == "then"@ || name == "else"@ || name == "for"@ || name == "in"@
        || name == "while"@ || name == "until"@ || name == "loop"@ || name == "break"@
        || name == "continue"@ || name == "match"@ || name == "not"@ || name == "or"@
        || name == "and"@ || name == "panic"@ || name == "warn"@ || name == "define"@
        || name == "trait"@ || name == "implements"@
}

fn is_reserved(name: &str) -> (r: bool)
    ensures
        r == reserved_word(name@),
{
    str_eq(name, "fun") || str_eq(name, "var") || str_eq(name, "variable")
        || str_eq(name, "print") || str_eq(name, "return") || str_eq(name, "static")
        || str_eq(name, "stc") || str_eq(name, "ch") || str_eq(name, "changeable")
        || str_eq(name, "true") || str_eq(name, "false") || str_eq(name, "offset")
        || str_eq(name, "oofset") || str_eq(name, "List") || str_eq(name, "enum")
        || str_eq(name, "class") || str_eq(name, "use") || str_eq(name, "pack")
        || str_eq(name, "pub") || str_eq(name, "if") || str_eq(name, "then")
        || str_eq(name, "else") || str_eq(name, "for") || str_eq(name, "in")
        || str_eq(name, "while") || str_eq(name, "until") || str_eq(name, "loop")
        || str_eq(name, "break") || str_eq(name, "continue") || str_eq(name, "match")
        || str_eq(name, "not") || str_eq(name, "or") || str_eq(name, "and")
        || str_eq(name, "panic") || str_eq(name, "warn") || str_eq(name, "define")
        || str_eq(name, "trait") || str_eq(name, "implements")
}

/// A word that can name a variable, function or type: not reserved and not a
/// built-in type.
pub open spec fn usable_name(name: Seq<char>) -> bool {
    !reserved_word(name) && named_type(name) is None
}

/// `main` is a name that a function may have.
proof fn lemma_main_usable()
    ensures
        usable_name("main"@),
{
    reveal_strlit("main");
    reveal_strlit("List");
    reveal_strlit("None");
    reveal_strlit("and");
    reveal_strlit("bool");
    reveal_strlit("break");
    reveal_strlit("ch");
    reveal_strlit("changeable");
    reveal_strlit("class");
    reveal_strlit("continue");
    reveal_strlit("define");
    reveal_strlit("else");
    reveal_strlit("enum");
    reveal_strlit("f128");
    reveal_strlit("f32");
    reveal_strlit("f64");
    reveal_strlit("false");
    reveal_strlit("float");
    reveal_strlit("for");
    reveal_strlit("fun");
    reveal_strlit("i16");
    reveal_strlit("i32");
    reveal_strlit("i64");
    reveal_strlit("i8");
    reveal_strlit("if");
    reveal_strlit("implements");
    reveal_strlit("in");
    reveal_strlit("int");
    reveal_strlit("loop");
    reveal_strlit("match");
    reveal_strlit("not");
    reveal_strlit("offset");
    reveal_strlit("oofset");
    reveal_strlit("or");
    reveal_strlit("pack");
    reveal_strlit("panic");
    reveal_strlit("print");
    reveal_strlit("pub");
    reveal_strlit("return");
    reveal_strlit("static");
    reveal_strlit("stc");
    reveal_strlit("string");
    reveal_strlit("then");
    reveal_strlit("trait");
    reveal_strlit("true");
    reveal_strlit("u");
    reveal_strlit("u16");
    reveal_strlit("u32");
    reveal_strlit("u4");
    reveal_strlit("u64");
    reveal_strlit("u8");
    reveal_strlit("until");
    reveal_strlit("use");
    reveal_strlit("var");
    reveal_strlit("variable");
    reveal_strlit("warn");
    reveal_strlit("while");
    assert("main"@[0] != "List"@[0]);
    assert("main"@[0] != "None"@[0]);
    assert("main"@.len() != "and"@.len());
    assert("main"@[0] != "bool"@[0]);
    assert("main"@.len() != "break"@.len());
    assert("main"@.len() != "ch"@.len());
    assert("main"@.len() != "changeable"@.len());
    assert("main"@.len() != "class"@.len());
    assert("main"@.len() != "continue"@.len());
    assert("main"@.len() != "define"@.len());
    assert("main"@[0] != "else"@[0]);
    assert("main"@[0] != "enum"@[0]);
    assert("main"@[0] != "f128"@[0]);
    assert("main"@.len() != "f32"@.len());
    assert("main"@.len() != "f64"@.len());
    assert("main"@.len() != "false"@.len());
    assert("main"@.len() != "float"@.len());
    assert("main"@.len() != "for"@.len());
    assert("main"@.len() != "fun"@.len());
    assert("main"@.len() != "i16"@.len());
    assert("main"@.len() != "i32"@.len());
    assert("main"@.len() != "i64"@.len());
    assert("main"@.len() != "i8"@.len());
    assert("main"@.len() != "if"@.len());
    assert("main"@.len() != "implements"@.len());
    assert("main"@.len() != "in"@.len());
    assert("main"@.len() != "int"@.len());
    assert("main"@[0] != "loop"@[0]);
    assert("main"@.len() != "match"@.len());
    assert("main"@.len() != "not"@.len());
    assert("main"@.len() != "offset"@.len());
    assert("main"@.len() != "oofset"@.len());
    assert("main"@.len() != "or"@.len());
    assert("main"@[0] != "pack"@[0]);
    assert("main"@.len() != "panic"@.len());
    assert("main"@.len() != "print"@.len());
    assert("main"@.len() != "pub"@.len());
    assert("main"@.len() != "return"@.len());
    assert("main"@.len() != "static"@.len());
    assert("main"@.len() != "stc"@.len());
    assert("main"@.len() != "string"@.len());
    assert("main"@[0] != "then"@[0]);
    assert("main"@.len() != "trait"@.len());
    assert("main"@[0] != "true"@[0]);
    assert("main"@.len() != "u"@.len());
    assert("main"@.len() != "u16"@.len());
    assert("main"@.len() != "u32"@.len());
    assert("main"@.len() != "u4"@.len());
    assert("main"@.len() != "u64"@.len());
    assert("main"@.len() != "u8"@.len());
    assert("main"@.len() != "until"@.len());
    assert("main"@.len() != "use"@.len());
    assert("main"@.len() != "var"@.len());
    assert("main"@.len() != "variable"@.len());
    assert("main"@[0] != "warn"@[0]);
    assert("main"@.len() != "while"@.len());
    assert(!reserved_word("main"@));
    assert(named_type("main"@) is None);
}

/// The integer that the tokens from `i` on read as, where they are an
/// integer literal (`digits` or `- digits`) that ends the statement (`;`
/// follows).
pub open spec fn integer_end_at(tokens: Seq<PositionedToken>, i: int) -> Option<i128> {
    if 0 <= i && i + 1 < tokens.len() && tokens[i].0 is Number && tokens[i + 1].0 == Token::Symbol(';')
        && !plain_decimal(tokens[i].0->Number_0@) {
        crate::types::decimal_i128(tokens[i].0->Number_0@)
    } else if 0 <= i && i + 2 < tokens.len() && tokens[i].0 == Token::Symbol('-') && tokens[i + 1].0 is Number
        && tokens[i + 2].0 == Token::Symbol(';') && !plain_decimal(tokens[i + 1].0->Number_0@) {
        crate::types::decimal_i128("-"@ + tokens[i + 1].0->Number_0@)
    } else {
        None
    }
}

/// The comparison operator that the tokens at `i` spell, with the number of
/// tokens it takes: `==`, `!=`, `<=` and `>=` take two, `<` and `>` one.
pub open spec fn comparison_at(tokens: Seq<PositionedToken>, i: int) -> Option<(Comparison, int)> {
    if 0 <= i && i < tokens.len() && tokens[i].0 is Symbol {
        let c = tokens[i].0->Symbol_0;
        let equals_next = i + 1 < tokens.len() && tokens[i + 1].0 == Token::Symbol('=');
        if c == '=' && equals_next {
            Some((Comparison::Equal, 2))
        } else if c == '!' && equals_next {
            Some((Comparison::NotEqual, 2))
        } else if c == '<' && equals_next {
            Some((Comparison::LessEqual, 2))
        } else if c == '>' && equals_next {
            Some((Comparison::GreaterEqual, 2))
        } else if c == '<' {
            Some((Comparison::Less, 1))
        } else if c == '>' {
            Some((Comparison::Greater, 1))
        } else {
            None
        }
    } else {
        None
    }
}

/// What `expression_tail` gives after `left` where a comparison follows
/// whose right side is an integer literal that ends the statement: the
/// comparison of `left` with that integer, when comparisons bind at the
/// current level (`min` at most 2).
pub open spec fn compared_tail(
    tokens: Seq<PositionedToken>,
    i: int,
    left: Expr,
    min: u8,
    r: Result<Expr, String>,
) -> bool {
    comparison_at(tokens, i) matches Some((c, k)) ==> (min <= 2 ==> (integer_end_at(tokens, i + k) matches Some(v)
        ==> r == Ok::<Expr, String>(Expr::Compare(c, Box::new(left), Box::new(Expr::Integer(v))))))
}

/// The arithmetic operator that the token at `i` spells, with how tightly
/// it binds: `*`, `/` and `%` (4) before `+` and `-` (3).
pub open spec fn arithmetic_at(tokens: Seq<PositionedToken>, i: int) -> Option<(Operator, u8)> {
    if 0 <= i && i < tokens.len() && tokens[i].0 is Symbol {
        match crate::syntax::operator_of(tokens[i].0->Symbol_0) {
            Some(op) => Some(
                (
                    op,
                    match op {
                        Operator::Multiply | Operator::Divide | Operator::Remainder => 4u8,
                        _ => 3u8,
                    },
                ),
            ),
            None => None,
        }
    } else {
        None
    }
}

/// What `expression_tail` gives after `left` where an arithmetic operator
/// follows whose right side is an integer literal that ends the statement:
/// that operation on `left` and the integer, when the operator binds at
/// the current level.
pub open spec fn arithmetic_tail(
    tokens: Seq<PositionedToken>,
    i: int,
    left: Expr,
    min: u8,
    r: Result<Expr, String>,
) -> bool {
    arithmetic_at(tokens, i) matches Some((op, precedence)) ==> (min <= precedence ==> (integer_end_at(tokens, i + 1)
        matches Some(v) ==> r == Ok::<Expr, String>(Expr::Binary(op, Box::new(left), Box::new(Expr::Integer(v))))))
}

/// An arithmetic operator that binds less tightly than the current level
/// is left for an enclosing level: the expression so far is given back as
/// it is.
pub open spec fn looser_left_alone(
    tokens: Seq<PositionedToken>,
    i: int,
    left: Expr,
    min: u8,
    r: Result<Expr, String>,
) -> bool {
    arithmetic_at(tokens, i) matches Some((_, precedence)) ==> (precedence < min ==> r == Ok::<Expr, String>(left))
}

/// `*`, `/` and `%` bind more tightly than `+` and `-`: where the right
/// operand of a `*`, `/` or `%` is being read (level 4), a following `+` or
/// `-` ends it, while a following `*`, `/` or `%` still joins it, left side
/// first.
pub proof fn lemma_products_bind_tighter_than_sums(
    tokens: Seq<PositionedToken>,
    i: int,
    left: Expr,
    r: Result<Expr, String>,
    digits: Seq<char>,
    n: i128,
)
    requires
        looser_left_alone(tokens, i, left, 4, r),
        arithmetic_tail(tokens, i, left, 4, r),
        0 <= i < tokens.len(),
        !plain_decimal(digits),
        crate::types::decimal_i128(digits) == Some(n),
    ensures
        tokens[i].0 == Token::Symbol('+') || tokens[i].0 == Token::Symbol('-') ==> r == Ok::<Expr, String>(left),
        tokens[i].0 == Token::Symbol('*') && integer_then_end(tokens, i + 1, digits) ==> r == Ok::<Expr, String>(
            Expr::Binary(Operator::Multiply, Box::new(left), Box::new(Expr::Integer(n))),
        ),
        tokens[i].0 == Token::Symbol('/') && integer_then_end(tokens, i + 1, digits) ==> r == Ok::<Expr, String>(
            Expr::Binary(Operator::Divide, Box::new(left), Box::new(Expr::Integer(n))),
        ),
        tokens[i].0 == Token::Symbol('%') && integer_then_end(tokens, i + 1, digits) ==> r == Ok::<Expr, String>(
            Expr::Binary(Operator::Remainder, Box::new(left), Box::new(Expr::Integer(n))),
        ),
{
}

/// Each arithmetic operator reads as the operation its symbol spells, with
/// the left side first: after `left`, `+`, `-`, `*`, `/` and `%` followed by
/// an integer `n` that ends the statement give `left + n`, `left - n`,
/// `left * n`, `left / n` and `left % n`.
pub proof fn lemma_arithmetic_reads_as_spelled(
    tokens: Seq<PositionedToken>,
    i: int,
    left: Expr,
    r: Result<Expr, String>,
    digits: Seq<char>,
    n: i128,
)
    requires
        arithmetic_tail(tokens, i, left, 0, r),
        0 <= i < tokens.len(),
        integer_then_end(tokens, i + 1, digits),
        !plain_decimal(digits),
        crate::types::decimal_i128(digits) == Some(n),
    ensures
        tokens[i].0 == Token::Symbol('+') ==> r == Ok::<Expr, String>(
            Expr::Binary(Operator::Add, Box::new(left), Box::new(Expr::Integer(n))),
        ),
        tokens[i].0 == Token::Symbol('-') ==> r == Ok::<Expr, String>(
            Expr::Binary(Operator::Subtract, Box::new(left), Box::new(Expr::Integer(n))),
        ),
        tokens[i].0 == Token::Symbol('*') ==> r == Ok::<Expr, String>(
            Expr::Binary(Operator::Multiply, Box::new(left), Box::new(Expr::Integer(n))),
        ),
        tokens[i].0 == Token::Symbol('/') ==> r == Ok::<Expr, String>(
            Expr::Binary(Operator::Divide, Box::new(left), Box::new(Expr::Integer(n))),
        ),
        tokens[i].0 == Token::Symbol('%') ==> r == Ok::<Expr, String>(
            Expr::Binary(Operator::Remainder, Box::new(left), Box::new(Expr::Integer(n))),
        ),
{
}

/// Whether the tokens at `j` are the integer literal `digits` and then `;`.
pub open spec fn integer_then_end(tokens: Seq<PositionedToken>, j: int, digits: Seq<char>) -> bool {
    &&& 0 <= j && j + 1 < tokens.len()
    &&& tokens[j].0 is Number && tokens[j].0->Number_0@ == digits
    &&& tokens[j + 1].0 == Token::Symbol(';')
}

/// Each comparison reads as the operator that its symbols spell, with the
/// left side first: after `left`, the symbols `<` `=` give `left <= n`, `<`
/// gives `left < n`, `>` `=` gives `left >= n`, `>` gives `left > n`, `=` `=`
/// gives `left == n` and `!` `=` gives `left != n`, for any left side and any
/// integer `n` that ends the statement.
pub proof fn lemma_comparisons_read_as_spelled(
    tokens: Seq<PositionedToken>,
    i: int,
    left: Expr,
    min: u8,
    r: Result<Expr, String>,
    digits: Seq<char>,
    n: i128,
)
    requires
        compared_tail(tokens, i, left, min, r),
        min <= 2,
        0 <= i,
        !plain_decimal(digits),
        crate::types::decimal_i128(digits) == Some(n),
    ensures
        i + 1 < tokens.len() && tokens[i].0 == Token::Symbol('<') && tokens[i + 1].0 == Token::Symbol('=')
            && integer_then_end(tokens, i + 2, digits) ==> r == Ok::<Expr, String>(
            Expr::Compare(Comparison::LessEqual, Box::new(left), Box::new(Expr::Integer(n))),
        ),
        i < tokens.len() && tokens[i].0 == Token::Symbol('<') && integer_then_end(tokens, i + 1, digits) ==> r
            == Ok::<Expr, String>(Expr::Compare(Comparison::Less, Box::new(left), Box::new(Expr::Integer(n)))),
        i + 1 < tokens.len() && tokens[i].0 == Token::Symbol('>') && tokens[i + 1].0 == Token::Symbol('=')
            && integer_then_end(tokens, i + 2, digits) ==> r == Ok::<Expr, String>(
            Expr::Compare(Comparison::GreaterEqual, Box::new(left), Box::new(Expr::Integer(n))),
        ),
        i < tokens.len() && tokens[i].0 == Token::Symbol('>') && integer_then_end(tokens, i + 1, digits) ==> r
            == Ok::<Expr, String>(Expr::Compare(Comparison::Greater, Box::new(left), Box::new(Expr::Integer(n)))),
        i + 1 < tokens.len() && tokens[i].0 == Token::Symbol('=') && tokens[i + 1].0 == Token::Symbol('=')
            && integer_then_end(tokens, i + 2, digits) ==> r == Ok::<Expr, String>(
            Expr::Compare(Comparison::Equal, Box::new(left), Box::new(Expr::Integer(n))),
        ),
        i + 1 < tokens.len() && tokens[i].0 == Token::Symbol('!') && tokens[i + 1].0 == Token::Symbol('=')
            && integer_then_end(tokens, i + 2, digits) ==> r == Ok::<Expr, String>(
            Expr::Compare(Comparison::NotEqual, Box::new(left), Box::new(Expr::Integer(n))),
        ),
{
}

/// Whether number text is a decimal: it holds `.`, `e` or `E`.
pub open spec fn plain_decimal(value: Seq<char>) -> bool {
    exists|i: int| 0 <= i < value.len() && (value[i] == '.' || value[i] == 'e' || value[i] == 'E')
}

/// Whether a number token is a decimal (it holds `.`, `e` or `E`).
fn is_decimal(value: &str) -> (r: bool)
    ensures
        r == exists|i: int| 0 <= i < value@.len() && (value@[i] == '.' || value@[i] == 'e'
            || value@[i] == 'E'),
{
    let chars = crate::text::chars_of(value);
    let mut i: usize = 0;
    while i < chars.len()
        invariant
            chars@ == value@,
            i <= chars@.len(),
            forall|k: int| 0 <= k < i ==> !(value@[k] == '.' || value@[k] == 'e' || value@[k] == 'E'),
        decreases chars.len() - i,
    {
        if chars[i] == '.' || chars[i] == 'e' || chars[i] == 'E' {
            return true;
        }
        i = i + 1;
    }
    false
}

/// Whether the token is one of the words `fun`, `enum`, `class`, `define`
/// or `trait` that start a declaration.
pub(crate) fn is_declaration_word(token: &Token) -> (r: bool)
    ensures
        r == (token is Word && (token->Word_0@ == "fun"@ || token->Word_0@ == "enum"@
            || token->Word_0@ == "class"@ || token->Word_0@ == "define"@ || token->Word_0@
            == "trait"@)),
{
    is_word(token, "fun") || is_word(token, "enum") || is_word(token, "class")
        || is_word(token, "define") || is_word(token, "trait")
}

/// Whether the name is one of the lifecycle hooks of a class.
fn is_lifecycle_hook(name: &str) -> (r: bool)
    ensures
        r == (name@ == "__new__"@ || name@ == "__change__"@ || name@ == "__remove__"@),
{
    str_eq(name, "__new__") || str_eq(name, "__change__") || str_eq(name, "__remove__")
}

impl Parser {
    /// The token stream ends with its only `End`, the cursor is on a token,
    /// and the loop nesting is bounded by the tokens read.
    spec fn wf(&self) -> bool {
        &&& well_formed_tokens(self.tokens@)
        &&& self.cursor < self.tokens@.len()
        &&& self.loop_depth <= self.cursor
        &&& self.bindings_declared()
    }

    /// Every variable name is bound to a declared slot.
    spec fn bindings_declared(&self) -> bool {
        forall|i: int| 0 <= i < self.bindings@.len() ==> (#[trigger] self.bindings@[i]).1.slot
            < self.types@.len()
    }

    /// `next` is `self` after reading on: same tokens, the cursor not moved
    /// back, the same loop nesting, still well formed.
    spec fn moved_on(&self, next: &Parser) -> bool {
        &&& next.tokens@ == self.tokens@
        &&& self.cursor <= next.cursor
        &&& self.types@.len() <= next.types@.len()
        &&& next.loop_depth == self.loop_depth
        &&& next.wf()
        &&& next.enums == self.enums
        &&& next.classes == self.classes
        &&& next.traits == self.traits
        &&& next.type_aliases == self.type_aliases
    }

    /// `next` holds the same variables and declarations as `self`.
    spec fn same_state(&self, next: &Parser) -> bool {
        &&& next.bindings == self.bindings
        &&& next.types == self.types
        &&& next.enums == self.enums
        &&& next.classes == self.classes
        &&& next.traits == self.traits
        &&& next.type_aliases == self.type_aliases
        &&& next.symbol_aliases == self.symbol_aliases
        &&& next.removed_variables == self.removed_variables
        &&& next.result_name == self.result_name
    }

    /// `next` is `self` after reading on, where the loop nesting may have
    /// been reset.
    spec fn read_on(&self, next: &Parser) -> bool {
        &&& next.tokens@ == self.tokens@
        &&& self.cursor <= next.cursor
        &&& next.wf()
    }

    spec fn current(&self) -> Token {
        self.tokens@[self.cursor as int].0
    }

    spec fn remaining(&self) -> int {
        self.tokens@.len() - self.cursor
    }

    fn peek(&self) -> (r: &Token)
        requires
            self.wf(),
        ensures
            *r == self.current(),
    {
        &self.tokens[self.cursor].0
    }

    fn position(&self) -> (r: Position)
        requires
            self.wf(),
        ensures
            r == self.tokens@[self.cursor as int].1,
    {
        self.tokens[self.cursor].1
    }

    /// The token at `cursor + offset`, if there is one.
    fn token_at(&self, offset: usize) -> (r: Option<&Token>)
        requires
            self.wf(),
        ensures
            self.cursor + offset < self.tokens@.len() ==> r == Some(
                &self.tokens@[self.cursor + offset].0,
            ),
            self.cursor + offset >= self.tokens@.len() ==> r is None,
    {
        if offset < self.tokens.len() - self.cursor {
            Some(&self.tokens[self.cursor + offset].0)
        } else {
            None
        }
    }

    /// Whether the token at `cursor + offset` is the symbol `c`.
    fn symbol_at(&self, offset: usize, c: char) -> (r: bool)
        requires
            self.wf(),
        ensures
            r == (self.cursor + offset < self.tokens@.len() && self.tokens@[self.cursor + offset].0
                == Token::Symbol(c)),
    {
        match self.token_at(offset) {
            Some(token) => is_symbol(token, c),
            None => false,
        }
    }

    /// Whether the token at `cursor + offset` is the word `word`.
    fn word_at(&self, offset: usize, word: &str) -> (r: bool)
        requires
            self.wf(),
        ensures
            r == (self.cursor + offset < self.tokens@.len() && self.tokens@[self.cursor
                + offset].0 is Word && self.tokens@[self.cursor + offset].0->Word_0@ == word@),
    {
        match self.token_at(offset) {
            Some(token) => is_word(token, word),
            None => false,
        }
    }

    /// Reads the current token; the cursor stays on `End`.
    fn next(&mut self) -> (r: Token)
        requires
            old(self).wf(),
        ensures
            old(self).moved_on(final(self)),
            r == old(self).current(),
            final(self).cursor == if r is End { old(self).cursor as int } else { old(self).cursor + 1 },
            old(self).same_state(final(self)),
    {
        let token = super::clone_token(self.peek());
        if !is_end(&token) {
            let n = self.tokens.len();
            assert(self.tokens@.last() == self.tokens@[n - 1]);
            assert(self.cursor + 1 < n);
            self.cursor = self.cursor + 1;
        }
        token
    }

    /// Reads the symbol `c` if it is the current token.
    fn take_symbol(&mut self, c: char) -> (r: bool)
        requires
            old(self).wf(),
        ensures
            old(self).moved_on(final(self)),
            r == (old(self).current() == Token::Symbol(c)),
            final(self).cursor == if r { old(self).cursor + 1 } else { old(self).cursor as int },
            old(self).same_state(final(self)),
    {
        if is_symbol(self.peek(), c) {
            self.next();
            true
        } else {
            false
        }
    }

    /// Reads the word `word` if it is the current token.
    fn take_word(&mut self, word: &str) -> (r: bool)
        requires
            old(self).wf(),
        ensures
            old(self).moved_on(final(self)),
            r == (old(self).current() is Word && old(self).current()->Word_0@ == word@),
            final(self).cursor == if r { old(self).cursor + 1 } else { old(self).cursor as int },
            old(self).same_state(final(self)),
    {
        if is_word(self.peek(), word) {
            self.next();
            true
        } else {
            false
        }
    }

    /// Reads `expected`, or fails with `expected <token>, found <token>`.
    fn expect(&mut self, expected: Token) -> (r: Result<(), String>)
        requires
            old(self).wf(),
            !(expected is End),
        ensures
            old(self).moved_on(final(self)),
            r is Ok <==> token_equal(old(self).current(), expected),
            final(self).cursor == if r is Ok { old(self).cursor + 1 } else { old(self).cursor as int },
            old(self).same_state(final(self)),
    {
        if same_token(self.peek(), &expected) {
            self.next();
            Ok(())
        } else {
            let mut message = concat2("expected ", token_debug(&expected).as_str());
            message.append(", found ");
            message.append(token_debug(self.peek()).as_str());
            Err(self.position().error(message.as_str()))
        }
    }

    /// Reads the symbol `c`.
    fn symbol(&mut self, c: char) -> (r: Result<(), String>)
        requires
            old(self).wf(),
        ensures
            old(self).moved_on(final(self)),
            r is Ok <==> old(self).current() == Token::Symbol(c),
            final(self).cursor == if r is Ok { old(self).cursor + 1 } else { old(self).cursor as int },
            old(self).same_state(final(self)),
    {
        self.expect(Token::Symbol(c))
    }

    /// Reads the word `word`.
    fn word(&mut self, word: &str) -> (r: Result<(), String>)
        requires
            old(self).wf(),
        ensures
            old(self).moved_on(final(self)),
            r is Ok <==> (old(self).current() is Word && old(self).current()->Word_0@ == word@),
            final(self).cursor == if r is Ok { old(self).cursor + 1 } else { old(self).cursor as int },
            old(self).same_state(final(self)),
    {
        self.expect(Token::Word(owned(word)))
    }

    /// Reads a name: a word that is neither reserved nor a built-in type.
    fn name(&mut self) -> (r: Result<String, String>)
        requires
            old(self).wf(),
        ensures
            old(self).moved_on(final(self)),
            r is Ok <==> (old(self).current() is Word && usable_name(
                old(self).current()->Word_0@,
            )),
            r matches Ok(n) ==> old(self).current() == Token::Word(n),
            r is Ok ==> final(self).cursor == old(self).cursor + 1,
            old(self).same_state(final(self)),
    {
        let position = self.position();
        match self.next() {
            Token::Word(name) => {
                if !is_reserved(name.as_str()) && Type::parse(name.as_str()).is_none() {
                    Ok(name)
                } else {
                    Err(position.error("expected a name (reserved words cannot be used as names)"))
                }
            },
            _ => Err(position.error("expected a name (reserved words cannot be used as names)")),
        }
    }
}


/// The index of the class named `name`.
fn find_class(classes: &Vec<ClassDefinition>, name: &str) -> (r: Option<usize>)
    ensures
        r matches Some(i) ==> i < classes@.len() && classes@[i as int].name@ == name@,
        r matches Some(i) ==> first_class_at(classes@, name@, i as int),
        r is None ==> forall|i: int| 0 <= i < classes@.len() ==> classes@[i].name@ != name@,
{
    let mut i: usize = 0;
    while i < classes.len()
        invariant
            i <= classes.len(),
            forall|j: int| 0 <= j < i ==> classes@[j].name@ != name@,
        decreases classes.len() - i,
    {
        if str_eq(classes[i].name.as_str(), name) {
            return Some(i);
        }
        i = i + 1;
    }
    None
}

impl Parser {
    fn has_enum(&self, name: &str) -> (r: bool)
        ensures
            r == has_name(self.enums@, name@),
    {
        find_named(&self.enums, name).is_some()
    }

    fn has_class(&self, name: &str) -> (r: bool)
        ensures
            r == exists|i: int| 0 <= i < self.classes@.len() && (#[trigger] self.classes@[i]).name@
                == name@,
    {
        find_class(&self.classes, name).is_some()
    }

    fn has_trait(&self, name: &str) -> (r: bool)
        ensures
            r == has_name(self.traits@, name@),
    {
        find_named(&self.traits, name).is_some()
    }

    fn has_type_alias(&self, name: &str) -> (r: bool)
        ensures
            r == has_name(self.type_aliases@, name@),
    {
        find_named(&self.type_aliases, name).is_some()
    }

    fn has_binding(&self, name: &str) -> (r: bool)
        ensures
            r == has_name(self.bindings@, name@),
    {
        find_named(&self.bindings, name).is_some()
    }

    fn has_symbol_alias(&self, name: &str) -> (r: bool)
        ensures
            r == has_name(self.symbol_aliases@, name@),
    {
        find_named(&self.symbol_aliases, name).is_some()
    }

    fn was_removed(&self, name: &str) -> (r: bool)
        ensures
            r == exists|i: int| 0 <= i < self.removed_variables@.len() && self.removed_variables@[i]@
                == name@,
    {
        contains_name(&self.removed_variables, name)
    }

    /// Binds `binding` to `name`, replacing a binding of the same name.
    fn set_binding(&mut self, name: String, binding: Binding)
        ensures
            has_name(old(self).bindings@, name@) ==> exists|i: int|
                first_name_at(old(self).bindings@, name@, i) && final(self).bindings@ == old(
                    self,
                ).bindings@.update(i, (name, binding)),
            !has_name(old(self).bindings@, name@) ==> final(self).bindings@ == old(self).bindings@.push(
                (name, binding),
            ),
            old(self).bindings_declared() && binding.slot < old(self).types@.len()
                ==> final(self).bindings_declared(),
            final(self).tokens == old(self).tokens,
            final(self).cursor == old(self).cursor,
            final(self).loop_depth == old(self).loop_depth,
            final(self).types == old(self).types,
            final(self).enums == old(self).enums,
            final(self).classes == old(self).classes,
            final(self).traits == old(self).traits,
            final(self).type_aliases == old(self).type_aliases,
    {
        match find_named(&self.bindings, name.as_str()) {
            Some(i) => {
                self.bindings.set(i, (name, binding));
            },
            None => {
                self.bindings.push((name, binding));
            },
        }
    }

    /// Removes the binding of `name`.
    fn remove_binding(&mut self, name: &str)
        ensures
            has_name(old(self).bindings@, name@) ==> exists|i: int|
                first_name_at(old(self).bindings@, name@, i) && final(self).bindings@ == old(
                    self,
                ).bindings@.remove(i),
            !has_name(old(self).bindings@, name@) ==> final(self).bindings == old(self).bindings,
            old(self).bindings_declared() ==> final(self).bindings_declared(),
            final(self).tokens == old(self).tokens,
            final(self).cursor == old(self).cursor,
            final(self).loop_depth == old(self).loop_depth,
            final(self).types == old(self).types,
            final(self).enums == old(self).enums,
            final(self).classes == old(self).classes,
            final(self).traits == old(self).traits,
            final(self).type_aliases == old(self).type_aliases,
    {
        if let Some(i) = find_named(&self.bindings, name) {
            self.bindings.remove(i);
        }
    }

    /// Binds `alias` to `name`, replacing an alias of the same name.
    fn set_symbol_alias(&mut self, name: String, alias: SymbolAlias)
        ensures
            has_name(old(self).symbol_aliases@, name@) ==> exists|i: int|
                first_name_at(old(self).symbol_aliases@, name@, i) && final(self).symbol_aliases@
                    == old(self).symbol_aliases@.update(i, (name, alias)),
            !has_name(old(self).symbol_aliases@, name@) ==> final(self).symbol_aliases@ == old(
                self,
            ).symbol_aliases@.push((name, alias)),
            final(self).bindings == old(self).bindings,
            final(self).tokens == old(self).tokens,
            final(self).cursor == old(self).cursor,
            final(self).loop_depth == old(self).loop_depth,
            final(self).types == old(self).types,
            final(self).enums == old(self).enums,
            final(self).classes == old(self).classes,
            final(self).traits == old(self).traits,
            final(self).type_aliases == old(self).type_aliases,
    {
        match find_named(&self.symbol_aliases, name.as_str()) {
            Some(i) => {
                self.symbol_aliases.set(i, (name, alias));
            },
            None => {
                self.symbol_aliases.push((name, alias));
            },
        }
    }

    /// Declares a variable in a new slot with an optional declared type.
    fn bind(
        &mut self,
        name: String,
        initialized: bool,
        changeable: bool,
        ty: Option<Type>,
        position: Position,
    ) -> (r: Result<usize, String>)
        requires
            old(self).wf(),
        ensures
            old(self).moved_on(final(self)),
            final(self).cursor == old(self).cursor,
            r matches Ok(slot) ==> slot == old(self).types@.len() && final(self).types@
                == old(self).types@.push(ty) && final(self).bindings@.len() == old(
                self,
            ).bindings@.len() + 1,
            r is Err ==> final(self).types == old(self).types,
            r is Ok <==> !has_name(old(self).enums@, name@) && !has_name(old(self).type_aliases@, name@)
                && !has_name(old(self).bindings@, name@) && !has_name(old(self).symbol_aliases@, name@),
            r is Ok ==> final(self).bindings@ == old(self).bindings@.push(
                (name, Binding { slot: old(self).types@.len() as usize, initialized, changeable, alias: false }),
            ),
    {
        if self.has_enum(name.as_str()) {
            let message = concat3("variable '", name.as_str(), "' conflicts with an enum of the same name");
            return Err(position.error(message.as_str()));
        }
        if self.has_type_alias(name.as_str()) {
            let message = concat3(
                "variable '",
                name.as_str(),
                "' conflicts with a type alias of the same name",
            );
            return Err(position.error(message.as_str()));
        }
        if self.has_binding(name.as_str()) || self.has_symbol_alias(name.as_str()) {
            let message = concat3("variable '", name.as_str(), "' is already declared");
            return Err(position.error(message.as_str()));
        }
        remove_name(&mut self.removed_variables, name.as_str());
        let slot = self.types.len();
        self.declarations.push((name.clone(), position));
        self.types.push(ty);
        self.bindings.push((name, Binding { slot, initialized, changeable, alias: false }));
        Ok(slot)
    }

    /// The slot of the variable `name`; a read needs an initialized variable.
    fn variable(&self, name: &str, read: bool, position: Position) -> (r: Result<usize, String>)
        ensures
            self.bindings_declared() ==> (r matches Ok(slot) ==> slot < self.types@.len()),
            r is Ok ==> exists|i: int| 0 <= i < self.bindings@.len() && self.bindings@[i].0@
                == name@,
            r matches Ok(slot) ==> exists|i: int|
                first_name_at(self.bindings@, name@, i) && slot == self.bindings@[i].1.slot && (read
                    ==> self.bindings@[i].1.initialized),
            r is Err ==> !has_name(self.bindings@, name@) || exists|i: int|
                first_name_at(self.bindings@, name@, i) && read && !self.bindings@[i].1.initialized,
    {
        match find_named(&self.bindings, name) {
            None => {
                if self.was_removed(name) {
                    let message = concat3("variable '", name, "' was removed");
                    Err(position.error(message.as_str()))
                } else {
                    let message = concat3("variable '", name, "' is not declared");
                    Err(position.error(message.as_str()))
                }
            },
            Some(i) => {
                if read && !self.bindings[i].1.initialized {
                    let message = concat3("variable '", name, "' is not initialized");
                    Err(position.error(message.as_str()))
                } else {
                    Ok(self.bindings[i].1.slot)
                }
            },
        }
    }
}


/// Whether class `k` is the first one named `name`.
spec fn first_class_at(classes: Seq<ClassDefinition>, name: Seq<char>, k: int) -> bool {
    &&& 0 <= k < classes.len()
    &&& classes[k].name@ == name
    &&& forall|j: int| 0 <= j < k ==> (#[trigger] classes[j]).name@ != name
}

/// The type written from token `i` on, and the index after it: a built-in
/// type, `List[T]` (of an element numbered below 2^29), a type alias, an
/// enum or a class, looked up in that order by first declaration; `None`
/// where there is none.
spec fn type_at(
    tokens: Seq<PositionedToken>,
    aliases: Seq<(String, Type)>,
    enums: Seq<(String, EnumDefinition)>,
    classes: Seq<ClassDefinition>,
    i: int,
) -> Option<(Type, int)>
    decreases tokens.len() - i,
{
    if !(0 <= i < tokens.len() && tokens[i].0 is Word) {
        None
    } else {
        let name = tokens[i].0->Word_0@;
        if name == "List"@ {
            if i + 1 < tokens.len() && tokens[i + 1].0 == Token::Symbol('[') {
                match type_at(tokens, aliases, enums, classes, i + 2) {
                    Some((element, j)) => if 0 <= j < tokens.len() && tokens[j].0 == Token::Symbol(']')
                        && crate::types::spec_wrappable(element.spec_id()) {
                        Some((Type::List(element.spec_id()), j + 1))
                    } else {
                        None
                    },
                    None => None,
                }
            } else {
                None
            }
        } else if named_type(name) is Some {
            Some((named_type(name)->0, i + 1))
        } else if has_name(aliases, name) {
            let k = choose|k: int| first_name_at(aliases, name, k);
            Some((aliases[k].1, i + 1))
        } else if has_name(enums, name) {
            let k = choose|k: int| first_name_at(enums, name, k);
            Some((enums[k].1.ty, i + 1))
        } else if exists|k: int| first_class_at(classes, name, k) {
            let k = choose|k: int| first_class_at(classes, name, k);
            Some((Type::Class(classes[k].id), i + 1))
        } else {
            None
        }
    }
}

impl Parser {
    /// The type written from token `i` on with this parser's declarations
    /// (see `type_at`).
    spec fn type_ahead(&self, i: int) -> Option<(Type, int)> {
        type_at(self.tokens@, self.type_aliases@, self.enums@, self.classes@, i)
    }

    /// What `define Name = Type;` at the cursor declares: the name, its type
    /// and the index after the `;`; `None` where the name is not usable or
    /// already names a type alias, enum, class or trait, or the text is
    /// malformed.
    spec fn type_alias_ahead(&self) -> Option<(Seq<char>, Type, int)> {
        let tokens = self.tokens@;
        let c = self.cursor as int;
        if c + 2 < tokens.len() && tokens[c].0 is Word && tokens[c].0->Word_0@ == "define"@
            && tokens[c + 1].0 is Word && usable_name(tokens[c + 1].0->Word_0@) && !has_name(
            self.type_aliases@,
            tokens[c + 1].0->Word_0@,
        ) && !has_name(self.enums@, tokens[c + 1].0->Word_0@) && !(exists|k: int|
            0 <= k < self.classes@.len() && (#[trigger] self.classes@[k]).name@ == tokens[c
                + 1].0->Word_0@) && !has_name(self.traits@, tokens[c + 1].0->Word_0@) && tokens[c
            + 2].0 == Token::Symbol('=') {
            match self.type_ahead(c + 3) {
                Some((ty, end)) => if 0 <= end < tokens.len() && tokens[end].0 == Token::Symbol(';') {
                    Some((tokens[c + 1].0->Word_0@, ty, end + 1))
                } else {
                    None
                },
                None => None,
            }
        } else {
            None
        }
    }
}

/// A copy of an alias.
fn copy_alias(alias: &SymbolAlias) -> (r: SymbolAlias)
    ensures
        r == *alias,
{
    match alias {
        SymbolAlias::Function(target) => SymbolAlias::Function(target.clone()),
        SymbolAlias::Enum(target) => SymbolAlias::Enum(target.clone()),
        SymbolAlias::Class(target) => SymbolAlias::Class(target.clone()),
    }
}

/// The names of enum variants.
spec fn variant_views(variants: Seq<(String, u32)>) -> Seq<Seq<char>> {
    variants.map_values(|variant: (String, u32)| variant.0@)
}

/// The variants `A, B, ... }` from token `i` on, after `seen`, and the index
/// after the `}` (a `,` may end the list); `None` where a name is not usable
/// or repeats, or the list is malformed.
spec fn variant_list(tokens: Seq<PositionedToken>, i: int, seen: Seq<Seq<char>>) -> Option<
    (Seq<Seq<char>>, int),
>
    decreases tokens.len() - i,
{
    if 0 <= i && i + 1 < tokens.len() && tokens[i].0 is Word && usable_name(tokens[i].0->Word_0@)
        && !seen.contains(tokens[i].0->Word_0@) {
        let now = seen.push(tokens[i].0->Word_0@);
        if tokens[i + 1].0 == Token::Symbol('}') {
            Some((now, i + 2))
        } else if tokens[i + 1].0 == Token::Symbol(',') && i + 2 < tokens.len() {
            if tokens[i + 2].0 == Token::Symbol('}') {
                Some((now, i + 3))
            } else {
                variant_list(tokens, i + 2, now)
            }
        } else {
            None
        }
    } else {
        None
    }
}

impl Parser {
    /// What `enum Name { A, B }` at the cursor declares: its variant names
    /// and the index after it; `None` where the name is not usable or
    /// already names an enum, type alias or trait, or the text is malformed.
    spec fn enum_ahead(&self) -> Option<(Seq<Seq<char>>, int)> {
        let tokens = self.tokens@;
        let c = self.cursor as int;
        if c + 3 < tokens.len() && tokens[c].0 is Word && tokens[c].0->Word_0@ == "enum"@ && tokens[c
            + 1].0 is Word && usable_name(tokens[c + 1].0->Word_0@) && !has_name(
            self.enums@,
            tokens[c + 1].0->Word_0@,
        ) && !has_name(self.type_aliases@, tokens[c + 1].0->Word_0@) && !has_name(
            self.traits@,
            tokens[c + 1].0->Word_0@,
        ) && tokens[c + 2].0 == Token::Symbol('{') && tokens[c + 3].0 != Token::Symbol('}') {
            variant_list(tokens, c + 3, seq![])
        } else {
            None
        }
    }
}

/// The name, parameter types and result type of each trait method.
spec fn method_views(methods: Seq<TraitMethod>) -> Seq<(Seq<char>, Seq<Type>, Type)> {
    methods.map_values(|method: TraitMethod| (method.name@, method.parameters@, method.result))
}

/// The tokens and the type declarations that reading types looks at.
type TypeScope = (Seq<PositionedToken>, Seq<(String, Type)>, Seq<(String, EnumDefinition)>, Seq<ClassDefinition>);

/// The type written from token `i` on in a scope (see `type_at`).
spec fn scope_type(scope: TypeScope, i: int) -> Option<(Type, int)> {
    type_at(scope.0, scope.1, scope.2, scope.3, i)
}

/// The parameter types `[$]name: Type, ... )` from token `i` on, after
/// `read`, and the index after the `)`; an optional parameter (`$`) has the
/// optional type of its type.
spec fn parameter_list(scope: TypeScope, i: int, read: Seq<Type>) -> Option<(Seq<Type>, int)>
    decreases scope.0.len() - i,
{
    let tokens = scope.0;
    let optional = 0 <= i < tokens.len() && tokens[i].0 == Token::Symbol('$');
    let j = if optional { i + 1 } else { i };
    if 0 <= i && j + 1 < tokens.len() && tokens[j].0 is Word && usable_name(tokens[j].0->Word_0@)
        && tokens[j + 1].0 == Token::Symbol(':') {
        match scope_type(scope, j + 2) {
            Some((ty, k)) => {
                let now = read.push(
                    if optional {
                        Type::Optional(ty.spec_id())
                    } else {
                        ty
                    },
                );
                if 0 <= k < tokens.len() && tokens[k].0 == Token::Symbol(')') {
                    Some((now, k + 1))
                } else if 0 <= k < tokens.len() && tokens[k].0 == Token::Symbol(',') && k + 1 > i {
                    parameter_list(scope, k + 1, now)
                } else {
                    None
                }
            },
            None => None,
        }
    } else {
        None
    }
}

/// The parameter types after a method's `(` at `i - 1`: none for `()`.
spec fn parameters_ahead(scope: TypeScope, i: int) -> Option<(Seq<Type>, int)> {
    if 0 <= i < scope.0.len() && scope.0[i].0 == Token::Symbol(')') {
        Some((seq![], i + 1))
    } else {
        parameter_list(scope, i, seq![])
    }
}

/// The trait method `fun name(parameters) result: Type;` at token `i`: its
/// name, parameter types, result type and the index after it.
spec fn method_at(scope: TypeScope, i: int) -> Option<(Seq<char>, Seq<Type>, Type, int)> {
    let tokens = scope.0;
    if 0 <= i && i + 2 < tokens.len() && tokens[i].0 is Word && tokens[i].0->Word_0@ == "fun"@
        && tokens[i + 1].0 is Word && usable_name(tokens[i + 1].0->Word_0@) && !(tokens[i
        + 1].0->Word_0@ == "__new__"@ || tokens[i + 1].0->Word_0@ == "__change__"@ || tokens[i
        + 1].0->Word_0@ == "__remove__"@) && tokens[i + 2].0 == Token::Symbol('(') {
        match parameters_ahead(scope, i + 3) {
            Some((parameters, p)) => if 0 <= p && p + 1 < tokens.len() && tokens[p].0 is Word
                && usable_name(tokens[p].0->Word_0@) && tokens[p + 1].0 == Token::Symbol(':') {
                match scope_type(scope, p + 2) {
                    Some((result, k)) => if 0 <= k < tokens.len() && tokens[k].0 == Token::Symbol(';') {
                        Some((tokens[i + 1].0->Word_0@, parameters, result, k + 1))
                    } else {
                        None
                    },
                    None => None,
                }
            } else {
                None
            },
            None => None,
        }
    } else {
        None
    }
}

/// The trait methods from token `i` on up to the closing `}`, after `read`,
/// and the index after the `}`; `None` where a method is malformed or its
/// name repeats.
spec fn method_list(scope: TypeScope, i: int, read: Seq<(Seq<char>, Seq<Type>, Type)>) -> Option<
    (Seq<(Seq<char>, Seq<Type>, Type)>, int),
>
    decreases scope.0.len() - i,
{
    if 0 <= i < scope.0.len() && scope.0[i].0 == Token::Symbol('}') {
        Some((read, i + 1))
    } else {
        match method_at(scope, i) {
            Some((name, parameters, result, end)) => if end > i && !(exists|j: int|
                0 <= j < read.len() && (#[trigger] read[j]).0 == name) {
                method_list(scope, end, read.push((name, parameters, result)))
            } else {
                None
            },
            None => None,
        }
    }
}

/// The name, type and visibility of each class field.
pub open spec fn field_views(fields: Seq<ClassField>) -> Seq<(Seq<char>, Type, bool)> {
    fields.map_values(|field: ClassField| (field.name@, field.ty, field.public))
}

/// The field `[pub] [&]name: Type` at token `i`: its name, type (an optional
/// field, `&`, has the optional type of its type, numbered below 2^29), its
/// visibility and the index after it; a class-typed field must be optional.
spec fn field_at(scope: TypeScope, i: int) -> Option<(Seq<char>, Type, bool, int)> {
    let tokens = scope.0;
    let public = 0 <= i < tokens.len() && tokens[i].0 is Word && tokens[i].0->Word_0@ == "pub"@;
    let j = if public { i + 1 } else { i };
    let optional = 0 <= j < tokens.len() && tokens[j].0 == Token::Symbol('&');
    let n = if optional { j + 1 } else { j };
    if 0 <= i && n + 1 < tokens.len() && tokens[n].0 is Word && usable_name(tokens[n].0->Word_0@)
        && tokens[n + 1].0 == Token::Symbol(':') {
        match scope_type(scope, n + 2) {
            Some((ty, k)) => if ty is Class && !optional {
                None
            } else if optional && !crate::types::spec_wrappable(ty.spec_id()) {
                None
            } else {
                Some((
                    tokens[n].0->Word_0@,
                    if optional {
                        Type::Optional(ty.spec_id())
                    } else {
                        ty
                    },
                    public,
                    k,
                ))
            },
            None => None,
        }
    } else {
        None
    }
}

/// The fields from token `i` on up to the closing `)` (a `,` may end the
/// list), after `read`, and the index after the `)`; `None` where a field is
/// malformed or its name repeats.
spec fn field_list(scope: TypeScope, i: int, read: Seq<(Seq<char>, Type, bool)>) -> Option<
    (Seq<(Seq<char>, Type, bool)>, int),
>
    decreases scope.0.len() - i,
{
    let tokens = scope.0;
    match field_at(scope, i) {
        Some((name, ty, public, k)) => if exists|j: int| 0 <= j < read.len() && (#[trigger] read[j]).0 == name {
            None
        } else {
            let now = read.push((name, ty, public));
            if 0 <= k < tokens.len() && tokens[k].0 == Token::Symbol(')') {
                Some((now, k + 1))
            } else if 0 <= k && k + 1 < tokens.len() && tokens[k].0 == Token::Symbol(',') {
                if tokens[k + 1].0 == Token::Symbol(')') {
                    Some((now, k + 2))
                } else if k + 1 > i {
                    field_list(scope, k + 1, now)
                } else {
                    None
                }
            } else {
                None
            }
        },
        None => None,
    }
}

/// The fields `(...)` of a class at token `i`: their names, types and
/// visibility, and the index after the `)`.
spec fn fields_ahead(scope: TypeScope, i: int) -> Option<(Seq<(Seq<char>, Type, bool)>, int)> {
    let tokens = scope.0;
    if 0 <= i && i + 1 < tokens.len() && tokens[i].0 == Token::Symbol('(') {
        if tokens[i + 1].0 == Token::Symbol(')') {
            Some((seq![], i + 2))
        } else {
            field_list(scope, i + 1, seq![])
        }
    } else {
        None
    }
}

impl Parser {
    /// The tokens and type declarations of this parser.
    spec fn scope(&self) -> TypeScope {
        (self.tokens@, self.type_aliases@, self.enums@, self.classes@)
    }

    /// What `trait Name { ... }` at the cursor declares: its methods and the
    /// index after it; `None` where the name is not usable or already names
    /// a trait, class, enum or type alias, no method is required, or the
    /// text is malformed.
    spec fn trait_ahead(&self) -> Option<(Seq<(Seq<char>, Seq<Type>, Type)>, int)> {
        let tokens = self.tokens@;
        let c = self.cursor as int;
        if c + 2 < tokens.len() && tokens[c].0 is Word && tokens[c].0->Word_0@ == "trait"@ && tokens[c
            + 1].0 is Word && usable_name(tokens[c + 1].0->Word_0@) && !has_name(
            self.traits@,
            tokens[c + 1].0->Word_0@,
        ) && !(exists|k: int|
            0 <= k < self.classes@.len() && (#[trigger] self.classes@[k]).name@ == tokens[c
                + 1].0->Word_0@) && !has_name(self.enums@, tokens[c + 1].0->Word_0@) && !has_name(
            self.type_aliases@,
            tokens[c + 1].0->Word_0@,
        ) && tokens[c + 2].0 == Token::Symbol('{') {
            match method_list(self.scope(), c + 3, seq![]) {
                Some((required, end)) => if required.len() > 0 {
                    Some((required, end))
                } else {
                    None
                },
                None => None,
            }
        } else {
            None
        }
    }
}

/// `clamp` is a usable name, and not `remove` or `disconnect`.
proof fn lemma_clamp_word()
    ensures
        usable_name("clamp"@),
        "clamp"@ != "remove"@,
        "clamp"@ != "disconect"@,
        "clamp"@ != "disconnect"@,
{
    reveal_strlit("None");
    reveal_strlit("bool");
    reveal_strlit("f128");
    reveal_strlit("f32");
    reveal_strlit("f64");
    reveal_strlit("float");
    reveal_strlit("i16");
    reveal_strlit("i32");
    reveal_strlit("i64");
    reveal_strlit("i8");
    reveal_strlit("int");
    reveal_strlit("string");
    reveal_strlit("u");
    reveal_strlit("u16");
    reveal_strlit("u32");
    reveal_strlit("u4");
    reveal_strlit("u64");
    reveal_strlit("u8");
    reveal_strlit("List");
    reveal_strlit("and");
    reveal_strlit("break");
    reveal_strlit("ch");
    reveal_strlit("changeable");
    reveal_strlit("class");
    reveal_strlit("continue");
    reveal_strlit("define");
    reveal_strlit("else");
    reveal_strlit("enum");
    reveal_strlit("false");
    reveal_strlit("for");
    reveal_strlit("fun");
    reveal_strlit("if");
    reveal_strlit("implements");
    reveal_strlit("in");
    reveal_strlit("loop");
    reveal_strlit("match");
    reveal_strlit("not");
    reveal_strlit("offset");
    reveal_strlit("oofset");
    reveal_strlit("or");
    reveal_strlit("pack");
    reveal_strlit("panic");
    reveal_strlit("print");
    reveal_strlit("pub");
    reveal_strlit("return");
    reveal_strlit("static");
    reveal_strlit("stc");
    reveal_strlit("then");
    reveal_strlit("trait");
    reveal_strlit("true");
    reveal_strlit("until");
    reveal_strlit("use");
    reveal_strlit("var");
    reveal_strlit("variable");
    reveal_strlit("warn");
    reveal_strlit("while");
    reveal_strlit("clamp");
    reveal_strlit("remove");
    reveal_strlit("disconect");
    reveal_strlit("disconnect");
    assert("clamp"@.len() == 5);
    assert("clamp"@[0] == 'c' && "clamp"@[1] == 'l' && "clamp"@[2] == 'a' && "clamp"@[3] == 'm' && "clamp"@[4] == 'p');
    assert("None"@.len() == 4);
    assert("bool"@.len() == 4);
    assert("f128"@.len() == 4);
    assert("f32"@.len() == 3);
    assert("f64"@.len() == 3);
    assert("float"@[0] == 'f');
    assert("i16"@.len() == 3);
    assert("i32"@.len() == 3);
    assert("i64"@.len() == 3);
    assert("i8"@.len() == 2);
    assert("int"@.len() == 3);
    assert("string"@.len() == 6);
    assert("u"@.len() == 1);
    assert("u16"@.len() == 3);
    assert("u32"@.len() == 3);
    assert("u4"@.len() == 2);
    assert("u64"@.len() == 3);
    assert("u8"@.len() == 2);
    assert("List"@.len() == 4);
    assert("and"@.len() == 3);
    assert("break"@[0] == 'b');
    assert("ch"@.len() == 2);
    assert("changeable"@.len() == 10);
    assert("class"@[3] == 's');
    assert("continue"@.len() == 8);
    assert("define"@.len() == 6);
    assert("else"@.len() == 4);
    assert("enum"@.len() == 4);
    assert("false"@[0] == 'f');
    assert("for"@.len() == 3);
    assert("fun"@.len() == 3);
    assert("if"@.len() == 2);
    assert("implements"@.len() == 10);
    assert("in"@.len() == 2);
    assert("loop"@.len() == 4);
    assert("match"@[0] == 'm');
    assert("not"@.len() == 3);
    assert("offset"@.len() == 6);
    assert("oofset"@.len() == 6);
    assert("or"@.len() == 2);
    assert("pack"@.len() == 4);
    assert("panic"@[0] == 'p');
    assert("print"@[0] == 'p');
    assert("pub"@.len() == 3);
    assert("return"@.len() == 6);
    assert("static"@.len() == 6);
    assert("stc"@.len() == 3);
    assert("then"@.len() == 4);
    assert("trait"@[0] == 't');
    assert("true"@.len() == 4);
    assert("until"@[0] == 'u');
    assert("use"@.len() == 3);
    assert("var"@.len() == 3);
    assert("variable"@.len() == 8);
    assert("warn"@.len() == 4);
    assert("while"@[0] == 'w');
    assert("remove"@.len() == 6);
    assert("disconect"@.len() == 9);
    assert("disconnect"@.len() == 10);
}

/// The words that start a statement other than one that names a variable.
pub open spec fn statement_keyword(word: Seq<char>) -> bool {
    word == "if"@ || word == "while"@ || word == "until"@ || word == "loop"@ || word == "for"@
        || word == "match"@ || word == "break"@ || word == "continue"@ || word == "exit"@
        || word == "var"@ || word == "variable"@ || word == "print"@ || word == "panic"@
        || word == "warn"@ || word == "return"@ || word == "use"@ || word == "pack"@
}

/// The error for a change of the static variable `name` at `position`.
pub open spec fn static_message(position: Position, name: Seq<char>) -> Seq<char> {
    crate::syntax::position_text(position, "cannot modify static variable '"@ + name + "'"@)
}

impl Parser {
    /// Whether the first binding of `name` is static.
    spec fn static_binding(&self, name: Seq<char>) -> bool {
        exists|i: int| first_name_at(self.bindings@, name, i) && !self.bindings@[i].1.changeable
    }

    /// Whether the first binding of `name` is initialized.
    spec fn initialized_binding(&self, name: Seq<char>) -> bool {
        exists|i: int| first_name_at(self.bindings@, name, i) && self.bindings@[i].1.initialized
    }

    /// Whether the tokens after the name `name` change it: `= ...` (an
    /// assignment or `=+`-style update) or `.clamp(...)`, where `name` is a
    /// static variable (neither removed nor a function, enum or class
    /// alias).
    spec fn static_change_ahead(&self, name: Seq<char>) -> bool {
        self.static_change_at(name, self.cursor as int)
    }

    /// `static_change_ahead` with the tokens after the name from `i` on.
    spec fn static_change_at(&self, name: Seq<char>, i: int) -> bool {
        &&& !(exists|k: int| 0 <= k < self.removed_variables@.len() && self.removed_variables@[k]@ == name)
        &&& !has_name(self.symbol_aliases@, name)
        &&& self.static_binding(name)
        &&& 0 <= i < self.tokens@.len()
        &&& (self.tokens@[i].0 == Token::Symbol('=') || (self.tokens@[i].0 == Token::Symbol('.') && i + 1
            < self.tokens@.len() && self.tokens@[i + 1].0 is Word && self.tokens@[i + 1].0->Word_0@
            == "clamp"@ && self.initialized_binding(name)))
    }

    /// Whether the tokens at the cursor are `fun main ( ) { }`.
    spec fn empty_main_ahead(&self) -> bool {
        let c = self.cursor as int;
        &&& c + 5 < self.tokens@.len()
        &&& self.tokens@[c].0 is Word && self.tokens@[c].0->Word_0@ == "fun"@
        &&& self.tokens@[c + 1].0 is Word && self.tokens@[c + 1].0->Word_0@ == "main"@
        &&& self.tokens@[c + 2].0 == Token::Symbol('(')
        &&& self.tokens@[c + 3].0 == Token::Symbol(')')
        &&& self.tokens@[c + 4].0 == Token::Symbol('{')
        &&& self.tokens@[c + 5].0 == Token::Symbol('}')
    }

    /// Whether the tokens at the cursor are `word ;` inside a loop.
    spec fn loop_jump_ahead(&self, word: Seq<char>) -> bool {
        &&& self.current() is Word && self.current()->Word_0@ == word
        &&& self.loop_depth > 0
        &&& self.cursor + 1 < self.tokens@.len()
        &&& self.tokens@[self.cursor + 1].0 == Token::Symbol(';')
    }

    /// The integer that the tokens from `i` on read as, where they are an
    /// integer literal (`digits` or `- digits`) that ends the statement
    /// (`;` follows).
    spec fn integer_statement_end(&self, i: int) -> Option<i128> {
        integer_end_at(self.tokens@, i)
    }

    /// The comparison operator at the cursor, with its number of tokens
    /// (see `comparison_at`).
    spec fn comparison_ahead(&self) -> Option<(Comparison, int)> {
        comparison_at(self.tokens@, self.cursor as int)
    }

    /// Whether `name` names a variable that may be assigned: neither removed
    /// nor a function, enum or class alias, and first bound as changeable.
    spec fn assignable_name(&self, name: Seq<char>) -> bool {
        &&& !(exists|k: int| 0 <= k < self.removed_variables@.len() && self.removed_variables@[k]@ == name)
        &&& !has_name(self.symbol_aliases@, name)
        &&& exists|i: int| first_name_at(self.bindings@, name, i) && self.bindings@[i].1.changeable
    }

    /// The operator of an update `= o` at token `i`: `=` followed, on the
    /// same line and in the next column, by an arithmetic operator symbol.
    spec fn update_at(&self, i: int) -> Option<Operator> {
        if 0 <= i && i + 1 < self.tokens@.len() && self.tokens@[i].0 == Token::Symbol('=')
            && self.tokens@[i + 1].0 is Symbol && self.tokens@[i + 1].1.line == self.tokens@[i].1.line
            && self.tokens@[i + 1].1.column == self.tokens@[i].1.column + 1 {
            crate::syntax::operator_of(self.tokens@[i + 1].0->Symbol_0)
        } else {
            None
        }
    }

    /// Whether the statement at the cursor changes a static variable: it
    /// starts with a name that is no statement keyword, followed by a change
    /// (see `static_change_ahead`).
    spec fn static_statement_ahead(&self) -> bool {
        &&& self.current() is Word
        &&& !statement_keyword(self.current()->Word_0@)
        &&& self.static_change_at(self.current()->Word_0@, self.cursor + 1)
    }
}

/// The target name of a symbol alias.
fn alias_name(alias: &SymbolAlias) -> (r: String)
    ensures
        r@ == match alias {
            SymbolAlias::Function(target) => target@,
            SymbolAlias::Enum(target) => target@,
            SymbolAlias::Class(target) => target@,
        },
{
    match alias {
        SymbolAlias::Function(target) => target.clone(),
        SymbolAlias::Enum(target) => target.clone(),
        SymbolAlias::Class(target) => target.clone(),
    }
}

impl Parser {
    /// Reads a type: a built-in type, `List[T]`, a type alias, an enum or a
    /// class.
    fn read_type(&mut self) -> (r: Result<Type, String>)
        requires
            old(self).wf(),
        ensures
            old(self).moved_on(final(self)),
            final(self).bindings == old(self).bindings,
            final(self).types == old(self).types,
            r is Ok <==> old(self).type_ahead(old(self).cursor as int) is Some,
            r matches Ok(ty) ==> (old(self).type_ahead(old(self).cursor as int) matches Some(
                (read, end),
            ) && ty == read && final(self).cursor == end),
        decreases old(self).tokens@.len() - old(self).cursor,
    {
        let position = self.position();
        let name = match self.next() {
            Token::Word(name) => name,
            _ => {
                return Err(position.error("expected a type name"));
            },
        };
        if str_eq(name.as_str(), "List") {
            self.symbol('[')?;
            let element = self.read_type()?;
            self.symbol(']')?;
            if !crate::types::wrappable(element.id()) {
                return Err(position.error("type nesting exceeds the supported depth"));
            }
            return Ok(Type::List(element.id()));
        }
        if let Some(ty) = Type::parse(name.as_str()) {
            return Ok(ty);
        }
        if let Some(i) = find_named(&self.type_aliases, name.as_str()) {
            proof {
                let k = choose|k: int| first_name_at(self.type_aliases@, name@, k);
                lemma_first_name_unique(self.type_aliases@, name@, k, i as int);
            }
            return Ok(self.type_aliases[i].1);
        }
        if let Some(i) = find_named(&self.enums, name.as_str()) {
            proof {
                let k = choose|k: int| first_name_at(self.enums@, name@, k);
                lemma_first_name_unique(self.enums@, name@, k, i as int);
            }
            return Ok(self.enums[i].1.ty);
        }
        if let Some(i) = find_class(&self.classes, name.as_str()) {
            proof {
                let k = choose|k: int| first_class_at(self.classes@, name@, k);
                if k < i {
                    assert(self.classes@[k].name@ != name@);
                } else if i < k {
                    assert(self.classes@[i as int].name@ != name@);
                }
            }
            return Ok(Type::Class(self.classes[i].id));
        }
        let message = concat3("unsupported type '", name.as_str(), "'");
        Err(position.error(message.as_str()))
    }

    /// Reads `define Name = Type;` and records the alias.
    fn type_alias_declaration(&mut self) -> (r: Result<String, String>)
        requires
            old(self).wf(),
        ensures
            final(self).classes == old(self).classes,
            old(self).read_on(final(self)),
            final(self).loop_depth == old(self).loop_depth,
            r is Ok ==> final(self).cursor > old(self).cursor,
            r is Ok <==> old(self).type_alias_ahead() is Some,
            r matches Ok(name) ==> {
                let (alias, ty, end) = old(self).type_alias_ahead()->0;
                &&& name@ == alias
                &&& final(self).type_aliases@ == old(self).type_aliases@.push((name, ty))
                &&& final(self).cursor == end
            },
    {
        self.word("define")?;
        let position = self.position();
        let name = self.name()?;
        if self.has_type_alias(name.as_str()) || self.has_enum(name.as_str()) || self.has_class(
            name.as_str(),
        ) || self.has_trait(name.as_str()) {
            let message = concat3("type name '", name.as_str(), "' is already declared");
            return Err(position.error(message.as_str()));
        }
        self.symbol('=')?;
        let ty = self.read_type()?;
        self.symbol(';')?;
        let ghost before = self.type_aliases@;
        self.type_aliases.push((name.clone(), ty));
        assert(self.type_aliases@ == before.push((name, ty)));
        Ok(name)
    }

    /// The slot of a variable that may be assigned: declared and changeable.
    fn writable_variable(&self, name: &str, position: Position) -> (r: Result<usize, String>)
        ensures
            self.bindings_declared() ==> (r matches Ok(slot) ==> slot < self.types@.len()),
            r matches Ok(slot) ==> exists|i: int|
                first_name_at(self.bindings@, name@, i) && slot == self.bindings@[i].1.slot
                    && self.bindings@[i].1.changeable,
            r is Err ==> !has_name(self.bindings@, name@) || exists|i: int|
                first_name_at(self.bindings@, name@, i) && !self.bindings@[i].1.changeable,
            self.static_binding(name@) ==> (r matches Err(e) && e@ == static_message(position, name@)),
    {
        let slot = self.variable(name, false, position)?;
        if let Some(i) = find_named(&self.bindings, name) {
            if !self.bindings[i].1.changeable {
                let message = concat3("cannot modify static variable '", name, "'");
                return Err(position.error(message.as_str()));
            }
        }
        proof {
            if self.static_binding(name@) {
                let k = choose|k: int| first_name_at(self.bindings@, name@, k) && !self.bindings@[k].1.changeable;
                let j = choose|j: int| first_name_at(self.bindings@, name@, j);
                lemma_first_name_unique(self.bindings@, name@, k, j);
            }
        }
        Ok(slot)
    }

    /// Whether some name binds `slot` as a static variable.
    fn static_slot(&self, slot: usize) -> (r: bool)
        ensures
            r == exists|i: int| 0 <= i < self.bindings@.len() && (#[trigger] self.bindings@[i]).1.slot
                == slot && !self.bindings@[i].1.changeable,
    {
        let mut i: usize = 0;
        while i < self.bindings.len()
            invariant
                i <= self.bindings@.len(),
                forall|k: int| 0 <= k < i ==> !((#[trigger] self.bindings@[k]).1.slot == slot
                    && !self.bindings@[k].1.changeable),
            decreases self.bindings.len() - i,
        {
            if self.bindings[i].1.slot == slot && !self.bindings[i].1.changeable {
                return true;
            }
            i = i + 1;
        }
        false
    }

    /// The alias that the word `target` names: the alias already bound to
    /// that name, else the enum, the class or the function of that name.
    spec fn resolved_alias(&self, target: String) -> SymbolAlias {
        if has_name(self.symbol_aliases@, target@) {
            let k = choose|k: int| first_name_at(self.symbol_aliases@, target@, k);
            self.symbol_aliases@[k].1
        } else if has_name(self.enums@, target@) {
            SymbolAlias::Enum(target)
        } else if exists|k: int| 0 <= k < self.classes@.len() && (#[trigger] self.classes@[k]).name@
            == target@ {
            SymbolAlias::Class(target)
        } else {
            SymbolAlias::Function(target)
        }
    }

    /// What `alias_target` reads at the cursor: the alias and the index
    /// after `.as_variable` (a function is written with `()`); `None` where
    /// the text is malformed.
    spec fn alias_target_ahead(&self) -> Option<(SymbolAlias, int)> {
        let tokens = self.tokens@;
        let c = self.cursor as int;
        if 0 <= c < tokens.len() && tokens[c].0 is Word {
            let alias = self.resolved_alias(tokens[c].0->Word_0);
            let call: int = if alias is Function { 2 } else { 0 };
            if (alias is Function ==> c + 2 < tokens.len() && tokens[c + 1].0 == Token::Symbol('(')
                && tokens[c + 2].0 == Token::Symbol(')')) && c + call + 2 < tokens.len() && tokens[c
                + call + 1].0 == Token::Symbol('.') && tokens[c + call + 2].0 is Word && tokens[c
                + call + 2].0->Word_0@ == "as_variable"@ {
                Some((alias, c + call + 3))
            } else {
                None
            }
        } else {
            None
        }
    }

    /// Reads `target().as_variable`, `Enum.as_variable` or
    /// `Class.as_variable`: the function, enum or class that an alias names.
    fn alias_target(&mut self) -> (r: Result<SymbolAlias, String>)
        requires
            old(self).wf(),
        ensures
            old(self).moved_on(final(self)),
            r is Ok <==> old(self).alias_target_ahead() is Some,
            r matches Ok(alias) ==> (old(self).alias_target_ahead() matches Some((a, end)) && alias
                == a && final(self).cursor == end),
    {
        let position = self.position();
        let target = match self.next() {
            Token::Word(target) => target,
            _ => {
                return Err(position.error("expected a variable, function, enum or class name"));
            },
        };
        let target = match find_named(&self.symbol_aliases, target.as_str()) {
            Some(i) => {
                proof {
                    let k = choose|k: int| first_name_at(self.symbol_aliases@, target@, k);
                    lemma_first_name_unique(self.symbol_aliases@, target@, k, i as int);
                }
                copy_alias(&self.symbol_aliases[i].1)
            },
            None => {
                if self.has_enum(target.as_str()) {
                    SymbolAlias::Enum(target)
                } else if self.has_class(target.as_str()) {
                    SymbolAlias::Class(target)
                } else {
                    SymbolAlias::Function(target)
                }
            },
        };
        if let SymbolAlias::Function(_) = &target {
            self.symbol('(')?;
            self.symbol(')')?;
        }
        self.symbol('.')?;
        self.word("as_variable")?;
        Ok(target)
    }

    /// Whether the tokens ahead name an alias target (see `alias_target`).
    fn is_alias_target(&self) -> (r: bool)
        requires
            self.wf(),
        ensures
            r == (self.current() is Word && {
                let name = self.current()->Word_0@;
                let offset: int = if has_name(self.enums@, name) || exists|i: int|
                    0 <= i < self.classes@.len() && (#[trigger] self.classes@[i]).name@ == name {
                    1
                } else {
                    3
                };
                &&& self.cursor + offset + 1 < self.tokens@.len()
                &&& self.tokens@[self.cursor + offset].0 == Token::Symbol('.')
                &&& self.tokens@[self.cursor + offset + 1].0 is Word
                &&& self.tokens@[self.cursor + offset + 1].0->Word_0@ == "as_variable"@
            }),
    {
        let offset: usize = match self.peek() {
            Token::Word(name) => if self.has_enum(name.as_str()) || self.has_class(name.as_str()) {
                1
            } else {
                3
            },
            _ => {
                return false;
            },
        };
        self.symbol_at(offset, '.') && self.word_at(offset + 1, "as_variable")
    }

    /// The function that `var alias = name();` turns into an alias: `name`,
    /// when the statement is such an empty call and `alias(` follows later in
    /// the same block.
    #[verifier::loop_isolation(true)]
    fn bare_function_target(&self, alias_name: &str) -> (r: Option<String>)
        requires
            self.wf(),
        ensures
            r is Some <==> (self.current() is Word && self.cursor + 3 < self.tokens@.len()
                && self.tokens@[self.cursor + 1].0 == Token::Symbol('(')
                && self.tokens@[self.cursor + 2].0 == Token::Symbol(')')
                && self.tokens@[self.cursor + 3].0 == Token::Symbol(';')
                && called_ahead(self.tokens@, self.cursor + 4, 0, alias_name@)),
            r is Some ==> r->0@ == self.current()->Word_0@,
    {
        let name = match self.peek() {
            Token::Word(name) => name,
            _ => {
                return None;
            },
        };
        let empty_call = self.symbol_at(1, '(') && self.symbol_at(2, ')') && self.symbol_at(
            3,
            ';',
        );
        let n = self.tokens.len();
        let mut depth: usize = 0;
        let mut called_later = false;
        let mut index: usize = if n - self.cursor > 4 {
            self.cursor + 4
        } else {
            n
        };
        assert(called_ahead(self.tokens@, self.cursor + 4, 0, alias_name@) == called_ahead(
            self.tokens@,
            index as int,
            0,
            alias_name@,
        ));
        while index < n && index + 1 < n
            invariant_except_break
                !called_later,
                called_ahead(self.tokens@, self.cursor + 4, 0, alias_name@) == called_ahead(
                    self.tokens@,
                    index as int,
                    depth as int,
                    alias_name@,
                ),
            invariant
                n == self.tokens.len(),
                index <= n,
                depth <= index,
            ensures
                called_later == called_ahead(self.tokens@, self.cursor + 4, 0, alias_name@),
            decreases n - index,
        {
            if is_symbol(&self.tokens[index].0, '{') {
                depth = if depth < usize::MAX { depth + 1 } else { depth };
            } else if is_symbol(&self.tokens[index].0, '}') {
                if depth == 0 {
                    break;
                }
                depth = depth - 1;
            }
            if is_word(&self.tokens[index].0, alias_name) && is_symbol(
                &self.tokens[index + 1].0,
                '(',
            ) {
                called_later = true;
                break;
            }
            index = index + 1;
        }
        if empty_call && called_later {
            Some(name.clone())
        } else {
            None
        }
    }

    /// Fails on a field access, an index or a qualified name where a plain
    /// variable is expected.
    fn reject_access(&self) -> (r: Result<(), String>)
        requires
            self.wf(),
        ensures
            r is Ok <==> !((self.current() == Token::Symbol(':') && self.cursor + 1 < self.tokens@.len()
                && self.tokens@[self.cursor + 1].0 == Token::Symbol(':')) || self.current()
                == Token::Symbol('.') || self.current() == Token::Symbol('[')),
    {
        let qualified = is_symbol(self.peek(), ':') && self.symbol_at(1, ':');
        if qualified || is_symbol(self.peek(), '.') || is_symbol(self.peek(), '[') {
            return Err(
                self.position().error(
                    "invalid access: fields, indexing and qualified names are not supported; clamp is a standalone statement",
                ),
            );
        }
        Ok(())
    }

    /// Fails on `use` and `pack`, which only a module combination resolves.
    fn reject_import(&self) -> (r: Result<(), String>)
        requires
            self.wf(),
        ensures
            r is Ok <==> !(self.current() is Word && (self.current()->Word_0@ == "use"@
                || self.current()->Word_0@ == "pack"@)),
    {
        if is_word(self.peek(), "use") || is_word(self.peek(), "pack") {
            let keyword = if is_word(self.peek(), "use") {
                "use"
            } else {
                "pack"
            };
            let message = concat3(
                "invalid import: '",
                keyword,
                "' cannot be resolved because modules and imports are not supported yet",
            );
            return Err(self.position().error(message.as_str()));
        }
        Ok(())
    }
}


impl Parser {
    /// Reads an expression whose binary operators bind at least as tightly
    /// as `min_precedence` (`or` 0, `and` 1, comparisons 2, `+ -` 3,
    /// `* / %` 4; prefix operators read their operand at 5).
    fn expression(&mut self, min_precedence: u8) -> (r: Result<Expr, String>)
        requires
            old(self).wf(),
        ensures
            old(self).moved_on(final(self)),
            r is Ok ==> final(self).cursor > old(self).cursor,
            r matches Ok(e) ==> expr_extent(e) <= final(self).types@.len(),
            old(self).integer_statement_end(old(self).cursor as int) matches Some(v) ==> (r == Ok::<
                Expr,
                String,
            >(Expr::Integer(v)) && final(self).current() == Token::Symbol(';')),
        decreases old(self).tokens@.len() - old(self).cursor, 0nat,
    {
        let position = self.position();
        let token = self.next();
        let left = match token {
            Token::Number(value) => {
                if is_decimal(value.as_str()) {
                    Expr::Decimal(value)
                } else {
                    match parse_i128(value.as_str()) {
                        Some(v) => Expr::Integer(v),
                        None => {
                            return Err(position.error("integer literal is too large"));
                        },
                    }
                }
            },
            Token::String(value) => Expr::String(
                vstd::slice::slice_to_vec(value.as_str().as_bytes()),
            ),
            Token::Symbol(c) => {
                if c == '-' {
                    let number = match self.peek() {
                        Token::Number(value) => Some(value.clone()),
                        _ => None,
                    };
                    match number {
                        Some(value) => {
                            let negative = concat2("-", value.as_str());
                            if is_decimal(value.as_str()) {
                                self.next();
                                return self.expression_tail(
                                    Expr::Decimal(negative),
                                    min_precedence,
                                );
                            }
                            let parsed = match parse_i128(negative.as_str()) {
                                Some(v) => v,
                                None => {
                                    return Err(position.error("integer literal is too large"));
                                },
                            };
                            self.next();
                            Expr::Integer(parsed)
                        },
                        None => Expr::Negate(Box::new(self.expression(5)?)),
                    }
                } else if c == '+' {
                    Expr::Positive(Box::new(self.expression(5)?))
                } else if c == '!' {
                    Expr::Not(Box::new(self.expression(5)?))
                } else if c == '(' {
                    let inner = self.expression(0)?;
                    self.symbol(')')?;
                    inner
                } else {
                    return Err(position.error("expected an expression"));
                }
            },
            Token::Word(value) => {
                if str_eq(value.as_str(), "true") || str_eq(value.as_str(), "false") {
                    Expr::Bool(str_eq(value.as_str(), "true"))
                } else if str_eq(value.as_str(), "None") {
                    Expr::NoneValue
                } else if str_eq(value.as_str(), "List") {
                    self.symbol('[')?;
                    Expr::List(self.expression_list(']')?)
                } else if str_eq(value.as_str(), "not") {
                    Expr::Not(Box::new(self.expression(5)?))
                } else {
                    self.named_expression(value, position)?
                }
            },
            _ => {
                return Err(position.error("expected an expression"));
            },
        };
        self.expression_tail(left, min_precedence)
    }

    /// Reads `expression, ..., expression` up to `close`, whose opening was
    /// read; `close` right away gives no values.
    fn expression_list(&mut self, close: char) -> (r: Result<Vec<Expr>, String>)
        requires
            old(self).wf(),
        ensures
            old(self).moved_on(final(self)),
            r matches Ok(values) ==> exprs_extent(values@) <= final(self).types@.len(),
        decreases old(self).tokens@.len() - old(self).cursor, 1nat,
    {
        let mut values: Vec<Expr> = Vec::new();
        if self.take_symbol(close) {
            return Ok(values);
        }
        loop
            invariant
                old(self).moved_on(self),
                exprs_extent(values@) <= self.types@.len(),
            decreases self.tokens@.len() - self.cursor,
        {
            let value = self.expression(0)?;
            proof {
                lemma_exprs_push(values@, value);
            }
            values.push(value);
            if self.take_symbol(close) {
                break;
            }
            self.symbol(',')?;
        }
        Ok(values)
    }

    /// Reads the rest of an expression that starts with a name: an enum
    /// variant, a class construction, a call or a variable.
    fn named_expression(&mut self, name: String, position: Position) -> (r: Result<Expr, String>)
        requires
            old(self).wf(),
        ensures
            old(self).moved_on(final(self)),
            r matches Ok(e) ==> expr_extent(e) <= final(self).types@.len(),
        decreases old(self).tokens@.len() - old(self).cursor, 1nat,
    {
        let name = match find_named(&self.symbol_aliases, name.as_str()) {
            Some(i) => alias_name(&self.symbol_aliases[i].1),
            None => name,
        };
        let enum_index = find_named(&self.enums, name.as_str());
        let class_index = find_class(&self.classes, name.as_str());
        if enum_index.is_some() && is_symbol(self.peek(), '.') {
            let e = enum_index.unwrap();
            self.next();
            let variant_position = self.position();
            let variant = match self.next() {
                Token::Word(variant) => variant,
                _ => {
                    return Err(variant_position.error("expected an enum variant name"));
                },
            };
            match find_named(&self.enums[e].1.variants, variant.as_str()) {
                Some(v) => Ok(Expr::EnumVariant(self.enums[e].1.ty, self.enums[e].1.variants[v].1)),
                None => {
                    let mut message = concat3("enum '", name.as_str(), "' has no variant '");
                    message.append(variant.as_str());
                    message.append("'");
                    Err(variant_position.error(message.as_str()))
                },
            }
        } else if class_index.is_some() && is_symbol(self.peek(), '(') {
            let id = self.classes[class_index.unwrap()].id;
            self.next();
            let mut fields: Vec<(String, Expr)> = Vec::new();
            if !self.take_symbol(')') {
                loop
                    invariant
                        old(self).moved_on(self),
                        old(self).cursor < self.cursor,
                        fields_extent(fields@) <= self.types@.len(),
                    decreases self.tokens@.len() - self.cursor,
                {
                    let field = self.name()?;
                    self.symbol('=')?;
                    let value = self.expression(0)?;
                    proof {
                        lemma_fields_push(fields@, (field, value));
                    }
                    fields.push((field, value));
                    if self.take_symbol(')') {
                        break;
                    }
                    self.symbol(',')?;
                }
            }
            Ok(Expr::Construct(id, fields))
        } else if is_symbol(self.peek(), '(') {
            Ok(Expr::Call(self.arguments(name, position)?))
        } else {
            if is_symbol(self.peek(), ':') {
                self.reject_access()?;
            }
            Ok(Expr::Variable(self.variable(name.as_str(), true, position)?))
        }
    }

    /// Reads the argument list of a call of `name`.
    fn arguments(&mut self, name: String, position: Position) -> (r: Result<Call, String>)
        requires
            old(self).wf(),
        ensures
            old(self).moved_on(final(self)),
            r matches Ok(call) ==> call_extent(call) <= final(self).types@.len(),
        decreases old(self).tokens@.len() - old(self).cursor, 0nat,
    {
        if self.has_binding(name.as_str()) {
            let message = concat3("invalid access: variable '", name.as_str(), "' is not callable");
            return Err(position.error(message.as_str()));
        }
        self.symbol('(')?;
        let arguments = self.expression_list(')')?;
        Ok(Call { name, arguments, position })
    }

    /// Reads the indexes, member accesses, method calls, casts, binary
    /// operators and type annotation that follow an operand.
    fn expression_tail(&mut self, left: Expr, min_precedence: u8) -> (r: Result<Expr, String>)
        requires
            old(self).wf(),
            expr_extent(left) <= old(self).types@.len(),
        ensures
            old(self).moved_on(final(self)),
            r matches Ok(e) ==> expr_extent(e) <= final(self).types@.len(),
            old(self).current() == Token::Symbol(';') ==> (r == Ok::<Expr, String>(left) && final(self).cursor
                == old(self).cursor),
            compared_tail(old(self).tokens@, old(self).cursor as int, left, min_precedence, r),
            arithmetic_tail(old(self).tokens@, old(self).cursor as int, left, min_precedence, r),
            looser_left_alone(old(self).tokens@, old(self).cursor as int, left, min_precedence, r),
        decreases old(self).tokens@.len() - old(self).cursor, 0nat,
    {
        let ghost looser = arithmetic_at(self.tokens@, self.cursor as int) matches Some((op, precedence))
            && precedence < min_precedence;
        let ghost computes = arithmetic_at(self.tokens@, self.cursor as int) matches Some((op, precedence))
            && min_precedence <= precedence && integer_end_at(self.tokens@, self.cursor + 1) is Some;
        let ghost compares = self.comparison_ahead() is Some && min_precedence <= 2 && integer_end_at(
            self.tokens@,
            self.cursor + (self.comparison_ahead()->0).1,
        ) is Some;
        let ghost ends = self.current() == Token::Symbol(';');
        let ghost given = left;
        let ghost start = self.cursor;
        let mut left = left;
        loop
            invariant
                old(self).moved_on(self),
                expr_extent(left) <= self.types@.len(),
                ends ==> self.cursor == start && left == given,
                compares ==> self.cursor == start && left == given,
                computes ==> self.cursor == start && left == given,
                looser ==> self.cursor == start && left == given,
            decreases self.tokens@.len() - self.cursor,
        {
            if !self.take_symbol('[') {
                break;
            }
            let position = self.position();
            let index = self.expression(0)?;
            self.symbol(']')?;
            left = Expr::Index(Box::new(left), Box::new(index), position);
        }
        loop
            invariant
                old(self).moved_on(self),
                expr_extent(left) <= self.types@.len(),
                ends ==> self.cursor == start && left == given,
                compares ==> self.cursor == start && left == given,
                computes ==> self.cursor == start && left == given,
                looser ==> self.cursor == start && left == given,
            decreases self.tokens@.len() - self.cursor,
        {
            let follows = match self.token_at(1) {
                Some(token) => !is_symbol(token, '.'),
                None => false,
            };
            if !(is_symbol(self.peek(), '.') && follows) {
                break;
            }
            self.next();
            let position = self.position();
            let member = self.name()?;
            if str_eq(member.as_str(), "as") {
                self.symbol('(')?;
                let ty = self.read_type()?;
                self.symbol(')')?;
                left = Expr::Cast(Box::new(left), ty, position);
            } else if self.take_symbol('(') {
                if let Expr::Variable(slot) = &left {
                    if self.static_slot(*slot) {
                        return Err(position.error("cannot call a method on a static variable"));
                    }
                }
                let arguments = self.expression_list(')')?;
                left = Expr::MethodCall(Box::new(left), member, arguments, position);
            } else {
                left = Expr::Field(Box::new(left), member, position);
            }
        }
        loop
            invariant
                old(self).moved_on(self),
                expr_extent(left) <= self.types@.len(),
                ends ==> self.cursor == start && left == given,
                compares ==> (self.cursor == start && left == given) || (self.current() == Token::Symbol(';')
                    && left == Expr::Compare(
                    (comparison_at(old(self).tokens@, start as int)->0).0,
                    Box::new(given),
                    Box::new(Expr::Integer(integer_end_at(old(self).tokens@, start + (comparison_at(
                        old(self).tokens@,
                        start as int,
                    )->0).1)->0)),
                )),
                looser ==> self.cursor == start && left == given,
                computes ==> (self.cursor == start && left == given) || (self.current() == Token::Symbol(';')
                    && left == Expr::Binary(
                    (arithmetic_at(old(self).tokens@, start as int)->0).0,
                    Box::new(given),
                    Box::new(Expr::Integer(integer_end_at(old(self).tokens@, start + 1)->0)),
                )),
            decreases self.tokens@.len() - self.cursor,
        {
            proof {
                if ends {
                    reveal_strlit("and");
                    reveal_strlit("or");
                }
            }
            let current: Option<char> = match self.peek() {
                Token::Symbol(c) => Some(*c),
                _ => None,
            };
            let following: Option<char> = match self.token_at(1) {
                Some(Token::Symbol(c)) => Some(*c),
                _ => None,
            };
            let comparison: Option<(Comparison, bool)> = match (current, following) {
                (Some('='), Some('=')) => Some((Comparison::Equal, true)),
                (Some('!'), Some('=')) => Some((Comparison::NotEqual, true)),
                (Some('<'), Some('=')) => Some((Comparison::LessEqual, true)),
                (Some('>'), Some('=')) => Some((Comparison::GreaterEqual, true)),
                (Some('<'), _) => Some((Comparison::Less, false)),
                (Some('>'), _) => Some((Comparison::Greater, false)),
                _ => None,
            };
            let arithmetic: Option<Operator> = match current {
                Some(c) => Operator::from_char(c),
                None => None,
            };
            let logical: Option<(LogicalOperator, bool)> = if is_word(self.peek(), "and") {
                Some((LogicalOperator::And, false))
            } else if is_word(self.peek(), "or") {
                Some((LogicalOperator::Or, false))
            } else {
                match (current, following) {
                    (Some('&'), Some('&')) => Some((LogicalOperator::And, true)),
                    (Some('|'), Some('|')) => Some((LogicalOperator::Or, true)),
                    _ => None,
                }
            };
            let (precedence, consume, kind): (u8, u8, u8) = if let Some((op, two)) = logical {
                (
                    match op {
                        LogicalOperator::And => 1,
                        LogicalOperator::Or => 0,
                    },
                    if two {
                        2
                    } else {
                        1
                    },
                    2,
                )
            } else if let Some((_, two)) = comparison {
                (2, if two {
                    2
                } else {
                    1
                }, 1)
            } else if let Some(op) = arithmetic {
                (
                    match op {
                        Operator::Multiply | Operator::Divide | Operator::Remainder => 4,
                        _ => 3,
                    },
                    1,
                    0,
                )
            } else {
                break;
            };
            if precedence < min_precedence {
                break;
            }
            self.next();
            if consume == 2 {
                self.next();
            }
            let right = self.expression(precedence + 1)?;
            left = if kind == 0 {
                Expr::Binary(arithmetic.unwrap(), Box::new(left), Box::new(right))
            } else if kind == 1 {
                Expr::Compare(comparison.unwrap().0, Box::new(left), Box::new(right))
            } else {
                Expr::Logical(logical.unwrap().0, Box::new(left), Box::new(right))
            };
        }
        if min_precedence == 0 && self.take_symbol(':') {
            let ty = self.read_type()?;
            left = Expr::Annotated(Box::new(left), ty);
        }
        Ok(left)
    }
}


/// Adds `name` to `names` unless it is there.
fn insert_name(names: &mut Vec<String>, name: &str)
    ensures
        (exists|i: int| 0 <= i < old(names)@.len() && old(names)@[i]@ == name@) ==> final(names)@
            == old(names)@,
        !(exists|i: int| 0 <= i < old(names)@.len() && old(names)@[i]@ == name@) ==> {
            &&& final(names)@.len() == old(names)@.len() + 1
            &&& final(names)@.drop_last() == old(names)@
            &&& final(names)@.last()@ == name@
        },
{
    if !contains_name(names, name) {
        names.push(owned(name));
    }
}

impl Parser {
    fn hook_is(&self, hook: &str) -> (r: bool)
        ensures
            r == (self.lifecycle_hook matches Some(name) && name@ == hook@),
    {
        match &self.lifecycle_hook {
            Some(name) => str_eq(name.as_str(), hook),
            None => false,
        }
    }

    /// Reads a statement and its `;`, or a control-flow statement.
    fn statement(&mut self) -> (r: Result<Statement, String>)
        requires
            old(self).wf(),
        ensures
            old(self).moved_on(final(self)),
            r matches Ok(statement) ==> statement_extent(statement) <= final(self).types@.len(),
            r is Ok ==> final(self).cursor > old(self).cursor,
            old(self).static_statement_ahead() ==> (r matches Err(e) && e@ == static_message(
                old(self).tokens@[old(self).cursor as int].1,
                old(self).current()->Word_0@,
            )),
            old(self).current() matches Token::Word(name) ==> (!statement_keyword(name@) ==> ((old(
                self,
            ).cursor + 1 < old(self).tokens@.len() && old(self).tokens@[old(self).cursor + 1].0
                == Token::Symbol('=') && old(self).update_at(old(self).cursor + 1) is None
                && old(self).assignable_name(name@) && old(self).integer_statement_end(old(self).cursor + 2)
                is Some) ==> r matches Ok(Statement::Assign(_, _)))),
            old(self).loop_jump_ahead("break"@) ==> r == Ok::<Statement, String>(Statement::Break),
            old(self).loop_jump_ahead("continue"@) ==> r == Ok::<Statement, String>(Statement::Continue),
            old(self).current() matches Token::Word(name) ==> (!statement_keyword(name@) ==> (r matches Ok(
                Statement::Assign(slot, value),
            ) ==> (old(self).update_at(old(self).cursor + 1) matches Some(op) ==> (value matches Expr::Binary(
                o,
                left,
                _,
            ) && o == op && *left == Expr::Variable(slot))))),
            old(self).current() matches Token::Word(name) ==> (!statement_keyword(name@) ==> (r matches Ok(
                Statement::Assign(_, value),
            ) ==> (old(self).cursor + 1 < old(self).tokens@.len() && old(self).tokens@[old(self).cursor
                + 1].0 == Token::Symbol('=') && old(self).update_at(old(self).cursor + 1) is None ==> (old(
                self,
            ).integer_statement_end(old(self).cursor + 2) matches Some(v) ==> value == Expr::Integer(v))))),
            old(self).current() matches Token::Word(name) ==> (!statement_keyword(name@) ==> (r matches Ok(
                Statement::Assign(slot, _),
            ) ==> (old(self).cursor + 1 < old(self).tokens@.len() && old(self).tokens@[old(self).cursor
                + 1].0 == Token::Symbol('=') ==> exists|i: int|
                first_name_at(old(self).bindings@, name@, i) && slot == old(self).bindings@[i].1.slot
                    && old(self).bindings@[i].1.changeable))),
        decreases old(self).tokens@.len() - old(self).cursor, 2nat,
    {
        proof {
            reveal_strlit("break");
            reveal_strlit("continue");
            reveal_strlit("use");
            reveal_strlit("pack");
            reveal_strlit("if");
            reveal_strlit("while");
            reveal_strlit("until");
            reveal_strlit("loop");
            reveal_strlit("for");
            reveal_strlit("match");
            assert("break"@.len() == 5 && "continue"@.len() == 8);
            assert("break"@ != "use"@ && "break"@ != "pack"@ && "continue"@ != "use"@ && "continue"@ != "pack"@);
            assert("break"@[0] != "while"@[0] && "break"@[0] != "until"@[0] && "break"@[0] != "match"@[0]);
            assert("break"@[0] != "if"@[0] && "break"@[0] != "loop"@[0] && "break"@[0] != "for"@[0]);
            assert("continue"@[0] != "if"@[0] && "continue"@[0] != "loop"@[0] && "continue"@[0] != "for"@[0]
                && "continue"@[0] != "while"@[0] && "continue"@[0] != "until"@[0] && "continue"@[0] != "match"@[0]);
        }
        self.reject_import()?;
        let position = self.position();
        if is_word(self.peek(), "if") || is_word(self.peek(), "while") || is_word(
            self.peek(),
            "until",
        ) || is_word(self.peek(), "loop") || is_word(self.peek(), "for") || is_word(
            self.peek(),
            "match",
        ) {
            return self.control_statement();
        }
        let word = match self.next() {
            Token::Word(word) => word,
            _ => {
                return Err(position.error("expected a statement"));
            },
        };
        let statement = if str_eq(word.as_str(), "break") || str_eq(word.as_str(), "continue") {
            if self.loop_depth == 0 {
                let message = concat3("'", word.as_str(), "' can only be used inside a loop");
                return Err(position.error(message.as_str()));
            }
            if str_eq(word.as_str(), "break") {
                Statement::Break
            } else {
                Statement::Continue
            }
        } else if str_eq(word.as_str(), "exit") && is_symbol(self.peek(), '(') && self.symbol_at(
            1,
            ')',
        ) {
            self.next();
            self.next();
            Statement::Exit
        } else if str_eq(word.as_str(), "var") || str_eq(word.as_str(), "variable") {
            return self.variable_statement(position);
        } else if str_eq(word.as_str(), "print") {
            self.symbol('.')?;
            let newline = match self.next() {
                Token::Word(method) => {
                    if str_eq(method.as_str(), "newline") {
                        true
                    } else if str_eq(method.as_str(), "sameline") {
                        false
                    } else {
                        return Err(position.error("expected newline or sameline"));
                    }
                },
                _ => {
                    return Err(position.error("expected newline or sameline"));
                },
            };
            self.symbol('(')?;
            let output = Statement::Print(self.expression(0)?, newline);
            self.symbol(')')?;
            output
        } else if str_eq(word.as_str(), "panic") || str_eq(word.as_str(), "warn") {
            self.symbol('(')?;
            let message = self.expression(0)?;
            self.symbol(')')?;
            Statement::Message(message, str_eq(word.as_str(), "panic"), position)
        } else if str_eq(word.as_str(), "return") {
            let result_name = match &self.result_name {
                Some(name) => name.clone(),
                None => {
                    return Err(position.error("main has no named result to return"));
                },
            };
            self.word(result_name.as_str())?;
            self.variable(result_name.as_str(), true, position)?;
            Statement::Return
        } else {
            self.name_statement(word, position)?
        };
        self.symbol(';')?;
        Ok(statement)
    }

    /// Reads the rest of `var [static|stc|ch|changeable] name = ...;`: a
    /// variable, an alias of a variable, or an alias of a function, enum or
    /// class.
    fn variable_statement(&mut self, position: Position) -> (r: Result<Statement, String>)
        requires
            old(self).wf(),
        ensures
            old(self).moved_on(final(self)),
            r matches Ok(statement) ==> statement_extent(statement) <= final(self).types@.len(),
    {
        let changeable = if self.take_word("static") || self.take_word("stc") {
            false
        } else {
            if !self.take_word("ch") {
                self.take_word("changeable");
            }
            true
        };
        let name = self.name()?;
        self.symbol('=')?;
        if let Some(target) = self.bare_function_target(name.as_str()) {
            if !changeable {
                return Err(position.error("function values cannot be static"));
            }
            self.next();
            self.next();
            self.next();
            if self.has_binding(name.as_str()) || self.has_symbol_alias(name.as_str()) {
                let message = concat3("variable '", name.as_str(), "' is already declared");
                return Err(position.error(message.as_str()));
            }
            remove_name(&mut self.removed_variables, name.as_str());
            self.set_symbol_alias(name, SymbolAlias::Function(target.clone()));
            self.symbol(';')?;
            return Ok(Statement::Noop(Some(target)));
        }
        if self.is_alias_target() {
            if !changeable {
                return Err(position.error("symbol aliases cannot be static"));
            }
            let target = self.alias_target()?;
            if self.has_binding(name.as_str()) || self.has_symbol_alias(name.as_str()) {
                let message = concat3("variable '", name.as_str(), "' is already declared");
                return Err(position.error(message.as_str()));
            }
            let function = match &target {
                SymbolAlias::Function(target) => Some(target.clone()),
                _ => None,
            };
            remove_name(&mut self.removed_variables, name.as_str());
            self.set_symbol_alias(name, target);
            self.symbol(';')?;
            return Ok(Statement::Noop(function));
        }
        let source: Option<String> = match self.peek() {
            Token::Word(source) => if self.symbol_at(1, '.') && self.word_at(2, "as_variable") {
                Some(source.clone())
            } else {
                None
            },
            _ => None,
        };
        if let Some(source) = source {
            let source_slot = self.variable(source.as_str(), true, position)?;
            self.next();
            self.next();
            self.next();
            if self.has_binding(name.as_str()) || self.has_symbol_alias(name.as_str()) {
                let message = concat3("variable '", name.as_str(), "' is already declared");
                return Err(position.error(message.as_str()));
            }
            let source_changeable = match find_named(&self.bindings, source.as_str()) {
                Some(i) => self.bindings[i].1.changeable,
                None => true,
            };
            remove_name(&mut self.removed_variables, name.as_str());
            self.set_binding(
                name,
                Binding {
                    slot: source_slot,
                    initialized: true,
                    changeable: changeable && source_changeable,
                    alias: true,
                },
            );
            self.symbol(';')?;
            return Ok(Statement::Noop(None));
        }
        let value = self.expression(0)?;
        let slot = self.bind(name, true, changeable, None, position)?;
        self.symbol(';')?;
        Ok(Statement::Assign(slot, value))
    }

    /// Reads the rest of a statement that starts with the name `name`: an
    /// alias operation, an index or field assignment, a call, a method call,
    /// `remove`, `disconnect`, `clamp` or an assignment.
    fn name_statement(&mut self, name: String, position: Position) -> (r: Result<Statement, String>)
        requires
            old(self).wf(),
        ensures
            old(self).moved_on(final(self)),
            r matches Ok(statement) ==> statement_extent(statement) <= final(self).types@.len(),
            old(self).static_change_ahead(name@) ==> (r matches Err(e) && e@ == static_message(
                position,
                name@,
            )),
            r matches Ok(Statement::Assign(slot, value)) ==> (old(self).update_at(
                old(self).cursor as int,
            ) matches Some(op) ==> (value matches Expr::Binary(o, left, _) && o == op && *left
                == Expr::Variable(slot))),
            r matches Ok(Statement::Assign(_, value)) ==> (old(self).current() == Token::Symbol('=')
                ==> (old(self).update_at(old(self).cursor as int) is None ==> (old(self).integer_statement_end(
                old(self).cursor + 1,
            ) matches Some(v) ==> value == Expr::Integer(v)))),
            (old(self).current() == Token::Symbol('=') && old(self).update_at(old(self).cursor as int) is None
                && old(self).assignable_name(name@) && old(self).integer_statement_end(old(self).cursor + 1)
                is Some) ==> (r matches Ok(Statement::Assign(_, _)) && final(self).current() == Token::Symbol(
                ';',
            )),
            r matches Ok(Statement::Assign(slot, _)) ==> (old(self).current() == Token::Symbol('=')
                ==> exists|i: int|
                first_name_at(old(self).bindings@, name@, i) && slot == old(self).bindings@[i].1.slot
                    && old(self).bindings@[i].1.changeable),
    {
        if self.was_removed(name.as_str()) {
            let message = concat3("variable '", name.as_str(), "' was removed");
            return Err(position.error(message.as_str()));
        }
        if let Some(a) = find_named(&self.symbol_aliases, name.as_str()) {
            if is_symbol(self.peek(), '.') && self.word_at(1, "remove") {
                self.next();
                self.next();
                self.symbol_aliases.remove(a);
                insert_name(&mut self.removed_variables, name.as_str());
                return Ok(Statement::Noop(None));
            } else if is_symbol(self.peek(), '(') {
                let target = match &self.symbol_aliases[a].1 {
                    SymbolAlias::Function(target) => target.clone(),
                    _ => {
                        let message = concat3("symbol alias '", name.as_str(), "' is not callable");
                        return Err(position.error(message.as_str()));
                    },
                };
                return Ok(Statement::Call(self.arguments(target, position)?));
            } else {
                if is_symbol(self.peek(), '.') && (self.word_at(1, "disconect") || self.word_at(
                    1,
                    "disconnect",
                )) {
                    return Err(
                        position.error("function, enum and class aliases cannot be disconnected"),
                    );
                }
                self.symbol('=')?;
                let target = self.alias_target()?;
                let function = match &target {
                    SymbolAlias::Function(target) => Some(target.clone()),
                    _ => None,
                };
                self.set_symbol_alias(name, target);
                return Ok(Statement::Noop(function));
            }
        }
        if is_symbol(self.peek(), '[') {
            let slot = self.writable_variable(name.as_str(), position)?;
            self.next();
            let index = self.expression(0)?;
            self.symbol(']')?;
            self.symbol('=')?;
            let value = self.expression(0)?;
            assert(expr_extent(Expr::Variable(slot)) == slot + 1);
            Ok(Statement::SetIndex(Expr::Variable(slot), index, value))
        } else if is_symbol(self.peek(), '(') {
            Ok(Statement::Call(self.arguments(name, position)?))
        } else if self.take_symbol('.') {
            self.member_statement(name, position)
        } else {
            self.reject_access()?;
            let slot = self.writable_variable(name.as_str(), position)?;
            let equals = self.position();
            self.symbol('=')?;
            let after = self.position();
            let adjacent = after.line == equals.line && after.column > equals.column && after.column
                - equals.column == 1;
            let operator = match self.peek() {
                Token::Symbol(c) => if adjacent {
                    Operator::from_char(*c)
                } else {
                    None
                },
                _ => None,
            };
            let value = if let Some(operator) = operator {
                self.variable(name.as_str(), true, position)?;
                self.next();
                let right = self.expression(0)?;
                assert(expr_extent(Expr::Variable(slot)) == slot + 1);
                Expr::Binary(operator, Box::new(Expr::Variable(slot)), Box::new(right))
            } else {
                self.expression(0)?
            };
            if let Some(i) = find_named(&self.bindings, name.as_str()) {
                let mut binding = self.bindings[i].1;
                binding.initialized = true;
                self.bindings.set(i, (name, binding));
            }
            Ok(Statement::Assign(slot, value))
        }
    }

    /// Reads the rest of `name.member...`: `remove`, `disconnect`, `clamp`,
    /// a method call or a field assignment.
    fn member_statement(&mut self, name: String, position: Position) -> (r: Result<Statement, String>)
        requires
            old(self).wf(),
        ensures
            old(self).moved_on(final(self)),
            r matches Ok(statement) ==> statement_extent(statement) <= final(self).types@.len(),
            old(self).static_binding(name@) && old(self).initialized_binding(name@) && old(
                self,
            ).current() is Word && old(self).current()->Word_0@ == "clamp"@ ==> (r matches Err(e)
                && e@ == static_message(position, name@)),
    {
        let slot = self.variable(name.as_str(), true, position)?;
        proof {
            lemma_clamp_word();
        }
        let member_position = self.position();
        let member = self.name()?;
        if str_eq(member.as_str(), "remove") {
            let object = slot < self.types.len() && match self.types[slot] {
                Some(Type::Class(_)) => true,
                _ => false,
            };
            if self.hook_is("__remove__") && object {
                return Err(position.error("__remove__ cannot remove an object recursively"));
            }
            self.remove_binding(name.as_str());
            insert_name(&mut self.removed_variables, name.as_str());
            Ok(Statement::Remove(slot))
        } else if str_eq(member.as_str(), "disconect") || str_eq(member.as_str(), "disconnect") {
            let alias = match find_named(&self.bindings, name.as_str()) {
                Some(i) => self.bindings[i].1.alias,
                None => false,
            };
            if !alias {
                let message = concat3("variable '", name.as_str(), "' is not an alias");
                return Err(position.error(message.as_str()));
            }
            let old_slot = slot;
            let new_slot = self.types.len();
            self.types.push(None);
            self.declarations.push((name.clone(), position));
            self.set_binding(
                name,
                Binding { slot: new_slot, initialized: true, changeable: true, alias: false },
            );
            Ok(Statement::Disconnect(new_slot, old_slot))
        } else if str_eq(member.as_str(), "clamp") {
            self.writable_variable(name.as_str(), position)?;
            self.symbol('(')?;
            let low = self.expression(0)?;
            self.symbol(',')?;
            let high = self.expression(0)?;
            self.symbol(')')?;
            Ok(Statement::Clamp(slot, low, high))
        } else if self.take_symbol('(') {
            self.writable_variable(name.as_str(), position)?;
            let arguments = self.expression_list(')')?;
            assert(expr_extent(Expr::Variable(slot)) == slot + 1);
            Ok(
                Statement::MethodCall(
                    Expr::MethodCall(
                        Box::new(Expr::Variable(slot)),
                        member,
                        arguments,
                        member_position,
                    ),
                ),
            )
        } else {
            if str_eq(name.as_str(), "self") && self.hook_is("__change__") {
                return Err(position.error("__change__ cannot modify self recursively"));
            }
            self.writable_variable(name.as_str(), position)?;
            self.symbol('=')?;
            let value = self.expression(0)?;
            assert(expr_extent(Expr::Variable(slot)) == slot + 1);
            Ok(Statement::SetField(Expr::Variable(slot), member, value))
        }
    }

    /// Reads `{ statement ... }`.
    fn block(&mut self) -> (r: Result<Vec<Statement>, String>)
        requires
            old(self).wf(),
        ensures
            old(self).moved_on(final(self)),
            r matches Ok(statements) ==> statements_extent(statements@) <= final(self).types@.len(),
            r is Ok ==> final(self).cursor > old(self).cursor,
        decreases old(self).tokens@.len() - old(self).cursor, 0nat,
    {
        self.symbol('{')?;
        let mut statements: Vec<Statement> = Vec::new();
        loop
            invariant
                old(self).moved_on(self),
                old(self).cursor < self.cursor,
                statements_extent(statements@) <= self.types@.len(),
            decreases self.tokens@.len() - self.cursor,
        {
            if self.take_symbol('}') {
                break;
            }
            if is_end(self.peek()) {
                return Err(self.position().error("expected '}' before end of file"));
            }
            let statement = self.statement()?;
            proof {
                lemma_statements_push(statements@, statement);
            }
            statements.push(statement);
        }
        Ok(statements)
    }

    /// Reads a block inside one more loop level.
    fn loop_block(&mut self) -> (r: Result<Vec<Statement>, String>)
        requires
            old(self).wf(),
            old(self).loop_depth < old(self).cursor,
        ensures
            old(self).moved_on(final(self)),
            r matches Ok(statements) ==> statements_extent(statements@) <= final(self).types@.len(),
            r is Ok ==> final(self).cursor > old(self).cursor,
        decreases old(self).tokens@.len() - old(self).cursor, 1nat,
    {
        self.loop_depth = self.loop_depth + 1;
        let result = self.block();
        self.loop_depth = self.loop_depth - 1;
        result
    }

    /// Reads `if`, `while`, `until`, `loop`, `for` or `match`.
    fn control_statement(&mut self) -> (r: Result<Statement, String>)
        requires
            old(self).wf(),
        ensures
            old(self).moved_on(final(self)),
            r matches Ok(statement) ==> statement_extent(statement) <= final(self).types@.len(),
            r is Ok ==> final(self).cursor > old(self).cursor,
        decreases old(self).tokens@.len() - old(self).cursor, 1nat,
    {
        let position = self.position();
        let keyword = match self.next() {
            Token::Word(keyword) => keyword,
            _ => {
                return Err(position.error("expected a control-flow statement"));
            },
        };
        let k = keyword.as_str();
        if str_eq(k, "if") {
            let condition = self.expression(0)?;
            self.word("then")?;
            let yes = self.block()?;
            let no = if self.take_word("else") {
                self.block()?
            } else {
                Vec::new()
            };
            Ok(Statement::If(condition, yes, no))
        } else if str_eq(k, "while") {
            let condition = self.expression(0)?;
            Ok(Statement::While(condition, self.loop_block()?))
        } else if str_eq(k, "until") {
            let condition = self.expression(0)?;
            Ok(Statement::Until(condition, self.loop_block()?))
        } else if str_eq(k, "loop") {
            Ok(Statement::Loop(self.loop_block()?))
        } else if str_eq(k, "for") {
            let name_position = self.position();
            let name = self.name()?;
            self.word("in")?;
            let start = self.expression(0)?;
            self.symbol('.')?;
            self.symbol('.')?;
            let end = self.expression(0)?;
            let slot = self.bind(name, true, false, None, name_position)?;
            Ok(Statement::For(slot, start, end, self.loop_block()?))
        } else if str_eq(k, "match") {
            let value = self.expression(0)?;
            self.symbol('{')?;
            let mut arms: Vec<(Expr, Vec<Statement>)> = Vec::new();
            let mut fallback: Option<Vec<Statement>> = None;
            loop
                invariant
                    old(self).moved_on(self),
                    old(self).cursor < self.cursor,
                    expr_extent(value) <= self.types@.len(),
                    arms_extent(arms@) <= self.types@.len(),
                    fallback matches Some(body) ==> statements_extent(body@) <= self.types@.len(),
                decreases self.tokens@.len() - self.cursor,
            {
                if self.take_symbol('}') {
                    break;
                }
                if is_word(self.peek(), "_") {
                    let fallback_position = self.position();
                    self.next();
                    if fallback.is_some() {
                        return Err(fallback_position.error("match can contain only one '_' branch"));
                    }
                    self.symbol('=')?;
                    self.symbol('>')?;
                    fallback = Some(self.block()?);
                } else {
                    let pattern = self.expression(0)?;
                    self.symbol('=')?;
                    self.symbol('>')?;
                    let body = self.block()?;
                    proof {
                        lemma_arms_push(arms@, (pattern, body));
                    }
                    arms.push((pattern, body));
                }
                self.take_symbol(',');
                if fallback.is_some() && !is_symbol(self.peek(), '}') {
                    return Err(self.position().error("the '_' match branch must be last"));
                }
            }
            if arms.len() == 0 && fallback.is_none() {
                return Err(position.error("match must contain at least one branch"));
            }
            Ok(Statement::Match(value, arms, fallback))
        } else {
            Err(position.error("expected a control-flow statement"))
        }
    }
}


/// Whether two type lists are equal.
fn same_types(a: &Vec<Type>, b: &Vec<Type>) -> (r: bool)
    ensures
        r == (a@ == b@),
{
    if a.len() != b.len() {
        return false;
    }
    let mut i: usize = 0;
    while i < a.len()
        invariant
            a@.len() == b@.len(),
            i <= a.len(),
            forall|j: int| 0 <= j < i ==> a@[j] == b@[j],
        decreases a.len() - i,
    {
        if a[i] != b[i] {
            return false;
        }
        i = i + 1;
    }
    assert(a@ =~= b@);
    true
}

impl Parser {
    /// Reads a function; a method (with `owner`) gets `self` as its first
    /// parameter and the name `Class__method`.
    fn function_owned(&mut self, owner: Option<(String, u32)>) -> (r: Result<Function, String>)
        requires
            old(self).wf(),
        ensures
            old(self).read_on(final(self)),
            r matches Ok(function) ==> slots_declared(function)
                && function.positions@.len() == function.statements@.len(),
            r is Ok ==> final(self).cursor > old(self).cursor,
            final(self).classes == old(self).classes,
            final(self).enums == old(self).enums,
            final(self).traits == old(self).traits,
            final(self).type_aliases == old(self).type_aliases,
            r matches Ok(function) ==> function.owner == match owner {
                Some((_, id)) => Some(id),
                None => None,
            },
            r matches Ok(function) ==> {
                let source = old(self).tokens@[old(self).cursor + 1].0->Word_0@;
                &&& old(self).current() is Word && old(self).current()->Word_0@ == "fun"@
                &&& function.name@ == match owner {
                    Some((class, _)) => class@ + "__"@ + source,
                    None => source,
                }
                &&& function.optional_parameters@.len() == function.parameters
                &&& (owner is None && source == "main"@) ==> function.result is None
                &&& (owner is Some && (source == "__new__"@ || source == "__change__"@ || source
                    == "__remove__"@)) ==> function.result is None && function.parameters == 1
                &&& function.result is None ==> ((owner is None && source == "main"@) || (owner is Some && (
                source == "__new__"@ || source == "__change__"@ || source == "__remove__"@)))
            },
            owner is None && old(self).empty_main_ahead() ==> (r matches Ok(function) && function.name@
                == "main"@ && function.parameters == 0 && function.statements@.len() == 0
                && final(self).cursor == old(self).cursor + 6),
    {
        let ghost empty_main = owner is None && self.empty_main_ahead();
        let ghost body_at = self.cursor + 5;
        proof {
            if empty_main {
                lemma_main_usable();
            }
        }
        self.bindings = Vec::new();
        self.removed_variables = Vec::new();
        self.types = Vec::new();
        self.declarations = Vec::new();
        self.result_name = None;
        self.loop_depth = 0;
        self.lifecycle_hook = None;
        self.symbol_aliases = Vec::new();
        let mut optional_parameters: Vec<bool> = Vec::new();
        let function_position = self.position();
        if let Some((_, id)) = &owner {
            self.bind(owned("self"), true, true, Some(Type::Class(*id)), function_position)?;
            optional_parameters.push(false);
        }
        let ghost fun_at = self.cursor as int;
        self.word("fun")?;
        let source_name = self.name()?;
        if owner.is_some() && is_lifecycle_hook(source_name.as_str()) {
            self.lifecycle_hook = Some(source_name.clone());
        }
        self.symbol('(')?;
        if !self.take_symbol(')') {
            let mut found_optional = false;
            loop
                invariant
                    old(self).read_on(self),
                    old(self).cursor < self.cursor,
                    self.loop_depth == 0,
                    self.classes == old(self).classes,
                    self.enums == old(self).enums,
                    self.traits == old(self).traits,
                    self.type_aliases == old(self).type_aliases,
                    self.bindings@.len() == self.types@.len(),
                    optional_parameters@.len() == self.bindings@.len(),
                    self.tokens@[fun_at + 1].0 == Token::Word(source_name),
                decreases self.tokens@.len() - self.cursor,
            {
                let position = self.position();
                let optional = self.take_symbol('$');
                if found_optional && !optional {
                    return Err(position.error("required parameters cannot follow optional parameters"));
                }
                found_optional = found_optional || optional;
                let parameter = self.name()?;
                self.symbol(':')?;
                let mut ty = self.read_type()?;
                if optional {
                    if !crate::types::wrappable(ty.id()) {
                        return Err(position.error("type nesting exceeds the supported depth"));
                    }
                    ty = Type::Optional(ty.id());
                }
                self.bind(parameter, true, true, Some(ty), position)?;
                optional_parameters.push(optional);
                if self.take_symbol(')') {
                    break;
                }
                self.symbol(',')?;
            }
        }
        let parameters = self.bindings.len();
        let hook = owner.is_some() && is_lifecycle_hook(source_name.as_str());
        let result = if str_eq(source_name.as_str(), "main") && owner.is_none() {
            let mut k: usize = 0;
            while k < parameters && k < self.types.len()
                decreases parameters - k,
            {
                if let Some(ty) = self.types[k] {
                    let inner = match ty {
                        Type::Optional(inner) => match Type::from_id(inner) {
                            Some(inner) => inner,
                            None => ty,
                        },
                        _ => ty,
                    };
                    let unreadable = match inner {
                        Type::Class(_) | Type::List(_) | Type::Enum(_) | Type::NoneType => true,
                        _ => false,
                    };
                    if unreadable {
                        let message = concat3(
                            "main parameter type ",
                            inner.text().as_str(),
                            " cannot be read from the command line",
                        );
                        return Err(self.position().error(message.as_str()));
                    }
                }
                k = k + 1;
            }
            None
        } else if hook {
            if parameters != 1 {
                let message = concat2(source_name.as_str(), " must have no parameters");
                return Err(self.position().error(message.as_str()));
            }
            None
        } else {
            let position = self.position();
            let result_name = self.name()?;
            self.symbol(':')?;
            let ty = self.read_type()?;
            let slot = self.bind(result_name.clone(), ty == Type::NoneType, true, Some(ty), position)?;
            self.result_name = Some(result_name);
            Some(slot)
        };
        self.symbol('{')?;
        let mut statements: Vec<Statement> = Vec::new();
        let mut positions: Vec<Position> = Vec::new();
        if let Some(slot) = result {
            let none_result = slot < self.types.len() && match self.types[slot] {
                Some(Type::NoneType) => true,
                _ => false,
            };
            if none_result {
                proof {
                    lemma_statements_push(statements@, Statement::Assign(slot, Expr::NoneValue));
                }
                statements.push(Statement::Assign(slot, Expr::NoneValue));
                positions.push(function_position);
            }
        }
        let mut returned = false;
        loop
            invariant
                old(self).read_on(self),
                old(self).cursor < self.cursor,
                empty_main ==> self.cursor == body_at && statements@.len() == 0 && !returned
                    && self.result_name is None && result is None,
                self.loop_depth == 0,
                self.classes == old(self).classes,
                self.enums == old(self).enums,
                self.traits == old(self).traits,
                self.type_aliases == old(self).type_aliases,
                parameters <= self.types@.len(),
                result matches Some(slot) ==> slot < self.types@.len(),
                statements_extent(statements@) <= self.types@.len(),
                positions@.len() == statements@.len(),
            decreases self.tokens@.len() - self.cursor,
        {
            if is_symbol(self.peek(), '}') {
                break;
            }
            positions.push(self.position());
            let statement = self.statement()?;
            proof {
                lemma_statements_push(statements@, statement);
            }
            if let Statement::Return = statement {
                returned = true;
            }
            statements.push(statement);
        }
        if !returned {
            if let Some(name) = &self.result_name {
                self.variable(name.as_str(), true, self.position())?;
            }
        }
        self.symbol('}')?;
        let name = match &owner {
            Some((class, _)) => {
                let mut name = concat2(class.as_str(), "__");
                name.append(source_name.as_str());
                name
            },
            None => source_name,
        };
        Ok(Function {
            name,
            parameters,
            optional_parameters,
            result,
            statements,
            positions,
            types: self.types.clone(),
            bindings: self.declarations.clone(),
            position: function_position,
            owner: match owner {
                Some((_, id)) => Some(id),
                None => None,
            },
        })
    }
}


/// The index of the class method named `name`.
fn find_method(methods: &Vec<ClassMethod>, name: &str) -> (r: Option<usize>)
    ensures
        r matches Some(i) ==> i < methods@.len() && methods@[i as int].name@ == name@ && forall|j: int|
            0 <= j < i ==> (#[trigger] methods@[j]).name@ != name@,
        r is None ==> forall|j: int| 0 <= j < methods@.len() ==> (#[trigger] methods@[j]).name@ != name@,
{
    let mut i: usize = 0;
    while i < methods.len()
        invariant
            i <= methods@.len(),
            forall|j: int| 0 <= j < i ==> (#[trigger] methods@[j]).name@ != name@,
        decreases methods.len() - i,
    {
        if str_eq(methods[i].name.as_str(), name) {
            return Some(i);
        }
        i = i + 1;
    }
    None
}

/// The index of the function named `name`.
fn find_function(functions: &Vec<Function>, name: &str) -> (r: Option<usize>)
    ensures
        r matches Some(i) ==> i < functions@.len() && functions@[i as int].name@ == name@ && forall|j: int|
            0 <= j < i ==> (#[trigger] functions@[j]).name@ != name@,
        r is None ==> forall|j: int| 0 <= j < functions@.len() ==> (#[trigger] functions@[j]).name@ != name@,
{
    let mut i: usize = 0;
    while i < functions.len()
        invariant
            i <= functions@.len(),
            forall|j: int| 0 <= j < i ==> (#[trigger] functions@[j]).name@ != name@,
        decreases functions.len() - i,
    {
        if str_eq(functions[i].name.as_str(), name) {
            return Some(i);
        }
        i = i + 1;
    }
    None
}

/// Whether slot `k` of a function has a known type.
pub open spec fn slot_typed(function: Function, k: int) -> bool {
    0 <= k < function.types@.len() && function.types@[k] is Some
}

/// Whether the parameters after `self` and the named result of a function
/// all have known types.
pub open spec fn method_typed(function: Function) -> bool {
    &&& forall|k: int| 1 <= k < function.parameters ==> #[trigger] slot_typed(function, k)
    &&& function.result matches Some(slot) ==> slot < function.types@.len()
        && function.types@[slot as int] is Some
}

/// The names of a list of strings.
pub open spec fn names_of(names: Seq<String>) -> Seq<Seq<char>> {
    names.map_values(|name: String| name@)
}

/// The traits that `A, B, ...` names from token `i` on, after `seen`: each a
/// declared trait, none twice; `None` where the list is malformed.
spec fn trait_list(
    tokens: Seq<PositionedToken>,
    i: int,
    traits: Seq<(String, TraitDefinition)>,
    seen: Seq<Seq<char>>,
) -> Option<Seq<Seq<char>>>
    decreases tokens.len() - i,
{
    if 0 <= i < tokens.len() && tokens[i].0 is Word && usable_name(tokens[i].0->Word_0@) && has_name(
        traits,
        tokens[i].0->Word_0@,
    ) && !seen.contains(tokens[i].0->Word_0@) {
        let now = seen.push(tokens[i].0->Word_0@);
        if i + 1 < tokens.len() && tokens[i + 1].0 == Token::Symbol(',') {
            trait_list(tokens, i + 2, traits, now)
        } else {
            Some(now)
        }
    } else {
        None
    }
}

/// Whether method `m` is the first one named `name`.
spec fn first_method_at(methods: Seq<ClassMethod>, name: Seq<char>, m: int) -> bool {
    &&& 0 <= m < methods.len()
    &&& methods[m].name@ == name
    &&& forall|j: int| 0 <= j < m ==> (#[trigger] methods[j]).name@ != name
}

/// Whether function `f` is the first one named `name`.
spec fn first_function_at(functions: Seq<Function>, name: Seq<char>, f: int) -> bool {
    &&& 0 <= f < functions.len()
    &&& functions[f].name@ == name
    &&& forall|j: int| 0 <= j < f ==> (#[trigger] functions[j]).name@ != name
}

/// Whether a method's function takes the parameters after `self` and gives
/// the result that a trait method requires.
spec fn signature_matches(function: Function, requirement: TraitMethod) -> bool {
    &&& method_typed(function)
    &&& requirement.parameters@.len() == (if function.parameters == 0 {
        0
    } else {
        function.parameters - 1
    })
    &&& forall|k: int|
        0 <= k < requirement.parameters@.len() ==> function.types@[k + 1] == Some(
            #[trigger] requirement.parameters@[k],
        )
    &&& requirement.result == match function.result {
        Some(slot) => function.types@[slot as int]->0,
        None => Type::NoneType,
    }
}

/// Whether a class meets one trait method: its first method of that name is
/// public, and the first function of that method's function name has the
/// required signature.
spec fn requirement_met(
    requirement: TraitMethod,
    methods: Seq<ClassMethod>,
    functions: Seq<Function>,
) -> bool {
    exists|m: int, f: int|
        #![trigger methods[m], functions[f]]
        first_method_at(methods, requirement.name@, m) && methods[m].public && first_function_at(
            functions,
            methods[m].function@,
            f,
        ) && signature_matches(functions[f], requirement)
}

/// Whether a class meets every method of the trait named `name` (a trait
/// that is not declared asks for nothing).
spec fn trait_met(
    traits: Seq<(String, TraitDefinition)>,
    name: Seq<char>,
    methods: Seq<ClassMethod>,
    functions: Seq<Function>,
) -> bool {
    forall|i: int, q: int|
        #![trigger traits[i].1.methods@[q]]
        first_name_at(traits, name, i) && 0 <= q < traits[i].1.methods@.len() ==> requirement_met(
            traits[i].1.methods@[q],
            methods,
            functions,
        )
}

/// Whether a class meets every method of every trait it implements.
spec fn traits_met(
    traits: Seq<(String, TraitDefinition)>,
    implemented: Seq<String>,
    methods: Seq<ClassMethod>,
    functions: Seq<Function>,
) -> bool {
    forall|t: int|
        0 <= t < implemented.len() ==> #[trigger] trait_met(traits, implemented[t]@, methods, functions)
}

/// At most one entry is the first of a name.
proof fn lemma_first_name_unique<T>(entries: Seq<(String, T)>, name: Seq<char>, i: int, j: int)
    requires
        first_name_at(entries, name, i),
        first_name_at(entries, name, j),
    ensures
        i == j,
{
    if i < j {
        assert(entries[i].0@ != name);
    } else if j < i {
        assert(entries[j].0@ != name);
    }
}

/// A trait method that is not met leaves the trait, and so the class's
/// traits, unmet.
proof fn lemma_trait_unmet(
    traits: Seq<(String, TraitDefinition)>,
    implemented: Seq<String>,
    t: int,
    d: int,
    q: int,
    methods: Seq<ClassMethod>,
    functions: Seq<Function>,
)
    requires
        0 <= t < implemented.len(),
        first_name_at(traits, implemented[t]@, d),
        0 <= q < traits[d].1.methods@.len(),
        !requirement_met(traits[d].1.methods@[q], methods, functions),
    ensures
        !traits_met(traits, implemented, methods, functions),
{
    assert(!trait_met(traits, implemented[t]@, methods, functions));
}

/// The parameter types of a method after `self`, and its result type
/// (`None` without a named result); `None` when a slot has no type.
fn method_signature(function: &Function) -> (r: Option<(Vec<Type>, Type)>)
    ensures
        r is Some <==> method_typed(*function),
        r matches Some((parameters, result)) ==> {
            &&& function.parameters == 0 ==> parameters@.len() == 0
            &&& function.parameters > 0 ==> parameters@.len() + 1 == function.parameters
            &&& forall|k: int| 0 <= k < parameters@.len() ==> Some(#[trigger] parameters@[k])
                == function.types@[k + 1]
            &&& result == match function.result {
                Some(slot) => function.types@[slot as int]->0,
                None => Type::NoneType,
            }
        },
{
    let mut parameters: Vec<Type> = Vec::new();
    let mut k: usize = 1;
    while k < function.parameters
        invariant
            1 <= k,
            k <= function.parameters || k == 1,
            parameters@.len() == k - 1,
            forall|j: int| 1 <= j < k ==> #[trigger] slot_typed(*function, j),
            forall|j: int| 0 <= j < parameters@.len() ==> Some(#[trigger] parameters@[j])
                == function.types@[j + 1],
        decreases function.parameters - k,
    {
        if k >= function.types.len() {
            assert(!slot_typed(*function, k as int));
            return None;
        }
        match function.types[k] {
            Some(ty) => parameters.push(ty),
            None => {
                assert(!slot_typed(*function, k as int));
                return None;
            },
        }
        assert(slot_typed(*function, k as int));
        k = k + 1;
    }
    let result = match function.result {
        Some(slot) => {
            if slot >= function.types.len() {
                return None;
            }
            match function.types[slot] {
                Some(ty) => ty,
                None => {
                    return None;
                },
            }
        },
        None => Type::NoneType,
    };
    Some((parameters, result))
}

impl Parser {
    /// Reads `enum Name { A, B, ... }`; variants are numbered from 0 in order.
    fn enum_declaration(&mut self) -> (r: Result<String, String>)
        requires
            old(self).wf(),
        ensures
            final(self).classes == old(self).classes,
            old(self).read_on(final(self)),
            final(self).loop_depth == old(self).loop_depth,
            r is Ok ==> final(self).cursor > old(self).cursor,
            r is Ok <==> old(self).enum_ahead() is Some,
            r matches Ok(name) ==> (old(self).enum_ahead() matches Some((variant_names, end)) && {
                &&& name@ == old(self).tokens@[old(self).cursor + 1].0->Word_0@
                &&& final(self).enums@.len() == old(self).enums@.len() + 1
                &&& final(self).enums@.drop_last() == old(self).enums@
                &&& final(self).enums@.last().0 == name
                &&& final(self).enums@.last().1.ty == Type::Enum(old(self).enums@.len() as u32)
                &&& variant_views(final(self).enums@.last().1.variants@) == variant_names
                &&& forall|k: int|
                    0 <= k < variant_names.len() ==> (#[trigger] final(self).enums@.last().1.variants@[k]).1
                        == k as u32
                &&& final(self).cursor == end
            }),
    {
        self.word("enum")?;
        let position = self.position();
        let name = self.name()?;
        if self.has_enum(name.as_str()) {
            let message = concat3("enum '", name.as_str(), "' is already declared");
            return Err(position.error(message.as_str()));
        }
        if self.has_type_alias(name.as_str()) {
            let message = concat3("'", name.as_str(), "' is already declared as a type alias");
            return Err(position.error(message.as_str()));
        }
        if self.has_trait(name.as_str()) {
            let message = concat3("'", name.as_str(), "' is already declared as a trait");
            return Err(position.error(message.as_str()));
        }
        self.symbol('{')?;
        let mut variants: Vec<(String, u32)> = Vec::new();
        if is_symbol(self.peek(), '}') {
            return Err(self.position().error("enum must declare at least one variant"));
        }
        let ghost start = self.cursor as int;
        assert(variant_views(variants@) =~= seq![]);
        loop
            invariant
                old(self).moved_on(self),
                old(self).cursor < self.cursor,
                old(self).cursor + 3 == start,
                variant_list(self.tokens@, start, seq![]) == variant_list(
                    self.tokens@,
                    self.cursor as int,
                    variant_views(variants@),
                ),
                forall|k: int| 0 <= k < variants@.len() ==> (#[trigger] variants@[k]).1 == k as u32,
            decreases self.tokens@.len() - self.cursor,
        {
            let ghost at = self.cursor as int;
            let ghost seen = variant_views(variants@);
            let variant_position = self.position();
            let variant = self.name()?;
            let value = variants.len() as u32;
            if find_named(&variants, variant.as_str()).is_some() {
                proof {
                    let k = choose|k: int| 0 <= k < variants@.len() && (#[trigger] variants@[k]).0@
                        == variant@;
                    assert(seen[k] == variant@);
                }
                let message = concat3("enum variant '", variant.as_str(), "' is already declared");
                return Err(variant_position.error(message.as_str()));
            }
            proof {
                assert(!seen.contains(variant@)) by {
                    if seen.contains(variant@) {
                        let k = choose|k: int| 0 <= k < seen.len() && seen[k] == variant@;
                        assert(variants@[k].0@ == variant@);
                    }
                }
            }
            variants.push((variant, value));
            assert(variant_views(variants@) =~= seen.push(self.tokens@[at].0->Word_0@));
            if self.take_symbol('}') {
                break;
            }
            self.symbol(',')?;
            if self.take_symbol('}') {
                break;
            }
        }
        let id = self.enums.len() as u32;
        let ghost before = self.enums@;
        self.enums.push((name.clone(), EnumDefinition { ty: Type::Enum(id), variants }));
        assert(self.enums@.drop_last() =~= before);
        Ok(name)
    }

    /// Reads one required method `fun name(parameters) result: Type;` of a
    /// trait.
    #[verifier::spinoff_prover]
    fn trait_method(&mut self) -> (r: Result<TraitMethod, String>)
        requires
            old(self).wf(),
        ensures
            old(self).moved_on(final(self)),
            final(self).scope() == old(self).scope(),
            r is Ok ==> final(self).cursor > old(self).cursor,
            r is Ok <==> method_at(old(self).scope(), old(self).cursor as int) is Some,
            r matches Ok(method) ==> method_at(old(self).scope(), old(self).cursor as int) == Some(
                (method.name@, method.parameters@, method.result, final(self).cursor as int),
            ),
    {
        let ghost at = self.cursor as int;
        let method_position = self.position();
        self.word("fun")?;
        let method_name = self.name()?;
        if is_lifecycle_hook(method_name.as_str()) {
            return Err(method_position.error("lifecycle hooks cannot be trait requirements"));
        }
        self.symbol('(')?;
        let parameters = self.trait_parameters()?;
        self.name()?;
        self.symbol(':')?;
        let result = self.read_type()?;
        self.symbol(';')?;
        Ok(TraitMethod { name: method_name, parameters, result })
    }

    /// Reads the parameter types of a required method after its `(`, up to
    /// and with the `)`.
    #[verifier::spinoff_prover]
    fn trait_parameters(&mut self) -> (r: Result<Vec<Type>, String>)
        requires
            old(self).wf(),
        ensures
            old(self).moved_on(final(self)),
            final(self).scope() == old(self).scope(),
            r is Ok <==> parameters_ahead(old(self).scope(), old(self).cursor as int) is Some,
            r matches Ok(parameters) ==> parameters_ahead(old(self).scope(), old(self).cursor as int)
                == Some((parameters@, final(self).cursor as int)),
    {
        let ghost params_start = self.cursor as int;
        let mut parameters: Vec<Type> = Vec::new();
        if !self.take_symbol(')') {
            loop
                invariant
                    old(self).moved_on(self),
                    old(self).cursor <= self.cursor,
                    params_start == old(self).cursor,
                    self.scope() == old(self).scope(),
                    parameter_list(self.scope(), params_start, seq![]) == parameter_list(
                        self.scope(),
                        self.cursor as int,
                        parameters@,
                    ),
                decreases self.tokens@.len() - self.cursor,
            {
                let optional = self.take_symbol('$');
                self.name()?;
                self.symbol(':')?;
                let mut ty = self.read_type()?;
                if optional {
                    ty = Type::Optional(ty.id());
                }
                parameters.push(ty);
                if self.take_symbol(')') {
                    break;
                }
                self.symbol(',')?;
            }
        }
        Ok(parameters)
    }

    /// Reads `trait Name { fun method(parameters) result: Type; ... }`.
    fn trait_declaration(&mut self) -> (r: Result<String, String>)
        requires
            old(self).wf(),
        ensures
            final(self).classes == old(self).classes,
            old(self).read_on(final(self)),
            final(self).loop_depth == old(self).loop_depth,
            r is Ok ==> final(self).cursor > old(self).cursor,
            r is Ok <==> old(self).trait_ahead() is Some,
            r matches Ok(name) ==> (old(self).trait_ahead() matches Some((required, end)) && {
                &&& name@ == old(self).tokens@[old(self).cursor + 1].0->Word_0@
                &&& final(self).traits@.len() == old(self).traits@.len() + 1
                &&& final(self).traits@.drop_last() == old(self).traits@
                &&& final(self).traits@.last().0 == name
                &&& method_views(final(self).traits@.last().1.methods@) == required
                &&& final(self).cursor == end
            }),
    {
        self.word("trait")?;
        let position = self.position();
        let name = self.name()?;
        if self.has_trait(name.as_str()) || self.has_class(name.as_str()) || self.has_enum(
            name.as_str(),
        ) || self.has_type_alias(name.as_str()) {
            let message = concat3("type name '", name.as_str(), "' is already declared");
            return Err(position.error(message.as_str()));
        }
        self.symbol('{')?;
        let mut methods: Vec<TraitMethod> = Vec::new();
        let ghost list_start = self.cursor as int;
        assert(method_views(methods@) =~= seq![]);
        loop
            invariant
                old(self).moved_on(self),
                old(self).cursor < self.cursor,
                list_start == old(self).cursor + 3,
                self.scope() == old(self).scope(),
                method_list(self.scope(), list_start, seq![]) == method_list(
                    self.scope(),
                    self.cursor as int,
                    method_views(methods@),
                ),
            decreases self.tokens@.len() - self.cursor,
        {
            let ghost at = self.cursor as int;
            let ghost seen = method_views(methods@);
            if self.take_symbol('}') {
                break;
            }
            let method_position = self.position();
            let ghost method_start = self.cursor;
            let method = self.trait_method()?;
            let method_name = method.name;
            let parameters = method.parameters;
            let result = method.result;
            assert(method_at(self.scope(), at) == Some((method_name@, parameters@, result, self.cursor as int)));
            let mut m: usize = 0;
            while m < methods.len()
                invariant
                    old(self).moved_on(self),
                    method_start < self.cursor,
                    m <= methods@.len(),
                    forall|j: int| 0 <= j < m ==> (#[trigger] methods@[j]).name@ != method_name@,
                decreases methods.len() - m,
            {
                if str_eq(methods[m].name.as_str(), method_name.as_str()) {
                    assert(seen[m as int].0 == method_name@);
                    let message = concat3(
                        "trait method '",
                        method_name.as_str(),
                        "' is declared twice",
                    );
                    return Err(method_position.error(message.as_str()));
                }
                m = m + 1;
            }
            proof {
                assert(!(exists|j: int| 0 <= j < seen.len() && (#[trigger] seen[j]).0 == method_name@)) by {
                    if exists|j: int| 0 <= j < seen.len() && (#[trigger] seen[j]).0 == method_name@ {
                        let j = choose|j: int| 0 <= j < seen.len() && (#[trigger] seen[j]).0 == method_name@;
                        assert(methods@[j].name@ == method_name@);
                    }
                }
            }
            let ghost method_name_view = method_name@;
            let ghost parameters_view = parameters@;
            methods.push(TraitMethod { name: method_name, parameters, result });
            assert(method_views(methods@) =~= seen.push((method_name_view, parameters_view, result)));
        }
        if methods.len() == 0 {
            return Err(position.error("trait must require at least one method"));
        }
        let ghost before = self.traits@;
        self.traits.push((name.clone(), TraitDefinition { methods }));
        assert(self.traits@.drop_last() =~= before);
        Ok(name)
    }

    /// Reads the field list `(pub name: Type, &name: Type, ...)` of a class.
    fn class_fields(&mut self) -> (r: Result<Vec<ClassField>, String>)
        requires
            old(self).wf(),
        ensures
            old(self).moved_on(final(self)),
            final(self).scope() == old(self).scope(),
            r is Ok <==> fields_ahead(old(self).scope(), old(self).cursor as int) is Some,
            r matches Ok(fields) ==> fields_ahead(old(self).scope(), old(self).cursor as int) == Some(
                (field_views(fields@), final(self).cursor as int),
            ),
    {
        self.symbol('(')?;
        let mut fields: Vec<ClassField> = Vec::new();
        assert(field_views(fields@) =~= seq![]);
        if self.take_symbol(')') {
            return Ok(fields);
        }
        let ghost list_start = self.cursor as int;
        loop
            invariant
                old(self).moved_on(self),
                list_start == old(self).cursor + 1,
                self.scope() == old(self).scope(),
                field_list(self.scope(), list_start, seq![]) == field_list(
                    self.scope(),
                    self.cursor as int,
                    field_views(fields@),
                ),
            decreases self.tokens@.len() - self.cursor,
        {
            let ghost at = self.cursor as int;
            let ghost seen = field_views(fields@);
            let field_position = self.field_position();
            let field = self.class_field()?;
            let mut f: usize = 0;
            while f < fields.len()
                invariant
                    f <= fields@.len(),
                    forall|j: int| 0 <= j < f ==> (#[trigger] fields@[j]).name@ != field.name@,
                decreases fields.len() - f,
            {
                if str_eq(fields[f].name.as_str(), field.name.as_str()) {
                    assert(seen[f as int].0 == field.name@);
                    let message = concat3("field '", field.name.as_str(), "' is already declared");
                    return Err(field_position.error(message.as_str()));
                }
                f = f + 1;
            }
            proof {
                assert(!(exists|j: int| 0 <= j < seen.len() && (#[trigger] seen[j]).0 == field.name@)) by {
                    if exists|j: int| 0 <= j < seen.len() && (#[trigger] seen[j]).0 == field.name@ {
                        let j = choose|j: int| 0 <= j < seen.len() && (#[trigger] seen[j]).0 == field.name@;
                        assert(fields@[j].name@ == field.name@);
                    }
                }
            }
            let ghost view = (field.name@, field.ty, field.public);
            fields.push(field);
            assert(field_views(fields@) =~= seen.push(view));
            if self.take_symbol(')') {
                break;
            }
            self.symbol(',')?;
            if self.take_symbol(')') {
                break;
            }
        }
        Ok(fields)
    }

    /// The position of the name of the field at the cursor (after `pub`).
    fn field_position(&self) -> (r: Position)
        requires
            self.wf(),
    {
        if is_word(self.peek(), "pub") && self.cursor < self.tokens.len() - 1 {
            self.tokens[self.cursor + 1].1
        } else {
            self.position()
        }
    }

    /// Reads one field `[pub] [&]name: Type` of a class.
    #[verifier::spinoff_prover]
    fn class_field(&mut self) -> (r: Result<ClassField, String>)
        requires
            old(self).wf(),
        ensures
            old(self).moved_on(final(self)),
            final(self).scope() == old(self).scope(),
            r is Ok ==> final(self).cursor > old(self).cursor,
            r is Ok <==> field_at(old(self).scope(), old(self).cursor as int) is Some,
            r matches Ok(field) ==> field_at(old(self).scope(), old(self).cursor as int) == Some(
                (field.name@, field.ty, field.public, final(self).cursor as int),
            ),
    {
        let public = self.take_word("pub");
        let field_position = self.position();
        let optional = self.take_symbol('&');
        let field = self.name()?;
        self.symbol(':')?;
        let mut ty = self.read_type()?;
        let class_typed = match ty {
            Type::Class(_) => true,
            _ => false,
        };
        if class_typed && !optional {
            return Err(
                field_position.error(
                    "class-typed fields are not supported yet because class copies must be independent",
                ),
            );
        }
        if optional {
            if !crate::types::wrappable(ty.id()) {
                return Err(field_position.error("type nesting exceeds the supported depth"));
            }
            ty = Type::Optional(ty.id());
        }
        Ok(ClassField { name: field, ty, public })
    }

    /// Reads `implements A, B` after a class's fields, if it is there.
    fn implemented_traits(&mut self) -> (r: Result<Vec<String>, String>)
        requires
            old(self).wf(),
        ensures
            old(self).moved_on(final(self)),
            r is Ok <==> (!(old(self).current() is Word && old(self).current()->Word_0@
                == "implements"@) || trait_list(
                old(self).tokens@,
                old(self).cursor + 1,
                old(self).traits@,
                seq![],
            ) is Some),
            r matches Ok(names) ==> names_of(names@) == if old(self).current() is Word
                && old(self).current()->Word_0@ == "implements"@ {
                trait_list(old(self).tokens@, old(self).cursor + 1, old(self).traits@, seq![])->0
            } else {
                seq![]
            },
    {
        let mut implemented: Vec<String> = Vec::new();
        if !self.take_word("implements") {
            assert(names_of(implemented@) =~= seq![]);
            return Ok(implemented);
        }
        assert(names_of(implemented@) =~= seq![]);
        loop
            invariant
                old(self).moved_on(self),
                old(self).current() is Word && old(self).current()->Word_0@ == "implements"@,
                trait_list(old(self).tokens@, old(self).cursor + 1, old(self).traits@, seq![])
                    == trait_list(self.tokens@, self.cursor as int, self.traits@, names_of(implemented@)),
            decreases self.tokens@.len() - self.cursor,
        {
            let ghost seen = names_of(implemented@);
            let ghost at = self.cursor as int;
            let trait_position = self.position();
            let trait_name = self.name()?;
            if !self.has_trait(trait_name.as_str()) {
                let message = concat3("trait '", trait_name.as_str(), "' is not declared");
                return Err(trait_position.error(message.as_str()));
            }
            if contains_name(&implemented, trait_name.as_str()) {
                proof {
                    let k = choose|k: int| 0 <= k < implemented@.len() && implemented@[k]@ == trait_name@;
                    assert(seen[k] == trait_name@);
                }
                let message = concat3("trait '", trait_name.as_str(), "' is implemented twice");
                return Err(trait_position.error(message.as_str()));
            }
            proof {
                assert(!seen.contains(trait_name@)) by {
                    if seen.contains(trait_name@) {
                        let k = choose|k: int| 0 <= k < seen.len() && seen[k] == trait_name@;
                        assert(implemented@[k]@ == trait_name@);
                    }
                }
            }
            implemented.push(trait_name);
            assert(names_of(implemented@) =~= seen.push(self.tokens@[at].0->Word_0@));
            if !self.take_symbol(',') {
                break;
            }
        }
        Ok(implemented)
    }

    /// Checks that a class has, publicly and with the required signature,
    /// every method of each trait it implements.
    fn check_trait_methods(
        &self,
        name: &str,
        position: Position,
        implemented: &Vec<String>,
        methods: &Vec<ClassMethod>,
        functions: &Vec<Function>,
    ) -> (r: Result<(), String>)
        ensures
            r is Ok <==> traits_met(self.traits@, implemented@, methods@, functions@),
    {
        let mut t: usize = 0;
        while t < implemented.len()
            invariant
                t <= implemented@.len(),
                forall|u: int| 0 <= u < t ==> #[trigger] trait_met(
                    self.traits@,
                    implemented@[u]@,
                    methods@,
                    functions@,
                ),
            decreases implemented.len() - t,
        {
            let trait_name = implemented[t].as_str();
            if let Some(d) = find_named(&self.traits, trait_name) {
                let requirements = &self.traits[d].1.methods;
                let mut q: usize = 0;
                while q < requirements.len()
                    invariant
                        t < implemented@.len(),
                        first_name_at(self.traits@, implemented@[t as int]@, d as int),
                        requirements == self.traits@[d as int].1.methods,
                        q <= requirements@.len(),
                        forall|u: int| 0 <= u < t ==> #[trigger] trait_met(
                            self.traits@,
                            implemented@[u]@,
                            methods@,
                            functions@,
                        ),
                        forall|p: int| 0 <= p < q ==> requirement_met(
                            #[trigger] requirements@[p],
                            methods@,
                            functions@,
                        ),
                    decreases requirements.len() - q,
                {
                    let requirement = &requirements[q];
                    let method = match find_method(methods, requirement.name.as_str()) {
                        Some(m) => &methods[m],
                        None => {
                            proof {
                                lemma_trait_unmet(
                                    self.traits@,
                                    implemented@,
                                    t as int,
                                    d as int,
                                    q as int,
                                    methods@,
                                    functions@,
                                );
                            }
                            let mut message = concat3("class '", name, "' implements '");
                            message.append(trait_name);
                            message.append("' but is missing method '");
                            message.append(requirement.name.as_str());
                            message.append("'");
                            return Err(position.error(message.as_str()));
                        },
                    };
                    let ghost m = choose|m: int| first_method_at(methods@, requirement.name@, m)
                        && methods@[m] == *method;
                    if !method.public {
                        proof {
                            lemma_trait_unmet(
                                self.traits@,
                                implemented@,
                                t as int,
                                d as int,
                                q as int,
                                methods@,
                                functions@,
                            );
                        }
                        let mut message = concat3("trait method '", trait_name, ".");
                        message.append(requirement.name.as_str());
                        message.append("' must be public");
                        return Err(position.error(message.as_str()));
                    }
                    let matches = match find_function(functions, method.function.as_str()) {
                        Some(f) => match method_signature(&functions[f]) {
                            Some((parameters, result)) => {
                                let same = same_types(&parameters, &requirement.parameters);
                                proof {
                                    if same && result == requirement.result {
                                        assert(signature_matches(functions@[f as int], *requirement));
                                        assert(first_function_at(functions@, method.function@, f as int));
                                    } else {
                                        assert(!signature_matches(functions@[f as int], *requirement)) by {
                                            if signature_matches(functions@[f as int], *requirement) {
                                                assert(parameters@ =~= requirement.parameters@);
                                            }
                                        }
                                    }
                                }
                                same && result == requirement.result
                            },
                            None => false,
                        },
                        None => false,
                    };
                    if !matches {
                        proof {
                            lemma_trait_unmet(
                                self.traits@,
                                implemented@,
                                t as int,
                                d as int,
                                q as int,
                                methods@,
                                functions@,
                            );
                        }
                        let mut message = concat3("method '", trait_name, ".");
                        message.append(requirement.name.as_str());
                        message.append("' does not match the required signature");
                        return Err(position.error(message.as_str()));
                    }
                    q = q + 1;
                }
                proof {
                    assert forall|i: int|
                        first_name_at(self.traits@, implemented@[t as int]@, i) implies i == d by {
                        lemma_first_name_unique(self.traits@, implemented@[t as int]@, i, d as int);
                    }
                    assert(trait_met(self.traits@, implemented@[t as int]@, methods@, functions@));
                }
            } else {
                assert(trait_met(self.traits@, implemented@[t as int]@, methods@, functions@));
            }
            t = t + 1;
        }
        Ok(())
    }

    /// Reads a class: its fields, implemented traits and methods. The class
    /// is numbered in declaration order and must declare `fun __new__()`.
    fn class_declaration(&mut self) -> (r: Result<Vec<Function>, String>)
        requires
            old(self).wf(),
        ensures
            old(self).read_on(final(self)),
            r matches Ok(functions) ==> all_slots_declared(functions@),
            r is Ok ==> final(self).cursor > old(self).cursor,
            r matches Ok(functions) ==> {
                let id = old(self).classes@.len();
                let name = old(self).tokens@[old(self).cursor + 1].0->Word_0@;
                let class = final(self).classes@[id as int];
                &&& final(self).classes@.len() == id + 1
                &&& final(self).classes@.subrange(0, id as int) == old(self).classes@
                &&& class.id == id as u32 && class.name@ == name
                &&& final(self).traits == old(self).traits
                &&& class.methods@.len() == functions@.len()
                &&& forall|k: int| 0 <= k < functions@.len() ==> {
                    &&& (#[trigger] functions@[k]).owner == Some(id as u32)
                    &&& functions@[k].name@ == name + "__"@ + class.methods@[k].name@
                    &&& class.methods@[k].function == functions@[k].name
                }
                &&& exists|k: int| 0 <= k < class.methods@.len() && (#[trigger] class.methods@[k]).name@
                    == "__new__"@
                &&& forall|k: int| 0 <= k < class.methods@.len() ==> ((#[trigger] class.methods@[k]).name@
                    == "__new__"@ || class.methods@[k].name@ == "__change__"@ || class.methods@[k].name@
                    == "__remove__"@) ==> !class.methods@[k].public && functions@[k].parameters == 1
                &&& traits_met(final(self).traits@, class.traits@, class.methods@, functions@)
            },
    {
        let ghost start = self.cursor as int;
        self.word("class")?;
        let position = self.position();
        let name = self.name()?;
        if self.has_class(name.as_str()) {
            let message = concat3("class '", name.as_str(), "' is already declared");
            return Err(position.error(message.as_str()));
        }
        if self.has_enum(name.as_str()) {
            let message = concat3("'", name.as_str(), "' is already declared as an enum");
            return Err(position.error(message.as_str()));
        }
        if self.has_type_alias(name.as_str()) {
            let message = concat3("'", name.as_str(), "' is already declared as a type alias");
            return Err(position.error(message.as_str()));
        }
        if self.has_trait(name.as_str()) {
            let message = concat3("'", name.as_str(), "' is already declared as a trait");
            return Err(position.error(message.as_str()));
        }
        let index = self.classes.len();
        let id = index as u32;
        self.classes.push(
            ClassDefinition {
                id,
                name: name.clone(),
                fields: Vec::new(),
                methods: Vec::new(),
                traits: Vec::new(),
            },
        );
        let fields = self.class_fields()?;
        let implemented = self.implemented_traits()?;
        let ghost pushed = self.classes@;
        let mut definition = self.classes.remove(index);
        definition.fields = fields;
        definition.traits = implemented.clone();
        self.classes.insert(index, definition);
        assert(self.classes@ =~= pushed.update(index as int, definition));
        self.symbol('{')?;
        let mut functions: Vec<Function> = Vec::new();
        let mut methods: Vec<ClassMethod> = Vec::new();
        let mut has_constructor = false;
        loop
            invariant
                old(self).read_on(self),
                old(self).cursor < self.cursor,
                index < self.classes@.len(),
                all_slots_declared(functions@),
                index == old(self).classes@.len(),
                id == index as u32,
                self.classes@.len() == index + 1,
                self.classes@.subrange(0, index as int) == old(self).classes@,
                self.classes@[index as int].id == id,
                self.classes@[index as int].name@ == name@,
                self.classes@[index as int].traits@ == implemented@,
                self.traits == old(self).traits,
                name@ == old(self).tokens@[old(self).cursor + 1].0->Word_0@,
                methods@.len() == functions@.len(),
                forall|k: int| 0 <= k < functions@.len() ==> {
                    &&& (#[trigger] functions@[k]).owner == Some(id)
                    &&& functions@[k].name@ == name@ + "__"@ + methods@[k].name@
                    &&& methods@[k].function == functions@[k].name
                },
                has_constructor ==> exists|k: int| 0 <= k < methods@.len() && (#[trigger] methods@[k]).name@
                    == "__new__"@,
                forall|k: int| 0 <= k < methods@.len() ==> ((#[trigger] methods@[k]).name@ == "__new__"@
                    || methods@[k].name@ == "__change__"@ || methods@[k].name@ == "__remove__"@)
                    ==> !methods@[k].public && functions@[k].parameters == 1,
            decreases self.tokens@.len() - self.cursor,
        {
            if is_symbol(self.peek(), '}') {
                break;
            }
            let public = self.take_word("pub");
            if !is_word(self.peek(), "fun") {
                return Err(self.position().error("expected a class method"));
            }
            let method_name = match self.token_at(1) {
                Some(Token::Word(value)) => value.clone(),
                _ => {
                    return Err(self.position().error("expected a method name"));
                },
            };
            if find_method(&methods, method_name.as_str()).is_some() {
                let message = concat3("method '", method_name.as_str(), "' is already declared");
                return Err(self.position().error(message.as_str()));
            }
            if is_lifecycle_hook(method_name.as_str()) && public {
                let message = concat2(method_name.as_str(), " cannot be public");
                return Err(self.position().error(message.as_str()));
            }
            if str_eq(method_name.as_str(), "__new__") {
                has_constructor = true;
            }
            let ghost at = self.cursor as int;
            let function = self.function_owned(Some((name.clone(), id)))?;
            assert(method_name@ == self.tokens@[at + 1].0->Word_0@);
            let ghost before_methods = methods@;
            let ghost before_functions = functions@;
            methods.push(
                ClassMethod { name: method_name, function: function.name.clone(), public },
            );
            functions.push(function);
            proof {
                if has_constructor {
                    if methods@.last().name@ == "__new__"@ {
                        assert(methods@[methods@.len() - 1].name@ == "__new__"@);
                    } else {
                        let k = choose|k: int| 0 <= k < before_methods.len() && (#[trigger] before_methods[k]).name@
                            == "__new__"@;
                        assert(methods@[k] == before_methods[k]);
                    }
                }
            }
            assert forall|k: int| 0 <= k < methods@.len() && ((#[trigger] methods@[k]).name@ == "__new__"@
                || methods@[k].name@ == "__change__"@ || methods@[k].name@ == "__remove__"@) implies
                !methods@[k].public && functions@[k].parameters == 1 by {
                if k < before_methods.len() {
                    assert(methods@[k] == before_methods[k]);
                    assert(functions@[k] == before_functions[k]);
                }
            }
        }
        self.symbol('}')?;
        if !has_constructor {
            let message = concat3("class '", name.as_str(), "' must declare fun __new__()");
            return Err(position.error(message.as_str()));
        }
        self.check_trait_methods(name.as_str(), position, &implemented, &methods, &functions)?;
        let ghost filled = self.classes@;
        let mut definition = self.classes.remove(index);
        definition.methods = methods;
        self.classes.insert(index, definition);
        assert(self.classes@ =~= filled.update(index as int, definition));
        assert(self.classes@.subrange(0, index as int) =~= filled.subrange(0, index as int));
        Ok(functions)
    }
}


/// The number of required and of all parameters of each function, by name.
type Signatures = Vec<(String, (usize, usize))>;

/// Whether one of `functions` is named `name`.
pub open spec fn declares(functions: Seq<Function>, name: Seq<char>) -> bool {
    exists|i: int| 0 <= i < functions.len() && (#[trigger] functions[i]).name@ == name
}

/// How many flags are set.
pub open spec fn set_count(flags: Seq<bool>) -> nat
    decreases flags.len(),
{
    if flags.len() == 0 {
        0
    } else {
        set_count(flags.drop_last()) + if flags.last() { 1nat } else { 0nat }
    }
}

/// The `(required, total)` parameter counts of a function: all parameters
/// less the optional ones, and all parameters.
pub open spec fn signature_counts(function: Function) -> (usize, usize) {
    (
        if set_count(function.optional_parameters@) <= function.parameters {
            (function.parameters - set_count(function.optional_parameters@)) as usize
        } else {
            0
        },
        function.parameters,
    )
}

/// The `(required, total)` parameter counts of a function: optional
/// parameters may be left out of a call.
fn signature(function: &Function) -> (r: (usize, usize))
    ensures
        r == signature_counts(*function),
{
    let mut optional: usize = 0;
    let mut i: usize = 0;
    while i < function.optional_parameters.len()
        invariant
            optional <= i,
            i <= function.optional_parameters@.len(),
            optional == set_count(function.optional_parameters@.subrange(0, i as int)),
        decreases function.optional_parameters.len() - i,
    {
        assert(function.optional_parameters@.subrange(0, i + 1).drop_last()
            =~= function.optional_parameters@.subrange(0, i as int));
        if function.optional_parameters[i] {
            optional = optional + 1;
        }
        i = i + 1;
    }
    assert(function.optional_parameters@.subrange(0, i as int) =~= function.optional_parameters@);
    let required = if optional <= function.parameters {
        function.parameters - optional
    } else {
        0
    };
    (required, function.parameters)
}

/// Checks that a call names a declared function other than `main` with a
/// number of arguments that it accepts, and the calls in its arguments.
fn validate_call(call: &Call, signatures: &Signatures) -> (r: Result<(), String>)
    ensures
        r is Ok <==> call_valid(*call, signatures@),
    decreases call,
{
    let (required, total) = match find_named(signatures, call.name.as_str()) {
        Some(i) => {
            proof {
                let k = choose|k: int| first_name_at(signatures@, call.name@, k);
                lemma_first_name_unique(signatures@, call.name@, k, i as int);
            }
            signatures[i].1
        },
        None => {
            let message = concat3("function '", call.name.as_str(), "' is not declared");
            return Err(call.position.error(message.as_str()));
        },
    };
    proof {
        reveal_strlit("main");
    }
    if str_eq(call.name.as_str(), "main") {
        return Err(call.position.error("main cannot be called as a function"));
    }
    let count = call.arguments.len();
    if count < required || count > total {
        let expected = if required == total {
            crate::text::usize_text(required)
        } else {
            let mut text = crate::text::usize_text(required);
            text.append("..=");
            text.append(crate::text::usize_text(total).as_str());
            text
        };
        let mut message = concat3("function '", call.name.as_str(), "' expects ");
        message.append(expected.as_str());
        message.append(" arguments, found ");
        message.append(crate::text::usize_text(count).as_str());
        return Err(call.position.error(message.as_str()));
    }
    assert(call_fits(*call, signatures@));
    let mut i: usize = 0;
    while i < call.arguments.len()
        invariant
            i <= call.arguments@.len(),
            call_fits(*call, signatures@),
            forall|j: int| 0 <= j < i ==> expr_valid(#[trigger] call.arguments@[j], signatures@),
        decreases call.arguments.len() - i,
    {
        let checked = validate_expr(&call.arguments[i], signatures);
        if checked.is_err() {
            return checked;
        }
        i = i + 1;
    }
    Ok(())
}

/// Checks the calls inside an expression (see `validate_call`).
fn validate_expr(expr: &Expr, signatures: &Signatures) -> (r: Result<(), String>)
    ensures
        r is Ok <==> expr_valid(*expr, signatures@),
    decreases expr,
{
    match expr {
        Expr::Call(call) => validate_call(call, signatures),
        Expr::Binary(_, left, right) => {
            validate_expr(left, signatures)?;
            validate_expr(right, signatures)
        },
        Expr::Compare(_, left, right) => {
            validate_expr(left, signatures)?;
            validate_expr(right, signatures)
        },
        Expr::Logical(_, left, right) => {
            validate_expr(left, signatures)?;
            validate_expr(right, signatures)
        },
        Expr::Negate(inner) => validate_expr(inner, signatures),
        Expr::Positive(inner) => validate_expr(inner, signatures),
        Expr::Not(inner) => validate_expr(inner, signatures),
        Expr::Annotated(inner, _) => validate_expr(inner, signatures),
        Expr::Cast(inner, _, _) => validate_expr(inner, signatures),
        Expr::Construct(_, fields) => {
            let mut i: usize = 0;
            while i < fields.len()
                invariant
                    i <= fields@.len(),
                    forall|j: int| 0 <= j < i ==> expr_valid(#[trigger] fields@[j].1, signatures@),
                decreases fields.len() - i,
            {
                let checked = validate_expr(&fields[i].1, signatures);
                if checked.is_err() {
                    return checked;
                }
                i = i + 1;
            }
            Ok(())
        },
        Expr::Field(object, _, _) => validate_expr(object, signatures),
        Expr::MethodCall(object, _, arguments, _) => {
            validate_expr(object, signatures)?;
            let mut i: usize = 0;
            while i < arguments.len()
                invariant
                    i <= arguments@.len(),
                    expr_valid(**object, signatures@),
                    forall|j: int| 0 <= j < i ==> expr_valid(#[trigger] arguments@[j], signatures@),
                decreases arguments.len() - i,
            {
                let checked = validate_expr(&arguments[i], signatures);
                if checked.is_err() {
                    return checked;
                }
                i = i + 1;
            }
            Ok(())
        },
        _ => Ok(()),
    }
}

/// Checks the calls inside the statements of a block.
fn validate_statements(statements: &Vec<Statement>, signatures: &Signatures) -> (r: Result<(), String>)
    ensures
        r is Ok <==> forall|i: int|
            0 <= i < statements@.len() ==> statement_valid(#[trigger] statements@[i], signatures@),
    decreases statements,
{
    let mut i: usize = 0;
    while i < statements.len()
        invariant
            i <= statements@.len(),
            forall|j: int| 0 <= j < i ==> statement_valid(#[trigger] statements@[j], signatures@),
        decreases statements.len() - i,
    {
        let checked = validate_statement(&statements[i], signatures);
        if checked.is_err() {
            return checked;
        }
        i = i + 1;
    }
    Ok(())
}

/// Checks the calls inside a statement and the functions its aliases name.
fn validate_statement(statement: &Statement, signatures: &Signatures) -> (r: Result<(), String>)
    ensures
        r is Ok <==> statement_valid(*statement, signatures@),
    decreases statement,
{
    match statement {
        Statement::Assign(_, expr) => validate_expr(expr, signatures),
        Statement::Print(expr, _) => validate_expr(expr, signatures),
        Statement::Noop(Some(function)) => {
            if find_named(signatures, function.as_str()).is_none() {
                return Err(concat3("function '", function.as_str(), "' is not declared"));
            }
            Ok(())
        },
        Statement::Clamp(_, low, high) => {
            validate_expr(low, signatures)?;
            validate_expr(high, signatures)
        },
        Statement::Call(call) => validate_call(call, signatures),
        Statement::SetField(object, _, value) => {
            validate_expr(object, signatures)?;
            validate_expr(value, signatures)
        },
        Statement::MethodCall(expr) => validate_expr(expr, signatures),
        Statement::Message(expr, _, _) => validate_expr(expr, signatures),
        Statement::If(condition, yes, no) => {
            validate_expr(condition, signatures)?;
            validate_statements(yes, signatures)?;
            validate_statements(no, signatures)
        },
        Statement::While(condition, body) => {
            validate_expr(condition, signatures)?;
            validate_statements(body, signatures)
        },
        Statement::Until(condition, body) => {
            validate_expr(condition, signatures)?;
            validate_statements(body, signatures)
        },
        Statement::Loop(body) => validate_statements(body, signatures),
        Statement::For(_, start, end, body) => {
            validate_expr(start, signatures)?;
            validate_expr(end, signatures)?;
            validate_statements(body, signatures)
        },
        Statement::Match(value, arms, fallback) => {
            validate_expr(value, signatures)?;
            let mut i: usize = 0;
            while i < arms.len()
                invariant
                    i <= arms@.len(),
                    expr_valid(*value, signatures@),
                    forall|p: int| 0 <= p < i ==> expr_valid(#[trigger] arms@[p].0, signatures@),
                    forall|p: int, j: int|
                        0 <= p < i && 0 <= j < arms@[p].1@.len() ==> statement_valid(
                            #[trigger] arms@[p].1@[j],
                            signatures@,
                        ),
                decreases arms.len() - i,
            {
                let checked = validate_expr(&arms[i].0, signatures);
                if checked.is_err() {
                    return checked;
                }
                let checked = validate_statements(&arms[i].1, signatures);
                if checked.is_err() {
                    return checked;
                }
                i = i + 1;
            }
            match fallback {
                Some(body) => validate_statements(body, signatures),
                None => Ok(()),
            }
        },
        _ => Ok(()),
    }
}

/// Whether a call names a declared function other than `main`, with a
/// number of arguments that it accepts (its first signature decides).
pub open spec fn call_fits(call: Call, signatures: Seq<(String, (usize, usize))>) -> bool {
    &&& has_name(signatures, call.name@)
    &&& call.name@ != "main"@
    &&& {
        let k = choose|k: int| first_name_at(signatures, call.name@, k);
        let (required, total) = signatures[k].1;
        required <= call.arguments@.len() <= total
    }
}

/// Whether every call inside an expression fits its function (see
/// `call_fits`); indexes and list literals are not looked into.
pub open spec fn expr_valid(expr: Expr, signatures: Seq<(String, (usize, usize))>) -> bool
    decreases expr,
{
    match expr {
        Expr::Call(call) => call_fits(call, signatures) && forall|i: int|
            0 <= i < call.arguments@.len() ==> expr_valid(#[trigger] call.arguments@[i], signatures),
        Expr::Binary(_, left, right) => expr_valid(*left, signatures) && expr_valid(*right, signatures),
        Expr::Compare(_, left, right) => expr_valid(*left, signatures) && expr_valid(*right, signatures),
        Expr::Logical(_, left, right) => expr_valid(*left, signatures) && expr_valid(*right, signatures),
        Expr::Negate(inner) => expr_valid(*inner, signatures),
        Expr::Positive(inner) => expr_valid(*inner, signatures),
        Expr::Not(inner) => expr_valid(*inner, signatures),
        Expr::Annotated(inner, _) => expr_valid(*inner, signatures),
        Expr::Cast(inner, _, _) => expr_valid(*inner, signatures),
        Expr::Construct(_, fields) => forall|i: int|
            0 <= i < fields@.len() ==> expr_valid(#[trigger] fields@[i].1, signatures),
        Expr::Field(object, _, _) => expr_valid(*object, signatures),
        Expr::MethodCall(object, _, arguments, _) => expr_valid(*object, signatures) && forall|i: int|
            0 <= i < arguments@.len() ==> expr_valid(#[trigger] arguments@[i], signatures),
        _ => true,
    }
}

/// Whether a call fits its function and every call in its arguments does.
pub open spec fn call_valid(call: Call, signatures: Seq<(String, (usize, usize))>) -> bool {
    call_fits(call, signatures) && forall|i: int|
        0 <= i < call.arguments@.len() ==> expr_valid(#[trigger] call.arguments@[i], signatures)
}

/// Whether every call inside a statement fits its function and every
/// function that an alias names is declared.
pub open spec fn statement_valid(statement: Statement, signatures: Seq<(String, (usize, usize))>) -> bool
    decreases statement,
{
    match statement {
        Statement::Assign(_, expr) => expr_valid(expr, signatures),
        Statement::Print(expr, _) => expr_valid(expr, signatures),
        Statement::Noop(Some(function)) => has_name(signatures, function@),
        Statement::Clamp(_, low, high) => expr_valid(low, signatures) && expr_valid(high, signatures),
        Statement::Call(call) => call_valid(call, signatures),
        Statement::SetField(object, _, value) => expr_valid(object, signatures) && expr_valid(
            value,
            signatures,
        ),
        Statement::MethodCall(expr) => expr_valid(expr, signatures),
        Statement::Message(expr, _, _) => expr_valid(expr, signatures),
        Statement::If(condition, yes, no) => expr_valid(condition, signatures) && (forall|i: int|
            0 <= i < yes@.len() ==> statement_valid(#[trigger] yes@[i], signatures)) && (forall|i: int|
            0 <= i < no@.len() ==> statement_valid(#[trigger] no@[i], signatures)),
        Statement::While(condition, body) => expr_valid(condition, signatures) && forall|i: int|
            0 <= i < body@.len() ==> statement_valid(#[trigger] body@[i], signatures),
        Statement::Until(condition, body) => expr_valid(condition, signatures) && forall|i: int|
            0 <= i < body@.len() ==> statement_valid(#[trigger] body@[i], signatures),
        Statement::Loop(body) => forall|i: int|
            0 <= i < body@.len() ==> statement_valid(#[trigger] body@[i], signatures),
        Statement::For(_, start, end, body) => expr_valid(start, signatures) && expr_valid(
            end,
            signatures,
        ) && forall|i: int| 0 <= i < body@.len() ==> statement_valid(#[trigger] body@[i], signatures),
        Statement::Match(value, arms, fallback) => expr_valid(value, signatures) && (forall|i: int|
            0 <= i < arms@.len() ==> expr_valid(#[trigger] arms@[i].0, signatures)) && (forall|
            i: int,
            j: int,
        |
            0 <= i < arms@.len() && 0 <= j < arms@[i].1@.len() ==> statement_valid(
                #[trigger] arms@[i].1@[j],
                signatures,
            )) && match fallback {
            Some(body) => forall|i: int|
                0 <= i < body@.len() ==> statement_valid(#[trigger] body@[i], signatures),
            None => true,
        },
        _ => true,
    }
}

/// The name and parameter counts of each function, in order.
pub open spec fn function_signatures(functions: Seq<Function>) -> Seq<(String, (usize, usize))> {
    functions.map_values(|function: Function| (function.name, signature_counts(function)))
}

/// No two functions have the same name.
pub open spec fn distinct_functions(functions: Seq<Function>) -> bool {
    forall|i: int, j: int|
        0 <= i < j < functions.len() ==> (#[trigger] functions[i]).name@ != (#[trigger] functions[j]).name@
}

/// Every call in every function names a declared function other than
/// `main` with an accepted number of arguments (see `statement_valid`).
pub open spec fn calls_checked(functions: Seq<Function>) -> bool {
    forall|g: int, k: int|
        0 <= g < functions.len() && 0 <= k < functions[g].statements@.len() ==> statement_valid(
            #[trigger] functions[g].statements@[k],
            function_signatures(functions),
        )
}

/// Recording a function under a name that is new keeps the names distinct
/// and the signatures those of the functions.
proof fn lemma_declared(
    before: Seq<(String, (usize, usize))>,
    after: Seq<(String, (usize, usize))>,
    old_functions: Seq<Function>,
    functions: Seq<Function>,
    function: Function,
)
    requires
        before == function_signatures(old_functions),
        distinct_functions(old_functions),
        !has_name(before, function.name@),
        after == before.push((function.name, signature_counts(function))),
        functions == old_functions.push(function),
    ensures
        after == function_signatures(functions),
        distinct_functions(functions),
{
    assert(after =~= function_signatures(functions));
    assert forall|i: int, j: int| 0 <= i < j < functions.len() implies (#[trigger] functions[i]).name@
        != (#[trigger] functions[j]).name@ by {
        if j == functions.len() - 1 {
            assert(before[i].0@ == functions[i].name@);
        }
    }
}

/// `signatures` names the functions of `functions`, in the same order.
spec fn signatures_of(signatures: Seq<(String, (usize, usize))>, functions: Seq<Function>) -> bool {
    &&& signatures.len() == functions.len()
    &&& forall|i: int| 0 <= i < signatures.len() ==> (#[trigger] signatures[i]).0@ == functions[i].name@
}

/// Records a function under its name, which must be new.
fn declare_function(
    signatures: &mut Signatures,
    functions: &mut Vec<Function>,
    function: Function,
) -> (r: bool)
    requires
        signatures_of(old(signatures)@, old(functions)@),
    ensures
        signatures_of(final(signatures)@, final(functions)@),
        r ==> final(functions)@ == old(functions)@.push(function),
        !r ==> final(functions)@ == old(functions)@,
        r <==> !has_name(old(signatures)@, function.name@),
        r ==> {
            &&& final(signatures)@.len() == old(signatures)@.len() + 1
            &&& final(signatures)@.drop_last() == old(signatures)@
            &&& final(signatures)@.last().0@ == function.name@
            &&& final(signatures)@.last().1 == signature_counts(function)
            &&& final(signatures)@ == old(signatures)@.push((function.name, signature_counts(function)))
        },
        !r ==> final(signatures)@ == old(signatures)@,
{
    if find_named(signatures, function.name.as_str()).is_some() {
        return false;
    }
    signatures.push((function.name.clone(), signature(&function)));
    functions.push(function);
    true
}

/// Whether the tokens are the smallest program: `fun main ( ) { }` and the
/// end.
pub open spec fn empty_main_program(tokens: Seq<PositionedToken>) -> bool {
    &&& tokens.len() == 7
    &&& tokens[0].0 is Word && tokens[0].0->Word_0@ == "fun"@
    &&& tokens[1].0 is Word && tokens[1].0->Word_0@ == "main"@
    &&& tokens[2].0 == Token::Symbol('(')
    &&& tokens[3].0 == Token::Symbol(')')
    &&& tokens[4].0 == Token::Symbol('{')
    &&& tokens[5].0 == Token::Symbol('}')
    &&& tokens[6].0 is End
}

/// Whether lexemes are those of the smallest program (see
/// `empty_main_program`).
pub open spec fn empty_main_lexemes(lexemes: Seq<(crate::syntax::lexer::Lexeme, Position)>) -> bool {
    &&& lexemes.len() == 7
    &&& lexemes[0].0 == crate::syntax::lexer::Lexeme::Word("fun"@)
    &&& lexemes[1].0 == crate::syntax::lexer::Lexeme::Word("main"@)
    &&& lexemes[2].0 == crate::syntax::lexer::Lexeme::Symbol('(')
    &&& lexemes[3].0 == crate::syntax::lexer::Lexeme::Symbol(')')
    &&& lexemes[4].0 == crate::syntax::lexer::Lexeme::Symbol('{')
    &&& lexemes[5].0 == crate::syntax::lexer::Lexeme::Symbol('}')
    &&& lexemes[6].0 == crate::syntax::lexer::Lexeme::End
}

/// Every class carries its number: its place in the list.
pub open spec fn classes_numbered(classes: Seq<ClassDefinition>) -> bool {
    forall|i: int| 0 <= i < classes.len() ==> (#[trigger] classes[i]).id == i as u32
}

/// Parses a program, which must declare `fun main()`; the tokens are
/// generic-expanded first.
pub(crate) fn parse_tokens(tokens: Vec<PositionedToken>) -> (r: Result<Program, String>)
    requires
        well_formed_tokens(tokens@),
    ensures
        r matches Ok(program) ==> declares(program.functions@, "main"@),
        r matches Ok(program) ==> all_slots_declared(program.functions@),
        r matches Ok(program) ==> distinct_functions(program.functions@),
        r matches Ok(program) ==> calls_checked(program.functions@),
        tokens@.len() == 1 ==> (r matches Err(e) && e@ == "1:1: program must declare fun main()"@),
        r matches Ok(program) ==> classes_numbered(program.classes@),
        empty_main_program(tokens@) ==> r is Ok,
{
    let ghost single = tokens@.len() == 1;
    let ghost minimal = empty_main_program(tokens@);
    let ghost given = tokens@;
    proof {
        if single {
            assert(!crate::syntax::generics::declares_generics(tokens@));
        }
        if minimal {
            reveal_strlit("fun");
            reveal_strlit("main");
            reveal_strlit("class");
            reveal_with_fuel(crate::syntax::generics::generic_header_from, 6);
            assert(!crate::syntax::generics::declares_generics(tokens@));
        }
    }
    let tokens = expand_generics(tokens)?;
    let mut parser = Parser {
        tokens,
        cursor: 0,
        bindings: Vec::new(),
        removed_variables: Vec::new(),
        result_name: None,
        types: Vec::new(),
        declarations: Vec::new(),
        enums: Vec::new(),
        classes: Vec::new(),
        traits: Vec::new(),
        type_aliases: Vec::new(),
        loop_depth: 0,
        lifecycle_hook: None,
        symbol_aliases: Vec::new(),
    };
    let mut functions: Vec<Function> = Vec::new();
    let mut signatures: Signatures = Vec::new();
    assert(signatures@ =~= function_signatures(functions@));
    while !is_end(parser.peek())
        invariant
            parser.wf(),
            signatures_of(signatures@, functions@),
            all_slots_declared(functions@),
            signatures@ == function_signatures(functions@),
            distinct_functions(functions@),
            single ==> parser.tokens@.len() == 1 && functions@.len() == 0,
            classes_numbered(parser.classes@),
            minimal ==> parser.tokens@ == given,
            minimal ==> (parser.cursor == 0 && functions@.len() == 0 && parser.traits@.len() == 0
                && parser.type_aliases@.len() == 0 && parser.enums@.len() == 0 && parser.classes@.len() == 0)
                || (parser.cursor == 6 && functions@.len() == 1 && functions@[0].name@ == "main"@
                && functions@[0].statements@.len() == 0),
        decreases parser.tokens@.len() - parser.cursor,
    {
        proof {
            if minimal {
                reveal_strlit("fun");
                reveal_strlit("use");
                reveal_strlit("pack");
                reveal_strlit("trait");
                reveal_strlit("pub");
                reveal_strlit("define");
                reveal_strlit("enum");
                reveal_strlit("class");
                assert("fun"@[0] != "use"@[0] && "fun"@[0] != "pack"@[0] && "fun"@[0] != "trait"@[0]
                    && "fun"@[0] != "pub"@[0] && "fun"@[0] != "define"@[0] && "fun"@[0] != "enum"@[0]
                    && "fun"@[0] != "class"@[0]);
            }
        }
        parser.reject_import()?;
        let position = parser.position();
        if is_word(parser.peek(), "trait") {
            let name = parser.trait_declaration()?;
            if find_named(&signatures, name.as_str()).is_some() {
                let message = concat3("'", name.as_str(), "' is already declared as a function");
                return Err(position.error(message.as_str()));
            }
            continue;
        }
        if is_word(parser.peek(), "pub") {
            parser.next();
            if !is_word(parser.peek(), "enum") {
                return Err(position.error("pub is currently supported only for enums"));
            }
        }
        if is_word(parser.peek(), "define") {
            let name = parser.type_alias_declaration()?;
            if find_named(&signatures, name.as_str()).is_some() {
                let message = concat3("'", name.as_str(), "' is already declared as a function");
                return Err(position.error(message.as_str()));
            }
            continue;
        }
        if is_word(parser.peek(), "enum") {
            let name = parser.enum_declaration()?;
            if find_named(&signatures, name.as_str()).is_some() {
                let message = concat3("'", name.as_str(), "' is already declared as a function");
                return Err(position.error(message.as_str()));
            }
            if parser.has_class(name.as_str()) {
                let message = concat3("'", name.as_str(), "' is already declared as a class");
                return Err(position.error(message.as_str()));
            }
            continue;
        }
        if is_word(parser.peek(), "class") {
            let class_name: Option<String> = match parser.token_at(1) {
                Some(Token::Word(class_name)) => Some(class_name.clone()),
                _ => None,
            };
            if let Some(class_name) = class_name {
                if find_named(&signatures, class_name.as_str()).is_some() {
                    let message = concat3(
                        "'",
                        class_name.as_str(),
                        "' is already declared as a function",
                    );
                    return Err(position.error(message.as_str()));
                }
            }
            let ghost numbered = parser.classes@;
            let methods = parser.class_declaration()?;
            proof {
                assert forall|i: int| 0 <= i < parser.classes@.len() implies (#[trigger] parser.classes@[i]).id
                    == i as u32 by {
                    if i < numbered.len() {
                        assert(parser.classes@[i] == parser.classes@.subrange(0, numbered.len() as int)[i]);
                    }
                }
            }
            let mut methods = methods;
            let mut m: usize = 0;
            let count = methods.len();
            while m < count
                invariant
                    signatures_of(signatures@, functions@),
                    methods@.len() == count - m,
                    parser.wf(),
                    all_slots_declared(functions@),
                    all_slots_declared(methods@),
                    signatures@ == function_signatures(functions@),
                    distinct_functions(functions@),
                    classes_numbered(parser.classes@),
                decreases count - m,
            {
                let ghost rest = methods@;
                let method = methods.remove(0);
                assert(slots_declared(rest[0]) && rest[0].positions@.len() == rest[0].statements@.len());
                assert forall|j: int| 0 <= j < methods@.len() implies slots_declared(
                    #[trigger] methods@[j],
                ) && methods@[j].positions@.len() == methods@[j].statements@.len() by {
                    assert(methods@[j] == rest[j + 1]);
                }
                let method_name = method.name.clone();
                let ghost before = signatures@;
                let ghost old_functions = functions@;
                let ghost declared = method;
                if !declare_function(&mut signatures, &mut functions, method) {
                    let message = concat3(
                        "generated method name '",
                        method_name.as_str(),
                        "' conflicts with a function",
                    );
                    return Err(position.error(message.as_str()));
                }
                proof {
                    lemma_declared(before, signatures@, old_functions, functions@, declared);
                }
                m = m + 1;
            }
            continue;
        }
        let function = parser.function_owned(None)?;
        let name = function.name.as_str();
        if parser.has_trait(name) {
            let message = concat3("'", name, "' is already declared as a trait");
            return Err(position.error(message.as_str()));
        }
        if parser.has_type_alias(name) {
            let message = concat3("'", name, "' is already declared as a type alias");
            return Err(position.error(message.as_str()));
        }
        if parser.has_enum(name) {
            let message = concat3("'", name, "' is already declared as an enum");
            return Err(position.error(message.as_str()));
        }
        if parser.has_class(name) {
            let message = concat3("'", name, "' is already declared as a class");
            return Err(position.error(message.as_str()));
        }
        let name = function.name.clone();
        let ghost before = signatures@;
        let ghost old_functions = functions@;
        let ghost declared = function;
        if !declare_function(&mut signatures, &mut functions, function) {
            let message = concat3("function '", name.as_str(), "' is already declared");
            return Err(position.error(message.as_str()));
        }
        proof {
            lemma_declared(before, signatures@, old_functions, functions@, declared);
        }
    }
    proof {
        if minimal {
            assert(signatures@[0].0@ == "main"@);
        }
    }
    let main = match find_named(&signatures, "main") {
        Some(i) => i,
        None => {
            return Err(owned("1:1: program must declare fun main()"));
        },
    };
    assert(functions@[main as int].name@ == "main"@);
    let mut f: usize = 0;
    while f < functions.len()
        invariant
            f <= functions@.len(),
            signatures@ == function_signatures(functions@),
            forall|g: int, k: int|
                0 <= g < f && 0 <= k < functions@[g].statements@.len() ==> statement_valid(
                    #[trigger] functions@[g].statements@[k],
                    function_signatures(functions@),
                ),
        decreases functions.len() - f,
    {
        if let Err(error) = validate_statements(&functions[f].statements, &signatures) {
            return Err(error);
        }
        f = f + 1;
    }
    Ok(Program { functions, classes: parser.classes })
}

/// Parses a program held in one source text (see `parse_tokens`); a source
/// that does not lex is refused with the lexer's message.
pub fn parse(source: &str) -> (r: Result<Program, String>)
    ensures
        r matches Ok(program) ==> declares(program.functions@, "main"@),
        r matches Ok(program) ==> all_slots_declared(program.functions@),
        r matches Ok(program) ==> distinct_functions(program.functions@),
        r matches Ok(program) ==> calls_checked(program.functions@),
        lexed(source@) matches Err(message) ==> (r matches Err(e) && e@ == message),
        r matches Ok(program) ==> classes_numbered(program.classes@),
        lexed(source@) matches Ok(lexemes) ==> (empty_main_lexemes(lexemes) ==> r is Ok),
{
    let tokens = lex(source)?;
    proof {
        let ls = crate::syntax::lexer::lexemes(tokens@);
        if empty_main_lexemes(ls) {
            assert(ls[0].0 == crate::syntax::lexer::lexeme_of(tokens@[0].0));
            assert(ls[1].0 == crate::syntax::lexer::lexeme_of(tokens@[1].0));
            assert(ls[2].0 == crate::syntax::lexer::lexeme_of(tokens@[2].0));
            assert(ls[3].0 == crate::syntax::lexer::lexeme_of(tokens@[3].0));
            assert(ls[4].0 == crate::syntax::lexer::lexeme_of(tokens@[4].0));
            assert(ls[5].0 == crate::syntax::lexer::lexeme_of(tokens@[5].0));
            assert(ls[6].0 == crate::syntax::lexer::lexeme_of(tokens@[6].0));
            assert(empty_main_program(tokens@));
        }
    }
    parse_tokens(tokens)
}

} // verus!
