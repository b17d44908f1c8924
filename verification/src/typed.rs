//! The type checker: from the parsed program to typed instructions, with
//! numeric promotion, literal typing, implicit conversions and operator
//! methods of classes.

#![verifier::loop_isolation(false)]

use crate::syntax::{
    self, Call, ClassDefinition, Comparison, Expr, LogicalOperator, Operator, Statement,
};
use crate::text::{concat2, concat3, concat4, i128_text, owned, str_eq, usize_text};
use crate::types::{self, conversion, type_of_id, Type, Value};
use vstd::prelude::*;

verus! {

/// A typed expression.
pub struct Expression {
    pub ty: Type,
    pub kind: Kind,
}

/// What a typed expression computes.
pub enum Kind {
    Constant(Value),
    String(Vec<u8>),
    Variable(usize),
    Negate(Box<Expression>),
    Not(Box<Expression>),
    Binary(Operator, Box<Expression>, Box<Expression>),
    Compare(Comparison, Box<Expression>, Box<Expression>),
    Logical(LogicalOperator, Box<Expression>, Box<Expression>),
    Convert(Box<Expression>),
    Unwrap(Box<Expression>),
    Call(String, Vec<Expression>),
    Construct(u32, Vec<Expression>, String),
    List(Vec<Expression>),
    Index(Box<Expression>, Box<Expression>),
    Field(Box<Expression>, usize),
    MethodCall(String, Box<Expression>, Vec<Expression>),
}

/// A typed statement.
pub enum Instruction {
    Noop,
    Assign(usize, Expression),
    Disconnect(usize, usize),
    Remove(Expression, Option<String>),
    Clamp(usize, Expression, Expression),
    Print(Expression, bool),
    Call(Expression),
    SetField(Expression, usize, Expression, Option<String>),
    SetIndex(Expression, Expression, Expression),
    Message(Expression, bool, usize),
    If(Expression, Vec<Instruction>, Vec<Instruction>),
    While(Expression, Vec<Instruction>),
    Until(Expression, Vec<Instruction>),
    Loop(Vec<Instruction>),
    For(usize, Expression, Expression, Vec<Instruction>),
    Match(Expression, Vec<(Expression, Vec<Instruction>)>, Option<Vec<Instruction>>),
    Break,
    Continue,
    Exit,
    Return,
}

/// A typed function: every slot has a type.
pub struct Function {
    pub name: String,
    pub parameters: usize,
    pub result: Option<usize>,
    pub types: Vec<Type>,
    pub instructions: Vec<Instruction>,
    pub parameter_names: Vec<String>,
}

/// A typed program with the layout of its classes.
pub struct Program {
    pub functions: Vec<Function>,
    pub class_sizes: Vec<usize>,
    pub classes: Vec<ClassInfo>,
}

/// A class's name and fields.
#[derive(Clone)]
pub struct ClassInfo {
    pub name: String,
    pub fields: Vec<ClassFieldInfo>,
}

/// A field's name, type and visibility.
#[derive(Clone)]
pub struct ClassFieldInfo {
    pub name: String,
    pub ty: Type,
    pub public: bool,
}

/// Whether a typed expression obeys the typing rules at every node: a
/// string literal has type `string`; a negation has its operand's type, a
/// signed numeric one; `not`, `and`, `or` and comparisons have type `bool`,
/// `not`, `and` and `or` over `bool` operands, a comparison over operands of
/// one type; arithmetic has its operands' type, a numeric one (an integer
/// one for `%`); a conversion changes its operand's type to one it may be
/// assigned to; an unwrap takes an optional class value to the class; a
/// construction has its class's type; the items of a list have its element
/// type; an index is a `u64` into a list and gives its element type; a field
/// or method is taken from a class value; and every operand and argument
/// obeys the rules too.
pub open spec fn well_typed(e: Expression) -> bool
    decreases e,
{
    match e.kind {
        Kind::Constant(_) => true,
        Kind::Variable(_) => true,
        Kind::String(_) => e.ty == Type::String,
        Kind::Negate(a) => a.ty == e.ty && e.ty.is_numeric() && !e.ty.is_unsigned() && well_typed(
            *a,
        ),
        Kind::Not(a) => e.ty == Type::Bool && a.ty == Type::Bool && well_typed(*a),
        Kind::Binary(op, a, b) => {
            &&& a.ty == e.ty
            &&& b.ty == e.ty
            &&& e.ty.is_numeric()
            &&& (op == Operator::Remainder ==> e.ty.is_integer())
            &&& well_typed(*a)
            &&& well_typed(*b)
        },
        Kind::Compare(_, a, b) => e.ty == Type::Bool && a.ty == b.ty && well_typed(*a)
            && well_typed(*b),
        Kind::Logical(_, a, b) => {
            &&& e.ty == Type::Bool
            &&& a.ty == Type::Bool
            &&& b.ty == Type::Bool
            &&& well_typed(*a)
            &&& well_typed(*b)
        },
        Kind::Convert(a) => a.ty != e.ty && assignable(a.ty, e.ty) && well_typed(*a),
        Kind::Unwrap(a) => {
            &&& e.ty is Class
            &&& a.ty matches Type::Optional(inner) && type_of_id(inner) == Some(e.ty)
            &&& well_typed(*a)
        },
        Kind::Call(_, arguments) => all_well_typed(arguments@),
        Kind::Construct(id, fields, _) => e.ty == Type::Class(id) && all_well_typed(fields@),
        Kind::List(items) => {
            &&& e.ty is List
            &&& forall|i: int| 0 <= i < items@.len() ==> e.ty == Type::List(
                (#[trigger] items@[i]).ty.spec_id(),
            )
            &&& all_well_typed(items@)
        },
        Kind::Index(list, index) => {
            &&& list.ty matches Type::List(inner) && type_of_id(inner) == Some(e.ty)
            &&& index.ty == Type::U64
            &&& well_typed(*list)
            &&& well_typed(*index)
        },
        Kind::Field(object, _) => object.ty is Class && well_typed(*object),
        Kind::MethodCall(_, object, arguments) => object.ty is Class && well_typed(*object)
            && all_well_typed(arguments@),
    }
}

/// Whether every expression of a sequence is well typed.
pub open spec fn all_well_typed(expressions: Seq<Expression>) -> bool
    decreases expressions,
{
    if expressions.len() == 0 {
        true
    } else {
        all_well_typed(expressions.subrange(0, expressions.len() - 1)) && well_typed(
            expressions[expressions.len() - 1],
        )
    }
}

/// Whether a typed instruction obeys the typing rules: its expressions are
/// well typed; a clamp's bounds share a numeric type; a field is set on a
/// class value; an index is a `u64` into a list whose element type is that of
/// the value stored; a message is a string; the conditions of `if`, `while`
/// and `until` are `bool`; a `for` runs between bounds of one integer type;
/// a match's patterns are constants of the matched value's type, which is
/// neither a string nor a class; and every nested instruction obeys the
/// rules too.
pub open spec fn instruction_typed(instruction: Instruction) -> bool
    decreases instruction,
{
    match instruction {
        Instruction::Assign(_, e) => well_typed(e),
        Instruction::Remove(e, _) => well_typed(e),
        Instruction::Print(e, _) => well_typed(e),
        Instruction::Call(e) => well_typed(e),
        Instruction::Clamp(_, low, high) => low.ty == high.ty && low.ty.is_numeric() && well_typed(
            low,
        ) && well_typed(high),
        Instruction::SetField(object, _, value, _) => object.ty is Class && well_typed(object)
            && well_typed(value),
        Instruction::SetIndex(list, index, value) => {
            &&& list.ty matches Type::List(inner) && type_of_id(inner) == Some(value.ty)
            &&& index.ty == Type::U64
            &&& well_typed(list)
            &&& well_typed(index)
            &&& well_typed(value)
        },
        Instruction::Message(e, _, _) => e.ty == Type::String && well_typed(e),
        Instruction::If(condition, yes, no) => {
            &&& condition.ty == Type::Bool
            &&& well_typed(condition)
            &&& all_instructions_typed(yes@)
            &&& all_instructions_typed(no@)
        },
        Instruction::While(condition, body) => condition.ty == Type::Bool && well_typed(condition)
            && all_instructions_typed(body@),
        Instruction::Until(condition, body) => condition.ty == Type::Bool && well_typed(condition)
            && all_instructions_typed(body@),
        Instruction::Loop(body) => all_instructions_typed(body@),
        Instruction::For(_, start, end, body) => {
            &&& start.ty == end.ty
            &&& start.ty.is_integer()
            &&& well_typed(start)
            &&& well_typed(end)
            &&& all_instructions_typed(body@)
        },
        Instruction::Match(value, arms, fallback) => {
            &&& !(value.ty is String) && !(value.ty is Class)
            &&& well_typed(value)
            &&& arms_typed(arms@, value.ty)
            &&& match fallback {
                Some(body) => all_instructions_typed(body@),
                None => true,
            }
        },
        _ => true,
    }
}

/// Whether every instruction of a sequence is typed.
pub open spec fn all_instructions_typed(instructions: Seq<Instruction>) -> bool
    decreases instructions,
{
    if instructions.len() == 0 {
        true
    } else {
        all_instructions_typed(instructions.subrange(0, instructions.len() - 1))
            && instruction_typed(instructions[instructions.len() - 1])
    }
}

/// Whether every arm of a match has a constant pattern of type `ty` and a
/// typed body.
pub open spec fn arms_typed(arms: Seq<(Expression, Vec<Instruction>)>, ty: Type) -> bool
    decreases arms,
{
    if arms.len() == 0 {
        true
    } else {
        let last = arms[arms.len() - 1];
        &&& arms_typed(arms.subrange(0, arms.len() - 1), ty)
        &&& last.0.ty == ty
        &&& last.0.kind is Constant
        &&& all_instructions_typed(last.1@)
    }
}

/// `all_well_typed` says that each expression is well typed.
proof fn lemma_all_well_typed(expressions: Seq<Expression>)
    ensures
        all_well_typed(expressions) == forall|i: int| 0 <= i < expressions.len() ==> well_typed(
            #[trigger] expressions[i],
        ),
    decreases expressions.len(),
{
    if expressions.len() > 0 {
        let prefix = expressions.subrange(0, expressions.len() - 1);
        lemma_all_well_typed(prefix);
        assert forall|i: int| 0 <= i < prefix.len() implies prefix[i] == expressions[i] by {}
    }
}

/// Pushing a typed instruction keeps a sequence typed.
proof fn lemma_instructions_push(instructions: Seq<Instruction>, instruction: Instruction)
    requires
        all_instructions_typed(instructions),
        instruction_typed(instruction),
    ensures
        all_instructions_typed(instructions.push(instruction)),
{
    assert(instructions.push(instruction).subrange(0, instructions.len() as int) =~= instructions);
}

/// A promoted type is numeric.
proof fn lemma_promoted_numeric(a: Type, b: Type)
    ensures
        promoted_type(a, b) matches Some(t) ==> t.is_numeric(),
{
}

/// Whether `t` is an integer type whose range holds `low..=high`.
pub open spec fn covers(t: Type, low: int, high: int) -> bool {
    t.spec_bounds().0 <= low && high <= t.spec_bounds().1
}

/// The first integer type that holds `low..=high`: signed ones from `i8` up
/// when `low` is negative, unsigned ones from `u4` up otherwise.
pub open spec fn smallest_integer(low: int, high: int) -> Option<Type> {
    if low < 0 {
        if covers(Type::I8, low, high) {
            Some(Type::I8)
        } else if covers(Type::I16, low, high) {
            Some(Type::I16)
        } else if covers(Type::I32, low, high) {
            Some(Type::I32)
        } else if covers(Type::I64, low, high) {
            Some(Type::I64)
        } else {
            None
        }
    } else {
        if covers(Type::U4, low, high) {
            Some(Type::U4)
        } else if covers(Type::U8, low, high) {
            Some(Type::U8)
        } else if covers(Type::U16, low, high) {
            Some(Type::U16)
        } else if covers(Type::U32, low, high) {
            Some(Type::U32)
        } else if covers(Type::U64, low, high) {
            Some(Type::U64)
        } else {
            None
        }
    }
}

/// The common type of two numeric operands: the type itself when they
/// agree; the widest float when either is a float; otherwise the smallest
/// integer type whose range holds both ranges. `None` for a non-numeric
/// operand or when no integer type holds both.
pub open spec fn promoted_type(a: Type, b: Type) -> Option<Type> {
    if !a.is_numeric() || !b.is_numeric() {
        None
    } else if a == b {
        Some(a)
    } else if a.is_floating() || b.is_floating() {
        Some(
            if a == Type::F128 || b == Type::F128 {
                Type::F128
            } else if a == Type::F64 || b == Type::F64 {
                Type::F64
            } else {
                Type::F32
            },
        )
    } else {
        let low = if a.spec_bounds().0 <= b.spec_bounds().0 {
            a.spec_bounds().0
        } else {
            b.spec_bounds().0
        };
        let high = if a.spec_bounds().1 >= b.spec_bounds().1 {
            a.spec_bounds().1
        } else {
            b.spec_bounds().1
        };
        smallest_integer(low, high)
    }
}

/// The common type of two numeric operands (see `promoted_type`).
pub fn promoted(a: Type, b: Type) -> (r: Result<Type, String>)
    ensures
        match r {
            Ok(t) => promoted_type(a, b) == Some(t),
            Err(_) => promoted_type(a, b) is None,
        },
{
    if !a.numeric() || !b.numeric() {
        let mut message = concat4(
            "arithmetic requires numeric types, found ",
            a.text().as_str(),
            " and ",
            b.text().as_str(),
        );
        return Err(message);
    }
    if a == b {
        return Ok(a);
    }
    if a.floating() || b.floating() {
        return Ok(
            if a == Type::F128 || b == Type::F128 {
                Type::F128
            } else if a == Type::F64 || b == Type::F64 {
                Type::F64
            } else {
                Type::F32
            },
        );
    }
    let (al, ah) = a.bounds();
    let (bl, bh) = b.bounds();
    let low = if al <= bl {
        al
    } else {
        bl
    };
    let high = if ah >= bh {
        ah
    } else {
        bh
    };
    let found = if low < 0 {
        if -128 <= low && high <= 127 {
            Some(Type::I8)
        } else if -32768 <= low && high <= 32767 {
            Some(Type::I16)
        } else if -2147483648 <= low && high <= 2147483647 {
            Some(Type::I32)
        } else if -9223372036854775808 <= low && high <= 9223372036854775807 {
            Some(Type::I64)
        } else {
            None
        }
    } else {
        if high <= 15 {
            Some(Type::U4)
        } else if high <= 255 {
            Some(Type::U8)
        } else if high <= 65535 {
            Some(Type::U16)
        } else if high <= 4294967295 {
            Some(Type::U32)
        } else if high <= 18446744073709551615 {
            Some(Type::U64)
        } else {
            None
        }
    };
    match found {
        Some(t) => Ok(t),
        None => {
            let mut message = concat4(
                "no integer type can represent both ",
                a.text().as_str(),
                " and ",
                b.text().as_str(),
            );
            message.append("; specify a floating-point type");
            Err(message)
        },
    }
}

/// Promotion does not depend on the order of the operands.
pub proof fn lemma_promoted_commutes(a: Type, b: Type)
    ensures
        promoted_type(a, b) == promoted_type(b, a),
{
}

/// A promoted type holds both operand types: it is one of them or a float
/// when either is a float, and an integer type whose range holds both ranges
/// otherwise.
pub proof fn lemma_promoted_holds_both(a: Type, b: Type)
    requires
        promoted_type(a, b) is Some,
        a.is_integer(),
        b.is_integer(),
    ensures
        promoted_type(a, b)->0.is_integer(),
        covers(promoted_type(a, b)->0, a.spec_bounds().0, a.spec_bounds().1),
        covers(promoted_type(a, b)->0, b.spec_bounds().0, b.spec_bounds().1),
{
}

/// Promoting a numeric type with itself gives that type.
pub proof fn lemma_promoted_same(a: Type)
    requires
        a.is_numeric(),
    ensures
        promoted_type(a, a) == Some(a),
{
}


/// The parameter types and result type of a function.
#[derive(Clone)]
struct Signature {
    parameters: Vec<Type>,
    result: Type,
}

/// The first entry named `name` from position `k` on.
pub open spec fn first_entry_from<T>(entries: Seq<(String, T)>, name: Seq<char>, k: int) -> Option<int>
    decreases entries.len() - k,
{
    if k < 0 || k >= entries.len() {
        None
    } else if entries[k].0@ == name {
        Some(k)
    } else {
        first_entry_from(entries, name, k + 1)
    }
}

/// The first entry named `name`.
pub open spec fn first_entry<T>(entries: Seq<(String, T)>, name: Seq<char>) -> Option<int> {
    first_entry_from(entries, name, 0)
}

/// The index of the entry named `name`.
fn find_entry<T>(entries: &Vec<(String, T)>, name: &str) -> (r: Option<usize>)
    ensures
        r matches Some(i) ==> i < entries@.len(),
        r matches Some(i) ==> first_entry(entries@, name@) == Some(i as int),
        r is None ==> first_entry(entries@, name@) is None,
{
    let mut i: usize = 0;
    while i < entries.len()
        invariant
            i <= entries@.len(),
            first_entry(entries@, name@) == first_entry_from(entries@, name@, i as int),
        decreases entries.len() - i,
    {
        if str_eq(entries[i].0.as_str(), name) {
            return Some(i);
        }
        i = i + 1;
    }
    None
}

/// Whether `from` may be implicitly converted to `to`: the same type, an
/// optional, or numeric types other than a float to an integer.
pub open spec fn assignable(from: Type, to: Type) -> bool {
    ||| from == to
    ||| to is Optional
    ||| (from.is_numeric() && to.is_numeric() && !(from.is_floating() && to.is_integer()))
}

/// Whether an optional of type `to` holds its value boxed.
pub open spec fn wide_optional(to: Type) -> bool {
    match to {
        Type::Optional(inner) => match type_of_id(inner) {
            Some(t) => t.is_wide_optional_value(),
            None => false,
        },
        _ => false,
    }
}

/// Whether `convert` succeeds: the conversion must be allowed, and a constant
/// is converted right away (unless it goes into a boxed optional), so its
/// value must convert.
pub open spec fn converts(expr: Expression, to: Type) -> bool {
    if expr.ty == to {
        true
    } else if !assignable(expr.ty, to) {
        false
    } else {
        match expr.kind {
            Kind::Constant(value) => wide_optional(to) || conversion(value, expr.ty, to) is Some,
            _ => true,
        }
    }
}

/// The type-checking context of one function.
struct Checker<'a> {
    types: Vec<Option<Type>>,
    signatures: &'a Vec<(String, Signature)>,
    classes: &'a Vec<ClassDefinition>,
    owner: Option<u32>,
}

/// The instruction checked from a statement keeps its kind and target: an
/// assignment stays an assignment to the same slot, a clamp a clamp of the
/// same slot, and control statements stay the same.
pub open spec fn statement_kept(statement: Statement, instruction: Instruction) -> bool {
    match statement {
        Statement::Assign(slot, _) => instruction matches Instruction::Assign(target, _) && target == slot,
        Statement::Clamp(slot, _, _) => instruction matches Instruction::Clamp(target, _, _) && target == slot,
        Statement::Break => instruction is Break,
        Statement::Continue => instruction is Continue,
        Statement::Exit => instruction is Exit,
        Statement::Return => instruction is Return,
        Statement::Print(_, newline) => instruction matches Instruction::Print(_, n) && n == newline,
        Statement::If(_, _, _) => instruction is If,
        Statement::While(_, _) => instruction is While,
        Statement::Until(_, _) => instruction is Until,
        Statement::Loop(_) => instruction is Loop,
        _ => true,
    }
}

/// Whether slot `slot` holds a known numeric type.
pub open spec fn numeric_slot(types: Seq<Option<Type>>, slot: usize) -> bool {
    slot < types.len() && types[slot as int] is Some && types[slot as int]->0.is_numeric()
}

/// A checked expression with its implicit conversions taken off.
pub open spec fn unconverted(x: Expression) -> Expression
    decreases x,
{
    match x.kind {
        Kind::Convert(inner) => unconverted(*inner),
        _ => x,
    }
}

/// Whether the checked expression `x` comes from the parsed expression `e`:
/// a variable reads that variable, a literal is a constant (each perhaps
/// converted).
pub open spec fn checked_from(x: Expression, e: Expr) -> bool {
    match e {
        Expr::Variable(slot) => unconverted(x).kind == Kind::Variable(slot),
        Expr::Integer(_) => unconverted(x).kind is Constant,
        Expr::Bool(_) => unconverted(x).kind is Constant,
        _ => true,
    }
}

/// Whether `e` is the checked comparison `a c b`: the comparison is kept, and
/// its left operand comes from `a` and its right one from `b`.
pub open spec fn compare_checked(c: Comparison, a: Expr, b: Expr, e: Expression) -> bool {
    e.kind matches Kind::Compare(c2, x, y) && c2 == c && checked_from(*x, a) && checked_from(*y, b)
}

/// Whether `e` is the checked arithmetic `a op b`: the operator is kept, and
/// its left operand comes from `a` and its right one from `b`.
pub open spec fn binary_checked(op: Operator, a: Expr, b: Expr, e: Expression) -> bool {
    e.kind matches Kind::Binary(o, x, y) && o == op && checked_from(*x, a) && checked_from(*y, b)
}

/// The operands of a checked comparison stay in their order: comparing the
/// variables `first` and `second` gives a comparison whose left side reads
/// `first` and whose right side reads `second`, and comparing a variable
/// with an integer keeps the variable on the side where it was written.
pub proof fn lemma_compare_keeps_operand_order(c: Comparison, first: usize, second: usize, n: i128, e: Expression)
    ensures
        compare_checked(c, Expr::Variable(first), Expr::Variable(second), e) ==> (e.kind matches Kind::Compare(
            c2,
            x,
            y,
        ) && c2 == c && unconverted(*x).kind == Kind::Variable(first) && unconverted(*y).kind == Kind::Variable(
            second,
        )),
        compare_checked(c, Expr::Variable(first), Expr::Integer(n), e) ==> (e.kind matches Kind::Compare(_, x, y)
            && unconverted(*x).kind == Kind::Variable(first) && unconverted(*y).kind is Constant),
        compare_checked(c, Expr::Integer(n), Expr::Variable(second), e) ==> (e.kind matches Kind::Compare(_, x, y)
            && unconverted(*x).kind is Constant && unconverted(*y).kind == Kind::Variable(second)),
{
}

/// The operands of checked arithmetic stay in their order: `first op second`
/// on two variables gives an operation whose left operand reads `first` and
/// whose right one reads `second`.
pub proof fn lemma_binary_keeps_operand_order(op: Operator, first: usize, second: usize, e: Expression)
    ensures
        binary_checked(op, Expr::Variable(first), Expr::Variable(second), e) ==> (e.kind matches Kind::Binary(
            o,
            x,
            y,
        ) && o == op && unconverted(*x).kind == Kind::Variable(first) && unconverted(*y).kind == Kind::Variable(
            second,
        )),
{
}

/// Checked call arguments stay in their order: where the arguments are the
/// variables `slots`, each checked argument reads the variable written at
/// its place.
pub proof fn lemma_arguments_keep_their_order(arguments: Seq<Expr>, checked: Seq<Expression>, slots: Seq<usize>)
    requires
        arguments.len() == slots.len(),
        forall|k: int| 0 <= k < arguments.len() ==> arguments[k] == Expr::Variable(#[trigger] slots[k]),
        forall|k: int| 0 <= k < arguments.len() && k < checked.len() ==> checked_from(#[trigger] checked[k], arguments[k]),
    ensures
        forall|k: int|
            0 <= k < slots.len() && k < checked.len() ==> unconverted(#[trigger] checked[k]).kind == Kind::Variable(
                slots[k],
            ),
{
    assert forall|k: int| 0 <= k < slots.len() && k < checked.len() implies unconverted(
        #[trigger] checked[k],
    ).kind == Kind::Variable(slots[k]) by {
        assert(arguments[k] == Expr::Variable(slots[k]));
        assert(checked_from(checked[k], arguments[k]));
    }
}

/// The shape of a checked arithmetic expression: the operator is kept, both
/// operands have the numeric result type (an integer one for a remainder), and
/// where the operands' types can be told beforehand the result type is their
/// common type.
pub open spec fn binary_typed(
    op: Operator,
    e: Expression,
    left_hint: Option<Type>,
    right_hint: Option<Type>,
) -> bool {
    &&& e.kind matches Kind::Binary(o, x, y) && o == op && x.ty == e.ty && y.ty == e.ty
    &&& e.ty.is_numeric()
    &&& op == Operator::Remainder ==> e.ty.is_integer()
    &&& match (left_hint, right_hint) {
        (Some(p), Some(q)) => promoted_type(p, q) == Some(e.ty),
        (Some(p), None) => e.ty == p,
        (None, Some(q)) => e.ty == q,
        (None, None) => true,
    }
}

/// Converts `expr` to type `to`: an optional wraps the value, numeric types
/// convert (a float never implicitly becomes an integer), and a constant is
/// converted at once.
fn convert(expr: Expression, to: Type) -> (r: Result<Expression, String>)
    ensures
        r matches Ok(e) ==> e.ty == to,
        r is Ok <==> converts(expr, to),
        expr.ty == to ==> r == Ok::<Expression, String>(expr),
        r matches Ok(e) ==> (well_typed(expr) ==> well_typed(e)),
        r matches Ok(e) ==> (unconverted(e) == unconverted(expr) || (unconverted(expr).kind is Constant
            && unconverted(e).kind is Constant)),
{
    if expr.ty == to {
        return Ok(expr);
    }
    if let Type::Optional(inner) = to {
        let wide = match Type::from_id(inner) {
            Some(t) => t.wide_optional_value(),
            None => false,
        };
        if !wide {
            if let Kind::Constant(value) = expr.kind {
                let converted = types::convert(value, expr.ty, to)?;
                return Ok(Expression { ty: to, kind: Kind::Constant(converted) });
            }
        }
        return Ok(Expression { ty: to, kind: Kind::Convert(Box::new(expr)) });
    }
    if !expr.ty.numeric() || !to.numeric() || (expr.ty.floating() && to.integer()) {
        return Err(
            concat4(
                "cannot assign or convert ",
                expr.ty.text().as_str(),
                " to ",
                to.text().as_str(),
            ),
        );
    }
    if let Kind::Constant(value) = expr.kind {
        let converted = types::convert(value, expr.ty, to)?;
        return Ok(Expression { ty: to, kind: Kind::Constant(converted) });
    }
    Ok(Expression { ty: to, kind: Kind::Convert(Box::new(expr)) })
}

/// The method of a class named `name`.
fn find_method(class: &ClassDefinition, name: &str) -> (r: Option<usize>)
    ensures
        r matches Some(i) ==> i < class.methods@.len() && class.methods@[i as int].name@ == name@ && forall|j: int|
            0 <= j < i ==> (#[trigger] class.methods@[j]).name@ != name@,
        r is None ==> forall|j: int| 0 <= j < class.methods@.len() ==> (#[trigger] class.methods@[j]).name@ != name@,
{
    let mut i: usize = 0;
    while i < class.methods.len()
        invariant
            i <= class.methods@.len(),
            forall|j: int| 0 <= j < i ==> (#[trigger] class.methods@[j]).name@ != name@,
        decreases class.methods.len() - i,
    {
        if str_eq(class.methods[i].name.as_str(), name) {
            return Some(i);
        }
        i = i + 1;
    }
    None
}

/// The field of a class named `name`.
fn find_field(class: &ClassDefinition, name: &str) -> (r: Option<usize>)
    ensures
        r matches Some(i) ==> i < class.fields@.len() && class.fields@[i as int].name@ == name@ && forall|j: int|
            0 <= j < i ==> (#[trigger] class.fields@[j]).name@ != name@,
        r is None ==> forall|j: int| 0 <= j < class.fields@.len() ==> (#[trigger] class.fields@[j]).name@ != name@,
{
    let mut i: usize = 0;
    while i < class.fields.len()
        invariant
            i <= class.fields@.len(),
            forall|j: int| 0 <= j < i ==> (#[trigger] class.fields@[j]).name@ != name@,
        decreases class.fields.len() - i,
    {
        if str_eq(class.fields[i].name.as_str(), name) {
            return Some(i);
        }
        i = i + 1;
    }
    None
}

/// The name of the class operator method for an arithmetic operator.
fn arithmetic_method(op: Operator) -> (r: Option<&'static str>)
    ensures
        match op {
            Operator::Add => r matches Some(m) && m@ == "__add__"@,
            Operator::Subtract => r matches Some(m) && m@ == "__sub__"@,
            Operator::Multiply => r matches Some(m) && m@ == "__mul__"@,
            Operator::Divide => r matches Some(m) && m@ == "__div__"@,
            Operator::Remainder => r is None,
        },
{
    match op {
        Operator::Add => Some("__add__"),
        Operator::Subtract => Some("__sub__"),
        Operator::Multiply => Some("__mul__"),
        Operator::Divide => Some("__div__"),
        Operator::Remainder => None,
    }
}

/// The name of the class operator method for a comparison.
fn comparison_method(comparison: Comparison) -> (r: &'static str)
    ensures
        r@ == match comparison {
            Comparison::Equal => "__eq__"@,
            Comparison::NotEqual => "__ne__"@,
            Comparison::Less => "__lt__"@,
            Comparison::LessEqual => "__le__"@,
            Comparison::Greater => "__gt__"@,
            Comparison::GreaterEqual => "__ge__"@,
        },
{
    match comparison {
        Comparison::Equal => "__eq__",
        Comparison::NotEqual => "__ne__",
        Comparison::Less => "__lt__",
        Comparison::LessEqual => "__le__",
        Comparison::Greater => "__gt__",
        Comparison::GreaterEqual => "__ge__",
    }
}

/// The same value as `Some`, if `t` is numeric.
fn numeric_only(t: Option<Type>) -> (r: Option<Type>)
    ensures
        r == (match t {
            Some(t) => if t.is_numeric() { Some(t) } else { None },
            None => None,
        }),
{
    match t {
        Some(t) => if t.numeric() {
            Some(t)
        } else {
            None
        },
        None => None,
    }
}

/// The first method named `name`.
pub open spec fn first_method(methods: Seq<syntax::ClassMethod>, name: Seq<char>) -> Option<int> {
    if exists|i: int| 0 <= i < methods.len() && (#[trigger] methods[i]).name@ == name {
        Some(choose|i: int| 0 <= i < methods.len() && methods[i].name@ == name && forall|j: int|
            0 <= j < i ==> (#[trigger] methods[j]).name@ != name)
    } else {
        None
    }
}

/// Whether a class operator `method_name` applies to a value of type `ty`:
/// `ty` is a known class with a method of that name whose function has a
/// signature.
spec fn operator_resolves(checker: Checker, ty: Type, method_name: Seq<char>) -> bool {
    &&& ty is Class
    &&& (ty->Class_0 as int) < checker.classes@.len()
    &&& first_method(checker.classes@[ty->Class_0 as int].methods@, method_name) matches Some(m)
        && first_entry(
        checker.signatures@,
        checker.classes@[ty->Class_0 as int].methods@[m].function@,
    ) is Some
}

impl<'a> Checker<'a> {
    fn class(&self, id: u32) -> (r: Result<&'a ClassDefinition, String>)
        ensures
            r is Ok <==> id < self.classes@.len(),
            r matches Ok(c) ==> *c == self.classes@[id as int],
    {
        let index = id as usize;
        if index < self.classes.len() {
            Ok(&self.classes[index])
        } else {
            Err(owned("unknown class"))
        }
    }

    fn signature(&self, name: &str) -> (r: Result<&'a Signature, String>)
        ensures
            r is Ok <==> first_entry(self.signatures@, name@) is Some,
            r matches Ok(signature) ==> *signature == self.signatures@[first_entry(
                self.signatures@,
                name@,
            )->0].1,
    {
        match find_entry(self.signatures, name) {
            Some(i) => Ok(&self.signatures[i].1),
            None => Err(owned("unknown function")),
        }
    }

    /// The declared or inferred type of a slot.
    fn slot_type(&self, slot: usize) -> (r: Option<Type>)
        ensures
            slot < self.types@.len() ==> r == self.types@[slot as int],
            slot >= self.types@.len() ==> r is None,
    {
        if slot < self.types.len() {
            self.types[slot]
        } else {
            None
        }
    }

    /// The type that an expression is expected to have before it is
    /// checked, where it can be told from its shape.
    /// The result type of the first signature named `name`.
    spec fn signature_result(&self, name: Seq<char>) -> Option<Type> {
        match first_entry(self.signatures@, name) {
            Some(i) => Some(self.signatures@[i].1.result),
            None => None,
        }
    }

    /// The hint of an expression (see `hint`).
    spec fn hint_of(&self, expr: Expr) -> Option<Type>
        decreases expr,
    {
        match expr {
            Expr::Variable(slot) => if slot < self.types@.len() {
                self.types@[slot as int]
            } else {
                None
            },
            Expr::Annotated(_, ty) => Some(ty),
            Expr::Cast(_, ty, _) => Some(ty),
            Expr::Call(call) => self.signature_result(call.name@),
            Expr::Decimal(_) => Some(Type::F64),
            Expr::String(_) => Some(Type::String),
            Expr::Bool(_) => Some(Type::Bool),
            Expr::NoneValue => Some(Type::NoneType),
            Expr::EnumVariant(ty, _) => Some(ty),
            Expr::Construct(id, _) => Some(Type::Class(id)),
            Expr::List(values) => if values@.len() == 0 {
                None
            } else {
                match self.hint_of(values@[0]) {
                    Some(ty) => Some(Type::List(ty.spec_id())),
                    None => None,
                }
            },
            Expr::Index(list, _, _) => match self.hint_of(*list) {
                Some(Type::List(inner)) => type_of_id(inner),
                _ => None,
            },
            Expr::Negate(inner) => self.hint_of(*inner),
            Expr::Positive(inner) => self.hint_of(*inner),
            Expr::Not(_) => Some(Type::Bool),
            Expr::Logical(_, _, _) => Some(Type::Bool),
            Expr::Binary(_, a, b) => match (self.hint_of(*a), self.hint_of(*b)) {
                (Some(x), Some(y)) => promoted_type(x, y),
                (Some(x), None) => Some(x),
                (None, y) => y,
            },
            Expr::Compare(_, _, _) => Some(Type::Bool),
            _ => None,
        }
    }

    fn hint(&self, expr: &Expr) -> (r: Option<Type>)
        ensures
            r == self.hint_of(*expr),
        decreases expr,
    {
        match expr {
            Expr::Variable(slot) => self.slot_type(*slot),
            Expr::Annotated(_, ty) => Some(*ty),
            Expr::Cast(_, ty, _) => Some(*ty),
            Expr::Call(call) => match find_entry(self.signatures, call.name.as_str()) {
                Some(i) => Some(self.signatures[i].1.result),
                None => None,
            },
            Expr::Decimal(_) => Some(Type::F64),
            Expr::String(_) => Some(Type::String),
            Expr::Bool(_) => Some(Type::Bool),
            Expr::NoneValue => Some(Type::NoneType),
            Expr::EnumVariant(ty, _) => Some(*ty),
            Expr::Construct(id, _) => Some(Type::Class(*id)),
            Expr::List(values) => {
                if values.len() == 0 {
                    None
                } else {
                    match self.hint(&values[0]) {
                        Some(ty) => Some(Type::List(ty.id())),
                        None => None,
                    }
                }
            },
            Expr::Index(list, _, _) => match self.hint(list) {
                Some(Type::List(inner)) => Type::from_id(inner),
                _ => None,
            },
            Expr::Negate(inner) => self.hint(inner),
            Expr::Positive(inner) => self.hint(inner),
            Expr::Not(_) => Some(Type::Bool),
            Expr::Logical(_, _, _) => Some(Type::Bool),
            Expr::Binary(_, a, b) => {
                let ha = self.hint(a);
                let hb = self.hint(b);
                match (ha, hb) {
                    (Some(x), Some(y)) => match promoted(x, y) {
                        Ok(t) => Some(t),
                        Err(_) => None,
                    },
                    (Some(x), None) => Some(x),
                    (None, y) => y,
                }
            },
            Expr::Compare(_, _, _) => Some(Type::Bool),
            _ => None,
        }
    }

    /// The common hint of two operands: their promoted type when both have
    /// one, else whichever has one.
    fn operand_hint(&self, a: &Expr, b: &Expr) -> (r: Result<Option<Type>, String>)
        ensures
            match (self.hint_of(*a), self.hint_of(*b)) {
                (Some(x), Some(y)) => match promoted_type(x, y) {
                    Some(t) => r == Ok::<Option<Type>, String>(Some(t)),
                    None => r is Err,
                },
                (Some(x), None) => r == Ok::<Option<Type>, String>(Some(x)),
                (None, y) => r == Ok::<Option<Type>, String>(y),
            },
    {
        let ha = self.hint(a);
        let hb = self.hint(b);
        match (ha, hb) {
            (Some(x), Some(y)) => Ok(Some(promoted(x, y)?)),
            (Some(x), None) => Ok(Some(x)),
            (None, y) => Ok(y),
        }
    }

    /// The public (or own) method `method_name` of the class of `object`,
    /// for a class operator: its generated function and result type.
    fn operator_method(&self, object: &Expression, method_name: &str) -> (r: Result<
        (String, Type, u32),
        String,
    >)
        ensures
            r matches Ok((_, _, id)) ==> object.ty == Type::Class(id),
            r is Ok <==> operator_resolves(*self, object.ty, method_name@),
            r matches Ok((function, result, id)) ==> {
                let class = self.classes@[id as int];
                let m = class.methods@[first_method(class.methods@, method_name@)->0];
                &&& function@ == m.function@
                &&& result == self.signatures@[first_entry(self.signatures@, m.function@)->0].1.result
            },
    {
        let id = match object.ty {
            Type::Class(id) => id,
            _ => {
                return Err(concat3("operator '", method_name, "' requires a class value"));
            },
        };
        let class = self.class(id)?;
        let method = match find_method(class, method_name) {
            Some(m) => &class.methods[m],
            None => {
                let mut message = concat3("class '", class.name.as_str(), "' does not implement operator method '");
                message.append(method_name);
                message.append("'");
                return Err(message);
            },
        };
        let signature = self.signature(method.function.as_str())?;
        Ok((method.function.clone(), signature.result, id))
    }
}


impl<'a> Checker<'a> {
    /// Checks call arguments against parameter types; missing trailing
    /// arguments are allowed for optional parameters and become `None`.
    fn arguments(&self, arguments: &Vec<Expr>, parameters: &Vec<Type>) -> (r: Result<
        Vec<Expression>,
        String,
    >)
        ensures
            r matches Ok(checked) ==> all_well_typed(checked@),
            arguments@.len() > parameters@.len() ==> r is Err,
            r matches Ok(checked) ==> forall|k: int|
                0 <= k < arguments@.len() && k < checked@.len() ==> checked_from(#[trigger] checked@[k], arguments@[k]),
            r matches Ok(checked) ==> {
                &&& checked@.len() == parameters@.len()
                &&& forall|k: int| 0 <= k < checked@.len() ==> (#[trigger] checked@[k]).ty == parameters@[k]
                &&& forall|k: int| arguments@.len() <= k < parameters@.len() ==> (#[trigger] parameters@[k]) is Optional
            },
        decreases arguments,
    {
        let mut result: Vec<Expression> = Vec::new();
        let mut i: usize = 0;
        while i < arguments.len() && i < parameters.len()
            invariant
                forall|k: int| 0 <= k < result@.len() ==> well_typed(#[trigger] result@[k]),
                i <= arguments@.len(),
                i <= parameters@.len(),
                result@.len() == i,
                forall|k: int| 0 <= k < result@.len() ==> (#[trigger] result@[k]).ty == parameters@[k],
                forall|k: int| 0 <= k < result@.len() ==> checked_from(#[trigger] result@[k], arguments@[k]),
            decreases arguments.len() - i,
        {
            let checked = self.expression(&arguments[i], Some(parameters[i]))?;
            result.push(checked);
            i = i + 1;
        }
        if arguments.len() > parameters.len() {
            return Err(owned("too many function arguments"));
        }
        let mut k = arguments.len();
        while k < parameters.len()
            invariant
                forall|j: int| 0 <= j < result@.len() ==> well_typed(#[trigger] result@[j]),
                arguments@.len() <= k <= parameters@.len(),
                result@.len() == k,
                forall|j: int| 0 <= j < result@.len() ==> (#[trigger] result@[j]).ty == parameters@[j],
                forall|j: int| 0 <= j < arguments@.len() && j < result@.len() ==> checked_from(#[trigger] result@[j], arguments@[j]),
                forall|j: int| arguments@.len() <= j < k ==> (#[trigger] parameters@[j]) is Optional,
            decreases parameters.len() - k,
        {
            let ty = parameters[k];
            if !is_optional(ty) {
                return Err(owned("missing required function argument"));
            }
            result.push(Expression { ty, kind: Kind::Constant(Value::default()) });
            k = k + 1;
        }
        proof {
            lemma_all_well_typed(result@);
        }
        Ok(result)
    }

    /// Checks an expression; with an expected type, the result has that
    /// type (by implicit conversion).
    fn expression(&self, expr: &Expr, expected: Option<Type>) -> (r: Result<Expression, String>)
        ensures
            r matches Ok(e) ==> (expected matches Some(t) ==> e.ty == t),
            r matches Ok(e) ==> well_typed(e),
            *expr matches Expr::Integer(v) ==> (expected is None || expected->0.is_numeric()) ==> {
                let ty = match expected {
                    Some(t) => t,
                    None => Type::I32,
                };
                &&& r is Ok <==> types::literal_value(crate::text::int_digits(v as int), ty) is Some
                &&& r matches Ok(e) ==> e == (Expression {
                    ty,
                    kind: Kind::Constant(types::literal_value(crate::text::int_digits(v as int), ty)->0),
                })
            },
            *expr matches Expr::Bool(b) ==> (expected is None || expected == Some(Type::Bool)) ==> r
                == Ok::<Expression, String>(
                Expression { ty: Type::Bool, kind: Kind::Constant(types::flag(b)) },
            ),
            *expr matches Expr::Bool(b) ==> (r is Ok <==> (expected is None || converts(
                Expression { ty: Type::Bool, kind: Kind::Constant(types::flag(b)) },
                expected->0,
            ))),
            *expr matches Expr::Decimal(text) ==> (expected is None || expected->0.is_floating()) ==> {
                let ty = match expected {
                    Some(t) => t,
                    None => Type::F64,
                };
                &&& r is Ok <==> types::literal_value(text@, ty) is Some
                &&& r matches Ok(e) ==> e == (Expression {
                    ty,
                    kind: Kind::Constant(types::literal_value(text@, ty)->0),
                })
            },
            *expr matches Expr::EnumVariant(ty, variant) ==> (expected is None || expected == Some(ty))
                ==> r == Ok::<Expression, String>(
                Expression { ty, kind: Kind::Constant(Value { lo: variant as u64, hi: 0 }) },
            ),
            *expr matches Expr::List(values) ==> values@.len() == 0 ==> !(expected matches Some(
                Type::List(inner),
            ) && type_of_id(inner) is Some) ==> (r matches Err(e) && e@
                == "ambiguous List type: an empty List requires an explicit type, for example List[]:List[int]"@),
            *expr matches Expr::List(values) ==> (values@.len() == 0 ==> (expected matches Some(
                Type::List(inner),
            ) ==> (type_of_id(inner) is Some ==> (crate::types::spec_wrappable(inner) ==> (r matches Ok(
                e,
            ) && (e.kind matches Kind::List(items) && items@.len() == 0 && e.ty == Type::List(inner))))))),
            *expr matches Expr::Variable(slot) ==> expected is None ==> {
                &&& r is Ok <==> (slot < self.types@.len() && self.types@[slot as int] is Some)
                &&& r matches Ok(e) ==> e == (Expression {
                    ty: self.types@[slot as int]->0,
                    kind: Kind::Variable(slot),
                })
            },
            *expr matches Expr::Variable(slot) ==> (expected matches Some(t) ==> (r is Ok <==> (slot
                < self.types@.len() && (self.types@[slot as int] matches Some(st) && converts(
                Expression { ty: st, kind: Kind::Variable(slot) },
                t,
            ))))),
            *expr matches Expr::Annotated(_, t) ==> (expected is None ==> (r matches Ok(e) ==> e.ty == t)),
            *expr matches Expr::Call(call) ==> expected is None ==> {
                &&& first_entry(self.signatures@, call.name@) is None ==> r is Err
                &&& r matches Ok(e) ==> {
                    let signature = self.signatures@[first_entry(self.signatures@, call.name@)->0].1;
                    &&& e.ty == signature.result
                    &&& e.kind matches Kind::Call(name, arguments) && name@ == call.name@
                        && arguments@.len() == signature.parameters@.len() && forall|k: int|
                        0 <= k < arguments@.len() ==> (#[trigger] arguments@[k]).ty
                            == signature.parameters@[k]
                }
            },
            *expr matches Expr::Binary(op, a, b) ==> (expected is None ==> (!(self.hint_of(*a) matches Some(
                Type::Class(_),
            )) ==> (r matches Ok(e) ==> binary_typed(op, e, self.hint_of(*a), self.hint_of(*b))))),
            *expr matches Expr::Not(_) ==> (expected is None ==> (r matches Ok(e) ==> (e.ty == Type::Bool
                && (e.kind matches Kind::Not(x) && x.ty == Type::Bool)))),
            r matches Ok(e) ==> checked_from(e, *expr),
            *expr matches Expr::Compare(c, a, b) ==> (expected is None ==> (!(self.hint_of(*a) matches Some(
                Type::Class(_),
            )) ==> (r matches Ok(e) ==> compare_checked(c, *a, *b, e)))),
            *expr matches Expr::Binary(op, a, b) ==> (expected is None ==> (!(self.hint_of(*a) matches Some(
                Type::Class(_),
            )) ==> (r matches Ok(e) ==> binary_checked(op, *a, *b, e)))),
            *expr matches Expr::Compare(c, _, _) ==> (expected is None ==> (r matches Ok(e) ==> ((e.kind matches Kind::Compare(
                c2,
                x,
                y,
            ) && c2 == c && x.ty == y.ty && e.ty == Type::Bool) || e.kind is MethodCall))),
            *expr matches Expr::String(bytes) ==> (expected is None ==> (r matches Ok(e) && e.ty == Type::String
                && (e.kind matches Kind::String(b) && b@ == bytes@))),
            *expr matches Expr::Logical(o, a, b) ==> (expected is None ==> (r matches Ok(e) ==> (e.ty
                == Type::Bool && (e.kind matches Kind::Logical(o2, x, y) && o2 == o && x.ty == Type::Bool
                && y.ty == Type::Bool)))),
            *expr matches Expr::Logical(o, a, b) ==> (expected is None ==> (r matches Ok(e) ==> (e.kind matches Kind::Logical(
                _,
                x,
                y,
            ) && checked_from(*x, *a) && checked_from(*y, *b)))),
            *expr matches Expr::Call(call) ==> (expected is None ==> (r matches Ok(e) ==> (e.kind matches Kind::Call(
                _,
                arguments,
            ) && forall|k: int|
                0 <= k < call.arguments@.len() && k < arguments@.len() ==> checked_from(
                    #[trigger] arguments@[k],
                    call.arguments@[k],
                )))),
        decreases expr,
    {
        let result = match expr {
            Expr::Integer(value) => {
                let ty = match numeric_only(expected) {
                    Some(t) => t,
                    None => Type::I32,
                };
                let text = i128_text(*value);
                Expression { ty, kind: Kind::Constant(types::literal(text.as_str(), ty)?) }
            },
            Expr::Decimal(text) => {
                let ty = match expected {
                    Some(t) => if t.floating() {
                        t
                    } else {
                        Type::F64
                    },
                    None => Type::F64,
                };
                Expression { ty, kind: Kind::Constant(types::literal(text.as_str(), ty)?) }
            },
            Expr::String(bytes) => Expression { ty: Type::String, kind: Kind::String(bytes.clone()) },
            Expr::Bool(value) => Expression {
                ty: Type::Bool,
                kind: Kind::Constant(Value {
                    lo: if *value {
                        1
                    } else {
                        0
                    },
                    hi: 0,
                }),
            },
            Expr::NoneValue => Expression {
                ty: Type::NoneType,
                kind: Kind::Constant(Value::default()),
            },
            Expr::EnumVariant(ty, variant) => Expression {
                ty: *ty,
                kind: Kind::Constant(Value { lo: *variant as u64, hi: 0 }),
            },
            Expr::Construct(id, provided) => self.construct(*id, provided)?,
            Expr::List(values) => {
                let expected_element = match expected {
                    Some(Type::List(inner)) => Type::from_id(inner),
                    _ => None,
                };
                if values.len() == 0 && expected_element.is_none() {
                    return Err(
                        owned(
                            "ambiguous List type: an empty List requires an explicit type, for example List[]:List[int]",
                        ),
                    );
                }
                proof {
                    if let Some(Type::List(inner)) = expected {
                        if type_of_id(inner) is Some {
                            crate::types::lemma_from_id_round_trip(inner);
                        }
                    }
                }
                let mut checked: Vec<Expression> = Vec::new();
                let element_ty = match expected_element {
                    Some(element_ty) => {
                        let mut i: usize = 0;
                        while i < values.len()
                            invariant
                                forall|k: int| 0 <= k < checked@.len() ==> well_typed(
                                    #[trigger] checked@[k],
                                ) && checked@[k].ty == element_ty,
                                checked@.len() == i,
                                i <= values@.len(),
                            decreases values.len() - i,
                        {
                            checked.push(self.expression(&values[i], Some(element_ty))?);
                            i = i + 1;
                        }
                        element_ty
                    },
                    None => {
                        let mut unconverted: Vec<Expression> = Vec::new();
                        let mut i: usize = 0;
                        while i < values.len()
                            invariant
                                unconverted@.len() == i,
                                checked@.len() == 0,
                                forall|k: int| 0 <= k < unconverted@.len() ==> well_typed(
                                    #[trigger] unconverted@[k],
                                ),
                            decreases values.len() - i,
                        {
                            unconverted.push(self.expression(&values[i], None)?);
                            i = i + 1;
                        }
                        let mut element_ty = unconverted[0].ty;
                        let mut j: usize = 1;
                        while j < unconverted.len()
                            decreases unconverted.len() - j,
                        {
                            let ty = unconverted[j].ty;
                            element_ty = if element_ty == ty {
                                element_ty
                            } else if element_ty.numeric() && ty.numeric() {
                                promoted(element_ty, ty)?
                            } else {
                                let mut message = concat4(
                                    "ambiguous List type: elements have incompatible types ",
                                    element_ty.text().as_str(),
                                    " and ",
                                    ty.text().as_str(),
                                );
                                message.append("; add :List[Type]");
                                return Err(message);
                            };
                            j = j + 1;
                        }
                        let count = unconverted.len();
                        let mut k: usize = 0;
                        while k < count
                            invariant
                                unconverted@.len() == count - k,
                                forall|j: int| 0 <= j < unconverted@.len() ==> well_typed(
                                    #[trigger] unconverted@[j],
                                ),
                                forall|j: int| 0 <= j < checked@.len() ==> well_typed(
                                    #[trigger] checked@[j],
                                ) && checked@[j].ty == element_ty,
                            decreases count - k,
                        {
                            let ghost rest = unconverted@;
                            let value = unconverted.remove(0);
                            assert(well_typed(rest[0]));
                            assert forall|j: int| 0 <= j < unconverted@.len() implies well_typed(
                                #[trigger] unconverted@[j],
                            ) by {
                                assert(unconverted@[j] == rest[j + 1]);
                            }
                            checked.push(convert(value, element_ty)?);
                            k = k + 1;
                        }
                        element_ty
                    },
                };
                if !crate::types::wrappable(element_ty.id()) {
                    return Err(owned("type nesting exceeds the supported depth"));
                }
                proof {
                    lemma_all_well_typed(checked@);
                }
                Expression { ty: Type::List(element_ty.id()), kind: Kind::List(checked) }
            },
            Expr::Index(list, index, position) => {
                let list = self.expression(list, None)?;
                let inner = match list.ty {
                    Type::List(inner) => inner,
                    _ => {
                        let message = concat3("invalid access: ", list.ty.text().as_str(), " cannot be indexed");
                        return Err(position.error(message.as_str()));
                    },
                };
                let element_ty = match Type::from_id(inner) {
                    Some(t) => t,
                    None => {
                        return Err(owned("invalid List element type"));
                    },
                };
                let index = self.expression(index, Some(Type::U64))?;
                Expression { ty: element_ty, kind: Kind::Index(Box::new(list), Box::new(index)) }
            },
            Expr::Variable(slot) => match self.slot_type(*slot) {
                Some(ty) => Expression { ty, kind: Kind::Variable(*slot) },
                None => {
                    return Err(owned("variable type is not known"));
                },
            },
            Expr::Annotated(value, ty) => self.expression(value, Some(*ty))?,
            Expr::Cast(value, ty, position) => {
                let value = self.expression(value, None)?;
                match convert(value, *ty) {
                    Ok(converted) => converted,
                    Err(error) => {
                        return Err(position.error(error.as_str()));
                    },
                }
            },
            Expr::Call(call) => {
                let signature = self.signature(call.name.as_str())?;
                let arguments = self.arguments(&call.arguments, &signature.parameters)?;
                Expression { ty: signature.result, kind: Kind::Call(call.name.clone(), arguments) }
            },
            Expr::Field(object, field_name, position) => {
                let object = self.expression(object, None)?;
                let object = unwrap_object(object);
                let id = match object.ty {
                    Type::Class(id) => id,
                    _ => {
                        let message = concat3("invalid access: ", object.ty.text().as_str(), " has no fields");
                        return Err(position.error(message.as_str()));
                    },
                };
                let class = self.class(id)?;
                let index = match find_field(class, field_name.as_str()) {
                    Some(index) => index,
                    None => {
                        let mut message = concat3("invalid access: class '", class.name.as_str(), "' has no field '");
                        message.append(field_name.as_str());
                        message.append("'");
                        return Err(position.error(message.as_str()));
                    },
                };
                let field = &class.fields[index];
                if !field.public && self.owner != Some(id) {
                    let message = concat3("invalid access: field '", field_name.as_str(), "' is private");
                    return Err(position.error(message.as_str()));
                }
                Expression { ty: field.ty, kind: Kind::Field(Box::new(object), index) }
            },
            Expr::MethodCall(object, method_name, arguments, position) => {
                let object = self.expression(object, None)?;
                let object = unwrap_object(object);
                let id = match object.ty {
                    Type::Class(id) => id,
                    _ => {
                        let message = concat3("invalid access: ", object.ty.text().as_str(), " has no methods");
                        return Err(position.error(message.as_str()));
                    },
                };
                let class = self.class(id)?;
                let method = match find_method(class, method_name.as_str()) {
                    Some(m) => &class.methods[m],
                    None => {
                        let mut message = concat3("invalid access: class '", class.name.as_str(), "' has no method '");
                        message.append(method_name.as_str());
                        message.append("'");
                        return Err(position.error(message.as_str()));
                    },
                };
                if str_eq(method.name.as_str(), "__new__") || (!method.public && self.owner != Some(
                    id,
                )) {
                    let message = concat3("invalid access: method '", method_name.as_str(), "' is private");
                    return Err(position.error(message.as_str()));
                }
                let signature = self.signature(method.function.as_str())?;
                if signature.parameters.len() == 0 {
                    return Err(owned("method has no receiver"));
                }
                let mut method_parameters: Vec<Type> = Vec::new();
                let mut required: usize = 0;
                let mut p: usize = 1;
                while p < signature.parameters.len()
                    invariant
                        required <= p,
                    decreases signature.parameters.len() - p,
                {
                    let ty = signature.parameters[p];
                    if !is_optional(ty) {
                        required = required + 1;
                    }
                    method_parameters.push(ty);
                    p = p + 1;
                }
                if arguments.len() < required || arguments.len() > method_parameters.len() {
                    let mut message = concat3("method '", method_name.as_str(), "' expects ");
                    message.append(usize_text(required).as_str());
                    message.append("..=");
                    message.append(usize_text(method_parameters.len()).as_str());
                    message.append(" arguments, found ");
                    message.append(usize_text(arguments.len()).as_str());
                    return Err(position.error(message.as_str()));
                }
                let arguments = self.arguments(arguments, &method_parameters)?;
                Expression {
                    ty: signature.result,
                    kind: Kind::MethodCall(method.function.clone(), Box::new(object), arguments),
                }
            },
            Expr::Negate(value) => {
                let value = self.expression(value, expected)?;
                if !value.ty.numeric() || value.ty.unsigned() {
                    return Err(concat2("cannot negate ", value.ty.text().as_str()));
                }
                Expression { ty: value.ty, kind: Kind::Negate(Box::new(value)) }
            },
            Expr::Positive(value) => {
                let value = self.expression(value, expected)?;
                if !value.ty.numeric() {
                    return Err(concat2("unary '+' is not supported for ", value.ty.text().as_str()));
                }
                value
            },
            Expr::Not(value) => Expression {
                ty: Type::Bool,
                kind: Kind::Not(Box::new(self.expression(value, Some(Type::Bool))?)),
            },
            Expr::Binary(op, a, b) => {
                if let Some(Type::Class(_)) = self.hint(a) {
                    let method = match arithmetic_method(*op) {
                        Some(method) => method,
                        None => {
                            return Err(owned("class remainder operator is not supported"));
                        },
                    };
                    let object = self.expression(a, None)?;
                    let (function, result, id) = self.operator_method(&object, method)?;
                    let argument = self.expression(b, Some(Type::Class(id)))?;
                    let mut arguments: Vec<Expression> = Vec::new();
                    arguments.push(argument);
                    proof {
                        lemma_all_well_typed(arguments@);
                    }
                    Expression {
                        ty: result,
                        kind: Kind::MethodCall(function, Box::new(object), arguments),
                    }
                } else {
                    let hint = self.operand_hint(a, b)?;
                    let literal_type = match numeric_only(expected) {
                        Some(t) => Some(t),
                        None => hint,
                    };
                    let a = self.expression(a, literal_type)?;
                    let b = self.expression(b, literal_type)?;
                    let ty = promoted(a.ty, b.ty)?;
                    proof {
                        lemma_promoted_numeric(a.ty, b.ty);
                    }
                    if *op == Operator::Remainder && !ty.integer() {
                        return Err(owned("remainder requires integer operands"));
                    }
                    let a = convert(a, ty)?;
                    let b = convert(b, ty)?;
                    Expression { ty, kind: Kind::Binary(*op, Box::new(a), Box::new(b)) }
                }
            },
            Expr::Compare(comparison, a, b) => {
                if let Some(Type::Class(_)) = self.hint(a) {
                    let method = comparison_method(*comparison);
                    let object = self.expression(a, None)?;
                    let (function, result, id) = self.operator_method(&object, method)?;
                    let argument = self.expression(b, Some(Type::Class(id)))?;
                    let mut arguments: Vec<Expression> = Vec::new();
                    arguments.push(argument);
                    proof {
                        lemma_all_well_typed(arguments@);
                    }
                    Expression {
                        ty: result,
                        kind: Kind::MethodCall(function, Box::new(object), arguments),
                    }
                } else {
                    let numeric = numeric_only(self.hint(a)).is_some() || numeric_only(
                        self.hint(b),
                    ).is_some();
                    let (a, b) = if numeric {
                        let hint = self.operand_hint(a, b)?;
                        let a = self.expression(a, hint)?;
                        let b = self.expression(b, hint)?;
                        let ty = promoted(a.ty, b.ty)?;
                        (convert(a, ty)?, convert(b, ty)?)
                    } else {
                        let a = self.expression(a, None)?;
                        let b = self.expression(b, Some(a.ty))?;
                        let equality = *comparison == Comparison::Equal || *comparison
                            == Comparison::NotEqual;
                        if !equality && !a.ty.numeric() {
                            return Err(
                                concat2(
                                    "ordering comparison is not supported for ",
                                    a.ty.text().as_str(),
                                ),
                            );
                        }
                        let unsupported = match a.ty {
                            Type::String | Type::Class(_) => true,
                            _ => false,
                        };
                        if unsupported {
                            return Err(
                                concat2("comparison is not supported for ", a.ty.text().as_str()),
                            );
                        }
                        (a, b)
                    };
                    Expression {
                        ty: Type::Bool,
                        kind: Kind::Compare(*comparison, Box::new(a), Box::new(b)),
                    }
                }
            },
            Expr::Logical(operator, a, b) => {
                let a = self.expression(a, Some(Type::Bool))?;
                let b = self.expression(b, Some(Type::Bool))?;
                Expression { ty: Type::Bool, kind: Kind::Logical(*operator, Box::new(a), Box::new(b)) }
            },
        };
        assert(well_typed(result));
        match expected {
            Some(ty) => convert(result, ty),
            None => Ok(result),
        }
    }

    /// Checks a construction `Class(field = value, ...)`: each field is
    /// given once, or left out when optional (it is then `None`), and no
    /// unknown field is given.
    fn construct(&self, id: u32, provided: &Vec<(String, Expr)>) -> (r: Result<Expression, String>)
        ensures
            r matches Ok(e) ==> well_typed(e),
        decreases provided,
    {
        let class = self.class(id)?;
        let mut fields: Vec<Expression> = Vec::new();
        let mut f: usize = 0;
        while f < class.fields.len()
            invariant
                forall|k: int| 0 <= k < fields@.len() ==> well_typed(#[trigger] fields@[k]),
            decreases class.fields.len() - f,
        {
            let field = &class.fields[f];
            let mut count: usize = 0;
            let mut first: usize = 0;
            let mut p: usize = 0;
            while p < provided.len()
                invariant
                    count <= p,
                    count > 0 ==> first < provided@.len(),
                decreases provided.len() - p,
            {
                if provided[p].0.eq(&field.name) {
                    if count == 0 {
                        first = p;
                    }
                    count = count + 1;
                }
                p = p + 1;
            }
            if count > 1 || (count == 0 && !is_optional(field.ty)) {
                let mut message = concat3("class '", class.name.as_str(), "' requires field '");
                message.append(field.name.as_str());
                message.append("' exactly once unless it is optional");
                return Err(message);
            }
            if count == 0 {
                fields.push(Expression { ty: field.ty, kind: Kind::Constant(Value::default()) });
            } else {
                fields.push(self.expression(&provided[first].1, Some(field.ty))?);
            }
            f = f + 1;
        }
        let mut p: usize = 0;
        while p < provided.len()
            decreases provided.len() - p,
        {
            if find_field(class, provided[p].0.as_str()).is_none() {
                let mut message = concat3("invalid field '", provided[p].0.as_str(), "' for class '");
                message.append(class.name.as_str());
                message.append("'");
                return Err(message);
            }
            p = p + 1;
        }
        let constructor = concat2(class.name.as_str(), "____new__");
        proof {
            lemma_all_well_typed(fields@);
        }
        Ok(Expression { ty: Type::Class(id), kind: Kind::Construct(id, fields, constructor) })
    }
}

/// Whether the type is an optional.
fn is_optional(ty: Type) -> (r: bool)
    ensures
        r == ty is Optional,
{
    match ty {
        Type::Optional(_) => true,
        _ => false,
    }
}

/// An optional object of a class is used through its value.
fn unwrap_object(object: Expression) -> (r: Expression)
    ensures
        well_typed(object) ==> well_typed(r),
        (object.ty matches Type::Optional(inner) && type_of_id(inner) matches Some(Type::Class(id)))
            ==> r == (Expression {
            ty: Type::Class(type_of_id(object.ty->Optional_0)->0->Class_0),
            kind: Kind::Unwrap(Box::new(object)),
        }),
        !(object.ty matches Type::Optional(inner) && type_of_id(inner) matches Some(Type::Class(id)))
            ==> r == object,
{
    if let Type::Optional(inner) = object.ty {
        if let Some(Type::Class(id)) = Type::from_id(inner) {
            return Expression { ty: Type::Class(id), kind: Kind::Unwrap(Box::new(object)) };
        }
    }
    object
}


impl<'a> Checker<'a> {
    /// Records the type of a slot.
    fn set_type(&mut self, slot: usize, ty: Type) -> (r: Result<(), String>)
        ensures
            r is Ok ==> slot < old(self).types@.len() && final(self).types@ == old(
                self,
            ).types@.update(slot as int, Some(ty)),
            r is Err ==> final(self).types@ == old(self).types@,
            r is Ok <==> slot < old(self).types@.len(),
    {
        if slot < self.types.len() {
            self.types.set(slot, Some(ty));
            Ok(())
        } else {
            Err(owned("unknown variable slot"))
        }
    }

    /// The method named `name` of class `id`, as its generated function.
    fn hook(&self, id: u32, name: &str) -> (r: Result<Option<String>, String>)
        ensures
            r is Ok <==> id < self.classes@.len(),
            r matches Ok(found) ==> match first_method(self.classes@[id as int].methods@, name@) {
                Some(m) => found matches Some(f) && f@ == self.classes@[id as int].methods@[m].function@,
                None => found is None,
            },
    {
        let class = self.class(id)?;
        Ok(
            match find_method(class, name) {
                Some(m) => Some(class.methods[m].function.clone()),
                None => None,
            },
        )
    }

    /// Checks the statements of a block.
    fn statements(&mut self, body: &Vec<Statement>) -> (r: Result<Vec<Instruction>, String>)
        ensures
            final(self).types@.len() == old(self).types@.len(),
            r matches Ok(instructions) ==> all_instructions_typed(instructions@),
        decreases body,
    {
        let mut instructions: Vec<Instruction> = Vec::new();
        let mut i: usize = 0;
        while i < body.len()
            invariant
                self.types@.len() == old(self).types@.len(),
                all_instructions_typed(instructions@),
            decreases body.len() - i,
        {
            let instruction = self.statement(&body[i])?;
            proof {
                lemma_instructions_push(instructions@, instruction);
            }
            instructions.push(instruction);
            i = i + 1;
        }
        Ok(instructions)
    }

    /// Checks a statement; an assignment or `for` records the variable's
    /// type from its value when it had none.
    fn statement(&mut self, statement: &Statement) -> (r: Result<Instruction, String>)
        ensures
            final(self).types@.len() == old(self).types@.len(),
            r is Ok ==> (statement matches Statement::Assign(slot, _) ==> (final(self).types@[slot
                as int] matches Some(t) && (old(self).types@[slot as int] matches Some(u) ==> t
                == u))),
            r matches Ok(instruction) ==> instruction_typed(instruction),
            *statement matches Statement::Assign(slot, _) ==> (r matches Ok(instruction) ==> (
            instruction matches Instruction::Assign(target, value) && target == slot
                && final(self).types@[slot as int] == Some(value.ty) && (old(self).types@[slot as int]
                matches Some(declared) ==> value.ty == declared))),
            *statement matches Statement::Assign(slot, _) ==> (slot >= old(self).types@.len() ==> r is Err),
            *statement matches Statement::Assign(slot, _) ==> (r matches Ok(instruction) ==> (
            instruction matches Instruction::Assign(_, value) && final(self).types@ == old(
                self,
            ).types@.update(slot as int, Some(value.ty)))),
            *statement matches Statement::Assign(_, _) ==> (r is Err ==> final(self).types@ == old(
                self,
            ).types@),
            *statement matches Statement::Assign(slot, value) ==> (value matches Expr::List(items) ==> (
            items@.len() == 0 ==> (slot < old(self).types@.len() ==> (!(old(self).types@[slot as int] matches Some(
                Type::List(inner),
            ) && type_of_id(inner) is Some) ==> (r matches Err(e) && e@
                == "ambiguous List type: an empty List requires an explicit type, for example List[]:List[int]"@))))),
            *statement matches Statement::Assign(slot, value) ==> (value matches Expr::Bool(b) ==> (
            slot < old(self).types@.len() ==> (old(self).types@[slot as int] matches Some(declared) ==> (
            !converts(Expression { ty: Type::Bool, kind: Kind::Constant(types::flag(b)) }, declared)
                ==> r is Err)))),
            *statement matches Statement::Assign(slot, value) ==> (value matches Expr::Variable(source) ==> (
            slot < old(self).types@.len() ==> (r is Ok <==> (source < old(self).types@.len() && (old(
                self,
            ).types@[source as int] matches Some(st) && match old(self).types@[slot as int] {
                Some(declared) => converts(Expression { ty: st, kind: Kind::Variable(source) }, declared),
                None => true,
            }))))),
            *statement matches Statement::Assign(slot, value) ==> (value matches Expr::Integer(v) ==> (
            slot < old(self).types@.len() ==> (old(self).types@[slot as int] matches Some(declared) ==> (
            declared.is_numeric() ==> (r is Ok <==> types::literal_value(
                crate::text::int_digits(v as int),
                declared,
            ) is Some))))),
            *statement matches Statement::Clamp(slot, _, _) ==> (r matches Ok(instruction) ==> (
            instruction matches Instruction::Clamp(target, low, high) && target == slot
                && numeric_slot(old(self).types@, slot) && low.ty == old(self).types@[slot as int]->0
                && high.ty == old(self).types@[slot as int]->0)),
            *statement matches Statement::Clamp(slot, _, _) ==> (!numeric_slot(old(self).types@, slot)
                ==> r is Err),
            r matches Ok(instruction) ==> statement_kept(*statement, instruction),
        decreases statement,
    {
        match statement {
            Statement::Noop(_) => Ok(Instruction::Noop),
            Statement::Assign(slot, expr) => {
                let value = self.expression(expr, self.slot_type(*slot))?;
                self.set_type(*slot, value.ty)?;
                Ok(Instruction::Assign(*slot, value))
            },
            Statement::Disconnect(destination, source) => {
                let ty = match self.slot_type(*source) {
                    Some(ty) => ty,
                    None => {
                        return Err(owned("unknown alias type"));
                    },
                };
                let unsupported = match ty {
                    Type::Enum(_) | Type::Class(_) => true,
                    _ => false,
                };
                if unsupported {
                    return Err(concat3("disconect is not supported for ", ty.text().as_str(), " aliases"));
                }
                self.set_type(*destination, ty)?;
                Ok(Instruction::Disconnect(*destination, *source))
            },
            Statement::Remove(slot) => {
                let ty = match self.slot_type(*slot) {
                    Some(ty) => ty,
                    None => {
                        return Err(owned("unknown removed variable type"));
                    },
                };
                let hook = match ty {
                    Type::Class(id) => self.hook(id, "__remove__")?,
                    _ => None,
                };
                Ok(Instruction::Remove(Expression { ty, kind: Kind::Variable(*slot) }, hook))
            },
            Statement::Clamp(slot, low, high) => {
                let ty = match self.slot_type(*slot) {
                    Some(ty) => ty,
                    None => {
                        return Err(owned("unknown variable type"));
                    },
                };
                if !ty.numeric() {
                    return Err(concat2("clamp is not supported for ", ty.text().as_str()));
                }
                let low = self.expression(low, Some(ty))?;
                let high = self.expression(high, Some(ty))?;
                Ok(Instruction::Clamp(*slot, low, high))
            },
            Statement::Print(expr, newline) => Ok(
                Instruction::Print(self.expression(expr, None)?, *newline),
            ),
            Statement::Message(expr, panic, position) => Ok(
                Instruction::Message(
                    self.expression(expr, Some(Type::String))?,
                    *panic,
                    position.line(),
                ),
            ),
            Statement::Return => Ok(Instruction::Return),
            Statement::Exit => Ok(Instruction::Exit),
            Statement::Break => Ok(Instruction::Break),
            Statement::Continue => Ok(Instruction::Continue),
            Statement::Call(call) => {
                let signature = self.signature(call.name.as_str())?;
                let arguments = self.arguments(&call.arguments, &signature.parameters)?;
                Ok(
                    Instruction::Call(
                        Expression {
                            ty: signature.result,
                            kind: Kind::Call(call.name.clone(), arguments),
                        },
                    ),
                )
            },
            Statement::SetField(object, field_name, value) => {
                let object = self.expression(object, None)?;
                let id = match object.ty {
                    Type::Class(id) => id,
                    _ => {
                        return Err(concat3("invalid access: ", object.ty.text().as_str(), " has no fields"));
                    },
                };
                let class = self.class(id)?;
                let index = match find_field(class, field_name.as_str()) {
                    Some(index) => index,
                    None => {
                        let mut message = concat3("invalid access: class '", class.name.as_str(), "' has no field '");
                        message.append(field_name.as_str());
                        message.append("'");
                        return Err(message);
                    },
                };
                let field = &class.fields[index];
                if !field.public && self.owner != Some(id) {
                    return Err(concat3("invalid access: field '", field_name.as_str(), "' is private"));
                }
                let hook = self.hook(id, "__change__")?;
                let value = self.expression(value, Some(field.ty))?;
                Ok(Instruction::SetField(object, index, value, hook))
            },
            Statement::SetIndex(list, index, value) => {
                let list = self.expression(list, None)?;
                let inner = match list.ty {
                    Type::List(inner) => inner,
                    _ => {
                        return Err(concat3("invalid access: ", list.ty.text().as_str(), " cannot be indexed"));
                    },
                };
                let element_ty = match Type::from_id(inner) {
                    Some(t) => t,
                    None => {
                        return Err(owned("invalid List element type"));
                    },
                };
                let index = self.expression(index, Some(Type::U64))?;
                let value = self.expression(value, Some(element_ty))?;
                Ok(Instruction::SetIndex(list, index, value))
            },
            Statement::MethodCall(expr) => Ok(Instruction::Call(self.expression(expr, None)?)),
            Statement::If(condition, yes, no) => {
                let condition = self.expression(condition, Some(Type::Bool))?;
                let yes = self.statements(yes)?;
                let no = self.statements(no)?;
                Ok(Instruction::If(condition, yes, no))
            },
            Statement::While(condition, body) => {
                let condition = self.expression(condition, Some(Type::Bool))?;
                Ok(Instruction::While(condition, self.statements(body)?))
            },
            Statement::Until(condition, body) => {
                let condition = self.expression(condition, Some(Type::Bool))?;
                Ok(Instruction::Until(condition, self.statements(body)?))
            },
            Statement::Loop(body) => Ok(Instruction::Loop(self.statements(body)?)),
            Statement::For(slot, start, end, body) => {
                let start = self.expression(start, self.slot_type(*slot))?;
                let end = self.expression(end, Some(start.ty))?;
                if !start.ty.integer() {
                    return Err(owned("for range bounds must be integers"));
                }
                self.set_type(*slot, start.ty)?;
                let body = self.statements(body)?;
                Ok(Instruction::For(*slot, start, end, body))
            },
            Statement::Match(value, arms, fallback) => {
                let value = self.expression(value, None)?;
                let unsupported = match value.ty {
                    Type::String | Type::Class(_) => true,
                    _ => false,
                };
                if unsupported {
                    return Err(concat2("match is not supported for ", value.ty.text().as_str()));
                }
                let mut typed_arms: Vec<(Expression, Vec<Instruction>)> = Vec::new();
                let mut patterns: Vec<Value> = Vec::new();
                let mut a: usize = 0;
                while a < arms.len()
                    invariant
                        self.types@.len() == old(self).types@.len(),
                        arms_typed(typed_arms@, value.ty),
                    decreases arms.len() - a,
                {
                    let pattern = self.expression(&arms[a].0, Some(value.ty))?;
                    let pattern_value = match pattern.kind {
                        Kind::Constant(v) => v,
                        _ => {
                            return Err(owned("match patterns must be literals or enum variants"));
                        },
                    };
                    let mut q: usize = 0;
                    while q < patterns.len()
                        decreases patterns.len() - q,
                    {
                        if patterns[q] == pattern_value {
                            return Err(owned("match contains a duplicate pattern"));
                        }
                        q = q + 1;
                    }
                    patterns.push(pattern_value);
                    let body = self.statements(&arms[a].1)?;
                    let ghost before = typed_arms@;
                    typed_arms.push(
                        (Expression { ty: pattern.ty, kind: Kind::Constant(pattern_value) }, body),
                    );
                    assert(typed_arms@.subrange(0, typed_arms@.len() - 1) =~= before);
                    a = a + 1;
                }
                let fallback = match fallback {
                    Some(body) => Some(self.statements(body)?),
                    None => None,
                };
                Ok(Instruction::Match(value, typed_arms, fallback))
            },
        }
    }
}


/// The names of the arithmetic operator methods.
pub open spec fn arithmetic_operator_name(name: Seq<char>) -> bool {
    name == "__add__"@ || name == "__sub__"@ || name == "__mul__"@ || name == "__div__"@
}

/// The names of the comparison operator methods.
pub open spec fn comparison_operator_name(name: Seq<char>) -> bool {
    name == "__eq__"@ || name == "__ne__"@ || name == "__lt__"@ || name == "__le__"@
        || name == "__gt__"@ || name == "__ge__"@
}

fn is_arithmetic_operator(name: &str) -> (r: bool)
    ensures
        r == arithmetic_operator_name(name@),
{
    str_eq(name, "__add__") || str_eq(name, "__sub__") || str_eq(name, "__mul__") || str_eq(
        name,
        "__div__",
    )
}

fn is_comparison_operator(name: &str) -> (r: bool)
    ensures
        r == comparison_operator_name(name@),
{
    str_eq(name, "__eq__") || str_eq(name, "__ne__") || str_eq(name, "__lt__") || str_eq(
        name,
        "__le__",
    ) || str_eq(name, "__gt__") || str_eq(name, "__ge__")
}

/// Whether a method of `class` that is an operator method (`__add__`,
/// `__eq__`, ...) is public and has a signature that takes one operand of
/// the class, returning `bool` for a comparison and neither `None` nor an
/// optional for arithmetic.
spec fn operator_method_valid(
    class: ClassDefinition,
    method: syntax::ClassMethod,
    signatures: Seq<(String, Signature)>,
) -> bool {
    let name = method.name@;
    (arithmetic_operator_name(name) || comparison_operator_name(name)) ==> {
        &&& method.public
        &&& first_entry(signatures, method.function@) matches Some(i) && {
            let signature = signatures[i].1;
            &&& signature.parameters@.len() == 2
            &&& signature.parameters@[1] == Type::Class(class.id)
            &&& comparison_operator_name(name) ==> signature.result == Type::Bool
            &&& arithmetic_operator_name(name) ==> !(signature.result is NoneType
                || signature.result is Optional)
        }
    }
}

/// Checks the operator methods of classes (`__add__`, `__eq__`, ...): public,
/// taking one operand of the class, a comparison returning `bool`, an
/// arithmetic operator returning a value that is neither `None` nor
/// optional.
fn validate_operator_methods(
    classes: &Vec<ClassDefinition>,
    signatures: &Vec<(String, Signature)>,
) -> (r: Result<(), String>)
    ensures
        r is Ok <==> forall|c: int, m: int|
            0 <= c < classes@.len() && 0 <= m < classes@[c].methods@.len() ==> #[trigger] operator_method_valid(
                classes@[c],
                classes@[c].methods@[m],
                signatures@,
            ),
{
    let mut c: usize = 0;
    while c < classes.len()
        invariant
            c <= classes@.len(),
            forall|c2: int, m: int|
                0 <= c2 < c && 0 <= m < classes@[c2].methods@.len() ==> #[trigger] operator_method_valid(
                    classes@[c2],
                    classes@[c2].methods@[m],
                    signatures@,
                ),
        decreases classes.len() - c,
    {
        let class = &classes[c];
        let mut m: usize = 0;
        while m < class.methods.len()
            invariant
                c < classes@.len(),
                *class == classes@[c as int],
                m <= class.methods@.len(),
                forall|c2: int, m2: int|
                    0 <= c2 < c && 0 <= m2 < classes@[c2].methods@.len() ==> #[trigger] operator_method_valid(
                        classes@[c2],
                        classes@[c2].methods@[m2],
                        signatures@,
                    ),
                forall|m2: int| 0 <= m2 < m ==> #[trigger] operator_method_valid(
                    classes@[c as int],
                    classes@[c as int].methods@[m2],
                    signatures@,
                ),
            decreases class.methods.len() - m,
        {
            let method = &class.methods[m];
            let name = method.name.as_str();
            let arithmetic = is_arithmetic_operator(name);
            let comparison = is_comparison_operator(name);
            if arithmetic || comparison {
                if !method.public {
                    assert(!operator_method_valid(classes@[c as int], classes@[c as int].methods@[m as int], signatures@));
                    return Err(concat3("operator method '", name, "' must be public"));
                }
                let signature = match find_entry(signatures, method.function.as_str()) {
                    Some(i) => &signatures[i].1,
                    None => {
                        assert(!operator_method_valid(classes@[c as int], classes@[c as int].methods@[m as int], signatures@));
                        return Err(owned("unknown function"));
                    },
                };
                if signature.parameters.len() != 2 || signature.parameters[1] != Type::Class(
                    class.id,
                ) {
                    let mut message = concat3("operator method '", name, "' must accept exactly one required '");
                    message.append(class.name.as_str());
                    message.append("' operand");
                    assert(!operator_method_valid(classes@[c as int], classes@[c as int].methods@[m as int], signatures@));
                    return Err(message);
                }
                if comparison && signature.result != Type::Bool {
                    assert(!operator_method_valid(classes@[c as int], classes@[c as int].methods@[m as int], signatures@));
                    return Err(concat3("operator method '", name, "' must return bool"));
                }
                let none_or_optional = match signature.result {
                    Type::NoneType | Type::Optional(_) => true,
                    _ => false,
                };
                if arithmetic && none_or_optional {
                    assert(!operator_method_valid(classes@[c as int], classes@[c as int].methods@[m as int], signatures@));
                    return Err(
                        concat3("operator method '", name, "' must return a non-optional value"),
                    );
                }
            }
            m = m + 1;
        }
        c = c + 1;
    }
    Ok(())
}

/// Whether slot `k` of a parsed function has a known type.
pub open spec fn known_slot(function: syntax::Function, k: int) -> bool {
    0 <= k < function.types@.len() && function.types@[k] is Some
}

/// Whether every parameter and the named result of a parsed function have
/// known types.
pub open spec fn signature_known(function: syntax::Function) -> bool {
    &&& forall|k: int| 0 <= k < function.parameters ==> #[trigger] known_slot(function, k)
    &&& function.result matches Some(slot) ==> known_slot(function, slot as int)
}

/// The signature of a parsed function: its parameter types, and the type of
/// its named result (`None` without one).
fn function_signature(function: &syntax::Function) -> (r: Result<Signature, String>)
    ensures
        r is Ok <==> signature_known(*function),
        r matches Ok(signature) ==> {
            &&& signature.parameters@.len() == function.parameters
            &&& forall|k: int| 0 <= k < function.parameters ==> Some(
                #[trigger] signature.parameters@[k],
            ) == function.types@[k]
            &&& signature.result == match function.result {
                Some(slot) => function.types@[slot as int]->0,
                None => Type::NoneType,
            }
        },
{
    let mut parameters: Vec<Type> = Vec::new();
    let mut k: usize = 0;
    while k < function.parameters
        invariant
            k <= function.parameters,
            parameters@.len() == k,
            forall|j: int| 0 <= j < k ==> #[trigger] known_slot(*function, j),
            forall|j: int| 0 <= j < k ==> Some(#[trigger] parameters@[j]) == function.types@[j],
        decreases function.parameters - k,
    {
        if k >= function.types.len() {
            assert(!known_slot(*function, k as int));
            return Err(owned("parameter type is not known"));
        }
        match function.types[k] {
            Some(ty) => parameters.push(ty),
            None => {
                assert(!known_slot(*function, k as int));
                return Err(owned("parameter type is not known"));
            },
        }
        assert(known_slot(*function, k as int));
        k = k + 1;
    }
    let result = match function.result {
        Some(slot) => {
            if slot >= function.types.len() {
                return Err(owned("result type is not known"));
            }
            match function.types[slot] {
                Some(ty) => ty,
                None => {
                    return Err(owned("result type is not known"));
                },
            }
        },
        None => Type::NoneType,
    };
    Ok(Signature { parameters, result })
}

/// The layout of each class: its number of fields, and its name and fields.
fn class_layouts(classes: &Vec<ClassDefinition>) -> (r: (Vec<usize>, Vec<ClassInfo>))
    ensures
        r.0@.len() == classes@.len(),
        r.1@.len() == classes@.len(),
        forall|c: int| 0 <= c < classes@.len() ==> {
            &&& #[trigger] r.0@[c] == classes@[c].fields@.len()
            &&& r.1@[c].name@ == classes@[c].name@
            &&& r.1@[c].fields@.len() == classes@[c].fields@.len()
        },
{
    let mut sizes: Vec<usize> = Vec::new();
    let mut infos: Vec<ClassInfo> = Vec::new();
    let mut c: usize = 0;
    while c < classes.len()
        invariant
            c <= classes@.len(),
            sizes@.len() == c,
            infos@.len() == c,
            forall|d: int| 0 <= d < c ==> {
                &&& #[trigger] sizes@[d] == classes@[d].fields@.len()
                &&& infos@[d].name@ == classes@[d].name@
                &&& infos@[d].fields@.len() == classes@[d].fields@.len()
            },
        decreases classes.len() - c,
    {
        let class = &classes[c];
        let mut fields: Vec<ClassFieldInfo> = Vec::new();
        let mut f: usize = 0;
        while f < class.fields.len()
            invariant
                f <= class.fields@.len(),
                fields@.len() == f,
            decreases class.fields.len() - f,
        {
            let field = &class.fields[f];
            fields.push(ClassFieldInfo { name: field.name.clone(), ty: field.ty, public: field.public });
            f = f + 1;
        }
        let ghost old_sizes = sizes@;
        let ghost old_infos = infos@;
        sizes.push(class.fields.len());
        infos.push(ClassInfo { name: class.name.clone(), fields });
        assert forall|d: int| 0 <= d < c + 1 implies {
            &&& #[trigger] sizes@[d] == classes@[d].fields@.len()
            &&& infos@[d].name@ == classes@[d].name@
            &&& infos@[d].fields@.len() == classes@[d].fields@.len()
        } by {
            if d < c {
                assert(sizes@[d] == old_sizes[d]);
                assert(infos@[d] == old_infos[d]);
            }
        }
        c = c + 1;
    }
    (sizes, infos)
}

/// Checks one parsed function: each statement, with errors prefixed by the
/// statement's position; every slot must end up with a type.
fn check_function(
    function: &syntax::Function,
    signatures: &Vec<(String, Signature)>,
    classes: &Vec<ClassDefinition>,
) -> (r: Result<Function, String>)
    ensures
        r matches Ok(f) ==> {
            &&& f.name@ == function.name@
            &&& f.parameters == function.parameters
            &&& f.result == function.result
            &&& f.types@.len() == function.types@.len()
            &&& all_instructions_typed(f.instructions@)
            &&& function.positions@.len() == function.statements@.len()
                ==> f.instructions@.len() == function.statements@.len()
            &&& forall|s: int| 0 <= s < f.instructions@.len() ==> statement_kept(
                function.statements@[s],
                #[trigger] f.instructions@[s],
            )
        },
{
    let mut checker = Checker {
        types: function.types.clone(),
        signatures,
        classes,
        owner: function.owner,
    };
    let mut instructions: Vec<Instruction> = Vec::new();
    let mut s: usize = 0;
    while s < function.statements.len() && s < function.positions.len()
        invariant
            checker.types@.len() == function.types@.len(),
            all_instructions_typed(instructions@),
            instructions@.len() == s,
            s <= function.statements@.len(),
            forall|k: int| 0 <= k < s ==> statement_kept(
                function.statements@[k],
                #[trigger] instructions@[k],
            ),
        decreases function.statements.len() - s,
    {
        match checker.statement(&function.statements[s]) {
            Ok(instruction) => {
                proof {
                    lemma_instructions_push(instructions@, instruction);
                }
                let ghost before = instructions@;
                instructions.push(instruction);
                assert forall|k: int| 0 <= k < s + 1 implies statement_kept(
                    function.statements@[k],
                    #[trigger] instructions@[k],
                ) by {
                    if k < s {
                        assert(instructions@[k] == before[k]);
                    }
                }
            },
            Err(error) => {
                return Err(function.positions[s].error(error.as_str()));
            },
        }
        s = s + 1;
    }
    let mut types: Vec<Type> = Vec::new();
    let mut k: usize = 0;
    while k < checker.types.len()
        invariant
            types@.len() == k,
            k <= checker.types@.len(),
        decreases checker.types.len() - k,
    {
        match checker.types[k] {
            Some(ty) => types.push(ty),
            None => {
                return Err(owned("every variable has an initializer or signature type"));
            },
        }
        k = k + 1;
    }
    let mut parameter_names: Vec<String> = Vec::new();
    let mut p: usize = 0;
    while p < function.parameters && p < function.bindings.len()
        decreases function.parameters - p,
    {
        parameter_names.push(function.bindings[p].0.clone());
        p = p + 1;
    }
    Ok(Function {
        name: function.name.clone(),
        parameters: function.parameters,
        result: function.result,
        types,
        instructions,
        parameter_names,
    })
}

/// Type-checks a parsed program: one typed function per parsed function, in
/// order, with the same names, parameter counts and result slots, with
/// well-typed instructions (see `instruction_typed`), one for each statement
/// of a function that has a position for each, and the layout of every
/// class.
pub fn check(program: &syntax::Program) -> (r: Result<Program, String>)
    ensures
        r matches Ok(typed) ==> {
            &&& typed.functions@.len() == program.functions@.len()
            &&& forall|f: int| 0 <= f < program.functions@.len() ==> {
                &&& (#[trigger] typed.functions@[f]).name@ == program.functions@[f].name@
                &&& typed.functions@[f].parameters == program.functions@[f].parameters
                &&& typed.functions@[f].result == program.functions@[f].result
                &&& typed.functions@[f].types@.len() == program.functions@[f].types@.len()
                &&& all_instructions_typed(typed.functions@[f].instructions@)
                &&& program.functions@[f].positions@.len() == program.functions@[f].statements@.len()
                    ==> typed.functions@[f].instructions@.len() == program.functions@[f].statements@.len()
            }
            &&& typed.class_sizes@.len() == program.classes@.len()
            &&& typed.classes@.len() == program.classes@.len()
            &&& forall|f: int| 0 <= f < program.functions@.len() ==> signature_known(
                #[trigger] program.functions@[f],
            )
            &&& forall|f: int, s: int|
                0 <= f < program.functions@.len() && 0 <= s < typed.functions@[f].instructions@.len()
                    ==> statement_kept(
                    program.functions@[f].statements@[s],
                    #[trigger] typed.functions@[f].instructions@[s],
                )
            &&& forall|c: int| 0 <= c < program.classes@.len() ==> {
                &&& #[trigger] typed.class_sizes@[c] == program.classes@[c].fields@.len()
                &&& typed.classes@[c].name@ == program.classes@[c].name@
                &&& typed.classes@[c].fields@.len() == program.classes@[c].fields@.len()
            }
        },
{
    let mut signatures: Vec<(String, Signature)> = Vec::new();
    let mut f: usize = 0;
    while f < program.functions.len()
        invariant
            f <= program.functions@.len(),
            forall|g: int| 0 <= g < f ==> signature_known(#[trigger] program.functions@[g]),
        decreases program.functions.len() - f,
    {
        let function = &program.functions[f];
        signatures.push((function.name.clone(), function_signature(function)?));
        f = f + 1;
    }
    validate_operator_methods(&program.classes, &signatures)?;
    let mut functions: Vec<Function> = Vec::new();
    let mut f: usize = 0;
    while f < program.functions.len()
        invariant
            f <= program.functions@.len(),
            functions@.len() == f,
            forall|g: int| 0 <= g < f ==> {
                &&& (#[trigger] functions@[g]).name@ == program.functions@[g].name@
                &&& functions@[g].parameters == program.functions@[g].parameters
                &&& functions@[g].result == program.functions@[g].result
                &&& functions@[g].types@.len() == program.functions@[g].types@.len()
                &&& all_instructions_typed(functions@[g].instructions@)
                &&& program.functions@[g].positions@.len() == program.functions@[g].statements@.len()
                    ==> functions@[g].instructions@.len() == program.functions@[g].statements@.len()
                &&& forall|s: int| 0 <= s < functions@[g].instructions@.len() ==> statement_kept(
                    program.functions@[g].statements@[s],
                    #[trigger] functions@[g].instructions@[s],
                )
            },
            forall|g: int| 0 <= g < program.functions@.len() ==> signature_known(#[trigger] program.functions@[g]),
        decreases program.functions.len() - f,
    {
        let checked = check_function(&program.functions[f], &signatures, &program.classes)?;
        functions.push(checked);
        f = f + 1;
    }
    let (class_sizes, classes) = class_layouts(&program.classes);
    Ok(Program { functions, class_sizes, classes })
}

} // verus!
