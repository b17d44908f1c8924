//! Generic functions and classes: each use `name<T1,...>` becomes a call of a
//! specialized copy `name__generic__T1__...` that is generated once per
//! distinct list of type arguments.

use super::{
    clone_positioned, clone_token, is_end, is_symbol, is_word, same_token, well_formed_tokens,
    Position, PositionedToken, Token,
};
use crate::text::{
    ascii_alphanumeric, chars_of, concat2, concat3, is_ascii_alphanumeric, owned, push_char, str_eq,
    starts_with,
    usize_text, string_views, pair_views,
};
use vstd::prelude::*;

verus! {

/// The text that a token contributes to a generic type name.
pub open spec fn token_type_text(token: Token) -> Seq<char> {
    match token {
        Token::Word(value) => value@,
        Token::Number(value) => value@,
        Token::Symbol(c) => seq![c],
        _ => "type"@,
    }
}

/// The name of a type written as a token sequence: the texts of its tokens,
/// concatenated.
pub open spec fn type_name_text(tokens: Seq<PositionedToken>) -> Seq<char>
    decreases tokens.len(),
{
    if tokens.len() == 0 {
        Seq::empty()
    } else {
        type_name_text(tokens.drop_last()) + token_type_text(tokens.last().0)
    }
}

/// The name of a type argument, such as `int` or `List[i64]`.
pub fn generic_type_name(tokens: &[PositionedToken]) -> (r: String)
    ensures
        r@ == type_name_text(tokens@),
{
    let mut r = String::new();
    let mut i: usize = 0;
    while i < tokens.len()
        invariant
            i <= tokens@.len(),
            r@ == type_name_text(tokens@.subrange(0, i as int)),
        decreases tokens.len() - i,
    {
        let ghost before = r@;
        match &tokens[i].0 {
            Token::Word(value) => r.append(value.as_str()),
            Token::Number(value) => r.append(value.as_str()),
            Token::Symbol(c) => push_char(&mut r, *c),
            _ => r.append("type"),
        }
        assert(tokens@.subrange(0, i + 1).drop_last() =~= tokens@.subrange(0, i as int));
        i = i + 1;
    }
    assert(tokens@.subrange(0, tokens@.len() as int) =~= tokens@);
    r
}

/// Names that satisfy the `numeric` constraint.
pub open spec fn numeric_name(name: Seq<char>) -> bool {
    name == "i8"@ || name == "i16"@ || name == "i32"@ || name == "i64"@ || name == "int"@
        || name == "u4"@ || name == "u8"@ || name == "u16"@ || name == "u32"@ || name == "u64"@
        || name == "u"@ || name == "f32"@ || name == "f64"@ || name == "f128"@ || name == "float"@
}

/// Names that satisfy the `integer` constraint.
pub open spec fn integer_name(name: Seq<char>) -> bool {
    name == "i8"@ || name == "i16"@ || name == "i32"@ || name == "i64"@ || name == "int"@
        || name == "u4"@ || name == "u8"@ || name == "u16"@ || name == "u32"@ || name == "u64"@
        || name == "u"@
}

/// Names that satisfy the `float` constraint.
pub open spec fn float_name(name: Seq<char>) -> bool {
    name == "f32"@ || name == "f64"@ || name == "f128"@ || name == "float"@
}

/// Whether a constraint accepts a type argument name: `None` when the
/// constraint is neither built in nor a declared trait.
pub open spec fn constraint_accepts(
    name: Seq<char>,
    constraint: Option<Seq<char>>,
    traits: Seq<Seq<char>>,
    implementations: Seq<(Seq<char>, Seq<char>)>,
) -> Option<bool> {
    match constraint {
        None => Some(true),
        Some(c) => if c == "any"@ {
            Some(true)
        } else if c == "numeric"@ {
            Some(numeric_name(name))
        } else if c == "integer"@ {
            Some(integer_name(name))
        } else if c == "float"@ {
            Some(float_name(name))
        } else if c == "comparable"@ {
            Some(name != "None"@ && !(name.len() >= 5 && name.subrange(0, 5) == "List["@))
        } else if traits.contains(c) {
            Some(implementations.contains((name, c)))
        } else {
            None
        },
    }
}

/// The built-in constraints follow the built-in types: `integer` accepts
/// exactly the type names that read as an integer type (so `int` and `u`
/// too), `numeric` exactly those that read as a numeric type, and `float`
/// exactly those that read as a float type, whatever traits are declared.
pub proof fn lemma_constraints_follow_types(
    name: Seq<char>,
    traits: Seq<Seq<char>>,
    implementations: Seq<(Seq<char>, Seq<char>)>,
)
    ensures
        constraint_accepts(name, Some("integer"@), traits, implementations) == Some(
            crate::types::named_type(name) matches Some(t) && t.is_integer(),
        ),
        constraint_accepts(name, Some("numeric"@), traits, implementations) == Some(
            crate::types::named_type(name) matches Some(t) && t.is_numeric(),
        ),
        constraint_accepts(name, Some("float"@), traits, implementations) == Some(
            crate::types::named_type(name) matches Some(t) && t.is_floating(),
        ),
{
    reveal_strlit("None");
    reveal_strlit("any");
    reveal_strlit("bool");
    reveal_strlit("f128");
    reveal_strlit("f32");
    reveal_strlit("f64");
    reveal_strlit("float");
    reveal_strlit("i16");
    reveal_strlit("i32");
    reveal_strlit("i64");
    reveal_strlit("i8");
    reveal_strlit("int");
    reveal_strlit("integer");
    reveal_strlit("numeric");
    reveal_strlit("string");
    reveal_strlit("u");
    reveal_strlit("u16");
    reveal_strlit("u32");
    reveal_strlit("u4");
    reveal_strlit("u64");
    reveal_strlit("u8");
    assert("integer"@.len() != "any"@.len() && "integer"@[0] != "numeric"@[0]);
    assert("numeric"@.len() != "any"@.len());
    assert("float"@.len() != "any"@.len() && "float"@.len() != "numeric"@.len()
        && "float"@.len() != "integer"@.len());
    if name == "i8"@ {
        assert("i8"@.len() != "i16"@.len() && "i8"@.len() != "i32"@.len() && "i8"@.len() != "int"@.len() && "i8"@.len() != "i64"@.len() && "i8"@[0] != "u4"@[0] && "i8"@[0] != "u8"@[0] && "i8"@.len() != "u16"@.len() && "i8"@.len() != "u32"@.len() && "i8"@.len() != "u"@.len() && "i8"@.len() != "u64"@.len() && "i8"@.len() != "f32"@.len() && "i8"@.len() != "f64"@.len() && "i8"@.len() != "float"@.len() && "i8"@.len() != "f128"@.len() && "i8"@.len() != "string"@.len() && "i8"@.len() != "bool"@.len() && "i8"@.len() != "None"@.len());
    }
    if name == "i16"@ {
        assert("i16"@.len() != "i8"@.len() && "i16"@[1] != "i32"@[1] && "i16"@[1] != "int"@[1] && "i16"@[1] != "i64"@[1] && "i16"@.len() != "u4"@.len() && "i16"@.len() != "u8"@.len() && "i16"@[0] != "u16"@[0] && "i16"@[0] != "u32"@[0] && "i16"@.len() != "u"@.len() && "i16"@[0] != "u64"@[0] && "i16"@[0] != "f32"@[0] && "i16"@[0] != "f64"@[0] && "i16"@.len() != "float"@.len() && "i16"@.len() != "f128"@.len() && "i16"@.len() != "string"@.len() && "i16"@.len() != "bool"@.len() && "i16"@.len() != "None"@.len());
    }
    if name == "i32"@ {
        assert("i32"@.len() != "i8"@.len() && "i32"@[1] != "i16"@[1] && "i32"@[1] != "int"@[1] && "i32"@[1] != "i64"@[1] && "i32"@.len() != "u4"@.len() && "i32"@.len() != "u8"@.len() && "i32"@[0] != "u16"@[0] && "i32"@[0] != "u32"@[0] && "i32"@.len() != "u"@.len() && "i32"@[0] != "u64"@[0] && "i32"@[0] != "f32"@[0] && "i32"@[0] != "f64"@[0] && "i32"@.len() != "float"@.len() && "i32"@.len() != "f128"@.len() && "i32"@.len() != "string"@.len() && "i32"@.len() != "bool"@.len() && "i32"@.len() != "None"@.len());
    }
    if name == "int"@ {
        assert("int"@.len() != "i8"@.len() && "int"@[1] != "i16"@[1] && "int"@[1] != "i32"@[1] && "int"@[1] != "i64"@[1] && "int"@.len() != "u4"@.len() && "int"@.len() != "u8"@.len() && "int"@[0] != "u16"@[0] && "int"@[0] != "u32"@[0] && "int"@.len() != "u"@.len() && "int"@[0] != "u64"@[0] && "int"@[0] != "f32"@[0] && "int"@[0] != "f64"@[0] && "int"@.len() != "float"@.len() && "int"@.len() != "f128"@.len() && "int"@.len() != "string"@.len() && "int"@.len() != "bool"@.len() && "int"@.len() != "None"@.len());
    }
    if name == "i64"@ {
        assert("i64"@.len() != "i8"@.len() && "i64"@[1] != "i16"@[1] && "i64"@[1] != "i32"@[1] && "i64"@[1] != "int"@[1] && "i64"@.len() != "u4"@.len() && "i64"@.len() != "u8"@.len() && "i64"@[0] != "u16"@[0] && "i64"@[0] != "u32"@[0] && "i64"@.len() != "u"@.len() && "i64"@[0] != "u64"@[0] && "i64"@[0] != "f32"@[0] && "i64"@[0] != "f64"@[0] && "i64"@.len() != "float"@.len() && "i64"@.len() != "f128"@.len() && "i64"@.len() != "string"@.len() && "i64"@.len() != "bool"@.len() && "i64"@.len() != "None"@.len());
    }
    if name == "u4"@ {
        assert("u4"@[0] != "i8"@[0] && "u4"@.len() != "i16"@.len() && "u4"@.len() != "i32"@.len() && "u4"@.len() != "int"@.len() && "u4"@.len() != "i64"@.len() && "u4"@[1] != "u8"@[1] && "u4"@.len() != "u16"@.len() && "u4"@.len() != "u32"@.len() && "u4"@.len() != "u"@.len() && "u4"@.len() != "u64"@.len() && "u4"@.len() != "f32"@.len() && "u4"@.len() != "f64"@.len() && "u4"@.len() != "float"@.len() && "u4"@.len() != "f128"@.len() && "u4"@.len() != "string"@.len() && "u4"@.len() != "bool"@.len() && "u4"@.len() != "None"@.len());
    }
    if name == "u8"@ {
        assert("u8"@[0] != "i8"@[0] && "u8"@.len() != "i16"@.len() && "u8"@.len() != "i32"@.len() && "u8"@.len() != "int"@.len() && "u8"@.len() != "i64"@.len() && "u8"@[1] != "u4"@[1] && "u8"@.len() != "u16"@.len() && "u8"@.len() != "u32"@.len() && "u8"@.len() != "u"@.len() && "u8"@.len() != "u64"@.len() && "u8"@.len() != "f32"@.len() && "u8"@.len() != "f64"@.len() && "u8"@.len() != "float"@.len() && "u8"@.len() != "f128"@.len() && "u8"@.len() != "string"@.len() && "u8"@.len() != "bool"@.len() && "u8"@.len() != "None"@.len());
    }
    if name == "u16"@ {
        assert("u16"@.len() != "i8"@.len() && "u16"@[0] != "i16"@[0] && "u16"@[0] != "i32"@[0] && "u16"@[0] != "int"@[0] && "u16"@[0] != "i64"@[0] && "u16"@.len() != "u4"@.len() && "u16"@.len() != "u8"@.len() && "u16"@[1] != "u32"@[1] && "u16"@.len() != "u"@.len() && "u16"@[1] != "u64"@[1] && "u16"@[0] != "f32"@[0] && "u16"@[0] != "f64"@[0] && "u16"@.len() != "float"@.len() && "u16"@.len() != "f128"@.len() && "u16"@.len() != "string"@.len() && "u16"@.len() != "bool"@.len() && "u16"@.len() != "None"@.len());
    }
    if name == "u32"@ {
        assert("u32"@.len() != "i8"@.len() && "u32"@[0] != "i16"@[0] && "u32"@[0] != "i32"@[0] && "u32"@[0] != "int"@[0] && "u32"@[0] != "i64"@[0] && "u32"@.len() != "u4"@.len() && "u32"@.len() != "u8"@.len() && "u32"@[1] != "u16"@[1] && "u32"@.len() != "u"@.len() && "u32"@[1] != "u64"@[1] && "u32"@[0] != "f32"@[0] && "u32"@[0] != "f64"@[0] && "u32"@.len() != "float"@.len() && "u32"@.len() != "f128"@.len() && "u32"@.len() != "string"@.len() && "u32"@.len() != "bool"@.len() && "u32"@.len() != "None"@.len());
    }
    if name == "u"@ {
        assert("u"@.len() != "i8"@.len() && "u"@.len() != "i16"@.len() && "u"@.len() != "i32"@.len() && "u"@.len() != "int"@.len() && "u"@.len() != "i64"@.len() && "u"@.len() != "u4"@.len() && "u"@.len() != "u8"@.len() && "u"@.len() != "u16"@.len() && "u"@.len() != "u32"@.len() && "u"@.len() != "u64"@.len() && "u"@.len() != "f32"@.len() && "u"@.len() != "f64"@.len() && "u"@.len() != "float"@.len() && "u"@.len() != "f128"@.len() && "u"@.len() != "string"@.len() && "u"@.len() != "bool"@.len() && "u"@.len() != "None"@.len());
    }
    if name == "u64"@ {
        assert("u64"@.len() != "i8"@.len() && "u64"@[0] != "i16"@[0] && "u64"@[0] != "i32"@[0] && "u64"@[0] != "int"@[0] && "u64"@[0] != "i64"@[0] && "u64"@.len() != "u4"@.len() && "u64"@.len() != "u8"@.len() && "u64"@[1] != "u16"@[1] && "u64"@[1] != "u32"@[1] && "u64"@.len() != "u"@.len() && "u64"@[0] != "f32"@[0] && "u64"@[0] != "f64"@[0] && "u64"@.len() != "float"@.len() && "u64"@.len() != "f128"@.len() && "u64"@.len() != "string"@.len() && "u64"@.len() != "bool"@.len() && "u64"@.len() != "None"@.len());
    }
    if name == "f32"@ {
        assert("f32"@.len() != "i8"@.len() && "f32"@[0] != "i16"@[0] && "f32"@[0] != "i32"@[0] && "f32"@[0] != "int"@[0] && "f32"@[0] != "i64"@[0] && "f32"@.len() != "u4"@.len() && "f32"@.len() != "u8"@.len() && "f32"@[0] != "u16"@[0] && "f32"@[0] != "u32"@[0] && "f32"@.len() != "u"@.len() && "f32"@[0] != "u64"@[0] && "f32"@[1] != "f64"@[1] && "f32"@.len() != "float"@.len() && "f32"@.len() != "f128"@.len() && "f32"@.len() != "string"@.len() && "f32"@.len() != "bool"@.len() && "f32"@.len() != "None"@.len());
    }
    if name == "f64"@ {
        assert("f64"@.len() != "i8"@.len() && "f64"@[0] != "i16"@[0] && "f64"@[0] != "i32"@[0] && "f64"@[0] != "int"@[0] && "f64"@[0] != "i64"@[0] && "f64"@.len() != "u4"@.len() && "f64"@.len() != "u8"@.len() && "f64"@[0] != "u16"@[0] && "f64"@[0] != "u32"@[0] && "f64"@.len() != "u"@.len() && "f64"@[0] != "u64"@[0] && "f64"@[1] != "f32"@[1] && "f64"@.len() != "float"@.len() && "f64"@.len() != "f128"@.len() && "f64"@.len() != "string"@.len() && "f64"@.len() != "bool"@.len() && "f64"@.len() != "None"@.len());
    }
    if name == "float"@ {
        assert("float"@.len() != "i8"@.len() && "float"@.len() != "i16"@.len() && "float"@.len() != "i32"@.len() && "float"@.len() != "int"@.len() && "float"@.len() != "i64"@.len() && "float"@.len() != "u4"@.len() && "float"@.len() != "u8"@.len() && "float"@.len() != "u16"@.len() && "float"@.len() != "u32"@.len() && "float"@.len() != "u"@.len() && "float"@.len() != "u64"@.len() && "float"@.len() != "f32"@.len() && "float"@.len() != "f64"@.len() && "float"@.len() != "f128"@.len() && "float"@.len() != "string"@.len() && "float"@.len() != "bool"@.len() && "float"@.len() != "None"@.len());
    }
    if name == "f128"@ {
        assert("f128"@.len() != "i8"@.len() && "f128"@.len() != "i16"@.len() && "f128"@.len() != "i32"@.len() && "f128"@.len() != "int"@.len() && "f128"@.len() != "i64"@.len() && "f128"@.len() != "u4"@.len() && "f128"@.len() != "u8"@.len() && "f128"@.len() != "u16"@.len() && "f128"@.len() != "u32"@.len() && "f128"@.len() != "u"@.len() && "f128"@.len() != "u64"@.len() && "f128"@.len() != "f32"@.len() && "f128"@.len() != "f64"@.len() && "f128"@.len() != "float"@.len() && "f128"@.len() != "string"@.len() && "f128"@[0] != "bool"@[0] && "f128"@[0] != "None"@[0]);
    }
    if name == "string"@ {
        assert("string"@.len() != "i8"@.len() && "string"@.len() != "i16"@.len() && "string"@.len() != "i32"@.len() && "string"@.len() != "int"@.len() && "string"@.len() != "i64"@.len() && "string"@.len() != "u4"@.len() && "string"@.len() != "u8"@.len() && "string"@.len() != "u16"@.len() && "string"@.len() != "u32"@.len() && "string"@.len() != "u"@.len() && "string"@.len() != "u64"@.len() && "string"@.len() != "f32"@.len() && "string"@.len() != "f64"@.len() && "string"@.len() != "float"@.len() && "string"@.len() != "f128"@.len() && "string"@.len() != "bool"@.len() && "string"@.len() != "None"@.len());
    }
    if name == "bool"@ {
        assert("bool"@.len() != "i8"@.len() && "bool"@.len() != "i16"@.len() && "bool"@.len() != "i32"@.len() && "bool"@.len() != "int"@.len() && "bool"@.len() != "i64"@.len() && "bool"@.len() != "u4"@.len() && "bool"@.len() != "u8"@.len() && "bool"@.len() != "u16"@.len() && "bool"@.len() != "u32"@.len() && "bool"@.len() != "u"@.len() && "bool"@.len() != "u64"@.len() && "bool"@.len() != "f32"@.len() && "bool"@.len() != "f64"@.len() && "bool"@.len() != "float"@.len() && "bool"@[0] != "f128"@[0] && "bool"@.len() != "string"@.len() && "bool"@[0] != "None"@[0]);
    }
    if name == "None"@ {
        assert("None"@.len() != "i8"@.len() && "None"@.len() != "i16"@.len() && "None"@.len() != "i32"@.len() && "None"@.len() != "int"@.len() && "None"@.len() != "i64"@.len() && "None"@.len() != "u4"@.len() && "None"@.len() != "u8"@.len() && "None"@.len() != "u16"@.len() && "None"@.len() != "u32"@.len() && "None"@.len() != "u"@.len() && "None"@.len() != "u64"@.len() && "None"@.len() != "f32"@.len() && "None"@.len() != "f64"@.len() && "None"@.len() != "float"@.len() && "None"@[0] != "f128"@[0] && "None"@.len() != "string"@.len() && "None"@[0] != "bool"@[0]);
    }
}

fn names_contain(names: &Vec<String>, name: &str) -> (r: bool)
    ensures
        r == string_views(names@).contains(name@),
{
    let mut i: usize = 0;
    while i < names.len()
        invariant
            i <= names.len(),
            forall|j: int| 0 <= j < i ==> names@[j]@ != name@,
        decreases names.len() - i,
    {
        if str_eq(names[i].as_str(), name) {
            assert(string_views(names@)[i as int] == name@);
            return true;
        }
        i = i + 1;
    }
    assert forall|j: int| 0 <= j < names@.len() implies #[trigger] string_views(names@)[j] != name@ by {}
    false
}

fn pairs_contain(pairs: &Vec<(String, String)>, a: &str, b: &str) -> (r: bool)
    ensures
        r == pair_views(pairs@).contains((a@, b@)),
{
    let mut i: usize = 0;
    while i < pairs.len()
        invariant
            i <= pairs.len(),
            forall|j: int| 0 <= j < i ==> (pairs@[j].0@, pairs@[j].1@) != (a@, b@),
        decreases pairs.len() - i,
    {
        if str_eq(pairs[i].0.as_str(), a) && str_eq(pairs[i].1.as_str(), b) {
            assert(pair_views(pairs@)[i as int] == (a@, b@));
            return true;
        }
        i = i + 1;
    }
    assert forall|j: int| 0 <= j < pairs@.len() implies
        #[trigger] pair_views(pairs@)[j] != (a@, b@) by {}
    false
}

/// Checks a type argument against its parameter's constraint: `any`,
/// `numeric`, `integer`, `float`, `comparable`, or a trait that the argument
/// class must implement.
pub fn validate_generic_constraint(
    argument: &[PositionedToken],
    constraint: Option<&str>,
    position: Position,
    traits: &Vec<String>,
    implementations: &Vec<(String, String)>,
) -> (r: Result<(), String>)
    ensures
        ({
            let accepted = constraint_accepts(
                type_name_text(argument@),
                match constraint { Some(c) => Some(c@), None => None },
                string_views(traits@),
                pair_views(implementations@),
            );
            r is Ok <==> accepted == Some(true)
        }),
{
    let name = generic_type_name(argument);
    let n = name.as_str();
    proof {
        reveal_strlit("List[");
    }
    let accepted = match constraint {
        None => true,
        Some(c) => if str_eq(c, "any") {
            true
        } else if str_eq(c, "numeric") {
            str_eq(n, "i8") || str_eq(n, "i16") || str_eq(n, "i32") || str_eq(n, "i64")
                || str_eq(n, "int") || str_eq(n, "u4") || str_eq(n, "u8") || str_eq(n, "u16")
                || str_eq(n, "u32") || str_eq(n, "u64") || str_eq(n, "u") || str_eq(n, "f32")
                || str_eq(n, "f64") || str_eq(n, "f128") || str_eq(n, "float")
        } else if str_eq(c, "integer") {
            str_eq(n, "i8") || str_eq(n, "i16") || str_eq(n, "i32") || str_eq(n, "i64")
                || str_eq(n, "int") || str_eq(n, "u4") || str_eq(n, "u8") || str_eq(n, "u16")
                || str_eq(n, "u32") || str_eq(n, "u64") || str_eq(n, "u")
        } else if str_eq(c, "float") {
            str_eq(n, "f32") || str_eq(n, "f64") || str_eq(n, "f128") || str_eq(n, "float")
        } else if str_eq(c, "comparable") {
            !str_eq(n, "None") && !starts_with(n, "List[")
        } else if names_contain(traits, c) {
            pairs_contain(implementations, n, c)
        } else {
            let message = concat3("unknown generic constraint '", c, "'");
            return Err(position.error(message.as_str()));
        },
    };
    if accepted {
        Ok(())
    } else {
        let shown = match constraint {
            Some(c) => c,
            None => "any",
        };
        let mut message = concat3("type '", n, "' does not satisfy generic constraint '");
        message.append(shown);
        message.append("'");
        Err(position.error(message.as_str()))
    }
}

/// The token lists of a list of token vectors.
pub open spec fn token_lists(lists: Seq<Vec<PositionedToken>>) -> Seq<Seq<PositionedToken>> {
    lists.map_values(|list: Vec<PositionedToken>| list@)
}

/// The generic arguments from token `index` on, inside `angles` nested `<`
/// and `brackets` nested `[`, after the finished arguments `done` and the
/// tokens `current` of the one being read: all arguments and the index after
/// the closing `>`; `None` at an empty list or where `End` comes first.
pub open spec fn argument_split(
    tokens: Seq<PositionedToken>,
    index: int,
    angles: int,
    brackets: int,
    done: Seq<Seq<PositionedToken>>,
    current: Seq<PositionedToken>,
) -> Option<(Seq<Seq<PositionedToken>>, int)>
    decreases tokens.len() - index,
{
    if !(0 <= index < tokens.len()) || tokens[index].0 is End {
        None
    } else {
        let t = tokens[index].0;
        if t == Token::Symbol('>') && angles == 0 && brackets == 0 {
            if current.len() == 0 {
                None
            } else {
                Some((done.push(current), index + 1))
            }
        } else if t == Token::Symbol(',') && angles == 0 && brackets == 0 {
            argument_split(tokens, index + 1, angles, brackets, done.push(current), seq![])
        } else {
            let a = if t == Token::Symbol('<') {
                angles + 1
            } else if t == Token::Symbol('>') {
                if angles > 0 { angles - 1 } else { 0 }
            } else {
                angles
            };
            let b = if t == Token::Symbol('[') {
                brackets + 1
            } else if t == Token::Symbol(']') {
                if brackets > 0 { brackets - 1 } else { 0 }
            } else {
                brackets
            };
            argument_split(tokens, index + 1, a, b, done, current.push(tokens[index]))
        }
    }
}

/// The arguments between `<` at `start` and its matching `>`, split at
/// top-level commas, and the index after the `>`.
fn generic_arguments(tokens: &Vec<PositionedToken>, start: usize)
    -> (r: Result<(Vec<Vec<PositionedToken>>, usize), String>)
    requires
        start < tokens.len(),
        well_formed_tokens(tokens@),
    ensures
        r is Ok <==> argument_split(tokens@, start + 1, 0, 0, seq![], seq![]) is Some,
        r matches Ok((arguments, end)) ==> argument_split(tokens@, start + 1, 0, 0, seq![], seq![])
            == Some((token_lists(arguments@), end as int)),
        r matches Ok((arguments, end)) ==> {
            &&& start < end < tokens.len()
            &&& arguments@.len() > 0
            &&& forall|a: int, k: int| 0 <= a < arguments@.len() && 0 <= k < arguments@[a]@.len()
                ==> !(#[trigger] arguments@[a]@[k].0 is End)
        },
{
    let position = tokens[start].1;
    let mut arguments: Vec<Vec<PositionedToken>> = Vec::new();
    let mut current: Vec<PositionedToken> = Vec::new();
    let mut angles: usize = 0;
    let mut brackets: usize = 0;
    let mut index = start + 1;
    assert(token_lists(arguments@) =~= seq![]);
    assert(current@ =~= seq![]);
    while index < tokens.len()
        invariant
            start < index <= tokens.len(),
            well_formed_tokens(tokens@),
            forall|a: int, k: int| 0 <= a < arguments@.len() && 0 <= k < arguments@[a]@.len()
                ==> !(#[trigger] arguments@[a]@[k].0 is End),
            forall|k: int| 0 <= k < current@.len() ==> !(#[trigger] current@[k].0 is End),
            angles <= index,
            brackets <= index,
            argument_split(tokens@, start + 1, 0, 0, seq![], seq![]) == argument_split(
                tokens@,
                index as int,
                angles as int,
                brackets as int,
                token_lists(arguments@),
                current@,
            ),
        decreases tokens.len() - index,
    {
        let token = &tokens[index].0;
        if is_end(token) {
            break;
        }
        assert(index < tokens@.len() - 1);
        if is_symbol(token, '>') && angles == 0 && brackets == 0 {
            if current.len() == 0 {
                return Err(position.error("generic argument list cannot be empty"));
            }
            let ghost finished = current@;
            let ghost before = token_lists(arguments@);
            push_argument(&mut arguments, current);
            assert(token_lists(arguments@) =~= before.push(finished));
            return Ok((arguments, index + 1));
        } else if is_symbol(token, ',') && angles == 0 && brackets == 0 {
            let ghost finished = current@;
            let ghost before = token_lists(arguments@);
            push_argument(&mut arguments, current);
            assert(token_lists(arguments@) =~= before.push(finished));
            current = Vec::new();
            assert(current@ =~= seq![]);
        } else {
            if is_symbol(token, '<') {
                angles = angles + 1;
            } else if is_symbol(token, '>') {
                angles = if angles > 0 { angles - 1 } else { 0 };
            } else if is_symbol(token, '[') {
                brackets = brackets + 1;
            } else if is_symbol(token, ']') {
                brackets = if brackets > 0 { brackets - 1 } else { 0 };
            }
            push_non_end(&mut current, clone_positioned(&tokens[index]));
        }
        index = index + 1;
    }
    Err(position.error("unterminated generic argument list; expected '>'"))
}

fn push_argument(arguments: &mut Vec<Vec<PositionedToken>>, argument: Vec<PositionedToken>)
    requires
        forall|k: int| 0 <= k < argument@.len() ==> !(#[trigger] argument@[k].0 is End),
        forall|a: int, k: int| 0 <= a < old(arguments)@.len() && 0 <= k < old(arguments)@[a]@.len()
            ==> !(#[trigger] old(arguments)@[a]@[k].0 is End),
    ensures
        final(arguments)@ == old(arguments)@.push(argument),
        forall|a: int, k: int| 0 <= a < final(arguments)@.len() && 0 <= k < final(arguments)@[a]@.len()
            ==> !(#[trigger] final(arguments)@[a]@[k].0 is End),
{
    arguments.push(argument);
    assert forall|a: int, k: int| 0 <= a < arguments@.len() && 0 <= k < arguments@[a]@.len()
        implies !(#[trigger] arguments@[a]@[k].0 is End) by {
        if a < arguments@.len() - 1 {
            assert(arguments@[a] == old(arguments)@[a]);
        }
    }
}

/// Appends a token that is not `End`.
pub fn push_non_end(out: &mut Vec<PositionedToken>, token: PositionedToken)
    requires
        !(token.0 is End),
        forall|k: int| 0 <= k < old(out)@.len() ==> !(#[trigger] old(out)@[k].0 is End),
    ensures
        final(out)@ == old(out)@.push(token),
        forall|k: int| 0 <= k < final(out)@.len() ==> !(#[trigger] final(out)@[k].0 is End),
{
    out.push(token);
    assert forall|k: int| 0 <= k < out@.len() implies !(#[trigger] out@[k].0 is End) by {
        if k < out@.len() - 1 {
            assert(out@[k] == old(out)@[k]);
        }
    }
}

struct GenericTemplate {
    name: String,
    class: bool,
    parameters: Vec<(String, Option<String>)>,
    tokens: Vec<PositionedToken>,
    start: usize,
    end: usize,
}

/// Each `(specialized name, type arguments)` pair requested of a template.
type Instances = Vec<(String, Vec<(String, Vec<Vec<PositionedToken>>)>)>;

/// No token of the sequence is `End`.
pub open spec fn no_end(tokens: Seq<PositionedToken>) -> bool {
    forall|k: int| 0 <= k < tokens.len() ==> !(#[trigger] tokens[k].0 is End)
}

/// Each template spans a nonempty range of the `len` tokens.
spec fn templates_within(templates: Seq<GenericTemplate>, len: nat) -> bool {
    forall|t: int| 0 <= t < templates.len() ==> {
        &&& (#[trigger] templates[t]).start < templates[t].end
        &&& templates[t].end <= len
    }
}

/// The names declared with `trait Name` from position `i` on.
pub open spec fn trait_names_from(tokens: Seq<PositionedToken>, i: int) -> Seq<Seq<char>>
    decreases tokens.len() - i,
{
    if i < 0 || i + 1 >= tokens.len() {
        seq![]
    } else if tokens[i].0 is Word && tokens[i].0->Word_0@ == "trait"@ && tokens[i + 1].0 is Word {
        seq![tokens[i + 1].0->Word_0@] + trait_names_from(tokens, i + 1)
    } else {
        trait_names_from(tokens, i + 1)
    }
}

/// Names declared with `trait Name`.
fn collect_traits(tokens: &Vec<PositionedToken>) -> (r: Vec<String>)
    ensures
        string_views(r@) == trait_names_from(tokens@, 0),
{
    let mut traits: Vec<String> = Vec::new();
    let mut i: usize = 0;
    assert(string_views(traits@) =~= seq![]);
    while i < tokens.len() && i + 1 < tokens.len()
        invariant
            i <= tokens.len(),
            trait_names_from(tokens@, 0) == string_views(traits@) + trait_names_from(tokens@, i as int),
        decreases tokens.len() - i,
    {
        let ghost before = string_views(traits@);
        if is_word(&tokens[i].0, "trait") {
            if let Token::Word(name) = &tokens[i + 1].0 {
                traits.push(name.clone());
                assert(string_views(traits@) =~= before.push(name@));
                assert(before + trait_names_from(tokens@, i as int) =~= string_views(traits@)
                    + trait_names_from(tokens@, i + 1));
            }
        }
        i = i + 1;
    }
    assert(string_views(traits@) + trait_names_from(tokens@, i as int) =~= string_views(traits@));
    traits
}

/// Each name paired with `class`.
pub open spec fn with_class(class: Seq<char>, names: Seq<Seq<char>>) -> Seq<(Seq<char>, Seq<char>)> {
    names.map_values(|t: Seq<char>| (class, t))
}

/// The trait names from position `k` on, up to the first token that is
/// neither a word nor a comma.
pub open spec fn listed_traits(tokens: Seq<PositionedToken>, k: int) -> Seq<Seq<char>>
    decreases tokens.len() - k,
{
    if k < 0 || k >= tokens.len() {
        seq![]
    } else if tokens[k].0 is Word {
        seq![tokens[k].0->Word_0@] + listed_traits(tokens, k + 1)
    } else if tokens[k].0 == Token::Symbol(',') {
        listed_traits(tokens, k + 1)
    } else {
        seq![]
    }
}

/// The traits listed after `implements` in a class header that starts at
/// `found`, up to the first token that is neither a word nor a comma.
fn implemented_traits(
    tokens: &Vec<PositionedToken>,
    class: &String,
    found: usize,
    implementations: &mut Vec<(String, String)>,
)
    requires
        found < tokens.len(),
    ensures
        pair_views(final(implementations)@) == pair_views(old(implementations)@) + with_class(
            class@,
            listed_traits(tokens@, found + 1),
        ),
{
    let mut k = found + 1;
    let ghost start = pair_views(old(implementations)@);
    assert(listed_traits(tokens@, found + 1).subrange(0, 0).map_values(|t: Seq<char>| (class@, t))
        =~= seq![]);
    while k < tokens.len()
        invariant
            found + 1 <= k,
            start == pair_views(old(implementations)@),
            pair_views(implementations@) + listed_traits(tokens@, k as int).map_values(
                |t: Seq<char>| (class@, t),
            ) == start + listed_traits(tokens@, found + 1).map_values(|t: Seq<char>| (class@, t)),
        decreases tokens.len() - k,
    {
        let ghost before = pair_views(implementations@);
        match &tokens[k].0 {
            Token::Word(trait_name) => {
                implementations.push((class.clone(), trait_name.clone()));
                assert(pair_views(implementations@) =~= before.push((class@, trait_name@)));
                assert(listed_traits(tokens@, k as int).map_values(|t: Seq<char>| (class@, t))
                    =~= seq![(class@, trait_name@)] + listed_traits(tokens@, k + 1).map_values(
                    |t: Seq<char>| (class@, t),
                ));
                assert(before + listed_traits(tokens@, k as int).map_values(|t: Seq<char>| (class@, t))
                    =~= pair_views(implementations@) + listed_traits(tokens@, k + 1).map_values(
                    |t: Seq<char>| (class@, t),
                ));
            },
            Token::Symbol(c) => {
                if *c != ',' {
                    break;
                }
            },
            _ => {
                break;
            },
        }
        k = k + 1;
    }
}

/// The position of `implements` from `cursor` on, before any `{`.
pub open spec fn implements_at(tokens: Seq<PositionedToken>, cursor: int) -> Option<int>
    decreases tokens.len() - cursor,
{
    if cursor < 0 || cursor >= tokens.len() || tokens[cursor].0 == Token::Symbol('{') {
        None
    } else if tokens[cursor].0 is Word && tokens[cursor].0->Word_0@ == "implements"@ {
        Some(cursor)
    } else {
        implements_at(tokens, cursor + 1)
    }
}

/// The `(class, trait)` pairs of the class headers from position `index` on.
pub open spec fn implementations_from(tokens: Seq<PositionedToken>, index: int) -> Seq<
    (Seq<char>, Seq<char>),
>
    decreases tokens.len() - index,
{
    if index < 0 || index + 2 >= tokens.len() {
        seq![]
    } else {
        let here = if tokens[index].0 is Word && tokens[index].0->Word_0@ == "class"@ && tokens[index
            + 1].0 is Word {
            let class = tokens[index + 1].0->Word_0@;
            match implements_at(tokens, index + 2) {
                Some(found) => with_class(class, listed_traits(tokens, found + 1)),
                None => seq![],
            }
        } else {
            seq![]
        };
        here + implementations_from(tokens, index + 1)
    }
}

/// The `(class, trait)` pairs declared by `class Name ... implements A, B {`.
fn collect_implementations(tokens: &Vec<PositionedToken>) -> (r: Vec<(String, String)>)
    ensures
        pair_views(r@) == implementations_from(tokens@, 0),
{
    let mut implementations: Vec<(String, String)> = Vec::new();
    let mut index: usize = 0;
    assert(pair_views(implementations@) =~= seq![]);
    while index < tokens.len() && tokens.len() - index > 2
        invariant
            index <= tokens.len(),
            implementations_from(tokens@, 0) == pair_views(implementations@) + implementations_from(
                tokens@,
                index as int,
            ),
        decreases tokens.len() - index,
    {
        let ghost before = pair_views(implementations@);
        let ghost rest = implementations_from(tokens@, index + 1);
        if is_word(&tokens[index].0, "class") {
            if let Token::Word(class) = &tokens[index + 1].0 {
                let mut cursor = index + 2;
                let mut implements: Option<usize> = None;
                while implements.is_none() && cursor < tokens.len() && !is_symbol(&tokens[cursor].0, '{')
                    invariant
                        index + 2 <= cursor <= tokens.len(),
                        implements matches Some(k) ==> k < tokens.len() && implements_at(
                            tokens@,
                            index + 2,
                        ) == Some(k as int),
                        implements is None ==> implements_at(tokens@, index + 2) == implements_at(
                            tokens@,
                            cursor as int,
                        ),
                    decreases tokens.len() - cursor, if implements is None { 1int } else { 0int },
                {
                    if is_word(&tokens[cursor].0, "implements") {
                        implements = Some(cursor);
                    } else {
                        cursor = cursor + 1;
                    }
                }
                if let Some(found) = implements {
                    implemented_traits(tokens, class, found, &mut implementations);
                    let ghost here = with_class(class@, listed_traits(tokens@, found + 1));
                    assert(pair_views(implementations@) =~= before + here);
                    assert(tokens@[index + 1].0->Word_0@ == class@);
                    assert(implementations_from(tokens@, index as int) =~= here + rest);
                    assert(before + (here + rest) =~= pair_views(implementations@) + rest);
                } else {
                    assert(implements_at(tokens@, index + 2) is None);
                    assert(implementations_from(tokens@, index as int) =~= rest);
                    assert(before + rest =~= pair_views(implementations@) + rest);
                }
            } else {
                assert(implementations_from(tokens@, index as int) =~= rest);
            }
        } else {
            assert(implementations_from(tokens@, index as int) =~= rest);
        }
        index = index + 1;
    }
    assert(implementations_from(tokens@, index as int) =~= seq![]);
    assert(pair_views(implementations@) + seq![] =~= pair_views(implementations@));
    implementations
}

/// The name and constraint of a generic parameter written `T` or
/// `T:constraint`, or `None` for another shape.
pub open spec fn parameter_shape(tokens: Seq<PositionedToken>) -> Option<(Seq<char>, Option<Seq<char>>)> {
    if tokens.len() >= 1 && tokens[0].0 is Word {
        if tokens.len() == 1 {
            Some((tokens[0].0->Word_0@, None))
        } else if tokens.len() == 3 && tokens[1].0 == Token::Symbol(':') && tokens[2].0 is Word {
            Some((tokens[0].0->Word_0@, Some(tokens[2].0->Word_0@)))
        } else {
            None
        }
    } else {
        None
    }
}

/// A read parameter as texts.
pub open spec fn parameter_view(parameter: (String, Option<String>)) -> (Seq<char>, Option<Seq<char>>) {
    (parameter.0@, match parameter.1 {
        Some(c) => Some(c@),
        None => None,
    })
}

/// Whether parameter `b` has a valid shape.
pub open spec fn shaped(arguments: Seq<Seq<PositionedToken>>, b: int) -> bool {
    parameter_shape(arguments[b]) is Some
}

/// Whether parameters `b` and `c` have different names.
pub open spec fn distinct_names(arguments: Seq<Seq<PositionedToken>>, b: int, c: int) -> bool {
    parameter_shape(arguments[b]).unwrap().0 != parameter_shape(arguments[c]).unwrap().0
}

/// Whether every parameter has the shape `T` or `T:constraint` and no name
/// repeats.
pub open spec fn parameters_well_formed(arguments: Seq<Seq<PositionedToken>>) -> bool {
    &&& forall|b: int| 0 <= b < arguments.len() ==> #[trigger] shaped(arguments, b)
    &&& forall|b: int, c: int| 0 <= b < c < arguments.len() ==> distinct_names(arguments, b, c)
}

/// Reads the parameter list of a generic declaration whose `<` is at `open`:
/// each parameter is `T` or `T:constraint`, and no name repeats.
fn template_parameters(open: Position, arguments: &Vec<Vec<PositionedToken>>)
    -> (r: Result<Vec<(String, Option<String>)>, String>)
    ensures
        r is Ok <==> parameters_well_formed(token_lists(arguments@)),
        r matches Ok(parameters) ==> parameters@.len() == arguments@.len() && forall|a: int|
            0 <= a < arguments@.len() ==> Some(parameter_view(#[trigger] parameters@[a]))
                == parameter_shape(arguments@[a]@),
{
    let mut parameters: Vec<(String, Option<String>)> = Vec::new();
    let mut a: usize = 0;
    while a < arguments.len()
        invariant
            a <= arguments@.len(),
            parameters@.len() == a,
            forall|b: int| 0 <= b < a ==> Some(parameter_view(#[trigger] parameters@[b]))
                == parameter_shape(arguments@[b]@),
            forall|b: int| 0 <= b < a ==> #[trigger] shaped(token_lists(arguments@), b),
            forall|b: int, c: int| 0 <= b < c < a ==> distinct_names(token_lists(arguments@), b, c),
        decreases arguments.len() - a,
    {
        let parameter = &arguments[a];
        assert(token_lists(arguments@)[a as int] == parameter@);
        if parameter.len() == 0 {
            assert(!shaped(token_lists(arguments@), a as int));
            return Err(open.error("expected a generic parameter name"));
        }
        let parameter_name = match &parameter[0].0 {
            Token::Word(name) => name.clone(),
            _ => {
                assert(!shaped(token_lists(arguments@), a as int));
            return Err(open.error("expected a generic parameter name"));
            },
        };
        let constraint = if parameter.len() == 1 {
            None
        } else if parameter.len() == 3 && is_symbol(&parameter[1].0, ':') {
            match &parameter[2].0 {
                Token::Word(value) => Some(value.clone()),
                _ => {
                    assert(!shaped(token_lists(arguments@), a as int));
            return Err(parameter[0].1.error("expected 'T' or 'T:constraint'"));
                },
            }
        } else {
            assert(!shaped(token_lists(arguments@), a as int));
            return Err(parameter[0].1.error("expected 'T' or 'T:constraint'"));
        };
        assert(parameter_shape(arguments@[a as int]@) == Some(
            (parameter_name@, match constraint { Some(c) => Some(c@), None => None }),
        ));
        assert(shaped(token_lists(arguments@), a as int));
        let mut p: usize = 0;
        while p < parameters.len()
            invariant
                p <= parameters@.len(),
                parameters@.len() == a,
                forall|b: int| 0 <= b < p ==> distinct_names(token_lists(arguments@), b, a as int),
            decreases parameters.len() - p,
        {
            assert(Some(parameter_view(parameters@[p as int])) == parameter_shape(arguments@[p as int]@));
            assert(token_lists(arguments@)[p as int] == arguments@[p as int]@);
            if str_eq(parameters[p].0.as_str(), parameter_name.as_str()) {
                assert(!distinct_names(token_lists(arguments@), p as int, a as int));
                assert(!parameters_well_formed(token_lists(arguments@)));
                let message = concat3(
                    "generic parameter '",
                    parameter_name.as_str(),
                    "' is declared twice",
                );
                return Err(parameter[0].1.error(message.as_str()));
            }
            p = p + 1;
        }
        parameters.push((parameter_name, constraint));
        a = a + 1;
    }
    Ok(parameters)
}

/// Where a body whose braces are open `depth` deep at `end` closes: the
/// index after its last `}`, or `None` when the tokens end first.
pub open spec fn body_close(tokens: Seq<PositionedToken>, end: int, depth: nat) -> Option<int>
    decreases tokens.len() - end,
{
    if depth == 0 {
        Some(end)
    } else if end < 0 || end >= tokens.len() {
        None
    } else if tokens[end].0 == Token::Symbol('{') {
        body_close(tokens, end + 1, depth + 1)
    } else if tokens[end].0 == Token::Symbol('}') {
        body_close(tokens, end + 1, (depth - 1) as nat)
    } else {
        body_close(tokens, end + 1, depth)
    }
}

/// The index after the `}` that closes the body opened at `body`, or `None`
/// when the body is not closed.
fn body_end(tokens: &Vec<PositionedToken>, body: usize) -> (r: Option<usize>)
    requires
        body < tokens.len(),
    ensures
        r matches Some(end) ==> body < end <= tokens.len(),
        r matches Some(end) ==> body_close(tokens@, body + 1, 1) == Some(end as int),
        r is None <==> body_close(tokens@, body + 1, 1) is None,
{
    let mut body_depth: usize = 1;
    let mut end = body + 1;
    while end < tokens.len() && body_depth != 0
        invariant
            body < end <= tokens.len(),
            body_depth <= end,
            body_close(tokens@, body + 1, 1) == body_close(tokens@, end as int, body_depth as nat),
        decreases tokens.len() - end,
    {
        if is_symbol(&tokens[end].0, '{') {
            body_depth = body_depth + 1;
        } else if is_symbol(&tokens[end].0, '}') {
            body_depth = if body_depth > 0 { body_depth - 1 } else { 0 };
        }
        end = end + 1;
    }
    if body_depth != 0 {
        None
    } else {
        Some(end)
    }
}

/// The index of the first `{` at or after `i`.
pub open spec fn first_brace(tokens: Seq<PositionedToken>, i: int) -> Option<int>
    decreases tokens.len() - i,
{
    if i < 0 || i >= tokens.len() {
        None
    } else if tokens[i].0 == Token::Symbol('{') {
        Some(i)
    } else {
        first_brace(tokens, i + 1)
    }
}

/// Where the generic declaration at `index` has its parameter lists, the
/// index after its `>`, its body's `{` and the index after its body; `None`
/// where it is malformed.
pub open spec fn template_layout(tokens: Seq<PositionedToken>, index: int) -> Option<(Seq<Seq<PositionedToken>>, int, int, int)> {
    match argument_split(tokens, index + 3, 0, 0, seq![], seq![]) {
        Some((parameters, header_end)) => if parameters_well_formed(parameters) {
            match first_brace(tokens, header_end) {
                Some(body) => match body_close(tokens, body + 1, 1) {
                    Some(end) => Some((parameters, header_end, body, end)),
                    None => None,
                },
                None => None,
            }
        } else {
            None
        },
        None => None,
    }
}

/// Reads the generic declaration `fun name<...>` or `class name<...>` at
/// `index`: its parameters, its body and the index after the body.
fn read_template(tokens: &Vec<PositionedToken>, index: usize, name: &String)
    -> (r: Result<GenericTemplate, String>)
    requires
        well_formed_tokens(tokens@),
        index + 3 < tokens.len(),
    ensures
        r matches Ok(template) ==> template.start == index && index < template.end
            <= tokens@.len(),
        r is Ok <==> template_layout(tokens@, index as int) is Some,
        r matches Ok(template) ==> (template_layout(tokens@, index as int) matches Some(
            (parameters, header_end, body, end),
        ) && {
            &&& template.name == *name
            &&& template.class == (tokens@[index as int].0 is Word && tokens@[index as int].0->Word_0@
                == "class"@)
            &&& template.parameters@.len() == parameters.len()
            &&& forall|a: int| 0 <= a < parameters.len() ==> Some(
                parameter_view(#[trigger] template.parameters@[a]),
            ) == parameter_shape(parameters[a])
            &&& template.tokens@ == seq![tokens@[index as int], tokens@[index + 1]]
                + tokens@.subrange(header_end, end)
            &&& template.end == end
        }),
{
    let (parameter_tokens, header_end) = generic_arguments(tokens, index + 2)?;
    let parameters = template_parameters(tokens[index + 2].1, &parameter_tokens)?;
    let mut body = header_end;
    while body < tokens.len() && !is_symbol(&tokens[body].0, '{')
        invariant
            header_end <= body <= tokens.len(),
            first_brace(tokens@, header_end as int) == first_brace(tokens@, body as int),
        decreases tokens.len() - body,
    {
        body = body + 1;
    }
    if body >= tokens.len() {
        return Err(tokens[index].1.error("generic declaration requires a body"));
    }
    let end = match body_end(tokens, body) {
        Some(end) => end,
        None => {
            return Err(tokens[body].1.error("unterminated generic declaration"));
        },
    };
    let mut template_tokens: Vec<PositionedToken> = Vec::new();
    template_tokens.push(clone_positioned(&tokens[index]));
    template_tokens.push(clone_positioned(&tokens[index + 1]));
    let mut k = header_end;
    assert(template_tokens@ =~= seq![tokens@[index as int], tokens@[index + 1]] + tokens@.subrange(
        header_end as int,
        k as int,
    ));
    while k < end
        invariant
            header_end <= k <= end <= tokens.len(),
            template_tokens@ == seq![tokens@[index as int], tokens@[index + 1]] + tokens@.subrange(
                header_end as int,
                k as int,
            ),
        decreases end - k,
    {
        template_tokens.push(clone_positioned(&tokens[k]));
        k = k + 1;
        assert(template_tokens@ =~= seq![tokens@[index as int], tokens@[index + 1]]
            + tokens@.subrange(header_end as int, k as int));
    }
    Ok(GenericTemplate {
        name: name.clone(),
        class: is_word(&tokens[index].0, "class"),
        parameters,
        tokens: template_tokens,
        start: index,
        end,
    })
}

/// Whether a generic declaration header `fun name <` or `class name <`
/// stands at brace depth zero from `index` on, where the depth is `depth`
/// (a `}` never takes it below zero), with at least three tokens after its
/// keyword.
pub open spec fn generic_header_from(tokens: Seq<PositionedToken>, index: int, depth: int) -> bool
    decreases tokens.len() - index,
{
    if index < 0 || index + 3 >= tokens.len() {
        false
    } else {
        let d = if tokens[index].0 == Token::Symbol('{') {
            depth + 1
        } else if tokens[index].0 == Token::Symbol('}') {
            if depth > 0 { depth - 1 } else { 0 }
        } else {
            depth
        };
        if d == 0 && tokens[index].0 is Word && (tokens[index].0->Word_0@ == "fun"@
            || tokens[index].0->Word_0@ == "class"@) && tokens[index + 1].0 is Word
            && tokens[index + 2].0 == Token::Symbol('<') {
            true
        } else {
            generic_header_from(tokens, index + 1, d)
        }
    }
}

/// Whether the tokens declare a generic function or class.
pub open spec fn declares_generics(tokens: Seq<PositionedToken>) -> bool {
    generic_header_from(tokens, 0, 0)
}

/// Finds the generic declarations `fun name<...>` and `class name<...>` at
/// brace depth zero, with their bodies.
fn find_templates(tokens: &Vec<PositionedToken>) -> (r: Result<Vec<GenericTemplate>, String>)
    requires
        well_formed_tokens(tokens@),
    ensures
        r matches Ok(templates) ==> templates_within(templates@, tokens@.len()),
        !declares_generics(tokens@) ==> (r matches Ok(templates) && templates@.len() == 0),
        declares_generics(tokens@) ==> (r matches Ok(templates) ==> templates@.len() > 0),
{
    let mut templates: Vec<GenericTemplate> = Vec::new();
    let mut depth: usize = 0;
    let mut index: usize = 0;
    while index < tokens.len() && tokens.len() - index > 3
        invariant
            well_formed_tokens(tokens@),
            index <= tokens.len(),
            depth <= index,
            templates_within(templates@, tokens@.len()),
            templates@.len() == 0 ==> declares_generics(tokens@) == generic_header_from(
                tokens@,
                index as int,
                depth as int,
            ),
            templates@.len() > 0 ==> declares_generics(tokens@),
        decreases tokens.len() - index,
    {
        let ghost depth_before = depth as int;
        if is_symbol(&tokens[index].0, '{') {
            depth = depth + 1;
        } else if is_symbol(&tokens[index].0, '}') {
            depth = if depth > 0 { depth - 1 } else { 0 };
        }
        let is_declaration = depth == 0
            && (is_word(&tokens[index].0, "fun") || is_word(&tokens[index].0, "class"))
            && is_symbol(&tokens[index + 2].0, '<');
        if is_declaration {
            if let Token::Word(name) = &tokens[index + 1].0 {
                assert(templates@.len() == 0 ==> generic_header_from(tokens@, index as int, depth_before));
                let template = read_template(tokens, index, name)?;
                index = template.end;
                templates.push(template);
                continue;
            }
        }
        index = index + 1;
    }
    Ok(templates)
}

/// A text with every character other than an ASCII letter or digit replaced
/// by `_`.
pub open spec fn identifier_text(text: Seq<char>) -> Seq<char> {
    text.map_values(|c: char| if is_ascii_alphanumeric(c) { c } else { '_' })
}

/// The identifier texts of the type arguments `0..k`, joined by `__`.
pub open spec fn argument_names_text(arguments: Seq<Vec<PositionedToken>>, k: int) -> Seq<char>
    decreases k,
{
    if k <= 0 {
        seq![]
    } else if k == 1 {
        identifier_text(type_name_text(arguments[0]@))
    } else {
        argument_names_text(arguments, k - 1) + "__"@ + identifier_text(
            type_name_text(arguments[k - 1]@),
        )
    }
}

/// The name of a specialization: the generic's name, `__generic__`, and the
/// type argument names with every character other than an ASCII letter or
/// digit replaced by `_`, joined by `__`.
fn specialized_name(name: &str, arguments: &Vec<Vec<PositionedToken>>) -> (r: String)
    ensures
        r@ == name@ + "__generic__"@ + argument_names_text(arguments@, arguments@.len() as int),
{
    let mut result = concat2(name, "__generic__");
    let ghost head = result@;
    let mut a: usize = 0;
    while a < arguments.len()
        invariant
            a <= arguments@.len(),
            head == name@ + "__generic__"@,
            result@ == head + argument_names_text(arguments@, a as int),
        decreases arguments.len() - a,
    {
        let ghost before = result@;
        if a > 0 {
            result.append("__");
        }
        let ghost joined = result@;
        let text = generic_type_name(arguments[a].as_slice());
        let chars = chars_of(text.as_str());
        let mut i: usize = 0;
        while i < chars.len()
            invariant
                i <= chars@.len(),
                chars@ == text@,
                result@ == joined + identifier_text(chars@.subrange(0, i as int)),
            decreases chars.len() - i,
        {
            if ascii_alphanumeric(chars[i]) {
                push_char(&mut result, chars[i]);
            } else {
                push_char(&mut result, '_');
            }
            assert(identifier_text(chars@.subrange(0, i + 1)) =~= identifier_text(
                chars@.subrange(0, i as int),
            ).push(if is_ascii_alphanumeric(chars@[i as int]) { chars@[i as int] } else { '_' }));
            i = i + 1;
        }
        assert(chars@.subrange(0, chars@.len() as int) =~= chars@);
        if a == 0 {
            assert(result@ =~= head + argument_names_text(arguments@, 1));
        } else {
            assert(result@ =~= head + argument_names_text(arguments@, a + 1));
        }
        a = a + 1;
    }
    result
}

fn find_template_at(templates: &Vec<GenericTemplate>, index: usize) -> (r: Option<usize>)
    ensures
        r matches Some(t) ==> t < templates@.len() && templates@[t as int].start == index,
        r matches Some(t) ==> forall|j: int| 0 <= j < t ==> (#[trigger] templates@[j]).start != index,
        r is None ==> forall|j: int| 0 <= j < templates@.len() ==> (#[trigger] templates@[j]).start != index,
{
    let mut t: usize = 0;
    while t < templates.len()
        invariant
            t <= templates@.len(),
            forall|j: int| 0 <= j < t ==> (#[trigger] templates@[j]).start != index,
        decreases templates.len() - t,
    {
        if templates[t].start == index {
            return Some(t);
        }
        t = t + 1;
    }
    None
}

fn find_template_named(templates: &Vec<GenericTemplate>, name: &String) -> (r: Option<usize>)
    ensures
        r matches Some(t) ==> t < templates@.len() && templates@[t as int].name@ == name@,
        r matches Some(t) ==> forall|j: int| 0 <= j < t ==> (#[trigger] templates@[j]).name@ != name@,
        r is None ==> forall|j: int| 0 <= j < templates@.len() ==> (#[trigger] templates@[j]).name@
            != name@,
{
    let mut t: usize = 0;
    while t < templates.len()
        invariant
            t <= templates@.len(),
            forall|j: int| 0 <= j < t ==> (#[trigger] templates@[j]).name@ != name@,
        decreases templates.len() - t,
    {
        if str_eq(templates[t].name.as_str(), name.as_str()) {
            return Some(t);
        }
        t = t + 1;
    }
    None
}

/// `after` is `before` where entry `e` records the specialization
/// `specialized` with `arguments`: unchanged when it records one of that name
/// already, else with it added at the end of its list.
pub open spec fn recorded(
    before: Seq<(String, Vec<(String, Vec<Vec<PositionedToken>>)>)>,
    after: Seq<(String, Vec<(String, Vec<Vec<PositionedToken>>)>)>,
    e: int,
    specialized: Seq<char>,
    arguments: Vec<Vec<PositionedToken>>,
) -> bool {
    if exists|k: int| 0 <= k < before[e].1@.len() && (#[trigger] before[e].1@[k]).0@ == specialized {
        after == before
    } else {
        &&& after.len() == before.len()
        &&& forall|j: int| 0 <= j < before.len() && j != e ==> after[j] == before[j]
        &&& after[e].0 == before[e].0
        &&& after[e].1@.len() == before[e].1@.len() + 1
        &&& after[e].1@.drop_last() == before[e].1@
        &&& after[e].1@.last().0@ == specialized
        &&& after[e].1@.last().1 == arguments
    }
}

/// Records that the generic `name` is used with `arguments` under the name
/// `specialized`, unless that specialization was already recorded.
fn record_instance(
    instances: &mut Instances,
    name: &String,
    specialized: &String,
    arguments: Vec<Vec<PositionedToken>>,
)
    ensures
        (exists|e: int| 0 <= e < old(instances)@.len() && (#[trigger] old(instances)@[e]).0@ == name@)
            ==> exists|e: int|
            0 <= e < old(instances)@.len() && old(instances)@[e].0@ == name@ && (forall|j: int|
                0 <= j < e ==> (#[trigger] old(instances)@[j]).0@ != name@) && recorded(
                old(instances)@,
                final(instances)@,
                e,
                specialized@,
                arguments,
            ),
        !(exists|e: int| 0 <= e < old(instances)@.len() && (#[trigger] old(instances)@[e]).0@ == name@)
            ==> {
            &&& final(instances)@.len() == old(instances)@.len() + 1
            &&& final(instances)@.drop_last() == old(instances)@
            &&& final(instances)@.last().0@ == name@
            &&& final(instances)@.last().1@.len() == 1
            &&& final(instances)@.last().1@[0].0@ == specialized@
            &&& final(instances)@.last().1@[0].1 == arguments
        },
{
    let mut e: usize = 0;
    while e < instances.len()
        invariant
            instances@ == old(instances)@,
            e <= instances@.len(),
            forall|j: int| 0 <= j < e ==> (#[trigger] instances@[j]).0@ != name@,
        decreases instances.len() - e,
    {
        if str_eq(instances[e].0.as_str(), name.as_str()) {
            let mut i: usize = 0;
            while i < instances[e].1.len()
                invariant
                    instances@ == old(instances)@,
                    e < instances.len(),
                    forall|k: int| 0 <= k < i ==> (#[trigger] instances@[e as int].1@[k]).0@
                        != specialized@,
                decreases instances[e as int].1.len() - i,
            {
                if str_eq(instances[e].1[i].0.as_str(), specialized.as_str()) {
                    assert((instances@[e as int].1@[i as int]).0@ == specialized@);
                    assert(recorded(old(instances)@, instances@, e as int, specialized@, arguments));
                    return;
                }
                i = i + 1;
            }
            let ghost given = arguments;
            let mut entry = instances.remove(e);
            let ghost taken = entry;
            entry.1.push((specialized.clone(), arguments));
            instances.insert(e, entry);
            assert(instances@ =~= old(instances)@.update(e as int, instances@[e as int]));
            assert(taken == old(instances)@[e as int]);
            assert(instances@[e as int].1@ =~= taken.1@.push(instances@[e as int].1@.last()));
            assert(!(exists|k: int| 0 <= k < old(instances)@[e as int].1@.len() && (#[trigger] old(instances)@[e as int].1@[k]).0@ == specialized@));
            assert(instances@[e as int].0 == old(instances)@[e as int].0);
            assert(instances@[e as int].1@.last().0@ == specialized@);
            assert(instances@[e as int].1@.last().1 == given);
            assert(instances@[e as int].1@.drop_last() =~= old(instances)@[e as int].1@);
            assert(instances@.len() == old(instances)@.len());
            assert(forall|j: int| 0 <= j < old(instances)@.len() && j != e ==> instances@[j] == old(instances)@[j]);
            assert(recorded(old(instances)@, instances@, e as int, specialized@, given));
            return;
        }
        e = e + 1;
    }
    let mut values: Vec<(String, Vec<Vec<PositionedToken>>)> = Vec::new();
    values.push((specialized.clone(), arguments));
    instances.push((name.clone(), values));
}

/// Whether a type argument meets its parameter's constraint.
pub open spec fn argument_accepted(
    argument: Seq<PositionedToken>,
    parameter: (String, Option<String>),
    traits: Seq<Seq<char>>,
    implementations: Seq<(Seq<char>, Seq<char>)>,
) -> bool {
    constraint_accepts(
        type_name_text(argument),
        match parameter.1 {
            Some(c) => Some(c@),
            None => None,
        },
        traits,
        implementations,
    ) == Some(true)
}

/// Checks the type arguments of a use of template `t` against its
/// parameters' count and constraints.
fn check_arguments(
    tokens: &Vec<PositionedToken>,
    index: usize,
    name: &String,
    template: &GenericTemplate,
    arguments: &Vec<Vec<PositionedToken>>,
    traits: &Vec<String>,
    implementations: &Vec<(String, String)>,
) -> (r: Result<(), String>)
    requires
        index < tokens.len(),
    ensures
        r is Ok <==> arguments@.len() == template.parameters@.len() && forall|a: int|
            0 <= a < arguments@.len() ==> #[trigger] argument_accepted(
                arguments@[a]@,
                template.parameters@[a],
                string_views(traits@),
                pair_views(implementations@),
            ),
{
    let expected = template.parameters.len();
    if arguments.len() != expected {
        let mut message = concat3("generic '", name.as_str(), "' expects ");
        let e = usize_text(expected);
        message.append(e.as_str());
        message.append(" type arguments, found ");
        let f = usize_text(arguments.len());
        message.append(f.as_str());
        return Err(tokens[index].1.error(message.as_str()));
    }
    let mut a: usize = 0;
    while a < arguments.len()
        invariant
            arguments.len() == expected,
            expected == template.parameters@.len(),
            index < tokens.len(),
            a <= arguments@.len(),
            forall|b: int| 0 <= b < a ==> #[trigger] argument_accepted(
                arguments@[b]@,
                template.parameters@[b],
                string_views(traits@),
                pair_views(implementations@),
            ),
        decreases arguments.len() - a,
    {
        let constraint = match &template.parameters[a].1 {
            Some(c) => Some(c.as_str()),
            None => None,
        };
        let checked = validate_generic_constraint(
            arguments[a].as_slice(),
            constraint,
            tokens[index].1,
            traits,
            implementations,
        );
        if checked.is_err() {
            assert(!argument_accepted(
                arguments@[a as int]@,
                template.parameters@[a as int],
                string_views(traits@),
                pair_views(implementations@),
            ));
            return checked;
        }
        a = a + 1;
    }
    Ok(())
}

/// Rewrites `name<args>` uses of generics into specialized names and records
/// the requested specializations; declarations of generics are left out.
fn rewrite_uses(
    tokens: &Vec<PositionedToken>,
    templates: &Vec<GenericTemplate>,
    traits: &Vec<String>,
    implementations: &Vec<(String, String)>,
    instances: &mut Instances,
) -> (r: Result<Vec<PositionedToken>, String>)
    requires
        well_formed_tokens(tokens@),
        templates_within(templates@, tokens@.len()),
{
    let mut rewritten: Vec<PositionedToken> = Vec::new();
    let mut index: usize = 0;
    while index < tokens.len()
        invariant
            well_formed_tokens(tokens@),
            templates_within(templates@, tokens@.len()),
            index <= tokens.len(),
        decreases tokens.len() - index,
    {
        if let Some(t) = find_template_at(templates, index) {
            index = templates[t].end;
            continue;
        }
        if let Token::Word(name) = &tokens[index].0 {
            if let Some(t) = find_template_named(templates, name) {
                if index + 1 < tokens.len() && is_symbol(&tokens[index + 1].0, '<') {
                    let (arguments, end) = generic_arguments(tokens, index + 1)?;
                    check_arguments(
                        tokens,
                        index,
                        name,
                        &templates[t],
                        &arguments,
                        traits,
                        implementations,
                    )?;
                    let specialized = specialized_name(name.as_str(), &arguments);
                    rewritten.push((Token::Word(specialized.clone()), tokens[index].1));
                    record_instance(instances, name, &specialized, arguments);
                    index = end;
                    continue;
                }
                let mut message = concat3(
                    "generic '",
                    name.as_str(),
                    "' requires explicit type arguments, for example ",
                );
                message.append(name.as_str());
                message.append("<int>");
                return Err(tokens[index].1.error(message.as_str()));
            }
        }
        rewritten.push(clone_positioned(&tokens[index]));
        index = index + 1;
    }
    Ok(rewritten)
}

/// The first of the parameters `p..count` named `word`.
pub open spec fn parameter_from(
    parameters: Seq<(String, Option<String>)>,
    count: int,
    word: Seq<char>,
    p: int,
) -> Option<int>
    decreases count - p,
{
    if p < 0 || p >= count || p >= parameters.len() {
        None
    } else if parameters[p].0@ == word {
        Some(p)
    } else {
        parameter_from(parameters, count, word, p + 1)
    }
}

/// What token `k` of a template becomes in a specialization: the name
/// (token 1) becomes `specialized`, a word naming one of the first
/// parameters that have an argument becomes that argument, and any other
/// token stays.
pub open spec fn instance_token(
    tokens: Seq<PositionedToken>,
    parameters: Seq<(String, Option<String>)>,
    specialized: String,
    arguments: Seq<Seq<PositionedToken>>,
    k: int,
) -> Seq<PositionedToken> {
    let count = if parameters.len() < arguments.len() {
        parameters.len() as int
    } else {
        arguments.len() as int
    };
    if k == 1 {
        seq![(Token::Word(specialized), tokens[k].1)]
    } else if tokens[k].0 is Word && parameter_from(parameters, count, tokens[k].0->Word_0@, 0) is Some {
        arguments[parameter_from(parameters, count, tokens[k].0->Word_0@, 0)->0]
    } else {
        seq![tokens[k]]
    }
}

/// The specialization of the template tokens `0..n`.
pub open spec fn instance_tokens(
    tokens: Seq<PositionedToken>,
    parameters: Seq<(String, Option<String>)>,
    specialized: String,
    arguments: Seq<Seq<PositionedToken>>,
    n: int,
) -> Seq<PositionedToken>
    decreases n,
{
    if n <= 0 {
        seq![]
    } else {
        instance_tokens(tokens, parameters, specialized, arguments, n - 1) + instance_token(
            tokens,
            parameters,
            specialized,
            arguments,
            n - 1,
        )
    }
}

/// The tokens of one specialization: the template with its name replaced by
/// the specialized name and each parameter by its type argument.
#[verifier::loop_isolation(true)]
fn instantiate(
    template: &GenericTemplate,
    specialized: &String,
    arguments: &Vec<Vec<PositionedToken>>,
    out: &mut Vec<PositionedToken>,
)
    ensures
        final(out)@ == old(out)@ + instance_tokens(
            template.tokens@,
            template.parameters@,
            *specialized,
            token_lists(arguments@),
            template.tokens@.len() as int,
        ),
{
    let ghost count: int = if template.parameters@.len() < arguments@.len() {
        template.parameters@.len() as int
    } else {
        arguments@.len() as int
    };
    let mut k: usize = 0;
    while k < template.tokens.len()
        invariant
            k <= template.tokens@.len(),
            count == (if template.parameters@.len() < arguments@.len() {
                template.parameters@.len() as int
            } else {
                arguments@.len() as int
            }),
            out@ == old(out)@ + instance_tokens(
                template.tokens@,
                template.parameters@,
                *specialized,
                token_lists(arguments@),
                k as int,
            ),
        decreases template.tokens.len() - k,
    {
        let ghost before = out@;
        let token = &template.tokens[k];
        if k == 1 {
            out.push((Token::Word(specialized.clone()), token.1));
        } else {
            let mut replaced = false;
            if let Token::Word(word) = &token.0 {
                let mut p: usize = 0;
                while p < template.parameters.len() && p < arguments.len()
                    invariant_except_break
                        !replaced,
                        out@ == before,
                    invariant
                        p <= template.parameters@.len(),
                        count == (if template.parameters@.len() < arguments@.len() {
                            template.parameters@.len() as int
                        } else {
                            arguments@.len() as int
                        }),
                        parameter_from(template.parameters@, count, word@, 0) == parameter_from(
                            template.parameters@,
                            count,
                            word@,
                            p as int,
                        ),
                    ensures
                        replaced ==> parameter_from(template.parameters@, count, word@, 0) is Some
                            && out@ == before + token_lists(arguments@)[parameter_from(
                            template.parameters@,
                            count,
                            word@,
                            0,
                        )->0],
                        !replaced ==> parameter_from(template.parameters@, count, word@, 0) is None
                            && out@ == before,
                    decreases template.parameters.len() - p,
                {
                    if template.parameters[p].0.eq(word) {
                        let replacement = &arguments[p];
                        let mut q: usize = 0;
                        while q < replacement.len()
                            invariant
                                q <= replacement@.len(),
                                out@ == before + replacement@.subrange(0, q as int),
                            decreases replacement.len() - q,
                        {
                            out.push(clone_positioned(&replacement[q]));
                            q = q + 1;
                            assert(out@ =~= before + replacement@.subrange(0, q as int));
                        }
                        assert(replacement@.subrange(0, q as int) =~= replacement@);
                        assert(token_lists(arguments@)[p as int] == replacement@);
                        replaced = true;
                        break;
                    }
                    p = p + 1;
                }
            }
            if !replaced {
                out.push(clone_positioned(token));
            }
        }
        assert(out@ =~= old(out)@ + instance_tokens(
            template.tokens@,
            template.parameters@,
            *specialized,
            token_lists(arguments@),
            k + 1,
        ));
        k = k + 1;
    }
}

/// The specializations recorded for the generic `name`, removed from
/// `instances`.
fn take_instances(instances: &mut Instances, name: &String)
    -> (r: Vec<(String, Vec<Vec<PositionedToken>>)>)
    ensures
        (exists|e: int| 0 <= e < old(instances)@.len() && (#[trigger] old(instances)@[e]).0@ == name@)
            ==> exists|e: int|
            0 <= e < old(instances)@.len() && old(instances)@[e].0@ == name@ && (forall|j: int|
                0 <= j < e ==> (#[trigger] old(instances)@[j]).0@ != name@) && r == old(instances)@[e].1
                && final(instances)@ == old(instances)@.remove(e),
        !(exists|e: int| 0 <= e < old(instances)@.len() && (#[trigger] old(instances)@[e]).0@ == name@)
            ==> r@.len() == 0 && final(instances)@ == old(instances)@,
{
    let mut e: usize = 0;
    while e < instances.len()
        invariant
            instances@ == old(instances)@,
            e <= instances@.len(),
            forall|j: int| 0 <= j < e ==> (#[trigger] instances@[j]).0@ != name@,
        decreases instances.len() - e,
    {
        if str_eq(instances[e].0.as_str(), name.as_str()) {
            let entry = instances.remove(e);
            return entry.1;
        }
        e = e + 1;
    }
    Vec::new()
}

/// Replaces generic declarations by one specialized copy per distinct list of
/// type arguments used, after checking argument counts and constraints; a
/// program that declares no generic is left as it is.
/// Specialized classes come first, then the rest of the program, then
/// specialized functions, then the final `End` of the input.
pub fn expand_generics(tokens: Vec<PositionedToken>) -> (r: Result<Vec<PositionedToken>, String>)
    requires
        well_formed_tokens(tokens@),
    ensures
        r matches Ok(expanded) ==> well_formed_tokens(expanded@),
        r matches Ok(expanded) ==> expanded@.last() == tokens@.last(),
        !declares_generics(tokens@) ==> (r matches Ok(expanded) && expanded@ == tokens@),
{
    let traits = collect_traits(&tokens);
    let implementations = collect_implementations(&tokens);
    let templates = find_templates(&tokens)?;
    if templates.len() == 0 {
        return Ok(tokens);
    }
    assert(declares_generics(tokens@));
    let mut instances: Instances = Vec::new();
    let rewritten = rewrite_uses(&tokens, &templates, &traits, &implementations, &mut instances)?;
    let mut generated_classes: Vec<PositionedToken> = Vec::new();
    let mut generated_functions: Vec<PositionedToken> = Vec::new();
    let mut t: usize = 0;
    while t < templates.len()
        decreases templates.len() - t,
    {
        let values = take_instances(&mut instances, &templates[t].name);
        let mut v: usize = 0;
        while v < values.len()
            invariant
                t < templates@.len(),
            decreases values.len() - v,
        {
            if templates[t].class {
                instantiate(&templates[t], &values[v].0, &values[v].1, &mut generated_classes);
            } else {
                instantiate(&templates[t], &values[v].0, &values[v].1, &mut generated_functions);
            }
            v = v + 1;
        }
        t = t + 1;
    }
    let mut expanded: Vec<PositionedToken> = Vec::new();
    append_without_end(&mut expanded, &generated_classes);
    append_without_end(&mut expanded, &rewritten);
    append_without_end(&mut expanded, &generated_functions);
    let ghost before = expanded@;
    expanded.push(clone_positioned(&tokens[tokens.len() - 1]));
    assert(expanded@.drop_last() =~= before);
    Ok(expanded)
}

/// Appends the tokens of `from` that are not `End`, in order.
pub fn append_without_end(out: &mut Vec<PositionedToken>, from: &Vec<PositionedToken>)
    requires
        no_end(old(out)@),
    ensures
        no_end(final(out)@),
        final(out)@.len() <= old(out)@.len() + from@.len(),
        final(out)@ == old(out)@ + without_end(from@),
{
    let mut k: usize = 0;
    while k < from.len()
        invariant
            k <= from.len(),
            no_end(out@),
            out@.len() <= old(out)@.len() + k,
            out@ == old(out)@ + without_end(from@.subrange(0, k as int)),
        decreases from.len() - k,
    {
        assert(from@.subrange(0, k + 1).drop_last() =~= from@.subrange(0, k as int));
        if !is_end(&from[k].0) {
            push_non_end(out, clone_positioned(&from[k]));
        }
        assert(out@ =~= old(out)@ + without_end(from@.subrange(0, k + 1)));
        k = k + 1;
    }
    assert(from@.subrange(0, from@.len() as int) =~= from@);
}

/// The tokens of a sequence that are not `End`, in order.
pub open spec fn without_end(tokens: Seq<PositionedToken>) -> Seq<PositionedToken>
    decreases tokens.len(),
{
    if tokens.len() == 0 {
        seq![]
    } else if tokens.last().0 is End {
        without_end(tokens.drop_last())
    } else {
        without_end(tokens.drop_last()).push(tokens.last())
    }
}

} // verus!
