//! Runtime types and 16-byte values shared by the compiler and generated
//! programs: type identifiers, integer ranges, literal parsing and checked
//! conversions.

#![verifier::loop_isolation(false)]

use crate::ieee;
use crate::text::{
    concat2, concat3, concat4, i128_text, int_digits, is_ascii_digit, nat_digits, owned, push_char,
    push_u128, str_eq,
};
use vstd::prelude::*;

verus! {

/// A value type of the language. `Enum` and `Class` carry the enum or class
/// number; `List` and `Optional` carry the identifier of the element or
/// inner type (see `type_of_id`).
#[derive(Clone, Copy, Debug, PartialEq, Eq, Structural)]
pub enum Type {
    I8,
    I16,
    I32,
    I64,
    U4,
    U8,
    U16,
    U32,
    U64,
    F32,
    F64,
    F128,
    String,
    Bool,
    NoneType,
    Enum(u32),
    Class(u32),
    List(u32),
    Optional(u32),
}

/// The first identifier of a `List` or optional type. The built-in types
/// are numbered 0 to 14, an enum `n` is `0x8000_0000 | n` and a class `n` is
/// `0x4000_0000 | n`; `List` and optional types take the identifiers from
/// here up to the classes, and the identifiers from 15 up to here stand for
/// no type.
pub open spec fn wrapper_base() -> u32 {
    0x1000_0000u32
}

/// `tag | payload` for a tag of one high bit (`0x8000_0000` or
/// `0x4000_0000`), written with arithmetic.
pub open spec fn tagged(tag: u32, payload: u32) -> u32 {
    if tag == 0x8000_0000u32 {
        if payload < 0x8000_0000 { (payload + 0x8000_0000) as u32 } else { payload }
    } else {
        if payload % 0x8000_0000 < 0x4000_0000 { (payload + 0x4000_0000) as u32 } else { payload }
    }
}

/// How many enums, and how many classes, can be put in a `List` or made
/// optional.
pub open spec fn wrappable_kinds() -> u32 {
    0x10_0000u32
}

/// The number that stands for the type with identifier `inner` inside a
/// wrapper: built-in types keep their number, enums and classes below
/// `wrappable_kinds` are interleaved after them, and wrappers follow.
pub open spec fn inner_code(inner: u32) -> Option<int> {
    if inner < 15 {
        Some(inner as int)
    } else if inner >= 0x8000_0000 {
        if inner - 0x8000_0000 < wrappable_kinds() { Some(15 + 2 * (inner - 0x8000_0000)) } else { None }
    } else if inner >= 0x4000_0000 {
        if inner - 0x4000_0000 < wrappable_kinds() { Some(16 + 2 * (inner - 0x4000_0000)) } else { None }
    } else if inner >= wrapper_base() {
        Some(15 + 2 * wrappable_kinds() + (inner - wrapper_base()))
    } else {
        None
    }
}

/// The identifier of the type that `code` stands for (see `inner_code`).
pub open spec fn code_inner(code: int) -> u32 {
    if code < 15 {
        code as u32
    } else if code < 15 + 2 * wrappable_kinds() {
        if (code - 15) % 2 == 0 {
            (0x8000_0000 + (code - 15) / 2) as u32
        } else {
            (0x4000_0000 + (code - 15) / 2) as u32
        }
    } else {
        (wrapper_base() + (code - 15 - 2 * wrappable_kinds())) as u32
    }
}

/// Whether the type with identifier `inner` can be put in a `List` or made
/// optional: it has an inner code, and the wrapper's identifier stays below
/// the classes.
pub open spec fn spec_wrappable(inner: u32) -> bool {
    inner_code(inner) is Some && inner_code(inner)->0 < 0x1800_0000
}

/// The identifier of a `List` (`optional` false) or optional type around
/// the type with identifier `inner`; 15, which stands for no type, when the
/// inner type cannot be wrapped.
pub open spec fn wrapper_id(inner: u32, optional: bool) -> u32 {
    if spec_wrappable(inner) {
        (wrapper_base() + 2 * inner_code(inner)->0 + if optional { 1int } else { 0int }) as u32
    } else {
        15u32
    }
}

/// The type named by a built-in type keyword.
pub open spec fn named_type(name: Seq<char>) -> Option<Type> {
    if name == "i8"@ { Some(Type::I8) }
    else if name == "i16"@ { Some(Type::I16) }
    else if name == "i32"@ || name == "int"@ { Some(Type::I32) }
    else if name == "i64"@ { Some(Type::I64) }
    else if name == "u4"@ { Some(Type::U4) }
    else if name == "u8"@ { Some(Type::U8) }
    else if name == "u16"@ { Some(Type::U16) }
    else if name == "u32"@ || name == "u"@ { Some(Type::U32) }
    else if name == "u64"@ { Some(Type::U64) }
    else if name == "f32"@ { Some(Type::F32) }
    else if name == "f64"@ || name == "float"@ { Some(Type::F64) }
    else if name == "f128"@ { Some(Type::F128) }
    else if name == "string"@ { Some(Type::String) }
    else if name == "bool"@ { Some(Type::Bool) }
    else if name == "None"@ { Some(Type::NoneType) }
    else { None }
}

/// The built-in type with the given index (0 for `i8` through 14 for `None`).
pub open spec fn primitive(index: u32) -> Option<Type> {
    if index == 0 { Some(Type::I8) }
    else if index == 1 { Some(Type::I16) }
    else if index == 2 { Some(Type::I32) }
    else if index == 3 { Some(Type::I64) }
    else if index == 4 { Some(Type::U4) }
    else if index == 5 { Some(Type::U8) }
    else if index == 6 { Some(Type::U16) }
    else if index == 7 { Some(Type::U32) }
    else if index == 8 { Some(Type::U64) }
    else if index == 9 { Some(Type::F32) }
    else if index == 10 { Some(Type::F64) }
    else if index == 11 { Some(Type::F128) }
    else if index == 12 { Some(Type::String) }
    else if index == 13 { Some(Type::Bool) }
    else if index == 14 { Some(Type::NoneType) }
    else { None }
}

/// The type with a given identifier: a built-in type (0 to 14), a `List` or
/// optional type (from `wrapper_base` up to `0x4000_0000`: the lowest bit
/// tells them apart and the rest is the code of the inner type), a class
/// (`0x4000_0000 | n`) or an enum (`0x8000_0000 | n`); the identifiers from
/// 15 up to `wrapper_base` stand for no type.
pub open spec fn type_of_id(id: u32) -> Option<Type> {
    if id < 15 {
        primitive(id)
    } else if id < wrapper_base() {
        None
    } else if id < 0x4000_0000 {
        let code = (id - wrapper_base()) / 2;
        if (id - wrapper_base()) % 2 == 0 {
            Some(Type::List(code_inner(code)))
        } else {
            Some(Type::Optional(code_inner(code)))
        }
    } else if id < 0x8000_0000 {
        Some(Type::Class((id - 0x4000_0000) as u32))
    } else {
        Some(Type::Enum((id - 0x8000_0000) as u32))
    }
}

/// Decimal value of a sequence of ASCII digits.
pub open spec fn digits_value(s: Seq<char>) -> nat
    decreases s.len(),
{
    if s.len() == 0 {
        0
    } else {
        digits_value(s.drop_last()) * 10 + ((s.last() as nat) - ('0' as nat)) as nat
    }
}

/// All characters are ASCII digits.
pub open spec fn all_digits(s: Seq<char>) -> bool {
    forall|i: int| 0 <= i < s.len() ==> is_ascii_digit(#[trigger] s[i])
}

/// The integer that `str::parse::<i128>` reads from `s`: an optional `+` or
/// `-`, then at least one ASCII digit, within the range of `i128`.
pub open spec fn decimal_i128(s: Seq<char>) -> Option<i128> {
    let negative = s.len() > 0 && s[0] == '-';
    let signed = s.len() > 0 && (s[0] == '-' || s[0] == '+');
    let digits = if signed { s.drop_first() } else { s };
    if digits.len() == 0 || !all_digits(digits) {
        None
    } else {
        let value: int = if negative { -(digits_value(digits) as int) } else { digits_value(digits) as int };
        if i128::MIN <= value <= i128::MAX { Some(value as i128) } else { None }
    }
}

/// The inner code of a type identifier (see `inner_code`).
fn inner_code_exec(inner: u32) -> (r: Option<u32>)
    ensures
        match r {
            Some(c) => inner_code(inner) == Some(c as int),
            None => inner_code(inner) is None,
        },
{
    if inner < 15 {
        Some(inner)
    } else if inner >= 0x8000_0000 {
        if inner - 0x8000_0000 < 0x10_0000 { Some(15 + 2 * (inner - 0x8000_0000)) } else { None }
    } else if inner >= 0x4000_0000 {
        if inner - 0x4000_0000 < 0x10_0000 { Some(16 + 2 * (inner - 0x4000_0000)) } else { None }
    } else if inner >= 0x1000_0000 {
        Some(15 + 2 * 0x10_0000 + (inner - 0x1000_0000))
    } else {
        None
    }
}

/// The identifier that an inner code stands for (see `code_inner`).
fn code_inner_exec(code: u32) -> (r: u32)
    requires
        code < 0x1800_0000,
    ensures
        r == code_inner(code as int),
{
    if code < 15 {
        code
    } else if code < 15 + 2 * 0x10_0000 {
        if (code - 15) % 2 == 0 {
            0x8000_0000 + (code - 15) / 2
        } else {
            0x4000_0000 + (code - 15) / 2
        }
    } else {
        0x1000_0000 + (code - 15 - 2 * 0x10_0000)
    }
}

/// Whether the type with identifier `inner` can be put in a `List` or made
/// optional (see `spec_wrappable`); deeper nesting is refused.
pub fn wrappable(inner: u32) -> (r: bool)
    ensures
        r == spec_wrappable(inner),
{
    match inner_code_exec(inner) {
        Some(code) => code < 0x1800_0000,
        None => false,
    }
}

/// The identifier of a `List` or optional type (see `wrapper_id`).
fn wrapper_id_exec(inner: u32, optional: bool) -> (r: u32)
    ensures
        r == wrapper_id(inner, optional),
{
    match inner_code_exec(inner) {
        Some(code) => if code < 0x1800_0000 {
            0x1000_0000 + 2 * code + if optional { 1 } else { 0 }
        } else {
            15
        },
        None => 15,
    }
}

impl Type {
    /// The identifier of the type, as `id` computes it.
    pub open spec fn spec_id(self) -> u32 {
        match self {
            Type::I8 => 0u32,
            Type::I16 => 1u32,
            Type::I32 => 2u32,
            Type::I64 => 3u32,
            Type::U4 => 4u32,
            Type::U8 => 5u32,
            Type::U16 => 6u32,
            Type::U32 => 7u32,
            Type::U64 => 8u32,
            Type::F32 => 9u32,
            Type::F64 => 10u32,
            Type::F128 => 11u32,
            Type::String => 12u32,
            Type::Bool => 13u32,
            Type::NoneType => 14u32,
            Type::Enum(id) => tagged(0x8000_0000u32, id),
            Type::Class(id) => tagged(0x4000_0000u32, id),
            Type::List(inner) => wrapper_id(inner, false),
            Type::Optional(inner) => wrapper_id(inner, true),
        }
    }

    /// The payload can be told back from the identifier: an enum below
    /// `0x8000_0000`, a class below `0x4000_0000`, or a wrapped type that can
    /// be wrapped.
    pub open spec fn valid(self) -> bool {
        match self {
            Type::Enum(id) => id < 0x8000_0000,
            Type::Class(id) => id < 0x4000_0000,
            Type::List(inner) => spec_wrappable(inner),
            Type::Optional(inner) => spec_wrappable(inner),
            _ => true,
        }
    }

    pub open spec fn is_integer(self) -> bool {
        match self {
            Type::I8 | Type::I16 | Type::I32 | Type::I64 | Type::U4 | Type::U8 | Type::U16
            | Type::U32 | Type::U64 => true,
            _ => false,
        }
    }

    pub open spec fn is_floating(self) -> bool {
        match self {
            Type::F32 | Type::F64 | Type::F128 => true,
            _ => false,
        }
    }

    pub open spec fn is_numeric(self) -> bool {
        self.is_integer() || self.is_floating()
    }

    pub open spec fn is_unsigned(self) -> bool {
        match self {
            Type::U4 | Type::U8 | Type::U16 | Type::U32 | Type::U64 => true,
            _ => false,
        }
    }

    /// The inclusive range of an integer type; `(0, 0)` for other types.
    pub open spec fn spec_bounds(self) -> (int, int) {
        match self {
            Type::I8 => (-128, 127),
            Type::I16 => (-32768, 32767),
            Type::I32 => (-2147483648, 2147483647),
            Type::I64 => (-9223372036854775808, 9223372036854775807),
            Type::U4 => (0, 15),
            Type::U8 => (0, 255),
            Type::U16 => (0, 65535),
            Type::U32 => (0, 4294967295),
            Type::U64 => (0, 18446744073709551615),
            _ => (0, 0),
        }
    }

    /// Optional values of these types need both value words, so an optional
    /// holds them boxed rather than in place.
    pub open spec fn is_wide_optional_value(self) -> bool {
        match self {
            Type::String | Type::F128 | Type::List(_) => true,
            _ => false,
        }
    }

    /// The name under which the type is printed in messages.
    pub open spec fn spec_text(self) -> Seq<char> {
        match self {
            Type::I8 => "i8"@,
            Type::I16 => "i16"@,
            Type::I32 => "i32"@,
            Type::I64 => "i64"@,
            Type::U4 => "u4"@,
            Type::U8 => "u8"@,
            Type::U16 => "u16"@,
            Type::U32 => "u32"@,
            Type::U64 => "u64"@,
            Type::F32 => "f32"@,
            Type::F64 => "f64"@,
            Type::F128 => "f128"@,
            Type::String => "string"@,
            Type::Bool => "bool"@,
            Type::NoneType => "None"@,
            Type::Enum(_) => "enum"@,
            Type::Class(_) => "class"@,
            Type::List(_) => "List"@,
            Type::Optional(_) => "optional"@,
        }
    }

    /// The type that a built-in type keyword names (`int`, `u` and `float`
    /// are aliases of `i32`, `u32` and `f64`).
    pub fn parse(name: &str) -> (r: Option<Type>)
        ensures
            r == named_type(name@),
    {
        if str_eq(name, "i8") { Some(Type::I8) }
        else if str_eq(name, "i16") { Some(Type::I16) }
        else if str_eq(name, "i32") || str_eq(name, "int") { Some(Type::I32) }
        else if str_eq(name, "i64") { Some(Type::I64) }
        else if str_eq(name, "u4") { Some(Type::U4) }
        else if str_eq(name, "u8") { Some(Type::U8) }
        else if str_eq(name, "u16") { Some(Type::U16) }
        else if str_eq(name, "u32") || str_eq(name, "u") { Some(Type::U32) }
        else if str_eq(name, "u64") { Some(Type::U64) }
        else if str_eq(name, "f32") { Some(Type::F32) }
        else if str_eq(name, "f64") || str_eq(name, "float") { Some(Type::F64) }
        else if str_eq(name, "f128") { Some(Type::F128) }
        else if str_eq(name, "string") { Some(Type::String) }
        else if str_eq(name, "bool") { Some(Type::Bool) }
        else if str_eq(name, "None") { Some(Type::NoneType) }
        else { None }
    }

    /// The type with the given identifier, if there is one.
    pub fn from_id(id: u32) -> (r: Option<Type>)
        ensures
            r == type_of_id(id),
    {
        if id < 15 {
            if id == 0 { Some(Type::I8) }
            else if id == 1 { Some(Type::I16) }
            else if id == 2 { Some(Type::I32) }
            else if id == 3 { Some(Type::I64) }
            else if id == 4 { Some(Type::U4) }
            else if id == 5 { Some(Type::U8) }
            else if id == 6 { Some(Type::U16) }
            else if id == 7 { Some(Type::U32) }
            else if id == 8 { Some(Type::U64) }
            else if id == 9 { Some(Type::F32) }
            else if id == 10 { Some(Type::F64) }
            else if id == 11 { Some(Type::F128) }
            else if id == 12 { Some(Type::String) }
            else if id == 13 { Some(Type::Bool) }
            else { Some(Type::NoneType) }
        } else if id < 0x1000_0000 {
            None
        } else if id < 0x4000_0000 {
            let offset = id - 0x1000_0000;
            let inner = code_inner_exec(offset / 2);
            if offset % 2 == 0 {
                Some(Type::List(inner))
            } else {
                Some(Type::Optional(inner))
            }
        } else if id < 0x8000_0000 {
            Some(Type::Class(id - 0x4000_0000))
        } else {
            Some(Type::Enum(id - 0x8000_0000))
        }
    }

    /// The identifier of the type: 0 to 14 for the built-in types,
    /// `0x8000_0000 | n` for enum `n`, `0x4000_0000 | n` for class `n`, and
    /// `wrapper_id` for `List` and optional types.
    pub fn id(self) -> (r: u32)
        ensures
            r == self.spec_id(),
    {
        match self {
            Type::I8 => 0,
            Type::I16 => 1,
            Type::I32 => 2,
            Type::I64 => 3,
            Type::U4 => 4,
            Type::U8 => 5,
            Type::U16 => 6,
            Type::U32 => 7,
            Type::U64 => 8,
            Type::F32 => 9,
            Type::F64 => 10,
            Type::F128 => 11,
            Type::String => 12,
            Type::Bool => 13,
            Type::NoneType => 14,
            Type::Enum(id) => if id < 0x8000_0000 { id + 0x8000_0000 } else { id },
            Type::Class(id) => if id % 0x8000_0000 < 0x4000_0000 { id + 0x4000_0000 } else { id },
            Type::List(inner) => wrapper_id_exec(inner, false),
            Type::Optional(inner) => wrapper_id_exec(inner, true),
        }
    }

    /// Signed or unsigned integer type.
    pub fn integer(self) -> (r: bool)
        ensures
            r == self.is_integer(),
    {
        match self {
            Type::I8 | Type::I16 | Type::I32 | Type::I64 | Type::U4 | Type::U8 | Type::U16
            | Type::U32 | Type::U64 => true,
            _ => false,
        }
    }

    /// Floating-point type.
    pub fn floating(self) -> (r: bool)
        ensures
            r == self.is_floating(),
    {
        match self {
            Type::F32 | Type::F64 | Type::F128 => true,
            _ => false,
        }
    }

    /// Integer or floating-point type.
    pub fn numeric(self) -> (r: bool)
        ensures
            r == self.is_numeric(),
    {
        self.integer() || self.floating()
    }

    /// Unsigned integer type.
    pub fn unsigned(self) -> (r: bool)
        ensures
            r == self.is_unsigned(),
    {
        match self {
            Type::U4 | Type::U8 | Type::U16 | Type::U32 | Type::U64 => true,
            _ => false,
        }
    }

    /// The inclusive range of an integer type; `(0, 0)` for other types.
    pub fn bounds(self) -> (r: (i128, i128))
        ensures
            r.0 as int == self.spec_bounds().0,
            r.1 as int == self.spec_bounds().1,
    {
        match self {
            Type::I8 => (-128, 127),
            Type::I16 => (-32768, 32767),
            Type::I32 => (-2147483648, 2147483647),
            Type::I64 => (-9223372036854775808, 9223372036854775807),
            Type::U4 => (0, 15),
            Type::U8 => (0, 255),
            Type::U16 => (0, 65535),
            Type::U32 => (0, 4294967295),
            Type::U64 => (0, 18446744073709551615),
            _ => (0, 0),
        }
    }

    /// Whether an optional of this type holds its value boxed.
    pub fn wide_optional_value(self) -> (r: bool)
        ensures
            r == self.is_wide_optional_value(),
    {
        match self {
            Type::String | Type::F128 | Type::List(_) => true,
            _ => false,
        }
    }

    /// The name under which the type is printed in messages.
    pub fn text(self) -> (r: String)
        ensures
            r@ == self.spec_text(),
    {
        owned(match self {
            Type::I8 => "i8",
            Type::I16 => "i16",
            Type::I32 => "i32",
            Type::I64 => "i64",
            Type::U4 => "u4",
            Type::U8 => "u8",
            Type::U16 => "u16",
            Type::U32 => "u32",
            Type::U64 => "u64",
            Type::F32 => "f32",
            Type::F64 => "f64",
            Type::F128 => "f128",
            Type::String => "string",
            Type::Bool => "bool",
            Type::NoneType => "None",
            Type::Enum(_) => "enum",
            Type::Class(_) => "class",
            Type::List(_) => "List",
            Type::Optional(_) => "optional",
        })
    }
}

/// A runtime value: two 64-bit words. Integers, booleans and enum variants
/// use `lo`; `f128` uses both words; strings hold a pointer and a length.
#[derive(Clone, Copy, Debug, PartialEq, Eq, Structural)]
pub struct Value {
    pub lo: u64,
    pub hi: u64,
}

impl Default for Value {
    fn default() -> (r: Value)
        ensures
            r == (Value { lo: 0, hi: 0 }),
    {
        Value { lo: 0, hi: 0 }
    }
}

/// The all-zero value, which also stands for `None`.
pub open spec fn zero() -> Value {
    Value { lo: 0, hi: 0 }
}

impl Value {
    /// The 128-bit pattern `hi * 2^64 + lo`.
    pub open spec fn spec_bits(self) -> u128 {
        ((self.hi as u128) << 64u128) | (self.lo as u128)
    }

    /// The value read as an integer of type `ty`: `lo` zero-extended for
    /// unsigned types, sign-extended from 64 bits otherwise.
    pub open spec fn spec_integer(self, ty: Type) -> int {
        if ty.is_unsigned() { self.lo as int } else { (self.lo as i64) as int }
    }

    /// The 128-bit pattern of the value.
    pub fn bits(self) -> (r: u128)
        ensures
            r == self.spec_bits(),
    {
        (self.hi as u128) << 64 | self.lo as u128
    }

    /// The value whose bit pattern is `bits`.
    pub fn from_bits(bits: u128) -> (r: Value)
        ensures
            r == (Value { lo: bits as u64, hi: (bits >> 64u128) as u64 }),
    {
        Value { lo: bits as u64, hi: (bits >> 64) as u64 }
    }

    /// The value read as an integer of type `ty`.
    pub fn integer(self, ty: Type) -> (r: i128)
        ensures
            r as int == self.spec_integer(ty),
    {
        if ty.unsigned() {
            self.lo as i128
        } else {
            self.lo as i64 as i128
        }
    }
}

/// The value that stores `value` as an integer of type `ty`, when `ty` is an
/// integer type whose range holds `value`.
pub open spec fn integer_value(value: int, ty: Type) -> Option<Value> {
    if ty.is_integer() && ty.spec_bounds().0 <= value <= ty.spec_bounds().1 {
        Some(Value { lo: value as u64, hi: 0 })
    } else {
        None
    }
}

/// Stores `value` as an integer of type `ty`, or says that it is out of range.
pub fn integer(value: i128, ty: Type) -> (r: Result<Value, String>)
    ensures
        match r {
            Ok(v) => integer_value(value as int, ty) == Some(v),
            Err(e) => integer_value(value as int, ty) is None
                && e@ == "value "@ + int_digits(value as int) + " is outside the range of "@ + ty.spec_text(),
        },
{
    let (low, high) = ty.bounds();
    if !ty.integer() || value < low || value > high {
        let shown = i128_text(value);
        let name = ty.text();
        return Err(concat4("value ", shown.as_str(), " is outside the range of ", name.as_str()));
    }
    Ok(Value { lo: #[verifier::truncate] (value as u64), hi: 0 })
}

/// Whether the bit pattern of a float of type `ty` is finite (its exponent
/// field is not all ones).
pub open spec fn finite_bits(bits: u128, ty: Type) -> bool {
    match ty {
        Type::F32 => (bits >> 23u128) & 0xffu128 != 0xffu128,
        Type::F64 => (bits >> 52u128) & 0x7ffu128 != 0x7ffu128,
        _ => (bits >> 112u128) & 0x7fffu128 != 0x7fffu128,
    }
}

fn finite(bits: u128, ty: Type) -> (r: bool)
    ensures
        r == finite_bits(bits, ty),
{
    match ty {
        Type::F32 => (bits >> 23) & 0xff != 0xff,
        Type::F64 => (bits >> 52) & 0x7ff != 0x7ff,
        _ => (bits >> 112) & 0x7fff != 0x7fff,
    }
}

/// `Status::OVERFLOW | Status::INVALID_OP`.
pub open spec fn overflow_or_invalid() -> u8 {
    5u8
}

/// What the named decimal parser of float type `ty` gives for `text`.
pub open spec fn float_parse(text: Seq<char>, ty: Type) -> Result<(u128, u8), Seq<char>> {
    match ty {
        Type::F32 => ieee::single_from_decimal(text),
        Type::F64 => ieee::double_from_decimal(text),
        _ => ieee::quad_from_decimal(text),
    }
}

/// The value of a decimal float literal of type `ty`: the parsed bit pattern,
/// unless parsing failed, overflowed, was invalid or gave a non-finite value.
pub open spec fn float_literal_value(text: Seq<char>, ty: Type) -> Option<Value> {
    match float_parse(text, ty) {
        Ok((bits, status)) => if status & overflow_or_invalid() == 0 && finite_bits(bits, ty) {
            Some(Value { lo: bits as u64, hi: (bits >> 64u128) as u64 })
        } else {
            None
        },
        Err(_) => None,
    }
}

/// Reading a decimal float literal of float type `ty`, with the message of
/// each failure.
pub open spec fn float_literal_result(text: Seq<char>, ty: Type) -> Result<Value, Seq<char>> {
    parsed_literal_result(float_parse(text, ty), ty)
}

/// The value of a float literal of type `ty` from what the decimal parser
/// gave: its bit pattern and status, or its error message.
pub open spec fn parsed_literal_result(parsed: Result<(u128, u8), Seq<char>>, ty: Type) -> Result<Value, Seq<char>> {
    match parsed {
        Ok((bits, status)) => if status & overflow_or_invalid() == 0 && finite_bits(bits, ty) {
            Ok(value_of_bits(bits))
        } else {
            Err("floating-point literal is outside the finite range"@)
        },
        Err(e) => Err("invalid floating-point literal: "@ + e),
    }
}

/// The value of a float literal of type `ty` from what the decimal parser
/// gave (see `parsed_literal_result`): refused when parsing failed, or when
/// it overflowed, was invalid or gave a value that is not finite.
pub fn literal_from_parse(parsed: Result<(u128, u8), String>, ty: Type) -> (r: Result<Value, String>)
    ensures
        match r {
            Ok(v) => parsed_literal_result(
                match parsed {
                    Ok(p) => Ok::<(u128, u8), Seq<char>>(p),
                    Err(e) => Err::<(u128, u8), Seq<char>>(e@),
                },
                ty,
            ) == Ok::<Value, Seq<char>>(v),
            Err(e) => parsed_literal_result(
                match parsed {
                    Ok(p) => Ok::<(u128, u8), Seq<char>>(p),
                    Err(e) => Err::<(u128, u8), Seq<char>>(e@),
                },
                ty,
            ) == Err::<Value, Seq<char>>(e@),
        },
{
    match parsed {
        Err(error) => Err(concat2("invalid floating-point literal: ", error.as_str())),
        Ok((bits, status)) => {
            if status & 5 != 0 || !finite(bits, ty) {
                Err(owned("floating-point literal is outside the finite range"))
            } else {
                Ok(Value::from_bits(bits))
            }
        },
    }
}

/// The value of a float conversion from what the converter gave: its bit
/// pattern, unless its status reports overflow or an invalid operation.
pub open spec fn converted_result(converted: (u128, u8)) -> Result<Value, Seq<char>> {
    if converted.1 & overflow_or_invalid() == 0 {
        Ok(value_of_bits(converted.0))
    } else {
        Err("floating-point conversion overflow"@)
    }
}

/// The value of a float conversion from what the converter gave (see
/// `converted_result`).
pub fn value_from_conversion(converted: (u128, u8)) -> (r: Result<Value, String>)
    ensures
        match r {
            Ok(v) => converted_result(converted) == Ok::<Value, Seq<char>>(v),
            Err(e) => converted_result(converted) == Err::<Value, Seq<char>>(e@),
        },
{
    let (bits, status) = converted;
    if status & 5 != 0 {
        return Err(owned("floating-point conversion overflow"));
    }
    Ok(Value::from_bits(bits))
}

fn float_literal(text: &str, ty: Type) -> (r: Result<Value, String>)
    requires
        ty.is_floating(),
    ensures
        match r {
            Ok(v) => float_literal_value(text@, ty) == Some(v),
            Err(_) => float_literal_value(text@, ty) is None,
        },
        match r {
            Ok(v) => float_literal_result(text@, ty) == Ok::<Value, Seq<char>>(v),
            Err(e) => float_literal_result(text@, ty) == Err::<Value, Seq<char>>(e@),
        },
{
    let parsed = match ty {
        Type::F32 => ieee::parse_single(text),
        Type::F64 => ieee::parse_double(text),
        _ => ieee::parse_quad(text),
    };
    literal_from_parse(parsed, ty)
}

proof fn lemma_digits_value_prefix(s: Seq<char>, k: int)
    requires
        0 <= k <= s.len(),
        all_digits(s),
    ensures
        digits_value(s.subrange(0, k)) <= digits_value(s),
    decreases s.len(),
{
    if k < s.len() {
        let t = s.drop_last();
        assert(all_digits(t));
        lemma_digits_value_prefix(t, k);
        assert(t.subrange(0, k) =~= s.subrange(0, k));
        assert(is_ascii_digit(s[s.len() - 1]));
    } else {
        assert(s.subrange(0, k) =~= s);
    }
}

/// Parses a decimal integer as `str::parse::<i128>` does.
pub fn parse_i128(text: &str) -> (r: Option<i128>)
    ensures
        r == decimal_i128(text@),
{
    let chars = crate::text::chars_of(text);
    let n = chars.len();
    let negative = n > 0 && chars[0] == '-';
    let signed = n > 0 && (chars[0] == '-' || chars[0] == '+');
    let start: usize = if signed { 1 } else { 0 };
    let ghost digits = if signed { text@.drop_first() } else { text@ };
    if start >= n {
        assert(digits.len() == 0);
        return None;
    }
    let mut value: i128 = 0;
    let mut i: usize = start;
    while i < n
        invariant
            start <= i <= n,
            chars@ == text@,
            digits =~= chars@.subrange(start as int, n as int),
            all_digits(chars@.subrange(start as int, i as int)),
            value as int == if negative {
                -(digits_value(chars@.subrange(start as int, i as int)) as int)
            } else {
                digits_value(chars@.subrange(start as int, i as int)) as int
            },
        decreases n - i,
    {
        let c = chars[i];
        let ghost prefix = chars@.subrange(start as int, i as int);
        let ghost next = chars@.subrange(start as int, i + 1);
        assert(next.drop_last() =~= prefix);
        if !('0' <= c && c <= '9') {
            assert(!is_ascii_digit(digits[i - start]));
            return None;
        }
        let d: i128 = (c as u32 - '0' as u32) as i128;
        assert(all_digits(next));
        let stepped = if negative {
            match value.checked_mul(10) {
                Some(m) => m.checked_sub(d),
                None => None,
            }
        } else {
            match value.checked_mul(10) {
                Some(m) => m.checked_add(d),
                None => None,
            }
        };
        match stepped {
            Some(v) => {
                value = v;
            },
            None => {
                proof {
                    let rest = chars@.subrange(start as int, n as int);
                    if all_digits(rest) {
                        lemma_digits_value_prefix(rest, (i + 1 - start) as int);
                        assert(rest.subrange(0, (i + 1 - start) as int) =~= next);
                    }
                }
                return None;
            },
        }
        i = i + 1;
    }
    assert(chars@.subrange(start as int, n as int) =~= digits);
    Some(value)
}

/// The value of a numeric literal of type `ty`: a decimal integer for integer
/// types, a decimal float for float types.
pub open spec fn literal_value(text: Seq<char>, ty: Type) -> Option<Value> {
    if ty.is_integer() {
        match decimal_i128(text) {
            Some(v) => integer_value(v as int, ty),
            None => None,
        }
    } else if ty.is_floating() {
        float_literal_value(text, ty)
    } else {
        None
    }
}

/// Reading a numeric literal as a value of type `ty`, with the message of
/// each failure.
pub open spec fn literal_result(text: Seq<char>, ty: Type) -> Result<Value, Seq<char>> {
    if ty.is_integer() {
        match decimal_i128(text) {
            Some(v) => match integer_value(v as int, ty) {
                Some(value) => Ok(value),
                None => Err("value "@ + int_digits(v as int) + " is outside the range of "@ + ty.spec_text()),
            },
            None => Err("invalid integer literal '"@ + text + "' for "@ + ty.spec_text()),
        }
    } else if ty.is_floating() {
        float_literal_result(text, ty)
    } else {
        Err("numeric literal cannot have type "@ + ty.spec_text())
    }
}

/// Reads a numeric literal as a value of type `ty`.
pub fn literal(text: &str, ty: Type) -> (r: Result<Value, String>)
    ensures
        match r {
            Ok(v) => literal_value(text@, ty) == Some(v),
            Err(_) => literal_value(text@, ty) is None,
        },
        match r {
            Ok(v) => literal_result(text@, ty) == Ok::<Value, Seq<char>>(v),
            Err(e) => literal_result(text@, ty) == Err::<Value, Seq<char>>(e@),
        },
{
    if ty.integer() {
        return match parse_i128(text) {
            Some(value) => integer(value, ty),
            None => {
                let name = ty.text();
                Err(concat4("invalid integer literal '", text, "' for ", name.as_str()))
            },
        };
    }
    if ty.floating() {
        return float_literal(text, ty);
    }
    let name = ty.text();
    Err(concat2("numeric literal cannot have type ", name.as_str()))
}

/// What the named width conversion from float type `from` to `to` gives.
pub open spec fn float_conversion(bits: u128, from: Type, to: Type) -> (u128, u8) {
    match (from, to) {
        (Type::F32, Type::F64) => ieee::single_to_double(bits),
        (Type::F32, _) => ieee::single_to_quad(bits),
        (Type::F64, Type::F32) => ieee::double_to_single(bits),
        (Type::F64, _) => ieee::double_to_quad(bits),
        (_, Type::F32) => ieee::quad_to_single(bits),
        (_, _) => ieee::quad_to_double(bits),
    }
}

/// The converted value of a non-optional conversion, if it is allowed and in
/// range: integer to integer, integer to float, float to float.
pub open spec fn scalar_conversion(value: Value, from: Type, to: Type) -> Option<Value> {
    if from == to {
        Some(value)
    } else if from.is_integer() && to.is_integer() {
        integer_value(value.spec_integer(from), to)
    } else if from.is_integer() && to.is_floating() {
        float_literal_value(int_digits(value.spec_integer(from)), to)
    } else if from.is_floating() && to.is_floating() {
        let (bits, status) = float_conversion(value.spec_bits(), from, to);
        if status & overflow_or_invalid() == 0 {
            Some(Value { lo: bits as u64, hi: (bits >> 64u128) as u64 })
        } else {
            None
        }
    } else {
        None
    }
}

/// The result of `convert`: `None` becomes the empty optional; a value of the
/// inner type, or one convertible to it, becomes an optional held in place
/// (`hi == 1`) when the inner type is not wide.
pub open spec fn conversion(value: Value, from: Type, to: Type) -> Option<Value> {
    if from == to {
        Some(value)
    } else {
        match to {
            Type::Optional(inner_id) => if from == Type::NoneType {
                Some(zero())
            } else {
                match type_of_id(inner_id) {
                    Some(inner) => if inner.is_wide_optional_value() || inner is Optional {
                        None
                    } else {
                        match scalar_conversion(value, from, inner) {
                            Some(v) => Some(Value { lo: v.lo, hi: 1 }),
                            None => None,
                        }
                    },
                    None => None,
                }
            },
            _ => scalar_conversion(value, from, to),
        }
    }
}

/// The message of a value outside the range of integer type `ty`.
pub open spec fn range_message(value: int, ty: Type) -> Seq<char> {
    "value "@ + int_digits(value) + " is outside the range of "@ + ty.spec_text()
}

/// A non-optional conversion with the message of each failure.
pub open spec fn scalar_conversion_result(value: Value, from: Type, to: Type) -> Result<Value, Seq<char>> {
    if from == to {
        Ok(value)
    } else if from.is_integer() && to.is_integer() {
        match integer_value(value.spec_integer(from), to) {
            Some(v) => Ok(v),
            None => Err(range_message(value.spec_integer(from), to)),
        }
    } else if from.is_integer() && to.is_floating() {
        float_literal_result(int_digits(value.spec_integer(from)), to)
    } else if from.is_floating() && to.is_floating() {
        let (bits, status) = float_conversion(value.spec_bits(), from, to);
        if status & overflow_or_invalid() == 0 {
            Ok(value_of_bits(bits))
        } else {
            Err("floating-point conversion overflow"@)
        }
    } else {
        Err("cannot convert "@ + from.spec_text() + " to "@ + to.spec_text())
    }
}

/// `convert` with the message of each failure.
pub open spec fn conversion_result(value: Value, from: Type, to: Type) -> Result<Value, Seq<char>> {
    if from == to {
        Ok(value)
    } else {
        match to {
            Type::Optional(inner_id) => if from == Type::NoneType {
                Ok(zero())
            } else {
                match type_of_id(inner_id) {
                    None => Err("invalid optional type"@),
                    Some(inner) => if inner.is_wide_optional_value() {
                        Err("wide optional values are boxed at runtime"@)
                    } else if inner is Optional {
                        Err("optional values cannot be nested"@)
                    } else {
                        match scalar_conversion_result(value, from, inner) {
                            Ok(v) => Ok(Value { lo: v.lo, hi: 1 }),
                            Err(e) => Err(e),
                        }
                    },
                }
            },
            _ => scalar_conversion_result(value, from, to),
        }
    }
}

fn float_convert(value: Value, from: Type, to: Type) -> (r: Result<Value, String>)
    requires
        from.is_floating(),
        to.is_floating(),
        from != to,
    ensures
        match r {
            Ok(v) => scalar_conversion(value, from, to) == Some(v),
            Err(_) => scalar_conversion(value, from, to) is None,
        },
        match r {
            Ok(v) => scalar_conversion_result(value, from, to) == Ok::<Value, Seq<char>>(v),
            Err(e) => scalar_conversion_result(value, from, to) == Err::<Value, Seq<char>>(e@),
        },
{
    let bits = value.bits();
    let (converted, status) = match (from, to) {
        (Type::F32, Type::F64) => ieee::convert_single_to_double(bits),
        (Type::F32, _) => ieee::convert_single_to_quad(bits),
        (Type::F64, Type::F32) => ieee::convert_double_to_single(bits),
        (Type::F64, _) => ieee::convert_double_to_quad(bits),
        (_, Type::F32) => ieee::convert_quad_to_single(bits),
        (_, _) => ieee::convert_quad_to_double(bits),
    };
    value_from_conversion((converted, status))
}

fn scalar_convert(value: Value, from: Type, to: Type) -> (r: Result<Value, String>)
    ensures
        match r {
            Ok(v) => scalar_conversion(value, from, to) == Some(v),
            Err(_) => scalar_conversion(value, from, to) is None,
        },
        match r {
            Ok(v) => scalar_conversion_result(value, from, to) == Ok::<Value, Seq<char>>(v),
            Err(e) => scalar_conversion_result(value, from, to) == Err::<Value, Seq<char>>(e@),
        },
{
    if from == to {
        return Ok(value);
    }
    if from.integer() && to.integer() {
        return integer(value.integer(from), to);
    }
    if from.integer() && to.floating() {
        let text = i128_text(value.integer(from));
        return float_literal(text.as_str(), to);
    }
    if from.floating() && to.floating() {
        return float_convert(value, from, to);
    }
    let a = from.text();
    let b = to.text();
    Err(concat4("cannot convert ", a.as_str(), " to ", b.as_str()))
}

/// Converts a value of type `from` to type `to`: a checked integer
/// conversion, an integer-to-float or float-width conversion, or wrapping a
/// value (or `None`) into an optional held in place.
pub fn convert(value: Value, from: Type, to: Type) -> (r: Result<Value, String>)
    ensures
        match r {
            Ok(v) => conversion(value, from, to) == Some(v),
            Err(_) => conversion(value, from, to) is None,
        },
        match r {
            Ok(v) => conversion_result(value, from, to) == Ok::<Value, Seq<char>>(v),
            Err(e) => conversion_result(value, from, to) == Err::<Value, Seq<char>>(e@),
        },
{
    if from == to {
        return Ok(value);
    }
    if let Type::Optional(inner_id) = to {
        if from == Type::NoneType {
            return Ok(Value { lo: 0, hi: 0 });
        }
        let inner = match Type::from_id(inner_id) {
            Some(inner) => inner,
            None => return Err(owned("invalid optional type")),
        };
        if inner.wide_optional_value() {
            return Err(owned("wide optional values are boxed at runtime"));
        }
        if let Type::Optional(_) = inner {
            return Err(owned("optional values cannot be nested"));
        }
        let converted = scalar_convert(value, from, inner)?;
        return Ok(Value { lo: converted.lo, hi: 1 });
    }
    scalar_convert(value, from, to)
}

/// The value whose bit pattern is `bits`.
pub open spec fn value_of_bits(bits: u128) -> Value {
    Value { lo: bits as u64, hi: (bits >> 64u128) as u64 }
}

/// A boolean result: `1` for true, `0` for false, in `lo`.
pub open spec fn flag(holds: bool) -> Value {
    Value { lo: if holds { 1 } else { 0 }, hi: 0 }
}

/// Whether `v` is in the range of `i128`.
pub open spec fn fits_i128(v: int) -> bool {
    i128::MIN <= v <= i128::MAX
}

/// Rust's integer `/`: the quotient rounded toward zero (`d != 0`).
pub open spec fn quotient_toward_zero(x: int, d: int) -> int {
    if x == 0 {
        0
    } else if x > 0 && d > 0 {
        x / d
    } else if x < 0 && d < 0 {
        (-x) / (-d)
    } else if x < 0 {
        -((-x) / d)
    } else {
        -(x / (-d))
    }
}

/// The comparison that operation codes `7` to `12` stand for: `==`, `!=`,
/// `<`, `<=`, `>`, `>=`.
pub open spec fn compares(op: u32, a: int, b: int) -> bool {
    if op == 7 {
        a == b
    } else if op == 8 {
        a != b
    } else if op == 9 {
        a < b
    } else if op == 10 {
        a <= b
    } else if op == 11 {
        a > b
    } else {
        a >= b
    }
}

/// Rust's integer `%`: the remainder of the division toward zero, with the
/// sign of `x` (`d != 0`).
pub open spec fn remainder_toward_zero(x: int, d: int) -> int {
    x - d * quotient_toward_zero(x, d)
}

/// Checked integer arithmetic in `i128`: `0` add, `1` subtract, `2`
/// multiply, `3` divide (toward zero), `4` negate, `6` clamp `a` into
/// `b..=c`, `13` remainder (of the division toward zero). `None` on
/// overflow, division by zero, an empty clamp range or an unknown code.
pub open spec fn integer_arithmetic(op: u32, a: int, b: int, c: int) -> Option<int> {
    let exact = if op == 0 {
        Some(a + b)
    } else if op == 1 {
        Some(a - b)
    } else if op == 2 {
        Some(a * b)
    } else if op == 3 {
        if b == 0 { None } else { Some(quotient_toward_zero(a, b)) }
    } else if op == 4 {
        Some(-a)
    } else if op == 6 && b <= c {
        Some(if a < b { b } else if a > c { c } else { a })
    } else if op == 13 {
        if b == 0 { None } else { Some(remainder_toward_zero(a, b)) }
    } else {
        None
    };
    match exact {
        Some(v) => if fits_i128(v) { Some(v) } else { None },
        None => None,
    }
}

/// Whether a comparison code holds of a float ordering, as IEEE `==`, `!=`,
/// `<`, `<=`, `>` and `>=` do: every comparison but `!=` is false when a NaN
/// takes part.
pub open spec fn float_holds(op: u32, order: Option<i8>) -> bool {
    if op == 7 {
        order == Some(0i8)
    } else if op == 8 {
        order != Some(0i8)
    } else if op == 9 {
        order == Some(-1i8)
    } else if op == 10 {
        order == Some(-1i8) || order == Some(0i8)
    } else if op == 11 {
        order == Some(1i8)
    } else {
        order == Some(1i8) || order == Some(0i8)
    }
}

/// The named ordering of two bit patterns of float type `ty`.
pub open spec fn float_order(ty: Type, a: u128, b: u128) -> Option<i8> {
    match ty {
        Type::F32 => ieee::single_compare(a, b),
        Type::F64 => ieee::double_compare(a, b),
        _ => ieee::quad_compare(a, b),
    }
}

/// The named result of arithmetic code `op` (`0` to `3`) on float type `ty`.
pub open spec fn float_arithmetic(op: u32, ty: Type, a: u128, b: u128) -> (u128, u8) {
    match ty {
        Type::F32 => if op == 0 {
            ieee::single_add(a, b)
        } else if op == 1 {
            ieee::single_sub(a, b)
        } else if op == 2 {
            ieee::single_mul(a, b)
        } else {
            ieee::single_div(a, b)
        },
        Type::F64 => if op == 0 {
            ieee::double_add(a, b)
        } else if op == 1 {
            ieee::double_sub(a, b)
        } else if op == 2 {
            ieee::double_mul(a, b)
        } else {
            ieee::double_div(a, b)
        },
        _ => if op == 0 {
            ieee::quad_add(a, b)
        } else if op == 1 {
            ieee::quad_sub(a, b)
        } else if op == 2 {
            ieee::quad_mul(a, b)
        } else {
            ieee::quad_div(a, b)
        },
    }
}

/// The negation of a float of type `ty`: its pattern with the sign bit
/// flipped.
pub open spec fn float_negated(ty: Type, bits: u128) -> u128 {
    match ty {
        Type::F32 => ieee::single_neg(bits),
        Type::F64 => ieee::double_neg(bits),
        _ => ieee::quad_neg(bits),
    }
}

/// The pattern that a float of type `ty` reads back as.
pub open spec fn float_reencoded(ty: Type, bits: u128) -> u128 {
    match ty {
        Type::F32 => ieee::single_canonical(bits),
        Type::F64 => ieee::double_canonical(bits),
        _ => ieee::quad_canonical(bits),
    }
}

/// `Status::OVERFLOW | Status::INVALID_OP | Status::DIV_BY_ZERO`.
pub open spec fn arithmetic_faults() -> u8 {
    7u8
}

/// The result of operation `op` on floats of type `ty`: comparisons give a
/// flag; arithmetic must raise no overflow, invalid-operation or
/// division-by-zero status and stay finite; clamping needs `b <= c` unless a
/// NaN takes part.
pub open spec fn floating_result(op: u32, ty: Type, a: Value, b: Value, c: Value) -> Result<Value, Seq<char>> {
    let (x, y, z) = (a.spec_bits(), b.spec_bits(), c.spec_bits());
    if 7 <= op <= 12 {
        Ok(flag(float_holds(op, float_order(ty, x, y))))
    } else if op <= 3 {
        let (bits, status) = float_arithmetic(op, ty, x, y);
        if status & arithmetic_faults() == 0 && finite_bits(bits, ty) {
            Ok(value_of_bits(bits))
        } else {
            Err("floating-point overflow or division by zero"@)
        }
    } else if op == 4 {
        Ok(value_of_bits(float_negated(ty, x)))
    } else if op == 6 {
        if float_order(ty, y, z) == Some(1i8) {
            Err("invalid clamp range"@)
        } else if float_order(ty, x, y) == Some(-1i8) {
            Ok(value_of_bits(float_reencoded(ty, y)))
        } else if float_order(ty, x, z) == Some(1i8) {
            Ok(value_of_bits(float_reencoded(ty, z)))
        } else {
            Ok(value_of_bits(float_reencoded(ty, x)))
        }
    } else {
        Err("invalid operation"@)
    }
}

/// The result of runtime operation `op` on values of type `ty`: checked
/// integer arithmetic and comparisons, equality of booleans, `None` and enum
/// variants, and IEEE arithmetic and comparisons on floats.
pub open spec fn operation_result(op: u32, ty: Type, a: Value, b: Value, c: Value) -> Result<Value, Seq<char>> {
    if ty.is_integer() {
        let (x, y, z) = (a.spec_integer(ty), b.spec_integer(ty), c.spec_integer(ty));
        if 7 <= op <= 12 {
            Ok(flag(compares(op, x, y)))
        } else {
            match integer_arithmetic(op, x, y, z) {
                Some(v) => match integer_value(v, ty) {
                    Some(value) => Ok(value),
                    None => Err("value "@ + int_digits(v) + " is outside the range of "@ + ty.spec_text()),
                },
                None => Err("arithmetic overflow, division by zero or invalid clamp range"@),
            }
        }
    } else if (ty is Bool || ty is NoneType || ty is Enum) && (op == 7 || op == 8) {
        Ok(flag(if op == 7 { a == b } else { a != b }))
    } else if ty.is_floating() {
        floating_result(op, ty, a, b, c)
    } else {
        Err("arithmetic is not supported for "@ + ty.spec_text())
    }
}

fn result_flag(holds: bool) -> (r: Value)
    ensures
        r == flag(holds),
{
    Value { lo: if holds { 1 } else { 0 }, hi: 0 }
}

fn float_compare(ty: Type, a: u128, b: u128) -> (r: Option<i8>)
    ensures
        r == float_order(ty, a, b),
{
    match ty {
        Type::F32 => ieee::single_order(a, b),
        Type::F64 => ieee::double_order(a, b),
        _ => ieee::quad_order(a, b),
    }
}

fn float_reencode(ty: Type, bits: u128) -> (r: Value)
    ensures
        r == value_of_bits(float_reencoded(ty, bits)),
{
    let pattern = match ty {
        Type::F32 => ieee::single_reencode(bits),
        Type::F64 => ieee::double_reencode(bits),
        _ => ieee::quad_reencode(bits),
    };
    Value::from_bits(pattern)
}

fn float_arithmetic_exec(op: u32, ty: Type, a: u128, b: u128) -> (r: (u128, u8))
    requires
        op <= 3,
    ensures
        r == float_arithmetic(op, ty, a, b),
{
    match ty {
        Type::F32 => if op == 0 {
            ieee::single_sum(a, b)
        } else if op == 1 {
            ieee::single_difference(a, b)
        } else if op == 2 {
            ieee::single_product(a, b)
        } else {
            ieee::single_quotient(a, b)
        },
        Type::F64 => if op == 0 {
            ieee::double_sum(a, b)
        } else if op == 1 {
            ieee::double_difference(a, b)
        } else if op == 2 {
            ieee::double_product(a, b)
        } else {
            ieee::double_quotient(a, b)
        },
        _ => if op == 0 {
            ieee::quad_sum(a, b)
        } else if op == 1 {
            ieee::quad_difference(a, b)
        } else if op == 2 {
            ieee::quad_product(a, b)
        } else {
            ieee::quad_quotient(a, b)
        },
    }
}

fn floating(op: u32, ty: Type, a: Value, b: Value, c: Value) -> (r: Result<Value, String>)
    requires
        ty.is_floating(),
    ensures
        match r {
            Ok(v) => floating_result(op, ty, a, b, c) == Ok::<Value, Seq<char>>(v),
            Err(e) => floating_result(op, ty, a, b, c) == Err::<Value, Seq<char>>(e@),
        },
{
    let (x, y, z) = (a.bits(), b.bits(), c.bits());
    if 7 <= op && op <= 12 {
        let order = float_compare(ty, x, y);
        let holds = if op == 7 {
            order == Some(0i8)
        } else if op == 8 {
            order != Some(0i8)
        } else if op == 9 {
            order == Some(-1i8)
        } else if op == 10 {
            order == Some(-1i8) || order == Some(0i8)
        } else if op == 11 {
            order == Some(1i8)
        } else {
            order == Some(1i8) || order == Some(0i8)
        };
        return Ok(result_flag(holds));
    }
    if op <= 3 {
        let (bits, status) = float_arithmetic_exec(op, ty, x, y);
        if status & 7 != 0 || !finite(bits, ty) {
            return Err(owned("floating-point overflow or division by zero"));
        }
        return Ok(Value::from_bits(bits));
    }
    if op == 4 {
        let negated = match ty {
            Type::F32 => ieee::single_negation(x),
            Type::F64 => ieee::double_negation(x),
            _ => ieee::quad_negation(x),
        };
        return Ok(Value::from_bits(negated));
    }
    if op == 6 {
        if float_compare(ty, y, z) == Some(1i8) {
            return Err(owned("invalid clamp range"));
        }
        if float_compare(ty, x, y) == Some(-1i8) {
            return Ok(float_reencode(ty, y));
        }
        if float_compare(ty, x, z) == Some(1i8) {
            return Ok(float_reencode(ty, z));
        }
        return Ok(float_reencode(ty, x));
    }
    Err(owned("invalid operation"))
}

/// `|x|` of a value in the range of the runtime integer types.
fn magnitude(x: i128) -> (r: u128)
    requires
        -0x8000_0000_0000_0000 <= x < 0x1_0000_0000_0000_0000,
    ensures
        r as int == if x < 0 { -x } else { x as int },
{
    if x < 0 { (-x) as u128 } else { x as u128 }
}

fn integer_arithmetic_exec(op: u32, a: i128, b: i128, c: i128) -> (r: Option<i128>)
    requires
        -0x8000_0000_0000_0000 <= a < 0x1_0000_0000_0000_0000,
        -0x8000_0000_0000_0000 <= b < 0x1_0000_0000_0000_0000,
    ensures
        match r {
            Some(v) => integer_arithmetic(op, a as int, b as int, c as int) == Some(v as int),
            None => integer_arithmetic(op, a as int, b as int, c as int) is None,
        },
{
    if op == 0 {
        Some(a + b)
    } else if op == 1 {
        Some(a - b)
    } else if op == 2 {
        let (ma, mb) = (magnitude(a), magnitude(b));
        assert(ma * mb < 0x1_0000_0000_0000_0000_0000_0000_0000_0000) by (nonlinear_arith)
            requires
                ma < 0x1_0000_0000_0000_0000,
                mb < 0x1_0000_0000_0000_0000,
        ;
        let product = ma * mb;
        let negative = (a < 0) != (b < 0);
        proof {
            let (ia, ib) = (a as int, b as int);
            if ia < 0 && ib < 0 {
                assert(ia * ib == (-ia) * (-ib)) by (nonlinear_arith);
            } else if ia < 0 {
                assert(ia * ib == -((-ia) * ib)) by (nonlinear_arith);
            } else if ib < 0 {
                assert(ia * ib == -(ia * (-ib))) by (nonlinear_arith);
            }
        }
        if negative {
            if product > 0x8000_0000_0000_0000_0000_0000_0000_0000u128 {
                None
            } else if product == 0x8000_0000_0000_0000_0000_0000_0000_0000u128 {
                Some(i128::MIN)
            } else {
                Some(-(product as i128))
            }
        } else if product > 0x7fff_ffff_ffff_ffff_ffff_ffff_ffff_ffffu128 {
            None
        } else {
            Some(product as i128)
        }
    } else if op == 3 {
        if b == 0 {
            return None;
        }
        let (ma, mb) = (magnitude(a), magnitude(b));
        let q = ma / mb;
        proof {
            let (ia, ib) = (a as int, b as int);
            assert(q as int == (ma as int) / (mb as int));
            assert(q <= ma) by (nonlinear_arith)
                requires
                    mb >= 1,
                    q as int == (ma as int) / (mb as int),
            ;
        }
        if (a < 0) != (b < 0) {
            Some(-(q as i128))
        } else {
            Some(q as i128)
        }
    } else if op == 13 {
        if b == 0 {
            return None;
        }
        let (ma, mb) = (magnitude(a), magnitude(b));
        let m = ma % mb;
        proof {
            let (ia, ib) = (a as int, b as int);
            let (xa, xb) = (ma as int, mb as int);
            assert(xa == xb * (xa / xb) + xa % xb && 0 <= xa % xb < xb) by (nonlinear_arith)
                requires
                    xb >= 1,
                    xa >= 0,
            ;
            assert(m as int == xa % xb);
            let q = quotient_toward_zero(ia, ib);
            if ia == 0 {
                assert(xa / xb == 0) by (nonlinear_arith) requires xa == 0, xb >= 1;
            } else if ia > 0 && ib > 0 {
                assert(ib * q == xb * (xa / xb));
            } else if ia < 0 && ib < 0 {
                assert(ib * q == -(xb * (xa / xb))) by (nonlinear_arith)
                    requires ib == -xb, q == xa / xb;
            } else if ia < 0 {
                assert(ib * q == -(xb * (xa / xb))) by (nonlinear_arith)
                    requires ib == xb, q == -(xa / xb);
            } else {
                assert(ib * q == xb * (xa / xb)) by (nonlinear_arith)
                    requires ib == -xb, q == -(xa / xb);
            }
        }
        if a < 0 {
            Some(-(m as i128))
        } else {
            Some(m as i128)
        }
    } else if op == 4 {
        Some(-a)
    } else if op == 6 && b <= c {
        Some(if a < b { b } else if a > c { c } else { a })
    } else {
        None
    }
}

/// Runs runtime operation `op` (`0` add, `1` subtract, `2` multiply, `3`
/// divide, `4` negate, `6` clamp, `7` to `12` compare) on values of type `ty`.
pub fn operation(op: u32, ty: Type, a: Value, b: Value, c: Value) -> (r: Result<Value, String>)
    ensures
        match r {
            Ok(v) => operation_result(op, ty, a, b, c) == Ok::<Value, Seq<char>>(v),
            Err(e) => operation_result(op, ty, a, b, c) == Err::<Value, Seq<char>>(e@),
        },
{
    if ty.integer() {
        let (x, y, z) = (a.integer(ty), b.integer(ty), c.integer(ty));
        if 7 <= op && op <= 12 {
            let holds = if op == 7 {
                x == y
            } else if op == 8 {
                x != y
            } else if op == 9 {
                x < y
            } else if op == 10 {
                x <= y
            } else if op == 11 {
                x > y
            } else {
                x >= y
            };
            return Ok(result_flag(holds));
        }
        return match integer_arithmetic_exec(op, x, y, z) {
            Some(value) => integer(value, ty),
            None => Err(owned("arithmetic overflow, division by zero or invalid clamp range")),
        };
    }
    let equality = match ty {
        Type::Bool | Type::NoneType | Type::Enum(_) => op == 7 || op == 8,
        _ => false,
    };
    if equality {
        return Ok(result_flag(if op == 7 { a == b } else { a != b }));
    }
    if ty.floating() {
        return floating(op, ty, a, b, c);
    }
    let name = ty.text();
    Err(concat2("arithmetic is not supported for ", name.as_str()))
}

/// How a value is printed: as finished text, or as an `f32` or `f64` bit
/// pattern that is printed as the shortest decimal that reads back as the
/// same float.
#[derive(Debug, PartialEq, Eq)]
pub enum Printed {
    Text(String),
    Single(u32),
    Double(u64),
}

/// The text that printing a value of type `ty` gives, where it is text: the
/// decimal integer, `true` or `false`, `None`, the variant number of an enum,
/// or the decimal form of an `f128`.
pub open spec fn printed_text(value: Value, ty: Type) -> Option<Seq<char>> {
    if ty.is_integer() {
        Some(int_digits(value.spec_integer(ty)))
    } else {
        match ty {
            Type::F128 => Some(ieee::quad_decimal(value.spec_bits())),
            Type::Bool => Some(if value.lo == 0 { "false"@ } else { "true"@ }),
            Type::NoneType => Some("None"@),
            Type::Enum(_) => Some(nat_digits(value.lo as nat)),
            _ => None,
        }
    }
}

/// Whether `r` is how a value of type `ty` is printed: its text, the bit
/// pattern of an `f32` or `f64`, or the error for classes and strings.
pub open spec fn shows(value: Value, ty: Type, r: Result<Printed, String>) -> bool {
    match printed_text(value, ty) {
        Some(text) => r matches Ok(Printed::Text(s)) && s@ == text,
        None => match ty {
            Type::F32 => r matches Ok(Printed::Single(bits)) && bits == value.lo as u32,
            Type::F64 => r matches Ok(Printed::Double(bits)) && bits == value.lo,
            Type::Class(_) => r matches Err(e) && e@ == "class objects cannot be printed directly"@,
            _ => r matches Err(e) && e@ == "string values must be written as UTF-8 bytes"@,
        },
    }
}

/// How a value of type `ty` is printed; classes and strings are not printed
/// through this function.
pub fn display(value: Value, ty: Type) -> (r: Result<Printed, String>)
    ensures
        shows(value, ty, r),
{
    if ty.integer() {
        return Ok(Printed::Text(i128_text(value.integer(ty))));
    }
    match ty {
        Type::F32 => Ok(Printed::Single(value.lo as u32)),
        Type::F64 => Ok(Printed::Double(value.lo)),
        Type::F128 => Ok(Printed::Text(ieee::quad_text(value.bits()))),
        Type::Bool => Ok(Printed::Text(owned(if value.lo == 0 { "false" } else { "true" }))),
        Type::NoneType => Ok(Printed::Text(owned("None"))),
        Type::Enum(_) => {
            let mut text = String::new();
            push_u128(&mut text, value.lo as u128);
            assert(text@ =~= nat_digits(value.lo as nat));
            Ok(Printed::Text(text))
        },
        Type::Class(_) => Err(owned("class objects cannot be printed directly")),
        _ => Err(owned("string values must be written as UTF-8 bytes")),
    }
}

/// Integer division by zero fails: the runtime stops the program instead of
/// producing a value.
pub proof fn lemma_division_by_zero_fails(ty: Type, a: Value, b: Value, c: Value)
    requires
        ty.is_integer(),
        b.spec_integer(ty) == 0,
    ensures
        operation_result(3, ty, a, b, c) is Err,
{
}

/// Clamping into a reversed range fails, for integers and for floats that
/// are ordered.
pub proof fn lemma_reversed_clamp_fails(ty: Type, a: Value, b: Value, c: Value)
    requires
        ty.is_integer() && b.spec_integer(ty) > c.spec_integer(ty)
            || ty.is_floating() && float_order(ty, b.spec_bits(), c.spec_bits()) == Some(1i8),
    ensures
        operation_result(6, ty, a, b, c) is Err,
{
}

/// Integer arithmetic never wraps: a result outside the range of the type
/// is an error, and every value produced lies in the range.
pub proof fn lemma_integer_results_in_range(op: u32, ty: Type, a: Value, b: Value, c: Value)
    requires
        ty.is_integer(),
        op <= 6,
    ensures
        match operation_result(op, ty, a, b, c) {
            Ok(v) => ty.spec_bounds().0 <= v.spec_integer(ty) <= ty.spec_bounds().1,
            Err(_) => match integer_arithmetic(op, a.spec_integer(ty), b.spec_integer(ty), c.spec_integer(ty)) {
                Some(x) => x < ty.spec_bounds().0 || ty.spec_bounds().1 < x,
                None => true,
            },
        },
{
    let x = integer_arithmetic(op, a.spec_integer(ty), b.spec_integer(ty), c.spec_integer(ty));
    if let Some(v) = x {
        if ty.spec_bounds().0 <= v <= ty.spec_bounds().1 {
            lemma_integer_value_reads_back(v, ty);
        }
    }
}

/// A value stored as an integer of type `ty` reads back as the same number.
pub proof fn lemma_integer_value_reads_back(v: int, ty: Type)
    requires
        ty.is_integer(),
        ty.spec_bounds().0 <= v <= ty.spec_bounds().1,
    ensures
        integer_value(v, ty) matches Some(value) && value.spec_integer(ty) == v,
{
    let value = Value { lo: v as u64, hi: 0 };
    if ty.is_unsigned() {
        assert(0 <= v < 0x1_0000_0000_0000_0000);
        assert(value.lo as int == v);
    } else {
        assert(-0x8000_0000_0000_0000 <= v < 0x8000_0000_0000_0000);
        let w = v as i64;
        assert(w as int == v);
        assert((w as u64) as i64 == w) by (bit_vector);
        assert(value.lo == w as u64);
    }
}

/// The identifier of a valid type determines it: `from_id` undoes `id`.
pub proof fn lemma_id_round_trip(ty: Type)
    requires
        ty.valid(),
    ensures
        type_of_id(ty.spec_id()) == Some(ty),
{
    match ty {
        Type::List(inner) => lemma_code_round_trip(inner),
        Type::Optional(inner) => lemma_code_round_trip(inner),
        _ => {},
    }
}

/// A wrappable identifier is what its inner code stands for.
proof fn lemma_code_round_trip(inner: u32)
    requires
        spec_wrappable(inner),
    ensures
        code_inner(inner_code(inner)->0) == inner,
{
}

/// A type found by its identifier is valid and has that identifier: `id`
/// undoes `from_id`.
pub proof fn lemma_from_id_round_trip(id: u32)
    requires
        type_of_id(id) is Some,
    ensures
        type_of_id(id)->0.valid(),
        type_of_id(id)->0.spec_id() == id,
{
    if wrapper_base() <= id < 0x4000_0000 {
        let code = (id - wrapper_base()) / 2;
        let inner = code_inner(code);
        assert(inner_code(inner) == Some(code));
    }
}

/// The identifiers that stand for no type are exactly those from 15 up to
/// `wrapper_base`.
pub proof fn lemma_undecodable_ids(id: u32)
    ensures
        type_of_id(id) is None <==> 15 <= id < wrapper_base(),
{
}

/// Storing an integer and reading it back gives the same integer.
pub proof fn lemma_integer_round_trip(value: i128, ty: Type)
    requires
        integer_value(value as int, ty) is Some,
    ensures
        integer_value(value as int, ty)->0.spec_integer(ty) == value as int,
{
    let v = integer_value(value as int, ty)->0;
    if ty.is_unsigned() {
        assert(0 <= value && value <= 18446744073709551615i128 ==> (value as u64) as int == value as int) by (bit_vector);
    } else {
        assert(-9223372036854775808i128 <= value && value <= 9223372036854775807i128 ==> ((value as u64) as i64) as int == value as int) by (bit_vector);
    }
}

/// Taking the bit pattern of a value and building a value from it gives the
/// same value.
pub proof fn lemma_bits_round_trip(value: Value)
    ensures
        (value.spec_bits() as u64) == value.lo,
        ((value.spec_bits() >> 64u128) as u64) == value.hi,
{
    let lo = value.lo;
    let hi = value.hi;
    assert(((((hi as u128) << 64u128) | (lo as u128)) as u64) == lo) by (bit_vector);
    assert(((((((hi as u128) << 64u128) | (lo as u128)) >> 64u128)) as u64) == hi) by (bit_vector);
}

} // verus!
