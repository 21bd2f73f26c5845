//! Constants and types as text, for the messages about those that are not supported.
use vstd::prelude::*;

use crate::mir::Const;
use crate::text::{decimal, push_decimal, push_number};
use crate::types::{ArrayLen, IntBits, Type, TypeId};

verus! {

/// The decimal digits of `v`, behind a minus sign where it is negative.
pub open spec fn signed_decimal(v: int) -> Seq<char> {
    if v < 0 {
        "-"@ + decimal((-v) as nat)
    } else {
        decimal(v as nat)
    }
}

/// A truth value.
pub open spec fn shown_bool(b: bool) -> Seq<char> {
    if b {
        "true"@
    } else {
        "false"@
    }
}

/// A number behind the name of what it numbers.
pub open spec fn shown_id(name: Seq<char>, n: u32) -> Seq<char> {
    name + "("@ + decimal(n as nat) + ")"@
}

/// The number of a type.
pub open spec fn shown_type_id(ty: TypeId) -> Seq<char> {
    shown_id("TypeId"@, ty.0)
}

/// A constant.
pub open spec fn shown_const(c: Const) -> Seq<char> {
    match c {
        Const::Int { value, ty } => "Int { value: "@ + signed_decimal(value as int) + ", ty: "@
            + shown_type_id(ty) + " }"@,
        Const::Bool(b) => "Bool("@ + shown_bool(b) + ")"@,
        Const::Void => "Void"@,
        Const::Float { bits, ty } => "Float { bits: "@ + decimal(bits as nat) + ", ty: "@
            + shown_type_id(ty) + " }"@,
        Const::EnumVal { variant, ty } => "EnumVal { variant: "@ + decimal(variant as nat)
            + ", ty: "@ + shown_type_id(ty) + " }"@,
        Const::ErrVal { tag, ty } => "ErrVal { tag: "@ + shown_id("ErrTag"@, tag.0 as u32)
            + ", ty: "@ + shown_type_id(ty) + " }"@,
        Const::Undef { ty } => "Undef { ty: "@ + shown_type_id(ty) + " }"@,
        Const::Str(id) => "Str("@ + shown_id("ConstId"@, id.0) + ")"@,
        Const::EmptySlice { ty } => "EmptySlice { ty: "@ + shown_type_id(ty) + " }"@,
        Const::Aggregate { id, ty } => "Aggregate { id: "@ + shown_id("ConstId"@, id.0) + ", ty: "@
            + shown_type_id(ty) + " }"@,
    }
}

/// The width of an integer type.
pub open spec fn shown_bits(b: IntBits) -> Seq<char> {
    match b {
        IntBits::Fixed(n) => shown_id("Fixed"@, n as u32),
        IntBits::Usize => "Usize"@,
        IntBits::Isize => "Isize"@,
    }
}

/// The length of an array type.
pub open spec fn shown_len(l: ArrayLen) -> Seq<char> {
    match l {
        ArrayLen::Known(n) => "Known("@ + decimal(n as nat) + ")"@,
        ArrayLen::Inferred => "Inferred"@,
    }
}

/// A type.
pub open spec fn shown_type(t: Type) -> Seq<char> {
    match t {
        Type::Int { signed, bits } => "Int { signed: "@ + shown_bool(signed) + ", bits: "@
            + shown_bits(bits) + " }"@,
        Type::Float { width } => "Float { width: "@ + decimal(width as nat) + " }"@,
        Type::Bool => "Bool"@,
        Type::Void => "Void"@,
        Type::NoReturn => "NoReturn"@,
        Type::Pointer { pointee } => "Pointer { pointee: "@ + shown_type_id(pointee) + " }"@,
        Type::Opaque(n) => shown_id("Opaque"@, n),
        Type::AnyOpaque => "AnyOpaque"@,
        Type::Slice { elem } => "Slice { elem: "@ + shown_type_id(elem) + " }"@,
        Type::Optional(inner) => "Optional("@ + shown_type_id(inner) + ")"@,
        Type::ErrorUnion { ok } => "ErrorUnion { ok: "@ + shown_type_id(ok) + " }"@,
        Type::ErrorSet(n) => shown_id("ErrorSet"@, n),
        Type::AnyError => "AnyError"@,
        Type::Array { len, elem } => "Array { len: "@ + shown_len(len) + ", elem: "@
            + shown_type_id(elem) + " }"@,
        Type::Vector { lanes, elem } => "Vector { lanes: "@ + decimal(lanes as nat) + ", elem: "@
            + shown_type_id(elem) + " }"@,
        Type::Struct(id) => "Struct("@ + shown_id("StructId"@, id.0) + ")"@,
        Type::Enum(id) => "Enum("@ + shown_id("EnumId"@, id.0) + ")"@,
        Type::Union(id) => "Union("@ + shown_id("UnionId"@, id.0) + ")"@,
        Type::ComptimeInt => "ComptimeInt"@,
        Type::ComptimeFloat => "ComptimeFloat"@,
        Type::Deferred => "Deferred"@,
        Type::AnyType => "AnyType"@,
    }
}

fn bool_text(b: bool) -> (r: &'static str)
    ensures
        r@ == shown_bool(b),
{
    if b {
        "true"
    } else {
        "false"
    }
}

fn id_text(name: &str, n: u32) -> (r: String)
    ensures
        r@ == shown_id(name@, n),
{
    let mut s = String::from_str(name);
    s.append("(");
    push_decimal(&mut s, n);
    s.append(")");
    s
}

fn type_id_text(ty: TypeId) -> (r: String)
    ensures
        r@ == shown_type_id(ty),
{
    id_text("TypeId", ty.0)
}

fn number_text(n: u128) -> (r: String)
    ensures
        r@ == decimal(n as nat),
{
    let mut s = String::from_str("");
    proof {
        reveal_strlit("");
    }
    push_number(&mut s, n);
    assert(s@ =~= decimal(n as nat));
    s
}

fn signed_text(v: i128) -> (r: String)
    ensures
        r@ == signed_decimal(v as int),
{
    if v < 0 {
        let mut s = String::from_str("-");
        let below: i128 = -(v + 1);
        push_number(&mut s, below as u128 + 1);
        s
    } else {
        number_text(v as u128)
    }
}

fn one_part(a: &str, b: &str, c: &str) -> (r: String)
    ensures
        r@ == a@ + b@ + c@,
{
    let mut s = String::from_str(a);
    s.append(b);
    s.append(c);
    s
}

fn two_parts(a: &str, b: &str, c: &str, d: &str) -> (r: String)
    ensures
        r@ == a@ + b@ + c@ + d@ + " }"@,
{
    let mut s = String::from_str(a);
    s.append(b);
    s.append(c);
    s.append(d);
    s.append(" }");
    s
}

/// A constant as text: its kind and what it holds.
pub fn const_text(c: Const) -> (r: String)
    ensures
        r@ == shown_const(c),
{
    match c {
        Const::Int { value, ty } => two_parts(
            "Int { value: ",
            signed_text(value).as_str(),
            ", ty: ",
            type_id_text(ty).as_str(),
        ),
        Const::Bool(b) => one_part("Bool(", bool_text(b), ")"),
        Const::Void => String::from_str("Void"),
        Const::Float { bits, ty } => two_parts(
            "Float { bits: ",
            number_text(bits as u128).as_str(),
            ", ty: ",
            type_id_text(ty).as_str(),
        ),
        Const::EnumVal { variant, ty } => two_parts(
            "EnumVal { variant: ",
            number_text(variant as u128).as_str(),
            ", ty: ",
            type_id_text(ty).as_str(),
        ),
        Const::ErrVal { tag, ty } => two_parts(
            "ErrVal { tag: ",
            id_text("ErrTag", tag.0 as u32).as_str(),
            ", ty: ",
            type_id_text(ty).as_str(),
        ),
        Const::Undef { ty } => one_part("Undef { ty: ", type_id_text(ty).as_str(), " }"),
        Const::Str(id) => one_part("Str(", id_text("ConstId", id.0).as_str(), ")"),
        Const::EmptySlice { ty } => one_part("EmptySlice { ty: ", type_id_text(ty).as_str(), " }"),
        Const::Aggregate { id, ty } => two_parts(
            "Aggregate { id: ",
            id_text("ConstId", id.0).as_str(),
            ", ty: ",
            type_id_text(ty).as_str(),
        ),
    }
}

fn bits_text(b: IntBits) -> (r: String)
    ensures
        r@ == shown_bits(b),
{
    match b {
        IntBits::Fixed(n) => id_text("Fixed", n as u32),
        IntBits::Usize => String::from_str("Usize"),
        IntBits::Isize => String::from_str("Isize"),
    }
}

fn len_text(l: ArrayLen) -> (r: String)
    ensures
        r@ == shown_len(l),
{
    match l {
        ArrayLen::Known(n) => one_part("Known(", number_text(n as u128).as_str(), ")"),
        ArrayLen::Inferred => String::from_str("Inferred"),
    }
}

/// A type as text: its kind and what it is made of.
pub fn type_text(t: Type) -> (r: String)
    ensures
        r@ == shown_type(t),
{
    match t {
        Type::Int { signed, bits } => two_parts(
            "Int { signed: ",
            bool_text(signed),
            ", bits: ",
            bits_text(bits).as_str(),
        ),
        Type::Float { width } => one_part(
            "Float { width: ",
            number_text(width as u128).as_str(),
            " }",
        ),
        Type::Bool => String::from_str("Bool"),
        Type::Void => String::from_str("Void"),
        Type::NoReturn => String::from_str("NoReturn"),
        Type::Pointer { pointee } => one_part(
            "Pointer { pointee: ",
            type_id_text(pointee).as_str(),
            " }",
        ),
        Type::Opaque(n) => id_text("Opaque", n),
        Type::AnyOpaque => String::from_str("AnyOpaque"),
        Type::Slice { elem } => one_part("Slice { elem: ", type_id_text(elem).as_str(), " }"),
        Type::Optional(inner) => one_part("Optional(", type_id_text(inner).as_str(), ")"),
        Type::ErrorUnion { ok } => one_part("ErrorUnion { ok: ", type_id_text(ok).as_str(), " }"),
        Type::ErrorSet(n) => id_text("ErrorSet", n),
        Type::AnyError => String::from_str("AnyError"),
        Type::Array { len, elem } => two_parts(
            "Array { len: ",
            len_text(len).as_str(),
            ", elem: ",
            type_id_text(elem).as_str(),
        ),
        Type::Vector { lanes, elem } => two_parts(
            "Vector { lanes: ",
            number_text(lanes as u128).as_str(),
            ", elem: ",
            type_id_text(elem).as_str(),
        ),
        Type::Struct(id) => one_part("Struct(", id_text("StructId", id.0).as_str(), ")"),
        Type::Enum(id) => one_part("Enum(", id_text("EnumId", id.0).as_str(), ")"),
        Type::Union(id) => one_part("Union(", id_text("UnionId", id.0).as_str(), ")"),
        Type::ComptimeInt => String::from_str("ComptimeInt"),
        Type::ComptimeFloat => String::from_str("ComptimeFloat"),
        Type::Deferred => String::from_str("Deferred"),
        Type::AnyType => String::from_str("AnyType"),
    }
}

} // verus!
