//! Type definitions for the Ferro type system.

use vstd::prelude::*;
use crate::text::{chars_eq, chars_of, nat_text, push_str, push_string, push_usize};

verus! {

/// The types of Ferro values.
#[derive(Debug, PartialEq, Eq)]
pub enum Type {
    I64,
    Bool,
    Str,
    Void,
    /// A fixed-size array: element type and length.
    Array(Box<Type>, usize),
    /// A user-defined enum, by name.
    Enum(String),
    /// A user-defined struct, by name.
    Struct(String),
}

/// The built-in type a name denotes.
pub open spec fn type_named(name: Seq<char>) -> Option<Type> {
    if name == seq!['i', '6', '4'] {
        Some(Type::I64)
    } else if name == seq!['b', 'o', 'o', 'l'] {
        Some(Type::Bool)
    } else if name == seq!['s', 't', 'r'] {
        Some(Type::Str)
    } else {
        None
    }
}

/// Two types are the same type (names compared by their characters).
pub open spec fn same_type(a: Type, b: Type) -> bool
    decreases a,
{
    match (a, b) {
        (Type::I64, Type::I64) => true,
        (Type::Bool, Type::Bool) => true,
        (Type::Str, Type::Str) => true,
        (Type::Void, Type::Void) => true,
        (Type::Array(x, n), Type::Array(y, m)) => n == m && same_type(*x, *y),
        (Type::Enum(s), Type::Enum(t)) => s@ == t@,
        (Type::Struct(s), Type::Struct(t)) => s@ == t@,
        _ => false,
    }
}

/// How a type is written in messages.
pub open spec fn type_text(t: Type) -> Seq<char>
    decreases t,
{
    match t {
        Type::I64 => "i64"@,
        Type::Bool => "bool"@,
        Type::Str => "str"@,
        Type::Void => "void"@,
        Type::Array(e, n) => "["@ + type_text(*e) + "; "@ + nat_text(n as nat) + "]"@,
        Type::Enum(s) => s@,
        Type::Struct(s) => s@,
    }
}

impl Type {
    /// Parse a type name into a built-in type.
    pub fn from_name(name: &str) -> (r: Option<Type>)
        ensures
            r == type_named(name@),
    {
        let w = chars_of(name);
        if chars_eq(w.as_slice(), &['i', '6', '4']) {
            Some(Type::I64)
        } else if chars_eq(w.as_slice(), &['b', 'o', 'o', 'l']) {
            Some(Type::Bool)
        } else if chars_eq(w.as_slice(), &['s', 't', 'r']) {
            Some(Type::Str)
        } else {
            None
        }
    }

    /// Whether two types are the same type.
    pub fn same(&self, other: &Type) -> (r: bool)
        ensures
            r == same_type(*self, *other),
        decreases self,
    {
        match (self, other) {
            (Type::I64, Type::I64) => true,
            (Type::Bool, Type::Bool) => true,
            (Type::Str, Type::Str) => true,
            (Type::Void, Type::Void) => true,
            (Type::Array(x, n), Type::Array(y, m)) => *n == *m && x.same(y),
            (Type::Enum(s), Type::Enum(t)) => *s == *t,
            (Type::Struct(s), Type::Struct(t)) => *s == *t,
            _ => false,
        }
    }

    /// An equal copy of a type.
    pub fn copy(&self) -> (r: Type)
        ensures
            r == *self,
        decreases self,
    {
        match self {
            Type::I64 => Type::I64,
            Type::Bool => Type::Bool,
            Type::Str => Type::Str,
            Type::Void => Type::Void,
            Type::Array(e, n) => Type::Array(Box::new(e.copy()), *n),
            Type::Enum(s) => Type::Enum(s.clone()),
            Type::Struct(s) => Type::Struct(s.clone()),
        }
    }

    /// How a type is written in messages (`i64`, `[bool; 3]`, `Color`).
    pub fn to_text(&self) -> (r: String)
        ensures
            r@ == type_text(*self),
    {
        let mut out = String::new();
        push_type(&mut out, self);
        out
    }
}

/// Appends how a type is written.
pub fn push_type(out: &mut String, t: &Type)
    ensures
        final(out)@ == old(out)@ + type_text(*t),
    decreases t,
{
    match t {
        Type::I64 => push_str(out, "i64"),
        Type::Bool => push_str(out, "bool"),
        Type::Str => push_str(out, "str"),
        Type::Void => push_str(out, "void"),
        Type::Array(e, n) => {
            push_str(out, "[");
            push_type(out, e);
            push_str(out, "; ");
            push_usize(out, *n);
            push_str(out, "]");
            assert(out@ =~= old(out)@ + type_text(*t));
        },
        Type::Enum(s) => push_string(out, s),
        Type::Struct(s) => push_string(out, s),
    }
}

} // verus!
