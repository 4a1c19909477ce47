//! Types of the source language.
use vstd::prelude::*;
use crate::util::text::{copy_string, push_str, str_debug, str_debug_text, string_of};

verus! {

/// The storage class of a type's values.
#[derive(Debug, Clone, Copy, PartialEq, Eq, Structural)]
pub enum TypeSize {
    Void,
    Byte,
    HalfWord,
    Word,
    DoubleWord,
}

/// A type of the source language.
#[derive(Debug, PartialEq)]
pub enum Type {
    Void,
    Bool,
    Int8,
    Int16,
    Int32,
    Pointer(Box<Type>),
    Struct(String),
}

/// The storage class of a type: pointers and structs are word-sized, as
/// addresses on the target are.
pub open spec fn spec_type_size(t: Type) -> TypeSize {
    match t {
        Type::Void => TypeSize::Void,
        Type::Bool => TypeSize::Byte,
        Type::Int8 => TypeSize::Byte,
        Type::Int16 => TypeSize::HalfWord,
        Type::Int32 => TypeSize::Word,
        Type::Pointer(_) => TypeSize::Word,
        Type::Struct(_) => TypeSize::Word,
    }
}

/// Two types are the same: same shape, and struct names with the same text.
pub open spec fn same_type(a: Type, b: Type) -> bool
    decreases a,
{
    match (a, b) {
        (Type::Void, Type::Void) => true,
        (Type::Bool, Type::Bool) => true,
        (Type::Int8, Type::Int8) => true,
        (Type::Int16, Type::Int16) => true,
        (Type::Int32, Type::Int32) => true,
        (Type::Pointer(x), Type::Pointer(y)) => same_type(*x, *y),
        (Type::Struct(x), Type::Struct(y)) => x@ == y@,
        _ => false,
    }
}

impl Type {
    /// The storage class of this type.
    pub fn size(&self) -> (r: TypeSize)
        ensures
            r == spec_type_size(*self),
    {
        match self {
            Type::Void => TypeSize::Void,
            Type::Bool => TypeSize::Byte,
            Type::Int8 => TypeSize::Byte,
            Type::Int16 => TypeSize::HalfWord,
            Type::Int32 => TypeSize::Word,
            Type::Pointer(_) => TypeSize::Word,
            Type::Struct(_) => TypeSize::Word,
        }
    }

    /// The type of pointers to this type.
    pub fn pointer_to(self) -> (r: Type)
        ensures
            r == Type::Pointer(Box::new(self)),
    {
        Type::Pointer(Box::new(self))
    }

    /// The pointee of a pointer type; `None` for any other type.
    pub fn deref(&self) -> (r: Option<&Type>)
        ensures
            self is Pointer ==> r == Some(&*self->Pointer_0),
            !(self is Pointer) ==> r is None,
    {
        match self {
            Type::Pointer(inner) => Some(&**inner),
            _ => None,
        }
    }
}

/// A copy of a type.
pub fn copy_type(t: &Type) -> (r: Type)
    ensures
        r == *t,
    decreases t,
{
    match t {
        Type::Void => Type::Void,
        Type::Bool => Type::Bool,
        Type::Int8 => Type::Int8,
        Type::Int16 => Type::Int16,
        Type::Int32 => Type::Int32,
        Type::Pointer(inner) => Type::Pointer(Box::new(copy_type(inner))),
        Type::Struct(name) => Type::Struct(copy_string(name)),
    }
}

impl Clone for Type {
    fn clone(&self) -> (r: Type)
        ensures
            r == *self,
    {
        copy_type(self)
    }
}

/// Whether two types are the same (see `same_type`).
pub fn type_eq(a: &Type, b: &Type) -> (r: bool)
    ensures
        r == same_type(*a, *b),
    decreases a,
{
    match (a, b) {
        (Type::Void, Type::Void) => true,
        (Type::Bool, Type::Bool) => true,
        (Type::Int8, Type::Int8) => true,
        (Type::Int16, Type::Int16) => true,
        (Type::Int32, Type::Int32) => true,
        (Type::Pointer(x), Type::Pointer(y)) => type_eq(x, y),
        (Type::Struct(x), Type::Struct(y)) => x.eq(y),
        _ => false,
    }
}

/// `same_type` is an equivalence: reflexive.
pub proof fn lemma_same_type_reflexive(a: Type)
    ensures
        same_type(a, a),
    decreases a,
{
    if let Type::Pointer(x) = a {
        lemma_same_type_reflexive(*x);
    }
}

/// `same_type` is an equivalence: symmetric.
pub proof fn lemma_same_type_symmetric(a: Type, b: Type)
    ensures
        same_type(a, b) == same_type(b, a),
    decreases a,
{
    if let (Type::Pointer(x), Type::Pointer(y)) = (a, b) {
        lemma_same_type_symmetric(*x, *y);
    }
}


/// The text `{:?}` gives for a type: the variant's name, a pointer's
/// pointee in parentheses, a struct's name quoted in parentheses.
pub open spec fn type_debug(t: Type) -> Seq<char>
    decreases t,
{
    match t {
        Type::Void => "Void"@,
        Type::Bool => "Bool"@,
        Type::Int8 => "Int8"@,
        Type::Int16 => "Int16"@,
        Type::Int32 => "Int32"@,
        Type::Pointer(inner) => "Pointer("@ + type_debug(*inner) + ")"@,
        Type::Struct(name) => "Struct("@ + str_debug(name@) + ")"@,
    }
}

impl Type {
    /// The text `{:?}` gives for this type (see `type_debug`).
    pub fn debug_text(&self) -> (r: String)
        ensures
            r@ == type_debug(*self),
        decreases self,
    {
        match self {
            Type::Void => string_of("Void"),
            Type::Bool => string_of("Bool"),
            Type::Int8 => string_of("Int8"),
            Type::Int16 => string_of("Int16"),
            Type::Int32 => string_of("Int32"),
            Type::Pointer(inner) => {
                let mut r = string_of("Pointer(");
                let d = inner.debug_text();
                push_str(&mut r, d.as_str());
                push_str(&mut r, ")");
                r
            },
            Type::Struct(name) => {
                let mut r = string_of("Struct(");
                let d = str_debug_text(name);
                push_str(&mut r, d.as_str());
                push_str(&mut r, ")");
                r
            },
        }
    }
}

} // verus!
