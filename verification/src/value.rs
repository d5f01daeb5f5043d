//! The typed host data model and the requested shapes that drive decoding.
//!
//! A [`Value`] is any value of the host shape taxonomy: primitives,
//! sequences, tuples, structs, enum variants and optionals.  Maps, byte
//! strings and single characters are recognized shapes that the codec
//! deliberately does not carry; touching one yields a typed error, never an
//! abort.  A [`Shape`] is the target description a caller hands the decoder.
//!
//! Floating-point host values are outside this model: the only numbers it
//! carries are the integer-valued doubles of the number model
//! ([`Value::Number`]).

use vstd::prelude::*;

verus! {

broadcast use vstd::std_specs::vec::group_vec_axioms;

/// A typed host value.
#[derive(Debug)]
pub enum Value {
    /// The unit value; also what a unit struct carries.
    Unit,
    Bool(bool),
    I8(i8),
    I16(i16),
    I32(i32),
    I64(i64),
    U8(u8),
    U16(u16),
    U32(u32),
    U64(u64),
    /// An engine number: the exact integer value of a double.
    Number(i128),
    Str(String),
    /// An optional value; a newtype struct is carried as its inner value.
    Optional(Option<Box<Value>>),
    Sequence(Vec<Value>),
    Tuple(Vec<Value>),
    /// A struct as its field list, in declaration order.
    Struct(Vec<(String, Value)>),
    /// An enum value: the variant's name and its payload.
    Enum(String, Payload),
    /// A key-value map: recognized, deliberately unsupported.
    Mapping(Vec<(Value, Value)>),
    /// A raw byte string: recognized, deliberately unsupported.
    Bytes(Vec<u8>),
    /// A single character: recognized, deliberately unsupported.
    Char(char),
}

/// The payload of an enum variant.
#[derive(Debug)]
pub enum Payload {
    /// A unit variant.
    Unit,
    /// A newtype variant: one unnamed payload.
    Newtype(Box<Value>),
    /// A tuple variant: several unnamed payloads.
    Tuple(Vec<Value>),
    /// A struct variant: named payload fields.
    Struct(Vec<(String, Value)>),
}

/// A requested target shape for decoding.
#[derive(Debug)]
pub enum Shape {
    /// Self-describing: dispatch on the node's own runtime kind.
    Any,
    Unit,
    Bool,
    I8,
    I16,
    I32,
    I64,
    U8,
    U16,
    U32,
    U64,
    /// An engine number, taken as the integer value of its double.
    Number,
    Str,
    Optional(Box<Shape>),
    Sequence(Box<Shape>),
    /// A fixed arity of element shapes; the requested arity drives decoding.
    Tuple(Vec<Shape>),
    /// The target field list; node fields outside it are ignored.
    Struct(Vec<(String, Shape)>),
    /// The variants an enum node may name.
    Enum(Vec<(String, VariantForm)>),
    /// A key-value map shape: recognized, deliberately unsupported.
    Mapping(Box<Shape>, Box<Shape>),
    /// A raw byte string shape: recognized, deliberately unsupported.
    Bytes,
    /// A single character shape: recognized, deliberately unsupported.
    Char,
}

/// The payload shape of one enum variant.
#[derive(Debug)]
pub enum VariantForm {
    Unit,
    Newtype(Box<Shape>),
    Tuple(Vec<Shape>),
    Struct(Vec<(String, Shape)>),
}

/// The kind of a shape, as errors report it.
#[derive(Debug, Clone, Copy, PartialEq, Eq, Structural)]
pub enum ShapeKind {
    Any,
    Unit,
    Bool,
    Integer,
    Number,
    Str,
    Optional,
    Sequence,
    Tuple,
    Struct,
    Enum,
    Mapping,
    Bytes,
    Char,
}

/// A codec failure.  Every failure is a value of this type: no data shape
/// makes the codec abort.
#[derive(Debug, Clone, Copy, PartialEq, Eq, Structural)]
pub enum Error {
    /// A boolean was requested of a node that is not a Boolean.
    ExpectedBoolean,
    /// A string was requested of a node that is not a String.
    ExpectedString,
    /// A unit was requested of a node that is not Null.
    ExpectedNull,
    /// An integer or number was requested of a node that is not a Number.
    ExpectedNumber,
    /// A sequence or tuple was requested of a node that is not an Array.
    ExpectedArray,
    /// A struct was requested of a node that is not an Object.
    ExpectedObject,
    /// A node does not fit the requested shape in any other way, such as an
    /// enum node that does not follow the variant-tagging convention.
    TypeMismatch(ShapeKind, crate::scope::NodeKind),
    /// The value or shape is one the codec deliberately does not carry.
    Unsupported(ShapeKind),
}

/// The kind of the first unsupported shape inside a value, in traversal
/// order, or nothing if the value is fully supported.
pub open spec fn unsup_of(v: Value) -> Option<ShapeKind>
    decreases v, 1int, 0int,
{
    match v {
        Value::Mapping(_) => Some(ShapeKind::Mapping),
        Value::Bytes(_) => Some(ShapeKind::Bytes),
        Value::Char(_) => Some(ShapeKind::Char),
        Value::Optional(Some(b)) => unsup_of(*b),
        Value::Sequence(vs) => unsup_of_list(vs, 0),
        Value::Tuple(vs) => unsup_of_list(vs, 0),
        Value::Struct(fs) => unsup_of_fields(fs, 0),
        Value::Enum(_, p) => unsup_of_payload(p),
        _ => None,
    }
}

/// The first unsupported shape among the elements of `vs` from `i` on.
pub open spec fn unsup_of_list(vs: Vec<Value>, i: int) -> Option<ShapeKind>
    decreases vs, 0int, vs@.len() - i,
{
    if i < 0 || i >= vs@.len() {
        None
    } else if unsup_of(vs@[i]) is Some {
        unsup_of(vs@[i])
    } else {
        unsup_of_list(vs, i + 1)
    }
}

/// The first unsupported shape among the field values of `fs` from `i` on.
pub open spec fn unsup_of_fields(fs: Vec<(String, Value)>, i: int) -> Option<ShapeKind>
    decreases fs, 0int, fs@.len() - i,
{
    if i < 0 || i >= fs@.len() {
        None
    } else if unsup_of(fs@[i].1) is Some {
        unsup_of(fs@[i].1)
    } else {
        unsup_of_fields(fs, i + 1)
    }
}

/// The first unsupported shape inside an enum payload.
pub open spec fn unsup_of_payload(p: Payload) -> Option<ShapeKind>
    decreases p, 1int, 0int,
{
    match p {
        Payload::Unit => None,
        Payload::Newtype(b) => unsup_of(*b),
        Payload::Tuple(vs) => unsup_of_list(vs, 0),
        Payload::Struct(fs) => unsup_of_fields(fs, 0),
    }
}

/// A value the encoder carries in full: nothing in it is an unsupported
/// shape.
pub open spec fn supported(v: Value) -> bool {
    unsup_of(v) is None
}

} // verus!
