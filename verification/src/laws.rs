//! The laws the codec obeys, stated over the encoder's and decoder's spec
//! functions and proved once and for all.
//!
//! Each round-trip law reads: whenever a node is the encoding of a value of
//! the given kind ([`encodes`]), decoding it against that kind's shape
//! succeeds ([`dec_res`]), and any value the decoding yields ([`decodes`]) is
//! the original value back.

use vstd::prelude::*;
use crate::de::{dec_res, decodes, find_variant, sat_cast};
use crate::number::{lemma_nearest_double_exact, nearest_double, EXACT_BOUND};
use crate::scope::NodeData;
use crate::ser::encodes;
use crate::value::{Payload, Shape, ShapeKind, Value, VariantForm, Error};

verus! {

/// Round trip for booleans: every boolean decodes back to itself.
pub proof fn lemma_round_trip_bool(a: Seq<NodeData>, h: int, x: bool, w: Value)
    requires
        encodes(a, h, Value::Bool(x)),
        decodes(a, h, Shape::Bool, w),
    ensures
        w == Value::Bool(x),
        dec_res(a, h, Shape::Bool) is Ok,
{
}

/// Round trip for strings: the decoded string holds the original characters.
pub proof fn lemma_round_trip_str(a: Seq<NodeData>, h: int, s: String, w: Value)
    requires
        encodes(a, h, Value::Str(s)),
        decodes(a, h, Shape::Str, w),
    ensures
        w matches Value::Str(t) && t@ == s@,
        dec_res(a, h, Shape::Str) is Ok,
{
}

/// Round trip for every integer narrower than 32 bits and for the 32-bit
/// widths themselves: such integers are always exact in a double.
pub proof fn lemma_round_trip_i8(a: Seq<NodeData>, h: int, x: i8, w: Value)
    requires
        encodes(a, h, Value::I8(x)),
        decodes(a, h, Shape::I8, w),
    ensures
        w == Value::I8(x),
        dec_res(a, h, Shape::I8) is Ok,
{
}

pub proof fn lemma_round_trip_i16(a: Seq<NodeData>, h: int, x: i16, w: Value)
    requires
        encodes(a, h, Value::I16(x)),
        decodes(a, h, Shape::I16, w),
    ensures
        w == Value::I16(x),
        dec_res(a, h, Shape::I16) is Ok,
{
}

pub proof fn lemma_round_trip_i32(a: Seq<NodeData>, h: int, x: i32, w: Value)
    requires
        encodes(a, h, Value::I32(x)),
        decodes(a, h, Shape::I32, w),
    ensures
        w == Value::I32(x),
        dec_res(a, h, Shape::I32) is Ok,
{
}

pub proof fn lemma_round_trip_u8(a: Seq<NodeData>, h: int, x: u8, w: Value)
    requires
        encodes(a, h, Value::U8(x)),
        decodes(a, h, Shape::U8, w),
    ensures
        w == Value::U8(x),
        dec_res(a, h, Shape::U8) is Ok,
{
}

pub proof fn lemma_round_trip_u16(a: Seq<NodeData>, h: int, x: u16, w: Value)
    requires
        encodes(a, h, Value::U16(x)),
        decodes(a, h, Shape::U16, w),
    ensures
        w == Value::U16(x),
        dec_res(a, h, Shape::U16) is Ok,
{
}

pub proof fn lemma_round_trip_u32(a: Seq<NodeData>, h: int, x: u32, w: Value)
    requires
        encodes(a, h, Value::U32(x)),
        decodes(a, h, Shape::U32, w),
    ensures
        w == Value::U32(x),
        dec_res(a, h, Shape::U32) is Ok,
{
}

/// Round trip for 64-bit signed integers within the exact double range: up
/// to magnitude 2^53 the rounding of the number model is the identity, so
/// the decoded integer is the original.
pub proof fn lemma_round_trip_i64(a: Seq<NodeData>, h: int, x: i64, w: Value)
    requires
        -(EXACT_BOUND as int) <= x as int <= EXACT_BOUND as int,
        encodes(a, h, Value::I64(x)),
        decodes(a, h, Shape::I64, w),
    ensures
        w == Value::I64(x),
        dec_res(a, h, Shape::I64) is Ok,
{
    lemma_nearest_double_exact(x as int);
    assert(sat_cast(x as int, i64::MIN as int, i64::MAX as int) == x as int);
}

/// Round trip for 64-bit unsigned integers up to 2^53, as for the signed
/// width.
pub proof fn lemma_round_trip_u64(a: Seq<NodeData>, h: int, x: u64, w: Value)
    requires
        x <= EXACT_BOUND,
        encodes(a, h, Value::U64(x)),
        decodes(a, h, Shape::U64, w),
    ensures
        w == Value::U64(x),
        dec_res(a, h, Shape::U64) is Ok,
{
    lemma_nearest_double_exact(x as int);
    assert(sat_cast(x as int, 0, u64::MAX as int) == x as int);
}

/// Encoding a key-value map fails as unsupported: the map itself is the
/// first unsupported shape the encoder meets.
pub proof fn lemma_map_encode_unsupported(m: Vec<(Value, Value)>)
    ensures
        crate::value::unsup_of(Value::Mapping(m)) == Some(ShapeKind::Mapping),
{
}

/// Decoding against a key-value map shape fails as unsupported on every
/// node.
pub proof fn lemma_map_decode_unsupported(a: Seq<NodeData>, h: int, k: Shape, v: Shape)
    requires
        0 <= h < a.len(),
    ensures
        dec_res(a, h, Shape::Mapping(Box::new(k), Box::new(v))) == Err::<(), Error>(
            Error::Unsupported(ShapeKind::Mapping),
        ),
{
}

/// Round trip for unit enum variants: a variant encoded as its bare name
/// decodes back to that variant whenever the target shape knows the name as
/// a unit variant.
pub proof fn lemma_round_trip_unit_variant(
    a: Seq<NodeData>,
    h: int,
    name: String,
    vars: Vec<(String, VariantForm)>,
    w: Value,
)
    requires
        encodes(a, h, Value::Enum(name, Payload::Unit)),
        find_variant(vars, name@, 0) matches Some(j) && vars@[j].1 is Unit,
        decodes(a, h, Shape::Enum(vars), w),
    ensures
        w matches Value::Enum(nm, pl) && nm@ == name@ && pl is Unit,
        dec_res(a, h, Shape::Enum(vars)) is Ok,
{
    assert(crate::ser::encodes_variant(a, h, name, Payload::Unit));
    let t = a[h]->Text_0;
    assert(t@ == name@);
    assert(find_variant(vars, t@, 0) == find_variant(vars, name@, 0));
}

} // verus!
