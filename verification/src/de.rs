//! The decoder: a dynamic node read back against a requested shape.
//!
//! Decoding dispatches on the node's runtime kind when the requested shape is
//! `Any`, and otherwise asserts that the node matches the requested shape,
//! failing with a typed error on any mismatch.  Structs are driven by the
//! target shape's field list: node fields outside it are ignored, and an
//! absent field reads the engine's missing-value sentinel, which decodes to
//! `None` for an optional field and to a typed error for anything else.
//! Tuples are driven by the requested arity the same way.  Enum nodes invert
//! the encoder's tagging convention exactly.
//!
//! The spec here is two-layered: [`dec_res`] says on which nodes a shape
//! decodes at all, and with which error it fails; [`decodes`] says which
//! typed value a successful decoding yields.

use vstd::prelude::*;
use crate::scope::{obj_lookup, NodeData, NodeKind, Scope};
use crate::ser::arena_extends;
use crate::value::{Error, Payload, Shape, ShapeKind, Value, VariantForm};

verus! {

broadcast use vstd::std_specs::vec::group_vec_axioms;

/// The saturating conversion a number node goes through when an integer
/// width is requested.
pub open spec fn sat_cast(n: int, lo: int, hi: int) -> int {
    if n < lo {
        lo
    } else if n > hi {
        hi
    } else {
        n
    }
}

/// What decoding the missing-value sentinel against a shape yields: `None`
/// for an optional, unit for a self-describing request, a typed error for
/// everything else.
pub open spec fn missing_res(s: Shape) -> Result<(), Error> {
    match s {
        Shape::Any => Ok(()),
        Shape::Optional(_) => Ok(()),
        Shape::Unit => Err(Error::ExpectedNull),
        Shape::Bool => Err(Error::ExpectedBoolean),
        Shape::Str => Err(Error::ExpectedString),
        Shape::Sequence(_) => Err(Error::ExpectedArray),
        Shape::Tuple(_) => Err(Error::ExpectedArray),
        Shape::Struct(_) => Err(Error::ExpectedObject),
        Shape::Enum(_) => Err(Error::TypeMismatch(ShapeKind::Enum, NodeKind::Undefined)),
        Shape::Mapping(_, _) => Err(Error::Unsupported(ShapeKind::Mapping)),
        Shape::Bytes => Err(Error::Unsupported(ShapeKind::Bytes)),
        Shape::Char => Err(Error::Unsupported(ShapeKind::Char)),
        _ => Err(Error::ExpectedNumber),
    }
}

/// The value a successful sentinel decoding yields.
pub open spec fn missing_match(s: Shape, v: Value) -> bool {
    match s {
        Shape::Any => v is Unit,
        Shape::Optional(_) => v matches Value::Optional(o) && o is None,
        _ => false,
    }
}

/// The first variant of `vars`, from position `i` on, named `name`.
pub open spec fn find_variant(
    vars: Vec<(String, VariantForm)>,
    name: Seq<char>,
    i: int,
) -> Option<int>
    decreases vars@.len() - i,
{
    if i < 0 || i >= vars@.len() {
        None
    } else if vars@[i].0@ == name {
        Some(i)
    } else {
        find_variant(vars, name, i + 1)
    }
}

/// Whether node `h` of arena `a` decodes against shape `s`, and the error
/// when it does not.  Decoding never reads a handle at or above its parent,
/// so a malformed handle fails here rather than recursing.
pub open spec fn dec_res(a: Seq<NodeData>, h: int, s: Shape) -> Result<(), Error>
    decreases h, 1int, s, 0int,
{
    if !(0 <= h < a.len()) {
        Err(Error::TypeMismatch(ShapeKind::Any, NodeKind::Undefined))
    } else {
        match s {
            Shape::Any => match a[h] {
                NodeData::Array(hs) => dec_res_list(a, h, hs@, Shape::Any, 0),
                NodeData::Object(ps) => dec_res_obj_any(a, h, ps@, 0),
                _ => Ok(()),
            },
            Shape::Unit => if a[h] is Null {
                Ok(())
            } else {
                Err(Error::ExpectedNull)
            },
            Shape::Bool => if a[h] is Boolean {
                Ok(())
            } else {
                Err(Error::ExpectedBoolean)
            },
            Shape::Str => if a[h] is Text {
                Ok(())
            } else {
                Err(Error::ExpectedString)
            },
            Shape::Optional(inner) => if a[h] is Null {
                Ok(())
            } else {
                dec_res(a, h, *inner)
            },
            Shape::Sequence(es) => match a[h] {
                NodeData::Array(hs) => dec_res_list(a, h, hs@, *es, 0),
                _ => Err(Error::ExpectedArray),
            },
            Shape::Tuple(ss) => match a[h] {
                NodeData::Array(hs) => dec_res_tuple(a, h, hs@, ss, 0),
                _ => Err(Error::ExpectedArray),
            },
            Shape::Struct(fs) => match a[h] {
                NodeData::Object(ps) => dec_res_struct(a, h, ps@, fs, 0),
                _ => Err(Error::ExpectedObject),
            },
            Shape::Enum(vars) => match a[h] {
                NodeData::Text(t) => match find_variant(vars, t@, 0) {
                    Option::Some(j) => if vars@[j].1 is Unit {
                        Ok(())
                    } else {
                        Err(Error::TypeMismatch(ShapeKind::Enum, NodeKind::Text))
                    },
                    Option::None => Err(Error::TypeMismatch(ShapeKind::Enum, NodeKind::Text)),
                },
                NodeData::Object(ps) => if ps@.len() != 1 {
                    Err(Error::TypeMismatch(ShapeKind::Enum, NodeKind::Object))
                } else {
                    match find_variant(vars, ps@[0].0@, 0) {
                        Option::None => Err(
                            Error::TypeMismatch(ShapeKind::Enum, NodeKind::Object),
                        ),
                        Option::Some(j) => dec_res_vform(a, h, ps@[0].1 as int, vars@[j].1),
                    }
                },
                _ => Err(Error::TypeMismatch(ShapeKind::Enum, a[h].kind())),
            },
            Shape::Mapping(_, _) => Err(Error::Unsupported(ShapeKind::Mapping)),
            Shape::Bytes => Err(Error::Unsupported(ShapeKind::Bytes)),
            Shape::Char => Err(Error::Unsupported(ShapeKind::Char)),
            _ => if a[h] is Number {
                Ok(())
            } else {
                Err(Error::ExpectedNumber)
            },
        }
    }
}

/// Whether every element handle of `hs`, from `i` on, decodes against the
/// element shape `es`; element handles sit below the array's own handle `h`.
pub open spec fn dec_res_list(
    a: Seq<NodeData>,
    h: int,
    hs: Seq<usize>,
    es: Shape,
    i: int,
) -> Result<(), Error>
    decreases h, 0int, es, hs.len() - i,
{
    if i < 0 || i >= hs.len() {
        Ok(())
    } else if !((hs[i] as int) < h) {
        Err(Error::TypeMismatch(ShapeKind::Any, NodeKind::Undefined))
    } else {
        match dec_res(a, hs[i] as int, es) {
            Ok(()) => dec_res_list(a, h, hs, es, i + 1),
            Err(e) => Err(e),
        }
    }
}

/// Tuple slots are driven by the requested arity: a slot beyond the array's
/// length reads the missing-value sentinel.
pub open spec fn dec_res_tuple(
    a: Seq<NodeData>,
    h: int,
    hs: Seq<usize>,
    ss: Vec<Shape>,
    i: int,
) -> Result<(), Error>
    decreases h, 0int, ss, ss@.len() - i,
{
    if i < 0 || i >= ss@.len() {
        Ok(())
    } else if i < hs.len() {
        if !((hs[i] as int) < h) {
            Err(Error::TypeMismatch(ShapeKind::Any, NodeKind::Undefined))
        } else {
            match dec_res(a, hs[i] as int, ss@[i]) {
                Ok(()) => dec_res_tuple(a, h, hs, ss, i + 1),
                Err(e) => Err(e),
            }
        }
    } else {
        match missing_res(ss@[i]) {
            Ok(()) => dec_res_tuple(a, h, hs, ss, i + 1),
            Err(e) => Err(e),
        }
    }
}

/// Struct decoding is driven by the target field list: each name is looked
/// up in the object's pairs `ps`, and an absent name reads the sentinel.
pub open spec fn dec_res_struct(
    a: Seq<NodeData>,
    h: int,
    ps: Seq<(String, usize)>,
    fs: Vec<(String, Shape)>,
    i: int,
) -> Result<(), Error>
    decreases h, 0int, fs, fs@.len() - i,
{
    if i < 0 || i >= fs@.len() {
        Ok(())
    } else {
        let step = match obj_lookup(ps, fs@[i].0@) {
            Option::Some(ch) => if !((ch as int) < h) {
                Err(Error::TypeMismatch(ShapeKind::Any, NodeKind::Undefined))
            } else {
                dec_res(a, ch as int, fs@[i].1)
            },
            Option::None => missing_res(fs@[i].1),
        };
        match step {
            Ok(()) => dec_res_struct(a, h, ps, fs, i + 1),
            Err(e) => Err(e),
        }
    }
}

/// Self-describing decoding of an object node reads every field value by its
/// own kind.
pub open spec fn dec_res_obj_any(
    a: Seq<NodeData>,
    h: int,
    ps: Seq<(String, usize)>,
    i: int,
) -> Result<(), Error>
    decreases h, 0int, Shape::Any, ps.len() - i,
{
    if i < 0 || i >= ps.len() {
        Ok(())
    } else if !((ps[i].1 as int) < h) {
        Err(Error::TypeMismatch(ShapeKind::Any, NodeKind::Undefined))
    } else {
        match dec_res(a, ps[i].1 as int, Shape::Any) {
            Ok(()) => dec_res_obj_any(a, h, ps, i + 1),
            Err(e) => Err(e),
        }
    }
}

/// Whether the payload node `inner` of a single-key enum object decodes
/// against the variant form `f`.  A unit variant is encoded as a bare
/// string, never as an object, so the unit form fails here.
pub open spec fn dec_res_vform(a: Seq<NodeData>, h: int, inner: int, f: VariantForm) -> Result<
    (),
    Error,
>
    decreases h, 0int, f, 0int,
{
    if !(0 <= inner < h && inner < a.len()) {
        Err(Error::TypeMismatch(ShapeKind::Any, NodeKind::Undefined))
    } else {
        match f {
            VariantForm::Unit => Err(Error::TypeMismatch(ShapeKind::Enum, NodeKind::Object)),
            VariantForm::Newtype(s) => dec_res(a, inner, *s),
            VariantForm::Tuple(ss) => match a[inner] {
                NodeData::Array(hs) => dec_res_tuple(a, inner, hs@, ss, 0),
                _ => Err(Error::ExpectedArray),
            },
            VariantForm::Struct(ffs) => match a[inner] {
                NodeData::Object(qs) => dec_res_struct(a, inner, qs@, ffs, 0),
                _ => Err(Error::ExpectedObject),
            },
        }
    }
}

/// The typed value that decoding node `h` against shape `s` yields, as a
/// relation; it pins the value completely whenever [`dec_res`] is `Ok`.
pub open spec fn decodes(a: Seq<NodeData>, h: int, s: Shape, v: Value) -> bool
    decreases h, 1int, s, 0int,
{
    &&& 0 <= h < a.len()
    &&& match s {
        Shape::Any => match a[h] {
            NodeData::Null => v is Unit,
            NodeData::Boolean(b) => v == Value::Bool(b),
            NodeData::Number(n) => v == Value::Number(n),
            NodeData::Text(t) => v matches Value::Str(s2) && s2@ == t@,
            NodeData::Array(hs) => {
                &&& v matches Value::Sequence(vs)
                &&& vs@.len() == hs@.len()
                &&& decodes_list(a, h, hs@, Shape::Any, vs, 0)
            },
            NodeData::Object(ps) => {
                &&& v matches Value::Struct(out)
                &&& out@.len() == ps@.len()
                &&& decodes_obj_any(a, h, ps@, out, 0)
            },
        },
        Shape::Unit => a[h] is Null && v is Unit,
        Shape::Bool => a[h] matches NodeData::Boolean(b) && v == Value::Bool(b),
        Shape::I8 => a[h] matches NodeData::Number(n) && v == Value::I8(
            sat_cast(n as int, i8::MIN as int, i8::MAX as int) as i8,
        ),
        Shape::I16 => a[h] matches NodeData::Number(n) && v == Value::I16(
            sat_cast(n as int, i16::MIN as int, i16::MAX as int) as i16,
        ),
        Shape::I32 => a[h] matches NodeData::Number(n) && v == Value::I32(
            sat_cast(n as int, i32::MIN as int, i32::MAX as int) as i32,
        ),
        Shape::I64 => a[h] matches NodeData::Number(n) && v == Value::I64(
            sat_cast(n as int, i64::MIN as int, i64::MAX as int) as i64,
        ),
        Shape::U8 => a[h] matches NodeData::Number(n) && v == Value::U8(
            sat_cast(n as int, 0, u8::MAX as int) as u8,
        ),
        Shape::U16 => a[h] matches NodeData::Number(n) && v == Value::U16(
            sat_cast(n as int, 0, u16::MAX as int) as u16,
        ),
        Shape::U32 => a[h] matches NodeData::Number(n) && v == Value::U32(
            sat_cast(n as int, 0, u32::MAX as int) as u32,
        ),
        Shape::U64 => a[h] matches NodeData::Number(n) && v == Value::U64(
            sat_cast(n as int, 0, u64::MAX as int) as u64,
        ),
        Shape::Number => a[h] matches NodeData::Number(n) && v == Value::Number(n),
        Shape::Str => {
            &&& a[h] matches NodeData::Text(t)
            &&& v matches Value::Str(s2)
            &&& s2@ == t@
        },
        Shape::Optional(inner) => if a[h] is Null {
            v matches Value::Optional(o) && o is None
        } else {
            &&& v matches Value::Optional(o)
            &&& o matches Option::Some(b)
            &&& decodes(a, h, *inner, *b)
        },
        Shape::Sequence(es) => {
            &&& a[h] matches NodeData::Array(hs)
            &&& v matches Value::Sequence(vs)
            &&& vs@.len() == hs@.len()
            &&& decodes_list(a, h, hs@, *es, vs, 0)
        },
        Shape::Tuple(ss) => {
            &&& a[h] matches NodeData::Array(hs)
            &&& v matches Value::Tuple(vs)
            &&& vs@.len() == ss@.len()
            &&& decodes_tuple(a, h, hs@, ss, vs, 0)
        },
        Shape::Struct(fs) => {
            &&& a[h] matches NodeData::Object(ps)
            &&& v matches Value::Struct(out)
            &&& out@.len() == fs@.len()
            &&& decodes_struct(a, h, ps@, fs, out, 0)
        },
        Shape::Enum(vars) => match a[h] {
            NodeData::Text(t) => {
                &&& find_variant(vars, t@, 0) matches Some(j)
                &&& vars@[j].1 is Unit
                &&& v matches Value::Enum(nm, pl)
                &&& nm@ == t@
                &&& pl is Unit
            },
            NodeData::Object(ps) => {
                &&& ps@.len() == 1
                &&& find_variant(vars, ps@[0].0@, 0) matches Some(j)
                &&& v matches Value::Enum(nm, pl)
                &&& nm@ == ps@[0].0@
                &&& decodes_vform(a, h, ps@[0].1 as int, vars@[j].1, pl)
            },
            _ => false,
        },
        Shape::Mapping(_, _) => false,
        Shape::Bytes => false,
        Shape::Char => false,
    }
}

/// The elements of `vs`, from `i` on, are the decodings of the element
/// handles `hs` against the element shape `es`.
pub open spec fn decodes_list(
    a: Seq<NodeData>,
    h: int,
    hs: Seq<usize>,
    es: Shape,
    vs: Vec<Value>,
    i: int,
) -> bool
    decreases h, 0int, es, hs.len() - i,
{
    if i < 0 || i >= hs.len() {
        true
    } else {
        &&& (hs[i] as int) < h
        &&& i < vs@.len()
        &&& decodes(a, hs[i] as int, es, vs@[i])
        &&& decodes_list(a, h, hs, es, vs, i + 1)
    }
}

/// The slots of `vs`, from `i` on, are the decodings the requested arity
/// asks for; a slot beyond the array's length decodes the sentinel.
pub open spec fn decodes_tuple(
    a: Seq<NodeData>,
    h: int,
    hs: Seq<usize>,
    ss: Vec<Shape>,
    vs: Vec<Value>,
    i: int,
) -> bool
    decreases h, 0int, ss, ss@.len() - i,
{
    if i < 0 || i >= ss@.len() {
        true
    } else {
        &&& i < vs@.len()
        &&& if i < hs.len() {
            (hs[i] as int) < h && decodes(a, hs[i] as int, ss@[i], vs@[i])
        } else {
            missing_match(ss@[i], vs@[i])
        }
        &&& decodes_tuple(a, h, hs, ss, vs, i + 1)
    }
}

/// The fields of `out`, from `i` on, carry the target field names and the
/// decodings of the looked-up (or missing) field nodes.
pub open spec fn decodes_struct(
    a: Seq<NodeData>,
    h: int,
    ps: Seq<(String, usize)>,
    fs: Vec<(String, Shape)>,
    out: Vec<(String, Value)>,
    i: int,
) -> bool
    decreases h, 0int, fs, fs@.len() - i,
{
    if i < 0 || i >= fs@.len() {
        true
    } else {
        &&& i < out@.len()
        &&& out@[i].0@ == fs@[i].0@
        &&& match obj_lookup(ps, fs@[i].0@) {
            Option::Some(ch) => (ch as int) < h && decodes(a, ch as int, fs@[i].1, out@[i].1),
            Option::None => missing_match(fs@[i].1, out@[i].1),
        }
        &&& decodes_struct(a, h, ps, fs, out, i + 1)
    }
}

/// Self-describing decoding of an object node: `out` carries the node's own
/// field names in order, each value decoded by its own kind.
pub open spec fn decodes_obj_any(
    a: Seq<NodeData>,
    h: int,
    ps: Seq<(String, usize)>,
    out: Vec<(String, Value)>,
    i: int,
) -> bool
    decreases h, 0int, Shape::Any, ps.len() - i,
{
    if i < 0 || i >= ps.len() {
        true
    } else {
        &&& i < out@.len()
        &&& out@[i].0@ == ps[i].0@
        &&& (ps[i].1 as int) < h
        &&& decodes(a, ps[i].1 as int, Shape::Any, out@[i].1)
        &&& decodes_obj_any(a, h, ps, out, i + 1)
    }
}

/// The payload of a decoded object-keyed variant.
pub open spec fn decodes_vform(
    a: Seq<NodeData>,
    h: int,
    inner: int,
    f: VariantForm,
    pl: Payload,
) -> bool
    decreases h, 0int, f, 0int,
{
    &&& 0 <= inner < h
    &&& inner < a.len()
    &&& match f {
        VariantForm::Unit => false,
        VariantForm::Newtype(s) => {
            &&& pl matches Payload::Newtype(b)
            &&& decodes(a, inner, *s, *b)
        },
        VariantForm::Tuple(ss) => {
            &&& a[inner] matches NodeData::Array(hs)
            &&& pl matches Payload::Tuple(vs)
            &&& vs@.len() == ss@.len()
            &&& decodes_tuple(a, inner, hs@, ss, vs, 0)
        },
        VariantForm::Struct(ffs) => {
            &&& a[inner] matches NodeData::Object(qs)
            &&& pl matches Payload::Struct(out)
            &&& out@.len() == ffs@.len()
            &&& decodes_struct(a, inner, qs@, ffs, out, 0)
        },
    }
}

/// Whether a shape decodes against a node depends only on the nodes below
/// it, so growing the arena changes no decoding outcome.
pub proof fn lemma_dec_res_extends(a: Seq<NodeData>, b: Seq<NodeData>, h: int, s: Shape)
    requires
        arena_extends(a, b),
        0 <= h < a.len(),
    ensures
        dec_res(b, h, s) == dec_res(a, h, s),
    decreases h, 1int, s, 0int,
{
    match s {
        Shape::Any => match a[h] {
            NodeData::Array(hs) => lemma_dec_res_list_extends(a, b, h, hs@, Shape::Any, 0),
            NodeData::Object(ps) => lemma_dec_res_obj_any_extends(a, b, h, ps@, 0),
            _ => {},
        },
        Shape::Optional(inner) => if !(a[h] is Null) {
            lemma_dec_res_extends(a, b, h, *inner);
        },
        Shape::Sequence(es) => match a[h] {
            NodeData::Array(hs) => lemma_dec_res_list_extends(a, b, h, hs@, *es, 0),
            _ => {},
        },
        Shape::Tuple(ss) => match a[h] {
            NodeData::Array(hs) => lemma_dec_res_tuple_extends(a, b, h, hs@, ss, 0),
            _ => {},
        },
        Shape::Struct(fs) => match a[h] {
            NodeData::Object(ps) => lemma_dec_res_struct_extends(a, b, h, ps@, fs, 0),
            _ => {},
        },
        Shape::Enum(vars) => match a[h] {
            NodeData::Object(ps) => if ps@.len() == 1 {
                match find_variant(vars, ps@[0].0@, 0) {
                    Option::Some(j) => lemma_dec_res_vform_extends(
                        a,
                        b,
                        h,
                        ps@[0].1 as int,
                        vars@[j].1,
                    ),
                    Option::None => {},
                }
            },
            _ => {},
        },
        _ => {},
    }
}

proof fn lemma_dec_res_list_extends(
    a: Seq<NodeData>,
    b: Seq<NodeData>,
    h: int,
    hs: Seq<usize>,
    es: Shape,
    i: int,
)
    requires
        arena_extends(a, b),
        0 <= h <= a.len(),
    ensures
        dec_res_list(b, h, hs, es, i) == dec_res_list(a, h, hs, es, i),
    decreases h, 0int, es, hs.len() - i,
{
    if 0 <= i < hs.len() && (hs[i] as int) < h {
        lemma_dec_res_extends(a, b, hs[i] as int, es);
        lemma_dec_res_list_extends(a, b, h, hs, es, i + 1);
    }
}

proof fn lemma_dec_res_tuple_extends(
    a: Seq<NodeData>,
    b: Seq<NodeData>,
    h: int,
    hs: Seq<usize>,
    ss: Vec<Shape>,
    i: int,
)
    requires
        arena_extends(a, b),
        0 <= h <= a.len(),
    ensures
        dec_res_tuple(b, h, hs, ss, i) == dec_res_tuple(a, h, hs, ss, i),
    decreases h, 0int, ss, ss@.len() - i,
{
    if 0 <= i < ss@.len() {
        if i < hs.len() {
            if (hs[i] as int) < h {
                lemma_dec_res_extends(a, b, hs[i] as int, ss@[i]);
                lemma_dec_res_tuple_extends(a, b, h, hs, ss, i + 1);
            }
        } else {
            lemma_dec_res_tuple_extends(a, b, h, hs, ss, i + 1);
        }
    }
}

proof fn lemma_dec_res_struct_extends(
    a: Seq<NodeData>,
    b: Seq<NodeData>,
    h: int,
    ps: Seq<(String, usize)>,
    fs: Vec<(String, Shape)>,
    i: int,
)
    requires
        arena_extends(a, b),
        0 <= h <= a.len(),
    ensures
        dec_res_struct(b, h, ps, fs, i) == dec_res_struct(a, h, ps, fs, i),
    decreases h, 0int, fs, fs@.len() - i,
{
    if 0 <= i < fs@.len() {
        match obj_lookup(ps, fs@[i].0@) {
            Option::Some(ch) => if (ch as int) < h {
                lemma_dec_res_extends(a, b, ch as int, fs@[i].1);
                lemma_dec_res_struct_extends(a, b, h, ps, fs, i + 1);
            },
            Option::None => {
                lemma_dec_res_struct_extends(a, b, h, ps, fs, i + 1);
            },
        }
    }
}

proof fn lemma_dec_res_obj_any_extends(
    a: Seq<NodeData>,
    b: Seq<NodeData>,
    h: int,
    ps: Seq<(String, usize)>,
    i: int,
)
    requires
        arena_extends(a, b),
        0 <= h <= a.len(),
    ensures
        dec_res_obj_any(b, h, ps, i) == dec_res_obj_any(a, h, ps, i),
    decreases h, 0int, Shape::Any, ps.len() - i,
{
    if 0 <= i < ps.len() && (ps[i].1 as int) < h {
        lemma_dec_res_extends(a, b, ps[i].1 as int, Shape::Any);
        lemma_dec_res_obj_any_extends(a, b, h, ps, i + 1);
    }
}

proof fn lemma_dec_res_vform_extends(
    a: Seq<NodeData>,
    b: Seq<NodeData>,
    h: int,
    inner: int,
    f: VariantForm,
)
    requires
        arena_extends(a, b),
        0 <= h <= a.len(),
    ensures
        dec_res_vform(b, h, inner, f) == dec_res_vform(a, h, inner, f),
    decreases h, 0int, f, 0int,
{
    if 0 <= inner < h && inner < a.len() {
        match f {
            VariantForm::Unit => {},
            VariantForm::Newtype(s) => lemma_dec_res_extends(a, b, inner, *s),
            VariantForm::Tuple(ss) => match a[inner] {
                NodeData::Array(hs) => lemma_dec_res_tuple_extends(a, b, inner, hs@, ss, 0),
                _ => {},
            },
            VariantForm::Struct(ffs) => match a[inner] {
                NodeData::Object(qs) => lemma_dec_res_struct_extends(a, b, inner, qs@, ffs, 0),
                _ => {},
            },
        }
    }
}

/// The decoded value likewise depends only on the nodes below the root.
pub proof fn lemma_decodes_extends(a: Seq<NodeData>, b: Seq<NodeData>, h: int, s: Shape, v: Value)
    requires
        arena_extends(a, b),
        0 <= h < a.len(),
    ensures
        decodes(b, h, s, v) == decodes(a, h, s, v),
    decreases h, 1int, s, 0int,
{
    match s {
        Shape::Any => match a[h] {
            NodeData::Array(hs) => match v {
                Value::Sequence(vs) => lemma_decodes_list_extends(a, b, h, hs@, Shape::Any, vs, 0),
                _ => {},
            },
            NodeData::Object(ps) => match v {
                Value::Struct(out) => lemma_decodes_obj_any_extends(a, b, h, ps@, out, 0),
                _ => {},
            },
            _ => {},
        },
        Shape::Optional(inner) => if !(a[h] is Null) {
            match v {
                Value::Optional(Option::Some(bx)) => lemma_decodes_extends(a, b, h, *inner, *bx),
                _ => {},
            }
        },
        Shape::Sequence(es) => match a[h] {
            NodeData::Array(hs) => match v {
                Value::Sequence(vs) => lemma_decodes_list_extends(a, b, h, hs@, *es, vs, 0),
                _ => {},
            },
            _ => {},
        },
        Shape::Tuple(ss) => match a[h] {
            NodeData::Array(hs) => match v {
                Value::Tuple(vs) => lemma_decodes_tuple_extends(a, b, h, hs@, ss, vs, 0),
                _ => {},
            },
            _ => {},
        },
        Shape::Struct(fs) => match a[h] {
            NodeData::Object(ps) => match v {
                Value::Struct(out) => lemma_decodes_struct_extends(a, b, h, ps@, fs, out, 0),
                _ => {},
            },
            _ => {},
        },
        Shape::Enum(vars) => match a[h] {
            NodeData::Object(ps) => if ps@.len() == 1 {
                match find_variant(vars, ps@[0].0@, 0) {
                    Option::Some(j) => match v {
                        Value::Enum(nm, pl) => lemma_decodes_vform_extends(
                            a,
                            b,
                            h,
                            ps@[0].1 as int,
                            vars@[j].1,
                            pl,
                        ),
                        _ => {},
                    },
                    Option::None => {},
                }
            },
            _ => {},
        },
        _ => {},
    }
}

proof fn lemma_decodes_list_extends(
    a: Seq<NodeData>,
    b: Seq<NodeData>,
    h: int,
    hs: Seq<usize>,
    es: Shape,
    vs: Vec<Value>,
    i: int,
)
    requires
        arena_extends(a, b),
        0 <= h <= a.len(),
    ensures
        decodes_list(b, h, hs, es, vs, i) == decodes_list(a, h, hs, es, vs, i),
    decreases h, 0int, es, hs.len() - i,
{
    if 0 <= i < hs.len() && (hs[i] as int) < h && i < vs@.len() {
        lemma_decodes_extends(a, b, hs[i] as int, es, vs@[i]);
        lemma_decodes_list_extends(a, b, h, hs, es, vs, i + 1);
    }
}

proof fn lemma_decodes_tuple_extends(
    a: Seq<NodeData>,
    b: Seq<NodeData>,
    h: int,
    hs: Seq<usize>,
    ss: Vec<Shape>,
    vs: Vec<Value>,
    i: int,
)
    requires
        arena_extends(a, b),
        0 <= h <= a.len(),
    ensures
        decodes_tuple(b, h, hs, ss, vs, i) == decodes_tuple(a, h, hs, ss, vs, i),
    decreases h, 0int, ss, ss@.len() - i,
{
    if 0 <= i < ss@.len() && i < vs@.len() {
        if i < hs.len() {
            if (hs[i] as int) < h {
                lemma_decodes_extends(a, b, hs[i] as int, ss@[i], vs@[i]);
                lemma_decodes_tuple_extends(a, b, h, hs, ss, vs, i + 1);
            }
        } else {
            lemma_decodes_tuple_extends(a, b, h, hs, ss, vs, i + 1);
        }
    }
}

proof fn lemma_decodes_struct_extends(
    a: Seq<NodeData>,
    b: Seq<NodeData>,
    h: int,
    ps: Seq<(String, usize)>,
    fs: Vec<(String, Shape)>,
    out: Vec<(String, Value)>,
    i: int,
)
    requires
        arena_extends(a, b),
        0 <= h <= a.len(),
    ensures
        decodes_struct(b, h, ps, fs, out, i) == decodes_struct(a, h, ps, fs, out, i),
    decreases h, 0int, fs, fs@.len() - i,
{
    if 0 <= i < fs@.len() && i < out@.len() {
        match obj_lookup(ps, fs@[i].0@) {
            Option::Some(ch) => if (ch as int) < h {
                lemma_decodes_extends(a, b, ch as int, fs@[i].1, out@[i].1);
                lemma_decodes_struct_extends(a, b, h, ps, fs, out, i + 1);
            },
            Option::None => {
                lemma_decodes_struct_extends(a, b, h, ps, fs, out, i + 1);
            },
        }
    }
}

proof fn lemma_decodes_obj_any_extends(
    a: Seq<NodeData>,
    b: Seq<NodeData>,
    h: int,
    ps: Seq<(String, usize)>,
    out: Vec<(String, Value)>,
    i: int,
)
    requires
        arena_extends(a, b),
        0 <= h <= a.len(),
    ensures
        decodes_obj_any(b, h, ps, out, i) == decodes_obj_any(a, h, ps, out, i),
    decreases h, 0int, Shape::Any, ps.len() - i,
{
    if 0 <= i < ps.len() && (ps[i].1 as int) < h && i < out@.len() {
        lemma_decodes_extends(a, b, ps[i].1 as int, Shape::Any, out@[i].1);
        lemma_decodes_obj_any_extends(a, b, h, ps, out, i + 1);
    }
}

proof fn lemma_decodes_vform_extends(
    a: Seq<NodeData>,
    b: Seq<NodeData>,
    h: int,
    inner: int,
    f: VariantForm,
    pl: Payload,
)
    requires
        arena_extends(a, b),
        0 <= h <= a.len(),
    ensures
        decodes_vform(b, h, inner, f, pl) == decodes_vform(a, h, inner, f, pl),
    decreases h, 0int, f, 0int,
{
    if 0 <= inner < h && inner < a.len() {
        match f {
            VariantForm::Unit => {},
            VariantForm::Newtype(s) => match pl {
                Payload::Newtype(bx) => lemma_decodes_extends(a, b, inner, *s, *bx),
                _ => {},
            },
            VariantForm::Tuple(ss) => match a[inner] {
                NodeData::Array(hs) => match pl {
                    Payload::Tuple(vs) => lemma_decodes_tuple_extends(a, b, inner, hs@, ss, vs, 0),
                    _ => {},
                },
                _ => {},
            },
            VariantForm::Struct(ffs) => match a[inner] {
                NodeData::Object(qs) => match pl {
                    Payload::Struct(out) => lemma_decodes_struct_extends(
                        a,
                        b,
                        inner,
                        qs@,
                        ffs,
                        out,
                        0,
                    ),
                    _ => {},
                },
                _ => {},
            },
        }
    }
}

/// One array element, as the decoded elements list must carry it.
pub open spec fn list_slot_ok(
    a: Seq<NodeData>,
    h: int,
    hs: Seq<usize>,
    es: Shape,
    vs: Vec<Value>,
    j: int,
) -> bool {
    &&& (hs[j] as int) < h
    &&& j < vs@.len()
    &&& decodes(a, hs[j] as int, es, vs@[j])
}

proof fn lemma_decodes_list_intro(
    a: Seq<NodeData>,
    h: int,
    hs: Seq<usize>,
    es: Shape,
    vs: Vec<Value>,
    i: int,
)
    requires
        0 <= i,
        forall|j: int| i <= j < hs.len() ==> #[trigger] list_slot_ok(a, h, hs, es, vs, j),
    ensures
        decodes_list(a, h, hs, es, vs, i),
    decreases hs.len() - i,
{
    if i < hs.len() {
        assert(list_slot_ok(a, h, hs, es, vs, i));
        lemma_decodes_list_intro(a, h, hs, es, vs, i + 1);
    }
}

/// One tuple slot, present or read from the sentinel.
pub open spec fn tuple_slot_ok(
    a: Seq<NodeData>,
    h: int,
    hs: Seq<usize>,
    ss: Vec<Shape>,
    vs: Vec<Value>,
    j: int,
) -> bool {
    &&& j < vs@.len()
    &&& if j < hs.len() {
        (hs[j] as int) < h && decodes(a, hs[j] as int, ss@[j], vs@[j])
    } else {
        missing_match(ss@[j], vs@[j])
    }
}

proof fn lemma_decodes_tuple_intro(
    a: Seq<NodeData>,
    h: int,
    hs: Seq<usize>,
    ss: Vec<Shape>,
    vs: Vec<Value>,
    i: int,
)
    requires
        0 <= i,
        forall|j: int| i <= j < ss@.len() ==> #[trigger] tuple_slot_ok(a, h, hs, ss, vs, j),
    ensures
        decodes_tuple(a, h, hs, ss, vs, i),
    decreases ss@.len() - i,
{
    if i < ss@.len() {
        assert(tuple_slot_ok(a, h, hs, ss, vs, i));
        lemma_decodes_tuple_intro(a, h, hs, ss, vs, i + 1);
    }
}

/// One decoded struct field: the target name and the decoding of the looked
/// up (or missing) field node.
pub open spec fn struct_slot_ok(
    a: Seq<NodeData>,
    h: int,
    ps: Seq<(String, usize)>,
    fs: Vec<(String, Shape)>,
    out: Vec<(String, Value)>,
    j: int,
) -> bool {
    &&& j < out@.len()
    &&& out@[j].0@ == fs@[j].0@
    &&& match obj_lookup(ps, fs@[j].0@) {
        Option::Some(ch) => (ch as int) < h && decodes(a, ch as int, fs@[j].1, out@[j].1),
        Option::None => missing_match(fs@[j].1, out@[j].1),
    }
}

proof fn lemma_decodes_struct_intro(
    a: Seq<NodeData>,
    h: int,
    ps: Seq<(String, usize)>,
    fs: Vec<(String, Shape)>,
    out: Vec<(String, Value)>,
    i: int,
)
    requires
        0 <= i,
        forall|j: int| i <= j < fs@.len() ==> #[trigger] struct_slot_ok(a, h, ps, fs, out, j),
    ensures
        decodes_struct(a, h, ps, fs, out, i),
    decreases fs@.len() - i,
{
    if i < fs@.len() {
        assert(struct_slot_ok(a, h, ps, fs, out, i));
        lemma_decodes_struct_intro(a, h, ps, fs, out, i + 1);
    }
}

/// One self-described object field: the node's own name and the decoding of
/// its value by its own kind.
pub open spec fn obj_any_slot_ok(
    a: Seq<NodeData>,
    h: int,
    ps: Seq<(String, usize)>,
    out: Vec<(String, Value)>,
    j: int,
) -> bool {
    &&& j < out@.len()
    &&& out@[j].0@ == ps[j].0@
    &&& (ps[j].1 as int) < h
    &&& decodes(a, ps[j].1 as int, Shape::Any, out@[j].1)
}

proof fn lemma_decodes_obj_any_intro(
    a: Seq<NodeData>,
    h: int,
    ps: Seq<(String, usize)>,
    out: Vec<(String, Value)>,
    i: int,
)
    requires
        0 <= i,
        forall|j: int| i <= j < ps.len() ==> #[trigger] obj_any_slot_ok(a, h, ps, out, j),
    ensures
        decodes_obj_any(a, h, ps, out, i),
    decreases ps.len() - i,
{
    if i < ps.len() {
        assert(obj_any_slot_ok(a, h, ps, out, i));
        lemma_decodes_obj_any_intro(a, h, ps, out, i + 1);
    }
}

/// A successful object lookup hands back the handle of one of the object's
/// own pairs.
proof fn lemma_obj_lookup_child(ps: Seq<(String, usize)>, name: Seq<char>)
    requires
        obj_lookup(ps, name) is Some,
    ensures
        exists|k: int| 0 <= k < ps.len() && ps[k].1 == obj_lookup(ps, name)->Some_0,
    decreases ps.len(),
{
    if ps.len() > 0 {
        if ps.last().0@ == name {
            assert(ps[ps.len() - 1].1 == obj_lookup(ps, name)->Some_0);
        } else {
            lemma_obj_lookup_child(ps.drop_last(), name);
            let k = choose|k: int|
                0 <= k < ps.drop_last().len() && ps.drop_last()[k].1 == obj_lookup(
                    ps.drop_last(),
                    name,
                )->Some_0;
            assert(ps[k].1 == obj_lookup(ps, name)->Some_0);
        }
    }
}

/// The field-name cache: a per-scope memo from field name to the handle of
/// an interned string node.  Entries are created lazily on first use and
/// never evicted; the cache speeds key lookups up and has no effect on any
/// decoded value.
pub struct KeyCache {
    entries: Vec<(String, usize)>,
}

impl KeyCache {
    /// Every cached handle points at a string node of the arena holding
    /// exactly the cached name.
    pub closed spec fn wf(&self, a: Seq<NodeData>) -> bool {
        forall|j: int| 0 <= j < self.entries@.len() ==> {
            let e = #[trigger] self.entries@[j];
            &&& (e.1 as int) < a.len()
            &&& a[e.1 as int] is Text
            &&& a[e.1 as int]->Text_0@ == e.0@
        }
    }

    /// An empty cache, valid for any scope.
    pub fn new() -> (c: KeyCache)
        ensures
            forall|a: Seq<NodeData>| #[trigger] c.wf(a),
    {
        let c = KeyCache { entries: Vec::new() };
        proof {
            assert forall|a: Seq<NodeData>| #[trigger] c.wf(a) by {
                assert(c.entries@.len() == 0);
            }
        }
        c
    }

    /// The interned string handle for a field name: reused from the cache
    /// when present, otherwise allocated once and remembered.  On a cache
    /// hit the scope is untouched.
    #[verifier::loop_isolation(false)]
    pub fn lookup_or_intern(&mut self, scope: &mut Scope, name: &String) -> (k: usize)
        requires
            old(scope).wf(),
            old(self).wf(old(scope)@),
        ensures
            final(scope).wf(),
            arena_extends(old(scope)@, final(scope)@),
            final(self).wf(final(scope)@),
            (k as int) < final(scope)@.len(),
            final(scope)@[k as int] is Text,
            final(scope)@[k as int]->Text_0@ == name@,
    {
        let n = self.entries.len();
        let mut j: usize = 0;
        while j < n
            invariant
                j <= n,
                n == self.entries@.len(),
                self.wf(scope@),
            decreases n - j,
        {
            if self.entries[j].0 == *name {
                return self.entries[j].1;
            }
            j = j + 1;
        }
        let ghost pre = scope@;
        let h = scope.allocate(NodeData::Text(name.clone()));
        self.entries.push((name.clone(), h));
        proof {
            assert forall|i: int| 0 <= i < self.entries@.len() implies {
                let e = #[trigger] self.entries@[i];
                &&& (e.1 as int) < scope@.len()
                &&& a_text(scope@, e.1 as int, e.0@)
            } by {
                if i < self.entries@.len() - 1 {
                    assert(old(self).entries@[i] == self.entries@[i]);
                }
            }
        }
        h
    }
}

/// The node under `h` is a string node holding `t`.
pub open spec fn a_text(a: Seq<NodeData>, h: int, t: Seq<char>) -> bool {
    a[h] is Text && a[h]->Text_0@ == t
}

/// Decodes the missing-value sentinel against a shape: `None` for an
/// optional, unit for a self-describing request, a typed error otherwise.
fn missing_decode(s: &Shape) -> (r: Result<Value, Error>)
    ensures
        r is Ok <==> missing_res(*s) is Ok,
        r matches Ok(v) ==> missing_match(*s, v),
        r matches Err(e) ==> missing_res(*s) == Err::<(), Error>(e),
{
    match s {
        Shape::Any => Ok(Value::Unit),
        Shape::Optional(_) => Ok(Value::Optional(Option::None)),
        Shape::Unit => Err(Error::ExpectedNull),
        Shape::Bool => Err(Error::ExpectedBoolean),
        Shape::Str => Err(Error::ExpectedString),
        Shape::Sequence(_) => Err(Error::ExpectedArray),
        Shape::Tuple(_) => Err(Error::ExpectedArray),
        Shape::Struct(_) => Err(Error::ExpectedObject),
        Shape::Enum(_) => Err(Error::TypeMismatch(ShapeKind::Enum, NodeKind::Undefined)),
        Shape::Mapping(_, _) => Err(Error::Unsupported(ShapeKind::Mapping)),
        Shape::Bytes => Err(Error::Unsupported(ShapeKind::Bytes)),
        Shape::Char => Err(Error::Unsupported(ShapeKind::Char)),
        _ => Err(Error::ExpectedNumber),
    }
}

/// The first variant of `vars` carrying `name`, as the tagging convention
/// looks it up.
#[verifier::loop_isolation(false)]
fn find_variant_exec(vars: &Vec<(String, VariantForm)>, name: &String) -> (r: Option<usize>)
    ensures
        r is None ==> find_variant(*vars, name@, 0) is None,
        r matches Some(j) ==> j < vars@.len() && find_variant(*vars, name@, 0) == Some(j as int),
{
    let n = vars.len();
    let mut j: usize = 0;
    while j < n
        invariant
            j <= n,
            n == vars@.len(),
            find_variant(*vars, name@, 0) == find_variant(*vars, name@, j as int),
        decreases n - j,
    {
        if vars[j].0 == *name {
            return Some(j);
        }
        j = j + 1;
    }
    None
}

/// Decodes every element of an array node against the element shape `es`.
#[verifier::loop_isolation(false)]
fn decode_elems(scope: &mut Scope, cache: &mut KeyCache, h: usize, es: &Shape) -> (r: Result<
    Vec<Value>,
    Error,
>)
    requires
        old(scope).wf(),
        old(cache).wf(old(scope)@),
        h < old(scope)@.len(),
        old(scope)@[h as int] is Array,
    ensures
        final(scope).wf(),
        arena_extends(old(scope)@, final(scope)@),
        final(cache).wf(final(scope)@),
        r is Ok <==> dec_res_list(
            old(scope)@,
            h as int,
            old(scope)@[h as int]->Array_0@,
            *es,
            0,
        ) is Ok,
        r matches Ok(vs) ==> vs@.len() == old(scope)@[h as int]->Array_0@.len() && decodes_list(
            old(scope)@,
            h as int,
            old(scope)@[h as int]->Array_0@,
            *es,
            vs,
            0,
        ),
        r matches Err(e) ==> dec_res_list(
            old(scope)@,
            h as int,
            old(scope)@[h as int]->Array_0@,
            *es,
            0,
        ) == Err::<(), Error>(e),
    decreases h, 0int, *es, 0int,
{
    let ghost a0 = scope@;
    let ghost hs = a0[h as int]->Array_0@;
    let n = scope.array_len(h);
    let mut vs: Vec<Value> = Vec::new();
    let mut i: usize = 0;
    while i < n
        invariant
            scope.wf(),
            arena_extends(a0, scope@),
            cache.wf(scope@),
            i <= n,
            vs@.len() == i,
            dec_res_list(a0, h as int, hs, *es, 0) == dec_res_list(a0, h as int, hs, *es, i as int),
            forall|j: int| 0 <= j < i ==> #[trigger] list_slot_ok(a0, h as int, hs, *es, vs, j),
        decreases n - i,
    {
        proof {
            assert(scope@[h as int] == a0[h as int]);
            assert(a0[h as int].children_lt(h as int));
            assert((hs[i as int] as int) < h as int);
        }
        let c = scope.array_child(h, i);
        let ghost pre = scope@;
        match decode_at(scope, cache, c, es) {
            Ok(v) => {
                proof {
                    lemma_dec_res_extends(a0, pre, c as int, *es);
                    lemma_decodes_extends(a0, pre, c as int, *es, v);
                }
                let ghost prev_vs = vs;
                vs.push(v);
                proof {
                    assert forall|j: int| 0 <= j < i + 1 implies #[trigger] list_slot_ok(
                        a0,
                        h as int,
                        hs,
                        *es,
                        vs,
                        j,
                    ) by {
                        if j < i {
                            assert(list_slot_ok(a0, h as int, hs, *es, prev_vs, j));
                            assert(vs@[j] == prev_vs@[j]);
                        } else {
                            assert(vs@[j] == v);
                        }
                    }
                    assert(dec_res_list(a0, h as int, hs, *es, i as int) == dec_res_list(
                        a0,
                        h as int,
                        hs,
                        *es,
                        i as int + 1,
                    ));
                }
            },
            Err(e) => {
                proof {
                    lemma_dec_res_extends(a0, pre, c as int, *es);
                    assert(dec_res_list(a0, h as int, hs, *es, i as int) == Err::<(), Error>(e));
                }
                return Err(e);
            },
        }
        i = i + 1;
    }
    proof {
        lemma_decodes_list_intro(a0, h as int, hs, *es, vs, 0);
    }
    Ok(vs)
}

/// Decodes the slots a requested tuple arity asks of an array node; slots
/// beyond the array's length read the missing-value sentinel.
#[verifier::loop_isolation(false)]
fn decode_tuple_slots(scope: &mut Scope, cache: &mut KeyCache, h: usize, ss: &Vec<Shape>) -> (r:
    Result<Vec<Value>, Error>)
    requires
        old(scope).wf(),
        old(cache).wf(old(scope)@),
        h < old(scope)@.len(),
        old(scope)@[h as int] is Array,
    ensures
        final(scope).wf(),
        arena_extends(old(scope)@, final(scope)@),
        final(cache).wf(final(scope)@),
        r is Ok <==> dec_res_tuple(
            old(scope)@,
            h as int,
            old(scope)@[h as int]->Array_0@,
            *ss,
            0,
        ) is Ok,
        r matches Ok(vs) ==> vs@.len() == ss@.len() && decodes_tuple(
            old(scope)@,
            h as int,
            old(scope)@[h as int]->Array_0@,
            *ss,
            vs,
            0,
        ),
        r matches Err(e) ==> dec_res_tuple(
            old(scope)@,
            h as int,
            old(scope)@[h as int]->Array_0@,
            *ss,
            0,
        ) == Err::<(), Error>(e),
    decreases h, 0int, *ss, 0int,
{
    let ghost a0 = scope@;
    let ghost hs = a0[h as int]->Array_0@;
    let alen = scope.array_len(h);
    let n = ss.len();
    let mut vs: Vec<Value> = Vec::new();
    let mut i: usize = 0;
    while i < n
        invariant
            scope.wf(),
            arena_extends(a0, scope@),
            cache.wf(scope@),
            i <= n,
            vs@.len() == i,
            dec_res_tuple(a0, h as int, hs, *ss, 0) == dec_res_tuple(
                a0,
                h as int,
                hs,
                *ss,
                i as int,
            ),
            forall|j: int| 0 <= j < i ==> #[trigger] tuple_slot_ok(a0, h as int, hs, *ss, vs, j),
        decreases n - i,
    {
        let step: Result<Value, Error> = if i < alen {
            proof {
                assert(scope@[h as int] == a0[h as int]);
                assert(a0[h as int].children_lt(h as int));
                assert((hs[i as int] as int) < h as int);
            }
            let c = scope.array_child(h, i);
            let ghost pre = scope@;
            let sub = decode_at(scope, cache, c, &ss[i]);
            proof {
                lemma_dec_res_extends(a0, pre, c as int, ss@[i as int]);
                match sub {
                    Ok(ref v) => lemma_decodes_extends(a0, pre, c as int, ss@[i as int], *v),
                    Err(_) => {},
                }
            }
            sub
        } else {
            missing_decode(&ss[i])
        };
        match step {
            Ok(v) => {
                let ghost prev_vs = vs;
                vs.push(v);
                proof {
                    assert forall|j: int| 0 <= j < i + 1 implies #[trigger] tuple_slot_ok(
                        a0,
                        h as int,
                        hs,
                        *ss,
                        vs,
                        j,
                    ) by {
                        if j < i {
                            assert(tuple_slot_ok(a0, h as int, hs, *ss, prev_vs, j));
                            assert(vs@[j] == prev_vs@[j]);
                        } else {
                            assert(vs@[j] == v);
                        }
                    }
                    assert(dec_res_tuple(a0, h as int, hs, *ss, i as int) == dec_res_tuple(
                        a0,
                        h as int,
                        hs,
                        *ss,
                        i as int + 1,
                    ));
                }
            },
            Err(e) => {
                proof {
                    assert(dec_res_tuple(a0, h as int, hs, *ss, i as int) == Err::<(), Error>(e));
                }
                return Err(e);
            },
        }
        i = i + 1;
    }
    proof {
        lemma_decodes_tuple_intro(a0, h as int, hs, *ss, vs, 0);
    }
    Ok(vs)
}

/// Decodes an object node against a target field list, looking each target
/// name up through the key cache; node fields outside the list are ignored
/// and an absent name reads the missing-value sentinel.
#[verifier::loop_isolation(false)]
fn decode_struct_fields(
    scope: &mut Scope,
    cache: &mut KeyCache,
    h: usize,
    fs: &Vec<(String, Shape)>,
) -> (r: Result<Vec<(String, Value)>, Error>)
    requires
        old(scope).wf(),
        old(cache).wf(old(scope)@),
        h < old(scope)@.len(),
        old(scope)@[h as int] is Object,
    ensures
        final(scope).wf(),
        arena_extends(old(scope)@, final(scope)@),
        final(cache).wf(final(scope)@),
        r is Ok <==> dec_res_struct(
            old(scope)@,
            h as int,
            old(scope)@[h as int]->Object_0@,
            *fs,
            0,
        ) is Ok,
        r matches Ok(out) ==> out@.len() == fs@.len() && decodes_struct(
            old(scope)@,
            h as int,
            old(scope)@[h as int]->Object_0@,
            *fs,
            out,
            0,
        ),
        r matches Err(e) ==> dec_res_struct(
            old(scope)@,
            h as int,
            old(scope)@[h as int]->Object_0@,
            *fs,
            0,
        ) == Err::<(), Error>(e),
    decreases h, 0int, *fs, 0int,
{
    let ghost a0 = scope@;
    let ghost ps = a0[h as int]->Object_0@;
    let n = fs.len();
    let mut out: Vec<(String, Value)> = Vec::new();
    let mut i: usize = 0;
    while i < n
        invariant
            scope.wf(),
            arena_extends(a0, scope@),
            cache.wf(scope@),
            i <= n,
            out@.len() == i,
            dec_res_struct(a0, h as int, ps, *fs, 0) == dec_res_struct(
                a0,
                h as int,
                ps,
                *fs,
                i as int,
            ),
            forall|j: int| 0 <= j < i ==> #[trigger] struct_slot_ok(a0, h as int, ps, *fs, out, j),
        decreases n - i,
    {
        let key_h = cache.lookup_or_intern(scope, &fs[i].0);
        proof {
            assert(scope@[h as int] == a0[h as int]);
        }
        let got = scope.object_get_key(h, key_h);
        let step: Result<Value, Error> = match got {
            Some(ch) => {
                proof {
                    lemma_obj_lookup_child(ps, fs@[i as int].0@);
                    assert(a0[h as int].children_lt(h as int));
                    assert((ch as int) < h as int);
                }
                let ghost pre = scope@;
                let sub = decode_at(scope, cache, ch, &fs[i].1);
                proof {
                    lemma_dec_res_extends(a0, pre, ch as int, fs@[i as int].1);
                    match sub {
                        Ok(ref v) => lemma_decodes_extends(a0, pre, ch as int, fs@[i as int].1, *v),
                        Err(_) => {},
                    }
                }
                sub
            },
            None => missing_decode(&fs[i].1),
        };
        match step {
            Ok(v) => {
                let ghost prev_out = out;
                out.push((fs[i].0.clone(), v));
                proof {
                    assert forall|j: int| 0 <= j < i + 1 implies #[trigger] struct_slot_ok(
                        a0,
                        h as int,
                        ps,
                        *fs,
                        out,
                        j,
                    ) by {
                        if j < i {
                            assert(struct_slot_ok(a0, h as int, ps, *fs, prev_out, j));
                            assert(out@[j] == prev_out@[j]);
                        } else {
                            assert(out@[j].1 == v);
                        }
                    }
                    assert(dec_res_struct(a0, h as int, ps, *fs, i as int) == dec_res_struct(
                        a0,
                        h as int,
                        ps,
                        *fs,
                        i as int + 1,
                    ));
                }
            },
            Err(e) => {
                proof {
                    assert(dec_res_struct(a0, h as int, ps, *fs, i as int) == Err::<(), Error>(e));
                }
                return Err(e);
            },
        }
        i = i + 1;
    }
    proof {
        lemma_decodes_struct_intro(a0, h as int, ps, *fs, out, 0);
    }
    Ok(out)
}

/// Self-describing decoding of an object node: every field of the node
/// itself, each value read by its own kind.
#[verifier::loop_isolation(false)]
fn decode_obj_any_fields(scope: &mut Scope, cache: &mut KeyCache, h: usize) -> (r: Result<
    Vec<(String, Value)>,
    Error,
>)
    requires
        old(scope).wf(),
        old(cache).wf(old(scope)@),
        h < old(scope)@.len(),
        old(scope)@[h as int] is Object,
    ensures
        final(scope).wf(),
        arena_extends(old(scope)@, final(scope)@),
        final(cache).wf(final(scope)@),
        r is Ok <==> dec_res_obj_any(
            old(scope)@,
            h as int,
            old(scope)@[h as int]->Object_0@,
            0,
        ) is Ok,
        r matches Ok(out) ==> out@.len() == old(scope)@[h as int]->Object_0@.len()
            && decodes_obj_any(old(scope)@, h as int, old(scope)@[h as int]->Object_0@, out, 0),
        r matches Err(e) ==> dec_res_obj_any(
            old(scope)@,
            h as int,
            old(scope)@[h as int]->Object_0@,
            0,
        ) == Err::<(), Error>(e),
    decreases h, 0int, Shape::Any, 0int,
{
    let ghost a0 = scope@;
    let ghost ps = a0[h as int]->Object_0@;
    let n = scope.object_len(h);
    let any_shape = Shape::Any;
    let mut out: Vec<(String, Value)> = Vec::new();
    let mut i: usize = 0;
    while i < n
        invariant
            scope.wf(),
            arena_extends(a0, scope@),
            cache.wf(scope@),
            i <= n,
            out@.len() == i,
            any_shape == Shape::Any,
            dec_res_obj_any(a0, h as int, ps, 0) == dec_res_obj_any(a0, h as int, ps, i as int),
            forall|j: int| 0 <= j < i ==> #[trigger] obj_any_slot_ok(a0, h as int, ps, out, j),
        decreases n - i,
    {
        proof {
            assert(scope@[h as int] == a0[h as int]);
            assert(a0[h as int].children_lt(h as int));
            assert((ps[i as int].1 as int) < h as int);
        }
        let name = scope.object_key_clone(h, i);
        let ch = scope.object_val(h, i);
        let ghost pre = scope@;
        match decode_at(scope, cache, ch, &any_shape) {
            Ok(v) => {
                proof {
                    lemma_dec_res_extends(a0, pre, ch as int, Shape::Any);
                    lemma_decodes_extends(a0, pre, ch as int, Shape::Any, v);
                }
                let ghost prev_out = out;
                out.push((name, v));
                proof {
                    assert forall|j: int| 0 <= j < i + 1 implies #[trigger] obj_any_slot_ok(
                        a0,
                        h as int,
                        ps,
                        out,
                        j,
                    ) by {
                        if j < i {
                            assert(obj_any_slot_ok(a0, h as int, ps, prev_out, j));
                            assert(out@[j] == prev_out@[j]);
                        } else {
                            assert(out@[j].1 == v);
                        }
                    }
                    assert(dec_res_obj_any(a0, h as int, ps, i as int) == dec_res_obj_any(
                        a0,
                        h as int,
                        ps,
                        i as int + 1,
                    ));
                }
            },
            Err(e) => {
                proof {
                    lemma_dec_res_extends(a0, pre, ch as int, Shape::Any);
                    assert(dec_res_obj_any(a0, h as int, ps, i as int) == Err::<(), Error>(e));
                }
                return Err(e);
            },
        }
        i = i + 1;
    }
    proof {
        lemma_decodes_obj_any_intro(a0, h as int, ps, out, 0);
    }
    Ok(out)
}

/// Decodes the payload node of a single-key enum object against the named
/// variant's form.
#[verifier::loop_isolation(false)]
fn decode_vform(
    scope: &mut Scope,
    cache: &mut KeyCache,
    Ghost(hp): Ghost<int>,
    inner: usize,
    f: &VariantForm,
) -> (r: Result<Payload, Error>)
    requires
        old(scope).wf(),
        old(cache).wf(old(scope)@),
        (inner as int) < hp,
        inner < old(scope)@.len(),
    ensures
        final(scope).wf(),
        arena_extends(old(scope)@, final(scope)@),
        final(cache).wf(final(scope)@),
        r is Ok <==> dec_res_vform(old(scope)@, hp, inner as int, *f) is Ok,
        r matches Ok(pl) ==> decodes_vform(old(scope)@, hp, inner as int, *f, pl),
        r matches Err(e) ==> dec_res_vform(old(scope)@, hp, inner as int, *f) == Err::<(), Error>(
            e,
        ),
    decreases inner, 1int, *f, 1int,
{
    match f {
        VariantForm::Unit => Err(Error::TypeMismatch(ShapeKind::Enum, NodeKind::Object)),
        VariantForm::Newtype(sh) => match decode_at(scope, cache, inner, sh) {
            Ok(v) => Ok(Payload::Newtype(Box::new(v))),
            Err(e) => Err(e),
        },
        VariantForm::Tuple(ss) => match scope.node_kind(inner) {
            NodeKind::Array => match decode_tuple_slots(scope, cache, inner, ss) {
                Ok(vs) => Ok(Payload::Tuple(vs)),
                Err(e) => Err(e),
            },
            _ => Err(Error::ExpectedArray),
        },
        VariantForm::Struct(ffs) => match scope.node_kind(inner) {
            NodeKind::Object => match decode_struct_fields(scope, cache, inner, ffs) {
                Ok(out) => Ok(Payload::Struct(out)),
                Err(e) => Err(e),
            },
            _ => Err(Error::ExpectedObject),
        },
    }
}

/// A shape a single scalar node satisfies on its own.
pub open spec fn is_scalar_shape(s: Shape) -> bool {
    match s {
        Shape::Unit => true,
        Shape::Bool => true,
        Shape::I8 => true,
        Shape::I16 => true,
        Shape::I32 => true,
        Shape::I64 => true,
        Shape::U8 => true,
        Shape::U16 => true,
        Shape::U32 => true,
        Shape::U64 => true,
        Shape::Number => true,
        Shape::Str => true,
        _ => false,
    }
}

/// Decodes a scalar request: the node must match the requested kind, and a
/// number node saturates into the requested integer width.
fn decode_scalar(scope: &Scope, h: usize, shape: &Shape) -> (r: Result<Value, Error>)
    requires
        h < scope@.len(),
        is_scalar_shape(*shape),
    ensures
        r is Ok <==> dec_res(scope@, h as int, *shape) is Ok,
        r matches Ok(v) ==> decodes(scope@, h as int, *shape, v),
        r matches Err(e) ==> dec_res(scope@, h as int, *shape) == Err::<(), Error>(e),
{
    match shape {
        Shape::Unit => match scope.node_kind(h) {
            NodeKind::Null => Ok(Value::Unit),
            _ => Err(Error::ExpectedNull),
        },
        Shape::Bool => match scope.node_kind(h) {
            NodeKind::Boolean => Ok(Value::Bool(scope.bool_value(h))),
            _ => Err(Error::ExpectedBoolean),
        },
        Shape::I8 => match scope.node_kind(h) {
            NodeKind::Number => {
                let n = scope.number_value(h);
                Ok(Value::I8(if n < -128 { -128i8 } else if n > 127 { 127i8 } else { n as i8 }))
            },
            _ => Err(Error::ExpectedNumber),
        },
        Shape::I16 => match scope.node_kind(h) {
            NodeKind::Number => {
                let n = scope.number_value(h);
                Ok(
                    Value::I16(
                        if n < -32768 {
                            -32768i16
                        } else if n > 32767 {
                            32767i16
                        } else {
                            n as i16
                        },
                    ),
                )
            },
            _ => Err(Error::ExpectedNumber),
        },
        Shape::I32 => match scope.node_kind(h) {
            NodeKind::Number => {
                let n = scope.number_value(h);
                Ok(
                    Value::I32(
                        if n < -0x8000_0000i128 {
                            i32::MIN
                        } else if n > 0x7fff_ffffi128 {
                            i32::MAX
                        } else {
                            n as i32
                        },
                    ),
                )
            },
            _ => Err(Error::ExpectedNumber),
        },
        Shape::I64 => match scope.node_kind(h) {
            NodeKind::Number => {
                let n = scope.number_value(h);
                Ok(
                    Value::I64(
                        if n < -0x8000_0000_0000_0000i128 {
                            i64::MIN
                        } else if n > 0x7fff_ffff_ffff_ffffi128 {
                            i64::MAX
                        } else {
                            n as i64
                        },
                    ),
                )
            },
            _ => Err(Error::ExpectedNumber),
        },
        Shape::U8 => match scope.node_kind(h) {
            NodeKind::Number => {
                let n = scope.number_value(h);
                Ok(Value::U8(if n < 0 { 0u8 } else if n > 255 { 255u8 } else { n as u8 }))
            },
            _ => Err(Error::ExpectedNumber),
        },
        Shape::U16 => match scope.node_kind(h) {
            NodeKind::Number => {
                let n = scope.number_value(h);
                Ok(Value::U16(if n < 0 { 0u16 } else if n > 65535 { 65535u16 } else { n as u16 }))
            },
            _ => Err(Error::ExpectedNumber),
        },
        Shape::U32 => match scope.node_kind(h) {
            NodeKind::Number => {
                let n = scope.number_value(h);
                Ok(
                    Value::U32(
                        if n < 0 {
                            0u32
                        } else if n > 0xffff_ffffi128 {
                            u32::MAX
                        } else {
                            n as u32
                        },
                    ),
                )
            },
            _ => Err(Error::ExpectedNumber),
        },
        Shape::U64 => match scope.node_kind(h) {
            NodeKind::Number => {
                let n = scope.number_value(h);
                Ok(
                    Value::U64(
                        if n < 0 {
                            0u64
                        } else if n > 0xffff_ffff_ffff_ffffi128 {
                            u64::MAX
                        } else {
                            n as u64
                        },
                    ),
                )
            },
            _ => Err(Error::ExpectedNumber),
        },
        Shape::Number => match scope.node_kind(h) {
            NodeKind::Number => Ok(Value::Number(scope.number_value(h))),
            _ => Err(Error::ExpectedNumber),
        },
        Shape::Str => match scope.node_kind(h) {
            NodeKind::Text => Ok(Value::Str(scope.text_clone(h))),
            _ => Err(Error::ExpectedString),
        },
        _ => unreached(),
    }
}

/// Self-describing decoding: dispatch on the node's own runtime kind.
#[verifier::loop_isolation(false)]
fn decode_any(scope: &mut Scope, cache: &mut KeyCache, h: usize) -> (r: Result<Value, Error>)
    requires
        old(scope).wf(),
        old(cache).wf(old(scope)@),
        h < old(scope)@.len(),
    ensures
        final(scope).wf(),
        arena_extends(old(scope)@, final(scope)@),
        final(cache).wf(final(scope)@),
        r is Ok <==> dec_res(old(scope)@, h as int, Shape::Any) is Ok,
        r matches Ok(v) ==> decodes(old(scope)@, h as int, Shape::Any, v),
        r matches Err(e) ==> dec_res(old(scope)@, h as int, Shape::Any) == Err::<(), Error>(e),
    decreases h, 1int, Shape::Any, 0int,
{
    let any_shape = Shape::Any;
    match scope.node_kind(h) {
        NodeKind::Null => Ok(Value::Unit),
        NodeKind::Boolean => Ok(Value::Bool(scope.bool_value(h))),
        NodeKind::Number => Ok(Value::Number(scope.number_value(h))),
        NodeKind::Text => Ok(Value::Str(scope.text_clone(h))),
        NodeKind::Array => match decode_elems(scope, cache, h, &any_shape) {
            Ok(vs) => Ok(Value::Sequence(vs)),
            Err(e) => Err(e),
        },
        _ => match decode_obj_any_fields(scope, cache, h) {
            Ok(out) => Ok(Value::Struct(out)),
            Err(e) => Err(e),
        },
    }
}

/// Decodes an enum request by inverting the tagging convention: a bare
/// string names a unit variant; a single-key object names the variant whose
/// payload its value holds.
#[verifier::loop_isolation(false)]
fn decode_enum(scope: &mut Scope, cache: &mut KeyCache, h: usize, vars: &Vec<(String, VariantForm)>)
    -> (r: Result<Value, Error>)
    requires
        old(scope).wf(),
        old(cache).wf(old(scope)@),
        h < old(scope)@.len(),
    ensures
        final(scope).wf(),
        arena_extends(old(scope)@, final(scope)@),
        final(cache).wf(final(scope)@),
        ({
            let s = Shape::Enum(*vars);
            &&& (r is Ok <==> dec_res(old(scope)@, h as int, s) is Ok)
            &&& (r matches Ok(v) ==> decodes(old(scope)@, h as int, s, v))
            &&& (r matches Err(e) ==> dec_res(old(scope)@, h as int, s) == Err::<(), Error>(e))
        }),
    decreases h, 1int, *vars, 0int,
{
    let ghost a0 = scope@;
    match scope.node_kind(h) {
        NodeKind::Text => {
            let t = scope.text_clone(h);
            match find_variant_exec(vars, &t) {
                Some(j) => match &vars[j].1 {
                    VariantForm::Unit => Ok(Value::Enum(t, Payload::Unit)),
                    _ => Err(Error::TypeMismatch(ShapeKind::Enum, NodeKind::Text)),
                },
                None => Err(Error::TypeMismatch(ShapeKind::Enum, NodeKind::Text)),
            }
        },
        NodeKind::Object => {
            let plen = scope.object_len(h);
            if plen != 1 {
                Err(Error::TypeMismatch(ShapeKind::Enum, NodeKind::Object))
            } else {
                let key = scope.object_key_clone(h, 0);
                let inner = scope.object_val(h, 0);
                proof {
                    assert(a0[h as int].children_lt(h as int));
                    assert((a0[h as int]->Object_0@[0].1 as int) < h as int);
                }
                match find_variant_exec(vars, &key) {
                    None => Err(Error::TypeMismatch(ShapeKind::Enum, NodeKind::Object)),
                    Some(j) => {
                        let form = &vars[j].1;
                        match decode_vform(scope, cache, Ghost(h as int), inner, form) {
                            Ok(pl) => Ok(Value::Enum(key, pl)),
                            Err(e) => Err(e),
                        }
                    },
                }
            }
        },
        k => Err(Error::TypeMismatch(ShapeKind::Enum, k)),
    }
}

/// Decodes the node under `h` against the requested shape: the central
/// dispatch of the decoder.  The result is exactly what [`dec_res`] and
/// [`decodes`] say of the scope as it was when the call began; the scope only
/// grows, by interned key strings.
#[verifier::loop_isolation(false)]
pub fn decode_at(scope: &mut Scope, cache: &mut KeyCache, h: usize, shape: &Shape) -> (r: Result<
    Value,
    Error,
>)
    requires
        old(scope).wf(),
        old(cache).wf(old(scope)@),
        h < old(scope)@.len(),
    ensures
        final(scope).wf(),
        arena_extends(old(scope)@, final(scope)@),
        final(cache).wf(final(scope)@),
        r is Ok <==> dec_res(old(scope)@, h as int, *shape) is Ok,
        r matches Ok(v) ==> decodes(old(scope)@, h as int, *shape, v),
        r matches Err(e) ==> dec_res(old(scope)@, h as int, *shape) == Err::<(), Error>(e),
    decreases h, 1int, *shape, 1int,
{
    match shape {
        Shape::Any => decode_any(scope, cache, h),
        Shape::Optional(inner) => match scope.node_kind(h) {
            NodeKind::Null => Ok(Value::Optional(Option::None)),
            _ => match decode_at(scope, cache, h, &**inner) {
                Ok(v) => Ok(Value::Optional(Option::Some(Box::new(v)))),
                Err(e) => Err(e),
            },
        },
        Shape::Sequence(es) => match scope.node_kind(h) {
            NodeKind::Array => match decode_elems(scope, cache, h, &**es) {
                Ok(vs) => Ok(Value::Sequence(vs)),
                Err(e) => Err(e),
            },
            _ => Err(Error::ExpectedArray),
        },
        Shape::Tuple(ss) => match scope.node_kind(h) {
            NodeKind::Array => match decode_tuple_slots(scope, cache, h, ss) {
                Ok(vs) => Ok(Value::Tuple(vs)),
                Err(e) => Err(e),
            },
            _ => Err(Error::ExpectedArray),
        },
        Shape::Struct(fs) => match scope.node_kind(h) {
            NodeKind::Object => match decode_struct_fields(scope, cache, h, fs) {
                Ok(out) => Ok(Value::Struct(out)),
                Err(e) => Err(e),
            },
            _ => Err(Error::ExpectedObject),
        },
        Shape::Enum(vars) => decode_enum(scope, cache, h, vars),
        Shape::Mapping(_, _) => Err(Error::Unsupported(ShapeKind::Mapping)),
        Shape::Bytes => Err(Error::Unsupported(ShapeKind::Bytes)),
        Shape::Char => Err(Error::Unsupported(ShapeKind::Char)),
        _ => decode_scalar(scope, h, shape),
    }
}

/// Decodes a dynamic node into a typed value against a requested shape,
/// without a caller-supplied key cache.
///
/// Succeeds exactly when [`dec_res`] allows it, yields exactly the value
/// [`decodes`] describes, and fails with exactly the error [`dec_res`]
/// names.  The scope only ever grows; every node the caller holds stays
/// valid and unchanged.
pub fn from_v8(scope: &mut Scope, input: usize, shape: &Shape) -> (r: Result<Value, Error>)
    requires
        old(scope).wf(),
        input < old(scope)@.len(),
    ensures
        final(scope).wf(),
        arena_extends(old(scope)@, final(scope)@),
        r is Ok <==> dec_res(old(scope)@, input as int, *shape) is Ok,
        r matches Ok(v) ==> decodes(old(scope)@, input as int, *shape, v),
        r matches Err(e) ==> dec_res(old(scope)@, input as int, *shape) == Err::<(), Error>(e),
{
    let mut cache = KeyCache::new();
    decode_at(scope, &mut cache, input, shape)
}

/// Like [`from_v8`], but reuses a caller's key cache across calls on the
/// same scope.  The contract on the decoded value is word for word that of
/// [`from_v8`]: the cache changes performance only, never a result.
pub fn from_v8_cached(
    scope: &mut Scope,
    input: usize,
    shape: &Shape,
    key_cache: &mut KeyCache,
) -> (r: Result<Value, Error>)
    requires
        old(scope).wf(),
        input < old(scope)@.len(),
        old(key_cache).wf(old(scope)@),
    ensures
        final(scope).wf(),
        arena_extends(old(scope)@, final(scope)@),
        final(key_cache).wf(final(scope)@),
        r is Ok <==> dec_res(old(scope)@, input as int, *shape) is Ok,
        r matches Ok(v) ==> decodes(old(scope)@, input as int, *shape, v),
        r matches Err(e) ==> dec_res(old(scope)@, input as int, *shape) == Err::<(), Error>(e),
{
    decode_at(scope, key_cache, input, shape)
}

/// A decoder bound to one input node, carrying its own key cache.
pub struct Deserializer {
    input: usize,
    key_cache: KeyCache,
}

impl Deserializer {
    /// The node this decoder reads.
    pub closed spec fn input_spec(&self) -> usize {
        self.input
    }

    /// Its key cache is valid for the given arena.
    pub closed spec fn cache_wf(&self, a: Seq<NodeData>) -> bool {
        self.key_cache.wf(a)
    }

    /// Binds a decoder to an input node, with a caller's key cache or a
    /// fresh one.
    pub fn new(input: usize, key_cache: Option<KeyCache>) -> (d: Deserializer)
        ensures
            d.input_spec() == input,
            key_cache matches Some(c) ==> forall|a: Seq<NodeData>|
                #[trigger] d.cache_wf(a) == c.wf(a),
            key_cache is None ==> forall|a: Seq<NodeData>| #[trigger] d.cache_wf(a),
    {
        let cache = match key_cache {
            Some(c) => c,
            None => KeyCache::new(),
        };
        Deserializer { input, key_cache: cache }
    }

    /// Decodes the bound node against a requested shape; the contract is
    /// that of [`from_v8`].
    pub fn deserialize(&mut self, scope: &mut Scope, shape: &Shape) -> (r: Result<Value, Error>)
        requires
            old(scope).wf(),
            old(self).input_spec() < old(scope)@.len(),
            old(self).cache_wf(old(scope)@),
        ensures
            final(scope).wf(),
            arena_extends(old(scope)@, final(scope)@),
            final(self).cache_wf(final(scope)@),
            final(self).input_spec() == old(self).input_spec(),
            r is Ok <==> dec_res(old(scope)@, old(self).input_spec() as int, *shape) is Ok,
            r matches Ok(v) ==> decodes(old(scope)@, old(self).input_spec() as int, *shape, v),
            r matches Err(e) ==> dec_res(old(scope)@, old(self).input_spec() as int, *shape)
                == Err::<(), Error>(e),
    {
        decode_at(scope, &mut self.key_cache, self.input, shape)
    }
}

} // verus!
