//! The encoder: a typed value walked into dynamic nodes.
//!
//! One central dispatch, [`encode`], interprets the closed shape taxonomy.
//! Scalars become Boolean, Number or String nodes; integers narrower than 32
//! bits are widened, and 64-bit integers go through the double-precision
//! rounding of the number model.  Sequences and tuples become Array nodes,
//! structs become Object nodes, and enum variants follow the JSON-compatible
//! tagging convention: a bare string for a unit variant, otherwise an object
//! with the variant name as its single key.

use vstd::prelude::*;
use crate::number::{nearest_double, number_from_i64, number_from_u64};
use crate::scope::{NodeData, Scope};
use crate::value::{supported, unsup_of, unsup_of_fields, unsup_of_list, unsup_of_payload, Error,
    Payload, ShapeKind, Value};

verus! {

broadcast use vstd::std_specs::vec::group_vec_axioms;

/// Arena `b` is arena `a` grown by appended nodes: every node of `a` is
/// still there, unchanged.
pub open spec fn arena_extends(a: Seq<NodeData>, b: Seq<NodeData>) -> bool {
    &&& a.len() <= b.len()
    &&& forall|i: int| 0 <= i < a.len() ==> a[i] == #[trigger] b[i]
}

/// Node `h` of arena `a` is the encoding of the typed value `v`.
pub open spec fn encodes(a: Seq<NodeData>, h: int, v: Value) -> bool
    decreases v, 1int, 0int,
{
    &&& 0 <= h < a.len()
    &&& match v {
        Value::Unit => a[h] is Null,
        Value::Bool(b) => a[h] == NodeData::Boolean(b),
        Value::I8(x) => a[h] == NodeData::Number(x as i128),
        Value::I16(x) => a[h] == NodeData::Number(x as i128),
        Value::I32(x) => a[h] == NodeData::Number(x as i128),
        Value::I64(x) => a[h] == NodeData::Number(nearest_double(x as int) as i128),
        Value::U8(x) => a[h] == NodeData::Number(x as i128),
        Value::U16(x) => a[h] == NodeData::Number(x as i128),
        Value::U32(x) => a[h] == NodeData::Number(x as i128),
        Value::U64(x) => a[h] == NodeData::Number(nearest_double(x as int) as i128),
        Value::Number(n) => a[h] == NodeData::Number(n),
        Value::Str(s) => a[h] matches NodeData::Text(t) && t@ == s@,
        Value::Optional(o) => match o {
            Option::None => a[h] is Null,
            Option::Some(b) => encodes(a, h, *b),
        },
        Value::Sequence(vs) => a[h] matches NodeData::Array(hs) && hs@.len() == vs@.len()
            && encodes_list(a, hs@, vs, 0),
        Value::Tuple(vs) => a[h] matches NodeData::Array(hs) && hs@.len() == vs@.len()
            && encodes_list(a, hs@, vs, 0),
        Value::Struct(fs) => a[h] matches NodeData::Object(ps) && ps@.len() == fs@.len()
            && encodes_fields(a, ps@, fs, 0),
        Value::Enum(name, p) => encodes_variant(a, h, name, p),
        Value::Mapping(_) => false,
        Value::Bytes(_) => false,
        Value::Char(_) => false,
    }
}

/// The handles `hs` from position `i` on encode the elements of `vs`.
pub open spec fn encodes_list(a: Seq<NodeData>, hs: Seq<usize>, vs: Vec<Value>, i: int) -> bool
    decreases vs, 0int, vs@.len() - i,
{
    if i < 0 || i >= vs@.len() {
        true
    } else {
        encodes(a, hs[i] as int, vs@[i]) && encodes_list(a, hs, vs, i + 1)
    }
}

/// The name-handle pairs `ps` from position `i` on encode the fields of
/// `fs`, name for name, in order.
pub open spec fn encodes_fields(
    a: Seq<NodeData>,
    ps: Seq<(String, usize)>,
    fs: Vec<(String, Value)>,
    i: int,
) -> bool
    decreases fs, 0int, fs@.len() - i,
{
    if i < 0 || i >= fs@.len() {
        true
    } else {
        ps[i].0@ == fs@[i].0@ && encodes(a, ps[i].1 as int, fs@[i].1) && encodes_fields(
            a,
            ps,
            fs,
            i + 1,
        )
    }
}

/// Node `h` is the tagged encoding of the enum variant `name` with payload
/// `p`: a bare string for a unit variant, else a single-key object.
pub open spec fn encodes_variant(a: Seq<NodeData>, h: int, name: String, p: Payload) -> bool
    decreases p, 1int, 0int,
{
    &&& 0 <= h < a.len()
    &&& match p {
        Payload::Unit => a[h] matches NodeData::Text(t) && t@ == name@,
        Payload::Newtype(b) => {
            &&& a[h] matches NodeData::Object(ps)
            &&& ps@.len() == 1
            &&& ps@[0].0@ == name@
            &&& encodes(a, ps@[0].1 as int, *b)
        },
        Payload::Tuple(vs) => {
            &&& a[h] matches NodeData::Object(ps)
            &&& ps@.len() == 1
            &&& ps@[0].0@ == name@
            &&& (ps@[0].1 as int) < a.len()
            &&& a[ps@[0].1 as int] matches NodeData::Array(hs)
            &&& hs@.len() == vs@.len()
            &&& encodes_list(a, hs@, vs, 0)
        },
        Payload::Struct(fs) => {
            &&& a[h] matches NodeData::Object(ps)
            &&& ps@.len() == 1
            &&& ps@[0].0@ == name@
            &&& (ps@[0].1 as int) < a.len()
            &&& a[ps@[0].1 as int] matches NodeData::Object(qs)
            &&& qs@.len() == fs@.len()
            &&& encodes_fields(a, qs@, fs, 0)
        },
    }
}

/// Every element handle of an encodes-list fact encodes its element (and so
/// is in bounds).
proof fn lemma_encodes_list_elim(a: Seq<NodeData>, hs: Seq<usize>, vs: Vec<Value>, i: int)
    requires
        0 <= i,
        encodes_list(a, hs, vs, i),
    ensures
        forall|j: int| i <= j < vs@.len() ==> encodes(a, hs[j] as int, #[trigger] vs@[j]),
    decreases vs@.len() - i,
{
    if i < vs@.len() {
        lemma_encodes_list_elim(a, hs, vs, i + 1);
    }
}

/// Every field pair of an encodes-fields fact carries the field's name and
/// encodes its value.
proof fn lemma_encodes_fields_elim(
    a: Seq<NodeData>,
    ps: Seq<(String, usize)>,
    fs: Vec<(String, Value)>,
    i: int,
)
    requires
        0 <= i,
        encodes_fields(a, ps, fs, i),
    ensures
        forall|j: int| i <= j < fs@.len() ==> ps[j].0@ == (#[trigger] fs@[j]).0@,
        forall|j: int| i <= j < fs@.len() ==> encodes(a, ps[j].1 as int, (#[trigger] fs@[j]).1),
    decreases fs@.len() - i,
{
    if i < fs@.len() {
        lemma_encodes_fields_elim(a, ps, fs, i + 1);
    }
}

/// An encoding stays an encoding when the arena grows: nodes are immutable
/// once allocated.
pub proof fn lemma_encodes_extends(a: Seq<NodeData>, b: Seq<NodeData>, h: int, v: Value)
    requires
        encodes(a, h, v),
        arena_extends(a, b),
    ensures
        encodes(b, h, v),
    decreases v, 1int, 0int,
{
    match v {
        Value::Optional(o) => match o {
            Option::Some(bx) => lemma_encodes_extends(a, b, h, *bx),
            Option::None => {},
        },
        Value::Sequence(vs) => lemma_encodes_list_extends(a, b, a[h]->Array_0@, vs, 0),
        Value::Tuple(vs) => lemma_encodes_list_extends(a, b, a[h]->Array_0@, vs, 0),
        Value::Struct(fs) => lemma_encodes_fields_extends(a, b, a[h]->Object_0@, fs, 0),
        Value::Enum(name, p) => lemma_encodes_variant_extends(a, b, h, name, p),
        _ => {},
    }
}

proof fn lemma_encodes_list_extends(
    a: Seq<NodeData>,
    b: Seq<NodeData>,
    hs: Seq<usize>,
    vs: Vec<Value>,
    i: int,
)
    requires
        encodes_list(a, hs, vs, i),
        arena_extends(a, b),
    ensures
        encodes_list(b, hs, vs, i),
    decreases vs, 0int, vs@.len() - i,
{
    if 0 <= i < vs@.len() {
        lemma_encodes_extends(a, b, hs[i] as int, vs@[i]);
        lemma_encodes_list_extends(a, b, hs, vs, i + 1);
    }
}

proof fn lemma_encodes_fields_extends(
    a: Seq<NodeData>,
    b: Seq<NodeData>,
    ps: Seq<(String, usize)>,
    fs: Vec<(String, Value)>,
    i: int,
)
    requires
        encodes_fields(a, ps, fs, i),
        arena_extends(a, b),
    ensures
        encodes_fields(b, ps, fs, i),
    decreases fs, 0int, fs@.len() - i,
{
    if 0 <= i < fs@.len() {
        lemma_encodes_extends(a, b, ps[i].1 as int, fs@[i].1);
        lemma_encodes_fields_extends(a, b, ps, fs, i + 1);
    }
}

proof fn lemma_encodes_variant_extends(
    a: Seq<NodeData>,
    b: Seq<NodeData>,
    h: int,
    name: String,
    p: Payload,
)
    requires
        encodes_variant(a, h, name, p),
        arena_extends(a, b),
    ensures
        encodes_variant(b, h, name, p),
    decreases p, 1int, 0int,
{
    match p {
        Payload::Unit => {},
        Payload::Newtype(bx) => lemma_encodes_extends(a, b, a[h]->Object_0@[0].1 as int, *bx),
        Payload::Tuple(vs) => {
            let inner = a[h]->Object_0@[0].1 as int;
            lemma_encodes_list_extends(a, b, a[inner]->Array_0@, vs, 0);
        },
        Payload::Struct(fs) => {
            let inner = a[h]->Object_0@[0].1 as int;
            lemma_encodes_fields_extends(a, b, a[inner]->Object_0@, fs, 0);
        },
    }
}

/// Builds the elements of `vs` forward from `i` into an encodes-list fact.
proof fn lemma_encodes_list_intro(a: Seq<NodeData>, hs: Seq<usize>, vs: Vec<Value>, i: int)
    requires
        forall|j: int| i <= j < vs@.len() ==> encodes(a, hs[j] as int, #[trigger] vs@[j]),
    ensures
        encodes_list(a, hs, vs, i),
    decreases vs@.len() - i,
{
    if 0 <= i < vs@.len() {
        lemma_encodes_list_intro(a, hs, vs, i + 1);
    }
}

proof fn lemma_encodes_fields_intro(
    a: Seq<NodeData>,
    ps: Seq<(String, usize)>,
    fs: Vec<(String, Value)>,
    i: int,
)
    requires
        forall|j: int| i <= j < fs@.len() ==> ps[j].0@ == (#[trigger] fs@[j]).0@,
        forall|j: int| i <= j < fs@.len() ==> encodes(a, ps[j].1 as int, (#[trigger] fs@[j]).1),
    ensures
        encodes_fields(a, ps, fs, i),
    decreases fs@.len() - i,
{
    if 0 <= i < fs@.len() {
        lemma_encodes_fields_intro(a, ps, fs, i + 1);
    }
}

/// Encodes each element of `vs` into the scope, in order, and hands back the
/// element handles; fails on the first unsupported shape.
#[verifier::loop_isolation(false)]
fn encode_list(scope: &mut Scope, vs: &Vec<Value>) -> (r: Result<Vec<usize>, Error>)
    requires
        old(scope).wf(),
    ensures
        final(scope).wf(),
        arena_extends(old(scope)@, final(scope)@),
        r is Ok <==> unsup_of_list(*vs, 0) is None,
        r matches Ok(hs) ==> hs@.len() == vs@.len() && encodes_list(final(scope)@, hs@, *vs, 0),
        r matches Err(e) ==> e == Error::Unsupported(unsup_of_list(*vs, 0)->Some_0),
    decreases *vs, 0int, 0int,
{
    let mut hs: Vec<usize> = Vec::new();
    let mut i: usize = 0;
    while i < vs.len()
        invariant
            scope.wf(),
            arena_extends(old(scope)@, scope@),
            i <= vs@.len(),
            hs@.len() == i,
            unsup_of_list(*vs, 0) == unsup_of_list(*vs, i as int),
            forall|j: int| 0 <= j < i ==> encodes(scope@, hs@[j] as int, #[trigger] vs@[j]),
        decreases vs@.len() - i,
    {
        let ghost pre = scope@;
        match encode(scope, &vs[i]) {
            Ok(h) => {
                proof {
                    assert forall|j: int| 0 <= j < i implies encodes(
                        scope@,
                        hs@[j] as int,
                        #[trigger] vs@[j],
                    ) by {
                        lemma_encodes_extends(pre, scope@, hs@[j] as int, vs@[j]);
                    }
                }
                hs.push(h);
            },
            Err(e) => {
                return Err(e);
            },
        }
        i = i + 1;
    }
    proof {
        lemma_encodes_list_intro(scope@, hs@, *vs, 0);
    }
    Ok(hs)
}

/// Encodes each named field of `fs` into the scope, in order, and hands back
/// the object's name-handle pairs; fails on the first unsupported shape.
#[verifier::loop_isolation(false)]
fn encode_fields(scope: &mut Scope, fs: &Vec<(String, Value)>) -> (r: Result<
    Vec<(String, usize)>,
    Error,
>)
    requires
        old(scope).wf(),
    ensures
        final(scope).wf(),
        arena_extends(old(scope)@, final(scope)@),
        r is Ok <==> unsup_of_fields(*fs, 0) is None,
        r matches Ok(ps) ==> ps@.len() == fs@.len() && encodes_fields(final(scope)@, ps@, *fs, 0),
        r matches Err(e) ==> e == Error::Unsupported(unsup_of_fields(*fs, 0)->Some_0),
    decreases *fs, 0int, 0int,
{
    let mut ps: Vec<(String, usize)> = Vec::new();
    let mut i: usize = 0;
    while i < fs.len()
        invariant
            scope.wf(),
            arena_extends(old(scope)@, scope@),
            i <= fs@.len(),
            ps@.len() == i,
            unsup_of_fields(*fs, 0) == unsup_of_fields(*fs, i as int),
            forall|j: int| 0 <= j < i ==> ps@[j].0@ == (#[trigger] fs@[j]).0@,
            forall|j: int| 0 <= j < i ==> encodes(scope@, ps@[j].1 as int, (#[trigger] fs@[j]).1),
        decreases fs@.len() - i,
    {
        let ghost pre = scope@;
        match encode(scope, &fs[i].1) {
            Ok(h) => {
                proof {
                    assert forall|j: int| 0 <= j < i implies encodes(
                        scope@,
                        ps@[j].1 as int,
                        (#[trigger] fs@[j]).1,
                    ) by {
                        lemma_encodes_extends(pre, scope@, ps@[j].1 as int, fs@[j].1);
                    }
                }
                ps.push((fs[i].0.clone(), h));
            },
            Err(e) => {
                return Err(e);
            },
        }
        i = i + 1;
    }
    proof {
        lemma_encodes_fields_intro(scope@, ps@, *fs, 0);
    }
    Ok(ps)
}

/// Encodes a typed value into the scope and returns the handle of its root
/// node, which is always the node allocated last.
///
/// Succeeds exactly when nothing in the value is an unsupported shape; a
/// map, byte string or single character anywhere inside fails with
/// `Unsupported` naming the first offender, and nothing else fails.
#[verifier::loop_isolation(false)]
pub fn encode(scope: &mut Scope, v: &Value) -> (r: Result<usize, Error>)
    requires
        old(scope).wf(),
    ensures
        final(scope).wf(),
        arena_extends(old(scope)@, final(scope)@),
        r is Ok <==> supported(*v),
        r matches Ok(h) ==> h + 1 == final(scope)@.len() && encodes(final(scope)@, h as int, *v),
        r matches Err(e) ==> e == Error::Unsupported(unsup_of(*v)->Some_0),
    decreases *v, 1int, 0int,
{
    match v {
        Value::Unit => Ok(scope.allocate(NodeData::Null)),
        Value::Bool(b) => Ok(scope.allocate(NodeData::Boolean(*b))),
        Value::I8(x) => Ok(scope.allocate(NodeData::Number(*x as i128))),
        Value::I16(x) => Ok(scope.allocate(NodeData::Number(*x as i128))),
        Value::I32(x) => Ok(scope.allocate(NodeData::Number(*x as i128))),
        Value::I64(x) => Ok(scope.allocate(NodeData::Number(number_from_i64(*x)))),
        Value::U8(x) => Ok(scope.allocate(NodeData::Number(*x as i128))),
        Value::U16(x) => Ok(scope.allocate(NodeData::Number(*x as i128))),
        Value::U32(x) => Ok(scope.allocate(NodeData::Number(*x as i128))),
        Value::U64(x) => Ok(scope.allocate(NodeData::Number(number_from_u64(*x)))),
        Value::Number(n) => Ok(scope.allocate(NodeData::Number(*n))),
        Value::Str(s) => Ok(scope.allocate(NodeData::Text(s.clone()))),
        Value::Optional(o) => match o {
            Option::None => Ok(scope.allocate(NodeData::Null)),
            Option::Some(b) => encode(scope, b),
        },
        Value::Sequence(vs) => match encode_list(scope, vs) {
            Ok(hs) => {
                let ghost pre = scope@;
                proof {
                    lemma_encodes_list_elim(pre, hs@, *vs, 0);
                    assert forall|j: int| 0 <= j < hs@.len() implies (hs@[j] as int)
                        < pre.len() by {
                        assert(encodes(pre, hs@[j] as int, vs@[j]));
                    }
                }
                let h = scope.allocate(NodeData::Array(hs));
                proof {
                    lemma_encodes_list_extends(pre, scope@, hs@, *vs, 0);
                }
                Ok(h)
            },
            Err(e) => Err(e),
        },
        Value::Tuple(vs) => match encode_list(scope, vs) {
            Ok(hs) => {
                let ghost pre = scope@;
                proof {
                    lemma_encodes_list_elim(pre, hs@, *vs, 0);
                    assert forall|j: int| 0 <= j < hs@.len() implies (hs@[j] as int)
                        < pre.len() by {
                        assert(encodes(pre, hs@[j] as int, vs@[j]));
                    }
                }
                let h = scope.allocate(NodeData::Array(hs));
                proof {
                    lemma_encodes_list_extends(pre, scope@, hs@, *vs, 0);
                }
                Ok(h)
            },
            Err(e) => Err(e),
        },
        Value::Struct(fs) => match encode_fields(scope, fs) {
            Ok(ps) => {
                let ghost pre = scope@;
                let ghost psv = ps@;
                proof {
                    lemma_encodes_fields_elim(pre, psv, *fs, 0);
                    assert forall|j: int| 0 <= j < psv.len() implies (psv[j].1 as int)
                        < pre.len() by {
                        assert(encodes(pre, psv[j].1 as int, fs@[j].1));
                    }
                }
                let h = scope.allocate(NodeData::Object(ps));
                proof {
                    lemma_encodes_fields_extends(pre, scope@, psv, *fs, 0);
                }
                Ok(h)
            },
            Err(e) => Err(e),
        },
        Value::Enum(name, p) => match p {
            Payload::Unit => {
                let h = scope.allocate(NodeData::Text(name.clone()));
                proof {
                    assert(unsup_of_payload(*p) is None);
                    assert(unsup_of(*v) is None);
                    assert(encodes_variant(scope@, h as int, *name, *p));
                }
                Ok(h)
            },
            Payload::Newtype(b) => match encode(scope, b) {
                Ok(inner) => {
                    let ghost pre = scope@;
                    let mut pair: Vec<(String, usize)> = Vec::new();
                    pair.push((name.clone(), inner));
                    let h = scope.allocate(NodeData::Object(pair));
                    proof {
                        lemma_encodes_extends(pre, scope@, inner as int, **b);
                        assert(unsup_of_payload(*p) is None);
                        assert(unsup_of(*v) is None);
                        assert(encodes_variant(scope@, h as int, *name, *p));
                    }
                    Ok(h)
                },
                Err(e) => {
                    proof {
                        assert(unsup_of(*v) == unsup_of_payload(*p));
                    }
                    Err(e)
                },
            },
            Payload::Tuple(vs) => match encode_list(scope, vs) {
                Ok(hs) => {
                    let ghost pre = scope@;
                    proof {
                        lemma_encodes_list_elim(pre, hs@, *vs, 0);
                        assert forall|j: int| 0 <= j < hs@.len() implies (hs@[j] as int)
                            < pre.len() by {
                            assert(encodes(pre, hs@[j] as int, vs@[j]));
                        }
                    }
                    let ghost hsv = hs@;
                    let arr = scope.allocate(NodeData::Array(hs));
                    let mut pair: Vec<(String, usize)> = Vec::new();
                    pair.push((name.clone(), arr));
                    let h = scope.allocate(NodeData::Object(pair));
                    proof {
                        lemma_encodes_list_extends(pre, scope@, hsv, *vs, 0);
                        assert(unsup_of_payload(*p) is None);
                        assert(unsup_of(*v) is None);
                        assert(encodes_variant(scope@, h as int, *name, *p));
                    }
                    Ok(h)
                },
                Err(e) => {
                    proof {
                        assert(unsup_of(*v) == unsup_of_payload(*p));
                    }
                    Err(e)
                },
            },
            Payload::Struct(fs) => match encode_fields(scope, fs) {
                Ok(ps) => {
                    let ghost pre = scope@;
                    let ghost psv = ps@;
                    proof {
                        lemma_encodes_fields_elim(pre, psv, *fs, 0);
                        assert forall|j: int| 0 <= j < psv.len() implies (psv[j].1 as int)
                            < pre.len() by {
                            assert(encodes(pre, psv[j].1 as int, fs@[j].1));
                        }
                    }
                    let obj = scope.allocate(NodeData::Object(ps));
                    let mut pair: Vec<(String, usize)> = Vec::new();
                    pair.push((name.clone(), obj));
                    let h = scope.allocate(NodeData::Object(pair));
                    proof {
                        lemma_encodes_fields_extends(pre, scope@, psv, *fs, 0);
                        assert(unsup_of_payload(*p) is None);
                        assert(unsup_of(*v) is None);
                        assert(encodes_variant(scope@, h as int, *name, *p));
                    }
                    Ok(h)
                },
                Err(e) => {
                    proof {
                        assert(unsup_of(*v) == unsup_of_payload(*p));
                    }
                    Err(e)
                },
            },
        },
        Value::Mapping(_) => Err(Error::Unsupported(ShapeKind::Mapping)),
        Value::Bytes(_) => Err(Error::Unsupported(ShapeKind::Bytes)),
        Value::Char(_) => Err(Error::Unsupported(ShapeKind::Char)),
    }
}

/// Encodes a typed value into the caller's scope: the public entry of the
/// encoder.  See [`encode`] for the exact contract.
pub fn to_v8(scope: &mut Scope, input: &Value) -> (r: Result<usize, Error>)
    requires
        old(scope).wf(),
    ensures
        final(scope).wf(),
        arena_extends(old(scope)@, final(scope)@),
        r is Ok <==> supported(*input),
        r matches Ok(h) ==> h + 1 == final(scope)@.len() && encodes(
            final(scope)@,
            h as int,
            *input,
        ),
        r matches Err(e) ==> e == Error::Unsupported(unsup_of(*input)->Some_0),
{
    encode(scope, input)
}

/// Allocates the interned string node for a struct field name; the engine
/// deduplicates such keys, and here the key cache plays that role.
pub fn v8_struct_key(scope: &mut Scope, field: &str) -> (h: usize)
    requires
        old(scope).wf(),
    ensures
        final(scope).wf(),
        final(scope)@ == old(scope)@.push(NodeData::Text(final(scope)@[h as int]->Text_0)),
        h == old(scope)@.len(),
        final(scope)@[h as int] matches NodeData::Text(t) && t@ == field@,
{
    scope.allocate(NodeData::Text(field.to_owned()))
}

/// Accumulates encoded element handles and finalizes them into one Array
/// node.  Elements are allocated before the array itself, which is what
/// keeps every node's children below it in the scope.
pub struct ArraySerializer {
    pub pending: Vec<usize>,
}

impl ArraySerializer {
    /// An empty sequence builder.
    pub fn new() -> (s: ArraySerializer)
        ensures
            s.pending@ == Seq::<usize>::empty(),
    {
        ArraySerializer { pending: Vec::new() }
    }

    /// Encodes one element into the scope and appends its handle.
    pub fn serialize_element(&mut self, scope: &mut Scope, v: &Value) -> (r: Result<(), Error>)
        requires
            old(scope).wf(),
        ensures
            final(scope).wf(),
            arena_extends(old(scope)@, final(scope)@),
            r is Ok <==> supported(*v),
            r is Ok ==> final(scope)@.len() > 0 && final(self).pending@ == old(
                self,
            ).pending@.push((final(scope)@.len() - 1) as usize) && encodes(
                final(scope)@,
                final(scope)@.len() - 1,
                *v,
            ),
            r matches Err(e) ==> final(self).pending@ == old(self).pending@ && e
                == Error::Unsupported(unsup_of(*v)->Some_0),
    {
        match encode(scope, v) {
            Ok(h) => {
                self.pending.push(h);
                Ok(())
            },
            Err(e) => Err(e),
        }
    }

    /// Finalizes the accumulated elements into one Array node and returns
    /// its handle; the builder must not be reused afterwards, which giving
    /// it up here enforces.
    pub fn end(self, scope: &mut Scope) -> (h: usize)
        requires
            old(scope).wf(),
            forall|j: int|
                0 <= j < self.pending@.len() ==> (self.pending@[j] as int) < old(scope)@.len(),
        ensures
            final(scope).wf(),
            final(scope)@.len() == old(scope)@.len() + 1,
            arena_extends(old(scope)@, final(scope)@),
            h == old(scope)@.len(),
            final(scope)@[h as int] matches NodeData::Array(hs) && hs@ == self.pending@,
    {
        scope.allocate(NodeData::Array(self.pending))
    }
}

/// Accumulates encoded name-value fields and finalizes them into one Object
/// node.  The fields arrive one by one, and the object node is allocated at
/// the end, after its children, so that every handle an object holds stays
/// below the object's own handle.
pub struct ObjectSerializer {
    pub pending: Vec<(String, usize)>,
}

impl ObjectSerializer {
    /// An empty object builder.
    pub fn new() -> (s: ObjectSerializer)
        ensures
            s.pending@ == Seq::<(String, usize)>::empty(),
    {
        ObjectSerializer { pending: Vec::new() }
    }

    /// Encodes one field value into the scope and appends the name-handle
    /// pair.
    pub fn serialize_field(&mut self, scope: &mut Scope, key: &str, v: &Value) -> (r: Result<
        (),
        Error,
    >)
        requires
            old(scope).wf(),
        ensures
            final(scope).wf(),
            arena_extends(old(scope)@, final(scope)@),
            r is Ok <==> supported(*v),
            r is Ok ==> {
                &&& final(scope)@.len() > 0
                &&& final(self).pending@.len() == old(self).pending@.len() + 1
                &&& final(self).pending@.drop_last() == old(self).pending@
                &&& final(self).pending@.last().0@ == key@
                &&& final(self).pending@.last().1 == (final(scope)@.len() - 1) as usize
                &&& encodes(final(scope)@, final(scope)@.len() - 1, *v)
            },
            r matches Err(e) ==> final(self).pending@ == old(self).pending@ && e
                == Error::Unsupported(unsup_of(*v)->Some_0),
    {
        match encode(scope, v) {
            Ok(h) => {
                self.pending.push((key.to_owned(), h));
                proof {
                    assert(self.pending@.drop_last() =~= old(self).pending@);
                }
                Ok(())
            },
            Err(e) => Err(e),
        }
    }

    /// Finalizes the accumulated fields into one Object node and returns its
    /// handle.
    pub fn end(self, scope: &mut Scope) -> (h: usize)
        requires
            old(scope).wf(),
            forall|j: int|
                0 <= j < self.pending@.len() ==> (self.pending@[j].1 as int) < old(scope)@.len(),
        ensures
            final(scope).wf(),
            final(scope)@.len() == old(scope)@.len() + 1,
            arena_extends(old(scope)@, final(scope)@),
            h == old(scope)@.len(),
            final(scope)@[h as int] matches NodeData::Object(ps) && ps@ == self.pending@,
    {
        scope.allocate(NodeData::Object(self.pending))
    }
}

/// Wraps another builder into the tagged variant form: the inner node is
/// finalized first and then keyed under the variant name in a fresh
/// single-key Object node, for compatibility with text codecs on the same
/// tree.
pub struct VariantSerializer<S> {
    pub variant: String,
    pub inner: S,
}

impl<S> VariantSerializer<S> {
    /// Wraps a builder under a variant name.
    pub fn new(variant: String, inner: S) -> (s: VariantSerializer<S>)
        ensures
            s.variant == variant,
            s.inner == inner,
    {
        VariantSerializer { variant, inner }
    }
}

impl VariantSerializer<ArraySerializer> {
    /// Encodes one unnamed payload element of a tuple variant.
    pub fn serialize_field(&mut self, scope: &mut Scope, v: &Value) -> (r: Result<(), Error>)
        requires
            old(scope).wf(),
        ensures
            final(scope).wf(),
            arena_extends(old(scope)@, final(scope)@),
            final(self).variant == old(self).variant,
            r is Ok <==> supported(*v),
            r is Ok ==> final(scope)@.len() > 0 && final(self).inner.pending@ == old(
                self,
            ).inner.pending@.push((final(scope)@.len() - 1) as usize) && encodes(
                final(scope)@,
                final(scope)@.len() - 1,
                *v,
            ),
            r matches Err(e) ==> final(self).inner.pending@ == old(self).inner.pending@ && e
                == Error::Unsupported(unsup_of(*v)->Some_0),
    {
        self.inner.serialize_element(scope, v)
    }

    /// Finalizes the payload array, then wraps it under the variant name in
    /// a single-key Object node.
    pub fn end(self, scope: &mut Scope) -> (h: usize)
        requires
            old(scope).wf(),
            forall|j: int|
                0 <= j < self.inner.pending@.len() ==> (self.inner.pending@[j] as int) < old(
                    scope,
                )@.len(),
        ensures
            final(scope).wf(),
            final(scope)@.len() == old(scope)@.len() + 2,
            arena_extends(old(scope)@, final(scope)@),
            h == old(scope)@.len() + 1,
            final(scope)@[h as int] matches NodeData::Object(ps) && ps@.len() == 1
                && ps@[0].0@ == self.variant@ && ps@[0].1 == old(scope)@.len(),
            final(scope)@[old(scope)@.len() as int] matches NodeData::Array(hs) && hs@
                == self.inner.pending@,
    {
        let arr = self.inner.end(scope);
        let mut pair: Vec<(String, usize)> = Vec::new();
        pair.push((self.variant, arr));
        scope.allocate(NodeData::Object(pair))
    }
}

impl VariantSerializer<ObjectSerializer> {
    /// Encodes one named payload field of a struct variant.
    pub fn serialize_field(&mut self, scope: &mut Scope, key: &str, v: &Value) -> (r: Result<
        (),
        Error,
    >)
        requires
            old(scope).wf(),
        ensures
            final(scope).wf(),
            arena_extends(old(scope)@, final(scope)@),
            final(self).variant == old(self).variant,
            r is Ok <==> supported(*v),
            r is Ok ==> {
                &&& final(scope)@.len() > 0
                &&& final(self).inner.pending@.len() == old(self).inner.pending@.len() + 1
                &&& final(self).inner.pending@.drop_last() == old(self).inner.pending@
                &&& final(self).inner.pending@.last().0@ == key@
                &&& final(self).inner.pending@.last().1 == (final(scope)@.len() - 1) as usize
                &&& encodes(final(scope)@, final(scope)@.len() - 1, *v)
            },
            r matches Err(e) ==> final(self).inner.pending@ == old(self).inner.pending@ && e
                == Error::Unsupported(unsup_of(*v)->Some_0),
    {
        self.inner.serialize_field(scope, key, v)
    }

    /// Finalizes the payload object, then wraps it under the variant name in
    /// a single-key Object node.
    pub fn end(self, scope: &mut Scope) -> (h: usize)
        requires
            old(scope).wf(),
            forall|j: int|
                0 <= j < self.inner.pending@.len() ==> (self.inner.pending@[j].1 as int) < old(
                    scope,
                )@.len(),
        ensures
            final(scope).wf(),
            final(scope)@.len() == old(scope)@.len() + 2,
            arena_extends(old(scope)@, final(scope)@),
            h == old(scope)@.len() + 1,
            final(scope)@[h as int] matches NodeData::Object(ps) && ps@.len() == 1
                && ps@[0].0@ == self.variant@ && ps@[0].1 == old(scope)@.len(),
            final(scope)@[old(scope)@.len() as int] matches NodeData::Object(qs) && qs@
                == self.inner.pending@,
    {
        let obj = self.inner.end(scope);
        let mut pair: Vec<(String, usize)> = Vec::new();
        pair.push((self.variant, obj));
        scope.allocate(NodeData::Object(pair))
    }
}

/// The value encoder as an object: one serializer per typed value handed to
/// the central dispatch.
pub struct Serializer {
    _private: (),
}

impl Serializer {
    /// A fresh value serializer.
    pub fn new() -> (s: Serializer) {
        Serializer { _private: () }
    }

    /// Encodes one typed value; the contract is that of [`encode`].
    pub fn serialize(&self, scope: &mut Scope, v: &Value) -> (r: Result<usize, Error>)
        requires
            old(scope).wf(),
        ensures
            final(scope).wf(),
            arena_extends(old(scope)@, final(scope)@),
            r is Ok <==> supported(*v),
            r matches Ok(h) ==> h + 1 == final(scope)@.len() && encodes(
                final(scope)@,
                h as int,
                *v,
            ),
            r matches Err(e) ==> e == Error::Unsupported(unsup_of(*v)->Some_0),
    {
        encode(scope, v)
    }
}

} // verus!
