//! A bidirectional codec between a statically typed host data model and the
//! dynamic value tree of an embedded scripting engine.
//!
//! The dynamic tree is held in an allocation [`Scope`](scope::Scope): an arena
//! of nodes addressed by integer handles, where every node's children precede
//! it in the arena.  The encoder walks a typed [`Value`](value::Value) and
//! allocates nodes; the decoder walks a node against a requested
//! [`Shape`](value::Shape) and rebuilds a typed value.

mod de;
mod laws;
mod number;
mod ops;
mod runtime;
mod scope;
mod ser;
mod value;

pub use number::{nearest_double, number_from_i64, number_from_u64};
pub use ops::{add, ascii_upper_pair, promote, spec_sum, sum, upper_of, AddArgs, Person};
pub use laws::{
    lemma_map_decode_unsupported, lemma_map_encode_unsupported, lemma_round_trip_bool,
    lemma_round_trip_i16, lemma_round_trip_i32, lemma_round_trip_i64, lemma_round_trip_i8,
    lemma_round_trip_str, lemma_round_trip_u16, lemma_round_trip_u32, lemma_round_trip_u64,
    lemma_round_trip_u8, lemma_round_trip_unit_variant,
};
pub use runtime::BasicRuntime;
pub use scope::{arena_wf, obj_lookup, NodeData, NodeKind, Scope};
pub use de::{
    dec_res, decode_at, decodes, find_variant, from_v8, from_v8_cached, missing_match,
    missing_res, sat_cast, Deserializer, KeyCache,
};
pub use ser::{
    arena_extends, encode, encodes, to_v8, v8_struct_key, ArraySerializer, ObjectSerializer,
    Serializer, VariantSerializer,
};
pub use value::{supported, unsup_of, Error, Payload, Shape, ShapeKind, Value, VariantForm};
