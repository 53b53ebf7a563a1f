//! General laws of the document model and the merge engine, stated over
//! the same spec functions the operations' contracts use.
use vstd::prelude::*;

verus! {

use crate::value::{child_obj, Json, Model};
use crate::upsert::upserted;
use crate::update::{with_modifier, with_slot, slot_of};

/// Wrapping a signed 32-bit integer in its typed variant and reading it
/// back yields the original value.
pub proof fn lemma_round_trip_i32(n: i32, v: Json)
    requires
        v.model() == Model::I32(n),
    ensures
        v.spec_as_i32() == Option::Some(n),
{
}

/// Wrapping a signed 64-bit integer in its typed variant and reading it
/// back yields the original value.
pub proof fn lemma_round_trip_i64(n: i64, v: Json)
    requires
        v.model() == Model::I64(n),
    ensures
        v.spec_as_i64() == Option::Some(n),
{
}

/// Wrapping an unsigned 32-bit integer in its typed variant and reading
/// it back yields the original value.
pub proof fn lemma_round_trip_u32(n: u32, v: Json)
    requires
        v.model() == Model::U32(n),
    ensures
        v.spec_as_u32() == Option::Some(n),
{
}

/// Wrapping an unsigned 64-bit integer in its typed variant and reading
/// it back yields the original value.
pub proof fn lemma_round_trip_u64(n: u64, v: Json)
    requires
        v.model() == Model::U64(n),
    ensures
        v.spec_as_u64() == Option::Some(n),
{
}

/// Wrapping a floating-point bit pattern in its typed variant and reading
/// it back yields the original bits.
pub proof fn lemma_round_trip_f64_bits(n: u64, v: Json)
    requires
        v.model() == Model::F64Bits(n),
    ensures
        v.spec_as_f64_bits() == Option::Some(n),
{
}

/// Wrapping a boolean in its typed variant and reading it back yields the
/// original value.
pub proof fn lemma_round_trip_bool(b: bool, v: Json)
    requires
        v.model() == Model::Bool(b),
    ensures
        v.spec_as_bool() == Option::Some(b),
{
}

/// Wrapping a string in its typed variant and reading it back yields the
/// original characters.
pub proof fn lemma_round_trip_str(s: Seq<char>, v: Json)
    requires
        v.model() == Model::Str(s),
    ensures
        v.spec_as_str() == Option::Some(s),
{
}

/// Fetch-or-create of a nested object is idempotent: a second call with
/// the same key changes nothing.
pub proof fn lemma_upsert_idempotent(m: Map<Seq<char>, Model>, k: Seq<char>)
    ensures
        upserted(upserted(m, k), k) == upserted(m, k),
{
}

/// Once a key holds an object, fetch-or-create leaves the document as it
/// is, so writes made into that object remain visible through later
/// calls.
pub proof fn lemma_upsert_keeps_object(m: Map<Seq<char>, Model>, k: Seq<char>)
    requires
        m.contains_key(k),
        m[k] is Obj,
    ensures
        upserted(m, k) == m,
{
}

/// Fetch-or-create on a key holding a non-object value discards that
/// value: the key ends up holding an empty object.
pub proof fn lemma_upsert_discards_value(m: Map<Seq<char>, Model>, k: Seq<char>)
    requires
        m.contains_key(k),
        !(m[k] is Obj),
    ensures
        upserted(m, k).contains_key(k),
        upserted(m, k)[k] == Model::Obj(Map::<Seq<char>, Model>::empty()),
{
}

/// Writing a modifier twice at the same category and field keeps only the
/// second value: last write wins per field name, never accumulation.
pub proof fn lemma_modifier_last_write_wins(
    m: Map<Seq<char>, Model>,
    cat: Seq<char>,
    field: Seq<char>,
    v1: Model,
    v2: Model,
)
    ensures
        with_modifier(with_modifier(m, cat, field, v1), cat, field, v2) == with_modifier(
            m,
            cat,
            field,
            v2,
        ),
{
    let c = child_obj(m, cat);
    assert(c.insert(field, v1).insert(field, v2) =~= c.insert(field, v2));
    assert(with_modifier(with_modifier(m, cat, field, v1), cat, field, v2) =~= with_modifier(
        m,
        cat,
        field,
        v2,
    ));
}

/// A modifier written at a field is read back unchanged from the category
/// object, so distinct fields accumulate side by side.
pub proof fn lemma_modifier_read_back(
    m: Map<Seq<char>, Model>,
    cat: Seq<char>,
    field: Seq<char>,
    v: Model,
)
    ensures
        with_modifier(m, cat, field, v).contains_key(cat),
        with_modifier(m, cat, field, v)[cat] == Model::Obj(child_obj(m, cat).insert(field, v)),
{
}

/// The wrapped-form slot written by an array operation is read back
/// exactly, entry for entry, in the order it was given.
pub proof fn lemma_slot_read_back(
    m: Map<Seq<char>, Model>,
    cat: Seq<char>,
    arr: Seq<char>,
    s: Map<Seq<char>, Model>,
)
    ensures
        slot_of(with_slot(m, cat, arr, s), cat, arr) == s,
{
}

/// Dropping the isolation marker right after setting it leaves the
/// document without the marker, whatever stood there before.
pub proof fn lemma_unisolate_after_isolate(m: Map<Seq<char>, Model>)
    ensures
        m.insert("$isolated"@, Model::I32(1i32)).remove("$isolated"@) == m.remove("$isolated"@),
        !m.insert("$isolated"@, Model::I32(1i32)).remove("$isolated"@).contains_key("$isolated"@),
{
    assert(m.insert("$isolated"@, Model::I32(1i32)).remove("$isolated"@) =~= m.remove(
        "$isolated"@,
    ));
}

} // verus!
