//! The fluent update builder: `Update` owns the document being built;
//! `UpdateField` and `UpdateArray` are cursors that target one field or
//! one array and append modification operators to the document. Every
//! operation consumes its cursor and returns a new one, so the document
//! has a single owner throughout.
use vstd::prelude::*;

verus! {

use crate::value::{child_obj, seq_models, all_wf, Array, Json, Model, Number, Integral, Object};

/// `m` with `v` written at `field` within the category object at `cat`:
/// the category object is fetched or created and `field` is bound in it,
/// overwriting any previous binding of that field.
pub open spec fn with_modifier(
    m: Map<Seq<char>, Model>,
    cat: Seq<char>,
    field: Seq<char>,
    v: Model,
) -> Map<Seq<char>, Model> {
    m.insert(cat, Model::Obj(child_obj(m, cat).insert(field, v)))
}

/// The wrapped-form slot of array `arr` under category `cat`: the object
/// at `m[cat][arr]`, or empty if anything else stands there.
pub open spec fn slot_of(m: Map<Seq<char>, Model>, cat: Seq<char>, arr: Seq<char>) -> Map<
    Seq<char>,
    Model,
> {
    child_obj(child_obj(m, cat), arr)
}

/// `m` with the wrapped-form slot of array `arr` under category `cat`
/// replaced by `slot`. A non-object value at the slot is evicted: exactly
/// one representation survives once a wrapped-form operator is applied.
pub open spec fn with_slot(
    m: Map<Seq<char>, Model>,
    cat: Seq<char>,
    arr: Seq<char>,
    slot: Map<Seq<char>, Model>,
) -> Map<Seq<char>, Model> {
    m.insert(cat, Model::Obj(child_obj(m, cat).insert(arr, Model::Obj(slot))))
}

/// `slot` with an `$each` entry: an existing one is kept, else an empty
/// array is created for it.
pub open spec fn ensure_each(slot: Map<Seq<char>, Model>) -> Map<Seq<char>, Model> {
    if slot.contains_key("$each"@) {
        slot
    } else {
        slot.insert("$each"@, Model::Arr(Seq::empty()))
    }
}

/// Refilling a slot that was taken out of a document puts the document
/// in the same state as filling the slot directly.
proof fn lemma_slot_refill(m: Map<Seq<char>, Model>, cat: Seq<char>, a: Seq<char>, s: Map<Seq<char>, Model>)
    ensures
        with_slot(
            m.insert(cat, Model::Obj(child_obj(m, cat).remove(a))),
            cat,
            a,
            s,
        ) == with_slot(m, cat, a, s),
{
    let m1 = m.insert(cat, Model::Obj(child_obj(m, cat).remove(a)));
    assert(child_obj(m1, cat) =~= child_obj(m, cat).remove(a));
    assert(child_obj(m1, cat).insert(a, Model::Obj(s)) =~= child_obj(m, cat).insert(
        a,
        Model::Obj(s),
    ));
    assert(with_slot(m1, cat, a, s) =~= with_slot(m, cat, a, s));
}

/// The root builder: owns the document under construction.
pub struct Update {
    doc: Object,
}

/// A cursor over the document targeting the scalar field `field`.
pub struct UpdateField {
    doc: Object,
    field: String,
}

/// A cursor over the document targeting the array field `array`.
pub struct UpdateArray {
    doc: Object,
    array: String,
}

impl Update {
    /// The document built so far.
    pub closed spec fn model(self) -> Map<Seq<char>, Model> {
        self.doc.model()
    }

    pub closed spec fn wf(self) -> bool {
        self.doc.wf()
    }

    /// A builder over an empty document.
    pub fn new() -> (u: Update)
        ensures
            u.wf(),
            u.model() == Map::<Seq<char>, Model>::empty(),
    {
        Update { doc: Object::new() }
    }

    /// Target the scalar field `field`.
    pub fn field(self, field: &str) -> (r: UpdateField)
        requires
            self.wf(),
        ensures
            r.wf(),
            r.model() == self.model(),
            r.field_name() == field@,
    {
        UpdateField { doc: self.doc, field: field.to_owned() }
    }

    /// Target the array field `array`.
    pub fn array(self, array: &str) -> (r: UpdateArray)
        requires
            self.wf(),
        ensures
            r.wf(),
            r.model() == self.model(),
            r.array_name() == array@,
    {
        UpdateArray { doc: self.doc, array: array.to_owned() }
    }

    /// Mark the update as isolated: sets `"$isolated": 1` at the root.
    pub fn isolate(self) -> (r: Update)
        requires
            self.wf(),
        ensures
            r.wf(),
            r.model() == self.model().insert("$isolated"@, Model::I32(1)),
    {
        let mut doc = self.doc;
        doc.insert("$isolated", Json::I32(1));
        Update { doc }
    }

    /// Drop the isolation marker entirely: afterwards the key is absent.
    pub fn unisolate(self) -> (r: Update)
        requires
            self.wf(),
        ensures
            r.wf(),
            r.model() == self.model().remove("$isolated"@),
            !r.model().contains_key("$isolated"@),
    {
        let mut doc = self.doc;
        doc.remove("$isolated");
        Update { doc }
    }

    /// The finished document.
    pub fn document(&self) -> (d: &Object)
        ensures
            d.model() == self.model(),
            self.wf() ==> d.wf(),
    {
        &self.doc
    }
}

impl UpdateField {
    /// The document built so far.
    pub closed spec fn model(self) -> Map<Seq<char>, Model> {
        self.doc.model()
    }

    /// The field this cursor targets.
    pub closed spec fn field_name(self) -> Seq<char> {
        self.field@
    }

    pub closed spec fn wf(self) -> bool {
        self.doc.wf()
    }

    /// Write `value` at this field under the category object `category`.
    fn add_modifier(self, category: &str, value: Json) -> (r: Self)
        requires
            self.wf(),
            value.wf(),
        ensures
            r.wf(),
            r.field_name() == self.field_name(),
            r.model() == with_modifier(self.model(), category@, self.field_name(), value.model()),
    {
        let UpdateField { doc: mut doc, field } = self;
        let mut group: Object = doc.take_object(category);
        group.insert(field.as_str(), value);
        doc.insert(category, Json::Object(group));
        proof {
            assert(doc.model() =~= with_modifier(
                self.model(),
                category@,
                self.field_name(),
                value.model(),
            ));
        }
        UpdateField { doc, field }
    }

    /// Write `bits` under the two-level nest `"$bit" -> field -> op`.
    fn bit(self, op: &str, bits: Json) -> (r: Self)
        requires
            self.wf(),
            bits.wf(),
        ensures
            r.wf(),
            r.field_name() == self.field_name(),
            r.model() == with_slot(
                self.model(),
                "$bit"@,
                self.field_name(),
                slot_of(self.model(), "$bit"@, self.field_name()).insert(op@, bits.model()),
            ),
    {
        let UpdateField { doc: mut doc, field } = self;
        let mut outer: Object = doc.take_object("$bit");
        let mut inner: Object = outer.take_object(field.as_str());
        inner.insert(op, bits);
        outer.insert(field.as_str(), Json::Object(inner));
        doc.insert("$bit", Json::Object(outer));
        proof {
            let m = self.model();
            let f = self.field_name();
            assert(child_obj(m, "$bit"@).remove(f).insert(
                f,
                Model::Obj(slot_of(m, "$bit"@, f).insert(op@, bits.model())),
            ) =~= child_obj(m, "$bit"@).insert(
                f,
                Model::Obj(slot_of(m, "$bit"@, f).insert(op@, bits.model())),
            ));
            assert(doc.model() =~= with_slot(
                m,
                "$bit"@,
                f,
                slot_of(m, "$bit"@, f).insert(op@, bits.model()),
            ));
        }
        UpdateField { doc, field }
    }

    /// Add `"$inc": {field: amount}`.
    pub fn increment<N: Number>(self, amount: N) -> (r: Self)
        requires
            self.wf(),
        ensures
            r.wf(),
            r.field_name() == self.field_name(),
            r.model() == with_modifier(self.model(), "$inc"@, self.field_name(), amount.num_model()),
    {
        let v = amount.to_json_num();
        self.add_modifier("$inc", v)
    }

    /// Short form of `increment`.
    pub fn inc<N: Number>(self, amount: N) -> (r: Self)
        requires
            self.wf(),
        ensures
            r.wf(),
            r.field_name() == self.field_name(),
            r.model() == with_modifier(self.model(), "$inc"@, self.field_name(), amount.num_model()),
    {
        self.increment(amount)
    }

    /// Add `"$mul": {field: amount}`.
    pub fn multiply<N: Number>(self, amount: N) -> (r: Self)
        requires
            self.wf(),
        ensures
            r.wf(),
            r.field_name() == self.field_name(),
            r.model() == with_modifier(self.model(), "$mul"@, self.field_name(), amount.num_model()),
    {
        let v = amount.to_json_num();
        self.add_modifier("$mul", v)
    }

    /// Short form of `multiply`.
    pub fn mul<N: Number>(self, amount: N) -> (r: Self)
        requires
            self.wf(),
        ensures
            r.wf(),
            r.field_name() == self.field_name(),
            r.model() == with_modifier(self.model(), "$mul"@, self.field_name(), amount.num_model()),
    {
        self.multiply(amount)
    }

    /// Add `"$min": {field: value}`.
    pub fn min(self, value: Json) -> (r: Self)
        requires
            self.wf(),
            value.wf(),
        ensures
            r.wf(),
            r.field_name() == self.field_name(),
            r.model() == with_modifier(self.model(), "$min"@, self.field_name(), value.model()),
    {
        self.add_modifier("$min", value)
    }

    /// Add `"$max": {field: value}`.
    pub fn max(self, value: Json) -> (r: Self)
        requires
            self.wf(),
            value.wf(),
        ensures
            r.wf(),
            r.field_name() == self.field_name(),
            r.model() == with_modifier(self.model(), "$max"@, self.field_name(), value.model()),
    {
        self.add_modifier("$max", value)
    }

    /// Add `"$bit": {field: {"and": bits}}`.
    pub fn and<I: Integral>(self, bits: I) -> (r: Self)
        requires
            self.wf(),
        ensures
            r.wf(),
            r.field_name() == self.field_name(),
            r.model() == with_slot(
                self.model(),
                "$bit"@,
                self.field_name(),
                slot_of(self.model(), "$bit"@, self.field_name()).insert("and"@, bits.int_model()),
            ),
    {
        let v = bits.to_json_int();
        self.bit("and", v)
    }

    /// Add `"$bit": {field: {"or": bits}}`.
    pub fn or<I: Integral>(self, bits: I) -> (r: Self)
        requires
            self.wf(),
        ensures
            r.wf(),
            r.field_name() == self.field_name(),
            r.model() == with_slot(
                self.model(),
                "$bit"@,
                self.field_name(),
                slot_of(self.model(), "$bit"@, self.field_name()).insert("or"@, bits.int_model()),
            ),
    {
        let v = bits.to_json_int();
        self.bit("or", v)
    }

    /// Add `"$bit": {field: {"xor": bits}}`.
    pub fn xor<I: Integral>(self, bits: I) -> (r: Self)
        requires
            self.wf(),
        ensures
            r.wf(),
            r.field_name() == self.field_name(),
            r.model() == with_slot(
                self.model(),
                "$bit"@,
                self.field_name(),
                slot_of(self.model(), "$bit"@, self.field_name()).insert("xor"@, bits.int_model()),
            ),
    {
        let v = bits.to_json_int();
        self.bit("xor", v)
    }

    /// Add `"$set": {field: value}`.
    pub fn set(self, value: Json) -> (r: Self)
        requires
            self.wf(),
            value.wf(),
        ensures
            r.wf(),
            r.field_name() == self.field_name(),
            r.model() == with_modifier(self.model(), "$set"@, self.field_name(), value.model()),
    {
        self.add_modifier("$set", value)
    }

    /// Add `"$unset": {field: ""}`; the empty string is the sentinel the
    /// receiving store expects.
    pub fn unset(self) -> (r: Self)
        requires
            self.wf(),
        ensures
            r.wf(),
            r.field_name() == self.field_name(),
            r.model() == with_modifier(
                self.model(),
                "$unset"@,
                self.field_name(),
                Model::Str(Seq::empty()),
            ),
    {
        self.add_modifier("$unset", Json::Str(String::new()))
    }

    /// Add `"$rename": {field: name}`.
    pub fn rename(self, name: &str) -> (r: Self)
        requires
            self.wf(),
        ensures
            r.wf(),
            r.field_name() == self.field_name(),
            r.model() == with_modifier(self.model(), "$rename"@, self.field_name(), Model::Str(name@)),
    {
        let v = Json::Str(name.to_owned());
        self.add_modifier("$rename", v)
    }

    /// Add `"$setOnInsert": {field: value}`.
    pub fn set_on_insert(self, value: Json) -> (r: Self)
        requires
            self.wf(),
            value.wf(),
        ensures
            r.wf(),
            r.field_name() == self.field_name(),
            r.model() == with_modifier(
                self.model(),
                "$setOnInsert"@,
                self.field_name(),
                value.model(),
            ),
    {
        self.add_modifier("$setOnInsert", value)
    }

    /// Add `"$currentDate": {field: <date sentinel>}`. The sentinel is a
    /// fixed literal string that downstream consumers pattern-match.
    pub fn set_date_now(self) -> (r: Self)
        requires
            self.wf(),
        ensures
            r.wf(),
            r.field_name() == self.field_name(),
            r.model() == with_modifier(
                self.model(),
                "$currentDate"@,
                self.field_name(),
                Model::Str("{$type:\"date\"}"@),
            ),
    {
        let v = Json::Str("{$type:\"date\"}".to_owned());
        self.add_modifier("$currentDate", v)
    }

    /// Add `"$currentDate": {field: <timestamp sentinel>}`. The sentinel
    /// is a fixed literal string that downstream consumers pattern-match.
    pub fn set_timestamp_now(self) -> (r: Self)
        requires
            self.wf(),
        ensures
            r.wf(),
            r.field_name() == self.field_name(),
            r.model() == with_modifier(
                self.model(),
                "$currentDate"@,
                self.field_name(),
                Model::Str("{$type:\"timestamp\"}"@),
            ),
    {
        let v = Json::Str("{$type:\"timestamp\"}".to_owned());
        self.add_modifier("$currentDate", v)
    }

    /// Re-target the cursor at the scalar field `field`.
    pub fn field(self, field: &str) -> (r: UpdateField)
        requires
            self.wf(),
        ensures
            r.wf(),
            r.model() == self.model(),
            r.field_name() == field@,
    {
        UpdateField { doc: self.doc, field: field.to_owned() }
    }

    /// Re-target the cursor at the array field `array`.
    pub fn array(self, array: &str) -> (r: UpdateArray)
        requires
            self.wf(),
        ensures
            r.wf(),
            r.model() == self.model(),
            r.array_name() == array@,
    {
        UpdateArray { doc: self.doc, array: array.to_owned() }
    }

    /// Give the document back to the root builder.
    pub fn done(self) -> (u: Update)
        requires
            self.wf(),
        ensures
            u.wf(),
            u.model() == self.model(),
    {
        Update { doc: self.doc }
    }

    /// The document built so far.
    pub fn document(&self) -> (d: &Object)
        ensures
            d.model() == self.model(),
            self.wf() ==> d.wf(),
    {
        &self.doc
    }
}

impl UpdateArray {
    /// The document built so far.
    pub closed spec fn model(self) -> Map<Seq<char>, Model> {
        self.doc.model()
    }

    /// The array field this cursor targets.
    pub closed spec fn array_name(self) -> Seq<char> {
        self.array@
    }

    pub closed spec fn wf(self) -> bool {
        self.doc.wf()
    }

    /// Write `value` at this array's name under the category object
    /// `category` (the bare, unwrapped form).
    fn add_modifier(self, category: &str, value: Json) -> (r: Self)
        requires
            self.wf(),
            value.wf(),
        ensures
            r.wf(),
            r.array_name() == self.array_name(),
            r.model() == with_modifier(self.model(), category@, self.array_name(), value.model()),
    {
        let UpdateArray { doc: mut doc, array } = self;
        let mut group: Object = doc.take_object(category);
        group.insert(array.as_str(), value);
        doc.insert(category, Json::Object(group));
        proof {
            assert(doc.model() =~= with_modifier(
                self.model(),
                category@,
                self.array_name(),
                value.model(),
            ));
        }
        UpdateArray { doc, array }
    }

    /// Replace the wrapped-form slot of this array under `category` by
    /// `slot`, evicting any bare value stored there.
    fn put_slot(self, category: &str, slot: Object) -> (r: Self)
        requires
            self.wf(),
            slot.wf(),
        ensures
            r.wf(),
            r.array_name() == self.array_name(),
            r.model() == with_slot(self.model(), category@, self.array_name(), slot.model()),
    {
        let UpdateArray { doc: mut doc, array } = self;
        let mut outer: Object = doc.take_object(category);
        outer.insert(array.as_str(), Json::Object(slot));
        doc.insert(category, Json::Object(outer));
        proof {
            assert(child_obj(self.model(), category@).remove(self.array_name()).insert(
                self.array_name(),
                Model::Obj(slot.model()),
            ) =~= child_obj(self.model(), category@).insert(
                self.array_name(),
                Model::Obj(slot.model()),
            ));
            assert(doc.model() =~= with_slot(
                self.model(),
                category@,
                self.array_name(),
                slot.model(),
            ));
        }
        UpdateArray { doc, array }
    }

    /// Take the wrapped-form slot of this array under `category` out of
    /// the document, evicting any bare value stored there.
    fn take_slot(&mut self, category: &str) -> (slot: Object)
        requires
            old(self).wf(),
        ensures
            final(self).wf(),
            final(self).array_name() == old(self).array_name(),
            slot.wf(),
            slot.model() == slot_of(old(self).model(), category@, old(self).array_name()),
            final(self).model() == old(self).model().insert(
                category@,
                Model::Obj(
                    child_obj(old(self).model(), category@).remove(old(self).array_name()),
                ),
            ),
    {
        let mut outer: Object = self.doc.take_object(category);
        let slot: Object = outer.take_object(self.array.as_str());
        self.doc.insert(category, Json::Object(outer));
        proof {
            let m = old(self).model();
            let a = old(self).array_name();
            assert(self.doc.model() =~= m.insert(
                category@,
                Model::Obj(child_obj(m, category@).remove(a)),
            ));
        }
        slot
    }

    /// Add `"$push": {array: value}` (bare single-value form).
    pub fn push(self, value: Json) -> (r: Self)
        requires
            self.wf(),
            value.wf(),
        ensures
            r.wf(),
            r.array_name() == self.array_name(),
            r.model() == with_modifier(self.model(), "$push"@, self.array_name(), value.model()),
    {
        self.add_modifier("$push", value)
    }

    /// Add `"$push": {array: {"$each": values}}` (wrapped form), in the
    /// given order, keeping every other entry of the slot.
    pub fn push_all(self, values: Array) -> (r: Self)
        requires
            self.wf(),
            all_wf(values@),
        ensures
            r.wf(),
            r.array_name() == self.array_name(),
            r.model() == with_slot(
                self.model(),
                "$push"@,
                self.array_name(),
                slot_of(self.model(), "$push"@, self.array_name()).insert(
                    "$each"@,
                    Model::Arr(seq_models(values@)),
                ),
            ),
    {
        let ghost m = self.model();
        let ghost a = self.array_name();
        let mut this = self;
        let mut slot: Object = this.take_slot("$push");
        slot.insert("$each", Json::Array(values));
        let ghost sm = slot.model();
        let r = this.put_slot("$push", slot);
        proof {
            lemma_slot_refill(m, "$push"@, a, sm);
        }
        r
    }

    /// Add `"$push": {array: {"$each": [value], "$position": position}}`:
    /// a position always forces the wrapped each-plus-position form, even
    /// for a single value.
    pub fn push_at(self, value: Json, position: u32) -> (r: Self)
        requires
            self.wf(),
            value.wf(),
        ensures
            r.wf(),
            r.array_name() == self.array_name(),
            r.model() == with_slot(
                self.model(),
                "$push"@,
                self.array_name(),
                slot_of(self.model(), "$push"@, self.array_name()).insert(
                    "$each"@,
                    Model::Arr(Seq::<Model>::empty().push(value.model())),
                ).insert("$position"@, Model::U32(position)),
            ),
    {
        let mut values: Array = Vec::new();
        let ghost v = value.model();
        values.push(value);
        proof {
            reveal_with_fuel(seq_models, 2);
            assert(values@.drop_last() =~= Seq::<Json>::empty());
            assert(seq_models(values@) =~= Seq::<Model>::empty().push(v));
        }
        self.push_all_at(values, position)
    }

    /// Add `"$push": {array: {"$each": values, "$position": position}}`.
    pub fn push_all_at(self, values: Array, position: u32) -> (r: Self)
        requires
            self.wf(),
            all_wf(values@),
        ensures
            r.wf(),
            r.array_name() == self.array_name(),
            r.model() == with_slot(
                self.model(),
                "$push"@,
                self.array_name(),
                slot_of(self.model(), "$push"@, self.array_name()).insert(
                    "$each"@,
                    Model::Arr(seq_models(values@)),
                ).insert("$position"@, Model::U32(position)),
            ),
    {
        let ghost m = self.model();
        let ghost a = self.array_name();
        let mut this = self;
        let mut slot: Object = this.take_slot("$push");
        slot.insert("$each", Json::Array(values));
        slot.insert("$position", Json::U32(position));
        let ghost sm = slot.model();
        let r = this.put_slot("$push", slot);
        proof {
            lemma_slot_refill(m, "$push"@, a, sm);
        }
        r
    }

    /// Add `"$slice": max` to the wrapped-form slot, creating an empty
    /// `"$each"` array there if none exists yet.
    pub fn slice(self, max: u32) -> (r: Self)
        requires
            self.wf(),
        ensures
            r.wf(),
            r.array_name() == self.array_name(),
            r.model() == with_slot(
                self.model(),
                "$push"@,
                self.array_name(),
                ensure_each(slot_of(self.model(), "$push"@, self.array_name())).insert(
                    "$slice"@,
                    Model::U32(max),
                ),
            ),
    {
        let ghost m = self.model();
        let ghost a = self.array_name();
        let mut this = self;
        let mut slot: Object = this.take_slot("$push");
        slot.insert_if_absent("$each", Json::Array(Vec::new()));
        slot.insert("$slice", Json::U32(max));
        let ghost sm = slot.model();
        let r = this.put_slot("$push", slot);
        proof {
            lemma_slot_refill(m, "$push"@, a, sm);
        }
        r
    }

    /// Add `"$sort"` to the wrapped-form slot: a bare direction for
    /// whole-element sorting, or a one-entry object for field-keyed
    /// sorting; an empty `"$each"` array is created if none exists yet.
    fn sort_array(self, direction: i32, field: Option<&str>) -> (r: Self)
        requires
            self.wf(),
        ensures
            r.wf(),
            r.array_name() == self.array_name(),
            r.model() == with_slot(
                self.model(),
                "$push"@,
                self.array_name(),
                ensure_each(slot_of(self.model(), "$push"@, self.array_name())).insert(
                    "$sort"@,
                    match field {
                        Option::Some(f) => Model::Obj(
                            Map::<Seq<char>, Model>::empty().insert(f@, Model::I32(direction)),
                        ),
                        Option::None => Model::I32(direction),
                    },
                ),
            ),
    {
        let sort_val: Json = match field {
            Option::Some(f) => {
                let mut by_field = Object::new();
                by_field.insert(f, Json::I32(direction));
                Json::Object(by_field)
            },
            Option::None => Json::I32(direction),
        };
        let ghost m = self.model();
        let ghost a = self.array_name();
        let mut this = self;
        let mut slot: Object = this.take_slot("$push");
        slot.insert_if_absent("$each", Json::Array(Vec::new()));
        slot.insert("$sort", sort_val);
        let ghost sm = slot.model();
        let r = this.put_slot("$push", slot);
        proof {
            lemma_slot_refill(m, "$push"@, a, sm);
        }
        r
    }

    /// Sort the pushed elements in ascending order.
    pub fn sort(self) -> (r: Self)
        requires
            self.wf(),
        ensures
            r.wf(),
            r.array_name() == self.array_name(),
            r.model() == with_slot(
                self.model(),
                "$push"@,
                self.array_name(),
                ensure_each(slot_of(self.model(), "$push"@, self.array_name())).insert(
                    "$sort"@,
                    Model::I32(1i32),
                ),
            ),
    {
        self.sort_array(1, Option::None)
    }

    /// Sort the pushed elements in descending order.
    pub fn rev_sort(self) -> (r: Self)
        requires
            self.wf(),
        ensures
            r.wf(),
            r.array_name() == self.array_name(),
            r.model() == with_slot(
                self.model(),
                "$push"@,
                self.array_name(),
                ensure_each(slot_of(self.model(), "$push"@, self.array_name())).insert(
                    "$sort"@,
                    Model::I32(-1i32),
                ),
            ),
    {
        self.sort_array(-1, Option::None)
    }

    /// Sort the pushed elements ascending by the given element field.
    pub fn sort_by(self, field: &str) -> (r: Self)
        requires
            self.wf(),
        ensures
            r.wf(),
            r.array_name() == self.array_name(),
            r.model() == with_slot(
                self.model(),
                "$push"@,
                self.array_name(),
                ensure_each(slot_of(self.model(), "$push"@, self.array_name())).insert(
                    "$sort"@,
                    Model::Obj(Map::<Seq<char>, Model>::empty().insert(field@, Model::I32(1i32))),
                ),
            ),
    {
        self.sort_array(1, Option::Some(field))
    }

    /// Sort the pushed elements descending by the given element field.
    pub fn rev_sort_by(self, field: &str) -> (r: Self)
        requires
            self.wf(),
        ensures
            r.wf(),
            r.array_name() == self.array_name(),
            r.model() == with_slot(
                self.model(),
                "$push"@,
                self.array_name(),
                ensure_each(slot_of(self.model(), "$push"@, self.array_name())).insert(
                    "$sort"@,
                    Model::Obj(Map::<Seq<char>, Model>::empty().insert(field@, Model::I32(-1i32))),
                ),
            ),
    {
        self.sort_array(-1, Option::Some(field))
    }

    /// Add `"$addToSet": {array: {"$each": values}}` (wrapped form).
    pub fn add_all_to_set(self, values: Array) -> (r: Self)
        requires
            self.wf(),
            all_wf(values@),
        ensures
            r.wf(),
            r.array_name() == self.array_name(),
            r.model() == with_slot(
                self.model(),
                "$addToSet"@,
                self.array_name(),
                slot_of(self.model(), "$addToSet"@, self.array_name()).insert(
                    "$each"@,
                    Model::Arr(seq_models(values@)),
                ),
            ),
    {
        let ghost m = self.model();
        let ghost a = self.array_name();
        let mut this = self;
        let mut slot: Object = this.take_slot("$addToSet");
        slot.insert("$each", Json::Array(values));
        let ghost sm = slot.model();
        let r = this.put_slot("$addToSet", slot);
        proof {
            lemma_slot_refill(m, "$addToSet"@, a, sm);
        }
        r
    }

    /// Add `"$pull": {array: value}`.
    pub fn pull(self, value: Json) -> (r: Self)
        requires
            self.wf(),
            value.wf(),
        ensures
            r.wf(),
            r.array_name() == self.array_name(),
            r.model() == with_modifier(self.model(), "$pull"@, self.array_name(), value.model()),
    {
        self.add_modifier("$pull", value)
    }

    /// Add `"$pullAll": {array: values}`.
    pub fn pull_all(self, values: Array) -> (r: Self)
        requires
            self.wf(),
            all_wf(values@),
        ensures
            r.wf(),
            r.array_name() == self.array_name(),
            r.model() == with_modifier(
                self.model(),
                "$pullAll"@,
                self.array_name(),
                Model::Arr(seq_models(values@)),
            ),
    {
        self.add_modifier("$pullAll", Json::Array(values))
    }

    /// Add `"$pop": {array: -1}`: remove the array's first element.
    pub fn pop_front(self) -> (r: Self)
        requires
            self.wf(),
        ensures
            r.wf(),
            r.array_name() == self.array_name(),
            r.model() == with_modifier(self.model(), "$pop"@, self.array_name(), Model::I32(-1i32)),
    {
        self.add_modifier("$pop", Json::I32(-1))
    }

    /// Add `"$pop": {array: 1}`: remove the array's last element.
    pub fn pop_back(self) -> (r: Self)
        requires
            self.wf(),
        ensures
            r.wf(),
            r.array_name() == self.array_name(),
            r.model() == with_modifier(self.model(), "$pop"@, self.array_name(), Model::I32(1i32)),
    {
        self.add_modifier("$pop", Json::I32(1))
    }

    /// Add `"$addToSet": {array: value}` (bare single-value form).
    pub fn add_to_set(self, value: Json) -> (r: Self)
        requires
            self.wf(),
            value.wf(),
        ensures
            r.wf(),
            r.array_name() == self.array_name(),
            r.model() == with_modifier(self.model(), "$addToSet"@, self.array_name(), value.model()),
    {
        self.add_modifier("$addToSet", value)
    }

    /// Re-target the cursor at the scalar field `field`.
    pub fn field(self, field: &str) -> (r: UpdateField)
        requires
            self.wf(),
        ensures
            r.wf(),
            r.model() == self.model(),
            r.field_name() == field@,
    {
        UpdateField { doc: self.doc, field: field.to_owned() }
    }

    /// Re-target the cursor at the array field `array`.
    pub fn array(self, array: &str) -> (r: UpdateArray)
        requires
            self.wf(),
        ensures
            r.wf(),
            r.model() == self.model(),
            r.array_name() == array@,
    {
        UpdateArray { doc: self.doc, array: array.to_owned() }
    }

    /// Give the document back to the root builder.
    pub fn done(self) -> (u: Update)
        requires
            self.wf(),
        ensures
            u.wf(),
            u.model() == self.model(),
    {
        Update { doc: self.doc }
    }

    /// The document built so far.
    pub fn document(&self) -> (d: &Object)
        ensures
            d.model() == self.model(),
            self.wf() ==> d.wf(),
    {
        &self.doc
    }
}

} // verus!
