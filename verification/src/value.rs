//! The document value model: a recursive tagged union and the ordered
//! object mapping, with its mathematical model.
use vstd::prelude::*;

verus! {

use crate::order::{key_lt, lemma_key_lt_neq, lemma_key_lt_transitive, compare_keys, KeyOrder};

/// A sequence of document values. Arrays are owned outright: once a
/// value is embedded in a document, no alias held by the caller can
/// change it afterwards.
pub type Array = Vec<Json>;

/// A document value: a closed tagged union over the scalar kinds, arrays
/// and nested objects. The floating-point kind carries the IEEE 754 bit
/// pattern of the number; converting an `f64` to and from its bits is left
/// to unverified callers.
pub enum Json {
    Null,
    Bool(bool),
    I32(i32),
    I64(i64),
    U32(u32),
    U64(u64),
    F64Bits(u64),
    Str(String),
    Array(Array),
    Object(Object),
}

/// One key-value entry of an `Object`.
struct Entry {
    key: String,
    value: Json,
}

/// An ordered-by-key mapping from strings to document values. Keys are
/// unique; the entries are kept sorted by the keys' UTF-8 bytes, so
/// iteration order is key-lexicographic, never insertion order.
pub struct Object {
    entries: Vec<Entry>,
}

/// The mathematical value of a `Json`: strings become character
/// sequences, arrays become sequences and objects become maps.
#[verifier::ext_equal]
pub enum Model {
    Null,
    Bool(bool),
    I32(i32),
    I64(i64),
    U32(u32),
    U64(u64),
    F64Bits(u64),
    Str(Seq<char>),
    Arr(Seq<Model>),
    Obj(Map<Seq<char>, Model>),
}

/// The key/value models of a sequence of entries, in representation order.
spec fn entry_pairs(es: Seq<Entry>) -> Seq<(Seq<char>, Model)>
    decreases es,
{
    if es.len() == 0 {
        Seq::empty()
    } else {
        entry_pairs(es.drop_last()).push((es.last().key@, es.last().value.model()))
    }
}

/// The models of a sequence of values, in order.
pub open spec fn seq_models(s: Seq<Json>) -> Seq<Model>
    decreases s,
{
    if s.len() == 0 {
        Seq::empty()
    } else {
        seq_models(s.drop_last()).push(s.last().model())
    }
}

proof fn lemma_entry_pairs_at(es: Seq<Entry>, i: int)
    requires
        0 <= i < es.len(),
    ensures
        entry_pairs(es).len() == es.len(),
        entry_pairs(es)[i] == (es[i].key@, es[i].value.model()),
    decreases es.len(),
{
    if es.len() > 0 && i < es.len() - 1 {
        lemma_entry_pairs_at(es.drop_last(), i);
    } else if es.len() > 0 {
        lemma_entry_pairs_len(es.drop_last());
    }
}

proof fn lemma_entry_pairs_len(es: Seq<Entry>)
    ensures
        entry_pairs(es).len() == es.len(),
    decreases es.len(),
{
    if es.len() > 0 {
        lemma_entry_pairs_len(es.drop_last());
    }
}

/// `seq_models` maps the value model over the sequence, element by element.
pub proof fn lemma_seq_models_at(s: Seq<Json>, i: int)
    requires
        0 <= i < s.len(),
    ensures
        seq_models(s).len() == s.len(),
        seq_models(s)[i] == s[i].model(),
    decreases s.len(),
{
    if s.len() > 0 && i < s.len() - 1 {
        lemma_seq_models_at(s.drop_last(), i);
    } else if s.len() > 0 {
        lemma_seq_models_len(s.drop_last());
    }
}

/// `seq_models` keeps the sequence's length.
pub proof fn lemma_seq_models_len(s: Seq<Json>)
    ensures
        seq_models(s).len() == s.len(),
    decreases s.len(),
{
    if s.len() > 0 {
        lemma_seq_models_len(s.drop_last());
    }
}

impl Object {
    /// The mathematical value of this object: a map from keys to value
    /// models.
    pub closed spec fn model(self) -> Map<Seq<char>, Model>
        decreases self,
    {
        pairs_model(entry_pairs(self.entries@))
    }
}

impl Json {
    /// The mathematical value of this document value.
    pub open spec fn model(self) -> Model
        decreases self,
    {
        match self {
            Json::Null => Model::Null,
            Json::Bool(b) => Model::Bool(b),
            Json::I32(n) => Model::I32(n),
            Json::I64(n) => Model::I64(n),
            Json::U32(n) => Model::U32(n),
            Json::U64(n) => Model::U64(n),
            Json::F64Bits(n) => Model::F64Bits(n),
            Json::Str(s) => Model::Str(s@),
            Json::Array(a) => Model::Arr(seq_models(a@)),
            Json::Object(o) => Model::Obj(o.model()),
        }
    }

    /// Every nested object of this value satisfies the representation
    /// invariant.
    pub open spec fn wf(self) -> bool
        decreases self,
    {
        match self {
            Json::Array(a) => all_wf(a@),
            Json::Object(o) => o.wf(),
            _ => true,
        }
    }
}

impl Object {
    /// The entries as a sequence of key/value models, in representation
    /// order.
    pub closed spec fn pairs(self) -> Seq<(Seq<char>, Model)> {
        entry_pairs(self.entries@)
    }

    /// The keys in representation (key-lexicographic) order.
    pub open spec fn key_seq(self) -> Seq<Seq<char>> {
        Seq::new(self.pairs().len(), |i: int| self.pairs()[i].0)
    }

    /// Representation invariant: entries strictly sorted by key, and every
    /// nested value well-formed.
    pub closed spec fn wf(self) -> bool
        decreases self,
    {
        entries_sorted(self.entries@) && entries_values_wf(self.entries@)
    }
}

impl Object {
    /// The empty object.
    pub fn new() -> (o: Object)
        ensures
            o.wf(),
            o.model() == Map::<Seq<char>, Model>::empty(),
            o.pairs() == Seq::<(Seq<char>, Model)>::empty(),
    {
        let o = Object { entries: Vec::new() };
        proof {
            assert(entry_pairs(o.entries@) =~= Seq::<(Seq<char>, Model)>::empty());
            assert(pairs_model(entry_pairs(o.entries@)) =~= Map::<Seq<char>, Model>::empty());
        }
        o
    }

    /// How many keys the object holds.
    pub fn len(&self) -> (n: usize)
        ensures
            n == self.pairs().len(),
    {
        proof {
            lemma_entry_pairs_all(self.entries@);
        }
        self.entries.len()
    }

    /// The key at a position, in key-lexicographic order.
    pub fn key_at(&self, i: usize) -> (k: &String)
        requires
            i < self.pairs().len(),
        ensures
            k@ == self.key_seq()[i as int],
    {
        proof {
            lemma_entry_pairs_all(self.entries@);
        }
        &self.entries[i].key
    }

    /// The value at a position, in key-lexicographic order.
    pub fn value_at(&self, i: usize) -> (v: &Json)
        requires
            i < self.pairs().len(),
        ensures
            v.model() == self.pairs()[i as int].1,
    {
        proof {
            lemma_entry_pairs_all(self.entries@);
        }
        &self.entries[i].value
    }

    /// The position a key has or would take, and whether it is present.
    fn find(&self, key: &str) -> (r: (usize, bool))
        requires
            self.wf(),
        ensures
            r.0 <= self.entries@.len(),
            r.1 ==> r.0 < self.entries@.len() && self.entries@[r.0 as int].key@ == key@,
            !r.1 ==> forall|j: int|
                0 <= j < self.entries@.len() ==> (#[trigger] self.entries@[j].key@) != key@,
            forall|j: int| 0 <= j < r.0 ==> key_lt(#[trigger] self.entries@[j].key@, key@),
            !r.1 ==> forall|j: int|
                r.0 <= j < self.entries@.len() ==> key_lt(key@, #[trigger] self.entries@[j].key@),
    {
        let n: usize = self.entries.len();
        let mut i: usize = 0;
        while i < n
            invariant
                self.wf(),
                n == self.entries@.len(),
                0 <= i <= n,
                forall|j: int| 0 <= j < i ==> key_lt(#[trigger] self.entries@[j].key@, key@),
            decreases n - i,
        {
            match compare_keys(self.entries[i].key.as_str(), key) {
                KeyOrder::Less => {
                    i = i + 1;
                },
                KeyOrder::Equal => {
                    return (i, true);
                },
                KeyOrder::Greater => {
                    proof {
                        assert forall|j: int| i <= j < self.entries@.len() implies key_lt(
                            key@,
                            #[trigger] self.entries@[j].key@,
                        ) by {
                            if j > i {
                                lemma_key_lt_transitive(
                                    key@,
                                    self.entries@[i as int].key@,
                                    self.entries@[j].key@,
                                );
                            }
                        }
                        assert forall|j: int| 0 <= j < self.entries@.len() implies (
                        #[trigger] self.entries@[j].key@) != key@ by {
                            if j < i {
                                lemma_key_lt_neq(self.entries@[j].key@, key@);
                            } else {
                                lemma_key_lt_neq(key@, self.entries@[j].key@);
                            }
                        }
                    }
                    return (i, false);
                },
            }
        }
        proof {
            assert forall|j: int| 0 <= j < self.entries@.len() implies (
            #[trigger] self.entries@[j].key@) != key@ by {
                lemma_key_lt_neq(self.entries@[j].key@, key@);
            }
        }
        (i, false)
    }

    /// Look a key up.
    pub fn get<'a>(&'a self, key: &str) -> (r: Option<&'a Json>)
        requires
            self.wf(),
        ensures
            match r {
                Some(v) => self.model().contains_key(key@) && v.model() == self.model()[key@]
                    && v.wf(),
                None => !self.model().contains_key(key@),
            },
    {
        let (i, found) = self.find(key);
        proof {
            lemma_entry_pairs_all(self.entries@);
            lemma_sorted_unique(self.entries@);
            if found {
                lemma_pairs_model_at(entry_pairs(self.entries@), i as int);
            } else if self.model().contains_key(key@) {
                lemma_pairs_model_key(entry_pairs(self.entries@), key@);
            }
        }
        if found {
            Some(&self.entries[i].value)
        } else {
            None
        }
    }

    /// Bind a key to a value, overwriting any previous binding.
    pub fn insert(&mut self, key: &str, value: Json)
        requires
            old(self).wf(),
            value.wf(),
        ensures
            final(self).wf(),
            final(self).model() == old(self).model().insert(key@, value.model()),
    {
        let (i, found) = self.find(key);
        let ghost es0 = self.entries@;
        if found {
            proof {
                lemma_remove_entry(es0, i as int);
            }
            let _evicted = self.entries.remove(i);
            proof {
                let es1 = self.entries@;
                assert forall|j: int| i <= j < es1.len() implies key_lt(
                    key@,
                    #[trigger] es1[j].key@,
                ) by {
                    assert(es1[j] == es0[j + 1]);
                    assert(key_lt(es0[i as int].key@, es0[j + 1].key@));
                }
                assert forall|j: int| 0 <= j < i implies key_lt(#[trigger] es1[j].key@, key@) by {
                    assert(es1[j] == es0[j]);
                }
            }
        }
        let ghost es1 = self.entries@;
        let owned_key: String = key.to_owned();
        let e = Entry { key: owned_key, value };
        proof {
            lemma_insert_entry(es1, i as int, e);
        }
        self.entries.insert(i, e);
        proof {
            assert(self.model() =~= old(self).model().insert(key@, value.model()));
        }
    }

    /// Drop a key's binding, if any.
    pub fn remove(&mut self, key: &str)
        requires
            old(self).wf(),
        ensures
            final(self).wf(),
            final(self).model() == old(self).model().remove(key@),
    {
        let (i, found) = self.find(key);
        if found {
            proof {
                lemma_remove_entry(self.entries@, i as int);
            }
            let _evicted = self.entries.remove(i);
        } else {
            proof {
                lemma_entry_pairs_all(self.entries@);
                if self.model().contains_key(key@) {
                    lemma_pairs_model_key(entry_pairs(self.entries@), key@);
                }
                assert(self.model() =~= self.model().remove(key@));
            }
        }
    }

    /// Take the object a key holds, dropping the binding: the object there,
    /// or a fresh empty one if the key is absent or holds a non-object
    /// value (that value is discarded).
    pub fn take_object(&mut self, key: &str) -> (o: Object)
        requires
            old(self).wf(),
        ensures
            final(self).wf(),
            final(self).model() == old(self).model().remove(key@),
            o.wf(),
            o.model() == child_obj(old(self).model(), key@),
    {
        let (i, found) = self.find(key);
        proof {
            lemma_entry_pairs_all(self.entries@);
            lemma_sorted_unique(self.entries@);
            if found {
                lemma_pairs_model_at(entry_pairs(self.entries@), i as int);
                lemma_remove_entry(self.entries@, i as int);
            } else if self.model().contains_key(key@) {
                lemma_pairs_model_key(entry_pairs(self.entries@), key@);
            }
            if !found {
                assert(self.model() =~= self.model().remove(key@));
            }
        }
        if found {
            let e = self.entries.remove(i);
            match e.value {
                Json::Object(o) => o,
                _ => Object::new(),
            }
        } else {
            Object::new()
        }
    }

    /// Iteration order is deterministic and key-lexicographic: an earlier
    /// key comes strictly before a later one in the byte order of their
    /// UTF-8 encodings, never in insertion order.
    pub proof fn lemma_key_order(self, i: int, j: int)
        requires
            self.wf(),
            0 <= i < j < self.pairs().len(),
        ensures
            key_lt(self.key_seq()[i], self.key_seq()[j]),
    {
        lemma_entry_pairs_all(self.entries@);
    }

    /// Bind a key to a value only if the key is absent.
    pub fn insert_if_absent(&mut self, key: &str, value: Json)
        requires
            old(self).wf(),
            value.wf(),
        ensures
            final(self).wf(),
            final(self).model() == if old(self).model().contains_key(key@) {
                old(self).model()
            } else {
                old(self).model().insert(key@, value.model())
            },
    {
        let absent: bool = match self.get(key) {
            Option::Some(_) => false,
            Option::None => true,
        };
        if absent {
            self.insert(key, value);
        }
    }
}

/// Whether every value of a sequence is well-formed.
pub open spec fn all_wf(s: Seq<Json>) -> bool
    decreases s,
{
    forall|i: int| 0 <= i < s.len() ==> #[trigger] s[i].wf()
}

impl Json {
    /// The integer this value holds as a signed 32-bit number, if that is
    /// its kind.
    pub open spec fn spec_as_i32(self) -> Option<i32> {
        match self.model() {
            Model::I32(n) => Option::Some(n),
            _ => Option::None,
        }
    }

    pub fn as_i32(&self) -> (r: Option<i32>)
        ensures
            r == self.spec_as_i32(),
    {
        match self {
            Json::I32(n) => Option::Some(*n),
            _ => Option::None,
        }
    }

    /// The integer this value holds as a signed 64-bit number, if that is
    /// its kind.
    pub open spec fn spec_as_i64(self) -> Option<i64> {
        match self.model() {
            Model::I64(n) => Option::Some(n),
            _ => Option::None,
        }
    }

    pub fn as_i64(&self) -> (r: Option<i64>)
        ensures
            r == self.spec_as_i64(),
    {
        match self {
            Json::I64(n) => Option::Some(*n),
            _ => Option::None,
        }
    }

    /// The integer this value holds as an unsigned 32-bit number, if that
    /// is its kind.
    pub open spec fn spec_as_u32(self) -> Option<u32> {
        match self.model() {
            Model::U32(n) => Option::Some(n),
            _ => Option::None,
        }
    }

    pub fn as_u32(&self) -> (r: Option<u32>)
        ensures
            r == self.spec_as_u32(),
    {
        match self {
            Json::U32(n) => Option::Some(*n),
            _ => Option::None,
        }
    }

    /// The integer this value holds as an unsigned 64-bit number, if that
    /// is its kind.
    pub open spec fn spec_as_u64(self) -> Option<u64> {
        match self.model() {
            Model::U64(n) => Option::Some(n),
            _ => Option::None,
        }
    }

    pub fn as_u64(&self) -> (r: Option<u64>)
        ensures
            r == self.spec_as_u64(),
    {
        match self {
            Json::U64(n) => Option::Some(*n),
            _ => Option::None,
        }
    }

    /// The floating-point bit pattern this value holds, if that is its
    /// kind.
    pub open spec fn spec_as_f64_bits(self) -> Option<u64> {
        match self.model() {
            Model::F64Bits(n) => Option::Some(n),
            _ => Option::None,
        }
    }

    pub fn as_f64_bits(&self) -> (r: Option<u64>)
        ensures
            r == self.spec_as_f64_bits(),
    {
        match self {
            Json::F64Bits(n) => Option::Some(*n),
            _ => Option::None,
        }
    }

    /// The boolean this value holds, if that is its kind.
    pub open spec fn spec_as_bool(self) -> Option<bool> {
        match self.model() {
            Model::Bool(b) => Option::Some(b),
            _ => Option::None,
        }
    }

    pub fn as_bool(&self) -> (r: Option<bool>)
        ensures
            r == self.spec_as_bool(),
    {
        match self {
            Json::Bool(b) => Option::Some(*b),
            _ => Option::None,
        }
    }

    /// The string this value holds, if that is its kind.
    pub open spec fn spec_as_str(self) -> Option<Seq<char>> {
        match self.model() {
            Model::Str(s) => Option::Some(s),
            _ => Option::None,
        }
    }

    pub fn as_str(&self) -> (r: Option<&str>)
        ensures
            match r {
                Option::Some(t) => self.spec_as_str() == Option::Some(t@),
                Option::None => self.spec_as_str() is None,
            },
    {
        match self {
            Json::Str(s) => Option::Some(s.as_str()),
            _ => Option::None,
        }
    }

    /// Whether this value is the null value.
    pub fn is_null(&self) -> (r: bool)
        ensures
            r == (self.model() is Null),
    {
        match self {
            Json::Null => true,
            _ => false,
        }
    }

    /// Whether this value is an object.
    pub fn is_object(&self) -> (r: bool)
        ensures
            r == (self.model() is Obj),
    {
        match self {
            Json::Object(_) => true,
            _ => false,
        }
    }

    /// The object this value holds, if it is one.
    pub fn as_object(&self) -> (r: Option<&Object>)
        ensures
            match r {
                Option::Some(o) => self.model() == Model::Obj(o.model()) && (self.wf()
                    ==> o.wf()),
                Option::None => !(self.model() is Obj),
            },
    {
        match self {
            Json::Object(o) => Option::Some(o),
            _ => Option::None,
        }
    }

    /// The array this value holds, if it is one.
    pub fn as_array(&self) -> (r: Option<&Array>)
        ensures
            match r {
                Option::Some(a) => self.model() == Model::Arr(seq_models(a@)) && (self.wf()
                    ==> all_wf(a@)),
                Option::None => !(self.model() is Arr),
            },
    {
        match self {
            Json::Array(a) => Option::Some(a),
            _ => Option::None,
        }
    }
}

/// A native integer kind with its typed document variant.
pub trait Integral: Sized {
    /// The document model of this number.
    spec fn int_model(self) -> Model;

    /// Wrap this number in its typed variant; total and lossless.
    fn to_json_int(self) -> (v: Json)
        ensures
            v.model() == self.int_model(),
            v.wf(),
    ;
}

impl Integral for i32 {
    open spec fn int_model(self) -> Model {
        Model::I32(self)
    }

    fn to_json_int(self) -> (v: Json) {
        Json::I32(self)
    }
}

impl Integral for i64 {
    open spec fn int_model(self) -> Model {
        Model::I64(self)
    }

    fn to_json_int(self) -> (v: Json) {
        Json::I64(self)
    }
}

impl Integral for u32 {
    open spec fn int_model(self) -> Model {
        Model::U32(self)
    }

    fn to_json_int(self) -> (v: Json) {
        Json::U32(self)
    }
}

impl Integral for u64 {
    open spec fn int_model(self) -> Model {
        Model::U64(self)
    }

    fn to_json_int(self) -> (v: Json) {
        Json::U64(self)
    }
}

/// A native numeric kind with its typed document variant.
pub trait Number: Sized {
    /// The document model of this number.
    spec fn num_model(self) -> Model;

    /// Wrap this number in its typed variant; total and lossless.
    fn to_json_num(self) -> (v: Json)
        ensures
            v.model() == self.num_model(),
            v.wf(),
    ;
}

impl<I: Integral> Number for I {
    open spec fn num_model(self) -> Model {
        self.int_model()
    }

    fn to_json_num(self) -> (v: Json) {
        self.to_json_int()
    }
}

/// The object a key holds in a document model: its map if the key is bound
/// to an object, the empty map otherwise.
pub open spec fn child_obj(m: Map<Seq<char>, Model>, k: Seq<char>) -> Map<Seq<char>, Model> {
    if m.contains_key(k) && m[k] is Obj {
        m[k]->Obj_0
    } else {
        Map::empty()
    }
}

/// Whether the keys of `ps` are pairwise distinct.
pub open spec fn unique_keys(ps: Seq<(Seq<char>, Model)>) -> bool {
    forall|i: int, j: int| 0 <= i < j < ps.len() ==> (#[trigger] ps[i].0) != (#[trigger] ps[j].0)
}

/// The map described by a sequence of key/value pairs with distinct keys.
pub open spec fn pairs_model(ps: Seq<(Seq<char>, Model)>) -> Map<Seq<char>, Model> {
    Map::new(
        |k: Seq<char>| exists|i: int| 0 <= i < ps.len() && ps[i].0 == k,
        |k: Seq<char>| ps[choose|i: int| 0 <= i < ps.len() && ps[i].0 == k].1,
    )
}

/// With distinct keys, each pair of `ps` is an entry of its map.
pub proof fn lemma_pairs_model_at(ps: Seq<(Seq<char>, Model)>, i: int)
    requires
        unique_keys(ps),
        0 <= i < ps.len(),
    ensures
        pairs_model(ps).contains_key(ps[i].0),
        pairs_model(ps)[ps[i].0] == ps[i].1,
{
    let k = ps[i].0;
    let w = choose|j: int| 0 <= j < ps.len() && ps[j].0 == k;
    assert(0 <= w < ps.len() && ps[w].0 == k);
    assert(w == i);
}

/// A key of the map of `ps` names some pair of `ps`.
pub proof fn lemma_pairs_model_key(ps: Seq<(Seq<char>, Model)>, k: Seq<char>)
    requires
        pairs_model(ps).contains_key(k),
    ensures
        exists|i: int| 0 <= i < ps.len() && (#[trigger] ps[i].0) == k,
{
}

/// Inserting a pair with a fresh key anywhere inserts it into the map.
proof fn lemma_pairs_model_insert(ps: Seq<(Seq<char>, Model)>, i: int, k: Seq<char>, v: Model)
    requires
        unique_keys(ps),
        0 <= i <= ps.len(),
        forall|j: int| 0 <= j < ps.len() ==> (#[trigger] ps[j].0) != k,
    ensures
        unique_keys(ps.insert(i, (k, v))),
        pairs_model(ps.insert(i, (k, v))) =~= pairs_model(ps).insert(k, v),
{
    let qs = ps.insert(i, (k, v));
    ps.insert_ensures(i, (k, v));
    assert forall|a: int, b: int| 0 <= a < b < qs.len() implies (#[trigger] qs[a].0) != (
    #[trigger] qs[b].0) by {
        let pa = if a < i { ps[a] } else { ps[a - 1] };
        let pb = if b < i { ps[b] } else { ps[b - 1] };
        if a == i {
            assert(qs[b] == ps[b - 1]);
        } else if b == i {
            assert(qs[a] == ps[a]);
        } else {
            assert(qs[a] == pa && qs[b] == pb);
        }
    }
    assert forall|x: Seq<char>| #[trigger]
        pairs_model(qs).contains_key(x) <==> pairs_model(ps).insert(k, v).contains_key(x) by {
        if pairs_model(qs).contains_key(x) {
            let w = choose|j: int| 0 <= j < qs.len() && qs[j].0 == x;
            if w != i {
                let w0 = if w < i { w } else { w - 1 };
                assert(ps[w0].0 == x);
            }
        }
        if pairs_model(ps).contains_key(x) {
            let w = choose|j: int| 0 <= j < ps.len() && ps[j].0 == x;
            let w1 = if w < i { w } else { w + 1 };
            assert(qs[w1].0 == x);
        }
        if x == k {
            assert(qs[i].0 == x);
        }
    }
    assert forall|x: Seq<char>| pairs_model(qs).contains_key(x) implies #[trigger] pairs_model(qs)[x]
        == pairs_model(ps).insert(k, v)[x] by {
        let w = choose|j: int| 0 <= j < qs.len() && qs[j].0 == x;
        lemma_pairs_model_at(qs, w);
        if w == i {
            assert(pairs_model(qs)[x] == v);
        } else {
            let w0 = if w < i { w } else { w - 1 };
            assert(qs[w] == ps[w0]);
            lemma_pairs_model_at(ps, w0);
        }
    }
}

/// Entries strictly sorted by the byte order of their keys.
spec fn entries_sorted(es: Seq<Entry>) -> bool {
    forall|i: int, j: int|
        0 <= i < j < es.len() ==> key_lt(#[trigger] es[i].key@, #[trigger] es[j].key@)
}

/// Every value of the entries is well-formed.
spec fn entries_values_wf(es: Seq<Entry>) -> bool
    decreases es,
{
    forall|i: int| 0 <= i < es.len() ==> (#[trigger] es[i].value).wf()
}

/// The key/value models line up with the entries, position by position.
proof fn lemma_entry_pairs_all(es: Seq<Entry>)
    ensures
        entry_pairs(es).len() == es.len(),
        forall|i: int|
            0 <= i < es.len() ==> #[trigger] entry_pairs(es)[i] == (es[i].key@, es[i].value.model()),
{
    lemma_entry_pairs_len(es);
    assert forall|i: int| 0 <= i < es.len() implies #[trigger] entry_pairs(es)[i] == (
        es[i].key@,
        es[i].value.model(),
    ) by {
        lemma_entry_pairs_at(es, i);
    }
}

/// Strictly sorted entries have pairwise distinct keys.
proof fn lemma_sorted_unique(es: Seq<Entry>)
    requires
        entries_sorted(es),
    ensures
        unique_keys(entry_pairs(es)),
        forall|i: int, j: int| 0 <= i < j < es.len() ==> (#[trigger] es[i].key@) != (
        #[trigger] es[j].key@),
{
    lemma_entry_pairs_all(es);
    assert forall|i: int, j: int| 0 <= i < j < es.len() implies (#[trigger] es[i].key@) != (
    #[trigger] es[j].key@) by {
        lemma_key_lt_neq(es[i].key@, es[j].key@);
    }
}

/// Inserting an entry at its ordered position inserts its key in the map.
proof fn lemma_insert_entry(es: Seq<Entry>, i: int, e: Entry)
    requires
        entries_sorted(es),
        0 <= i <= es.len(),
        forall|j: int| 0 <= j < i ==> key_lt(#[trigger] es[j].key@, e.key@),
        forall|j: int| i <= j < es.len() ==> key_lt(e.key@, #[trigger] es[j].key@),
    ensures
        entries_sorted(es.insert(i, e)),
        entries_values_wf(es) && e.value.wf() ==> entries_values_wf(es.insert(i, e)),
        pairs_model(entry_pairs(es.insert(i, e))) =~= pairs_model(entry_pairs(es)).insert(
            e.key@,
            e.value.model(),
        ),
{
    let fs = es.insert(i, e);
    es.insert_ensures(i, e);
    lemma_entry_pairs_all(es);
    lemma_entry_pairs_all(fs);
    lemma_sorted_unique(es);
    assert forall|a: int, b: int| 0 <= a < b < fs.len() implies key_lt(
        #[trigger] fs[a].key@,
        #[trigger] fs[b].key@,
    ) by {
        if a != i && b != i {
            let a0 = if a < i { a } else { a - 1 };
            let b0 = if b < i { b } else { b - 1 };
            assert(fs[a] == es[a0] && fs[b] == es[b0]);
        } else if a == i {
            assert(fs[b] == es[b - 1]);
        } else {
            assert(fs[a] == es[a]);
        }
    }
    assert forall|j: int| 0 <= j < es.len() implies (#[trigger] entry_pairs(es)[j].0) != e.key@ by {
        if j < i {
            lemma_key_lt_neq(es[j].key@, e.key@);
        } else {
            lemma_key_lt_neq(e.key@, es[j].key@);
        }
    }
    if entries_values_wf(es) && e.value.wf() {
        assert forall|j: int| 0 <= j < fs.len() implies (#[trigger] fs[j].value).wf() by {
            if j != i {
                let j0 = if j < i { j } else { j - 1 };
                assert(fs[j] == es[j0]);
            }
        }
    }
    lemma_pairs_model_insert(entry_pairs(es), i, e.key@, e.value.model());
    assert(entry_pairs(fs) =~= entry_pairs(es).insert(i, (e.key@, e.value.model()))) by {
        entry_pairs(es).insert_ensures(i, (e.key@, e.value.model()));
    }
}

/// Removing the entry at a position removes its key from the map.
proof fn lemma_remove_entry(es: Seq<Entry>, i: int)
    requires
        entries_sorted(es),
        0 <= i < es.len(),
    ensures
        entries_sorted(es.remove(i)),
        entries_values_wf(es) ==> entries_values_wf(es.remove(i)),
        pairs_model(entry_pairs(es.remove(i))) =~= pairs_model(entry_pairs(es)).remove(es[i].key@),
        forall|j: int| 0 <= j < es.len() && j != i ==> (#[trigger] es[j].key@) != es[i].key@,
{
    let fs = es.remove(i);
    es.remove_ensures(i);
    lemma_entry_pairs_all(es);
    lemma_entry_pairs_all(fs);
    lemma_sorted_unique(es);
    assert forall|a: int, b: int| 0 <= a < b < fs.len() implies key_lt(
        #[trigger] fs[a].key@,
        #[trigger] fs[b].key@,
    ) by {
        let a0 = if a < i { a } else { a + 1 };
        let b0 = if b < i { b } else { b + 1 };
        assert(fs[a] == es[a0] && fs[b] == es[b0]);
    }
    if entries_values_wf(es) {
        assert forall|j: int| 0 <= j < fs.len() implies (#[trigger] fs[j].value).wf() by {
            let j0 = if j < i { j } else { j + 1 };
            assert(fs[j] == es[j0]);
        }
    }
    lemma_pairs_model_remove(entry_pairs(es), i);
    assert(entry_pairs(fs) =~= entry_pairs(es).remove(i)) by {
        entry_pairs(es).remove_ensures(i);
    }
}

/// Removing the pair at a position removes its key from the map.
proof fn lemma_pairs_model_remove(ps: Seq<(Seq<char>, Model)>, i: int)
    requires
        unique_keys(ps),
        0 <= i < ps.len(),
    ensures
        unique_keys(ps.remove(i)),
        pairs_model(ps.remove(i)) =~= pairs_model(ps).remove(ps[i].0),
{
    let qs = ps.remove(i);
    ps.remove_ensures(i);
    assert forall|a: int, b: int| 0 <= a < b < qs.len() implies (#[trigger] qs[a].0) != (
    #[trigger] qs[b].0) by {
        let a0 = if a < i { a } else { a + 1 };
        let b0 = if b < i { b } else { b + 1 };
        assert(qs[a] == ps[a0] && qs[b] == ps[b0]);
    }
    assert forall|x: Seq<char>| #[trigger]
        pairs_model(qs).contains_key(x) <==> pairs_model(ps).remove(ps[i].0).contains_key(x) by {
        if pairs_model(qs).contains_key(x) {
            let w = choose|j: int| 0 <= j < qs.len() && qs[j].0 == x;
            let w0 = if w < i { w } else { w + 1 };
            assert(ps[w0].0 == x);
        }
        if pairs_model(ps).contains_key(x) && x != ps[i].0 {
            let w = choose|j: int| 0 <= j < ps.len() && ps[j].0 == x;
            let w1 = if w < i { w } else { w - 1 };
            assert(qs[w1].0 == x);
        }
    }
    assert forall|x: Seq<char>| pairs_model(qs).contains_key(x) implies #[trigger] pairs_model(qs)[x]
        == pairs_model(ps).remove(ps[i].0)[x] by {
        let w = choose|j: int| 0 <= j < qs.len() && qs[j].0 == x;
        lemma_pairs_model_at(qs, w);
        let w0 = if w < i { w } else { w + 1 };
        assert(qs[w] == ps[w0]);
        lemma_pairs_model_at(ps, w0);
    }
}

} // verus!
