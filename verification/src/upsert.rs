//! The upsert-merge engine: fetch-or-create a nested object at a key,
//! overwriting a non-object value already there, and a deep two-level
//! variant. These primitives are total: a conflicting value is silently
//! discarded, by design, so nested writes always find a well-typed
//! destination.
use vstd::prelude::*;

verus! {

use crate::value::{child_obj, Json, Model, Object};

/// The document after fetch-or-create of an object at key `k`: unchanged
/// if `k` already holds an object, else `k` is bound to a fresh empty
/// object, discarding any non-object value there.
pub open spec fn upserted(m: Map<Seq<char>, Model>, k: Seq<char>) -> Map<Seq<char>, Model> {
    if m.contains_key(k) && m[k] is Obj {
        m
    } else {
        m.insert(k, Model::Obj(Map::empty()))
    }
}

/// The document after the deep variant: the object at `outer` is fetched
/// or created, and an object at `inner` is fetched or created within it.
pub open spec fn deep_upserted(
    m: Map<Seq<char>, Model>,
    outer: Seq<char>,
    inner: Seq<char>,
) -> Map<Seq<char>, Model> {
    m.insert(outer, Model::Obj(upserted(child_obj(m, outer), inner)))
}

/// A mapping that supports the fetch-or-create merge primitives.
pub trait Upsert {
    /// The map this value stands for.
    spec fn doc(&self) -> Map<Seq<char>, Model>;

    /// The representation invariant of this value.
    spec fn doc_wf(&self) -> bool;

    /// Fetch or create an object at `field`: afterwards `field` holds an
    /// object, and any object already there is kept with all its entries.
    fn object(&mut self, field: &str)
        requires
            old(self).doc_wf(),
        ensures
            final(self).doc_wf(),
            final(self).doc() == upserted(old(self).doc(), field@),
    ;

    /// Fetch or create an object at `op`, then one at `array` within it.
    fn deep_object(&mut self, op: &str, array: &str)
        requires
            old(self).doc_wf(),
        ensures
            final(self).doc_wf(),
            final(self).doc() == deep_upserted(old(self).doc(), op@, array@),
    ;
}

impl Upsert for Object {
    open spec fn doc(&self) -> Map<Seq<char>, Model> {
        self.model()
    }

    open spec fn doc_wf(&self) -> bool {
        self.wf()
    }

    fn object(&mut self, field: &str) {
        let missing: bool = match self.get(field) {
            Option::Some(v) => !v.is_object(),
            Option::None => true,
        };
        if missing {
            self.insert(field, Json::Object(Object::new()));
        }
    }

    fn deep_object(&mut self, op: &str, array: &str) {
        let mut inner: Object = self.take_object(op);
        inner.object(array);
        self.insert(op, Json::Object(inner));
        proof {
            assert(old(self).model().remove(op@).insert(
                op@,
                Model::Obj(upserted(child_obj(old(self).model(), op@), array@)),
            ) =~= deep_upserted(old(self).model(), op@, array@));
        }
    }
}

} // verus!
