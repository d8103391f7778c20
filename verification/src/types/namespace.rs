//! Namespaces: one frame of bindings from symbols to values.

use super::Object;
use crate::gc::GcMark;
use std::collections::HashMap;
use vstd::prelude::*;

verus! {

broadcast use vstd::std_specs::hash::group_hash_axioms;

/// A frame of bindings. The keys are the slot indices of symbols.
pub struct Namespace {
    pub gc_marking: GcMark,
    pub name: Option<Object>,
    pub table: HashMap<u64, Object>,
    /// The keys of `table`, each once, in the order in which they came.
    pub order: Vec<u64>,
}

/// A stack of frames, by their slot indices; the innermost frame is last.
pub type Scope = Vec<u64>;

impl Namespace {
    /// The bindings, as a map from symbol index to value.
    pub open spec fn bindings(self) -> Map<u64, Object> {
        self.table@
    }

    /// The key list names the keys of the table, each once.
    pub open spec fn wf(self) -> bool {
        &&& self.order@.no_duplicates()
        &&& forall|k: u64| self.table@.contains_key(k) <==> self.order@.contains(k)
    }

    /// The empty frame without a name.
    pub fn new() -> (r: Self)
        ensures
            r.wf(),
            r.bindings() == Map::<u64, Object>::empty(),
            r.order@.len() == 0,
            r.name is None,
            r.gc_marking == 0,
    {
        Self { gc_marking: 0, name: None, table: HashMap::new(), order: Vec::new() }
    }

    pub fn with_name(self, name: Object) -> (r: Self)
        ensures
            r == (Namespace { name: Some(name), ..self }),
    {
        let mut me = self;
        me.name = Some(name);
        me
    }

    pub fn with_maybe_name(self, name: Option<Object>) -> (r: Self)
        ensures
            r == (Namespace { name: name, ..self }),
    {
        let mut me = self;
        me.name = name;
        me
    }

    /// The number of bindings.
    pub fn len(&self) -> (r: usize)
        requires
            self.wf(),
        ensures
            r == self.bindings().dom().len(),
            r == self.order@.len(),
    {
        proof {
            self.lemma_order_len();
        }
        self.order.len()
    }

    /// The key list is as long as the table has keys.
    pub proof fn lemma_order_len(self)
        requires
            self.wf(),
        ensures
            self.bindings().dom().finite(),
            self.order@.len() == self.bindings().dom().len(),
    {
        let s = self.order@;
        assert(s.to_set() =~= self.table@.dom()) by {
            assert forall|k: u64| s.to_set().contains(k) <==> self.table@.dom().contains(k) by {
                assert(s.to_set().contains(k) <==> s.contains(k));
            }
        }
        s.unique_seq_to_set();
    }

    pub fn contains_key(&self, key: u64) -> (r: bool)
        ensures
            r == self.bindings().contains_key(key),
    {
        self.table.contains_key(&key)
    }

    pub fn get(&self, key: u64) -> (r: Option<Object>)
        ensures
            r == (if self.bindings().contains_key(key) {
                Some(self.bindings()[key])
            } else {
                None
            }),
    {
        match self.table.get(&key) {
            Some(v) => Some(*v),
            None => None,
        }
    }

    /// Binds `key` to `val` and returns what it was bound to before.
    pub fn insert(&mut self, key: u64, val: Object) -> (r: Option<Object>)
        requires
            old(self).wf(),
        ensures
            final(self).wf(),
            final(self).bindings() == old(self).bindings().insert(key, val),
            r == (if old(self).bindings().contains_key(key) {
                Some(old(self).bindings()[key])
            } else {
                None
            }),
            final(self).name == old(self).name,
            final(self).gc_marking == old(self).gc_marking,
            final(self).order@ == (if old(self).bindings().contains_key(key) {
                old(self).order@
            } else {
                old(self).order@.push(key)
            }),
    {
        let before = self.table.insert(key, val);
        if before.is_none() {
            self.order.push(key);
            proof {
                let o = old(self).order@;
                assert(!o.contains(key));
                assert forall|k: u64| self.table@.contains_key(k) <==> self.order@.contains(
                    k,
                ) by {
                    if k == key {
                        assert(self.order@[o.len() as int] == key);
                    } else {
                        if o.contains(k) {
                            let i = choose|i: int| 0 <= i < o.len() && o[i] == k;
                            assert(self.order@[i] == k);
                        }
                    }
                }
            }
        }
        before
    }

    /// The bindings as pairs of key and value, in the order in which the keys
    /// came.
    pub fn iter(&self) -> (r: Vec<(u64, Object)>)
        requires
            self.wf(),
        ensures
            r@.len() == self.order@.len(),
            forall|i: int|
                0 <= i < r@.len() ==> (#[trigger] r@[i]).0 == self.order@[i] && r@[i].1
                    == self.bindings()[self.order@[i]],
    {
        let mut out: Vec<(u64, Object)> = Vec::new();
        let mut i: usize = 0;
        while i < self.order.len()
            invariant
                self.wf(),
                i <= self.order@.len(),
                out@.len() == i,
                forall|j: int|
                    0 <= j < i ==> (#[trigger] out@[j]).0 == self.order@[j] && out@[j].1
                        == self.bindings()[self.order@[j]],
            decreases self.order@.len() - i,
        {
            let key: u64 = self.order[i];
            assert(self.order@.contains(key));
            let val = self.get(key);
            match val {
                Some(v) => {
                    out.push((key, v));
                },
                None => {
                    assert(false);
                },
            }
            i += 1;
        }
        out
    }
}

impl Default for Namespace {
    fn default() -> (r: Self)
        ensures
            r.wf(),
            r.bindings() == Map::<u64, Object>::empty(),
            r.order@.len() == 0,
            r.name is None,
            r.gc_marking == 0,
    {
        Namespace::new()
    }
}

} // verus!
