//! The heap: an arena of slots, and the allocator that hands them out.
//!
//! A reference is the index of a slot under the tag of what the slot holds.
//! Slot 0 holds, for the whole life of the heap, the error that stands for a
//! full heap: an allocation that finds no slot returns the reference to it.

use crate::gc::GcMark;
use crate::result::ErrorKind;
use crate::types::function::FunctionBody;
use crate::types::rlisperror::RlispErrorKind;
use crate::types::{
    ConsCell, Namespace, Object, ObjectTag, RlispError, RlispFunc, RlispString, RlispType, Symbol,
    MAX_PTR,
};
use vstd::prelude::*;

verus! {

/// What a slot of the arena holds.
pub enum Slot {
    Free,
    Cons(ConsCell),
    Sym(Symbol),
    String(RlispString),
    Function(RlispFunc),
    Error(RlispError),
    Namespace(Namespace),
}

/// True iff `o` is one of the values that an error of this kind carries.
pub open spec fn error_holds(kind: RlispErrorKind, o: Object) -> bool {
    match kind {
        RlispErrorKind::WrongType { wanted, found } => o == wanted || o == found,
        RlispErrorKind::BadArgsCount { min, max, found } => o == min || o == max || o == found,
        RlispErrorKind::ImproperList => false,
        RlispErrorKind::UnboundSymbol { sym } => o == sym,
        RlispErrorKind::RustError(_) => false,
        RlispErrorKind::NotAType { found } => o == found,
        RlispErrorKind::Custom { kind, info } => o == kind || o == info,
        RlispErrorKind::UndefinedSymbol { sym } => o == sym,
        RlispErrorKind::IndexOutOfBounds { idx, reciever } => o == idx || o == reciever,
    }
}

impl Slot {
    /// The tag under which a reference names this slot.
    pub open spec fn tag(self) -> Option<ObjectTag> {
        match self {
            Slot::Free => None,
            Slot::Cons(_) => Some(ObjectTag::Cons),
            Slot::Sym(_) => Some(ObjectTag::Sym),
            Slot::String(_) => Some(ObjectTag::String),
            Slot::Function(_) => Some(ObjectTag::Function),
            Slot::Error(_) => Some(ObjectTag::Error),
            Slot::Namespace(_) => Some(ObjectTag::Namespace),
        }
    }

    /// The stamp that the last collection to reach this slot left.
    pub open spec fn marking(self) -> GcMark {
        match self {
            Slot::Free => 0,
            Slot::Cons(c) => c.gc_marking,
            Slot::Sym(s) => s.gc_marking,
            Slot::String(s) => s.gc_marking,
            Slot::Function(f) => f.gc_marking,
            Slot::Error(e) => e.gc_marking,
            Slot::Namespace(n) => n.gc_marking,
        }
    }

    /// True iff `o` is one of the values that this slot holds: the children
    /// that it has as values.
    pub open spec fn holds(self, o: Object) -> bool {
        match self {
            Slot::Cons(c) => o == c.car || o == c.cdr,
            Slot::Function(f) => f.arglist == Some(o) || f.name == Some(o) || (match f.body {
                FunctionBody::LispFn(b) => b@.contains(o),
                _ => false,
            }),
            Slot::Error(e) => error_holds(e.error, o),
            Slot::Namespace(n) => n.name == Some(o) || n.table@.contains_value(o),
            _ => false,
        }
    }

    /// True iff this slot names slot `idx` under `tag` by its bare index: the
    /// frames that a function has captured, and the symbols that a namespace
    /// binds.
    pub open spec fn names(self, tag: ObjectTag, idx: u64) -> bool {
        match self {
            Slot::Function(f) => tag == ObjectTag::Namespace && (match f.scope {
                Some(s) => s@.contains(idx),
                None => false,
            }),
            Slot::Namespace(n) => tag == ObjectTag::Sym && n.table@.contains_key(idx),
            _ => false,
        }
    }

    /// The same slot with another stamp.
    pub open spec fn with_marking(self, mark: GcMark) -> Slot {
        match self {
            Slot::Free => Slot::Free,
            Slot::Cons(c) => Slot::Cons(ConsCell { gc_marking: mark, ..c }),
            Slot::Sym(s) => Slot::Sym(Symbol { gc_marking: mark, ..s }),
            Slot::String(s) => Slot::String(RlispString { gc_marking: mark, ..s }),
            Slot::Function(f) => Slot::Function(RlispFunc { gc_marking: mark, ..f }),
            Slot::Error(e) => Slot::Error(RlispError { gc_marking: mark, ..e }),
            Slot::Namespace(n) => Slot::Namespace(Namespace { gc_marking: mark, ..n }),
        }
    }
}

impl Object {
    /// The tag of a reference; `None` for a double, an immediate or a place.
    pub open spec fn spec_ref_tag(self) -> Option<ObjectTag> {
        match self.spec_what_type() {
            RlispType::Cons => Some(ObjectTag::Cons),
            RlispType::Sym => Some(ObjectTag::Sym),
            RlispType::String => Some(ObjectTag::String),
            RlispType::Function => Some(ObjectTag::Function),
            RlispType::Error => Some(ObjectTag::Error),
            RlispType::Namespace => Some(ObjectTag::Namespace),
            _ => None,
        }
    }

    /// The tag of a reference; `None` for a double, an immediate or a place.
    pub fn ref_tag(self) -> (r: Option<ObjectTag>)
        ensures
            r == self.spec_ref_tag(),
    {
        match self.what_type() {
            RlispType::Cons => Some(ObjectTag::Cons),
            RlispType::Sym => Some(ObjectTag::Sym),
            RlispType::String => Some(ObjectTag::String),
            RlispType::Function => Some(ObjectTag::Function),
            RlispType::Error => Some(ObjectTag::Error),
            RlispType::Namespace => Some(ObjectTag::Namespace),
            _ => None,
        }
    }
}

/// The arena.
pub struct Heap {
    pub slots: Vec<Slot>,
    /// The indices of the free slots, each once.
    pub free: Vec<u64>,
}

impl Heap {
    /// What slot `i` holds; a slot that the arena does not have is free.
    pub open spec fn at(self, i: int) -> Slot {
        if 0 <= i < self.slots@.len() {
            self.slots@[i]
        } else {
            Slot::Free
        }
    }

    /// The tag of what slot `i` holds.
    pub open spec fn kind(self, i: int) -> Option<ObjectTag> {
        self.at(i).tag()
    }

    /// True iff `o` can be used: it is a double or an immediate, or it names
    /// a slot that holds a value of its type.
    pub open spec fn valid(self, o: Object) -> bool {
        match o.spec_ref_tag() {
            Some(t) => self.kind(o.spec_index()) == Some(t),
            None => o.spec_what_type() != RlispType::Place,
        }
    }

    /// True iff everything that `slot` refers to can be used.
    pub open spec fn slot_ok(self, slot: Slot) -> bool {
        &&& forall|o: Object| #[trigger] slot.holds(o) ==> self.valid(o)
        &&& forall|t: ObjectTag, j: u64| #[trigger]
            slot.names(t, j) ==> self.kind(j as int) == Some(t)
        &&& slot matches Slot::Namespace(n) ==> n.wf()
    }

    /// No slot refers to a slot that is free or holds another type.
    pub open spec fn closed(self) -> bool {
        forall|i: int| 0 <= i < self.slots@.len() ==> self.slot_ok(#[trigger] self.slots@[i])
    }

    /// No two symbols have the same name.
    pub open spec fn names_unique(self) -> bool {
        forall|i: int, j: int|
            0 <= i < self.slots@.len() && 0 <= j < self.slots@.len() ==> match (
                #[trigger] self.slots@[i],
                #[trigger] self.slots@[j],
            ) {
                (Slot::Sym(a), Slot::Sym(b)) => a.name@ == b.name@ ==> i == j,
                _ => true,
            }
    }

    /// True iff slot `i` holds a symbol with the name `name`.
    pub open spec fn is_symbol_named(self, i: int, name: Seq<u8>) -> bool {
        match self.at(i) {
            Slot::Sym(s) => s.name@ == name,
            _ => false,
        }
    }

    /// True iff some symbol has the name `name`.
    pub open spec fn has_symbol_named(self, name: Seq<u8>) -> bool {
        exists|i: int| 0 <= i < self.slots@.len() && #[trigger] self.is_symbol_named(i, name)
    }

    /// The reference that an allocation returns when no slot is left.
    pub open spec fn spec_out_of_memory() -> Object {
        Object::spec_reference(ObjectTag::Error, 0)
    }

    /// The invariant of the arena.
    pub open spec fn wf(self) -> bool {
        &&& 1 <= self.slots@.len() <= MAX_PTR
        &&& (match self.slots@[0] {
            Slot::Error(e) => e.error == RlispErrorKind::RustError(ErrorKind::OutOfMemory),
            _ => false,
        })
        &&& self.free@.no_duplicates()
        &&& forall|k: int|
            0 <= k < self.free@.len() ==> 0 < #[trigger] self.free@[k] < self.slots@.len()
                && self.slots@[self.free@[k] as int] is Free
        &&& forall|i: int|
            0 <= i < self.slots@.len() && (#[trigger] self.slots@[i]) is Free
                ==> self.free@.contains(i as u64)
        &&& self.closed()
        &&& self.names_unique()
    }

    /// True iff no slot is left to give out.
    pub open spec fn full(self) -> bool {
        self.free@.len() == 0 && self.slots@.len() >= MAX_PTR
    }

    /// The number of allocations that the heap can still serve.
    pub open spec fn room(self) -> int {
        MAX_PTR - self.live_count()
    }

    /// The index of the slot that the next allocation takes.
    pub open spec fn next_index(self) -> int {
        if self.free@.len() > 0 {
            self.free@.last() as int
        } else {
            self.slots@.len() as int
        }
    }

    /// The number of slots in use, the slot of the full-heap error among
    /// them.
    pub open spec fn live_count(self) -> int {
        self.slots@.len() - self.free@.len()
    }

    /// Every slot in use in `self` holds a value of the same type in `later`.
    pub open spec fn kinds_kept_by(self, later: Heap) -> bool {
        forall|i: int| #[trigger] self.kind(i) is Some ==> later.kind(i) == self.kind(i)
    }

    /// What can be used stays usable as long as no slot changes its type.
    pub proof fn lemma_valid_kept(self, later: Heap, o: Object)
        requires
            self.kinds_kept_by(later),
            self.valid(o),
        ensures
            later.valid(o),
    {
        match o.spec_ref_tag() {
            Some(t) => {
                assert(self.kind(o.spec_index()) is Some);
            },
            None => {},
        }
    }

    /// A slot whose references can be used keeps them usable as long as no
    /// slot changes its type.
    pub proof fn lemma_slot_ok_kept(self, later: Heap, slot: Slot)
        requires
            self.kinds_kept_by(later),
            self.slot_ok(slot),
        ensures
            later.slot_ok(slot),
    {
        assert forall|o: Object| #[trigger] slot.holds(o) implies later.valid(o) by {
            self.lemma_valid_kept(later, o);
        }
        assert forall|t: ObjectTag, j: u64| #[trigger] slot.names(t, j) implies later.kind(
            j as int,
        ) == Some(t) by {
            assert(self.kind(j as int) is Some);
        }
    }

    /// A heap that holds nothing but the full-heap error.
    pub fn new() -> (r: Self)
        ensures
            r.wf(),
            r.slots@.len() == 1,
            r.free@.len() == 0,
            r.slots@[0].marking() == 0,
    {
        let mut slots: Vec<Slot> = Vec::new();
        slots.push(Slot::Error(RlispError::from_host(ErrorKind::OutOfMemory)));
        let r = Heap { slots, free: Vec::new() };
        proof {
            assert(r.slot_ok(r.slots@[0]));
        }
        r
    }

    /// The reference that an allocation returns when no slot is left.
    pub fn out_of_memory() -> (r: Object)
        ensures
            r == Heap::spec_out_of_memory(),
            r.spec_what_type() == RlispType::Error,
            r.spec_index() == 0,
    {
        Object::reference(ObjectTag::Error, 0)
    }

    /// True iff no slot is left to give out.
    pub fn is_full(&self) -> (r: bool)
        requires
            self.wf(),
        ensures
            r == self.full(),
    {
        self.free.len() == 0 && self.slots.len() as u64 >= MAX_PTR
    }

    /// The number of slots in use.
    pub fn len(&self) -> (r: usize)
        requires
            self.wf(),
        ensures
            r == self.live_count(),
    {
        proof {
            self.lemma_free_bounded();
        }
        self.slots.len() - self.free.len()
    }

    /// There are no more free slots than slots.
    pub proof fn lemma_free_bounded(self)
        requires
            self.wf(),
        ensures
            self.free@.len() < self.slots@.len(),
    {
        let f = self.free@;
        let n = self.slots@.len() as int;
        let fi = Seq::new(f.len(), |k: int| f[k] as int);
        assert(fi.no_duplicates());
        let range = vstd::set_lib::set_int_range(1, n);
        vstd::set_lib::lemma_int_range(1, n);
        assert(fi.to_set().subset_of(range)) by {
            assert forall|x: int| fi.to_set().contains(x) implies range.contains(x) by {
                let k = choose|k: int| 0 <= k < fi.len() && fi[k] == x;
                assert(0 < f[k] < n);
            }
        }
        fi.unique_seq_to_set();
        vstd::set_lib::lemma_len_subset(fi.to_set(), range);
    }

    /// What an allocation of `slot` does to a heap, and the reference that it
    /// returns: `later` is the heap afterwards. Where no slot is left, the
    /// heap stays as it is and the full-heap error comes back. Else the slot
    /// that `next_index` names is filled, no other slot changes, and the
    /// reference to it comes back.
    pub open spec fn gave(self, later: Heap, slot: Slot, r: Object) -> bool {
        if self.full() {
            r == Heap::spec_out_of_memory() && later == self
        } else {
            let i = self.next_index();
            &&& r == Object::spec_reference(slot.tag().unwrap(), i)
            &&& r.spec_what_type() == Object::tag_type(slot.tag().unwrap())
            &&& r.spec_index() == i
            &&& 0 < i < MAX_PTR
            &&& self.at(i) is Free
            &&& later.at(i) == slot
            &&& forall|j: int| j != i ==> #[trigger] later.at(j) == self.at(j)
            &&& later.live_count() == self.live_count() + 1
            &&& later.slots@.len() == (if self.free@.len() > 0 {
                self.slots@.len()
            } else {
                self.slots@.len() + 1
            })
        }
    }

    /// Puts `slot` into a free slot and returns the reference to it, or
    /// returns the full-heap error and changes nothing where no slot is left.
    pub fn allocate(&mut self, slot: Slot) -> (r: Object)
        requires
            old(self).wf(),
            slot.tag() is Some,
            old(self).slot_ok(slot),
            slot matches Slot::Sym(s) ==> !old(self).has_symbol_named(s.name@),
        ensures
            final(self).wf(),
            old(self).kinds_kept_by(*final(self)),
            old(self).gave(*final(self), slot, r),
    {
        let tag = match &slot {
            Slot::Sym(_) => ObjectTag::Sym,
            Slot::String(_) => ObjectTag::String,
            Slot::Function(_) => ObjectTag::Function,
            Slot::Error(_) => ObjectTag::Error,
            Slot::Namespace(_) => ObjectTag::Namespace,
            _ => ObjectTag::Cons,
        };
        let ghost before = *self;
        let ghost given = slot;
        if self.free.len() > 0 {
            let idx: u64 = self.free.pop().unwrap();
            assert(before.free@[before.free@.len() - 1] == idx);
            self.slots.set(idx as usize, slot);
            proof {
                let i = idx as int;
                assert(before.at(i) is Free);
                assert(self.at(i) == given);
                assert forall|j: int| j != i implies #[trigger] self.at(j) == before.at(j) by {}
                assert(before.kinds_kept_by(*self)) by {
                    assert forall|j: int| #[trigger] before.kind(j) is Some implies self.kind(j)
                        == before.kind(j) by {
                        assert(self.at(j) == before.at(j));
                    }
                }
                self.lemma_wf_after_fill(before, i, given);
            }
            Object::reference(tag, idx as usize)
        } else if (self.slots.len() as u64) < MAX_PTR {
            let idx: usize = self.slots.len();
            self.slots.push(slot);
            proof {
                let i = idx as int;
                assert(self.at(i) == given);
                assert forall|j: int| j != i implies #[trigger] self.at(j) == before.at(j) by {}
                assert(before.kinds_kept_by(*self)) by {
                    assert forall|j: int| #[trigger] before.kind(j) is Some implies self.kind(j)
                        == before.kind(j) by {
                        assert(self.at(j) == before.at(j));
                    }
                }
                self.lemma_wf_after_fill(before, i, given);
            }
            Object::reference(tag, idx)
        } else {
            Heap::out_of_memory()
        }
    }

    /// Filling a free slot with a slot whose references can be used keeps the
    /// invariant.
    proof fn lemma_wf_after_fill(self, before: Heap, i: int, given: Slot)
        requires
            before.wf(),
            given.tag() is Some,
            before.slot_ok(given),
            given matches Slot::Sym(s) ==> !before.has_symbol_named(s.name@),
            0 < i < MAX_PTR,
            before.at(i) is Free,
            self.at(i) == given,
            forall|j: int| j != i ==> #[trigger] self.at(j) == before.at(j),
            before.kinds_kept_by(self),
            i < before.slots@.len() ==> {
                &&& self.slots@.len() == before.slots@.len()
                &&& before.free@.len() > 0
                &&& before.free@.last() == i
                &&& self.free@ == before.free@.drop_last()
            },
            i >= before.slots@.len() ==> {
                &&& i == before.slots@.len()
                &&& self.slots@.len() == before.slots@.len() + 1
                &&& self.free@ == before.free@
            },
        ensures
            self.wf(),
    {
        assert(self.slots@[0] == self.at(0));
        assert(before.slots@[0] == before.at(0));
        assert(self.closed()) by {
            assert forall|j: int| 0 <= j < self.slots@.len() implies self.slot_ok(
                #[trigger] self.slots@[j],
            ) by {
                assert(self.slots@[j] == self.at(j));
                if j == i {
                    before.lemma_slot_ok_kept(self, given);
                } else {
                    assert(before.slots@[j] == before.at(j));
                    before.lemma_slot_ok_kept(self, before.slots@[j]);
                }
            }
        }
        assert(self.names_unique()) by {
            assert forall|a: int, b: int|
                0 <= a < self.slots@.len() && 0 <= b < self.slots@.len() implies match (
                    #[trigger] self.slots@[a],
                    #[trigger] self.slots@[b],
                ) {
                    (Slot::Sym(x), Slot::Sym(y)) => x.name@ == y.name@ ==> a == b,
                    _ => true,
                } by {
                assert(self.slots@[a] == self.at(a));
                assert(self.slots@[b] == self.at(b));
                if a != i {
                    assert(before.slots@[a] == before.at(a));
                }
                if b != i {
                    assert(before.slots@[b] == before.at(b));
                }
                if a != i && b == i {
                    match (self.slots@[a], given) {
                        (Slot::Sym(x), Slot::Sym(y)) => {
                            if x.name@ == y.name@ {
                                assert(before.is_symbol_named(a, y.name@));
                            }
                        },
                        _ => {},
                    }
                }
                if a == i && b != i {
                    match (given, self.slots@[b]) {
                        (Slot::Sym(x), Slot::Sym(y)) => {
                            if x.name@ == y.name@ {
                                assert(before.is_symbol_named(b, x.name@));
                            }
                        },
                        _ => {},
                    }
                }
            }
        }
        assert forall|k: int| 0 <= k < self.free@.len() implies 0 < #[trigger] self.free@[k]
            < self.slots@.len() && self.slots@[self.free@[k] as int] is Free by {
            assert(self.free@[k] == before.free@[k]);
            let x = before.free@[k] as int;
            assert(x != i);
            assert(self.at(x) == before.at(x));
        }
        assert forall|j: int|
            0 <= j < self.slots@.len() && (#[trigger] self.slots@[j]) is Free
                implies self.free@.contains(j as u64) by {
            assert(self.slots@[j] == self.at(j));
            assert(j != i);
            assert(before.slots@[j] == before.at(j));
            assert(before.free@.contains(j as u64));
            let k = choose|k: int| 0 <= k < before.free@.len() && before.free@[k] == j as u64;
            assert(self.free@[k] == j as u64);
        }
    }

    /// The reference to slot `idx`, which holds a value under `tag`.
    pub fn reference_to(&self, tag: ObjectTag, idx: u64) -> (r: Object)
        requires
            self.wf(),
            self.kind(idx as int) == Some(tag),
        ensures
            r == Object::spec_reference(tag, idx as int),
            r.spec_what_type() == Object::tag_type(tag),
            r.spec_ref_tag() == Some(tag),
            r.spec_index() == idx,
            self.valid(r),
    {
        let n: usize = self.slots.len();
        assert(idx < n);
        proof {
            assert(self.slots@[0] == self.at(0));
            Object::lemma_reference_type(tag, idx as int);
        }
        Object::reference(tag, idx as usize)
    }

    /// The tag of what slot `idx` holds.
    pub fn kind_of(&self, idx: u64) -> (r: Option<ObjectTag>)
        ensures
            r == self.kind(idx as int),
    {
        if idx >= self.slots.len() as u64 {
            return None;
        }
        match &self.slots[idx as usize] {
            Slot::Free => None,
            Slot::Cons(_) => Some(ObjectTag::Cons),
            Slot::Sym(_) => Some(ObjectTag::Sym),
            Slot::String(_) => Some(ObjectTag::String),
            Slot::Function(_) => Some(ObjectTag::Function),
            Slot::Error(_) => Some(ObjectTag::Error),
            Slot::Namespace(_) => Some(ObjectTag::Namespace),
        }
    }

    /// True iff `o` can be used.
    pub fn is_valid(&self, o: Object) -> (r: bool)
        ensures
            r == self.valid(o),
    {
        match o.ref_tag() {
            Some(t) => {
                match self.kind_of(o.index()) {
                    Some(k) => k == t,
                    None => false,
                }
            },
            None => !o.placep(),
        }
    }

    /// A reference that can be used names a slot of the arena.
    pub proof fn lemma_valid_reference(self, o: Object)
        requires
            self.valid(o),
            o.spec_ref_tag() is Some,
        ensures
            0 <= o.spec_index() < self.slots@.len(),
            self.at(o.spec_index()) == self.slots@[o.spec_index()],
            self.at(o.spec_index()).tag() == o.spec_ref_tag(),
    {
        assert(self.kind(o.spec_index()) is Some);
    }

    /// What slot `idx` holds.
    pub fn slot(&self, idx: u64) -> (r: &Slot)
        requires
            self.kind(idx as int) is Some,
        ensures
            *r == self.at(idx as int),
            idx < self.slots@.len(),
    {
        let n: usize = self.slots.len();
        assert(idx < n);
        &self.slots[idx as usize]
    }

    /// The cell that `o` names.
    pub fn cons(&self, o: Object) -> (r: ConsCell)
        requires
            self.valid(o),
            o.spec_what_type() == RlispType::Cons,
        ensures
            self.at(o.spec_index()) == Slot::Cons(r),
    {
        proof {
            self.lemma_valid_reference(o);
        }
        match self.slot(o.index()) {
            Slot::Cons(c) => *c,
            _ => ConsCell::new(o, o),
        }
    }

    /// The symbol that `o` names.
    pub fn symbol(&self, o: Object) -> (r: &Symbol)
        requires
            self.valid(o),
            o.spec_what_type() == RlispType::Sym,
        ensures
            self.at(o.spec_index()) == Slot::Sym(*r),
    {
        proof {
            self.lemma_valid_reference(o);
        }
        self.symbol_at(o.index())
    }

    /// The symbol in slot `idx`.
    pub fn symbol_at(&self, idx: u64) -> (r: &Symbol)
        requires
            self.kind(idx as int) == Some(ObjectTag::Sym),
        ensures
            self.at(idx as int) == Slot::Sym(*r),
    {
        match self.slot(idx) {
            Slot::Sym(s) => s,
            _ => vstd::pervasive::unreached(),
        }
    }

    /// The string that `o` names.
    pub fn string(&self, o: Object) -> (r: &RlispString)
        requires
            self.valid(o),
            o.spec_what_type() == RlispType::String,
        ensures
            self.at(o.spec_index()) == Slot::String(*r),
    {
        proof {
            self.lemma_valid_reference(o);
        }
        match self.slot(o.index()) {
            Slot::String(s) => s,
            _ => vstd::pervasive::unreached(),
        }
    }

    /// The function that `o` names.
    pub fn function(&self, o: Object) -> (r: &RlispFunc)
        requires
            self.valid(o),
            o.spec_what_type() == RlispType::Function,
        ensures
            self.at(o.spec_index()) == Slot::Function(*r),
    {
        proof {
            self.lemma_valid_reference(o);
        }
        match self.slot(o.index()) {
            Slot::Function(f) => f,
            _ => vstd::pervasive::unreached(),
        }
    }

    /// The error that `o` names.
    pub fn error(&self, o: Object) -> (r: &RlispError)
        requires
            self.valid(o),
            o.spec_what_type() == RlispType::Error,
        ensures
            self.at(o.spec_index()) == Slot::Error(*r),
    {
        proof {
            self.lemma_valid_reference(o);
        }
        match self.slot(o.index()) {
            Slot::Error(e) => e,
            _ => vstd::pervasive::unreached(),
        }
    }

    /// The namespace in slot `idx`.
    pub fn namespace(&self, idx: u64) -> (r: &Namespace)
        requires
            self.kind(idx as int) == Some(ObjectTag::Namespace),
        ensures
            self.at(idx as int) == Slot::Namespace(*r),
    {
        match self.slot(idx) {
            Slot::Namespace(n) => n,
            _ => vstd::pervasive::unreached(),
        }
    }

    /// Binds `key` to `val` in the namespace in slot `ns` and returns what it
    /// was bound to before.
    pub fn namespace_insert(&mut self, ns: u64, key: u64, val: Object) -> (r: Option<Object>)
        requires
            old(self).wf(),
            old(self).kind(ns as int) == Some(ObjectTag::Namespace),
            old(self).kind(key as int) == Some(ObjectTag::Sym),
            old(self).valid(val),
        ensures
            final(self).wf(),
            old(self).kinds_kept_by(*final(self)),
            final(self).kinds_kept_by(*old(self)),
            forall|j: int| j != ns ==> #[trigger] final(self).at(j) == old(self).at(j),
            final(self).free@ == old(self).free@,
            final(self).slots@.len() == old(self).slots@.len(),
            match (old(self).at(ns as int), final(self).at(ns as int)) {
                (Slot::Namespace(a), Slot::Namespace(b)) => {
                    &&& b.bindings() == a.bindings().insert(key, val)
                    &&& b.name == a.name
                    &&& b.gc_marking == a.gc_marking
                    &&& r == (if a.bindings().contains_key(key) {
                        Some(a.bindings()[key])
                    } else {
                        None
                    })
                },
                _ => false,
            },
    {
        let ghost before = *self;
        let n: usize = self.slots.len();
        assert(ns < n);
        let r = match &mut self.slots[ns as usize] {
            Slot::Namespace(n) => n.insert(key, val),
            _ => None,
        };
        proof {
            let i = ns as int;
            assert(before.slots@[i] == before.at(i));
            assert(before.slot_ok(before.slots@[i]));
            assert forall|j: int| j != i implies #[trigger] self.at(j) == before.at(j) by {}
            assert(before.kinds_kept_by(*self)) by {
                assert forall|j: int| #[trigger] before.kind(j) is Some implies self.kind(j)
                    == before.kind(j) by {
                    if j != i {
                        assert(self.at(j) == before.at(j));
                    }
                }
            }
            assert(self.kinds_kept_by(before)) by {
                assert forall|j: int| #[trigger] self.kind(j) is Some implies before.kind(j)
                    == self.kind(j) by {
                    if j != i {
                        assert(self.at(j) == before.at(j));
                    }
                }
            }
            let now = self.at(i);
            assert(self.slot_ok(now)) by {
                before.lemma_slot_ok_kept(*self, before.at(i));
                match (before.at(i), now) {
                    (Slot::Namespace(a), Slot::Namespace(b)) => {
                        assert forall|o: Object| #[trigger] now.holds(o) implies self.valid(
                            o,
                        ) by {
                            before.lemma_valid_kept(*self, val);
                            if b.name == Some(o) {
                                assert(before.at(i).holds(o));
                            } else {
                                let k = choose|k: u64|
                                    b.table@.dom().contains(k) && b.table@[k] == o;
                                if k != key {
                                    assert(a.table@.dom().contains(k) && a.table@[k] == o);
                                    assert(a.table@.contains_value(o));
                                    assert(before.at(i).holds(o));
                                }
                            }
                        }
                        assert forall|t: ObjectTag, j: u64| #[trigger]
                            now.names(t, j) implies self.kind(j as int) == Some(t) by {
                            if j != key {
                                assert(before.at(i).names(t, j));
                            } else {
                                assert(before.kind(key as int) is Some);
                            }
                        }
                    },
                    _ => {},
                }
            }
            self.lemma_wf_after_change(before, i);
        }
        r
    }

    /// Changing what a slot in use holds, but not its type nor, for a symbol,
    /// its name, keeps the invariant, if what it holds then can be used.
    pub proof fn lemma_wf_after_change(self, before: Heap, i: int)
        requires
            before.wf(),
            0 <= i < before.slots@.len(),
            i == 0 ==> (match self.at(0) {
                Slot::Error(e) => e.error == RlispErrorKind::RustError(ErrorKind::OutOfMemory),
                _ => false,
            }),
            self.slots@.len() == before.slots@.len(),
            self.free@ == before.free@,
            forall|j: int| j != i ==> #[trigger] self.at(j) == before.at(j),
            before.at(i).tag() is Some,
            self.at(i).tag() == before.at(i).tag(),
            self.slot_ok(self.at(i)),
            before.kinds_kept_by(self),
            match (before.at(i), self.at(i)) {
                (Slot::Sym(a), Slot::Sym(b)) => a.name@ == b.name@,
                _ => true,
            },
        ensures
            self.wf(),
    {
        assert(self.slots@[0] == self.at(0));
        assert(before.slots@[0] == before.at(0));
        assert(self.closed()) by {
            assert forall|j: int| 0 <= j < self.slots@.len() implies self.slot_ok(
                #[trigger] self.slots@[j],
            ) by {
                assert(self.slots@[j] == self.at(j));
                if j != i {
                    assert(before.slots@[j] == before.at(j));
                    before.lemma_slot_ok_kept(self, before.slots@[j]);
                }
            }
        }
        assert(self.names_unique()) by {
            assert forall|a: int, b: int|
                0 <= a < self.slots@.len() && 0 <= b < self.slots@.len() implies match (
                    #[trigger] self.slots@[a],
                    #[trigger] self.slots@[b],
                ) {
                    (Slot::Sym(x), Slot::Sym(y)) => x.name@ == y.name@ ==> a == b,
                    _ => true,
                } by {
                assert(self.slots@[a] == self.at(a));
                assert(self.slots@[b] == self.at(b));
                assert(before.slots@[a] == before.at(a));
                assert(before.slots@[b] == before.at(b));
            }
        }
        assert forall|k: int| 0 <= k < self.free@.len() implies 0 < #[trigger] self.free@[k]
            < self.slots@.len() && self.slots@[self.free@[k] as int] is Free by {
            let x = before.free@[k] as int;
            assert(before.slots@[x] == before.at(x));
            assert(x != i);
            assert(self.at(x) == before.at(x));
        }
        assert forall|j: int|
            0 <= j < self.slots@.len() && (#[trigger] self.slots@[j]) is Free
                implies self.free@.contains(j as u64) by {
            assert(self.slots@[j] == self.at(j));
            assert(j != i);
            assert(before.slots@[j] == before.at(j));
        }
    }
}

} // verus!
