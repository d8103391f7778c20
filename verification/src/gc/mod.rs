//! The mark-and-sweep collector.
//!
//! Every heap value carries a stamp. A collection walks what the evaluation
//! stack and the active scope frames can reach and stamps it with the current
//! marking, frees every slot whose stamp is another one, and then moves on to
//! the next marking.

use crate::lisp::allocate::{error_holds, Heap, Slot};
use crate::lisp::Lisp;
use crate::types::function::FunctionBody;
use crate::types::rlisperror::RlispErrorKind;
use crate::types::{ConsCell, Namespace, Object, ObjectTag, RlispError, RlispFunc};
use vstd::prelude::*;

verus! {

broadcast use vstd::std_specs::hash::group_hash_axioms;

/// A generation stamp.
pub type GcMark = usize;

/// True iff `o` is a reference to slot `x`.
pub open spec fn refers_to(o: Object, x: u64) -> bool {
    o.spec_ref_tag() is Some && o.spec_index() == x
}

impl Slot {
    /// True iff this slot refers to slot `x`: it holds a reference to it, or
    /// names it by its index.
    pub open spec fn refers(self, x: u64) -> bool {
        ||| exists|o: Object| #[trigger] self.holds(o) && refers_to(o, x)
        ||| exists|t: ObjectTag| #[trigger] self.names(t, x)
    }

    /// The stamp of a slot says nothing of what the slot refers to.
    pub proof fn lemma_marking_apart(self, mark: GcMark)
        ensures
            self.with_marking(mark).tag() == self.tag(),
            forall|o: Object| self.with_marking(mark).holds(o) == self.holds(o),
            forall|t: ObjectTag, j: u64| self.with_marking(mark).names(t, j) == self.names(t, j),
            forall|x: u64| self.with_marking(mark).refers(x) == self.refers(x),
            !(self is Free) ==> self.with_marking(mark).marking() == mark,
            self.with_marking(self.marking()) == self,
            forall|m: GcMark| self.with_marking(mark).with_marking(m) == self.with_marking(m),
    {
        let other = self.with_marking(mark);
        assert forall|x: u64| other.refers(x) == self.refers(x) by {
            if self.refers(x) {
                if exists|o: Object| #[trigger] self.holds(o) && refers_to(o, x) {
                    let o = choose|o: Object| #[trigger] self.holds(o) && refers_to(o, x);
                    assert(other.holds(o));
                } else {
                    let t = choose|t: ObjectTag| #[trigger] self.names(t, x);
                    assert(other.names(t, x));
                }
            }
            if other.refers(x) {
                if exists|o: Object| #[trigger] other.holds(o) && refers_to(o, x) {
                    let o = choose|o: Object| #[trigger] other.holds(o) && refers_to(o, x);
                    assert(self.holds(o));
                } else {
                    let t = choose|t: ObjectTag| #[trigger] other.names(t, x);
                    assert(self.names(t, x));
                }
            }
        }
    }
}

impl Heap {
    /// True iff slot `i` refers to slot `j`: it holds a reference to it, or
    /// names it by its index.
    pub open spec fn edge(self, i: int, j: int) -> bool {
        0 <= j <= u64::MAX && self.at(i).refers(j as u64)
    }

    /// The stamp of slot `idx`.
    pub fn marking_of(&self, idx: u64) -> (r: GcMark)
        requires
            self.kind(idx as int) is Some,
        ensures
            r == self.at(idx as int).marking(),
    {
        match self.slot(idx) {
            Slot::Free => 0,
            Slot::Cons(c) => c.gc_marking,
            Slot::Sym(s) => s.gc_marking,
            Slot::String(s) => s.gc_marking,
            Slot::Function(f) => f.gc_marking,
            Slot::Error(e) => e.gc_marking,
            Slot::Namespace(n) => n.gc_marking,
        }
    }

    /// Stamps slot `idx`.
    pub fn set_marking(&mut self, idx: u64, mark: GcMark)
        requires
            old(self).kind(idx as int) is Some,
        ensures
            final(self).at(idx as int) == old(self).at(idx as int).with_marking(mark),
            forall|j: int| j != idx ==> #[trigger] final(self).at(j) == old(self).at(j),
            final(self).free == old(self).free,
            final(self).slots@.len() == old(self).slots@.len(),
    {
        let n: usize = self.slots.len();
        assert(idx < n);
        match &mut self.slots[idx as usize] {
            Slot::Free => {},
            Slot::Cons(c) => {
                c.gc_marking = mark;
            },
            Slot::Sym(s) => {
                s.gc_marking = mark;
            },
            Slot::String(s) => {
                s.gc_marking = mark;
            },
            Slot::Function(f) => {
                f.gc_marking = mark;
            },
            Slot::Error(e) => {
                e.gc_marking = mark;
            },
            Slot::Namespace(n) => {
                n.gc_marking = mark;
            },
        }
    }
}

/// Puts the index of `o` at the end of `out` where `o` is a reference.
fn push_reference(out: &mut Vec<u64>, o: Object)
    ensures
        forall|x: u64|
            #![trigger final(out)@.contains(x)]
            final(out)@.contains(x) <==> old(out)@.contains(x) || refers_to(o, x),
{
    if o.ref_tag().is_some() {
        let ghost before = out@;
        out.push(o.index());
        proof {
            assert forall|x: u64| out@.contains(x) <==> before.contains(x) || refers_to(
                o,
                x,
            ) by {
                if before.contains(x) {
                    let k = choose|k: int| 0 <= k < before.len() && before[k] == x;
                    assert(out@[k] == x);
                }
                if refers_to(o, x) {
                    assert(out@[before.len() as int] == x);
                }
            }
        }
    }
}

/// Puts the index of `o` at the end of `out` where there is an `o` and it is
/// a reference.
fn push_optional(out: &mut Vec<u64>, o: Option<Object>)
    ensures
        forall|x: u64|
            #![trigger final(out)@.contains(x)]
            final(out)@.contains(x) <==> old(out)@.contains(x) || (o is Some && refers_to(
                o.unwrap(),
                x,
            )),
{
    match o {
        Some(v) => {
            push_reference(&mut *out, v);
        },
        None => {},
    }
}

/// Puts the indices of the references among `objs` at the end of `out`.
fn push_references(out: &mut Vec<u64>, objs: &Vec<Object>)
    ensures
        forall|x: u64|
            #![trigger final(out)@.contains(x)]
            final(out)@.contains(x) <==> old(out)@.contains(x) || exists|m: int|
                0 <= m < objs@.len() && refers_to(#[trigger] objs@[m], x),
{
    let mut k: usize = 0;
    while k < objs.len()
        invariant
            k <= objs@.len(),
            forall|x: u64|
                #![trigger out@.contains(x)]
                out@.contains(x) <==> old(out)@.contains(x) || exists|m: int|
                    0 <= m < k && refers_to(#[trigger] objs@[m], x),
        decreases objs@.len() - k,
    {
        push_reference(out, objs[k]);
        proof {
            assert forall|x: u64|
                out@.contains(x) <==> old(out)@.contains(x) || exists|m: int|
                    0 <= m < k + 1 && refers_to(#[trigger] objs@[m], x) by {
                if refers_to(objs@[k as int], x) {
                }
            }
        }
        k += 1;
    }
}

/// Puts `idxs` at the end of `out`.
fn push_indices(out: &mut Vec<u64>, idxs: &Vec<u64>)
    ensures
        forall|x: u64|
            #![trigger final(out)@.contains(x)]
            final(out)@.contains(x) <==> old(out)@.contains(x) || idxs@.contains(x),
{
    let mut k: usize = 0;
    while k < idxs.len()
        invariant
            k <= idxs@.len(),
            forall|x: u64|
                #![trigger out@.contains(x)]
                out@.contains(x) <==> old(out)@.contains(x) || exists|m: int|
                    0 <= m < k && #[trigger] idxs@[m] == x,
        decreases idxs@.len() - k,
    {
        let ghost before = out@;
        out.push(idxs[k]);
        proof {
            assert forall|x: u64|
                out@.contains(x) <==> old(out)@.contains(x) || exists|m: int|
                    0 <= m < k + 1 && #[trigger] idxs@[m] == x by {
                if before.contains(x) {
                    let q = choose|q: int| 0 <= q < before.len() && before[q] == x;
                    assert(out@[q] == x);
                }
                if idxs@[k as int] == x {
                    assert(out@[before.len() as int] == x);
                }
                if out@.contains(x) {
                    let q = choose|q: int| 0 <= q < out@.len() && out@[q] == x;
                    if q < before.len() {
                        assert(before[q] == x);
                    }
                }
            }
        }
        k += 1;
    }
}

/// The indices of the slots that the cell `c` refers to.
fn cons_children(c: &ConsCell) -> (out: Vec<u64>)
    ensures
        forall|x: u64| out@.contains(x) <==> Slot::Cons(*c).refers(x),
{
    let mut out: Vec<u64> = Vec::new();
    push_reference(&mut out, c.car);
    push_reference(&mut out, c.cdr);
    proof {
        let slot = Slot::Cons(*c);
        assert forall|x: u64| out@.contains(x) <==> slot.refers(x) by {
            if refers_to(c.car, x) {
                assert(slot.holds(c.car));
            }
            if refers_to(c.cdr, x) {
                assert(slot.holds(c.cdr));
            }
        }
    }
    out
}

/// The indices of the slots that the error `e` refers to.
fn error_children(e: &RlispError) -> (out: Vec<u64>)
    ensures
        forall|x: u64| out@.contains(x) <==> Slot::Error(*e).refers(x),
{
    let mut out: Vec<u64> = Vec::new();
    let (a, b, c) = match e.error {
        RlispErrorKind::WrongType { wanted, found } => (Some(wanted), Some(found), None),
        RlispErrorKind::BadArgsCount { min, max, found } => (Some(min), Some(max), Some(found)),
        RlispErrorKind::ImproperList => (None, None, None),
        RlispErrorKind::UnboundSymbol { sym } => (Some(sym), None, None),
        RlispErrorKind::RustError(_) => (None, None, None),
        RlispErrorKind::NotAType { found } => (Some(found), None, None),
        RlispErrorKind::Custom { kind, info } => (Some(kind), Some(info), None),
        RlispErrorKind::UndefinedSymbol { sym } => (Some(sym), None, None),
        RlispErrorKind::IndexOutOfBounds { idx, reciever } => (Some(idx), Some(reciever), None),
    };
    push_optional(&mut out, a);
    push_optional(&mut out, b);
    push_optional(&mut out, c);
    proof {
        let slot = Slot::Error(*e);
        assert forall|o: Object| slot.holds(o) <==> (a == Some(o) || b == Some(o) || c == Some(
            o,
        )) by {}
        assert forall|x: u64| out@.contains(x) <==> slot.refers(x) by {
            if a is Some && refers_to(a.unwrap(), x) {
                assert(slot.holds(a.unwrap()));
            }
            if b is Some && refers_to(b.unwrap(), x) {
                assert(slot.holds(b.unwrap()));
            }
            if c is Some && refers_to(c.unwrap(), x) {
                assert(slot.holds(c.unwrap()));
            }
        }
    }
    out
}

/// The indices of the slots that the function `f` refers to.
fn function_children(f: &RlispFunc) -> (out: Vec<u64>)
    ensures
        forall|x: u64| out@.contains(x) <==> Slot::Function(*f).refers(x),
{
    let mut out: Vec<u64> = Vec::new();
    push_optional(&mut out, f.arglist);
    push_optional(&mut out, f.name);
    match &f.body {
        FunctionBody::LispFn(b) => {
            push_references(&mut out, b);
        },
        _ => {},
    }
    match &f.scope {
        Some(s) => {
            push_indices(&mut out, s);
        },
        None => {},
    }
    proof {
        let slot = Slot::Function(*f);
        assert forall|x: u64| out@.contains(x) <==> slot.refers(x) by {
            if f.arglist is Some && refers_to(f.arglist.unwrap(), x) {
                assert(slot.holds(f.arglist.unwrap()));
            }
            if f.name is Some && refers_to(f.name.unwrap(), x) {
                assert(slot.holds(f.name.unwrap()));
            }
            match f.body {
                FunctionBody::LispFn(b) => {
                    if exists|m: int| 0 <= m < b@.len() && refers_to(#[trigger] b@[m], x) {
                        let m = choose|m: int| 0 <= m < b@.len() && refers_to(#[trigger] b@[m], x);
                        assert(b@.contains(b@[m]));
                        assert(slot.holds(b@[m]));
                    }
                },
                _ => {},
            }
            match f.scope {
                Some(sc) => {
                    if sc@.contains(x) {
                        assert(slot.names(ObjectTag::Namespace, x));
                    }
                },
                None => {},
            }
            if slot.refers(x) {
                if exists|o: Object| #[trigger] slot.holds(o) && refers_to(o, x) {
                    let o = choose|o: Object| #[trigger] slot.holds(o) && refers_to(o, x);
                    match f.body {
                        FunctionBody::LispFn(b) => {
                            if b@.contains(o) {
                                let m = choose|m: int| 0 <= m < b@.len() && b@[m] == o;
                                assert(refers_to(b@[m], x));
                            }
                        },
                        _ => {},
                    }
                } else {
                    let t = choose|t: ObjectTag| #[trigger] slot.names(t, x);
                }
            }
        }
    }
    out
}

/// The indices of the slots that the namespace `n` refers to.
fn namespace_children(n: &Namespace) -> (out: Vec<u64>)
    requires
        n.wf(),
    ensures
        forall|x: u64| out@.contains(x) <==> Slot::Namespace(*n).refers(x),
{
    let mut out: Vec<u64> = Vec::new();
    push_optional(&mut out, n.name);
    push_indices(&mut out, &n.order);
    let ghost base = out@;
    let mut k: usize = 0;
    while k < n.order.len()
        invariant
            n.wf(),
            k <= n.order@.len(),
            forall|x: u64|
                #![trigger out@.contains(x)]
                out@.contains(x) <==> base.contains(x) || exists|m: int|
                    0 <= m < k && refers_to(n.table@[#[trigger] n.order@[m]], x),
        decreases n.order@.len() - k,
    {
        let key: u64 = n.order[k];
        assert(n.order@.contains(key));
        assert(n.table@.contains_key(key));
        let ghost before = out@;
        let val = n.get(key);
        assert(val == Some(n.table@[key]));
        push_optional(&mut out, val);
        proof {
            let v = n.table@[key];
            assert forall|x: u64|
                out@.contains(x) <==> base.contains(x) || exists|m: int|
                    0 <= m < k + 1 && refers_to(n.table@[#[trigger] n.order@[m]], x) by {
                if out@.contains(x) {
                    if before.contains(x) {
                        if !base.contains(x) {
                            let m = choose|m: int|
                                0 <= m < k && refers_to(n.table@[#[trigger] n.order@[m]], x);
                            assert(0 <= m < k + 1);
                        }
                    } else {
                        assert(refers_to(v, x));
                        assert(refers_to(n.table@[n.order@[k as int]], x));
                    }
                }
                if exists|m: int|
                    0 <= m < k + 1 && refers_to(n.table@[#[trigger] n.order@[m]], x) {
                    let m = choose|m: int|
                        0 <= m < k + 1 && refers_to(n.table@[#[trigger] n.order@[m]], x);
                    if m < k {
                        assert(before.contains(x));
                    } else {
                        assert(refers_to(v, x));
                    }
                }
            }
        }
        k += 1;
    }
    proof {
        let slot = Slot::Namespace(*n);
        assert forall|x: u64| out@.contains(x) <==> slot.refers(x) by {
            if n.name is Some && refers_to(n.name.unwrap(), x) {
                assert(slot.holds(n.name.unwrap()));
            }
            if n.order@.contains(x) {
                assert(slot.names(ObjectTag::Sym, x));
            }
            if exists|m: int| 0 <= m < k && refers_to(n.table@[#[trigger] n.order@[m]], x) {
                let m = choose|m: int|
                    0 <= m < k && refers_to(n.table@[#[trigger] n.order@[m]], x);
                let key = n.order@[m];
                assert(n.order@.contains(key));
                assert(n.table@.contains_key(key));
                assert(n.table@.contains_value(n.table@[key]));
                assert(slot.holds(n.table@[key]));
            }
            if slot.refers(x) {
                if exists|o: Object| #[trigger] slot.holds(o) && refers_to(o, x) {
                    let o = choose|o: Object| #[trigger] slot.holds(o) && refers_to(o, x);
                    if n.name != Some(o) {
                        let key = choose|key: u64|
                            n.table@.dom().contains(key) && n.table@[key] == o;
                        assert(n.order@.contains(key));
                        let m = choose|m: int| 0 <= m < n.order@.len() && n.order@[m] == key;
                        assert(refers_to(n.table@[n.order@[m]], x));
                    }
                } else {
                    let t = choose|t: ObjectTag| #[trigger] slot.names(t, x);
                    assert(n.order@.contains(x));
                }
            }
        }
    }
    out
}

impl Heap {
    /// What a slot refers to is in use, and so is the slot.
    pub proof fn lemma_edge_valid(self, i: int, j: int)
        requires
            self.wf(),
            self.edge(i, j),
        ensures
            self.kind(i) is Some,
            self.kind(j) is Some,
            0 <= j < self.slots@.len(),
            0 <= i < self.slots@.len(),
    {
        let slot = self.at(i);
        assert(!(slot is Free));
        assert(slot == self.slots@[i]);
        assert(self.slot_ok(self.slots@[i]));
        let x = j as u64;
        if exists|o: Object| #[trigger] slot.holds(o) && refers_to(o, x) {
            let o = choose|o: Object| #[trigger] slot.holds(o) && refers_to(o, x);
            assert(self.valid(o));
        } else {
            let t = choose|t: ObjectTag| #[trigger] slot.names(t, x);
            assert(self.kind(x as int) == Some(t));
        }
    }

    /// The indices of the slots that slot `idx` refers to.
    pub fn children_of(&self, idx: u64) -> (out: Vec<u64>)
        requires
            self.wf(),
            self.kind(idx as int) is Some,
        ensures
            forall|x: u64| out@.contains(x) <==> self.edge(idx as int, x as int),
    {
        proof {
            assert(self.slots@[idx as int] == self.at(idx as int));
            assert(self.slot_ok(self.slots@[idx as int]));
        }
        match self.slot(idx) {
            Slot::Cons(c) => cons_children(c),
            Slot::Error(e) => error_children(e),
            Slot::Function(f) => function_children(f),
            Slot::Namespace(n) => namespace_children(n),
            _ => Vec::new(),
        }
    }
}

/// True iff `path` starts at one of `seeds` and goes on along the references
/// of `heap`: each slot of it refers to the next.
pub open spec fn is_path(heap: Heap, seeds: Set<u64>, path: Seq<int>) -> bool {
    &&& path.len() > 0
    &&& 0 <= path[0] <= u64::MAX
    &&& seeds.contains(path[0] as u64)
    &&& forall|k: int| 0 <= k < path.len() - 1 ==> heap.edge(#[trigger] path[k], path[k + 1])
}

/// True iff slot `j` is one of `seeds` or is reached from one of them along
/// the references of `heap`.
pub open spec fn reach(heap: Heap, seeds: Set<u64>, j: int) -> bool {
    exists|path: Seq<int>| #[trigger] is_path(heap, seeds, path) && path.last() == j
}

/// A seed is reached.
pub proof fn lemma_reach_seed(heap: Heap, seeds: Set<u64>, x: u64)
    requires
        seeds.contains(x),
    ensures
        reach(heap, seeds, x as int),
{
    let path = seq![x as int];
    assert(is_path(heap, seeds, path) && path.last() == x as int);
}

/// What a reached slot refers to is reached.
pub proof fn lemma_reach_step(heap: Heap, seeds: Set<u64>, i: int, j: int)
    requires
        reach(heap, seeds, i),
        heap.edge(i, j),
    ensures
        reach(heap, seeds, j),
{
    let path = choose|path: Seq<int>| #[trigger] is_path(heap, seeds, path) && path.last() == i;
    let longer = path.push(j);
    assert forall|k: int| 0 <= k < longer.len() - 1 implies heap.edge(
        #[trigger] longer[k],
        longer[k + 1],
    ) by {
        if k < path.len() - 1 {
            assert(heap.edge(path[k], path[k + 1]));
        }
    }
    assert(is_path(heap, seeds, longer) && longer.last() == j);
}

impl Heap {
    /// True iff `later` is this heap with some slots stamped anew with
    /// `mark`, and nothing else changed.
    pub open spec fn restamped_to(self, later: Heap, mark: GcMark) -> bool {
        &&& later.free == self.free
        &&& later.slots@.len() == self.slots@.len()
        &&& forall|i: int|
            0 <= i < self.slots@.len() ==> (#[trigger] later.slots@[i]) == self.slots@[i]
                || later.slots@[i] == self.slots@[i].with_marking(mark)
    }

    /// Stamps say nothing of what refers to what.
    pub proof fn lemma_restamped_edges(self, later: Heap, mark: GcMark)
        requires
            self.restamped_to(later, mark),
        ensures
            forall|i: int, j: int| #[trigger] later.edge(i, j) == self.edge(i, j),
            forall|i: int| #[trigger] later.kind(i) == self.kind(i),
            forall|o: Object| #[trigger] later.valid(o) == self.valid(o),
    {
        assert forall|i: int| #[trigger] later.kind(i) == self.kind(i) by {
            if 0 <= i < self.slots@.len() {
                assert(later.slots@[i] == later.at(i));
                self.slots@[i].lemma_marking_apart(mark);
            }
        }
        assert forall|i: int, j: int| #[trigger] later.edge(i, j) == self.edge(i, j) by {
            if 0 <= i < self.slots@.len() {
                assert(later.slots@[i] == later.at(i));
                self.slots@[i].lemma_marking_apart(mark);
            }
        }
        assert forall|o: Object| #[trigger] later.valid(o) == self.valid(o) by {
            assert(later.kind(o.spec_index()) == self.kind(o.spec_index()));
        }
    }

    /// A heap stamped anew is as well formed as it was.
    pub proof fn lemma_restamped_wf(self, later: Heap, mark: GcMark)
        requires
            self.wf(),
            self.restamped_to(later, mark),
        ensures
            later.wf(),
    {
        self.lemma_restamped_edges(later, mark);
        assert forall|i: int| 0 <= i < later.slots@.len() implies later.slot_ok(
            #[trigger] later.slots@[i],
        ) by {
            let a = self.slots@[i];
            let b = later.slots@[i];
            a.lemma_marking_apart(mark);
            assert(self.slot_ok(a));
            assert forall|o: Object| #[trigger] b.holds(o) implies later.valid(o) by {
                assert(a.holds(o));
            }
            assert forall|t: ObjectTag, j: u64| #[trigger] b.names(t, j) implies later.kind(
                j as int,
            ) == Some(t) by {
                assert(a.names(t, j));
            }
        }
        assert(later.names_unique()) by {
            assert forall|a: int, b: int|
                0 <= a < later.slots@.len() && 0 <= b < later.slots@.len() implies match (
                    #[trigger] later.slots@[a],
                    #[trigger] later.slots@[b],
                ) {
                    (Slot::Sym(x), Slot::Sym(y)) => x.name@ == y.name@ ==> a == b,
                    _ => true,
                } by {
                let p = self.slots@[a];
                let q = self.slots@[b];
            }
        }
        assert forall|k: int| 0 <= k < later.free@.len() implies 0 < #[trigger] later.free@[k]
            < later.slots@.len() && later.slots@[later.free@[k] as int] is Free by {
            let x = self.free@[k] as int;
            assert(self.slots@[x] is Free);
        }
        assert forall|i: int|
            0 <= i < later.slots@.len() && (#[trigger] later.slots@[i]) is Free
                implies later.free@.contains(i as u64) by {
            assert(self.slots@[i] is Free);
        }
        assert(self.slots@[0].with_marking(mark) is Error);
    }
}

impl Lisp {
    /// The slots that the values on the evaluation stack name.
    pub open spec fn stack_roots(self) -> Set<u64> {
        Set::new(
            |x: u64| exists|k: int| 0 <= k < self.stack@.len() && refers_to(#[trigger] self.stack@[k], x),
        )
    }

    /// The slots of the active frames.
    pub open spec fn scope_roots(self) -> Set<u64> {
        self.symbols@.to_set()
    }

    /// True iff slot `i` is reached from the evaluation stack or from an
    /// active frame, or is slot 0, which holds the full-heap error.
    pub open spec fn reachable(self, i: int) -> bool {
        i == 0 || reach(self.heap, self.stack_roots(), i) || reach(
            self.heap,
            self.scope_roots(),
            i,
        )
    }

    /// What a collection does to the heap: `later` is the runtime afterwards.
    /// Every slot that is reached holds what it held, stamped with the
    /// marking that the collection ran under; every other slot is free.
    pub open spec fn collected_to(self, later: Lisp) -> bool {
        &&& later.heap.slots@.len() == self.heap.slots@.len()
        &&& forall|j: int|
            0 <= j < self.heap.slots@.len() ==> #[trigger] later.heap.slots@[j] == (
            if self.reachable(j) {
                self.heap.slots@[j].with_marking((later.current_gc_mark - 1) as usize)
            } else {
                Slot::Free
            })
    }

    /// What stands on the evaluation stack is reached, and so is every
    /// active frame.
    pub proof fn lemma_roots_reachable(self)
        ensures
            forall|k: int|
                0 <= k < self.stack@.len() && (#[trigger] self.stack@[k]).spec_ref_tag() is Some
                    ==> self.reachable(self.stack@[k].spec_index()),
            forall|k: int|
                0 <= k < self.symbols@.len() ==> self.reachable(#[trigger] self.symbols@[k] as int),
    {
        assert forall|k: int|
            0 <= k < self.stack@.len() && (#[trigger] self.stack@[k]).spec_ref_tag()
                is Some implies self.reachable(self.stack@[k].spec_index()) by {
            let o = self.stack@[k];
            let b = o.raw();
            assert((b & 0x0000_FFFF_FFFF_FFFFu64) < 0x0001_0000_0000_0000u64) by (bit_vector);
            let x = o.spec_index() as u64;
            assert(refers_to(self.stack@[k], x));
            assert(self.stack_roots().contains(x));
            lemma_reach_seed(self.heap, self.stack_roots(), x);
        }
        assert forall|k: int| 0 <= k < self.symbols@.len() implies self.reachable(
            #[trigger] self.symbols@[k] as int,
        ) by {
            let x = self.symbols@[k];
            assert(self.symbols@.contains(x));
            lemma_reach_seed(self.heap, self.scope_roots(), x);
        }
    }

    /// A collection keeps what is reached and frees the rest: of a runtime
    /// `before` and the runtime `after` a collection of it, a value on the
    /// evaluation stack of `before` that could be used can be used in
    /// `after`, and names a slot that holds there what it held, but for the
    /// stamp; and every slot that is reached neither from the stack nor from
    /// an active frame, slot 0 apart, is free in `after`.
    pub proof fn lemma_collection_keeps_reached(before: Lisp, after: Lisp, k: int, i: int)
        requires
            before.inv(),
            before.collected_to(after),
        ensures
            0 <= k < before.stack@.len() ==> after.heap.valid(before.stack@[k]),
            0 <= k < before.stack@.len() && before.stack@[k].spec_ref_tag() is Some ==> {
                let j = before.stack@[k].spec_index();
                after.heap.at(j).with_marking(0) == before.heap.at(j).with_marking(0)
            },
            0 < i < before.heap.slots@.len() && !before.reachable(i) ==> after.heap.at(i)
                is Free,
    {
        before.lemma_roots_reachable();
        if 0 <= k < before.stack@.len() {
            let o = before.stack@[k];
            assert(before.heap.valid(o));
            if o.spec_ref_tag() is Some {
                before.heap.lemma_valid_reference(o);
                let j = o.spec_index();
                let a = before.heap.slots@[j];
                assert(after.heap.slots@[j] == a.with_marking(
                    (after.current_gc_mark - 1) as usize,
                ));
                a.lemma_marking_apart((after.current_gc_mark - 1) as usize);
                assert(after.heap.at(j) == after.heap.slots@[j]);
            }
        }
        if 0 < i < before.heap.slots@.len() && !before.reachable(i) {
            assert(after.heap.slots@[i] == Slot::Free);
        }
    }

    /// True iff slot `i` is in use and carries the current marking.
    pub open spec fn marked(self, i: int) -> bool {
        self.heap.kind(i) is Some && self.heap.at(i).marking() == self.current_gc_mark
    }

    /// Whatever a marked slot refers to is marked.
    pub open spec fn marks_closed(self) -> bool {
        forall|i: int, x: u64|
            self.marked(i) && #[trigger] self.heap.edge(i, x as int) ==> self.marked(x as int)
    }

    /// True iff `later` is this runtime with some slots stamped anew with
    /// `mark`, and nothing else changed.
    pub open spec fn restamped_to(self, later: Lisp, mark: GcMark) -> bool {
        &&& later == (Lisp { heap: later.heap, ..self })
        &&& self.heap.restamped_to(later.heap, mark)
    }

    /// A runtime stamped anew has the shape it had.
    pub proof fn lemma_restamped_shape(self, later: Lisp, mark: GcMark)
        requires
            self.shape(),
            self.restamped_to(later, mark),
        ensures
            later.shape(),
    {
        self.heap.lemma_restamped_wf(later.heap, mark);
        self.heap.lemma_restamped_edges(later.heap, mark);
        assert forall|i: int|
            0 <= i < later.heap.slots@.len() && (#[trigger] later.heap.slots@[i]) is Sym
                implies later.syms_in_memory@.contains(i as u64) by {
            self.heap.slots@[i].lemma_marking_apart(mark);
            assert(self.heap.slots@[i] is Sym);
        }
    }

    /// Where the seeds are marked and whatever a marked slot refers to is
    /// marked, the end of every path from a seed is marked.
    pub proof fn lemma_path_marked(self, graph: Heap, seeds: Set<u64>, path: Seq<int>)
        requires
            forall|x: u64| seeds.contains(x) ==> self.marked(x as int),
            forall|i: int, x: u64|
                self.marked(i) && #[trigger] graph.edge(i, x as int) ==> self.marked(x as int),
            is_path(graph, seeds, path),
        ensures
            self.marked(path.last()),
        decreases path.len(),
    {
        if path.len() == 1 {
            assert(seeds.contains(path[0] as u64));
        } else {
            let shorter = path.drop_last();
            assert forall|k: int| 0 <= k < shorter.len() - 1 implies graph.edge(
                #[trigger] shorter[k],
                shorter[k + 1],
            ) by {
                assert(graph.edge(path[k], path[k + 1]));
            }
            self.lemma_path_marked(graph, seeds, shorter);
            let i = path[path.len() - 2];
            let j = path.last();
            assert(shorter.last() == i);
            assert(graph.edge(path[path.len() - 2], path[path.len() - 2 + 1]));
            assert(0 <= j <= u64::MAX);
            assert(graph.edge(i, (j as u64) as int));
        }
    }

    /// Stamps with the current marking every slot that is reached from
    /// `seeds`, on top of the slots that carry it already.
    pub fn mark_from(&mut self, seeds: Vec<u64>)
        requires
            old(self).shape(),
            old(self).current_gc_mark >= 1,
            old(self).marks_below(old(self).current_gc_mark + 1),
            old(self).marks_closed(),
            forall|k: int|
                0 <= k < seeds@.len() ==> old(self).heap.kind(#[trigger] seeds@[k] as int) is Some,
        ensures
            old(self).restamped_to(*final(self), old(self).current_gc_mark),
            final(self).shape(),
            final(self).marks_below(old(self).current_gc_mark + 1),
            final(self).marks_closed(),
            forall|i: int|
                #![trigger final(self).marked(i)]
                final(self).marked(i) <==> old(self).marked(i) || reach(
                    old(self).heap,
                    seeds@.to_set(),
                    i,
                ),
    {
        let ghost graph = old(self).heap;
        let ghost roots = seeds@.to_set();
        let mark: GcMark = self.current_gc_mark;
        let mut work = seeds;
        let ghost mut unmarked: Set<int> = vstd::set_lib::set_int_range(
            0,
            self.heap.slots@.len() as int,
        );
        proof {
            vstd::set_lib::lemma_int_range(0, self.heap.slots@.len() as int);
            assert forall|k: int| 0 <= k < work@.len() implies reach(
                graph,
                roots,
                #[trigger] work@[k] as int,
            ) by {
                assert(roots.contains(work@[k]));
                lemma_reach_seed(graph, roots, work@[k]);
            }
        }
        while work.len() > 0
            invariant
                old(self).shape(),
                old(self).current_gc_mark >= 1,
                old(self).marks_below(old(self).current_gc_mark + 1),
                graph == old(self).heap,
                roots == seeds@.to_set(),
                mark == old(self).current_gc_mark,
                old(self).restamped_to(*self, mark),
                self.heap.wf(),
                forall|k: int|
                    0 <= k < work@.len() ==> graph.kind(#[trigger] work@[k] as int) is Some,
                forall|k: int| 0 <= k < work@.len() ==> reach(graph, roots, #[trigger] work@[k] as int),
                forall|i: int|
                    #![trigger self.marked(i)]
                    self.marked(i) ==> old(self).marked(i) || reach(graph, roots, i),
                forall|i: int, x: u64|
                    self.marked(i) && #[trigger] graph.edge(i, x as int) ==> self.marked(x as int)
                        || work@.contains(x),
                forall|x: u64| #[trigger] roots.contains(x) ==> self.marked(x as int) || work@.contains(x),
                unmarked.finite(),
                forall|i: int|
                    0 <= i < self.heap.slots@.len() && !self.marked(i) ==> #[trigger] unmarked.contains(i),
            decreases unmarked.len(), work@.len(),
        {
            let ghost before = *self;
            let ghost work_before = work@;
            let idx: u64 = work.pop().unwrap();
            proof {
                old(self).heap.lemma_restamped_edges(self.heap, mark);
                assert(work_before[work_before.len() - 1] == idx);
                assert(graph.kind(idx as int) is Some);
                assert forall|x: u64| work_before.contains(x) implies x == idx || work@.contains(
                    x,
                ) by {
                    let k = choose|k: int| 0 <= k < work_before.len() && work_before[k] == x;
                    if k < work@.len() {
                        assert(work@[k] == x);
                    }
                }
            }
            if self.heap.marking_of(idx) != mark {
                let kids = self.heap.children_of(idx);
                self.heap.set_marking(idx, mark);
                let ghost work_mid = work@;
                push_indices(&mut work, &kids);
                proof {
                    let i0 = idx as int;
                    assert(before.heap.slots@[i0] == before.heap.at(i0));
                    assert(self.heap.slots@[i0] == self.heap.at(i0));
                    before.heap.at(i0).lemma_marking_apart(mark);
                    graph.slots@[i0].lemma_marking_apart(mark);
                    assert forall|i: int| 0 <= i < graph.slots@.len() implies (
                    #[trigger] self.heap.slots@[i]) == graph.slots@[i] || self.heap.slots@[i]
                        == graph.slots@[i].with_marking(mark) by {
                        assert(self.heap.slots@[i] == self.heap.at(i));
                        assert(before.heap.slots@[i] == before.heap.at(i));
                        if i != i0 {
                            assert(self.heap.at(i) == before.heap.at(i));
                        }
                    }
                    graph.lemma_restamped_wf(self.heap, mark);
                    assert(!before.marked(i0));
                    assert(unmarked.contains(i0));
                    unmarked = unmarked.remove(i0);
                    assert forall|i: int| #![trigger self.marked(i)] self.marked(i) implies i == i0
                        || before.marked(i) by {
                        if i != i0 {
                            assert(self.heap.at(i) == before.heap.at(i));
                        }
                    }
                    assert forall|i: int| before.marked(i) implies #[trigger] self.marked(i) by {
                        if i != i0 {
                            assert(self.heap.at(i) == before.heap.at(i));
                        }
                    }
                    assert(self.marked(i0));
                    assert forall|k: int| 0 <= k < work@.len() implies graph.kind(
                        #[trigger] work@[k] as int,
                    ) is Some && reach(graph, roots, work@[k] as int) by {
                        let x = work@[k];
                        assert(work@.contains(x));
                        if work_mid.contains(x) {
                            let q = choose|q: int| 0 <= q < work_mid.len() && work_mid[q] == x;
                            assert(work_before[q] == x);
                        } else {
                            assert(kids@.contains(x));
                            assert(before.heap.edge(i0, x as int));
                            assert(graph.edge(i0, x as int));
                            graph.lemma_edge_valid(i0, x as int);
                            lemma_reach_step(graph, roots, i0, x as int);
                        }
                    }
                    assert forall|i: int, x: u64|
                        self.marked(i) && #[trigger] graph.edge(i, x as int) implies self.marked(
                            x as int,
                        ) || work@.contains(x) by {
                        if i == i0 {
                            assert(before.heap.edge(i0, x as int));
                            assert(kids@.contains(x));
                        } else {
                            assert(before.marked(i));
                            if before.marked(x as int) {
                            } else {
                                assert(work_before.contains(x));
                                if x != idx {
                                    assert(work_mid.contains(x));
                                }
                            }
                        }
                    }
                    assert forall|x: u64| #[trigger] roots.contains(x) implies self.marked(
                        x as int,
                    ) || work@.contains(x) by {
                        if before.marked(x as int) {
                        } else {
                            assert(work_before.contains(x));
                            if x != idx {
                                assert(work_mid.contains(x));
                            }
                        }
                    }
                }
            } else {
                proof {
                    assert(self.marked(idx as int));
                }
            }
        }
        proof {
            old(self).lemma_restamped_shape(*self, mark);
            old(self).heap.lemma_restamped_edges(self.heap, mark);
            assert forall|i: int| 0 <= i < self.heap.slots@.len() implies (
            #[trigger] self.heap.slots@[i]).marking() < mark + 1 by {
                old(self).heap.slots@[i].lemma_marking_apart(mark);
            }
            assert forall|i: int| #![trigger self.marked(i)] old(self).marked(i) implies self.marked(
                i,
            ) by {
                assert(old(self).heap.slots@[i] == old(self).heap.at(i));
                assert(self.heap.slots@[i] == self.heap.at(i));
                old(self).heap.slots@[i].lemma_marking_apart(mark);
            }
            assert forall|i: int| reach(graph, roots, i) implies #[trigger] self.marked(i) by {
                let path = choose|path: Seq<int>|
                    #[trigger] is_path(graph, roots, path) && path.last() == i;
                self.lemma_path_marked(graph, roots, path);
            }
        }
    }

    /// Stamps with the current marking whatever is reached from the
    /// evaluation stack.
    pub fn mark_stack(&mut self)
        requires
            old(self).shape(),
            old(self).current_gc_mark >= 1,
            old(self).marks_below(old(self).current_gc_mark + 1),
            old(self).marks_closed(),
        ensures
            old(self).restamped_to(*final(self), old(self).current_gc_mark),
            final(self).shape(),
            final(self).marks_below(old(self).current_gc_mark + 1),
            final(self).marks_closed(),
            forall|i: int|
                #![trigger final(self).marked(i)]
                final(self).marked(i) <==> old(self).marked(i) || reach(
                    old(self).heap,
                    old(self).stack_roots(),
                    i,
                ),
    {
        let mut seeds: Vec<u64> = Vec::new();
        push_references(&mut seeds, &self.stack);
        proof {
            assert(seeds@.to_set() =~= self.stack_roots());
            assert forall|k: int| 0 <= k < seeds@.len() implies self.heap.kind(
                #[trigger] seeds@[k] as int,
            ) is Some by {
                let x = seeds@[k];
                assert(seeds@.contains(x));
                let m = choose|m: int|
                    0 <= m < self.stack@.len() && refers_to(#[trigger] self.stack@[m], x);
                assert(self.heap.valid(self.stack@[m]));
            }
        }
        self.mark_from(seeds);
    }

    /// Stamps with the current marking whatever is reached from the active
    /// frames.
    pub fn mark_scope(&mut self)
        requires
            old(self).shape(),
            old(self).current_gc_mark >= 1,
            old(self).marks_below(old(self).current_gc_mark + 1),
            old(self).marks_closed(),
        ensures
            old(self).restamped_to(*final(self), old(self).current_gc_mark),
            final(self).shape(),
            final(self).marks_below(old(self).current_gc_mark + 1),
            final(self).marks_closed(),
            forall|i: int|
                #![trigger final(self).marked(i)]
                final(self).marked(i) <==> old(self).marked(i) || reach(
                    old(self).heap,
                    old(self).scope_roots(),
                    i,
                ),
    {
        let mut seeds: Vec<u64> = Vec::new();
        push_indices(&mut seeds, &self.symbols);
        proof {
            assert(seeds@.to_set() =~= self.scope_roots());
            assert forall|k: int| 0 <= k < seeds@.len() implies self.heap.kind(
                #[trigger] seeds@[k] as int,
            ) is Some by {
                let x = seeds@[k];
                assert(seeds@.contains(x));
                let m = choose|m: int| 0 <= m < self.symbols@.len() && self.symbols@[m] == x;
                assert(self.heap.kind(self.symbols@[m] as int) is Some);
            }
        }
        self.mark_from(seeds);
    }

    /// Stamps with the current marking whatever is reached from `obj`.
    pub fn mark(&mut self, obj: Object)
        requires
            old(self).shape(),
            old(self).current_gc_mark >= 1,
            old(self).marks_below(old(self).current_gc_mark + 1),
            old(self).marks_closed(),
            old(self).heap.valid(obj),
        ensures
            old(self).restamped_to(*final(self), old(self).current_gc_mark),
            final(self).shape(),
            final(self).marks_below(old(self).current_gc_mark + 1),
            final(self).marks_closed(),
            forall|i: int|
                #![trigger final(self).marked(i)]
                final(self).marked(i) <==> old(self).marked(i) || reach(
                    old(self).heap,
                    Set::new(|x: u64| refers_to(obj, x)),
                    i,
                ),
    {
        let mut seeds: Vec<u64> = Vec::new();
        push_reference(&mut seeds, obj);
        proof {
            assert(seeds@.to_set() =~= Set::new(|x: u64| refers_to(obj, x)));
            assert forall|k: int| 0 <= k < seeds@.len() implies self.heap.kind(
                #[trigger] seeds@[k] as int,
            ) is Some by {
                assert(seeds@.contains(seeds@[k]));
            }
        }
        self.mark_from(seeds);
    }

    /// The current marking.
    pub fn current_marking(&self) -> (r: GcMark)
        ensures
            r == self.current_gc_mark,
    {
        self.current_gc_mark
    }

    /// True iff more slots are in use than the threshold allows.
    pub fn should_gc_run(&self) -> (r: bool)
        requires
            self.heap.wf(),
        ensures
            r == (self.heap.live_count() > self.gc_threshold),
    {
        self.heap.len() > self.gc_threshold
    }

    /// Sets the threshold to twice the number of slots in use, or to the
    /// largest number there is where twice that number is larger.
    pub fn update_gc_threshold(&mut self)
        requires
            old(self).heap.wf(),
        ensures
            *final(self) == (Lisp { gc_threshold: final(self).gc_threshold, ..*old(self) }),
            final(self).gc_threshold == (if 2 * old(self).heap.live_count() <= usize::MAX {
                2 * old(self).heap.live_count()
            } else {
                usize::MAX as int
            }),
    {
        let live: usize = self.heap.len();
        if live > usize::MAX / 2 {
            self.gc_threshold = usize::MAX;
        } else {
            self.gc_threshold = 2 * live;
        }
    }

    /// Frees every slot but slot 0 that does not carry the current marking,
    /// and takes the symbols among them out of the table of interned
    /// symbols. To keep the runtime in shape, the caller has marked what the
    /// evaluation stack and the active frames name, and whatever a marked
    /// slot refers to.
    pub fn sweep(&mut self)
        requires
            old(self).shape(),
            old(self).current_gc_mark >= 1,
            old(self).marks_below(old(self).current_gc_mark + 1),
            old(self).marks_closed(),
            forall|x: u64| old(self).stack_roots().contains(x) ==> old(self).marked(x as int),
            forall|x: u64| old(self).scope_roots().contains(x) ==> old(self).marked(x as int),
        ensures
            *final(self) == (Lisp {
                heap: final(self).heap,
                syms_in_memory: final(self).syms_in_memory,
                ..*old(self)
            }),
            final(self).heap.slots@.len() == old(self).heap.slots@.len(),
            forall|j: int|
                0 <= j < old(self).heap.slots@.len() ==> #[trigger] final(self).heap.slots@[j] == (
                if j == 0 || old(self).marked(j) {
                    old(self).heap.slots@[j]
                } else {
                    Slot::Free
                }),
            final(self).shape(),
            final(self).marks_below(old(self).current_gc_mark + 1),
    {
        let mark: GcMark = self.current_gc_mark;
        let n: usize = self.heap.slots.len();
        let ghost before = *self;
        let mut i: usize = 1;
        while i < n
            invariant
                1 <= i <= n,
                n == before.heap.slots@.len(),
                n == self.heap.slots@.len(),
                mark == before.current_gc_mark,
                before.heap.wf(),
                *self == (Lisp { heap: self.heap, ..before }),
                forall|j: int|
                    0 <= j < n ==> #[trigger] self.heap.slots@[j] == (if 1 <= j < i
                        && !before.marked(j) {
                        Slot::Free
                    } else {
                        before.heap.slots@[j]
                    }),
                self.heap.free@.no_duplicates(),
                forall|k: int|
                    0 <= k < self.heap.free@.len() ==> 0 < #[trigger] self.heap.free@[k] < n
                        && self.heap.slots@[self.heap.free@[k] as int] is Free,
                forall|j: int|
                    0 <= j < n && (#[trigger] self.heap.slots@[j]) is Free
                        ==> self.heap.free@.contains(j as u64),
            decreases n - i,
        {
            let idx: u64 = i as u64;
            let ghost mid = *self;
            assert(self.heap.slots@[i as int] == before.heap.slots@[i as int]);
            assert(self.heap.at(i as int) == self.heap.slots@[i as int]);
            assert(before.heap.at(i as int) == before.heap.slots@[i as int]);
            if self.heap.kind_of(idx).is_some() && self.heap.marking_of(idx) != mark {
                self.heap.slots.set(i, Slot::Free);
                self.heap.free.push(idx);
                proof {
                    assert(!before.marked(i as int));
                    assert(!mid.heap.free@.contains(idx)) by {
                        if mid.heap.free@.contains(idx) {
                            let k = choose|k: int|
                                0 <= k < mid.heap.free@.len() && mid.heap.free@[k] == idx;
                            assert(mid.heap.slots@[mid.heap.free@[k] as int] is Free);
                        }
                    }
                    assert forall|k: int| 0 <= k < self.heap.free@.len() implies 0
                        < #[trigger] self.heap.free@[k] < n
                        && self.heap.slots@[self.heap.free@[k] as int] is Free by {
                        if k < mid.heap.free@.len() {
                            assert(self.heap.free@[k] == mid.heap.free@[k]);
                            assert(mid.heap.slots@[mid.heap.free@[k] as int] is Free);
                        }
                    }
                    assert forall|j: int|
                        0 <= j < n && (#[trigger] self.heap.slots@[j]) is Free
                            implies self.heap.free@.contains(j as u64) by {
                        if j == i {
                            assert(self.heap.free@[mid.heap.free@.len() as int] == idx);
                        } else {
                            assert(mid.heap.slots@[j] is Free);
                            let k = choose|k: int|
                                0 <= k < mid.heap.free@.len() && mid.heap.free@[k] == j as u64;
                            assert(self.heap.free@[k] == j as u64);
                        }
                    }
                }
            } else {
                proof {
                    if !before.marked(i as int) {
                        assert(before.heap.slots@[i as int] is Free);
                    }
                }
            }
            i += 1;
        }
        let ghost swept = *self;
        proof {
            assert forall|j: int| 0 <= j < n implies #[trigger] self.heap.slots@[j] == (if j == 0
                || before.marked(j) {
                before.heap.slots@[j]
            } else {
                Slot::Free
            }) by {}
            assert forall|j: int| #[trigger] before.marked(j) || j == 0 implies self.heap.at(j)
                == before.heap.at(j) by {
                if 0 <= j < n {
                    assert(self.heap.slots@[j] == self.heap.at(j));
                    assert(before.heap.slots@[j] == before.heap.at(j));
                }
            }
            assert(before.heap.slots@[0] == before.heap.at(0));
            assert forall|o: Object, j: int|
                0 <= j < n && (j == 0 || before.marked(j)) && #[trigger] before.heap.slots@[j].holds(
                    o,
                ) implies self.heap.valid(o) by {
                assert(before.heap.slot_ok(before.heap.slots@[j]));
                assert(before.heap.valid(o));
                if o.spec_ref_tag() is Some {
                    let x = o.spec_index() as u64;
                    before.heap.lemma_valid_reference(o);
                    if j == 0 {
                    } else {
                        assert(before.heap.at(j) == before.heap.slots@[j]);
                        assert(refers_to(o, x));
                        assert(before.heap.at(j).refers(x));
                        assert(before.heap.edge(j, x as int));
                        assert(before.marked(x as int));
                        assert(self.heap.at(x as int) == before.heap.at(x as int));
                    }
                }
            }
            assert forall|t: ObjectTag, x: u64, j: int|
                0 <= j < n && (j == 0 || before.marked(j)) && #[trigger] before.heap.slots@[j].names(
                    t,
                    x,
                ) implies self.heap.kind(x as int) == Some(t) by {
                assert(before.heap.slot_ok(before.heap.slots@[j]));
                assert(before.heap.at(j) == before.heap.slots@[j]);
                assert(before.heap.at(j).refers(x));
                assert(before.heap.edge(j, x as int));
                assert(before.marked(x as int));
                assert(self.heap.at(x as int) == before.heap.at(x as int));
            }
            assert(self.heap.closed()) by {
                assert forall|j: int| 0 <= j < self.heap.slots@.len() implies self.heap.slot_ok(
                    #[trigger] self.heap.slots@[j],
                ) by {
                    if j == 0 || before.marked(j) {
                        assert(before.heap.slot_ok(before.heap.slots@[j]));
                    }
                }
            }
            assert(self.heap.names_unique()) by {
                assert forall|a: int, b: int|
                    0 <= a < self.heap.slots@.len() && 0 <= b < self.heap.slots@.len()
                        implies match (
                        #[trigger] self.heap.slots@[a],
                        #[trigger] self.heap.slots@[b],
                    ) {
                        (Slot::Sym(x), Slot::Sym(y)) => x.name@ == y.name@ ==> a == b,
                        _ => true,
                    } by {
                    let p = before.heap.slots@[a];
                    let q = before.heap.slots@[b];
                }
            }
            assert(self.heap.wf());
            assert forall|k: int| 0 <= k < self.symbols@.len() implies self.heap.kind(
                #[trigger] self.symbols@[k] as int,
            ) == Some(ObjectTag::Namespace) by {
                let x = self.symbols@[k];
                assert(before.symbols@.contains(x));
                assert(before.scope_roots().contains(x));
                assert(before.marked(x as int));
            }
            assert forall|k: int| 0 <= k < self.stack@.len() implies self.heap.valid(
                #[trigger] self.stack@[k],
            ) by {
                let o = self.stack@[k];
                assert(before.heap.valid(o));
                if o.spec_ref_tag() is Some {
                    let x = o.spec_index() as u64;
                    before.heap.lemma_valid_reference(o);
                    assert(refers_to(before.stack@[k], x));
                    assert(before.stack_roots().contains(x));
                    assert(before.marked(x as int));
                    assert(self.heap.at(x as int) == before.heap.at(x as int));
                }
            }
        }
        let mut kept: Vec<u64> = Vec::new();
        let mut k: usize = 0;
        while k < self.syms_in_memory.len()
            invariant
                *self == swept,
                k <= self.syms_in_memory@.len(),
                forall|q: int|
                    0 <= q < kept@.len() ==> self.heap.kind(#[trigger] kept@[q] as int) == Some(
                        ObjectTag::Sym,
                    ),
                forall|m: int|
                    0 <= m < k && self.heap.kind(#[trigger] self.syms_in_memory@[m] as int)
                        == Some(ObjectTag::Sym) ==> kept@.contains(self.syms_in_memory@[m]),
            decreases self.syms_in_memory@.len() - k,
        {
            let idx: u64 = self.syms_in_memory[k];
            let ghost kept_before = kept@;
            let is_sym = match self.heap.kind_of(idx) {
                Some(ObjectTag::Sym) => true,
                _ => false,
            };
            if is_sym {
                kept.push(idx);
            }
            proof {
                assert forall|m: int|
                    0 <= m < k + 1 && self.heap.kind(#[trigger] self.syms_in_memory@[m] as int)
                        == Some(ObjectTag::Sym) implies kept@.contains(
                    self.syms_in_memory@[m],
                ) by {
                    if m < k {
                        let q = choose|q: int|
                            0 <= q < kept_before.len() && kept_before[q]
                                == self.syms_in_memory@[m];
                        assert(kept@[q] == self.syms_in_memory@[m]);
                    } else {
                        assert(kept@[kept_before.len() as int] == idx);
                    }
                }
            }
            k += 1;
        }
        self.syms_in_memory = kept;
        proof {
            assert forall|j: int|
                0 <= j < self.heap.slots@.len() && (#[trigger] self.heap.slots@[j]) is Sym
                    implies self.syms_in_memory@.contains(j as u64) by {
                assert(before.heap.slots@[j] is Sym);
                assert(before.syms_in_memory@.contains(j as u64));
                let m = choose|m: int|
                    0 <= m < before.syms_in_memory@.len() && before.syms_in_memory@[m] == j as u64;
                assert(self.heap.at(j) == self.heap.slots@[j]);
                assert(swept.heap.kind(swept.syms_in_memory@[m] as int) == Some(ObjectTag::Sym));
            }
        }
    }

    /// Sets every stamp to 0.
    fn reset_marks(&mut self)
        requires
            old(self).shape(),
        ensures
            old(self).restamped_to(*final(self), 0),
            final(self).shape(),
            final(self).marks_below(1),
            forall|j: int|
                0 <= j < old(self).heap.slots@.len() ==> #[trigger] final(self).heap.slots@[j]
                    == old(self).heap.slots@[j].with_marking(0),
    {
        let n: usize = self.heap.slots.len();
        let mut i: usize = 0;
        while i < n
            invariant
                i <= n,
                n == self.heap.slots@.len(),
                n == old(self).heap.slots@.len(),
                *self == (Lisp { heap: self.heap, ..*old(self) }),
                self.heap.free == old(self).heap.free,
                forall|j: int|
                    0 <= j < n ==> #[trigger] self.heap.slots@[j] == (if j < i {
                        old(self).heap.slots@[j].with_marking(0)
                    } else {
                        old(self).heap.slots@[j]
                    }),
            decreases n - i,
        {
            let ghost mid = self.heap;
            assert(self.heap.at(i as int) == self.heap.slots@[i as int]);
            if self.heap.kind_of(i as u64).is_some() {
                self.heap.set_marking(i as u64, 0);
            }
            proof {
                assert forall|j: int| 0 <= j < n implies #[trigger] self.heap.slots@[j] == (if j
                    < i + 1 {
                    old(self).heap.slots@[j].with_marking(0)
                } else {
                    old(self).heap.slots@[j]
                }) by {
                    assert(self.heap.at(j) == self.heap.slots@[j]);
                    assert(mid.at(j) == mid.slots@[j]);
                }
            }
            i += 1;
        }
        proof {
            old(self).lemma_restamped_shape(*self, 0);
            assert forall|j: int| 0 <= j < n implies (#[trigger] self.heap.slots@[j]).marking()
                < 1 by {
                old(self).heap.slots@[j].lemma_marking_apart(0);
            }
        }
    }

    /// Moves on to the next marking. Where the markings are used up, every
    /// stamp is set to 0 and the marking to 1.
    pub fn inc_gc_mark(&mut self)
        requires
            old(self).shape(),
            old(self).current_gc_mark >= 1,
            old(self).marks_below(old(self).current_gc_mark + 1),
        ensures
            final(self).inv(),
            *final(self) == (Lisp {
                heap: final(self).heap,
                current_gc_mark: final(self).current_gc_mark,
                ..*old(self)
            }),
            old(self).current_gc_mark < usize::MAX ==> final(self).heap == old(self).heap
                && final(self).current_gc_mark == old(self).current_gc_mark + 1,
            old(self).current_gc_mark == usize::MAX ==> final(self).current_gc_mark == 1
                && old(self).heap.restamped_to(final(self).heap, 0) && forall|j: int|
                0 <= j < old(self).heap.slots@.len() ==> #[trigger] final(self).heap.slots@[j]
                    == old(self).heap.slots@[j].with_marking(0),
    {
        if self.current_gc_mark == usize::MAX {
            self.reset_marks();
            self.current_gc_mark = 1;
        } else {
            self.current_gc_mark = self.current_gc_mark + 1;
        }
    }

    /// Stamps slot 0, which no collection frees, with the current marking.
    fn mark_permanent(&mut self)
        requires
            old(self).inv(),
        ensures
            old(self).restamped_to(*final(self), old(self).current_gc_mark),
            final(self).shape(),
            final(self).marks_below(old(self).current_gc_mark + 1),
            final(self).marks_closed(),
            forall|i: int| #[trigger] final(self).marked(i) <==> i == 0,
            final(self).heap.slots@[0] == old(self).heap.slots@[0].with_marking(
                old(self).current_gc_mark,
            ),
            forall|j: int|
                0 < j < old(self).heap.slots@.len() ==> #[trigger] final(self).heap.slots@[j]
                    == old(self).heap.slots@[j],
    {
        let mark: GcMark = self.current_gc_mark;
        proof {
            assert(self.heap.slots@[0] == self.heap.at(0));
        }
        self.heap.set_marking(0, mark);
        proof {
            let a = old(self).heap.slots@[0];
            a.lemma_marking_apart(mark);
            assert(self.heap.slots@[0] == self.heap.at(0));
            assert forall|i: int| 0 <= i < self.heap.slots@.len() implies (
            #[trigger] self.heap.slots@[i]) == (if i == 0 {
                old(self).heap.slots@[i].with_marking(mark)
            } else {
                old(self).heap.slots@[i]
            }) by {
                assert(self.heap.slots@[i] == self.heap.at(i));
                assert(old(self).heap.slots@[i] == old(self).heap.at(i));
            }
            assert(old(self).restamped_to(*self, mark));
            old(self).lemma_restamped_shape(*self, mark);
            assert forall|i: int| #[trigger] self.marked(i) <==> i == 0 by {
                if 0 <= i < self.heap.slots@.len() {
                    assert(self.heap.slots@[i] == self.heap.at(i));
                    assert(old(self).heap.slots@[i] == old(self).heap.at(i));
                }
            }
            assert forall|x: u64| !(#[trigger] self.heap.edge(0, x as int)) by {
                if self.heap.edge(0, x as int) {
                    let slot = self.heap.at(0);
                    if exists|o: Object| #[trigger] slot.holds(o) && refers_to(o, x) {
                        let o = choose|o: Object| #[trigger] slot.holds(o) && refers_to(o, x);
                    } else {
                        let t = choose|t: ObjectTag| #[trigger] slot.names(t, x);
                    }
                }
            }
        }
    }

    /// One collection: what the evaluation stack and the active frames reach
    /// stays, stamped, and so does slot 0; every other slot is freed.
    pub fn gc_pass(&mut self)
        requires
            old(self).inv(),
        ensures
            final(self).inv(),
            *final(self) == (Lisp {
                heap: final(self).heap,
                syms_in_memory: final(self).syms_in_memory,
                current_gc_mark: final(self).current_gc_mark,
                gc_threshold: final(self).gc_threshold,
                ..*old(self)
            }),
            old(self).collected_to(*final(self)),
    {
        let ghost mark: GcMark = self.current_gc_mark;
        self.mark_permanent();
        let ghost s0 = *self;
        self.mark_stack();
        let ghost s1 = *self;
        self.mark_scope();
        let ghost s2 = *self;
        proof {
            old(self).heap.lemma_restamped_edges(s0.heap, mark);
            s0.heap.lemma_restamped_edges(s1.heap, mark);
            lemma_reach_same(old(self).heap, s0.heap, old(self).stack_roots());
            lemma_reach_same(old(self).heap, s0.heap, old(self).scope_roots());
            lemma_reach_same(s0.heap, s1.heap, old(self).scope_roots());
            assert forall|i: int| #[trigger] s2.marked(i) <==> old(self).reachable(i) by {}
            assert forall|x: u64| s2.stack_roots().contains(x) implies s2.marked(x as int) by {
                lemma_reach_seed(old(self).heap, old(self).stack_roots(), x);
            }
            assert forall|x: u64| s2.scope_roots().contains(x) implies s2.marked(x as int) by {
                lemma_reach_seed(old(self).heap, old(self).scope_roots(), x);
            }
        }
        self.sweep();
        self.inc_gc_mark();
        self.update_gc_threshold();
        proof {
            assert forall|j: int| 0 <= j < old(self).heap.slots@.len() implies (
            #[trigger] self.heap.slots@[j]) == (if old(self).reachable(j) {
                old(self).heap.slots@[j].with_marking((self.current_gc_mark - 1) as usize)
            } else {
                Slot::Free
            }) by {
                lemma_collected_slot(
                    old(self).heap.slots@[j],
                    s0.heap.slots@[j],
                    s1.heap.slots@[j],
                    s2.heap.slots@[j],
                    mark,
                );
                assert(s2.heap.at(j) == s2.heap.slots@[j]);
                assert(old(self).heap.slots@[j].marking() < mark);
                Slot::Free.lemma_marking_apart(0);
            }
        }
    }

    /// A collection, where more slots are in use than the threshold allows.
    pub fn gc_maybe_pass(&mut self)
        requires
            old(self).inv(),
        ensures
            final(self).inv(),
            *final(self) == (Lisp {
                heap: final(self).heap,
                syms_in_memory: final(self).syms_in_memory,
                current_gc_mark: final(self).current_gc_mark,
                gc_threshold: final(self).gc_threshold,
                ..*old(self)
            }),
            old(self).heap.live_count() <= old(self).gc_threshold ==> *final(self) == *old(self),
            old(self).heap.live_count() > old(self).gc_threshold ==> old(self).collected_to(
                *final(self),
            ),
    {
        if self.should_gc_run() {
            self.gc_pass();
        }
    }
}

impl Heap {
    /// The live objects: a reference to every slot in use but slot 0, in the
    /// order of the slots.
    pub fn objects(&self) -> (r: Vec<Object>)
        requires
            self.wf(),
        ensures
            forall|o: Object|
                #![trigger r@.contains(o)]
                r@.contains(o) <==> o.spec_ref_tag() is Some && self.valid(o) && o.spec_index()
                    != 0,
            r@.no_duplicates(),
    {
        let mut out: Vec<Object> = Vec::new();
        let n: usize = self.slots.len();
        let mut i: usize = 1;
        while i < n
            invariant
                1 <= i <= n,
                n == self.slots@.len(),
                self.wf(),
                forall|o: Object|
                    #![trigger out@.contains(o)]
                    out@.contains(o) <==> o.spec_ref_tag() is Some && self.valid(o) && 0
                        < o.spec_index() < i,
                out@.no_duplicates(),
            decreases n - i,
        {
            let ghost before = out@;
            match self.kind_of(i as u64) {
                Some(tag) => {
                    let o = self.reference_to(tag, i as u64);
                    out.push(o);
                    proof {
                        assert(!before.contains(o));
                        assert forall|p: Object|
                            #![trigger out@.contains(p)]
                            out@.contains(p) <==> p.spec_ref_tag() is Some && self.valid(p) && 0
                                < p.spec_index() < i + 1 by {
                            if before.contains(p) {
                                let q = choose|q: int| 0 <= q < before.len() && before[q] == p;
                                assert(out@[q] == p);
                            }
                            if p == o {
                                assert(out@[before.len() as int] == p);
                            }
                            if p.spec_ref_tag() is Some && self.valid(p) && p.spec_index() == i {
                                self.lemma_valid_reference(p);
                                p.lemma_reference_rebuilt(tag);
                                assert(p == o);
                            }
                            if out@.contains(p) {
                                let q = choose|q: int| 0 <= q < out@.len() && out@[q] == p;
                                if q < before.len() {
                                    assert(before[q] == p);
                                }
                            }
                        }
                    }
                },
                None => {
                    proof {
                        assert forall|p: Object|
                            #![trigger out@.contains(p)]
                            out@.contains(p) <==> p.spec_ref_tag() is Some && self.valid(p) && 0
                                < p.spec_index() < i + 1 by {
                            if p.spec_ref_tag() is Some && self.valid(p) && p.spec_index() == i {
                                self.lemma_valid_reference(p);
                            }
                        }
                    }
                },
            }
            i += 1;
        }
        proof {
            assert forall|o: Object|
                #![trigger out@.contains(o)]
                out@.contains(o) <==> o.spec_ref_tag() is Some && self.valid(o) && o.spec_index()
                    != 0 by {
                if o.spec_ref_tag() is Some && self.valid(o) {
                    self.lemma_valid_reference(o);
                }
            }
        }
        out
    }
}

/// A slot that was stamped below `mark` and then, three times over, stamped
/// with `mark` or left alone, carries `mark` only if it is the first slot
/// stamped with `mark`.
pub proof fn lemma_collected_slot(a: Slot, b: Slot, c: Slot, d: Slot, mark: GcMark)
    requires
        a.marking() < mark,
        b == a || b == a.with_marking(mark),
        c == b || c == b.with_marking(mark),
        d == c || d == c.with_marking(mark),
    ensures
        d == a || d == a.with_marking(mark),
        d.marking() == mark && !(d is Free) ==> d == a.with_marking(mark),
        d.with_marking(0) == a.with_marking(0),
        d.tag() == a.tag(),
{
    a.lemma_marking_apart(mark);
    a.with_marking(mark).lemma_marking_apart(mark);
    a.with_marking(mark).lemma_marking_apart(0);
    a.lemma_marking_apart(0);
}

/// What is reached does not depend on the stamps.
pub proof fn lemma_reach_same(a: Heap, b: Heap, seeds: Set<u64>)
    requires
        forall|i: int, j: int| #[trigger] b.edge(i, j) == a.edge(i, j),
    ensures
        forall|j: int| #[trigger] reach(b, seeds, j) == reach(a, seeds, j),
{
    assert forall|path: Seq<int>| #[trigger] is_path(b, seeds, path) == is_path(
        a,
        seeds,
        path,
    ) by {
        if is_path(a, seeds, path) {
            assert forall|k: int| 0 <= k < path.len() - 1 implies b.edge(
                #[trigger] path[k],
                path[k + 1],
            ) by {
                assert(a.edge(path[k], path[k + 1]));
            }
        }
        if is_path(b, seeds, path) {
            assert forall|k: int| 0 <= k < path.len() - 1 implies a.edge(
                #[trigger] path[k],
                path[k + 1],
            ) by {
                assert(b.edge(path[k], path[k + 1]));
            }
        }
    }
    assert forall|j: int| #[trigger] reach(b, seeds, j) == reach(a, seeds, j) by {
        if reach(a, seeds, j) {
            let path = choose|path: Seq<int>| #[trigger] is_path(a, seeds, path) && path.last() == j;
            assert(is_path(b, seeds, path));
        }
        if reach(b, seeds, j) {
            let path = choose|path: Seq<int>| #[trigger] is_path(b, seeds, path) && path.last() == j;
            assert(is_path(a, seeds, path));
        }
    }
}

} // verus!
