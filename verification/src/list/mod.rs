//! Lists: chains of cons cells.
//!
//! A proper list ends in `nil`; an improper one in any other value that is
//! no cons. The functions that build lists allocate, and so are methods of
//! the runtime; the ones that only read take the heap.

use crate::lisp::allocate::{Heap, Slot};
use crate::lisp::Lisp;
use crate::types::{ConsCell, Object, ObjectTag, RlispType};
use vstd::prelude::*;

verus! {

impl Heap {
    /// The cell that `obj` names, if it names one.
    pub open spec fn spec_cell(self, obj: Object) -> Option<ConsCell> {
        if obj.spec_what_type() == RlispType::Cons {
            match self.at(obj.spec_index()) {
                Slot::Cons(c) => Some(c),
                _ => None,
            }
        } else {
            None
        }
    }

    /// True iff `obj` leads, cell by cell, through the elements `elems` to
    /// `end`: the chain of `elems.len()` cells that starts at `obj` carries
    /// `elems` and has `end` as its last `cdr`.
    pub open spec fn is_chain(self, obj: Object, elems: Seq<Object>, end: Object) -> bool
        decreases elems.len(),
    {
        if elems.len() == 0 {
            obj == end
        } else {
            match self.spec_cell(obj) {
                Some(c) => c.car == elems[0] && self.is_chain(c.cdr, elems.drop_first(), end),
                None => false,
            }
        }
    }

    /// True iff `obj` is the proper list of `elems`.
    pub open spec fn is_list(self, obj: Object, elems: Seq<Object>) -> bool {
        self.is_chain(obj, elems, Object::spec_nil())
    }

    /// The elements of the first `fuel` cells of the chain that starts at
    /// `obj`, or of all its cells where it has fewer, and what follows them.
    pub open spec fn walk(self, obj: Object, fuel: nat) -> (Seq<Object>, Object)
        decreases fuel,
    {
        if fuel == 0 {
            (Seq::empty(), obj)
        } else {
            match self.spec_cell(obj) {
                Some(c) => {
                    let (rest, end) = self.walk(c.cdr, (fuel - 1) as nat);
                    (seq![c.car] + rest, end)
                },
                None => (Seq::empty(), obj),
            }
        }
    }

    /// The elements of the chain that starts at `obj`, and its end. A chain
    /// is followed for as many cells as the arena has slots besides slot 0,
    /// which never holds a cell: no chain that ends is longer.
    pub open spec fn list_view(self, obj: Object) -> (Seq<Object>, Object) {
        self.walk(obj, (self.slots@.len() - 1) as nat)
    }

    /// Every slot in use in `self` holds the same in `later`.
    pub open spec fn extended_by(self, later: Heap) -> bool {
        forall|i: int| !(#[trigger] self.at(i) is Free) ==> later.at(i) == self.at(i)
    }

    pub proof fn lemma_extended_kinds(self, later: Heap)
        requires
            self.extended_by(later),
        ensures
            self.kinds_kept_by(later),
    {
        assert forall|i: int| #[trigger] self.kind(i) is Some implies later.kind(i) == self.kind(
            i,
        ) by {
            assert(!(self.at(i) is Free));
        }
    }

    /// A chain stays the chain it is while the slots in use keep what they
    /// hold.
    pub proof fn lemma_chain_kept(self, later: Heap, obj: Object, elems: Seq<Object>, end: Object)
        requires
            self.extended_by(later),
            self.is_chain(obj, elems, end),
        ensures
            later.is_chain(obj, elems, end),
        decreases elems.len(),
    {
        if elems.len() > 0 {
            let c = self.spec_cell(obj).unwrap();
            assert(!(self.at(obj.spec_index()) is Free));
            self.lemma_chain_kept(later, c.cdr, elems.drop_first(), end);
        }
    }

    /// Every cell and every symbol of `self` is the same in `later`.
    pub open spec fn cells_kept_by(self, later: Heap) -> bool {
        forall|i: int|
            (#[trigger] self.at(i)) is Cons || self.at(i) is Sym ==> later.at(i) == self.at(i)
    }

    /// A chain stays the chain it is while the cells stay what they are.
    pub proof fn lemma_chain_kept_by_cells(
        self,
        later: Heap,
        obj: Object,
        elems: Seq<Object>,
        end: Object,
    )
        requires
            self.cells_kept_by(later),
            self.is_chain(obj, elems, end),
        ensures
            later.is_chain(obj, elems, end),
        decreases elems.len(),
    {
        if elems.len() > 0 {
            let c = self.spec_cell(obj).unwrap();
            assert(self.at(obj.spec_index()) is Cons);
            self.lemma_chain_kept_by_cells(later, c.cdr, elems.drop_first(), end);
        }
    }

    /// A chain with one more cell in front.
    pub proof fn lemma_chain_cons(
        self,
        obj: Object,
        cell: ConsCell,
        elems: Seq<Object>,
        end: Object,
    )
        requires
            self.spec_cell(obj) == Some(cell),
            self.is_chain(cell.cdr, elems, end),
        ensures
            self.is_chain(obj, seq![cell.car] + elems, end),
    {
        assert((seq![cell.car] + elems).drop_first() =~= elems);
    }

    /// A chain with one more cell at its end.
    pub proof fn lemma_chain_snoc(
        self,
        obj: Object,
        elems: Seq<Object>,
        end: Object,
        cell: ConsCell,
    )
        requires
            self.is_chain(obj, elems, end),
            self.spec_cell(end) == Some(cell),
        ensures
            self.is_chain(obj, elems.push(cell.car), cell.cdr),
        decreases elems.len(),
    {
        if elems.len() == 0 {
            assert(elems.push(cell.car).drop_first() =~= Seq::<Object>::empty());
            assert(self.is_chain(cell.cdr, Seq::<Object>::empty(), cell.cdr));
        } else {
            let c = self.spec_cell(obj).unwrap();
            self.lemma_chain_snoc(c.cdr, elems.drop_first(), end, cell);
            assert(elems.push(cell.car).drop_first() =~= elems.drop_first().push(cell.car));
        }
    }

    /// What `walk` returns is a chain.
    pub proof fn lemma_walk_is_chain(self, obj: Object, fuel: nat)
        ensures
            self.is_chain(obj, self.walk(obj, fuel).0, self.walk(obj, fuel).1),
            self.walk(obj, fuel).0.len() <= fuel,
            self.walk(obj, fuel).0.len() < fuel ==> self.spec_cell(self.walk(obj, fuel).1)
                is None,
        decreases fuel,
    {
        if fuel > 0 {
            match self.spec_cell(obj) {
                Some(c) => {
                    self.lemma_walk_is_chain(c.cdr, (fuel - 1) as nat);
                    let (rest, end) = self.walk(c.cdr, (fuel - 1) as nat);
                    self.lemma_chain_cons(obj, c, rest, end);
                },
                None => {},
            }
        }
    }

    /// What is built as a chain is read as that chain: a chain that ends in
    /// something that is no cell is what `walk` returns with fuel enough for
    /// it.
    pub proof fn lemma_chain_is_walk(self, obj: Object, elems: Seq<Object>, end: Object, fuel: nat)
        requires
            self.is_chain(obj, elems, end),
            self.spec_cell(end) is None,
            elems.len() <= fuel,
        ensures
            self.walk(obj, fuel) == (elems, end),
        decreases elems.len(),
    {
        if elems.len() > 0 {
            let c = self.spec_cell(obj).unwrap();
            self.lemma_chain_is_walk(c.cdr, elems.drop_first(), end, (fuel - 1) as nat);
            assert(seq![c.car] + elems.drop_first() =~= elems);
        } else {
            if fuel > 0 {
                assert(self.spec_cell(obj) is None);
            }
        }
    }

    /// The cell that `obj` names, if it names one.
    pub fn cell(&self, obj: Object) -> (r: Option<ConsCell>)
        requires
            self.valid(obj),
        ensures
            r == self.spec_cell(obj),
    {
        if obj.consp() {
            Some(self.cons(obj))
        } else {
            None
        }
    }

    /// The two halves of the cell that `c` names.
    pub fn cons_parts(&self, c: Object) -> (r: (Object, Object))
        requires
            self.wf(),
            self.valid(c),
            c.spec_what_type() == RlispType::Cons,
        ensures
            self.spec_cell(c) matches Some(cell) && cell.car == r.0 && cell.cdr == r.1,
            self.valid(r.0),
            self.valid(r.1),
    {
        let cell = self.cons(c);
        proof {
            self.lemma_valid_reference(c);
            let i = c.spec_index();
            assert(self.slot_ok(self.slots@[i]));
            assert(self.slots@[i].holds(cell.car));
            assert(self.slots@[i].holds(cell.cdr));
        }
        (cell.car, cell.cdr)
    }

    /// The elements of the chain that starts at `obj`, and its end.
    pub fn list_to_vec(&self, obj: Object) -> (r: (Vec<Object>, Object))
        requires
            self.wf(),
            self.valid(obj),
        ensures
            (r.0@, r.1) == self.list_view(obj),
            forall|i: int| 0 <= i < r.0@.len() ==> self.valid(#[trigger] r.0@[i]),
            self.valid(r.1),
    {
        let mut out: Vec<Object> = Vec::new();
        let mut cur = obj;
        let n: usize = self.slots.len() - 1;
        let mut steps: usize = 0;
        while steps < n
            invariant
                self.wf(),
                n == self.slots@.len() - 1,
                steps <= n,
                self.valid(cur),
                out@.len() == steps,
                forall|i: int| 0 <= i < out@.len() ==> self.valid(#[trigger] out@[i]),
                self.is_chain(obj, out@, cur),
                self.walk(obj, n as nat) == (
                    out@ + self.walk(cur, (n - steps) as nat).0,
                    self.walk(cur, (n - steps) as nat).1,
                ),
            decreases n - steps,
        {
            match self.cell(cur) {
                Some(c) => {
                    proof {
                        self.lemma_valid_reference(cur);
                        assert(self.slot_ok(self.slots@[cur.spec_index()]));
                        assert(self.slots@[cur.spec_index()].holds(c.car));
                        assert(self.slots@[cur.spec_index()].holds(c.cdr));
                        self.lemma_chain_snoc(obj, out@, cur, c);
                        let rest = self.walk(c.cdr, (n - steps - 1) as nat);
                        assert(out@ + (seq![c.car] + rest.0) =~= out@.push(c.car) + rest.0);
                    }
                    out.push(c.car);
                    cur = c.cdr;
                    steps += 1;
                },
                None => {
                    proof {
                        assert(self.walk(cur, (n - steps) as nat).0 =~= Seq::<Object>::empty());
                        assert(out@ + Seq::<Object>::empty() =~= out@);
                    }
                    return (out, cur);
                },
            }
        }
        proof {
            assert(out@ + Seq::<Object>::empty() =~= out@);
        }
        (out, cur)
    }
}

impl Lisp {
    /// True iff `later` differs from `self` in its heap at most, and every
    /// slot in use in `self` holds the same there.
    pub open spec fn extended_to(self, later: Lisp) -> bool {
        &&& later == (Lisp { heap: later.heap, ..self })
        &&& self.heap.extended_by(later.heap)
    }

    /// `r` is, in `later`, the chain through `elems` to `tail`, in cells
    /// that were free; or the full-heap error where the heap has no room for
    /// it.
    pub open spec fn chain_run(
        self,
        elems: Seq<Object>,
        tail: Object,
        later: Lisp,
        r: Object,
    ) -> bool {
        &&& self.extended_to(later)
        &&& if self.heap.room() >= elems.len() {
            later.heap.is_chain(r, elems, tail)
        } else {
            r == Heap::spec_out_of_memory()
        }
    }

    /// Conses the elements of `elems`, from the last to the first, onto
    /// `tail`: the chain that comes back leads through `elems` to `tail`.
    /// Returns the full-heap error where the heap has no room for as many
    /// cells as `elems` has elements.
    pub fn list_onto(&mut self, elems: &Vec<Object>, tail: Object) -> (r: Object)
        requires
            old(self).inv(),
            old(self).heap.valid(tail),
            forall|i: int| 0 <= i < elems@.len() ==> old(self).heap.valid(#[trigger] elems@[i]),
        ensures
            final(self).inv(),
            old(self).extended_to(*final(self)),
            final(self).heap.valid(r),
            old(self).heap.room() >= elems@.len() ==> final(self).heap.is_chain(r, elems@, tail),
            old(self).heap.room() >= elems@.len() ==> final(self).heap.room() == old(
                self,
            ).heap.room() - elems@.len(),
            old(self).heap.room() < elems@.len() ==> r == Heap::spec_out_of_memory(),
            final(self).heap.room() <= old(self).heap.room(),
            old(self).chain_run(elems@, tail, *final(self), r),
    {
        let n: usize = elems.len();
        let mut head = tail;
        let mut i: usize = n;
        proof {
            assert(elems@.subrange(n as int, n as int) =~= Seq::<Object>::empty());
        }
        while i > 0
            invariant
                n == elems@.len(),
                i <= n,
                self.inv(),
                old(self).inv(),
                old(self).extended_to(*self),
                self.heap.valid(head),
                forall|i: int| 0 <= i < elems@.len() ==> old(self).heap.valid(#[trigger] elems@[i]),
                self.heap.is_chain(head, elems@.subrange(i as int, n as int), tail),
                self.heap.room() == old(self).heap.room() - (n - i),
            decreases i,
        {
            let ghost before = *self;
            let ghost chain = elems@.subrange(i as int, n as int);
            let el = elems[i - 1];
            proof {
                old(self).heap.lemma_extended_kinds(self.heap);
                old(self).heap.lemma_valid_kept(self.heap, el);
            }
            let full = self.heap.is_full();
            let r = self.alloc_cons(el, head);
            if full {
                return r;
            }
            proof {
                let cell = ConsCell { car: el, cdr: head, gc_marking: 0 };
                before.heap.lemma_chain_kept(self.heap, head, chain, tail);
                self.heap.lemma_chain_cons(r, cell, chain, tail);
                assert(seq![el] + chain =~= elems@.subrange(i - 1, n as int));
                assert forall|j: int| !(#[trigger] old(self).heap.at(j) is Free)
                    implies self.heap.at(j) == old(self).heap.at(j) by {
                    assert(before.heap.at(j) == old(self).heap.at(j));
                }
            }
            head = r;
            i -= 1;
        }
        proof {
            assert(elems@.subrange(0, n as int) =~= elems@);
        }
        head
    }

    /// Conses the elements of `elems`, from the first to the last, onto
    /// `tail`: the chain that comes back leads through `elems` in reverse
    /// order to `tail`. Returns the full-heap error where the heap has no
    /// room for as many cells as `elems` has elements.
    pub fn list_reversed_onto(&mut self, elems: &Vec<Object>, tail: Object) -> (r: Object)
        requires
            old(self).inv(),
            old(self).heap.valid(tail),
            forall|i: int| 0 <= i < elems@.len() ==> old(self).heap.valid(#[trigger] elems@[i]),
        ensures
            final(self).inv(),
            old(self).extended_to(*final(self)),
            final(self).heap.valid(r),
            old(self).heap.room() >= elems@.len() ==> final(self).heap.is_chain(
                r,
                elems@.reverse(),
                tail,
            ),
            old(self).heap.room() < elems@.len() ==> r == Heap::spec_out_of_memory(),
    {
        let n: usize = elems.len();
        let mut head = tail;
        let mut i: usize = 0;
        proof {
            assert(elems@.take(0).reverse() =~= Seq::<Object>::empty());
        }
        while i < n
            invariant
                n == elems@.len(),
                i <= n,
                self.inv(),
                old(self).inv(),
                old(self).extended_to(*self),
                self.heap.valid(head),
                forall|i: int| 0 <= i < elems@.len() ==> old(self).heap.valid(#[trigger] elems@[i]),
                self.heap.is_chain(head, elems@.take(i as int).reverse(), tail),
                self.heap.room() == old(self).heap.room() - i,
            decreases n - i,
        {
            let ghost before = *self;
            let ghost chain = elems@.take(i as int).reverse();
            let el = elems[i];
            proof {
                old(self).heap.lemma_extended_kinds(self.heap);
                old(self).heap.lemma_valid_kept(self.heap, el);
            }
            let full = self.heap.is_full();
            let r = self.alloc_cons(el, head);
            if full {
                return r;
            }
            proof {
                let cell = ConsCell { car: el, cdr: head, gc_marking: 0 };
                before.heap.lemma_chain_kept(self.heap, head, chain, tail);
                self.heap.lemma_chain_cons(r, cell, chain, tail);
                assert(seq![el] + chain =~= elems@.take(i + 1).reverse());
                assert forall|j: int| !(#[trigger] old(self).heap.at(j) is Free)
                    implies self.heap.at(j) == old(self).heap.at(j) by {
                    assert(before.heap.at(j) == old(self).heap.at(j));
                }
            }
            head = r;
            i += 1;
        }
        proof {
            assert(elems@.take(n as int) =~= elems@);
        }
        head
    }

    /// The proper list of `elems`, or the full-heap error where the heap has
    /// no room for it.
    pub fn list_from_vec(&mut self, elems: Vec<Object>) -> (r: Object)
        requires
            old(self).inv(),
            forall|i: int| 0 <= i < elems@.len() ==> old(self).heap.valid(#[trigger] elems@[i]),
        ensures
            final(self).inv(),
            old(self).extended_to(*final(self)),
            final(self).heap.valid(r),
            old(self).heap.room() >= elems@.len() ==> final(self).heap.is_list(r, elems@),
            old(self).heap.room() >= elems@.len() ==> final(self).heap.room() == old(
                self,
            ).heap.room() - elems@.len(),
            old(self).heap.room() < elems@.len() ==> r == Heap::spec_out_of_memory(),
            final(self).heap.room() <= old(self).heap.room(),
            old(self).chain_run(elems@, Object::spec_nil(), *final(self), r),
    {
        self.list_onto(&elems, Object::nil())
    }

    /// The list whose elements are all of `elems` but the last and whose end
    /// is the last; `nil` where `elems` is empty; the full-heap error where
    /// the heap has no room for it.
    pub fn list_improper_from_vec(&mut self, elems: Vec<Object>) -> (r: Object)
        requires
            old(self).inv(),
            forall|i: int| 0 <= i < elems@.len() ==> old(self).heap.valid(#[trigger] elems@[i]),
        ensures
            final(self).inv(),
            old(self).extended_to(*final(self)),
            final(self).heap.valid(r),
            elems@.len() == 0 ==> r == Object::spec_nil(),
            elems@.len() > 0 && old(self).heap.room() >= elems@.len() - 1
                ==> final(self).heap.is_chain(r, elems@.drop_last(), elems@.last()),
            elems@.len() > 0 && old(self).heap.room() < elems@.len() - 1 ==> r
                == Heap::spec_out_of_memory(),
    {
        let mut elems = elems;
        match elems.pop() {
            Some(tail) => self.list_onto(&elems, tail),
            None => Object::nil(),
        }
    }

    /// Puts `new_head` in front of the list in `list`: what `list` holds
    /// afterwards is what the allocation of the new cell returned.
    pub fn list_push(&mut self, list: &mut Object, new_head: Object)
        requires
            old(self).inv(),
            old(self).heap.valid(*old(list)),
            old(self).heap.valid(new_head),
        ensures
            final(self).inv(),
            old(self).allocated(
                *final(self),
                Slot::Cons(ConsCell { car: new_head, cdr: *old(list), gc_marking: 0 }),
                *final(list),
            ),
    {
        *list = self.alloc_cons(new_head, *list);
    }

    /// Takes the first element off the list in `list` and returns it; where
    /// `list` holds no cell, returns what it holds and leaves it.
    pub fn list_pop(&self, list: &mut Object) -> (r: Object)
        requires
            self.inv(),
            self.heap.valid(*old(list)),
        ensures
            match self.heap.spec_cell(*old(list)) {
                Some(c) => r == c.car && *final(list) == c.cdr,
                None => r == *old(list) && *final(list) == *old(list),
            },
            self.heap.valid(r),
            self.heap.valid(*final(list)),
    {
        match self.heap.cell(*list) {
            Some(c) => {
                proof {
                    self.heap.lemma_valid_reference(*list);
                    let i = list.spec_index();
                    assert(self.heap.slot_ok(self.heap.slots@[i]));
                    assert(self.heap.slots@[i].holds(c.car));
                    assert(self.heap.slots@[i].holds(c.cdr));
                }
                *list = c.cdr;
                c.car
            },
            None => *list,
        }
    }

    /// A new proper list of the elements of the list `list` in reverse
    /// order; the end of an improper list is left out. Returns the full-heap
    /// error where the heap has no room for it.
    pub fn list_reverse(&mut self, list: Object) -> (r: Object)
        requires
            old(self).inv(),
            old(self).heap.valid(list),
        ensures
            final(self).inv(),
            old(self).extended_to(*final(self)),
            final(self).heap.valid(r),
            ({
                let elems = old(self).heap.list_view(list).0;
                &&& old(self).heap.room() >= elems.len() ==> final(self).heap.is_list(
                    r,
                    elems.reverse(),
                )
                &&& old(self).heap.room() < elems.len() ==> r == Heap::spec_out_of_memory()
            }),
    {
        let (elems, _end) = self.heap.list_to_vec(list);
        self.list_reversed_onto(&elems, Object::nil())
    }
}

/// The number of elements of the chain that starts at `head`; an end that is
/// not `nil` counts as one more.
pub open spec fn spec_length(heap: Heap, head: Object) -> nat {
    let (elems, end) = heap.list_view(head);
    if end == Object::spec_nil() {
        elems.len()
    } else {
        elems.len() + 1
    }
}

/// The number of elements of the list that starts at the cell `head`; the end
/// of an improper list counts as one more.
pub fn length(heap: &Heap, head: Object) -> (r: usize)
    requires
        heap.wf(),
        heap.valid(head),
        head.spec_what_type() == RlispType::Cons,
    ensures
        r == spec_length(*heap, head),
{
    let (elems, end) = heap.list_to_vec(head);
    let slots: usize = heap.slots.len();
    proof {
        heap.lemma_walk_is_chain(head, (heap.slots@.len() - 1) as nat);
        assert(elems@.len() < slots);
    }
    if end.nilp() {
        elems.len()
    } else {
        elems.len() + 1
    }
}

/// A cursor over a chain of cells.
pub struct ConsIterator {
    pub car: Object,
    pub cdr: Object,
    pub first: bool,
}

/// What a step of the cursor gives: an element, or the end of the chain, and
/// with it the end itself where the chain is improper.
pub enum ConsIteratorResult<T> {
    More(T),
    Final(Option<T>),
}

/// A cursor that stands before the first element of the list that starts at
/// the cell `list`.
pub fn iter(list: &ConsCell) -> (r: ConsIterator)
    ensures
        r.car == list.car,
        r.cdr == list.cdr,
        r.first,
{
    ConsIterator { car: list.car, cdr: list.cdr, first: true }
}

impl ConsIterator {
    /// The values that the cursor holds can be used.
    pub open spec fn wf(self, heap: Heap) -> bool {
        heap.valid(self.car) && heap.valid(self.cdr)
    }

    /// One step: the next element, or the end. An improper list gives its
    /// end in `Final`; a proper one gives `Final(None)`.
    pub fn improper_next(&mut self, heap: &Heap) -> (r: ConsIteratorResult<Object>)
        requires
            heap.wf(),
            old(self).wf(*heap),
        ensures
            final(self).wf(*heap),
            old(self).first ==> r == ConsIteratorResult::More(old(self).car) && *final(self) == (
            ConsIterator { first: false, ..*old(self) }),
            !old(self).first ==> match heap.spec_cell(old(self).cdr) {
                Some(c) => r == ConsIteratorResult::More(c.car) && *final(self) == (ConsIterator {
                    car: c.car,
                    cdr: c.cdr,
                    first: false,
                }),
                None => *final(self) == *old(self) && r == (if old(self).cdr
                    == Object::spec_nil() {
                    ConsIteratorResult::Final(None)
                } else {
                    ConsIteratorResult::Final(Some(old(self).cdr))
                }),
            },
            match r {
                ConsIteratorResult::More(o) => heap.valid(o),
                ConsIteratorResult::Final(Some(o)) => heap.valid(o),
                ConsIteratorResult::Final(None) => true,
            },
    {
        if self.first {
            self.first = false;
            ConsIteratorResult::More(self.car)
        } else {
            match heap.cell(self.cdr) {
                Some(c) => {
                    proof {
                        heap.lemma_valid_reference(self.cdr);
                        let i = self.cdr.spec_index();
                        assert(heap.slot_ok(heap.slots@[i]));
                        assert(heap.slots@[i].holds(c.car));
                        assert(heap.slots@[i].holds(c.cdr));
                    }
                    self.car = c.car;
                    self.cdr = c.cdr;
                    ConsIteratorResult::More(self.car)
                },
                None => {
                    if self.cdr.nilp() {
                        ConsIteratorResult::Final(None)
                    } else {
                        ConsIteratorResult::Final(Some(self.cdr))
                    }
                },
            }
        }
    }

    /// One step that gives the next element, or `None` at the end; the end of
    /// an improper list is passed over.
    pub fn next(&mut self, heap: &Heap) -> (r: Option<Object>)
        requires
            heap.wf(),
            old(self).wf(*heap),
        ensures
            final(self).wf(*heap),
            old(self).first ==> r == Some(old(self).car) && *final(self) == (ConsIterator {
                first: false,
                ..*old(self)
            }),
            !old(self).first ==> match heap.spec_cell(old(self).cdr) {
                Some(c) => r == Some(c.car) && *final(self) == (ConsIterator {
                    car: c.car,
                    cdr: c.cdr,
                    first: false,
                }),
                None => *final(self) == *old(self) && r is None,
            },
            r matches Some(o) ==> heap.valid(o),
    {
        match self.improper_next(heap) {
            ConsIteratorResult::More(obj) => Some(obj),
            ConsIteratorResult::Final(_) => None,
        }
    }
}

} // verus!
