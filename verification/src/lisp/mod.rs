//! The runtime: the heap, the evaluation stack and the scope, in one value
//! that every operation takes.

use crate::builtins::{RlispBuiltinVars, RlispBuiltins, RlispSpecialForms};
use crate::gc::GcMark;
use crate::result::ErrorKind;
use crate::types::function::FunctionBody;
use crate::types::{
    ConsCell, Namespace, Object, ObjectTag, RlispError, RlispFunc, RlispString, RlispType, Scope,
};
use vstd::prelude::*;
use vstd::string::StringSliceAdditionalSpecFns;

pub mod allocate;
pub mod sourcing;

use self::allocate::{Heap, Slot};

verus! {

/// The number of slots in use above which the first collection runs.
pub const INITIAL_GC_THRESHOLD: usize = 16;

/// How deep evaluation may nest unless the runtime is told otherwise.
pub const DEFAULT_MAX_DEPTH: usize = 256;

pub struct Lisp {
    pub heap: Heap,
    /// The active frames, by slot index; frame 0 is the global namespace.
    pub symbols: Scope,
    /// The slot indices of the interned symbols.
    pub syms_in_memory: Vec<u64>,
    /// The characters that the reader expands, each with the name of the
    /// symbol that it stands for.
    pub macro_chars: Vec<(u8, Vec<u8>)>,
    /// The evaluation stack.
    pub stack: Vec<Object>,
    pub current_gc_mark: GcMark,
    pub gc_threshold: usize,
    /// How deep evaluation may nest.
    pub max_depth: usize,
    /// What the program has printed and the host has not yet taken.
    pub output: Vec<u8>,
}

impl Lisp {
    /// The part of the invariant that does not speak of stamps: the heap is
    /// well formed, the scope is not empty and every frame in it is a
    /// namespace, every value on the stack can be used, and every symbol is
    /// in the table of interned symbols.
    pub open spec fn shape(self) -> bool {
        &&& self.heap.wf()
        &&& self.symbols@.len() >= 1
        &&& forall|k: int|
            0 <= k < self.symbols@.len() ==> self.heap.kind(#[trigger] self.symbols@[k] as int)
                == Some(ObjectTag::Namespace)
        &&& forall|k: int| 0 <= k < self.stack@.len() ==> self.heap.valid(#[trigger] self.stack@[k])
        &&& forall|k: int|
            0 <= k < self.syms_in_memory@.len() ==> self.heap.kind(
                #[trigger] self.syms_in_memory@[k] as int,
            ) == Some(ObjectTag::Sym)
        &&& forall|i: int|
            0 <= i < self.heap.slots@.len() && (#[trigger] self.heap.slots@[i]) is Sym
                ==> self.syms_in_memory@.contains(i as u64)
    }

    /// Every stamp is below `bound`.
    pub open spec fn marks_below(self, bound: int) -> bool {
        forall|i: int|
            0 <= i < self.heap.slots@.len() ==> (#[trigger] self.heap.slots@[i]).marking() < bound
    }

    /// The invariant of the runtime: its shape is right, and no slot carries
    /// the current marking or a later one.
    pub open spec fn inv(self) -> bool {
        &&& self.shape()
        &&& self.current_gc_mark >= 1
        &&& self.marks_below(self.current_gc_mark as int)
    }

    /// True iff `later` differs from `self` in its heap at most, and every
    /// slot in use in `self` still holds a value of the same type there.
    pub open spec fn heap_grew_to(self, later: Lisp) -> bool {
        &&& later == (Lisp { heap: later.heap, ..self })
        &&& self.heap.kinds_kept_by(later.heap)
    }

    /// What the runtime keeps when only its heap changes, no slot changes
    /// its type, no symbol appears, and no stamp reaches the current marking.
    pub proof fn lemma_inv_kept(self, later: Lisp)
        requires
            self.inv(),
            self.heap_grew_to(later),
            later.heap.wf(),
            forall|i: int|
                0 <= i < later.heap.slots@.len() && (#[trigger] later.heap.slots@[i]) is Sym
                    ==> self.heap.at(i) is Sym,
            forall|i: int|
                0 <= i < later.heap.slots@.len() ==> (#[trigger] later.heap.slots@[i]).marking()
                    < self.current_gc_mark,
        ensures
            later.inv(),
    {
        assert forall|k: int| 0 <= k < later.symbols@.len() implies later.heap.kind(
            #[trigger] later.symbols@[k] as int,
        ) == Some(ObjectTag::Namespace) by {
            assert(self.heap.kind(self.symbols@[k] as int) is Some);
        }
        assert forall|k: int| 0 <= k < later.stack@.len() implies later.heap.valid(
            #[trigger] later.stack@[k],
        ) by {
            self.heap.lemma_valid_kept(later.heap, self.stack@[k]);
        }
        assert forall|k: int| 0 <= k < later.syms_in_memory@.len() implies later.heap.kind(
            #[trigger] later.syms_in_memory@[k] as int,
        ) == Some(ObjectTag::Sym) by {
            assert(self.heap.kind(self.syms_in_memory@[k] as int) is Some);
        }
        assert forall|i: int|
            0 <= i < later.heap.slots@.len() && (#[trigger] later.heap.slots@[i]) is Sym
                implies later.syms_in_memory@.contains(i as u64) by {
            assert(self.heap.at(i) is Sym);
            assert(self.heap.slots@[i] is Sym);
        }
    }

    /// What an allocation of `slot` does to the runtime: only the heap
    /// changes, and it changes as `Heap::gave` says.
    pub open spec fn allocated(self, later: Lisp, slot: Slot, r: Object) -> bool {
        &&& self.heap_grew_to(later)
        &&& self.heap.gave(later.heap, slot, r)
        &&& later.heap.valid(r)
    }

    /// Puts `slot` on the heap and returns the reference to it, or the
    /// full-heap error where no slot is left. Symbols are not made here: see
    /// `make_symbol`.
    pub fn allocate(&mut self, slot: Slot) -> (r: Object)
        requires
            old(self).inv(),
            slot.tag() is Some,
            !(slot is Sym),
            slot.marking() == 0,
            old(self).heap.slot_ok(slot),
        ensures
            final(self).inv(),
            old(self).allocated(*final(self), slot, r),
    {
        let ghost before = *self;
        let full = self.heap.is_full();
        let r = self.heap.allocate(slot);
        proof {
            if !full {
                let i = before.heap.next_index();
                assert forall|j: int|
                    0 <= j < self.heap.slots@.len() && (#[trigger] self.heap.slots@[j]) is Sym
                        implies before.heap.at(j) is Sym by {
                    assert(self.heap.slots@[j] == self.heap.at(j));
                    if j != i {
                        assert(self.heap.at(j) == before.heap.at(j));
                    }
                }
                assert forall|j: int| 0 <= j < self.heap.slots@.len() implies (
                #[trigger] self.heap.slots@[j]).marking() < before.current_gc_mark by {
                    assert(self.heap.slots@[j] == self.heap.at(j));
                    if j != i {
                        assert(self.heap.at(j) == before.heap.at(j));
                        assert(before.heap.at(j) == before.heap.slots@[j] || before.heap.at(j)
                            is Free);
                    }
                }
                assert(self.heap.kind(i) == slot.tag());
                Object::lemma_reference_type(slot.tag().unwrap(), i);
            } else {
                Object::lemma_reference_type(ObjectTag::Error, 0);
                assert(self.heap.slots@[0] == self.heap.at(0));
            }
            before.lemma_inv_kept(*self);
        }
        r
    }

    /// Puts a fresh pair on the heap.
    pub fn alloc_cons(&mut self, car: Object, cdr: Object) -> (r: Object)
        requires
            old(self).inv(),
            old(self).heap.valid(car),
            old(self).heap.valid(cdr),
        ensures
            final(self).inv(),
            old(self).allocated(
                *final(self),
                Slot::Cons(ConsCell { car, cdr, gc_marking: 0 }),
                r,
            ),
    {
        self.allocate(Slot::Cons(ConsCell::new(car, cdr)))
    }

    /// `r` is, in `later`, a new string with the bytes `text`; or the
    /// full-heap error, and nothing has changed.
    pub open spec fn string_made(self, later: Lisp, text: Seq<u8>, r: Object) -> bool {
        &&& self.heap_grew_to(later)
        &&& if self.heap.full() {
            r == Heap::spec_out_of_memory() && later == self
        } else {
            &&& r.spec_what_type() == RlispType::String
            &&& r.spec_index() == self.heap.next_index()
            &&& match later.heap.at(r.spec_index()) {
                Slot::String(s) => s.val@ == text && s.gc_marking == 0,
                _ => false,
            }
            &&& forall|j: int| j != r.spec_index() ==> #[trigger] later.heap.at(j) == self.heap.at(j)
        }
    }

    /// Puts a string with the bytes `val` on the heap.
    pub fn alloc_string(&mut self, val: Vec<u8>) -> (r: Object)
        requires
            old(self).inv(),
        ensures
            final(self).inv(),
            old(self).allocated(*final(self), Slot::String(RlispString { gc_marking: 0, val }), r),
            old(self).string_made(*final(self), val@, r),
    {
        self.allocate(Slot::String(RlispString { gc_marking: 0, val }))
    }

    /// Puts the error `e` on the heap.
    pub fn alloc_error(&mut self, e: RlispError) -> (r: Object)
        requires
            old(self).inv(),
            e.gc_marking == 0,
            old(self).heap.slot_ok(Slot::Error(e)),
        ensures
            final(self).inv(),
            old(self).allocated(*final(self), Slot::Error(e), r),
            r.spec_what_type() == RlispType::Error,
    {
        let r = self.allocate(Slot::Error(e));
        proof {
            Object::lemma_reference_type(ObjectTag::Error, 0);
        }
        r
    }

    /// Puts the error that wraps the host failure `kind` on the heap.
    pub fn alloc_host_error(&mut self, kind: ErrorKind) -> (r: Object)
        requires
            old(self).inv(),
        ensures
            final(self).inv(),
            old(self).allocated(
                *final(self),
                Slot::Error(
                    RlispError {
                        gc_marking: 0,
                        error: crate::types::rlisperror::RlispErrorKind::RustError(kind),
                    },
                ),
                r,
            ),
            r.spec_what_type() == RlispType::Error,
    {
        self.alloc_error(RlispError::from_host(kind))
    }

    /// Puts the function `f` on the heap.
    pub fn alloc_function(&mut self, f: RlispFunc) -> (r: Object)
        requires
            old(self).inv(),
            f.gc_marking == 0,
            old(self).heap.slot_ok(Slot::Function(f)),
        ensures
            final(self).inv(),
            old(self).allocated(*final(self), Slot::Function(f), r),
    {
        self.allocate(Slot::Function(f))
    }

    /// Puts the namespace `n` on the heap.
    pub fn alloc_namespace(&mut self, n: Namespace) -> (r: Object)
        requires
            old(self).inv(),
            n.gc_marking == 0,
            old(self).heap.slot_ok(Slot::Namespace(n)),
        ensures
            final(self).inv(),
            old(self).allocated(*final(self), Slot::Namespace(n), r),
    {
        self.allocate(Slot::Namespace(n))
    }

    /// True iff `later` has the stack, the scope and the settings of `self`.
    pub open spec fn same_frame(self, later: Lisp) -> bool {
        &&& later.stack@ == self.stack@
        &&& later.symbols@ == self.symbols@
        &&& later.max_depth == self.max_depth
        &&& later.macro_chars == self.macro_chars
    }

    /// What a step that does not collect keeps: the invariant, the stack,
    /// the scope and the settings, and the type of what each slot in use
    /// holds, so that what could be used can be used still.
    pub open spec fn stepped_to(self, later: Lisp) -> bool {
        &&& later.inv()
        &&& self.same_frame(later)
        &&& self.heap.kinds_kept_by(later.heap)
    }

    /// What an evaluation keeps, and what holds of the value `r` that it
    /// returns: the invariant, the stack, the scope and the settings; and `r`
    /// can be used.
    pub open spec fn evaluated_to(self, later: Lisp, r: Object) -> bool {
        &&& later.inv()
        &&& self.same_frame(later)
        &&& later.heap.valid(r)
    }

    /// Steps that do not collect add up to one.
    pub proof fn lemma_stepped_twice(self, mid: Lisp, later: Lisp)
        requires
            self.stepped_to(mid),
            mid.stepped_to(later),
        ensures
            self.stepped_to(later),
    {
        assert forall|i: int| #[trigger] self.heap.kind(i) is Some implies later.heap.kind(i)
            == self.heap.kind(i) by {
            assert(mid.heap.kind(i) is Some);
        }
    }

    /// Puts `obj` in the place of entry `pos` of the evaluation stack.
    pub fn set_stack(&mut self, pos: usize, obj: Object)
        requires
            old(self).inv(),
            pos < old(self).stack@.len(),
            old(self).heap.valid(obj),
        ensures
            final(self).inv(),
            *final(self) == (Lisp { stack: final(self).stack, ..*old(self) }),
            final(self).stack@ == old(self).stack@.update(pos as int, obj),
    {
        self.stack.set(pos, obj);
    }

    /// Pushes `obj` onto the evaluation stack.
    pub fn push(&mut self, obj: Object)
        requires
            old(self).inv(),
            old(self).heap.valid(obj),
        ensures
            final(self).inv(),
            *final(self) == (Lisp { stack: final(self).stack, ..*old(self) }),
            final(self).stack@ == old(self).stack@.push(obj),
    {
        self.stack.push(obj);
    }

    /// Pops the top of the evaluation stack.
    pub fn pop(&mut self) -> (r: Object)
        requires
            old(self).inv(),
            old(self).stack@.len() > 0,
        ensures
            final(self).inv(),
            *final(self) == (Lisp { stack: final(self).stack, ..*old(self) }),
            final(self).stack@ == old(self).stack@.drop_last(),
            r == old(self).stack@.last(),
            final(self).heap.valid(r),
    {
        let r = self.stack.pop().unwrap();
        r
    }

    /// The evaluation stack, bottom first.
    pub fn stack_vec(&self) -> (r: &Vec<Object>)
        ensures
            r@ == self.stack@,
    {
        &self.stack
    }

    /// Empties the evaluation stack.
    pub fn clean_stack(&mut self)
        requires
            old(self).inv(),
        ensures
            final(self).inv(),
            *final(self) == (Lisp { stack: final(self).stack, ..*old(self) }),
            final(self).stack@.len() == 0,
    {
        self.stack = Vec::new();
    }

    /// Cuts the evaluation stack down to its lowest `len` entries.
    pub fn truncate_stack(&mut self, len: usize)
        requires
            old(self).inv(),
            len <= old(self).stack@.len(),
        ensures
            final(self).inv(),
            *final(self) == (Lisp { stack: final(self).stack, ..*old(self) }),
            final(self).stack@ == old(self).stack@.take(len as int),
    {
        self.stack.truncate(len);
    }

    /// True iff `r` is a function without captured frames whose body is
    /// `body`, whose name is the symbol named `name`, and whose parameter
    /// list is the proper list of the symbols named `params`; and the symbol
    /// named `name` is looked up to `r`.
    pub open spec fn is_native(
        self,
        r: Object,
        name: Seq<u8>,
        params: Seq<&'static str>,
        body: FunctionBody,
    ) -> bool {
        &&& r.spec_what_type() == RlispType::Function
        &&& self.heap.at(r.spec_index()) is Function
        &&& self.function_at(r).body == body
        &&& self.function_at(r).scope is None
        &&& self.function_at(r).arglist is Some
        &&& exists|syms: Seq<Object>| #[trigger]
            self.names_params(self.function_at(r).arglist.unwrap(), syms, params)
        &&& self.function_at(r).name is Some
        &&& self.heap.is_symbol_named(self.function_at(r).name.unwrap().spec_index(), name)
        &&& crate::symbols_table::lookup_in(
            self.scope_view(),
            self.function_at(r).name.unwrap().spec_index() as u64,
        ) == Some(r)
    }

    /// The function that `r` names.
    pub open spec fn function_at(self, r: Object) -> RlispFunc {
        match self.heap.at(r.spec_index()) {
            Slot::Function(f) => f,
            _ => arbitrary(),
        }
    }

    /// True iff `list` is the proper list of `syms`, and these are symbols
    /// with the names `params`.
    pub open spec fn names_params(
        self,
        list: Object,
        syms: Seq<Object>,
        params: Seq<&'static str>,
    ) -> bool {
        &&& self.heap.is_list(list, syms)
        &&& syms.len() == params.len()
        &&& forall|i: int|
            0 <= i < syms.len() ==> self.heap.is_symbol_named(
                (#[trigger] syms[i]).spec_index(),
                params[i].spec_bytes(),
            )
    }

    /// Binds the symbol with the name `name`, as `set_symbol` does, to a new
    /// function with that name, the parameters `arglist` and the native body
    /// `body`, and returns the function; or returns the full-heap error
    /// where the heap has no room for all of it.
    pub fn define_native(&mut self, name: &str, arglist: &Vec<&'static str>, native: RlispFunc) -> (r:
        Object)
        requires
            old(self).inv(),
            !(native.body is LispFn),
            native.scope is None,
            native.gc_marking == 0,
        ensures
            old(self).stepped_to(*final(self)),
            final(self).heap.valid(r),
            r.spec_what_type() != RlispType::Error ==> final(self).is_native(
                r,
                name.spec_bytes(),
                arglist@,
                native.body,
            ),
            old(self).native_defined(name.spec_bytes(), arglist@, native.body, *final(self), r),
    {
        let ghost s0 = *self;
        let name_sym = self.make_symbol(name.as_bytes());
        let ghost sa = *self;
        if name_sym.errorp() {
            proof {
                s0.lemma_native_defined(
                    name.spec_bytes(),
                    arglist@,
                    native.body,
                    sa,
                    name_sym,
                    sa,
                    name_sym,
                );
            }
            return name_sym;
        }
        let mut arg_syms: Vec<Object> = Vec::new();
        let mut i: usize = 0;
        while i < arglist.len()
            invariant
                i <= arglist@.len(),
                s0 == *old(self),
                s0.stepped_to(*self),
                self.heap.valid(name_sym),
                name_sym.spec_what_type() == RlispType::Sym,
                self.heap.is_symbol_named(name_sym.spec_index(), name.spec_bytes()),
                arg_syms@.len() == i,
                forall|q: int| 0 <= q < arg_syms@.len() ==> self.heap.valid(#[trigger] arg_syms@[q]),
                forall|q: int|
                    0 <= q < arg_syms@.len() ==> self.heap.is_symbol_named(
                        (#[trigger] arg_syms@[q]).spec_index(),
                        arglist@[q].spec_bytes(),
                    ),
                s0.interned(sa, name.spec_bytes(), name_sym),
                forall|l: Lisp, all: Seq<Object>, f: Option<Object>|
                    #![trigger self.params_interned(arglist@, i as nat, arg_syms@, l, all, f)]
                    self.params_interned(arglist@, i as nat, arg_syms@, l, all, f)
                        ==> sa.params_interned(arglist@, 0, Seq::empty(), l, all, f),
            decreases arglist@.len() - i,
        {
            let ghost before = *self;
            let ghost so_far = arg_syms@;
            let sym = self.make_symbol(arglist[i].as_bytes());
            proof {
                before.heap.lemma_valid_kept(self.heap, name_sym);
                assert forall|j: int| !(#[trigger] before.heap.at(j) is Free)
                    implies self.heap.at(j) == before.heap.at(j) by {}
                assert forall|q: int| 0 <= q < arg_syms@.len() implies self.heap.valid(
                    #[trigger] arg_syms@[q],
                ) && self.heap.is_symbol_named(
                    arg_syms@[q].spec_index(),
                    arglist@[q].spec_bytes(),
                ) by {
                    before.heap.lemma_valid_kept(self.heap, arg_syms@[q]);
                    assert(!(before.heap.at(arg_syms@[q].spec_index()) is Free));
                }
                assert(!(before.heap.at(name_sym.spec_index()) is Free));
                s0.lemma_stepped_twice(before, *self);
                Object::lemma_reference_type(ObjectTag::Error, 0);
            }
            if sym.errorp() {
                proof {
                    assert(crate::evaluator::semantics::stage(*self, sym));
                    assert(before.params_interned(
                        arglist@,
                        i as nat,
                        so_far,
                        *self,
                        so_far,
                        Some(sym),
                    ));
                    sa.lemma_native_named_failed(
                        name_sym,
                        arglist@,
                        native.body,
                        *self,
                        so_far,
                        sym,
                    );
                    s0.lemma_native_defined(
                        name.spec_bytes(),
                        arglist@,
                        native.body,
                        sa,
                        name_sym,
                        *self,
                        sym,
                    );
                }
                return sym;
            }
            arg_syms.push(sym);
            i += 1;
            proof {
                let ghost now = *self;
                assert forall|l: Lisp, all: Seq<Object>, f: Option<Object>|
                    #![trigger self.params_interned(arglist@, i as nat, arg_syms@, l, all, f)]
                    self.params_interned(
                        arglist@,
                        i as nat,
                        arg_syms@,
                        l,
                        all,
                        f,
                    ) implies sa.params_interned(arglist@, 0, Seq::empty(), l, all, f) by {
                    assert(crate::evaluator::semantics::stage(now, sym));
                    assert(before.params_interned(
                        arglist@,
                        (i - 1) as nat,
                        so_far,
                        l,
                        all,
                        f,
                    ));
                }
            }
        }
        let ghost s1 = *self;
        let ghost syms = arg_syms@;
        proof {
            assert(s1.params_interned(arglist@, i as nat, syms, s1, syms, None));
        }
        let arglist_obj = self.list_from_vec(arg_syms);
        let ghost sl = *self;
        proof {
            s1.heap.lemma_extended_kinds(self.heap);
            s1.heap.lemma_valid_kept(self.heap, name_sym);
            assert(s1.stepped_to(*self));
            s0.lemma_stepped_twice(s1, *self);
            Object::lemma_reference_type(ObjectTag::Error, 0);
        }
        if arglist_obj.errorp() {
            proof {
                sa.lemma_native_named(
                    name_sym,
                    arglist@,
                    native.body,
                    s1,
                    syms,
                    sl,
                    arglist_obj,
                    sl,
                    arglist_obj,
                );
                s0.lemma_native_defined(
                    name.spec_bytes(),
                    arglist@,
                    native.body,
                    sa,
                    name_sym,
                    sl,
                    arglist_obj,
                );
            }
            return arglist_obj;
        }
        let f = native.with_name(name_sym).with_arglist(arglist_obj);
        let ghost s2 = *self;
        proof {
            assert(s2.heap.is_list(arglist_obj, syms));
            assert forall|q: int| 0 <= q < syms.len() implies s2.heap.is_symbol_named(
                (#[trigger] syms[q]).spec_index(),
                arglist@[q].spec_bytes(),
            ) by {
                assert(!(s1.heap.at(syms[q].spec_index()) is Free));
            }
            assert(!(s1.heap.at(name_sym.spec_index()) is Free));
        }
        let fun = self.alloc_function(f);
        proof {
            assert(s2.stepped_to(*self));
            s0.lemma_stepped_twice(s2, *self);
            assert(f == (RlispFunc {
                arglist: Some(arglist_obj),
                body: native.body,
                scope: None,
                gc_marking: 0,
                name: Some(name_sym),
            }));
        }
        if fun.errorp() {
            proof {
                let s4 = *self;
                sl.lemma_native_put(name_sym, arglist_obj, native.body, s4, s4, fun);
                sa.lemma_native_named(
                    name_sym,
                    arglist@,
                    native.body,
                    s1,
                    syms,
                    sl,
                    arglist_obj,
                    s4,
                    fun,
                );
                s0.lemma_native_defined(
                    name.spec_bytes(),
                    arglist@,
                    native.body,
                    sa,
                    name_sym,
                    s4,
                    fun,
                );
            }
            return fun;
        }
        proof {
            s2.heap.lemma_valid_kept(self.heap, name_sym);
            self.heap.lemma_valid_reference(name_sym);
            assert(s2.heap.extended_by(self.heap));
            s2.heap.lemma_chain_kept(self.heap, arglist_obj, syms, Object::spec_nil());
        }
        let ghost s3 = *self;
        self.set_symbol(name_sym.index(), fun);
        proof {
            s3.heap.lemma_valid_kept(self.heap, fun);
            assert(s3.stepped_to(*self));
            s0.lemma_stepped_twice(s3, *self);
            let key = name_sym.spec_index() as u64;
            crate::symbols_table::lemma_lookup_frame(s3.scope_view(), key);
            let k = match crate::symbols_table::binding_frame(s3.scope_view(), key) {
                Some(k) => k,
                None => 0,
            };
            let ns = s3.symbols@[k] as int;
            assert(s3.heap.kind(ns) == Some(ObjectTag::Namespace));
            assert(s3.heap.cells_kept_by(self.heap)) by {
                assert forall|j: int|
                    (#[trigger] s3.heap.at(j)) is Cons || s3.heap.at(j) is Sym
                        implies self.heap.at(j) == s3.heap.at(j) by {
                    assert(j != ns);
                }
            }
            s3.heap.lemma_chain_kept_by_cells(self.heap, arglist_obj, syms, Object::spec_nil());
            assert(self.heap.at(fun.spec_index()) == s3.heap.at(fun.spec_index()));
            assert forall|q: int| 0 <= q < syms.len() implies self.heap.is_symbol_named(
                (#[trigger] syms[q]).spec_index(),
                arglist@[q].spec_bytes(),
            ) by {
                assert(!(s2.heap.at(syms[q].spec_index()) is Free));
                assert(s3.heap.at(syms[q].spec_index()) is Sym);
            }
            assert(!(s2.heap.at(name_sym.spec_index()) is Free));
            assert(s3.heap.at(name_sym.spec_index()) is Sym);
            assert(self.names_params(arglist_obj, syms, arglist@));
            assert(crate::symbols_table::lookup_in(self.scope_view(), key) == Some(fun));
            assert(self.heap.at(name_sym.spec_index()) == s3.heap.at(name_sym.spec_index()));
            assert(s3.heap.at(name_sym.spec_index()) == s2.heap.at(name_sym.spec_index()));
            assert(self.heap.is_symbol_named(name_sym.spec_index(), name.spec_bytes()));
            assert(s3.heap.at(fun.spec_index()) == Slot::Function(f));
            assert(f.arglist == Some(arglist_obj));
            assert(f.name == Some(name_sym));
            assert(f.body == native.body);
            assert(f.scope is None);
            assert(fun.spec_what_type() == RlispType::Function);
            assert(self.function_at(fun) == f);
            assert(self.names_params(self.function_at(fun).arglist.unwrap(), syms, arglist@));
            assert(self.is_native(fun, name.spec_bytes(), arglist@, native.body));
            sl.lemma_native_put(name_sym, arglist_obj, native.body, s3, *self, fun);
            sa.lemma_native_named(
                name_sym,
                arglist@,
                native.body,
                s1,
                syms,
                sl,
                arglist_obj,
                *self,
                fun,
            );
            s0.lemma_native_defined(
                name.spec_bytes(),
                arglist@,
                native.body,
                sa,
                name_sym,
                *self,
                fun,
            );
        }
        fun
    }

    /// Defines each native function of `builtin_funcs`, from the first to
    /// the last. Returns `false` where the heap got full on the way.
    pub fn source_builtins(&mut self, builtin_funcs: RlispBuiltins) -> (ok: bool)
        requires
            old(self).inv(),
        ensures
            old(self).stepped_to(*final(self)),
            old(self).natives_sourced(
                sourcing::builtin_rows(builtin_funcs@),
                0,
                true,
                *final(self),
                ok,
            ),
    {
        let ghost rows = sourcing::builtin_rows(builtin_funcs@);
        let mut ok = true;
        let mut i: usize = 0;
        while i < builtin_funcs.len()
            invariant
                i <= builtin_funcs@.len(),
                old(self).stepped_to(*self),
                rows == sourcing::builtin_rows(builtin_funcs@),
                forall|l: Lisp, res: bool|
                    #![trigger self.natives_sourced(rows, i as nat, ok, l, res)]
                    self.natives_sourced(rows, i as nat, ok, l, res) ==> old(
                        self,
                    ).natives_sourced(rows, 0, true, l, res),
            decreases builtin_funcs@.len() - i,
        {
            let ghost before = *self;
            let ghost ok0 = ok;
            let r = self.define_native(
                builtin_funcs[i].0,
                &builtin_funcs[i].1,
                RlispFunc::from_builtin(builtin_funcs[i].2),
            );
            proof {
                old(self).lemma_stepped_twice(before, *self);
            }
            if r.errorp() {
                ok = false;
            }
            i += 1;
            proof {
                assert forall|l: Lisp, res: bool|
                    #![trigger self.natives_sourced(rows, i as nat, ok, l, res)]
                    self.natives_sourced(rows, i as nat, ok, l, res) implies old(
                    self,
                ).natives_sourced(rows, 0, true, l, res) by {
                    before.lemma_natives_sourced_next(rows, (i - 1) as nat, ok0, *self, r, l, res);
                }
            }
        }
        proof {
            assert(self.natives_sourced(rows, i as nat, ok, *self, ok));
        }
        ok
    }

    /// Defines each special form of `special_forms`, from the first to the
    /// last. Returns `false` where the heap got full on the way.
    pub fn source_special_forms(&mut self, special_forms: RlispSpecialForms) -> (ok: bool)
        requires
            old(self).inv(),
        ensures
            old(self).stepped_to(*final(self)),
            old(self).natives_sourced(
                sourcing::form_rows(special_forms@),
                0,
                true,
                *final(self),
                ok,
            ),
    {
        let ghost rows = sourcing::form_rows(special_forms@);
        let mut ok = true;
        let mut i: usize = 0;
        while i < special_forms.len()
            invariant
                i <= special_forms@.len(),
                old(self).stepped_to(*self),
                rows == sourcing::form_rows(special_forms@),
                forall|l: Lisp, res: bool|
                    #![trigger self.natives_sourced(rows, i as nat, ok, l, res)]
                    self.natives_sourced(rows, i as nat, ok, l, res) ==> old(
                        self,
                    ).natives_sourced(rows, 0, true, l, res),
            decreases special_forms@.len() - i,
        {
            let ghost before = *self;
            let ghost ok0 = ok;
            let r = self.define_native(
                special_forms[i].0,
                &special_forms[i].1,
                RlispFunc::from_special_form(special_forms[i].2),
            );
            proof {
                old(self).lemma_stepped_twice(before, *self);
            }
            if r.errorp() {
                ok = false;
            }
            i += 1;
            proof {
                assert forall|l: Lisp, res: bool|
                    #![trigger self.natives_sourced(rows, i as nat, ok, l, res)]
                    self.natives_sourced(rows, i as nat, ok, l, res) implies old(
                    self,
                ).natives_sourced(rows, 0, true, l, res) by {
                    before.lemma_natives_sourced_next(rows, (i - 1) as nat, ok0, *self, r, l, res);
                }
            }
        }
        proof {
            assert(self.natives_sourced(rows, i as nat, ok, *self, ok));
        }
        ok
    }

    /// Binds each name of `builtin_vars` to its value, as `set_symbol` does,
    /// from the last to the first. Returns `false` where the heap got full
    /// on the way.
    pub fn source_builtin_vars(&mut self, builtin_vars: RlispBuiltinVars) -> (ok: bool)
        requires
            old(self).inv(),
            forall|i: int|
                0 <= i < builtin_vars@.len() ==> !((#[trigger] builtin_vars@[i]).1 is Error),
        ensures
            old(self).stepped_to(*final(self)),
            old(self).vars_sourced(builtin_vars@, true, *final(self), ok),
    {
        let mut vars = builtin_vars;
        let mut ok = true;
        while vars.len() > 0
            invariant
                old(self).stepped_to(*self),
                forall|i: int| 0 <= i < vars@.len() ==> !((#[trigger] vars@[i]).1 is Error),
                forall|l: Lisp, res: bool|
                    #![trigger self.vars_sourced(vars@, ok, l, res)]
                    self.vars_sourced(vars@, ok, l, res) ==> old(self).vars_sourced(
                        builtin_vars@,
                        true,
                        l,
                        res,
                    ),
            decreases vars@.len(),
        {
            let ghost before = *self;
            let ghost rest = vars@;
            let ghost ok0 = ok;
            let ghost mut done = true;
            let ghost mut s2 = *self;
            let ghost mut made = Object::spec_nil();
            let (name, val) = vars.pop().unwrap();
            proof {
                assert(rest[rest.len() - 1] == (name, val));
                assert forall|i: int| 0 <= i < vars@.len() implies !((#[trigger] vars@[i]).1
                    is Error) by {
                    assert(vars@[i] == rest[i]);
                }
            }
            let sym = self.make_symbol(name.as_bytes());
            let ghost s1 = *self;
            if sym.errorp() {
                ok = false;
                proof {
                    done = false;
                }
            } else {
                let obj = self.convert_into_object(val);
                proof {
                    s2 = *self;
                    made = obj;
                }
                if obj.errorp() {
                    ok = false;
                    proof {
                        done = false;
                        before.lemma_stepped_twice(s1, s2);
                    }
                } else {
                    proof {
                        s1.heap.lemma_valid_kept(self.heap, sym);
                        self.heap.lemma_valid_reference(sym);
                    }
                    self.set_symbol(sym.index(), obj);
                    proof {
                        before.lemma_stepped_twice(s1, s2);
                        before.lemma_stepped_twice(s2, *self);
                    }
                }
            }
            proof {
                old(self).lemma_stepped_twice(before, *self);
                assert(vars@ =~= rest.drop_last());
                before.lemma_var_defined(name, val, s1, sym, s2, made, *self, done);
                assert forall|l: Lisp, res: bool|
                    #![trigger self.vars_sourced(vars@, ok, l, res)]
                    self.vars_sourced(vars@, ok, l, res) implies old(self).vars_sourced(
                    builtin_vars@,
                    true,
                    l,
                    res,
                ) by {
                    before.lemma_vars_sourced_next(rest, ok0, *self, done, l, res);
                }
            }
        }
        proof {
            assert(self.vars_sourced(vars@, ok, *self, ok));
        }
        ok
    }

    /// A runtime with an empty global namespace and nothing else.
    pub fn bare() -> (r: Self)
        ensures
            r.inv(),
            r.stack@.len() == 0,
            r.symbols@.len() == 1,
            r.syms_in_memory@.len() == 0,
            r.output@.len() == 0,
            r.current_gc_mark == 1,
            r.gc_threshold == INITIAL_GC_THRESHOLD,
            r.max_depth == DEFAULT_MAX_DEPTH,
            r.frame(0) == Map::<u64, Object>::empty(),
            r.is_bare(),
    {
        let mut heap = Heap::new();
        let ghost h0 = heap;
        let table = Namespace::new();
        let global = heap.allocate(Slot::Namespace(table));
        let mut symbols: Vec<u64> = Vec::new();
        symbols.push(global.index());
        let mut macro_chars: Vec<(u8, Vec<u8>)> = Vec::new();
        let mut quote: Vec<u8> = Vec::new();
        quote.extend_from_slice("quote".as_bytes());
        proof {
            assert(quote@ =~= "quote".spec_bytes());
        }
        macro_chars.push((0x27u8, quote));
        let r = Lisp {
            heap,
            symbols,
            syms_in_memory: Vec::new(),
            macro_chars,
            stack: Vec::new(),
            current_gc_mark: 1,
            gc_threshold: INITIAL_GC_THRESHOLD,
            max_depth: DEFAULT_MAX_DEPTH,
            output: Vec::new(),
        };
        proof {
            assert(!h0.full());
            let i = h0.next_index();
            assert(i == 1);
            assert(r.heap.at(1) == Slot::Namespace(table));
            assert(r.heap.at(0) == h0.at(0));
            assert(r.heap.slots@.len() == 2) by {
                assert(r.heap.live_count() == 2);
            }
            assert(r.heap.slots@[0] == r.heap.at(0));
            assert(r.heap.slots@[1] == r.heap.at(1));
            assert(h0.slots@[0] == h0.at(0));
            assert(r.symbols@[0] == 1);
            assert(r.heap.kind(1) == Some(ObjectTag::Namespace));
            assert forall|i: int|
                0 <= i < r.heap.slots@.len() && (#[trigger] r.heap.slots@[i]) is Sym
                    implies r.syms_in_memory@.contains(i as u64) by {
                assert(i == 0 || i == 1);
            }
            assert forall|i: int| 0 <= i < r.heap.slots@.len() implies (
            #[trigger] r.heap.slots@[i]).marking() < 1 by {
                assert(i == 0 || i == 1);
            }
            assert(r.shape());
            assert(r.symbols@ =~= seq![1u64]);
            assert(r.macro_chars@[0] == (0x27u8, quote));
        }
        r
    }
}

impl Default for Lisp {
    /// A runtime with the variables, the special forms and the native
    /// functions that the language starts with.
    fn default() -> (r: Self)
        ensures
            r.inv(),
            r.stack@.len() == 0,
            r.symbols@.len() == 1,
            r.max_depth == DEFAULT_MAX_DEPTH,
            r.started(),
    {
        let mut me = Lisp::bare();
        let ghost s0 = me;
        let vars = crate::builtins::builtin_vars();
        proof {
            assert forall|i: int| 0 <= i < vars@.len() implies !((#[trigger] vars@[i]).1
                is Error) by {
                assert(vars@[i].1 is Num);
            }
        }
        let a = me.source_builtin_vars(vars);
        let ghost s1 = me;
        let b = me.source_special_forms(crate::builtins::make_special_forms());
        let ghost s2 = me;
        let c = me.source_builtins(crate::builtins::make_builtins());
        let ghost s3 = me;
        let d = me.source_builtins(crate::math::make_builtins());
        proof {
            me.lemma_started(s0, s1, s2, s3, a, b, c, d);
        }
        me
    }
}

} // verus!
