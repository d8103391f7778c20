//! Symbols and scopes: interning, and lookup through the active frames.
//!
//! The scope is a stack of namespaces. A lookup goes from the innermost frame
//! outwards and stops at the first frame that binds the symbol.

use crate::lisp::allocate::{Heap, Slot};
use crate::lisp::Lisp;
use crate::types::rlisperror::RlispErrorKind;
use crate::types::{Namespace, Object, ObjectTag, RlispError, RlispType, Symbol};
use vstd::prelude::*;
use vstd::string::StringSliceAdditionalSpecFns;

verus! {

/// What a stack of frames binds `sym` to: the binding of the last frame, from
/// the end, that has one.
pub open spec fn lookup_in(frames: Seq<Map<u64, Object>>, sym: u64) -> Option<Object>
    decreases frames.len(),
{
    if frames.len() == 0 {
        None
    } else if frames.last().contains_key(sym) {
        Some(frames.last()[sym])
    } else {
        lookup_in(frames.drop_last(), sym)
    }
}

/// The index of the frame that a lookup of `sym` stops at.
pub open spec fn binding_frame(frames: Seq<Map<u64, Object>>, sym: u64) -> Option<int>
    decreases frames.len(),
{
    if frames.len() == 0 {
        None
    } else if frames.last().contains_key(sym) {
        Some(frames.len() - 1)
    } else {
        binding_frame(frames.drop_last(), sym)
    }
}

/// The map that binds, for each pair from first to last, the key to the
/// value: of two pairs with one key the later one counts.
pub open spec fn pairs_to_map(pairs: Seq<(u64, Object)>) -> Map<u64, Object>
    decreases pairs.len(),
{
    if pairs.len() == 0 {
        Map::empty()
    } else {
        pairs_to_map(pairs.drop_last()).insert(pairs.last().0, pairs.last().1)
    }
}

/// An inner frame shadows the frames below it, and leaves them as they were:
/// with a frame `inner` on top of `frames`, a symbol that `inner` binds is
/// looked up to what `inner` binds it to, whatever the frames below say, and
/// once `inner` is taken off again every symbol is looked up to what it was
/// before.
pub proof fn lemma_scope_shadowing(frames: Seq<Map<u64, Object>>, inner: Map<u64, Object>, sym: u64)
    ensures
        inner.contains_key(sym) ==> lookup_in(frames.push(inner), sym) == Some(inner[sym]),
        !inner.contains_key(sym) ==> lookup_in(frames.push(inner), sym) == lookup_in(frames, sym),
        lookup_in(frames.push(inner).drop_last(), sym) == lookup_in(frames, sym),
{
    assert(frames.push(inner).drop_last() =~= frames);
    assert(frames.push(inner).last() == inner);
}

/// A lookup finds a binding iff some frame has one, and then it is the
/// binding of the frame that `binding_frame` names.
pub proof fn lemma_lookup_frame(frames: Seq<Map<u64, Object>>, sym: u64)
    ensures
        match binding_frame(frames, sym) {
            Some(k) => {
                &&& 0 <= k < frames.len()
                &&& frames[k].contains_key(sym)
                &&& lookup_in(frames, sym) == Some(frames[k][sym])
                &&& forall|j: int| k < j < frames.len() ==> !(#[trigger] frames[j]).contains_key(sym)
            },
            None => {
                &&& lookup_in(frames, sym) is None
                &&& forall|j: int| 0 <= j < frames.len() ==> !(#[trigger] frames[j]).contains_key(sym)
            },
        },
    decreases frames.len(),
{
    if frames.len() > 0 && !frames.last().contains_key(sym) {
        lemma_lookup_frame(frames.drop_last(), sym);
        let rest = frames.drop_last();
        match binding_frame(rest, sym) {
            Some(k) => {
                assert(rest[k] == frames[k]);
                assert forall|j: int| k < j < frames.len() implies !(#[trigger] frames[j]).contains_key(sym) by {
                    if j < rest.len() {
                        assert(rest[j] == frames[j]);
                    }
                }
            },
            None => {
                assert forall|j: int| 0 <= j < frames.len() implies !(#[trigger] frames[j]).contains_key(sym) by {
                    if j < rest.len() {
                        assert(rest[j] == frames[j]);
                    }
                }
            },
        }
    }
}

/// True iff a symbol of this name evaluates to itself: the name starts with a
/// colon.
pub open spec fn is_keyword(name: Seq<u8>) -> bool {
    name.len() > 0 && name[0] == 0x3Au8
}

/// The name of a type, as programs write it.
pub open spec fn spec_type_name(typ: RlispType) -> Seq<u8> {
    match typ {
        RlispType::Cons => "cons".spec_bytes(),
        RlispType::Number => "number".spec_bytes(),
        RlispType::Integer => "integer".spec_bytes(),
        RlispType::Float => "float".spec_bytes(),
        RlispType::Sym => "symbol".spec_bytes(),
        RlispType::String => "string".spec_bytes(),
        RlispType::Function => "function".spec_bytes(),
        RlispType::Bool => "boolean".spec_bytes(),
        RlispType::Error => "error".spec_bytes(),
        RlispType::Namespace => "namespace".spec_bytes(),
        RlispType::Place => "place".spec_bytes(),
    }
}

/// The name of a type, as programs write it.
pub fn type_name_bytes(typ: RlispType) -> (r: &'static [u8])
    ensures
        r@ == spec_type_name(typ),
{
    match typ {
        RlispType::Cons => "cons".as_bytes(),
        RlispType::Number => "number".as_bytes(),
        RlispType::Integer => "integer".as_bytes(),
        RlispType::Float => "float".as_bytes(),
        RlispType::Sym => "symbol".as_bytes(),
        RlispType::String => "string".as_bytes(),
        RlispType::Function => "function".as_bytes(),
        RlispType::Bool => "boolean".as_bytes(),
        RlispType::Error => "error".as_bytes(),
        RlispType::Namespace => "namespace".as_bytes(),
        RlispType::Place => "place".as_bytes(),
    }
}

/// The type that a name designates: the first, in the order of the list, of
/// the ten types that a program can ask for whose name it is.
pub open spec fn spec_type_from_name(name: Seq<u8>) -> Option<RlispType> {
    if name == spec_type_name(RlispType::Cons) {
        Some(RlispType::Cons)
    } else if name == spec_type_name(RlispType::Number) {
        Some(RlispType::Number)
    } else if name == spec_type_name(RlispType::Sym) {
        Some(RlispType::Sym)
    } else if name == spec_type_name(RlispType::String) {
        Some(RlispType::String)
    } else if name == spec_type_name(RlispType::Function) {
        Some(RlispType::Function)
    } else if name == spec_type_name(RlispType::Bool) {
        Some(RlispType::Bool)
    } else if name == spec_type_name(RlispType::Error) {
        Some(RlispType::Error)
    } else if name == spec_type_name(RlispType::Integer) {
        Some(RlispType::Integer)
    } else if name == spec_type_name(RlispType::Namespace) {
        Some(RlispType::Namespace)
    } else if name == spec_type_name(RlispType::Float) {
        Some(RlispType::Float)
    } else {
        None
    }
}

/// The type that a name designates.
pub fn type_from_name(name: &[u8]) -> (r: Option<RlispType>)
    ensures
        r == spec_type_from_name(name@),
{
    if bytes_eq(name, type_name_bytes(RlispType::Cons)) {
        Some(RlispType::Cons)
    } else if bytes_eq(name, type_name_bytes(RlispType::Number)) {
        Some(RlispType::Number)
    } else if bytes_eq(name, type_name_bytes(RlispType::Sym)) {
        Some(RlispType::Sym)
    } else if bytes_eq(name, type_name_bytes(RlispType::String)) {
        Some(RlispType::String)
    } else if bytes_eq(name, type_name_bytes(RlispType::Function)) {
        Some(RlispType::Function)
    } else if bytes_eq(name, type_name_bytes(RlispType::Bool)) {
        Some(RlispType::Bool)
    } else if bytes_eq(name, type_name_bytes(RlispType::Error)) {
        Some(RlispType::Error)
    } else if bytes_eq(name, type_name_bytes(RlispType::Integer)) {
        Some(RlispType::Integer)
    } else if bytes_eq(name, type_name_bytes(RlispType::Namespace)) {
        Some(RlispType::Namespace)
    } else if bytes_eq(name, type_name_bytes(RlispType::Float)) {
        Some(RlispType::Float)
    } else {
        None
    }
}

/// The name under which a handler catches errors of a kind. An error that a
/// program made itself has no such name: it is caught under its own kind.
pub open spec fn spec_error_name(err: RlispErrorKind) -> Seq<u8> {
    match err {
        RlispErrorKind::WrongType { .. } => "wrong-type-error".spec_bytes(),
        RlispErrorKind::BadArgsCount { .. } => "wrong-arg-count-error".spec_bytes(),
        RlispErrorKind::ImproperList => "improper-list-error".spec_bytes(),
        RlispErrorKind::UnboundSymbol { .. } => "unbound-symbol-error".spec_bytes(),
        RlispErrorKind::RustError(_) => "internal-error".spec_bytes(),
        RlispErrorKind::NotAType { .. } => "type-designator-error".spec_bytes(),
        RlispErrorKind::Custom { .. } => "error".spec_bytes(),
        RlispErrorKind::UndefinedSymbol { .. } => "undefined-symbol-error".spec_bytes(),
        RlispErrorKind::IndexOutOfBounds { .. } => "index-out-of-bounds-error".spec_bytes(),
    }
}

/// The name under which a handler catches errors of a kind.
pub fn error_name_bytes(err: &RlispErrorKind) -> (r: &'static [u8])
    ensures
        r@ == spec_error_name(*err),
{
    match err {
        RlispErrorKind::WrongType { .. } => "wrong-type-error".as_bytes(),
        RlispErrorKind::BadArgsCount { .. } => "wrong-arg-count-error".as_bytes(),
        RlispErrorKind::ImproperList => "improper-list-error".as_bytes(),
        RlispErrorKind::UnboundSymbol { .. } => "unbound-symbol-error".as_bytes(),
        RlispErrorKind::RustError(_) => "internal-error".as_bytes(),
        RlispErrorKind::NotAType { .. } => "type-designator-error".as_bytes(),
        RlispErrorKind::Custom { .. } => "error".as_bytes(),
        RlispErrorKind::UndefinedSymbol { .. } => "undefined-symbol-error".as_bytes(),
        RlispErrorKind::IndexOutOfBounds { .. } => "index-out-of-bounds-error".as_bytes(),
    }
}

/// Interning gives one symbol to a name and another to another name: of two
/// calls of `make_symbol` in a row that both return a symbol, the second
/// returns the very reference of the first and changes nothing where the
/// names are the same, and a different reference where they differ.
pub proof fn lemma_interning(
    s1: Lisp,
    n1: Seq<u8>,
    s2: Lisp,
    r1: Object,
    n2: Seq<u8>,
    s3: Lisp,
    r2: Object,
)
    requires
        s1.inv(),
        s1.interned(s2, n1, r1),
        s2.inv(),
        s2.interned(s3, n2, r2),
        r1.spec_what_type() == RlispType::Sym,
        r2.spec_what_type() == RlispType::Sym,
    ensures
        n1 == n2 ==> r2 == r1 && s3 == s2,
        n1 != n2 ==> r2 != r1,
{
    Object::lemma_reference_type(ObjectTag::Error, 0);
    let i1 = r1.spec_index();
    let i2 = r2.spec_index();
    assert(s2.heap.is_symbol_named(i1, n1));
    assert(0 <= i1 < s2.heap.slots@.len());
    assert(s2.heap.has_symbol_named(n1));
    if n1 == n2 {
        assert(s2.heap.is_symbol_named(i2, n1));
        assert(s2.heap.slots@[i1] == s2.heap.at(i1));
        assert(s2.heap.slots@[i2] == s2.heap.at(i2));
        assert(i1 == i2);
        r1.lemma_reference_rebuilt(ObjectTag::Sym);
        r2.lemma_reference_rebuilt(ObjectTag::Sym);
    } else {
        assert(s3.heap.is_symbol_named(i2, n2));
        if i1 == i2 {
            if s2.heap.has_symbol_named(n2) {
            } else {
                assert(s2.heap.at(i2) is Free);
            }
        }
    }
}

/// A frame below all others is looked at last: with `outer` below `frames`,
/// a symbol is looked up to what `frames` bind it to, and to what `outer`
/// binds it to where they bind it to nothing.
pub proof fn lemma_lookup_outer(outer: Map<u64, Object>, frames: Seq<Map<u64, Object>>, sym: u64)
    ensures
        lookup_in(seq![outer] + frames, sym) == (match lookup_in(frames, sym) {
            Some(v) => Some(v),
            None => if outer.contains_key(sym) {
                Some(outer[sym])
            } else {
                None
            },
        }),
    decreases frames.len(),
{
    let all = seq![outer] + frames;
    if frames.len() == 0 {
        assert(all.len() == 1);
        assert(all.last() == outer);
        assert(all.drop_last() =~= Seq::<Map<u64, Object>>::empty());
        assert(lookup_in(all.drop_last(), sym) is None);
        assert(lookup_in(frames, sym) is None);
        if outer.contains_key(sym) {
            assert(lookup_in(all, sym) == Some(outer[sym]));
        } else {
            assert(lookup_in(all, sym) == lookup_in(all.drop_last(), sym));
        }
    } else {
        assert(all.len() == frames.len() + 1);
        assert(all.last() == frames.last());
        assert(all.drop_last() =~= seq![outer] + frames.drop_last());
        if frames.last().contains_key(sym) {
            assert(lookup_in(all, sym) == Some(frames.last()[sym]));
            assert(lookup_in(frames, sym) == Some(frames.last()[sym]));
        } else {
            lemma_lookup_outer(outer, frames.drop_last(), sym);
            assert(lookup_in(all, sym) == lookup_in(all.drop_last(), sym));
            assert(lookup_in(frames, sym) == lookup_in(frames.drop_last(), sym));
        }
    }
}

/// Frames that bind a symbol alike are looked up alike.
pub proof fn lemma_lookup_same(a: Seq<Map<u64, Object>>, b: Seq<Map<u64, Object>>, sym: u64)
    requires
        a.len() == b.len(),
        forall|j: int|
            0 <= j < a.len() ==> (#[trigger] b[j]).contains_key(sym) == a[j].contains_key(sym) && (
            a[j].contains_key(sym) ==> b[j][sym] == a[j][sym]),
    ensures
        lookup_in(b, sym) == lookup_in(a, sym),
    decreases a.len(),
{
    if a.len() > 0 {
        assert(b[b.len() - 1].contains_key(sym) == a[a.len() - 1].contains_key(sym));
        if !a.last().contains_key(sym) {
            assert forall|j: int| 0 <= j < a.drop_last().len() implies (
            #[trigger] b.drop_last()[j]).contains_key(sym) == a.drop_last()[j].contains_key(sym)
                && (a.drop_last()[j].contains_key(sym) ==> b.drop_last()[j][sym]
                == a.drop_last()[j][sym]) by {
                assert(b[j].contains_key(sym) == a[j].contains_key(sym));
            }
            lemma_lookup_same(a.drop_last(), b.drop_last(), sym);
        }
    }
}

/// True iff the two byte sequences are the same.
pub fn bytes_eq(a: &[u8], b: &[u8]) -> (r: bool)
    ensures
        r == (a@ == b@),
{
    if a.len() != b.len() {
        return false;
    }
    let mut i: usize = 0;
    while i < a.len()
        invariant
            a@.len() == b@.len(),
            i <= a@.len(),
            forall|j: int| 0 <= j < i ==> a@[j] == b@[j],
        decreases a@.len() - i,
    {
        if a[i] != b[i] {
            return false;
        }
        i += 1;
    }
    assert(a@ =~= b@);
    true
}

impl Lisp {
    /// What frame `k` of the scope binds.
    pub open spec fn frame(self, k: int) -> Map<u64, Object> {
        match self.heap.at(self.symbols@[k] as int) {
            Slot::Namespace(n) => n.bindings(),
            _ => Map::empty(),
        }
    }

    /// The scope as the bindings of its frames, the global namespace first.
    pub open spec fn scope_view(self) -> Seq<Map<u64, Object>> {
        Seq::new(self.symbols@.len(), |k: int| self.frame(k))
    }

    /// The name of the symbol in slot `idx`.
    pub open spec fn symbol_name(self, idx: int) -> Seq<u8> {
        match self.heap.at(idx) {
            Slot::Sym(s) => s.name@,
            _ => Seq::empty(),
        }
    }

    /// The active frames, by slot index.
    pub fn scope(&self) -> (r: &Vec<u64>)
        ensures
            r@ == self.symbols@,
    {
        &self.symbols
    }

    /// The slot index of the global namespace.
    pub fn global_symbol_tab(&self) -> (r: u64)
        requires
            self.inv(),
        ensures
            r == self.symbols@[0],
            self.heap.kind(r as int) == Some(ObjectTag::Namespace),
    {
        self.symbols[0]
    }

    /// Makes the namespace in slot `nmspc` the innermost frame.
    pub fn push_namespace(&mut self, nmspc: u64)
        requires
            old(self).inv(),
            old(self).heap.kind(nmspc as int) == Some(ObjectTag::Namespace),
        ensures
            final(self).inv(),
            *final(self) == (Lisp { symbols: final(self).symbols, ..*old(self) }),
            final(self).symbols@ == old(self).symbols@.push(nmspc),
    {
        self.symbols.push(nmspc);
    }

    /// Takes the innermost frame off. The global namespace is never taken
    /// off: the scope must hold another frame besides it.
    pub fn end_scope(&mut self)
        requires
            old(self).inv(),
            old(self).symbols@.len() > 1,
        ensures
            final(self).inv(),
            *final(self) == (Lisp { symbols: final(self).symbols, ..*old(self) }),
            final(self).symbols@ == old(self).symbols@.drop_last(),
            final(self).scope_view() == old(self).scope_view().drop_last(),
    {
        self.symbols.pop();
        proof {
            assert(self.scope_view() =~= old(self).scope_view().drop_last());
        }
    }

    /// What `make_symbol` does to the runtime for the name `name`, and the
    /// reference that it returns: `later` is the runtime afterwards. Where a
    /// symbol of that name exists, nothing changes and `r` names it. Else a
    /// symbol of that name is allocated and entered in the table of interned
    /// symbols; where no slot is left, nothing changes and `r` is the
    /// full-heap error.
    pub open spec fn interned(self, later: Lisp, name: Seq<u8>, r: Object) -> bool {
        if self.heap.has_symbol_named(name) {
            &&& later == self
            &&& r.spec_what_type() == RlispType::Sym
            &&& self.heap.is_symbol_named(r.spec_index(), name)
        } else if self.heap.full() {
            later == self && r == Heap::spec_out_of_memory()
        } else {
            &&& later == (Lisp {
                heap: later.heap,
                syms_in_memory: later.syms_in_memory,
                ..self
            })
            &&& later.syms_in_memory@ == self.syms_in_memory@.push(r.spec_index() as u64)
            &&& self.heap.kinds_kept_by(later.heap)
            &&& r.spec_what_type() == RlispType::Sym
            &&& later.heap.is_symbol_named(r.spec_index(), name)
            &&& later.heap.at(r.spec_index()).marking() == 0
            &&& self.heap.at(r.spec_index()) is Free
            &&& r.spec_index() == self.heap.next_index()
            &&& forall|j: int|
                j != r.spec_index() ==> #[trigger] later.heap.at(j) == self.heap.at(j)
        }
    }

    /// The symbol with the name `sym`: the one that exists, or else a new
    /// one. Where no slot is left for a new one, the full-heap error.
    pub fn make_symbol(&mut self, sym: &[u8]) -> (r: Object)
        requires
            old(self).inv(),
        ensures
            final(self).inv(),
            old(self).interned(*final(self), sym@, r),
            final(self).heap.valid(r),
            old(self).heap.kinds_kept_by(final(self).heap),
            old(self).stepped_to(*final(self)),
            r.spec_what_type() == RlispType::Sym || r == Heap::spec_out_of_memory(),
            r.spec_what_type() == RlispType::Sym || r.spec_what_type() == RlispType::Error,
            r.spec_what_type() == RlispType::Sym ==> final(self).heap.is_symbol_named(
                r.spec_index(),
                sym@,
            ),
            old(self).heap.extended_by(final(self).heap),
    {
        proof {
            Object::lemma_reference_type(ObjectTag::Error, 0);
        }
        let mut k: usize = 0;
        while k < self.syms_in_memory.len()
            invariant
                self.inv(),
                *self == *old(self),
                k <= self.syms_in_memory@.len(),
                forall|j: int|
                    0 <= j < k ==> !self.heap.is_symbol_named(
                        #[trigger] self.syms_in_memory@[j] as int,
                        sym@,
                    ),
            decreases self.syms_in_memory@.len() - k,
        {
            let idx: u64 = self.syms_in_memory[k];
            let found = bytes_eq(self.heap.symbol_at(idx).name.as_slice(), sym);
            if found {
                proof {
                    assert(self.heap.is_symbol_named(idx as int, sym@));
                    assert(idx < self.heap.slots@.len());
                }
                return self.heap.reference_to(ObjectTag::Sym, idx);
            }
            k += 1;
        }
        proof {
            if self.heap.has_symbol_named(sym@) {
                let i = choose|i: int|
                    0 <= i < self.heap.slots@.len() && #[trigger] self.heap.is_symbol_named(
                        i,
                        sym@,
                    );
                assert(self.heap.slots@[i] is Sym);
                assert(self.syms_in_memory@.contains(i as u64));
            }
        }
        let mut name: Vec<u8> = Vec::new();
        name.extend_from_slice(sym);
        assert(name@ =~= sym@);
        let ghost before = *self;
        let full = self.heap.is_full();
        let slot = Slot::Sym(Symbol::new(name));
        let r = self.heap.allocate(slot);
        if !full {
            self.syms_in_memory.push(r.index());
        }
        proof {
            if !full {
                let i = before.heap.next_index();
                assert(self.heap.kind(i) == Some(ObjectTag::Sym));
                assert forall|j: int| 0 <= j < self.heap.slots@.len() implies (
                #[trigger] self.heap.slots@[j]).marking() < self.current_gc_mark by {
                    assert(self.heap.slots@[j] == self.heap.at(j));
                    if j != i {
                        assert(self.heap.at(j) == before.heap.at(j));
                        if j < before.heap.slots@.len() {
                            assert(before.heap.at(j) == before.heap.slots@[j]);
                        }
                    }
                }
                assert forall|k: int| 0 <= k < self.symbols@.len() implies self.heap.kind(
                    #[trigger] self.symbols@[k] as int,
                ) == Some(ObjectTag::Namespace) by {
                    assert(before.heap.kind(before.symbols@[k] as int) is Some);
                }
                assert forall|k: int| 0 <= k < self.stack@.len() implies self.heap.valid(
                    #[trigger] self.stack@[k],
                ) by {
                    before.heap.lemma_valid_kept(self.heap, before.stack@[k]);
                }
                assert forall|k: int| 0 <= k < self.syms_in_memory@.len() implies self.heap.kind(
                    #[trigger] self.syms_in_memory@[k] as int,
                ) == Some(ObjectTag::Sym) by {
                    if k < before.syms_in_memory@.len() {
                        assert(before.heap.kind(before.syms_in_memory@[k] as int) is Some);
                    }
                }
                assert forall|j: int|
                    0 <= j < self.heap.slots@.len() && (#[trigger] self.heap.slots@[j]) is Sym
                        implies self.syms_in_memory@.contains(j as u64) by {
                    assert(self.heap.slots@[j] == self.heap.at(j));
                    if j != i {
                        assert(self.heap.at(j) == before.heap.at(j));
                        assert(before.heap.slots@[j] is Sym);
                        let k = choose|k: int|
                            0 <= k < before.syms_in_memory@.len() && before.syms_in_memory@[k]
                                == j as u64;
                        assert(self.syms_in_memory@[k] == j as u64);
                    } else {
                        assert(self.syms_in_memory@[before.syms_in_memory@.len() as int]
                            == i as u64);
                    }
                }
            } else {
                Object::lemma_reference_type(ObjectTag::Error, 0);
                assert(self.heap.slots@[0] == self.heap.at(0));
            }
        }
        r
    }

    /// What `get_symbol` does to the runtime for the symbol `sym`, and what it
    /// returns: `later` is the runtime afterwards. The symbols `nil` and `t`
    /// give their constants, and a keyword gives itself. Any other symbol
    /// gives what the innermost frame that binds it binds it to; where none
    /// does, an error is allocated that says that the symbol is unbound.
    pub open spec fn got(self, later: Lisp, sym: Object, r: Object) -> bool {
        let name = self.symbol_name(sym.spec_index());
        if name == "nil".spec_bytes() {
            later == self && r == Object::spec_nil()
        } else if name == "t".spec_bytes() {
            later == self && r == Object::spec_t()
        } else if is_keyword(name) {
            later == self && r == sym
        } else {
            match lookup_in(self.scope_view(), sym.spec_index() as u64) {
                Some(v) => later == self && r == v,
                None => self.allocated(
                    later,
                    Slot::Error(
                        RlispError {
                            gc_marking: 0,
                            error: RlispErrorKind::UnboundSymbol { sym },
                        },
                    ),
                    r,
                ),
            }
        }
    }

    /// The value of the symbol `sym`.
    pub fn get_symbol(&mut self, sym: Object) -> (r: Object)
        requires
            old(self).inv(),
            old(self).heap.valid(sym),
            sym.spec_what_type() == RlispType::Sym,
        ensures
            final(self).inv(),
            old(self).got(*final(self), sym, r),
            final(self).heap.valid(r),
            old(self).heap_grew_to(*final(self)),
    {
        proof {
            self.heap.lemma_valid_reference(sym);
        }
        let idx: u64 = sym.index();
        let name = &self.heap.symbol(sym).name;
        if bytes_eq(name.as_slice(), "nil".as_bytes()) {
            return Object::nil();
        }
        if bytes_eq(name.as_slice(), "t".as_bytes()) {
            return Object::t();
        }
        if name.len() > 0 && name[0] == 0x3Au8 {
            return sym;
        }
        let ghost frames = self.scope_view();
        let mut k: usize = self.symbols.len();
        while k > 0
            invariant
                self.inv(),
                *self == *old(self),
                frames == self.scope_view(),
                k <= self.symbols@.len(),
                forall|j: int| k <= j < frames.len() ==> !(#[trigger] frames[j]).contains_key(idx),
                idx == sym.spec_index(),
                self.symbol_name(sym.spec_index()) != "nil".spec_bytes(),
                self.symbol_name(sym.spec_index()) != "t".spec_bytes(),
                !is_keyword(self.symbol_name(sym.spec_index())),
            decreases k,
        {
            k -= 1;
            let ns: u64 = self.symbols[k];
            let table = self.heap.namespace(ns);
            match table.get(idx) {
                Some(v) => {
                    proof {
                        assert(frames[k as int] == self.frame(k as int));
                        assert(frames[k as int].contains_key(idx));
                        lemma_lookup_frame(frames, idx);
                        match binding_frame(frames, idx) {
                            Some(b) => {
                                assert(b == k);
                            },
                            None => {
                                assert(false);
                            },
                        }
                        assert(lookup_in(frames, idx) == Some(v));
                        assert(self.heap.slots@[ns as int] == self.heap.at(ns as int));
                        assert(self.heap.slot_ok(self.heap.slots@[ns as int]));
                        assert(table.table@.contains_value(v));
                        assert(self.heap.at(ns as int).holds(v));
                    }
                    return v;
                },
                None => {
                    proof {
                        assert(frames[k as int] == self.frame(k as int));
                    }
                },
            }
        }
        proof {
            lemma_lookup_frame(frames, idx);
        }
        self.alloc_error(RlispError::unbound_symbol(sym))
    }

    /// What `set_symbol` does to the runtime: `later` is the runtime
    /// afterwards. The namespace that changes is the innermost frame that
    /// binds `sym`, or the global namespace where none does; in it `sym` is
    /// bound to `val`; nothing else changes.
    pub open spec fn bound(self, later: Lisp, sym: u64, val: Object) -> bool {
        let k = match binding_frame(self.scope_view(), sym) {
            Some(k) => k,
            None => 0,
        };
        let ns = self.symbols@[k] as int;
        &&& later == (Lisp { heap: later.heap, ..self })
        &&& forall|j: int| j != ns ==> #[trigger] later.heap.at(j) == self.heap.at(j)
        &&& match (self.heap.at(ns), later.heap.at(ns)) {
            (Slot::Namespace(a), Slot::Namespace(b)) => {
                &&& b.bindings() == a.bindings().insert(sym, val)
                &&& b.name == a.name
                &&& b.gc_marking == a.gc_marking
            },
            _ => false,
        }
    }

    /// Binds `sym` to `val` where it is bound already, in the innermost frame
    /// that binds it, and else in the global namespace.
    pub fn set_symbol(&mut self, sym: u64, val: Object)
        requires
            old(self).inv(),
            old(self).heap.kind(sym as int) == Some(ObjectTag::Sym),
            old(self).heap.valid(val),
        ensures
            final(self).inv(),
            old(self).bound(*final(self), sym, val),
            old(self).heap_grew_to(*final(self)),
            final(self).heap.kinds_kept_by(old(self).heap),
            lookup_in(final(self).scope_view(), sym) == Some(val),
            forall|other: u64|
                other != sym ==> lookup_in(final(self).scope_view(), other) == lookup_in(
                    old(self).scope_view(),
                    other,
                ),
    {
        let ghost frames = self.scope_view();
        let mut target: u64 = self.symbols[0];
        let mut k: usize = self.symbols.len();
        while k > 0
            invariant_except_break
                forall|j: int| k <= j < frames.len() ==> !(#[trigger] frames[j]).contains_key(sym),
                target == self.symbols@[0],
                k == 0 ==> binding_frame(frames, sym) is None,
            invariant
                self.inv(),
                *self == *old(self),
                frames == self.scope_view(),
                k <= self.symbols@.len(),
            ensures
                match binding_frame(frames, sym) {
                    Some(b) => target == self.symbols@[b],
                    None => target == self.symbols@[0],
                },
            decreases k,
        {
            k -= 1;
            let ns: u64 = self.symbols[k];
            if self.heap.namespace(ns).contains_key(sym) {
                target = ns;
                proof {
                    assert(frames[k as int] == self.frame(k as int));
                    lemma_lookup_frame(frames, sym);
                    match binding_frame(frames, sym) {
                        Some(b) => {
                            assert(b == k);
                        },
                        None => {
                            assert(false);
                        },
                    }
                }
                break ;
            }
            proof {
                assert(frames[k as int] == self.frame(k as int));
                if k == 0 {
                    lemma_lookup_frame(frames, sym);
                }
            }
        }
        proof {
            lemma_lookup_frame(frames, sym);
        }
        let ghost before = *self;
        self.heap.namespace_insert(target, sym, val);
        proof {
            let i = target as int;
            assert forall|j: int|
                0 <= j < self.heap.slots@.len() && (#[trigger] self.heap.slots@[j]) is Sym
                    implies before.heap.at(j) is Sym by {
                assert(self.heap.slots@[j] == self.heap.at(j));
                if j != i {
                    assert(self.heap.at(j) == before.heap.at(j));
                }
            }
            assert forall|j: int| 0 <= j < self.heap.slots@.len() implies (
            #[trigger] self.heap.slots@[j]).marking() < before.current_gc_mark by {
                assert(self.heap.slots@[j] == self.heap.at(j));
                assert(before.heap.at(j) == before.heap.slots@[j]);
                if j != i {
                    assert(self.heap.at(j) == before.heap.at(j));
                }
            }
            before.lemma_inv_kept(*self);
            before.lemma_bound_lookup(*self, sym, val);
            assert forall|other: u64| other != sym implies lookup_in(self.scope_view(), other)
                == lookup_in(before.scope_view(), other) by {
                before.lemma_bound_elsewhere(*self, sym, val, other);
            }
        }
    }

    /// After a symbol was bound, it is looked up to what it was bound to.
    pub proof fn lemma_bound_lookup(self, later: Lisp, sym: u64, val: Object)
        requires
            self.symbols@.len() >= 1,
            self.bound(later, sym, val),
        ensures
            lookup_in(later.scope_view(), sym) == Some(val),
    {
        let old_frames = self.scope_view();
        let new_frames = later.scope_view();
        lemma_lookup_frame(old_frames, sym);
        lemma_lookup_frame(new_frames, sym);
        let k = match binding_frame(old_frames, sym) {
            Some(k) => k,
            None => 0,
        };
        let ns = self.symbols@[k] as int;
        assert(new_frames[k] == later.frame(k));
        assert(new_frames[k].contains_key(sym));
        match binding_frame(new_frames, sym) {
            Some(j) => {
                assert(new_frames[j] == later.frame(j));
                assert(old_frames[j] == self.frame(j));
                if self.symbols@[j] as int != ns {
                    assert(later.heap.at(self.symbols@[j] as int) == self.heap.at(
                        self.symbols@[j] as int,
                    ));
                    assert(old_frames[j].contains_key(sym));
                }
            },
            None => {},
        }
    }

    /// Binding a symbol leaves what every other symbol is looked up to.
    pub proof fn lemma_bound_elsewhere(self, later: Lisp, sym: u64, val: Object, other: u64)
        requires
            self.symbols@.len() >= 1,
            self.bound(later, sym, val),
            other != sym,
        ensures
            lookup_in(later.scope_view(), other) == lookup_in(self.scope_view(), other),
    {
        let old_frames = self.scope_view();
        let new_frames = later.scope_view();
        lemma_lookup_frame(old_frames, sym);
        let k = match binding_frame(old_frames, sym) {
            Some(k) => k,
            None => 0,
        };
        let ns = self.symbols@[k] as int;
        assert forall|j: int| 0 <= j < old_frames.len() implies (
        #[trigger] new_frames[j]).contains_key(other) == old_frames[j].contains_key(other) && (
        old_frames[j].contains_key(other) ==> new_frames[j][other] == old_frames[j][other]) by {
            assert(new_frames[j] == later.frame(j));
            assert(old_frames[j] == self.frame(j));
            if self.symbols@[j] as int != ns {
                assert(later.heap.at(self.symbols@[j] as int) == self.heap.at(
                    self.symbols@[j] as int,
                ));
            }
        }
        lemma_lookup_same(old_frames, new_frames, other);
    }

    /// Makes a frame that binds each key of `keys_and_vals` to its value, of
    /// two pairs with one key to the later one, and makes it the innermost
    /// frame. Returns `false`, and changes nothing, where the heap has no
    /// slot left for the frame.
    pub fn new_scope(&mut self, keys_and_vals: &Vec<(u64, Object)>) -> (ok: bool)
        requires
            old(self).inv(),
            forall|i: int|
                0 <= i < keys_and_vals@.len() ==> old(self).heap.kind(
                    (#[trigger] keys_and_vals@[i]).0 as int,
                ) == Some(ObjectTag::Sym) && old(self).heap.valid(keys_and_vals@[i].1),
        ensures
            final(self).inv(),
            ok == !old(self).heap.full(),
            !ok ==> *final(self) == *old(self),
            ok ==> {
                let i = old(self).heap.next_index();
                &&& *final(self) == (Lisp {
                    heap: final(self).heap,
                    symbols: final(self).symbols,
                    ..*old(self)
                })
                &&& final(self).symbols@ == old(self).symbols@.push(i as u64)
                &&& old(self).heap.at(i) is Free
                &&& forall|j: int|
                    j != i ==> #[trigger] final(self).heap.at(j) == old(self).heap.at(j)
                &&& match final(self).heap.at(i) {
                    Slot::Namespace(n) => n.bindings() == pairs_to_map(keys_and_vals@) && n.name
                        is None && n.gc_marking == 0,
                    _ => false,
                }
                &&& final(self).scope_view() == old(self).scope_view().push(
                    pairs_to_map(keys_and_vals@),
                )
            },
            old(self).heap.kinds_kept_by(final(self).heap),
    {
        let mut table = Namespace::new();
        let mut i: usize = 0;
        while i < keys_and_vals.len()
            invariant
                i <= keys_and_vals@.len(),
                table.wf(),
                table.name is None,
                table.gc_marking == 0,
                table.bindings() == pairs_to_map(keys_and_vals@.take(i as int)),
                self.heap.slot_ok(Slot::Namespace(table)),
                *self == *old(self),
                forall|i: int|
                    0 <= i < keys_and_vals@.len() ==> old(self).heap.kind(
                        (#[trigger] keys_and_vals@[i]).0 as int,
                    ) == Some(ObjectTag::Sym) && old(self).heap.valid(keys_and_vals@[i].1),
            decreases keys_and_vals@.len() - i,
        {
            let (key, val) = keys_and_vals[i];
            let ghost prev = table;
            table.insert(key, val);
            proof {
                assert(keys_and_vals@.take(i + 1).drop_last() =~= keys_and_vals@.take(i as int));
                assert(keys_and_vals@.take(i + 1).last() == keys_and_vals@[i as int]);
                let now = Slot::Namespace(table);
                assert forall|o: Object| #[trigger] now.holds(o) implies self.heap.valid(o) by {
                    let k = choose|k: u64| table.table@.dom().contains(k) && table.table@[k] == o;
                    if k != key {
                        assert(prev.table@.dom().contains(k) && prev.table@[k] == o);
                        assert(prev.table@.contains_value(o));
                        assert(Slot::Namespace(prev).holds(o));
                    }
                }
                assert forall|t: ObjectTag, j: u64| #[trigger]
                    now.names(t, j) implies self.heap.kind(j as int) == Some(t) by {
                    if j != key {
                        assert(Slot::Namespace(prev).names(t, j));
                    }
                }
            }
            i += 1;
        }
        assert(keys_and_vals@.take(i as int) =~= keys_and_vals@);
        let ghost before = *self;
        let full = self.heap.is_full();
        let r = self.alloc_namespace(table);
        if full {
            return false;
        }
        self.symbols.push(r.index());
        proof {
            let i = before.heap.next_index();
            assert(self.heap.kind(i) == Some(ObjectTag::Namespace));
            assert forall|k: int| 0 <= k < self.symbols@.len() implies self.heap.kind(
                #[trigger] self.symbols@[k] as int,
            ) == Some(ObjectTag::Namespace) by {}
            assert(self.scope_view() =~= before.scope_view().push(pairs_to_map(keys_and_vals@)))
                by {
                assert forall|k: int| 0 <= k < before.symbols@.len() implies self.frame(k)
                    == before.frame(k) by {
                    let ns = before.symbols@[k] as int;
                    assert(before.heap.kind(ns) is Some);
                    assert(ns != i);
                    assert(self.heap.at(ns) == before.heap.at(ns));
                }
            }
        }
        true
    }

    /// The type that the symbol `sym` designates.
    pub fn type_from_symbol(&self, sym: Object) -> (r: Option<RlispType>)
        requires
            self.heap.valid(sym),
            sym.spec_what_type() == RlispType::Sym,
        ensures
            r == spec_type_from_name(self.symbol_name(sym.spec_index())),
    {
        type_from_name(self.heap.symbol(sym).name.as_slice())
    }

    /// The symbol that names the type `typ`.
    pub fn name_of_type(&mut self, typ: RlispType) -> (r: Object)
        requires
            old(self).inv(),
        ensures
            final(self).inv(),
            old(self).interned(*final(self), spec_type_name(typ), r),
            final(self).heap.valid(r),
            old(self).heap.kinds_kept_by(final(self).heap),
            old(self).stepped_to(*final(self)),
            r.spec_what_type() == RlispType::Sym || r.spec_what_type() == RlispType::Error,
    {
        self.make_symbol(type_name_bytes(typ))
    }

    /// The symbol under which a handler catches the error `err`: the symbol
    /// that names its kind, or, for an error that a program made itself, the
    /// kind that the program gave it.
    pub fn error_name(&mut self, err: &RlispErrorKind) -> (r: Object)
        requires
            old(self).inv(),
            old(self).heap.slot_ok(Slot::Error(RlispError { gc_marking: 0, error: *err })),
        ensures
            final(self).inv(),
            match *err {
                RlispErrorKind::Custom { kind, info } => r == kind && *final(self) == *old(self),
                _ => old(self).interned(*final(self), spec_error_name(*err), r),
            },
            final(self).heap.valid(r),
            old(self).heap.kinds_kept_by(final(self).heap),
    {
        match err {
            RlispErrorKind::Custom { kind, .. } => {
                proof {
                    assert(Slot::Error(RlispError { gc_marking: 0, error: *err }).holds(*kind));
                }
                *kind
            },
            _ => self.make_symbol(error_name_bytes(err)),
        }
    }

    /// What the frames `scope` bind: for each, the bindings of the namespace
    /// in that slot.
    pub open spec fn frames_of(self, scope: Seq<u64>) -> Seq<Map<u64, Object>> {
        Seq::new(
            scope.len(),
            |k: int|
                match self.heap.at(scope[k] as int) {
                    Slot::Namespace(n) => n.bindings(),
                    _ => Map::empty(),
                },
        )
    }

    /// One namespace that binds what the frames `scope` bind together: every
    /// symbol that some frame binds, to what a lookup through the frames
    /// gives.
    pub fn flatten_scope(&self, scope: &Vec<u64>) -> (r: Namespace)
        requires
            self.inv(),
            forall|k: int|
                0 <= k < scope@.len() ==> self.heap.kind(#[trigger] scope@[k] as int) == Some(
                    ObjectTag::Namespace,
                ),
        ensures
            r.wf(),
            r.name is None,
            r.gc_marking == 0,
            forall|sym: u64|
                lookup_in(self.frames_of(scope@), sym) == (if #[trigger] r.bindings().contains_key(
                    sym,
                ) {
                    Some(r.bindings()[sym])
                } else {
                    None
                }),
            self.heap.slot_ok(Slot::Namespace(r)),
    {
        let ghost frames = self.frames_of(scope@);
        let mut new = Namespace::new();
        let mut k: usize = scope.len();
        proof {
            assert(frames.skip(k as int) =~= Seq::<Map<u64, Object>>::empty());
        }
        while k > 0
            invariant
                k <= scope@.len(),
                self.inv(),
                frames == self.frames_of(scope@),
                forall|j: int|
                    0 <= j < scope@.len() ==> self.heap.kind(#[trigger] scope@[j] as int) == Some(
                        ObjectTag::Namespace,
                    ),
                new.wf(),
                new.name is None,
                new.gc_marking == 0,
                self.heap.slot_ok(Slot::Namespace(new)),
                forall|sym: u64|
                    lookup_in(frames.skip(k as int), sym) == (if #[trigger] new.bindings().contains_key(
                        sym,
                    ) {
                        Some(new.bindings()[sym])
                    } else {
                        None
                    }),
            decreases k,
        {
            k -= 1;
            let table = self.heap.namespace(scope[k]);
            let ghost frame = frames[k as int];
            let ghost inner = frames.skip(k + 1);
            let ghost before = new;
            proof {
                assert(frames.skip(k as int) =~= seq![frame] + inner);
                assert(self.heap.slots@[scope@[k as int] as int] == self.heap.at(
                    scope@[k as int] as int,
                ));
                assert(self.heap.slot_ok(self.heap.slots@[scope@[k as int] as int]));
                assert(frame == table.bindings());
            }
            let mut i: usize = 0;
            while i < table.order.len()
                invariant
                    i <= table.order@.len(),
                    table.wf(),
                    frame == table.bindings(),
                    self.heap.wf(),
                    self.heap.slot_ok(Slot::Namespace(*table)),
                    new.wf(),
                    new.name is None,
                    new.gc_marking == 0,
                    self.heap.slot_ok(Slot::Namespace(new)),
                    forall|sym: u64|
                        #[trigger] new.bindings().contains_key(sym) <==> before.bindings().contains_key(
                            sym,
                        ) || exists|m: int| 0 <= m < i && table.order@[m] == sym,
                    forall|sym: u64|
                        #[trigger] new.bindings().contains_key(sym) ==> new.bindings()[sym] == (
                        if before.bindings().contains_key(sym) {
                            before.bindings()[sym]
                        } else {
                            frame[sym]
                        }),
                decreases table.order@.len() - i,
            {
                let key: u64 = table.order[i];
                assert(table.order@.contains(key));
                assert(frame.contains_key(key));
                let ghost mid = new;
                if !new.contains_key(key) {
                    match table.get(key) {
                        Some(val) => {
                            proof {
                                assert(table.table@.contains_value(val));
                                assert(Slot::Namespace(*table).holds(val));
                                assert(Slot::Namespace(*table).names(ObjectTag::Sym, key));
                            }
                            new.insert(key, val);
                            proof {
                                let now = Slot::Namespace(new);
                                assert forall|o: Object| #[trigger] now.holds(o)
                                    implies self.heap.valid(o) by {
                                    let q = choose|q: u64|
                                        new.table@.dom().contains(q) && new.table@[q] == o;
                                    if q != key {
                                        assert(mid.table@.dom().contains(q) && mid.table@[q] == o);
                                        assert(mid.table@.contains_value(o));
                                        assert(Slot::Namespace(mid).holds(o));
                                    }
                                }
                                assert forall|t: ObjectTag, j: u64| #[trigger]
                                    now.names(t, j) implies self.heap.kind(j as int) == Some(
                                    t,
                                ) by {
                                    if j != key {
                                        assert(Slot::Namespace(mid).names(t, j));
                                    }
                                }
                            }
                        },
                        None => {},
                    }
                }
                proof {
                    assert forall|sym: u64|
                        #[trigger] new.bindings().contains_key(sym)
                            <==> before.bindings().contains_key(sym) || exists|m: int|
                            0 <= m < i + 1 && table.order@[m] == sym by {
                        if sym == key {
                            assert(table.order@[i as int] == sym);
                        }
                        if mid.bindings().contains_key(sym) && !before.bindings().contains_key(
                            sym,
                        ) {
                            let m = choose|m: int| 0 <= m < i && table.order@[m] == sym;
                            assert(0 <= m < i + 1 && table.order@[m] == sym);
                        }
                    }
                }
                i += 1;
            }
            proof {
                assert forall|sym: u64|
                    lookup_in(frames.skip(k as int), sym) == (if #[trigger] new.bindings().contains_key(
                        sym,
                    ) {
                        Some(new.bindings()[sym])
                    } else {
                        None
                    }) by {
                    lemma_lookup_outer(frame, inner, sym);
                    assert(before.bindings().contains_key(sym) || !before.bindings().contains_key(
                        sym,
                    ));
                    if frame.contains_key(sym) {
                        assert(table.order@.contains(sym));
                        let m = choose|m: int| 0 <= m < table.order@.len() && table.order@[m] == sym;
                        assert(new.bindings().contains_key(sym));
                    }
                    if new.bindings().contains_key(sym) && !before.bindings().contains_key(sym) {
                        let m = choose|m: int| 0 <= m < table.order@.len() && table.order@[m] == sym;
                        assert(table.order@.contains(sym));
                    }
                }
            }
        }
        proof {
            assert(frames.skip(0) =~= frames);
        }
        new
    }
}

} // verus!
