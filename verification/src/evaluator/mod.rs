//! The evaluator: the E of the read-eval-print loop.
//!
//! A value that is no symbol and no list evaluates to itself, a symbol to
//! what the scope binds it to, and a list to the call of its head on the rest
//! of it. While a value is being evaluated it stands on the evaluation
//! stack, and so does everything that the evaluator holds on to across an
//! evaluation: a collection that runs in between frees none of it.

use crate::lisp::allocate::{Heap, Slot};
use crate::lisp::Lisp;
use crate::result::ErrorKind;
use crate::symbols_table::bytes_eq;
use crate::types::function::{ArgType, FunctionBody};
use crate::types::rlisperror::RlispErrorKind;
use crate::types::{FloatOps, Object, ObjectTag, RlispError, RlispType};
use vstd::prelude::*;
use vstd::string::StringSliceAdditionalSpecFns;

pub mod semantics;

verus! {

/// The largest count that an integer value can hold.
pub const MAX_COUNT: usize = 0x7FFF_FFFF;

/// A count as an integer value; a count beyond the largest integer as the
/// largest integer.
pub fn count_object(n: usize) -> (r: Object)
    ensures
        r == spec_count_object(n),
        r.spec_what_type() == RlispType::Integer,
        r.spec_int() == (if n <= MAX_COUNT {
            n as int
        } else {
            MAX_COUNT as int
        }),
{
    if n <= MAX_COUNT {
        Object::from_int(n as i32)
    } else {
        Object::from_int(i32::MAX)
    }
}

impl Lisp {
    /// Puts the error that wraps the host failure `kind` on the heap.
    pub fn host_error(&mut self, kind: ErrorKind) -> (r: Object)
        requires
            old(self).inv(),
        ensures
            old(self).stepped_to(*final(self)),
            final(self).heap.valid(r),
            r.spec_what_type() == RlispType::Error,
            old(self).allocated(
                *final(self),
                Slot::Error(RlispError { gc_marking: 0, error: RlispErrorKind::RustError(kind) }),
                r,
            ),
    {
        self.alloc_host_error(kind)
    }

    /// Puts on the heap the error that says that a value of the type `wanted`
    /// was expected and one of the type `found` came. The two types are
    /// given by the symbols that name them.
    pub fn wrong_type_error(&mut self, wanted: RlispType, found: RlispType) -> (r: Object)
        requires
            old(self).inv(),
        ensures
            old(self).stepped_to(*final(self)),
            final(self).heap.valid(r),
            r.spec_what_type() == RlispType::Error,
            old(self).wrong_type_raised(*final(self), wanted, found, r),
    {
        let ghost s0 = *self;
        let w = self.name_of_type(wanted);
        let ghost s1 = *self;
        let f = self.name_of_type(found);
        let ghost s2 = *self;
        proof {
            s1.heap.lemma_valid_kept(s2.heap, w);
            s0.lemma_stepped_twice(s1, s2);
        }
        let r = self.alloc_error(RlispError::wrong_type(w, f));
        proof {
            s0.lemma_stepped_twice(s2, *self);
            assert(s0.interned(s1, crate::symbols_table::spec_type_name(wanted), w)
                && s1.interned(s2, crate::symbols_table::spec_type_name(found), f));
        }
        r
    }

    /// Puts on the heap the error that says that `found` arguments came
    /// where at least `min` and, unless `max` is `None`, at most `max` were
    /// expected. The error holds the three as integers, and `nil` for a
    /// `max` of `None`.
    pub fn bad_args_count_error(&mut self, found: usize, min: usize, max: Option<usize>) -> (r:
        Object)
        requires
            old(self).inv(),
        ensures
            old(self).stepped_to(*final(self)),
            final(self).heap.valid(r),
            r.spec_what_type() == RlispType::Error,
            old(self).allocated(
                *final(self),
                Slot::Error(
                    RlispError {
                        gc_marking: 0,
                        error: RlispErrorKind::BadArgsCount {
                            min: spec_count_object(min),
                            max: match max {
                                Some(m) => spec_count_object(m),
                                None => Object::spec_nil(),
                            },
                            found: spec_count_object(found),
                        },
                    },
                ),
                r,
            ),
    {
        let max_obj = match max {
            Some(m) => count_object(m),
            None => Object::nil(),
        };
        self.alloc_error(RlispError::bad_args_count(count_object(found), count_object(min), max_obj))
    }
}

/// A count as an integer value.
pub open spec fn spec_count_object(n: usize) -> Object {
    Object::spec_from_int(
        if n <= MAX_COUNT {
            n as int
        } else {
            MAX_COUNT as int
        },
    )
}

/// The least and the greatest number of arguments that a parameter list
/// takes whose names are `names`, read on in the mode `mode`; the greatest is
/// `None` where there is none. `&optional` and `&rest` switch the mode. Any
/// other name is a parameter: a mandatory one counts for both numbers, an
/// optional one for the greatest, and one after `&rest` lifts the bound.
pub open spec fn range_of(names: Seq<Seq<u8>>, mode: ArgType) -> (nat, Option<nat>)
    decreases names.len(),
{
    if names.len() == 0 {
        (0, Some(0))
    } else if names[0] == "&optional".spec_bytes() {
        range_of(names.drop_first(), ArgType::Optional)
    } else if names[0] == "&rest".spec_bytes() {
        range_of(names.drop_first(), ArgType::Rest)
    } else {
        let (min, max) = range_of(names.drop_first(), mode);
        match mode {
            ArgType::Mandatory => (
                min + 1,
                match max {
                    Some(m) => Some(m + 1),
                    None => None,
                },
            ),
            ArgType::Optional => (
                min,
                match max {
                    Some(m) => Some(m + 1),
                    None => None,
                },
            ),
            ArgType::Rest => (min, None),
        }
    }
}

/// True iff `n` arguments are within the range.
pub open spec fn in_range(range: (nat, Option<nat>), n: nat) -> bool {
    range.0 <= n && match range.1 {
        Some(max) => n <= max,
        None => true,
    }
}

impl Heap {
    /// True iff every one of `elems` is a symbol.
    pub open spec fn all_symbols(self, elems: Seq<Object>) -> bool {
        forall|i: int|
            0 <= i < elems.len() ==> (#[trigger] elems[i]).spec_what_type() == RlispType::Sym
    }

    /// The names of the symbols `elems`.
    pub open spec fn names_of(self, elems: Seq<Object>) -> Seq<Seq<u8>> {
        Seq::new(
            elems.len(),
            |i: int|
                match self.at(elems[i].spec_index()) {
                    Slot::Sym(s) => s.name@,
                    _ => Seq::empty(),
                },
        )
    }

    /// The range of argument counts that the parameter list `arglist` takes:
    /// `range_of` of its names. A list that does not end in `nil` gives
    /// `ImproperList`, and one that holds something that is no symbol gives
    /// `RequiresArglist`.
    pub open spec fn spec_acceptable_range(self, arglist: Object) -> Result<
        (nat, Option<nat>),
        ErrorKind,
    > {
        let (elems, end) = self.list_view(arglist);
        if end != Object::spec_nil() {
            Err(ErrorKind::ImproperList)
        } else if !self.all_symbols(elems) {
            Err(ErrorKind::RequiresArglist)
        } else {
            Ok(range_of(self.names_of(elems), ArgType::Mandatory))
        }
    }

    /// The range of argument counts that the parameter list `arglist` takes.
    pub fn acceptable_range(&self, arglist: Object) -> (r: Result<(usize, Option<usize>), ErrorKind>)
        requires
            self.wf(),
            self.valid(arglist),
        ensures
            match (r, self.spec_acceptable_range(arglist)) {
                (Ok((min, max)), Ok((smin, smax))) => min == smin && match (max, smax) {
                    (Some(a), Some(b)) => a == b,
                    (None, None) => true,
                    _ => false,
                },
                (Err(e), Err(f)) => e == f,
                _ => false,
            },
    {
        let (elems, end) = self.list_to_vec(arglist);
        if !end.nilp() {
            return Err(ErrorKind::ImproperList);
        }
        let ghost names = self.names_of(elems@);
        let n: usize = elems.len();
        let mut min: usize = 0;
        let mut max: Option<usize> = Some(0);
        let mut k: usize = 0;
        while k < n
            invariant
                k <= n,
                n == elems@.len(),
                (elems@, end) == self.list_view(arglist),
                end == Object::spec_nil(),
                forall|j: int| 0 <= j < k ==> (#[trigger] elems@[j]).spec_what_type() == RlispType::Sym,
            decreases n - k,
        {
            if !elems[k].symbolp() {
                proof {
                    assert(elems@[k as int].spec_what_type() != RlispType::Sym);
                    assert(!self.all_symbols(elems@));
                }
                return Err(ErrorKind::RequiresArglist);
            }
            k += 1;
        }
        let mut mode = ArgType::Mandatory;
        let mut j: usize = 0;
        let ghost total = range_of(names, ArgType::Mandatory);
        proof {
            assert(names.skip(0) =~= names);
        }
        while j < n
            invariant
                j <= n,
                n == elems@.len(),
                self.wf(),
                names == self.names_of(elems@),
                forall|q: int| 0 <= q < elems@.len() ==> self.valid(#[trigger] elems@[q]),
                self.all_symbols(elems@),
                min <= j,
                max matches Some(m) ==> m <= j,
                total == range_of(names, ArgType::Mandatory),
                ({
                    let rest = range_of(names.skip(j as int), mode);
                    &&& total.0 == min + rest.0
                    &&& match (max, rest.1) {
                        (Some(a), Some(b)) => total.1 == Some((a + b) as nat),
                        _ => total.1 is None,
                    }
                }),
            decreases n - j,
        {
            let sym = elems[j];
            let name = &self.symbol(sym).name;
            proof {
                assert(names.skip(j as int)[0] == names[j as int]);
                assert(names.skip(j as int).drop_first() =~= names.skip(j + 1));
                assert(names[j as int] == name@);
            }
            if bytes_eq(name.as_slice(), "&optional".as_bytes()) {
                mode = ArgType::Optional;
            } else if bytes_eq(name.as_slice(), "&rest".as_bytes()) {
                mode = ArgType::Rest;
            } else {
                match mode {
                    ArgType::Mandatory => {
                        min = min + 1;
                        max = match max {
                            Some(m) => Some(m + 1),
                            None => None,
                        };
                    },
                    ArgType::Optional => {
                        max = match max {
                            Some(m) => Some(m + 1),
                            None => None,
                        };
                    },
                    ArgType::Rest => {
                        max = None;
                    },
                }
            }
            j += 1;
        }
        proof {
            assert(names.skip(n as int) =~= Seq::<Seq<u8>>::empty());
        }
        Ok((min, max))
    }

    /// True iff `n_args` arguments are within the range that the parameter
    /// list `arglist` takes.
    pub fn arglist_compat(&self, arglist: Object, n_args: usize) -> (r: Result<bool, ErrorKind>)
        requires
            self.wf(),
            self.valid(arglist),
        ensures
            match (r, self.spec_acceptable_range(arglist)) {
                (Ok(b), Ok(range)) => b == in_range(range, n_args as nat),
                (Err(e), Err(f)) => e == f,
                _ => false,
            },
    {
        match self.acceptable_range(arglist) {
            Ok((min, max)) => {
                match max {
                    Some(ma) => Ok(n_args >= min && n_args <= ma),
                    None => Ok(n_args >= min),
                }
            },
            Err(e) => Err(e),
        }
    }
}

/// What a parameter is bound to: a value, or the list of some values.
pub ghost enum Bound {
    Value(Object),
    Rest(Seq<Object>),
}

/// What the parameters `syms`, with the names `names`, are bound to when the
/// values `args` are given, read on in the mode `mode`; `None` where a
/// mandatory parameter finds no value left. `&optional` and `&rest` switch
/// the mode. A mandatory parameter takes the next value. An optional one takes
/// the next value too, or `nil` where none is left. A parameter after `&rest`
/// takes the list of all values that are left, which leaves none.
pub open spec fn spec_bind(
    names: Seq<Seq<u8>>,
    syms: Seq<Object>,
    args: Seq<Object>,
    mode: ArgType,
) -> Option<Seq<(u64, Bound)>>
    decreases names.len(),
{
    if names.len() == 0 || syms.len() == 0 {
        Some(Seq::empty())
    } else if names[0] == "&optional".spec_bytes() {
        spec_bind(names.drop_first(), syms.drop_first(), args, ArgType::Optional)
    } else if names[0] == "&rest".spec_bytes() {
        spec_bind(names.drop_first(), syms.drop_first(), args, ArgType::Rest)
    } else {
        let sym = syms[0].spec_index() as u64;
        match mode {
            ArgType::Mandatory => if args.len() == 0 {
                None
            } else {
                bound_after(
                    (sym, Bound::Value(args[0])),
                    spec_bind(names.drop_first(), syms.drop_first(), args.drop_first(), mode),
                )
            },
            ArgType::Optional => if args.len() == 0 {
                bound_after(
                    (sym, Bound::Value(Object::spec_nil())),
                    spec_bind(names.drop_first(), syms.drop_first(), args, mode),
                )
            } else {
                bound_after(
                    (sym, Bound::Value(args[0])),
                    spec_bind(names.drop_first(), syms.drop_first(), args.drop_first(), mode),
                )
            },
            ArgType::Rest => bound_after(
                (sym, Bound::Rest(args)),
                spec_bind(names.drop_first(), syms.drop_first(), Seq::empty(), mode),
            ),
        }
    }
}

/// `first`, and then `rest`, where there is a `rest`.
pub open spec fn bound_after(first: (u64, Bound), rest: Option<Seq<(u64, Bound)>>) -> Option<
    Seq<(u64, Bound)>,
> {
    match rest {
        Some(r) => Some(seq![first] + r),
        None => None,
    }
}

/// True iff none of `args` is an error.
pub open spec fn no_errors(args: Seq<Object>) -> bool {
    forall|i: int| 0 <= i < args.len() ==> (#[trigger] args[i]).spec_what_type() != RlispType::Error
}

/// True iff the pairs `pairs` of symbol and value bind what `bound` says:
/// each symbol to the value, or to a proper list of the values.
pub open spec fn realizes(heap: Heap, pairs: Seq<(u64, Object)>, bound: Seq<(u64, Bound)>) -> bool {
    &&& pairs.len() == bound.len()
    &&& forall|i: int|
        0 <= i < pairs.len() ==> (#[trigger] pairs[i]).0 == bound[i].0 && match bound[i].1 {
            Bound::Value(v) => pairs[i].1 == v,
            Bound::Rest(s) => heap.is_list(pairs[i].1, s),
        }
}

/// Pairs that bind what they should keep doing so while the slots in use
/// keep what they hold.
pub proof fn lemma_realizes_kept(
    heap: Heap,
    later: Heap,
    pairs: Seq<(u64, Object)>,
    bound: Seq<(u64, Bound)>,
)
    requires
        heap.extended_by(later),
        realizes(heap, pairs, bound),
    ensures
        realizes(later, pairs, bound),
{
    assert forall|i: int| 0 <= i < pairs.len() implies (#[trigger] pairs[i]).0 == bound[i].0
        && match bound[i].1 {
        Bound::Value(v) => pairs[i].1 == v,
        Bound::Rest(s) => later.is_list(pairs[i].1, s),
    } by {
        match bound[i].1 {
            Bound::Value(v) => {},
            Bound::Rest(s) => {
                heap.lemma_chain_kept(later, pairs[i].1, s, Object::spec_nil());
            },
        }
    }
}

/// One more pair at the end of what is bound so far is one more at the front
/// of what is still to be bound.
pub proof fn lemma_bound_pushed(
    so_far: Seq<(u64, Bound)>,
    pair: (u64, Bound),
    rest: Option<Seq<(u64, Bound)>>,
)
    ensures
        match (bound_after(pair, rest), rest) {
            (Some(with), Some(r)) => so_far + with == so_far.push(pair) + r,
            (None, None) => true,
            _ => false,
        },
{
    match rest {
        Some(r) => {
            assert(so_far + (seq![pair] + r) =~= so_far.push(pair) + r);
        },
        None => {},
    }
}

/// A copy of `v`.
pub fn copy_indices(v: &Vec<u64>) -> (r: Vec<u64>)
    ensures
        r@ == v@,
{
    let mut out: Vec<u64> = Vec::new();
    let mut i: usize = 0;
    while i < v.len()
        invariant
            i <= v@.len(),
            out@ == v@.take(i as int),
        decreases v@.len() - i,
    {
        out.push(v[i]);
        proof {
            assert(v@.take(i + 1) =~= v@.take(i as int).push(v@[i as int]));
        }
        i += 1;
    }
    proof {
        assert(v@.take(v@.len() as int) =~= v@);
    }
    out
}

impl Lisp {
    /// True iff the evaluation stack ends in a function and `n` arguments
    /// above it.
    pub open spec fn args_ready(self, n: int) -> bool {
        let len = self.stack@.len();
        &&& 0 <= n
        &&& n + 1 <= len
        &&& self.stack@[len - 1 - n].spec_what_type() == RlispType::Function
    }

    /// True iff the evaluation stack ends in a call: a function, its
    /// arguments above it, and on top the number of the arguments.
    pub open spec fn call_ready(self) -> bool {
        let len = self.stack@.len();
        &&& len >= 2
        &&& self.stack@.last().spec_what_type() == RlispType::Integer
        &&& self.call_args() >= 0
        &&& self.call_args() + 2 <= len
        &&& self.stack@[len - 2 - self.call_args()].spec_what_type() == RlispType::Function
    }

    /// The number of arguments of the call that the stack ends in.
    pub open spec fn call_args(self) -> int {
        self.stack@.last().spec_int()
    }

    /// The function of the call that the stack ends in.
    pub open spec fn call_function(self) -> crate::types::RlispFunc {
        let func = self.stack@[self.stack@.len() - 2 - self.call_args()];
        match self.heap.at(func.spec_index()) {
            Slot::Function(f) => f,
            _ => arbitrary(),
        }
    }

    /// The error with which the call that the stack ends in is refused
    /// before anything of the function runs; `None` where it is not refused.
    /// A function with a parameter list is refused where the list is no
    /// proper list of symbols, and where the number of arguments is not in
    /// the range that the list takes: the error then holds the number, the
    /// least number and the greatest, or `nil` where there is no greatest. A
    /// function without a parameter list is refused unless it is native.
    pub open spec fn spec_call_refusal(self) -> Option<RlispErrorKind> {
        let n = self.call_args() as usize;
        let f = self.call_function();
        match f.arglist {
            Some(al) => if al.spec_what_type() == RlispType::Cons {
                match self.heap.spec_acceptable_range(al) {
                    Err(e) => Some(RlispErrorKind::RustError(e)),
                    Ok(range) => if in_range(range, n as nat) {
                        None
                    } else {
                        Some(
                            RlispErrorKind::BadArgsCount {
                                min: spec_count_object(range.0 as usize),
                                max: match range.1 {
                                    Some(m) => spec_count_object(m as usize),
                                    None => Object::spec_nil(),
                                },
                                found: spec_count_object(n),
                            },
                        )
                    },
                }
            } else if n == 0 {
                None
            } else {
                Some(
                    RlispErrorKind::BadArgsCount {
                        min: spec_count_object(0),
                        max: spec_count_object(0),
                        found: spec_count_object(n),
                    },
                )
            },
            None => if f.body is RustFn {
                None
            } else {
                Some(RlispErrorKind::RustError(ErrorKind::RequiresArglist))
            },
        }
    }

    /// True iff `r` is an error of the kind `kind`, or the full-heap error.
    pub open spec fn is_error_of(self, r: Object, kind: RlispErrorKind) -> bool {
        r == Heap::spec_out_of_memory() || (r.spec_what_type() == RlispType::Error
            && match self.heap.at(r.spec_index()) {
            Slot::Error(e) => e.error == kind,
            _ => false,
        })
    }

    /// What a call keeps, and what holds of the value `r` that it returns:
    /// the invariant, the scope and the settings; of the stack, all but the
    /// topmost `taken` entries; and `r` can be used.
    pub open spec fn called_to(self, later: Lisp, taken: int, r: Object) -> bool {
        &&& later.inv()
        &&& later.heap.valid(r)
        &&& later.stack@ == self.stack@.take(self.stack@.len() - taken)
        &&& later.symbols@ == self.symbols@
        &&& later.max_depth == self.max_depth
        &&& later.macro_chars == self.macro_chars
    }

    /// The topmost `n` values of the stack, the top first.
    pub open spec fn top_of_stack(self, n: int) -> Seq<Object> {
        Seq::new(n as nat, |k: int| self.stack@[self.stack@.len() - 1 - k])
    }

    /// Binds the parameters of `arglist` to the topmost `n_args` values of
    /// the stack, the top first, in a new innermost frame, and takes the
    /// values off the stack. What the parameters are bound to is what
    /// `spec_bind` says. Returns `nil`, or an error where nothing was bound:
    /// a parameter list that is no proper list of symbols, a mandatory
    /// parameter without a value, a value that is an error itself (it is the
    /// error returned), or a full heap. The stack loses the `n_args` values
    /// in every case.
    #[verifier::rlimit(80)]
    pub fn get_args_for_lisp_func(&mut self, arglist: Object, n_args: usize) -> (r: Object)
        requires
            old(self).inv(),
            old(self).heap.valid(arglist),
            n_args <= old(self).stack@.len(),
        ensures
            final(self).inv(),
            old(self).heap.kinds_kept_by(final(self).heap),
            final(self).heap.valid(r),
            final(self).stack@ == old(self).stack@.take(old(self).stack@.len() - n_args),
            final(self).max_depth == old(self).max_depth,
            final(self).macro_chars == old(self).macro_chars,
            r.spec_what_type() == RlispType::Error ==> final(self).symbols@ == old(self).symbols@,
            r.spec_what_type() != RlispType::Error ==> {
                &&& r == Object::spec_nil()
                &&& final(self).symbols@.len() == old(self).symbols@.len() + 1
                &&& final(self).symbols@.drop_last() == old(self).symbols@
            },
            old(self).args_bound(*final(self), arglist, n_args as nat, r),
            ({
                let (params, end) = old(self).heap.list_view(arglist);
                let given = old(self).top_of_stack(n_args as int);
                &&& end != Object::spec_nil() || !old(self).heap.all_symbols(params)
                    ==> r.spec_what_type() == RlispType::Error
                &&& end == Object::spec_nil() && old(self).heap.all_symbols(params) && no_errors(
                    given,
                ) && old(self).heap.room() > n_args ==> match spec_bind(
                    old(self).heap.names_of(params),
                    params,
                    given,
                    ArgType::Mandatory,
                ) {
                    Some(bound) => r == Object::spec_nil() && exists|pairs: Seq<(u64, Object)>|
                        #[trigger] realizes(final(self).heap, pairs, bound) && final(self).frame(
                            final(self).symbols@.len() - 1,
                        ) == crate::symbols_table::pairs_to_map(pairs),
                    None => r.spec_what_type() == RlispType::Error,
                }
            }),
    {
        let base: usize = self.stack.len() - n_args;
        let (params, end) = self.heap.list_to_vec(arglist);
        if !end.nilp() {
            self.truncate_stack(base);
            return self.host_error(ErrorKind::ImproperList);
        }
        let ghost names = self.heap.names_of(params@);
        let ghost given = self.top_of_stack(n_args as int);
        let ghost whole = spec_bind(names, params@, given, ArgType::Mandatory);
        let ghost mut bound: Seq<(u64, Bound)> = Seq::empty();
        let mut mode = ArgType::Mandatory;
        let mut consumed: usize = 0;
        let mut args: Vec<(u64, Object)> = Vec::new();
        let mut i: usize = 0;
        proof {
            assert(names.skip(0) =~= names);
            assert(params@.skip(0) =~= params@);
            assert(given.skip(0) =~= given);
            assert(bound + whole.unwrap() =~= whole.unwrap());
        }
        while i < params.len()
            invariant
                i <= params@.len(),
                old(self).inv(),
                self.inv(),
                old(self).heap.extended_by(self.heap),
                old(self).heap.kinds_kept_by(self.heap),
                self.symbols@ == old(self).symbols@,
                self.max_depth == old(self).max_depth,
                self.macro_chars == old(self).macro_chars,
                n_args <= old(self).stack@.len(),
                base == old(self).stack@.len() - n_args,
                consumed <= n_args,
                self.stack@ == old(self).stack@.take(old(self).stack@.len() - consumed),
                (params@, end) == old(self).heap.list_view(arglist),
                end == Object::spec_nil(),
                names == old(self).heap.names_of(params@),
                given == old(self).top_of_stack(n_args as int),
                whole == spec_bind(names, params@, given, ArgType::Mandatory),
                forall|q: int| 0 <= q < params@.len() ==> old(self).heap.valid(#[trigger] params@[q]),
                forall|q: int|
                    0 <= q < i ==> (#[trigger] params@[q]).spec_what_type() == RlispType::Sym,
                forall|q: int|
                    0 <= q < args@.len() ==> self.heap.kind((#[trigger] args@[q]).0 as int)
                        == Some(ObjectTag::Sym) && self.heap.valid(args@[q].1),
                realizes(self.heap, args@, bound),
                self.heap.room() <= old(self).heap.room(),
                no_errors(given.take(consumed as int)),
                no_errors(given) && old(self).heap.room() > n_args ==> self.heap.room()
                    > n_args - consumed,
                match spec_bind(
                    names.skip(i as int),
                    params@.skip(i as int),
                    given.skip(consumed as int),
                    mode,
                ) {
                    Some(rest) => whole == Some(bound + rest),
                    None => whole is None,
                },
            decreases params@.len() - i,
        {
            let p = params[i];
            let ghost before = *self;
            let ghost bound_before = bound;
            let ghost rest_names = names.skip(i as int);
            let ghost rest_syms = params@.skip(i as int);
            let ghost rest_given = given.skip(consumed as int);
            proof {
                old(self).heap.lemma_valid_kept(self.heap, p);
                assert(rest_names[0] == names[i as int]);
                assert(rest_syms[0] == p);
                assert(rest_names.drop_first() =~= names.skip(i + 1));
                assert(rest_syms.drop_first() =~= params@.skip(i + 1));
                if consumed < n_args {
                    assert(rest_given[0] == given[consumed as int]);
                    assert(rest_given.drop_first() =~= given.skip(consumed + 1));
                    assert(given[consumed as int] == self.stack@[self.stack@.len() - 1]);
                } else {
                    assert(rest_given =~= Seq::<Object>::empty());
                }
            }
            if !p.symbolp() {
                self.truncate_stack(base);
                proof {
                    assert(self.stack@ =~= old(self).stack@.take(base as int));
                    assert(!old(self).heap.all_symbols(params@));
                }
                let e = self.wrong_type_error(RlispType::Sym, p.what_type());
                proof {
                    assert forall|i: int| #[trigger] old(self).heap.kind(i) is Some
                        implies self.heap.kind(i) == old(self).heap.kind(i) by {
                        assert(before.heap.kind(i) is Some);
                    }
                }
                return e;
            }
            proof {
                self.heap.lemma_valid_reference(p);
                old(self).heap.lemma_valid_reference(p);
                assert(!(old(self).heap.at(p.spec_index()) is Free));
                assert(self.heap.at(p.spec_index()) == old(self).heap.at(p.spec_index()));
            }
            let is_optional = bytes_eq(self.heap.symbol(p).name.as_slice(), "&optional".as_bytes());
            let is_rest = bytes_eq(self.heap.symbol(p).name.as_slice(), "&rest".as_bytes());
            if is_optional {
                mode = ArgType::Optional;
            } else if is_rest {
                mode = ArgType::Rest;
            } else {
                let take_one = match mode {
                    ArgType::Mandatory => true,
                    ArgType::Optional => consumed < n_args,
                    ArgType::Rest => false,
                };
                if take_one {
                    if consumed < n_args {
                        let arg = self.pop();
                        consumed += 1;
                        proof {
                            assert(self.stack@ =~= old(self).stack@.take(
                                old(self).stack@.len() - consumed,
                            ));
                        }
                        if arg.errorp() {
                            self.truncate_stack(base);
                            proof {
                                assert(self.stack@ =~= old(self).stack@.take(base as int));
                                assert(given[consumed - 1] == arg);
                            }
                            return arg;
                        }
                        args.push((p.index(), arg));
                        proof {
                            let pair = (p.spec_index() as u64, Bound::Value(arg));
                            bound = bound_before.push(pair);
                            lemma_bound_pushed(bound_before, pair, spec_bind(
                                names.skip(i + 1),
                                params@.skip(i + 1),
                                given.skip(consumed as int),
                                mode,
                            ));
                            assert(given.take(consumed as int) =~= given.take(consumed - 1).push(
                                arg,
                            ));
                        }
                    } else {
                        self.truncate_stack(base);
                        proof {
                            assert(self.stack@ =~= old(self).stack@.take(base as int));
                        }
                        let e = self.host_error(ErrorKind::OutOfArgs);
                        proof {
                            assert forall|i: int| #[trigger] old(self).heap.kind(i) is Some
                                implies self.heap.kind(i) == old(self).heap.kind(i) by {
                                assert(before.heap.kind(i) is Some);
                            }
                        }
                        return e;
                    }
                } else {
                    match mode {
                        ArgType::Rest => {
                            let mut rest: Vec<Object> = Vec::new();
                            let ghost start = consumed;
                            while consumed < n_args
                                invariant
                                    self.inv(),
                                    *self == (Lisp { stack: self.stack, ..before }),
                                    old(self).heap.kinds_kept_by(before.heap),
                                    before.symbols@ == old(self).symbols@,
                                    before.max_depth == old(self).max_depth,
                                    before.macro_chars == old(self).macro_chars,
                                    n_args <= old(self).stack@.len(),
                                    base == old(self).stack@.len() - n_args,
                                    start <= consumed <= n_args,
                                    given == old(self).top_of_stack(n_args as int),
                                    self.stack@ == old(self).stack@.take(
                                        old(self).stack@.len() - consumed,
                                    ),
                                    forall|q: int|
                                        0 <= q < rest@.len() ==> self.heap.valid(#[trigger] rest@[q]),
                                    rest@ == given.subrange(start as int, consumed as int),
                                    no_errors(given.take(consumed as int)),
                                    no_errors(given) && old(self).heap.room() > n_args
                                        ==> before.heap.room() > n_args - start,
                                    (params@, end) == old(self).heap.list_view(arglist),
                                    end == Object::spec_nil(),
                                    forall|q: int|
                                        0 <= q <= i ==> (#[trigger] params@[q]).spec_what_type()
                                            == RlispType::Sym,
                                decreases n_args - consumed,
                            {
                                proof {
                                    assert(given[consumed as int] == self.stack@[self.stack@.len()
                                        - 1]);
                                }
                                let arg = self.pop();
                                consumed += 1;
                                proof {
                                    assert(self.stack@ =~= old(self).stack@.take(
                                        old(self).stack@.len() - consumed,
                                    ));
                                }
                                if arg.errorp() {
                                    self.truncate_stack(base);
                                    proof {
                                        assert(self.stack@ =~= old(self).stack@.take(base as int));
                                        assert(given[consumed - 1] == arg);
                                    }
                                    return arg;
                                }
                                rest.push(arg);
                                proof {
                                    assert(rest@ =~= given.subrange(
                                        start as int,
                                        consumed as int,
                                    ));
                                    assert(given.take(consumed as int) =~= given.take(
                                        consumed - 1,
                                    ).push(arg));
                                }
                            }
                            let ghost mid = *self;
                            let ghost rest_seq = rest@;
                            let list = self.list_from_vec(rest);
                            proof {
                                assert(rest_seq =~= given.skip(start as int));
                                mid.heap.lemma_extended_kinds(self.heap);
                                assert forall|i: int| #[trigger] old(self).heap.kind(i) is Some
                                    implies self.heap.kind(i) == old(self).heap.kind(i) by {
                                    assert(before.heap.kind(i) is Some);
                                }
                                assert forall|i: int| !(#[trigger] old(self).heap.at(i) is Free)
                                    implies self.heap.at(i) == old(self).heap.at(i) by {
                                    assert(mid.heap.at(i) == old(self).heap.at(i));
                                }
                                assert forall|q: int| 0 <= q < args@.len() implies self.heap.kind(
                                    (#[trigger] args@[q]).0 as int,
                                ) == Some(ObjectTag::Sym) && self.heap.valid(args@[q].1) by {
                                    assert(mid.heap.kind(args@[q].0 as int) is Some);
                                    mid.heap.lemma_valid_kept(self.heap, args@[q].1);
                                }
                                mid.heap.lemma_valid_kept(self.heap, p);
                                self.heap.lemma_valid_reference(p);
                                lemma_realizes_kept(mid.heap, self.heap, args@, bound);
                            }
                            if list.errorp() {
                                self.truncate_stack(base);
                                proof {
                                    assert(self.stack@ =~= old(self).stack@.take(base as int));
                                    Object::lemma_reference_type(ObjectTag::Error, 0);
                                    assert(rest_seq.len() == n_args - start);
                                    Object::lemma_constants();
                                    if mid.heap.room() >= rest_seq.len() {
                                        if rest_seq.len() == 0 {
                                            assert(list == Object::spec_nil());
                                        } else {
                                            assert(list.spec_what_type() == RlispType::Cons);
                                        }
                                    }
                                }
                                return list;
                            }
                            args.push((p.index(), list));
                            proof {
                                let pair = (p.spec_index() as u64, Bound::Rest(rest_seq));
                                bound = bound_before.push(pair);
                                assert(given.skip(n_args as int) =~= Seq::<Object>::empty());
                                lemma_bound_pushed(bound_before, pair, spec_bind(
                                    names.skip(i + 1),
                                    params@.skip(i + 1),
                                    Seq::empty(),
                                    mode,
                                ));
                                if mid.heap.room() < rest_seq.len() {
                                    assert(list == Heap::spec_out_of_memory());
                                    Object::lemma_reference_type(ObjectTag::Error, 0);
                                }
                            }
                        },
                        _ => {
                            args.push((p.index(), Object::nil()));
                            proof {
                                let pair = (p.spec_index() as u64, Bound::Value(Object::spec_nil()));
                                bound = bound_before.push(pair);
                                lemma_bound_pushed(bound_before, pair, spec_bind(
                                    names.skip(i + 1),
                                    params@.skip(i + 1),
                                    given.skip(consumed as int),
                                    mode,
                                ));
                            }
                        },
                    }
                }
            }
            i += 1;
        }
        self.truncate_stack(base);
        proof {
            assert(self.stack@ =~= old(self).stack@.take(base as int));
            assert(names.skip(params@.len() as int) =~= Seq::<Seq<u8>>::empty());
            assert(bound + Seq::<(u64, Bound)>::empty() =~= bound);
            assert(old(self).heap.all_symbols(params@));
        }
        let ghost mid = *self;
        let ok = self.new_scope(&args);
        proof {
            assert forall|i: int| #[trigger] old(self).heap.kind(i) is Some implies self.heap.kind(
                i,
            ) == old(self).heap.kind(i) by {
                assert(mid.heap.kind(i) is Some);
            }
        }
        if !ok {
            proof {
                Object::lemma_reference_type(ObjectTag::Error, 0);
                assert(self.heap.slots@[0] == self.heap.at(0));
            }
            return Heap::out_of_memory();
        }
        proof {
            assert(self.symbols@.drop_last() =~= old(self).symbols@);
            assert(mid.heap.extended_by(self.heap));
            lemma_realizes_kept(mid.heap, self.heap, args@, bound);
            let top = self.symbols@.len() - 1;
            assert(self.scope_view()[top] == self.frame(top));
            assert(self.scope_view()[top] == crate::symbols_table::pairs_to_map(args@));
        }
        Object::nil()
    }

    /// The value of `input`, with evaluation nested at most as deep as the
    /// runtime allows.
    pub fn evaluate<H: FloatOps>(&mut self, host: &H, input: Object) -> (r: Object)
        requires
            old(self).inv(),
            old(self).heap.valid(input),
        ensures
            old(self).evaluated_to(*final(self), r),
            old(self).max_depth > 0 && !input.evaluates() ==> r == input,
            old(self).max_depth > 0 && input.spec_what_type() == RlispType::Sym ==> match old(
                self,
            ).spec_symbol_value(input) {
                Some(v) => r == v,
                None => final(self).is_error_of(r, RlispErrorKind::UnboundSymbol { sym: input }),
            },
            old(self).max_depth == 0 ==> r.spec_what_type() == RlispType::Error,
            old(self).max_depth > 1 ==> match old(self).spec_unbound_head(input) {
                Some(head) => final(self).is_error_of(
                    r,
                    RlispErrorKind::UnboundSymbol { sym: head },
                ),
                None => true,
            },
            old(self).evals(input, old(self).max_depth as nat, *final(self), r),
    {
        let fuel: usize = self.max_depth;
        self.evaluate_within(host, input, fuel)
    }

    /// What a symbol evaluates to, where it evaluates to a value that was
    /// there before: `nil` and `t` to their constants, a keyword to itself,
    /// and any other symbol to what the scope binds it to. `None` for a
    /// symbol that is unbound.
    pub open spec fn spec_symbol_value(self, sym: Object) -> Option<Object> {
        let name = self.symbol_name(sym.spec_index());
        if name == "nil".spec_bytes() {
            Some(Object::spec_nil())
        } else if name == "t".spec_bytes() {
            Some(Object::spec_t())
        } else if crate::symbols_table::is_keyword(name) {
            Some(sym)
        } else {
            crate::symbols_table::lookup_in(self.scope_view(), sym.spec_index() as u64)
        }
    }

    /// The head of the call `input`, where `input` is a call whose head is a
    /// symbol without a value: the value of such a call is the error that
    /// says that the symbol is unbound, and nothing of its arguments is
    /// evaluated.
    pub open spec fn spec_unbound_head(self, input: Object) -> Option<Object> {
        match self.heap.spec_cell(input) {
            Some(cell) => if cell.car.spec_what_type() == RlispType::Sym
                && self.spec_symbol_value(cell.car) is None {
                Some(cell.car)
            } else {
                None
            },
            None => None,
        }
    }

    /// The value of `input`, with evaluation nested at most `fuel` deep.
    /// A value that is no symbol and no cons is its own value. A symbol has
    /// the value that `get_symbol` gives. A cons is a call: see `eval_list`.
    /// With no fuel the value is an error. While `input` is evaluated it
    /// stands on the stack; at the end a collection runs if it is due, with
    /// the value on the stack as well.
    pub fn evaluate_within<H: FloatOps>(&mut self, host: &H, input: Object, fuel: usize) -> (r:
        Object)
        requires
            old(self).inv(),
            old(self).heap.valid(input),
        ensures
            old(self).evaluated_to(*final(self), r),
            fuel > 0 && !input.evaluates() ==> r == input,
            fuel > 0 && input.spec_what_type() == RlispType::Sym ==> match old(
                self,
            ).spec_symbol_value(input) {
                Some(v) => r == v,
                None => final(self).is_error_of(r, RlispErrorKind::UnboundSymbol { sym: input }),
            },
            fuel == 0 ==> r.spec_what_type() == RlispType::Error,
            fuel > 1 ==> match old(self).spec_unbound_head(input) {
                Some(head) => final(self).is_error_of(
                    r,
                    RlispErrorKind::UnboundSymbol { sym: head },
                ),
                None => true,
            },
            old(self).evals(input, fuel as nat, *final(self), r),
        decreases fuel, 0nat,
    {
        if fuel == 0 {
            let r = self.host_error(ErrorKind::DepthExceeded);
            proof {
                old(self).lemma_evals_without_fuel(input, *self, r);
            }
            return r;
        }
        self.push(input);
        let ghost pushed = *self;
        let res = self.dispatch(host, input, fuel - 1);
        let ghost computed = *self;
        let kept = self.settle(res);
        proof {
            assert(self.stack@ =~= old(self).stack@);
            assert(pushed.scope_view() =~= old(self).scope_view());
            old(self).lemma_evals_with_fuel(input, fuel as nat, pushed, computed, *self, res);
        }
        kept
    }

    /// The value of `input`, which stands on top of the stack: a symbol is
    /// looked up, a cons is evaluated as a call, with `fuel` levels of
    /// nesting left, and any other value is its own value.
    pub fn dispatch<H: FloatOps>(&mut self, host: &H, input: Object, fuel: usize) -> (r: Object)
        requires
            old(self).inv(),
            old(self).stack@.len() > 0,
            old(self).stack@.last() == input,
        ensures
            old(self).evaluated_to(*final(self), r),
            !input.evaluates() ==> r == input,
            input.spec_what_type() == RlispType::Sym ==> match old(self).spec_symbol_value(input) {
                Some(v) => r == v,
                None => final(self).is_error_of(r, RlispErrorKind::UnboundSymbol { sym: input }),
            },
            fuel > 0 ==> match old(self).spec_unbound_head(input) {
                Some(head) => final(self).is_error_of(
                    r,
                    RlispErrorKind::UnboundSymbol { sym: head },
                ),
                None => true,
            },
            old(self).dispatched(input, fuel as nat, *final(self), r),
        decreases fuel, 30nat,
    {
        proof {
            Object::lemma_reference_type(ObjectTag::Error, 0);
        }
        match input.what_type() {
            RlispType::Sym => self.get_symbol(input),
            RlispType::Cons => self.eval_list(host, input, fuel),
            _ => input,
        }
    }

    /// Settles the value `res` of the value on top of the stack: with `res`
    /// on the stack as well, a collection runs if one is due; then both come
    /// off the stack. An error stays the error that it is.
    pub fn settle(&mut self, res: Object) -> (r: Object)
        requires
            old(self).inv(),
            old(self).heap.valid(res),
            old(self).stack@.len() > 0,
        ensures
            r == res,
            final(self).inv(),
            final(self).heap.valid(r),
            final(self).stack@ == old(self).stack@.drop_last(),
            final(self).symbols@ == old(self).symbols@,
            final(self).max_depth == old(self).max_depth,
            final(self).macro_chars == old(self).macro_chars,
            old(self).settled_to(*final(self), res),
            forall|kind: RlispErrorKind| #[trigger]
                old(self).is_error_of(res, kind) ==> final(self).is_error_of(res, kind),
    {
        self.push(res);
        let ghost before = *self;
        self.gc_maybe_pass();
        let ghost after = *self;
        let kept = self.pop();
        let _input = self.pop();
        proof {
            assert(self.stack@ =~= old(self).stack@.drop_last());
            assert(old(self).pushed_to(before, res) && before.maybe_collected_to(after));
            assert forall|kind: RlispErrorKind| #[trigger]
                old(self).is_error_of(res, kind) implies self.is_error_of(res, kind) by {
                if before.heap.live_count() > before.gc_threshold && res
                    != Heap::spec_out_of_memory() {
                    let k = before.stack@.len() - 1;
                    assert(before.stack@[k] == res);
                    Lisp::lemma_collection_keeps_reached(before, after, k, 0);
                }
            }
        }
        kept
    }

    /// The value of the call that the cons `c` is, which stands on top of the
    /// stack. The head of `c` is evaluated first; then the call goes on as
    /// `apply` says.
    pub fn eval_list<H: FloatOps>(&mut self, host: &H, c: Object, fuel: usize) -> (r: Object)
        requires
            old(self).inv(),
            c.spec_what_type() == RlispType::Cons,
            old(self).stack@.len() > 0,
            old(self).stack@.last() == c,
        ensures
            old(self).evaluated_to(*final(self), r),
            fuel > 0 ==> match old(self).spec_unbound_head(c) {
                Some(head) => final(self).is_error_of(
                    r,
                    RlispErrorKind::UnboundSymbol { sym: head },
                ),
                None => true,
            },
            old(self).listed(c, fuel as nat, *final(self), r),
        decreases fuel, 20nat,
    {
        let (car, _cdr) = self.heap.cons_parts(c);
        let head = self.evaluate_within(host, car, fuel);
        let ghost s1 = *self;
        proof {
            Object::lemma_reference_type(ObjectTag::Error, 0);
        }
        let r = self.apply(host, c, head, fuel);
        proof {
            old(self).lemma_listed(c, fuel as nat, s1, head, *self, r);
        }
        r
    }

    /// The value of the call `c`, which stands on top of the stack, once its
    /// head has the value `head`. A head that is an error is the value of the
    /// call, and so is the error that says that the head is no function. A
    /// function goes onto the stack, and above it the arguments of `c` as
    /// they were written, the first one topmost; a rest of `c` that does not
    /// end in `nil` is an error. Then the function is called as `call` says.
    pub fn apply<H: FloatOps>(&mut self, host: &H, c: Object, head: Object, fuel: usize) -> (r:
        Object)
        requires
            old(self).inv(),
            old(self).heap.valid(head),
            c.spec_what_type() == RlispType::Cons,
            old(self).stack@.len() > 0,
            old(self).stack@.last() == c,
        ensures
            old(self).evaluated_to(*final(self), r),
            head.spec_what_type() == RlispType::Error ==> r == head,
            old(self).applied(c, head, old(self).stack@.len() as int, fuel as nat, *final(self), r),
        decreases fuel, 19nat,
    {
        let base: usize = self.stack.len();
        if head.errorp() {
            proof {
                self.lemma_applied_to_error(c, head, base as int, fuel as nat);
            }
            return head;
        }
        if !head.functionp() {
            let r = self.wrong_type_error(RlispType::Function, head.what_type());
            proof {
                old(self).lemma_applied_to_no_function(
                    c,
                    head,
                    base as int,
                    fuel as nat,
                    *self,
                    r,
                );
            }
            return r;
        }
        self.push(head);
        let ghost s2 = *self;
        assert(self.stack@[base - 1] == c);
        let (_car, cdr) = self.heap.cons_parts(c);
        let (args, end) = self.heap.list_to_vec(cdr);
        if !end.nilp() || args.len() > MAX_COUNT {
            self.truncate_stack(base);
            let ghost s3 = *self;
            proof {
                assert(self.stack@ =~= old(self).stack@);
            }
            let r = self.host_error(ErrorKind::ImproperList);
            proof {
                old(self).lemma_applied_to_improper(
                    c,
                    head,
                    base as int,
                    fuel as nat,
                    s2,
                    s3,
                    *self,
                    r,
                );
            }
            return r;
        }
        let n: usize = args.len();
        let mut i: usize = n;
        proof {
            assert(args@.skip(n as int) =~= Seq::<Object>::empty());
            assert(s2.stack@ + Seq::<Object>::empty() =~= s2.stack@);
        }
        while i > 0
            invariant
                i <= n,
                n == args@.len(),
                self.inv(),
                *self == (Lisp { stack: self.stack, ..s2 }),
                self.stack@ == s2.stack@ + args@.skip(i as int).reverse(),
                forall|q: int| 0 <= q < args@.len() ==> self.heap.valid(#[trigger] args@[q]),
            decreases i,
        {
            i -= 1;
            self.push(args[i]);
            proof {
                assert(args@.skip(i as int).reverse() =~= args@.skip(i + 1).reverse().push(
                    args@[i as int],
                ));
                assert(self.stack@ =~= s2.stack@ + args@.skip(i as int).reverse());
            }
        }
        let ghost s3 = *self;
        proof {
            assert(args@.skip(0) =~= args@);
            assert(s3.stack@.len() == base + 1 + n);
            assert(s3.stack@[base as int] == head);
        }
        let r = self.call(host, head, n, fuel);
        let ghost s4 = *self;
        self.truncate_stack(base);
        proof {
            assert(self.stack@ =~= old(self).stack@) by {
                assert(s4.stack@.take(base + 1).take(base as int) =~= s4.stack@.take(base as int));
                assert(s3.stack@.take(base + 1).take(base as int) =~= old(self).stack@);
            }
            old(self).lemma_applied_to_function(
                c,
                head,
                base as int,
                fuel as nat,
                s2,
                s3,
                s4,
                *self,
                r,
            );
        }
        r
    }

    /// Calls the function `head`, which stands on the stack under its `n`
    /// arguments. A special form gets the arguments as they are, with their
    /// number on top. For any other function the arguments are evaluated
    /// first, as `eval_args` says; an error among their values is the value
    /// of the call, and the function is not called; else the number of the
    /// arguments goes on top and the function is called within the frames
    /// that it has captured.
    pub fn call<H: FloatOps>(&mut self, host: &H, head: Object, n: usize, fuel: usize) -> (r: Object)
        requires
            old(self).inv(),
            n <= MAX_COUNT,
            n + 1 <= old(self).stack@.len(),
            old(self).stack@[old(self).stack@.len() - 1 - n] == head,
            head.spec_what_type() == RlispType::Function,
        ensures
            final(self).inv(),
            final(self).heap.valid(r),
            final(self).symbols@ == old(self).symbols@,
            final(self).max_depth == old(self).max_depth,
            final(self).macro_chars == old(self).macro_chars,
            final(self).stack@.len() >= old(self).stack@.len() - n,
            final(self).stack@.take(old(self).stack@.len() - n) == old(self).stack@.take(
                old(self).stack@.len() - n,
            ),
            old(self).called(head, n as nat, fuel as nat, *final(self), r),
        decreases fuel, 18nat,
    {
        let len: usize = self.stack.len();
        let is_special = match &self.heap.function(head).body {
            FunctionBody::SpecialForm(_) => true,
            _ => false,
        };
        proof {
            self.heap.lemma_valid_reference(head);
        }
        if is_special {
            self.push(Object::from_int(n as i32));
            let ghost s1 = *self;
            let r = self.call_special_form(host, fuel);
            proof {
                assert(self.stack@ =~= old(self).stack@.take(len - n));
                old(self).lemma_called_special(head, n as nat, fuel as nat, s1, *self, r);
            }
            r
        } else {
            let failed = self.eval_args(host, n, fuel);
            let ghost s1 = *self;
            match failed {
                Some(e) => {
                    proof {
                        old(self).lemma_called_failed(head, n as nat, fuel as nat, s1, e);
                    }
                    e
                },
                None => {
                    proof {
                        assert(s1.stack@[len - 1 - n] == s1.stack@.take(len - n)[len - 1 - n]);
                        assert(old(self).stack@.take(len - n)[len - 1 - n] == head);
                    }
                    self.push(Object::from_int(n as i32));
                    let ghost s2 = *self;
                    let r = self.put_function_scope_and_call(host, fuel);
                    proof {
                        assert(self.stack@ =~= s1.stack@.take(len - n));
                        assert(s1.stack@.take(len - n) =~= old(self).stack@.take(len - n));
                        old(self).lemma_called_on_values(
                            head,
                            n as nat,
                            fuel as nat,
                            s1,
                            s2,
                            *self,
                            r,
                        );
                    }
                    r
                },
            }
        }
    }

    /// Evaluates the topmost `n` entries of the stack where they stand, from
    /// the top downwards, each value taking the place of its expression. The
    /// first value that is an error ends this and is returned; nothing below
    /// it is evaluated then. Returns `None` where every one was evaluated and
    /// none is an error.
    pub fn eval_args<H: FloatOps>(&mut self, host: &H, n: usize, fuel: usize) -> (failed: Option<
        Object,
    >)
        requires
            old(self).inv(),
            n <= old(self).stack@.len(),
        ensures
            final(self).inv(),
            final(self).symbols@ == old(self).symbols@,
            final(self).max_depth == old(self).max_depth,
            final(self).macro_chars == old(self).macro_chars,
            final(self).stack@.len() == old(self).stack@.len(),
            final(self).stack@.take(old(self).stack@.len() - n) == old(self).stack@.take(
                old(self).stack@.len() - n,
            ),
            failed matches Some(e) ==> final(self).heap.valid(e) && e.spec_what_type()
                == RlispType::Error,
            failed is None ==> forall|k: int|
                0 <= k < n ==> (#[trigger] final(self).stack@[old(self).stack@.len() - 1
                    - k]).spec_what_type() != RlispType::Error,
            old(self).args_evaled(n as nat, 0, fuel as nat, *final(self), failed),
        decreases fuel, 17nat,
    {
        let len: usize = self.stack.len();
        let mut k: usize = 0;
        while k < n
            invariant
                k <= n,
                n <= len,
                len == old(self).stack@.len(),
                self.inv(),
                self.symbols@ == old(self).symbols@,
                self.max_depth == old(self).max_depth,
                self.macro_chars == old(self).macro_chars,
                self.stack@.len() == len,
                self.stack@.take(len - n) == old(self).stack@.take(len - n),
                forall|j: int|
                    0 <= j < k ==> (#[trigger] self.stack@[len - 1 - j]).spec_what_type()
                        != RlispType::Error,
                forall|l: Lisp, f: Option<Object>|
                    #![trigger self.args_evaled(n as nat, k as nat, fuel as nat, l, f)]
                    self.args_evaled(n as nat, k as nat, fuel as nat, l, f) ==> old(
                        self,
                    ).args_evaled(n as nat, 0, fuel as nat, l, f),
            decreases n - k,
        {
            let pos: usize = len - 1 - k;
            let form = self.stack[pos];
            let ghost prev = *self;
            let v = self.evaluate_within(host, form, fuel);
            let ghost s1 = *self;
            if v.errorp() {
                proof {
                    prev.lemma_args_evaled_failed(n as nat, k as nat, fuel as nat, s1, v);
                }
                return Some(v);
            }
            self.set_stack(pos, v);
            let ghost s2 = *self;
            k += 1;
            proof {
                assert(self.stack@.take(len - n) =~= prev.stack@.take(len - n));
                assert forall|j: int| 0 <= j < k implies (
                #[trigger] self.stack@[len - 1 - j]).spec_what_type() != RlispType::Error by {
                    if j < k - 1 {
                        assert(self.stack@[len - 1 - j] == prev.stack@[len - 1 - j]);
                    }
                }
                assert forall|l: Lisp, f: Option<Object>|
                    #![trigger self.args_evaled(n as nat, k as nat, fuel as nat, l, f)]
                    self.args_evaled(n as nat, k as nat, fuel as nat, l, f) implies old(
                        self,
                    ).args_evaled(n as nat, 0, fuel as nat, l, f) by {
                    prev.lemma_args_evaled_next(
                        n as nat,
                        (k - 1) as nat,
                        fuel as nat,
                        s1,
                        v,
                        s2,
                        l,
                        f,
                    );
                }
            }
        }
        proof {
            self.lemma_args_evaled_all(n as nat, k as nat, fuel as nat);
        }
        None
    }

    /// Calls the function of the call that the stack ends in, with the
    /// frames that the function has captured on top of the scope for as long
    /// as the call lasts.
    pub fn put_function_scope_and_call<H: FloatOps>(&mut self, host: &H, fuel: usize) -> (r: Object)
        requires
            old(self).inv(),
            old(self).call_ready(),
        ensures
            old(self).called_to(*final(self), old(self).call_args() + 1, r),
            old(self).spec_call_refusal() matches Some(kind) ==> final(self).is_error_of(r, kind),
            old(self).scoped_call(fuel as nat, *final(self), r),
        decreases fuel, 8nat,
    {
        let len: usize = self.stack.len();
        let n: usize = self.stack[len - 1].int_value() as usize;
        let func = self.stack[len - 2 - n];
        let captured: Vec<u64> = match &self.heap.function(func).scope {
            Some(s) => copy_indices(s),
            None => Vec::new(),
        };
        proof {
            self.heap.lemma_valid_reference(func);
            let i = func.spec_index();
            assert(self.heap.slot_ok(self.heap.slots@[i]));
            assert forall|q: int| 0 <= q < captured@.len() implies self.heap.kind(
                #[trigger] captured@[q] as int,
            ) == Some(ObjectTag::Namespace) by {
                assert(captured@.contains(captured@[q]));
                assert(self.heap.slots@[i].names(ObjectTag::Namespace, captured@[q]));
            }
        }
        let mut k: usize = 0;
        while k < captured.len()
            invariant
                k <= captured@.len(),
                self.inv(),
                *self == (Lisp { symbols: self.symbols, ..*old(self) }),
                self.symbols@ == old(self).symbols@ + captured@.take(k as int),
                forall|q: int|
                    0 <= q < captured@.len() ==> self.heap.kind(#[trigger] captured@[q] as int)
                        == Some(ObjectTag::Namespace),
            decreases captured@.len() - k,
        {
            self.push_namespace(captured[k]);
            proof {
                assert(captured@.take(k + 1) =~= captured@.take(k as int).push(captured@[k as int]));
                assert(self.symbols@ =~= old(self).symbols@ + captured@.take(k + 1));
            }
            k += 1;
        }
        let ghost mid = *self;
        proof {
            assert(mid.spec_call_refusal() == old(self).spec_call_refusal());
        }
        let r = self.funcall(host, fuel);
        let ghost after = *self;
        let mut k: usize = captured.len();
        while k > 0
            invariant
                k <= captured@.len(),
                self.inv(),
                *self == (Lisp { symbols: self.symbols, ..after }),
                self.heap == after.heap,
                self.heap.valid(r),
                self.stack@ == old(self).stack@.take(old(self).stack@.len() - (n + 1)),
                self.max_depth == old(self).max_depth,
                self.macro_chars == old(self).macro_chars,
                self.symbols@ == old(self).symbols@ + captured@.take(k as int),
                old(self).symbols@.len() >= 1,
            decreases k,
        {
            self.end_scope();
            proof {
                assert(captured@.take(k as int).drop_last() =~= captured@.take(k - 1));
                assert(self.symbols@ =~= old(self).symbols@ + captured@.take(k - 1));
            }
            k -= 1;
        }
        proof {
            assert(self.symbols@ =~= old(self).symbols@);
            assert(captured@.take(captured@.len() as int) =~= captured@);
            old(self).lemma_scoped_call(fuel as nat, mid, after, *self, r);
        }
        r
    }

    /// Calls the function of the call that the stack ends in. A function
    /// with a parameter list is called if the number of arguments is in the
    /// range that the list takes, and else the value is the error that says
    /// so, with the number and the range. A function without one is a native
    /// function that checks for itself.
    pub fn funcall<H: FloatOps>(&mut self, host: &H, fuel: usize) -> (r: Object)
        requires
            old(self).inv(),
            old(self).call_ready(),
        ensures
            old(self).called_to(*final(self), old(self).call_args() + 1, r),
            old(self).spec_call_refusal() matches Some(kind) ==> final(self).is_error_of(r, kind),
            old(self).funcalled(fuel as nat, *final(self), r),
        decreases fuel, 6nat,
    {
        let count = self.pop();
        let ghost s1 = *self;
        let n: usize = count.int_value() as usize;
        let len: usize = self.stack.len();
        let func = self.stack[len - 1 - n];
        let arglist: Option<Object> = self.heap.function(func).arglist;
        proof {
            self.heap.lemma_valid_reference(func);
            let i = func.spec_index();
            assert(self.heap.slot_ok(self.heap.slots@[i]));
            if arglist is Some {
                assert(self.heap.slots@[i].holds(arglist.unwrap()));
            }
            assert(old(self).stack@.take(old(self).stack@.len() - (n + 1)) =~= self.stack@.take(
                len - n,
            ));
            assert(old(self).cut_to(s1, old(self).stack@.len() - 1)) by {
                assert(old(self).stack@.drop_last() =~= old(self).stack@.take(
                    old(self).stack@.len() - 1,
                ));
            }
            Object::lemma_reference_type(ObjectTag::Error, 0);
        }
        match arglist {
            Some(al) => {
                if al.consp() {
                    match self.heap.acceptable_range(al) {
                        Ok((min, max)) => {
                            let fits = n >= min && match max {
                                Some(ma) => n <= ma,
                                None => true,
                            };
                            if fits {
                                let r = self.funcall_after_check(host, true, n, fuel);
                                proof {
                                    old(self).lemma_funcalled_accepted(fuel as nat, s1, *self, r);
                                }
                                r
                            } else {
                                self.truncate_stack(len - n);
                                let ghost s2 = *self;
                                let r = self.bad_args_count_error(n, min, max);
                                proof {
                                    let kind = old(self).spec_call_refusal().unwrap();
                                    old(self).lemma_funcalled_refused(
                                        fuel as nat,
                                        kind,
                                        s2,
                                        *self,
                                        r,
                                    );
                                }
                                r
                            }
                        },
                        Err(e) => {
                            self.truncate_stack(len - n);
                            let ghost s2 = *self;
                            let r = self.host_error(e);
                            proof {
                                old(self).lemma_funcalled_refused(
                                    fuel as nat,
                                    RlispErrorKind::RustError(e),
                                    s2,
                                    *self,
                                    r,
                                );
                            }
                            r
                        },
                    }
                } else {
                    if n == 0 {
                        let r = self.funcall_after_check(host, false, 0, fuel);
                        proof {
                            old(self).lemma_funcalled_accepted(fuel as nat, s1, *self, r);
                        }
                        r
                    } else {
                        self.truncate_stack(len - n);
                        let ghost s2 = *self;
                        let r = self.bad_args_count_error(n, 0, Some(0));
                        proof {
                            let kind = old(self).spec_call_refusal().unwrap();
                            old(self).lemma_funcalled_refused(fuel as nat, kind, s2, *self, r);
                        }
                        r
                    }
                }
            },
            None => {
                let ghost native = old(self).call_function().body is RustFn;
                let r = self.funcall_unchecked(host, n);
                proof {
                    if native {
                        old(self).lemma_funcalled_accepted(fuel as nat, s1, *self, r);
                    } else {
                        let s2 = choose|s2: Lisp|
                            #![trigger s1.cut_to(s2, len - n)]
                            s1.cut_to(s2, len - n) && s2.host_error_raised(
                                *self,
                                ErrorKind::RequiresArglist,
                                r,
                            );
                        assert(s2.stack@ =~= old(self).stack@.take(
                            old(self).stack@.len() - 1 - n,
                        ));
                        old(self).lemma_funcalled_refused(
                            fuel as nat,
                            RlispErrorKind::RustError(ErrorKind::RequiresArglist),
                            s2,
                            *self,
                            r,
                        );
                    }
                }
                r
            },
        }
    }

    /// Calls a function that has no parameter list, with the `n_args`
    /// arguments above it on the stack. Only a native function can be called
    /// so; for any other the value is an error.
    pub fn funcall_unchecked<H: FloatOps>(&mut self, host: &H, n_args: usize) -> (r: Object)
        requires
            old(self).inv(),
            old(self).args_ready(n_args as int),
        ensures
            old(self).called_to(*final(self), n_args as int, r),
            ({
                let func = old(self).stack@[old(self).stack@.len() - 1 - n_args];
                match old(self).heap.at(func.spec_index()) {
                    Slot::Function(f) => !(f.body is RustFn) ==> final(self).is_error_of(
                        r,
                        RlispErrorKind::RustError(ErrorKind::RequiresArglist),
                    ),
                    _ => true,
                }
            }),
            old(self).unchecked_call(n_args as nat, *final(self), r),
    {
        let len: usize = self.stack.len();
        let func = self.stack[len - 1 - n_args];
        let native = match &self.heap.function(func).body {
            FunctionBody::RustFn(b) => Some(*b),
            _ => None,
        };
        proof {
            self.heap.lemma_valid_reference(func);
        }
        match native {
            Some(b) => self.call_rust_func(host, b, n_args),
            None => {
                self.truncate_stack(len - n_args);
                let ghost s1 = *self;
                let r = self.host_error(ErrorKind::RequiresArglist);
                proof {
                    assert(old(self).cut_to(s1, len - n_args));
                }
                r
            },
        }
    }

    /// Calls the function under the `n_args` arguments on the stack, after
    /// the number of arguments was found to fit. A native function gets the
    /// arguments on the stack. For a function of the language the parameters
    /// are bound in a new frame, if it has a parameter list, and its
    /// expressions are evaluated one after the other; the value is that of
    /// the last one, or the first error, or `nil` where there is no
    /// expression.
    pub fn funcall_after_check<H: FloatOps>(
        &mut self,
        host: &H,
        has_arglist: bool,
        n_args: usize,
        fuel: usize,
    ) -> (r: Object)
        requires
            old(self).inv(),
            old(self).args_ready(n_args as int),
        ensures
            old(self).called_to(*final(self), n_args as int, r),
            old(self).checked_call(has_arglist, n_args as nat, fuel as nat, *final(self), r),
        decreases fuel, 5nat,
    {
        let len: usize = self.stack.len();
        let fpos: usize = len - 1 - n_args;
        let func = self.stack[fpos];
        let f = self.heap.function(func);
        let arglist = f.arglist;
        let (native, lines): (Option<crate::builtins::RlispBuiltinFunc>, Option<usize>) =
            match &f.body {
            FunctionBody::RustFn(b) => (Some(*b), None),
            FunctionBody::LispFn(b) => (None, Some(b.len())),
            FunctionBody::SpecialForm(_) => (None, None),
        };
        proof {
            self.heap.lemma_valid_reference(func);
        }
        match native {
            Some(b) => {
                return self.call_rust_func(host, b, n_args);
            },
            None => {},
        }
        let count: usize = match lines {
            Some(c) => c,
            None => {
                self.truncate_stack(len - n_args);
                let ghost s1 = *self;
                let r = self.host_error(ErrorKind::NotAFunction);
                proof {
                    assert(old(self).cut_to(s1, len - n_args));
                }
                return r;
            },
        };
        let binds = has_arglist && arglist.is_some();
        if binds {
            let al = arglist.unwrap();
            proof {
                let i = func.spec_index();
                assert(self.heap.slot_ok(self.heap.slots@[i]));
                assert(self.heap.slots@[i].holds(al));
            }
            let e = self.get_args_for_lisp_func(al, n_args);
            let ghost s1 = *self;
            proof {
                assert(semantics::stage(s1, e));
            }
            if e.errorp() {
                return e;
            }
            proof {
                assert(s1.stack@ =~= old(self).stack@.take(len - n_args));
                assert(s1.stack@[fpos as int] == func);
            }
            let ret = self.run_body(host, fpos, count, fuel);
            let ghost s2 = *self;
            self.end_scope();
            proof {
                assert(self.symbols@ =~= old(self).symbols@);
                assert(s2.scope_popped_to(*self));
            }
            ret
        } else {
            self.truncate_stack(len - n_args);
            let ghost s1 = *self;
            proof {
                assert(s1.stack@ =~= old(self).stack@.take(len - n_args));
                assert(s1.stack@[fpos as int] == func);
                assert(old(self).cut_to(s1, len - n_args));
            }
            self.run_body(host, fpos, count, fuel)
        }
    }

    /// Evaluates the expressions of the function that stands at entry `fpos`
    /// of the stack, `count` of them, one after the other. The value is that
    /// of the last one; or the first value that is an error, after which no
    /// expression is evaluated; or `nil` where there is no expression.
    pub fn run_body<H: FloatOps>(&mut self, host: &H, fpos: usize, count: usize, fuel: usize) -> (r:
        Object)
        requires
            old(self).inv(),
            fpos < old(self).stack@.len(),
            old(self).stack@[fpos as int].spec_what_type() == RlispType::Function,
        ensures
            old(self).evaluated_to(*final(self), r),
            old(self).body_run(
                fpos as int,
                count as nat,
                0,
                Object::spec_nil(),
                fuel as nat,
                *final(self),
                r,
            ),
        decreases fuel, 4nat,
    {
        let ghost func = self.stack@[fpos as int];
        let mut ret = Object::nil();
        let mut k: usize = 0;
        while k < count
            invariant
                k <= count,
                self.inv(),
                old(self).same_frame(*self),
                self.heap.valid(ret),
                fpos < old(self).stack@.len(),
                old(self).stack@[fpos as int] == func,
                func.spec_what_type() == RlispType::Function,
                forall|l: Lisp, o: Object|
                    #![trigger self.body_run(fpos as int, count as nat, k as nat, ret, fuel as nat, l, o)]
                    self.body_run(fpos as int, count as nat, k as nat, ret, fuel as nat, l, o)
                        ==> old(self).body_run(
                        fpos as int,
                        count as nat,
                        0,
                        Object::spec_nil(),
                        fuel as nat,
                        l,
                        o,
                    ),
            decreases count - k,
        {
            let f = self.heap.function(self.stack[fpos]);
            let line = match &f.body {
                FunctionBody::LispFn(b) => {
                    if k < b.len() {
                        Some(b[k])
                    } else {
                        None
                    }
                },
                _ => None,
            };
            let ghost prev = *self;
            let ghost prev_ret = ret;
            proof {
                self.heap.lemma_valid_reference(func);
            }
            match line {
                Some(expr) => {
                    proof {
                        let i = func.spec_index();
                        assert(self.heap.slot_ok(self.heap.slots@[i]));
                        match &f.body {
                            FunctionBody::LispFn(b) => {
                                assert(b@.contains(b@[k as int]));
                            },
                            _ => {},
                        }
                        assert(self.heap.slots@[i].holds(expr));
                        assert(prev.line_at(fpos as int, k as int) == Some(expr));
                    }
                    let v = self.evaluate_within(host, expr, fuel);
                    let ghost s1 = *self;
                    if v.errorp() {
                        proof {
                            prev.lemma_body_run_failed(
                                fpos as int,
                                count as nat,
                                k as nat,
                                prev_ret,
                                fuel as nat,
                                s1,
                                v,
                            );
                        }
                        return v;
                    }
                    ret = v;
                    k += 1;
                    proof {
                        assert forall|l: Lisp, o: Object|
                            #![trigger self.body_run(fpos as int, count as nat, k as nat, ret, fuel as nat, l, o)]
                            self.body_run(
                                fpos as int,
                                count as nat,
                                k as nat,
                                ret,
                                fuel as nat,
                                l,
                                o,
                            ) implies old(self).body_run(
                            fpos as int,
                            count as nat,
                            0,
                            Object::spec_nil(),
                            fuel as nat,
                            l,
                            o,
                        ) by {
                            prev.lemma_body_run_next(
                                fpos as int,
                                count as nat,
                                (k - 1) as nat,
                                prev_ret,
                                fuel as nat,
                                s1,
                                v,
                                l,
                                o,
                            );
                        }
                    }
                },
                None => {
                    proof {
                        assert(prev.line_at(fpos as int, k as int) is None);
                        prev.lemma_body_run_out(
                            fpos as int,
                            count as nat,
                            k as nat,
                            ret,
                            fuel as nat,
                        );
                    }
                    return ret;
                },
            }
        }
        proof {
            self.lemma_body_run_out(fpos as int, count as nat, k as nat, ret, fuel as nat);
        }
        ret
    }
}

impl Object {
    /// True iff evaluating this value does more than return it: it is a
    /// symbol or a cons.
    pub open spec fn evaluates(self) -> bool {
        self.spec_what_type() == RlispType::Sym || self.spec_what_type() == RlispType::Cons
    }
}

} // verus!
