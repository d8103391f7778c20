//! What evaluation is: the steps of the evaluator as relations between the
//! runtime before and the runtime after.
//!
//! `evals` says what it is for a value to evaluate to another. It is built
//! from the relations of the steps: a value goes onto the stack, a symbol is
//! looked up, the head of a call is evaluated and then its arguments, from
//! the first to the last and no further than the first error, and the
//! function is called. Each relation names the runtimes in between.

use super::{spec_count_object, MAX_COUNT};
use crate::lisp::allocate::Slot;
use crate::lisp::Lisp;
use crate::result::ErrorKind;
use crate::symbols_table::spec_type_name;
use crate::types::function::FunctionBody;
use crate::types::rlisperror::RlispErrorKind;
use crate::types::{Object, RlispError, RlispType};
use vstd::prelude::*;

verus! {

/// Names a runtime in between and the value that was computed up to it.
pub open spec fn stage(s: Lisp, v: Object) -> bool {
    true
}

/// Names two runtimes in between.
pub open spec fn stages(a: Lisp, b: Lisp) -> bool {
    true
}

/// Names a runtime in between and the error, if any, that ended a step.
pub open spec fn stage_failed(s: Lisp, failed: Option<Object>) -> bool {
    true
}

impl Lisp {
    /// `later` is `self` with `o` on top of the stack.
    pub open spec fn pushed_to(self, later: Lisp, o: Object) -> bool {
        &&& later == (Lisp { stack: later.stack, ..self })
        &&& later.stack@ == self.stack@.push(o)
    }

    /// `later` is `self` with the stack cut down to its lowest `len` entries.
    pub open spec fn cut_to(self, later: Lisp, len: int) -> bool {
        &&& later == (Lisp { stack: later.stack, ..self })
        &&& later.stack@ == self.stack@.take(len)
    }

    /// `later` is `self` with `o` in the place of entry `pos` of the stack.
    pub open spec fn put_to(self, later: Lisp, pos: int, o: Object) -> bool {
        &&& later == (Lisp { stack: later.stack, ..self })
        &&& later.stack@ == self.stack@.update(pos, o)
    }

    /// `later` is `self` after a collection, if one was due, and else `self`.
    pub open spec fn maybe_collected_to(self, later: Lisp) -> bool {
        &&& later == (Lisp {
            heap: later.heap,
            syms_in_memory: later.syms_in_memory,
            current_gc_mark: later.current_gc_mark,
            gc_threshold: later.gc_threshold,
            ..self
        })
        &&& if self.heap.live_count() > self.gc_threshold {
            self.collected_to(later)
        } else {
            later == self
        }
    }

    /// `r` is, in `later`, the error that says that a value of the type
    /// `wanted` was expected and one of the type `found` came: the symbols
    /// that name the two types are interned, and the error is allocated.
    pub open spec fn wrong_type_raised(
        self,
        later: Lisp,
        wanted: RlispType,
        found: RlispType,
        r: Object,
    ) -> bool {
        exists|s1: Lisp, s2: Lisp, w: Object, f: Object|
            #![trigger self.interned(s1, spec_type_name(wanted), w), s1.interned(s2, spec_type_name(found), f)]
            {
                &&& self.interned(s1, spec_type_name(wanted), w)
                &&& s1.interned(s2, spec_type_name(found), f)
                &&& s2.allocated(
                    later,
                    Slot::Error(
                        RlispError {
                            gc_marking: 0,
                            error: RlispErrorKind::WrongType { wanted: w, found: f },
                        },
                    ),
                    r,
                )
            }
    }

    /// `r` is, in `later`, a new error that wraps the host failure `kind`.
    pub open spec fn host_error_raised(self, later: Lisp, kind: ErrorKind, r: Object) -> bool {
        self.allocated(
            later,
            Slot::Error(RlispError { gc_marking: 0, error: RlispErrorKind::RustError(kind) }),
            r,
        )
    }

    /// The value `input` evaluates, with `fuel` levels of nesting left, to
    /// `r`, and the runtime `self` becomes `later`. Without fuel `r` is a new
    /// error. With fuel, `input` goes onto the stack; then a symbol is looked
    /// up, a cons is evaluated as a call, and any other value is its own
    /// value; then `r` goes onto the stack, a collection runs if one is due,
    /// and the stack is what it was.
    pub open spec fn evals(self, input: Object, fuel: nat, later: Lisp, r: Object) -> bool
        decreases fuel, 0nat, 0nat,
    {
        if fuel == 0 {
            self.host_error_raised(later, ErrorKind::DepthExceeded, r)
        } else {
            exists|a: Lisp, b: Lisp|
                #![trigger self.pushed_to(a, input), b.settled_to(later, r)]
                {
                    &&& self.pushed_to(a, input)
                    &&& a.dispatched(input, (fuel - 1) as nat, b, r)
                    &&& b.settled_to(later, r)
                }
        }
    }

    /// The value `input`, which is on top of the stack, has the value `r`: a
    /// symbol is looked up, a cons is evaluated as a call, and any other
    /// value is its own value.
    pub open spec fn dispatched(self, input: Object, fuel: nat, later: Lisp, r: Object) -> bool
        decreases fuel, 22nat, 0nat,
    {
        match input.spec_what_type() {
            RlispType::Sym => self.got(later, input, r),
            RlispType::Cons => self.listed(input, fuel, later, r),
            _ => later == self && r == input,
        }
    }

    /// The value `r` of the value on top of the stack is settled: `r` goes
    /// onto the stack, a collection runs if one is due, and the two topmost
    /// entries come off the stack.
    pub open spec fn settled_to(self, later: Lisp, r: Object) -> bool {
        exists|c: Lisp, d: Lisp|
            #![trigger self.pushed_to(c, r), c.maybe_collected_to(d)]
            {
                &&& self.pushed_to(c, r)
                &&& c.maybe_collected_to(d)
                &&& later == (Lisp { stack: later.stack, ..d })
                &&& later.stack@ == self.stack@.drop_last()
            }
    }

    /// The call `c`, which is on top of the stack, has the value `r`. The
    /// head of `c` is evaluated; then the call goes on as `applied` says.
    pub open spec fn listed(self, c: Object, fuel: nat, later: Lisp, r: Object) -> bool
        decreases fuel, 21nat, 0nat,
    {
        match self.heap.spec_cell(c) {
            Some(cell) => exists|s1: Lisp, head: Object|
                #![trigger stage(s1, head)]
                stage(s1, head) && self.evals(cell.car, fuel, s1, head) && s1.applied(
                    c,
                    head,
                    self.stack@.len() as int,
                    fuel,
                    later,
                    r,
                ),
            None => false,
        }
    }

    /// The call `c` whose head has the value `head` has the value `r`. A
    /// head that is an error is the value. A head that is no function gives
    /// the error that says so. A function goes onto the stack; then the
    /// arguments of `c`, as they were written, the last one first. A rest of
    /// `c` that does not end in `nil` gives an error. Then the call goes on
    /// as `called` says, and the stack is cut down to its `base` entries.
    pub open spec fn applied(
        self,
        c: Object,
        head: Object,
        base: int,
        fuel: nat,
        later: Lisp,
        r: Object,
    ) -> bool
        decreases fuel, 20nat, 0nat,
    {
        if head.spec_what_type() == RlispType::Error {
            later == self && r == head
        } else if head.spec_what_type() != RlispType::Function {
            self.wrong_type_raised(later, RlispType::Function, head.spec_what_type(), r)
        } else {
            exists|s2: Lisp|
                #![trigger self.pushed_to(s2, head)]
                self.pushed_to(s2, head) && (match s2.heap.spec_cell(c) {
                    Some(cell) => {
                        let (args, end) = s2.heap.list_view(cell.cdr);
                        if end != Object::spec_nil() || args.len() > MAX_COUNT {
                            exists|s3: Lisp|
                                #![trigger s2.cut_to(s3, base)]
                                s2.cut_to(s3, base) && s3.host_error_raised(
                                    later,
                                    ErrorKind::ImproperList,
                                    r,
                                )
                        } else {
                            exists|s3: Lisp, s4: Lisp|
                                #![trigger stages(s3, s4)]
                                {
                                    &&& stages(s3, s4)
                                    &&& s3 == (Lisp { stack: s3.stack, ..s2 })
                                    &&& s3.stack@ == s2.stack@ + args.reverse()
                                    &&& s3.called(head, args.len(), fuel, s4, r)
                                    &&& s4.cut_to(later, base)
                                }
                        }
                    },
                    None => false,
                })
        }
    }

    /// The function `head`, which stands on the stack under its `n`
    /// arguments, is called and returns `r`. A special form gets the
    /// arguments as they are, and their number on top. For any other
    /// function the arguments are evaluated first, as `args_evaled` says; an
    /// error among their values is the value of the call, and the function
    /// is not called; else the number of the arguments goes on top and the
    /// function is called within the frames that it has captured.
    pub open spec fn called(self, head: Object, n: nat, fuel: nat, later: Lisp, r: Object) -> bool
        decreases fuel, 19nat, 0nat,
    {
        let special = match self.heap.at(head.spec_index()) {
            Slot::Function(f) => f.body is SpecialForm,
            _ => false,
        };
        if special {
            exists|s1: Lisp|
                #![trigger self.pushed_to(s1, spec_count_object(n as usize))]
                self.pushed_to(s1, spec_count_object(n as usize)) && s1.special_called(
                    fuel,
                    later,
                    r,
                )
        } else {
            exists|s1: Lisp, failed: Option<Object>|
                #![trigger stage_failed(s1, failed)]
                stage_failed(s1, failed) && self.args_evaled(n, 0, fuel, s1, failed) && (match failed {
                    Some(e) => later == s1 && r == e,
                    None => exists|s2: Lisp|
                        #![trigger s1.pushed_to(s2, spec_count_object(n as usize))]
                        s1.pushed_to(s2, spec_count_object(n as usize)) && s2.scoped_call(
                            fuel,
                            later,
                            r,
                        ),
                })
        }
    }

    /// The topmost `n` entries of the stack are evaluated where they stand,
    /// from the `k`-th from the top on downwards, each value taking the place
    /// of its expression. The first value that is an error ends this:
    /// `failed` holds it, and nothing below it was evaluated. `failed` is
    /// `None` where every one was evaluated and none is an error.
    pub open spec fn args_evaled(
        self,
        n: nat,
        k: nat,
        fuel: nat,
        later: Lisp,
        failed: Option<Object>,
    ) -> bool
        decreases fuel, 18nat, n - k,
    {
        if k >= n {
            later == self && failed is None
        } else {
            let pos = self.stack@.len() - 1 - k;
            exists|s1: Lisp, v: Object|
                #![trigger stage(s1, v)]
                stage(s1, v) && self.evals(self.stack@[pos], fuel, s1, v) && (if v.spec_what_type()
                    == RlispType::Error {
                    later == s1 && failed == Some(v)
                } else {
                    exists|s2: Lisp|
                        #![trigger s1.put_to(s2, pos, v)]
                        s1.put_to(s2, pos, v) && s2.args_evaled(n, k + 1, fuel, later, failed)
                })
        }
    }

    /// The function of the call that the stack ends in returns `r`, called
    /// within the frames that it has captured: these go on top of the scope,
    /// the function is called as `funcalled` says, and the scope is what it
    /// was.
    pub open spec fn scoped_call(self, fuel: nat, later: Lisp, r: Object) -> bool
        decreases fuel, 17nat, 0nat,
    {
        let captured = match self.call_function().scope {
            Some(s) => s@,
            None => Seq::empty(),
        };
        exists|s1: Lisp, s2: Lisp|
            #![trigger stages(s1, s2)]
            {
                &&& stages(s1, s2)
                &&& s1 == (Lisp { symbols: s1.symbols, ..self })
                &&& s1.symbols@ == self.symbols@ + captured
                &&& s1.funcalled(fuel, s2, r)
                &&& later == (Lisp { symbols: later.symbols, ..s2 })
                &&& later.symbols@ == self.symbols@
            }
    }

    /// The function of the call that the stack ends in returns `r`. A call
    /// that is refused (see `spec_call_refusal`) loses its arguments and
    /// returns the error of the refusal. Else the number of the arguments
    /// comes off the stack, and the function is called as `checked_call`
    /// says, or, where it has no parameter list, as `unchecked_call` says.
    pub open spec fn funcalled(self, fuel: nat, later: Lisp, r: Object) -> bool
        decreases fuel, 16nat, 0nat,
    {
        let n = self.call_args();
        let len = self.stack@.len() as int;
        match self.spec_call_refusal() {
            Some(kind) => exists|s1: Lisp|
                #![trigger self.cut_to(s1, len - 1 - n)]
                self.cut_to(s1, len - 1 - n) && s1.allocated(
                    later,
                    Slot::Error(RlispError { gc_marking: 0, error: kind }),
                    r,
                ),
            None => exists|s1: Lisp|
                #![trigger self.cut_to(s1, len - 1)]
                self.cut_to(s1, len - 1) && (match self.call_function().arglist {
                    Some(al) => s1.checked_call(
                        al.spec_what_type() == RlispType::Cons,
                        n as nat,
                        fuel,
                        later,
                        r,
                    ),
                    None => s1.unchecked_call(n as nat, later, r),
                }),
        }
    }

    /// The function under the `n` arguments on the stack, which has no
    /// parameter list, returns `r`: a native function is called; any other
    /// loses its arguments and returns an error.
    pub open spec fn unchecked_call(self, n: nat, later: Lisp, r: Object) -> bool {
        let len = self.stack@.len() as int;
        match self.heap.at(self.stack@[len - 1 - n].spec_index()) {
            Slot::Function(f) => match f.body {
                FunctionBody::RustFn(b) => self.native_called(b, n, later, r),
                _ => exists|s1: Lisp|
                    #![trigger self.cut_to(s1, len - n)]
                    self.cut_to(s1, len - n) && s1.host_error_raised(
                        later,
                        ErrorKind::RequiresArglist,
                        r,
                    ),
            },
            _ => false,
        }
    }

    /// The native function `b` is called on the topmost `n` values of the
    /// stack, the first argument topmost: they come off the stack, and the
    /// function returns `r` as `builtin_run` says.
    pub open spec fn native_called(
        self,
        b: crate::builtins::RlispBuiltinFunc,
        n: nat,
        later: Lisp,
        r: Object,
    ) -> bool {
        exists|s1: Lisp|
            #![trigger self.cut_to(s1, self.stack@.len() - n)]
            self.cut_to(s1, self.stack@.len() - n) && s1.builtin_run(
                b,
                self.top_of_stack(n as int),
                later,
                r,
            )
    }

    /// `later` is `self` without its innermost frame.
    pub open spec fn scope_popped_to(self, later: Lisp) -> bool {
        &&& later == (Lisp { symbols: later.symbols, ..self })
        &&& later.symbols@ == self.symbols@.drop_last()
    }

    /// Expression `k` of the function that stands at entry `fpos` of the
    /// stack, if it is a function of the language with so many expressions.
    pub open spec fn line_at(self, fpos: int, k: int) -> Option<Object> {
        match self.heap.at(self.stack@[fpos].spec_index()) {
            Slot::Function(f) => match f.body {
                FunctionBody::LispFn(b) => if 0 <= k < b@.len() {
                    Some(b@[k])
                } else {
                    None
                },
                _ => None,
            },
            _ => None,
        }
    }

    /// The function under the `n` arguments on the stack returns `r`, after
    /// the number of arguments was found to fit. A native function is called
    /// on the arguments. For a function of the language the parameters are
    /// bound as `get_args_for_lisp_func` does, if it has a parameter list and
    /// `has_arglist` says to, and else the arguments come off the stack; an
    /// error in binding is the value; else the expressions are evaluated as
    /// `body_run` says, and the frame of the parameters comes off the scope.
    pub open spec fn checked_call(
        self,
        has_arglist: bool,
        n: nat,
        fuel: nat,
        later: Lisp,
        r: Object,
    ) -> bool
        decreases fuel, 15nat, 0nat,
    {
        let len = self.stack@.len() as int;
        let fpos = len - 1 - n;
        match self.heap.at(self.stack@[fpos].spec_index()) {
            Slot::Function(f) => match f.body {
                FunctionBody::RustFn(b) => self.native_called(b, n, later, r),
                FunctionBody::SpecialForm(_) => exists|s1: Lisp|
                    #![trigger self.cut_to(s1, len - n)]
                    self.cut_to(s1, len - n) && s1.host_error_raised(
                        later,
                        ErrorKind::NotAFunction,
                        r,
                    ),
                FunctionBody::LispFn(body) => if has_arglist && f.arglist is Some {
                    exists|s1: Lisp, e: Object|
                        #![trigger stage(s1, e)]
                        stage(s1, e) && self.args_bound(s1, f.arglist.unwrap(), n, e) && (
                        if e.spec_what_type() == RlispType::Error {
                            later == s1 && r == e
                        } else {
                            exists|s2: Lisp|
                                #![trigger s2.scope_popped_to(later)]
                                s1.body_run(fpos, body@.len(), 0, Object::spec_nil(), fuel, s2, r)
                                    && s2.scope_popped_to(later)
                        })
                } else {
                    exists|s1: Lisp|
                        #![trigger self.cut_to(s1, len - n)]
                        self.cut_to(s1, len - n) && s1.body_run(
                            fpos,
                            body@.len(),
                            0,
                            Object::spec_nil(),
                            fuel,
                            later,
                            r,
                        )
                },
            },
            _ => false,
        }
    }

    /// What `get_args_for_lisp_func` does: the topmost `n` values come off
    /// the stack; `r` is `nil` and a new innermost frame binds the parameters
    /// of `arglist` as `spec_bind` says, or `r` is an error and the scope is
    /// what it was.
    pub open spec fn args_bound(self, later: Lisp, arglist: Object, n: nat, r: Object) -> bool {
        &&& later.inv()
        &&& self.heap.kinds_kept_by(later.heap)
        &&& later.heap.valid(r)
        &&& later.stack@ == self.stack@.take(self.stack@.len() - n)
        &&& later.max_depth == self.max_depth
        &&& later.macro_chars == self.macro_chars
        &&& r.spec_what_type() == RlispType::Error ==> later.symbols@ == self.symbols@
        &&& r.spec_what_type() != RlispType::Error ==> {
            &&& r == Object::spec_nil()
            &&& later.symbols@.len() == self.symbols@.len() + 1
            &&& later.symbols@.drop_last() == self.symbols@
        }
        &&& ({
            let (params, end) = self.heap.list_view(arglist);
            let given = self.top_of_stack(n as int);
            &&& end != Object::spec_nil() || !self.heap.all_symbols(params) ==> r.spec_what_type()
                == RlispType::Error
            &&& end == Object::spec_nil() && self.heap.all_symbols(params) && super::no_errors(
                given,
            ) && self.heap.room() > n ==> match super::spec_bind(
                self.heap.names_of(params),
                params,
                given,
                crate::types::function::ArgType::Mandatory,
            ) {
                Some(bound) => r == Object::spec_nil() && exists|pairs: Seq<(u64, Object)>|
                    #[trigger] super::realizes(later.heap, pairs, bound) && later.frame(
                        later.symbols@.len() - 1,
                    ) == crate::symbols_table::pairs_to_map(pairs),
                None => r.spec_what_type() == RlispType::Error,
            }
        })
    }

    /// The expressions of the function at entry `fpos` of the stack are
    /// evaluated from expression `k` on, of `count` in all, one after the
    /// other. `r` is the value of the last one; or the first value that is an
    /// error, after which no expression is evaluated; or `ret`, the value so
    /// far, where none is left.
    pub open spec fn body_run(
        self,
        fpos: int,
        count: nat,
        k: nat,
        ret: Object,
        fuel: nat,
        later: Lisp,
        r: Object,
    ) -> bool
        decreases fuel, 14nat, count - k,
    {
        if k >= count {
            later == self && r == ret
        } else {
            match self.line_at(fpos, k as int) {
                Some(expr) => exists|s1: Lisp, v: Object|
                    #![trigger stage(s1, v)]
                    stage(s1, v) && self.evals(expr, fuel, s1, v) && (if v.spec_what_type()
                        == RlispType::Error {
                        later == s1 && r == v
                    } else {
                        s1.body_run(fpos, count, k + 1, v, fuel, later, r)
                    }),
                None => later == self && r == ret,
            }
        }
    }

    /// Without fuel, a value evaluates to a new error.
    pub proof fn lemma_evals_without_fuel(self, input: Object, later: Lisp, r: Object)
        requires
            self.host_error_raised(later, ErrorKind::DepthExceeded, r),
        ensures
            self.evals(input, 0, later, r),
    {
    }

    /// With fuel, a value evaluates as the steps in between say.
    pub proof fn lemma_evals_with_fuel(
        self,
        input: Object,
        fuel: nat,
        a: Lisp,
        b: Lisp,
        later: Lisp,
        r: Object,
    )
        requires
            fuel > 0,
            self.pushed_to(a, input),
            a.dispatched(input, (fuel - 1) as nat, b, r),
            b.settled_to(later, r),
        ensures
            self.evals(input, fuel, later, r),
    {
    }

    /// A call has the value that it has once its head is evaluated.
    pub proof fn lemma_listed(
        self,
        c: Object,
        fuel: nat,
        s1: Lisp,
        head: Object,
        later: Lisp,
        r: Object,
    )
        requires
            self.heap.spec_cell(c) matches Some(cell) && self.evals(cell.car, fuel, s1, head),
            s1.applied(c, head, self.stack@.len() as int, fuel, later, r),
        ensures
            self.listed(c, fuel, later, r),
    {
        assert(stage(s1, head));
    }

    /// A head that is an error is the value of the call.
    pub proof fn lemma_applied_to_error(self, c: Object, head: Object, base: int, fuel: nat)
        requires
            head.spec_what_type() == RlispType::Error,
        ensures
            self.applied(c, head, base, fuel, self, head),
    {
    }

    /// A head that is no function gives the error that says so.
    pub proof fn lemma_applied_to_no_function(
        self,
        c: Object,
        head: Object,
        base: int,
        fuel: nat,
        later: Lisp,
        r: Object,
    )
        requires
            head.spec_what_type() != RlispType::Error,
            head.spec_what_type() != RlispType::Function,
            self.wrong_type_raised(later, RlispType::Function, head.spec_what_type(), r),
        ensures
            self.applied(c, head, base, fuel, later, r),
    {
    }

    /// A rest that does not end in `nil`, or is too long, gives an error.
    pub proof fn lemma_applied_to_improper(
        self,
        c: Object,
        head: Object,
        base: int,
        fuel: nat,
        s2: Lisp,
        s3: Lisp,
        later: Lisp,
        r: Object,
    )
        requires
            head.spec_what_type() == RlispType::Function,
            self.pushed_to(s2, head),
            s2.heap.spec_cell(c) matches Some(cell) && ({
                let (args, end) = s2.heap.list_view(cell.cdr);
                end != Object::spec_nil() || args.len() > MAX_COUNT
            }),
            s2.cut_to(s3, base),
            s3.host_error_raised(later, ErrorKind::ImproperList, r),
        ensures
            self.applied(c, head, base, fuel, later, r),
    {
    }

    /// A function is called on the arguments of the call.
    pub proof fn lemma_applied_to_function(
        self,
        c: Object,
        head: Object,
        base: int,
        fuel: nat,
        s2: Lisp,
        s3: Lisp,
        s4: Lisp,
        later: Lisp,
        r: Object,
    )
        requires
            head.spec_what_type() == RlispType::Function,
            self.pushed_to(s2, head),
            s2.heap.spec_cell(c) matches Some(cell) && ({
                let (args, end) = s2.heap.list_view(cell.cdr);
                &&& end == Object::spec_nil()
                &&& args.len() <= MAX_COUNT
                &&& s3 == (Lisp { stack: s3.stack, ..s2 })
                &&& s3.stack@ == s2.stack@ + args.reverse()
                &&& s3.called(head, args.len(), fuel, s4, r)
            }),
            s4.cut_to(later, base),
        ensures
            self.applied(c, head, base, fuel, later, r),
    {
        assert(stages(s3, s4));
    }

    /// A special form is called on the arguments as they are.
    pub proof fn lemma_called_special(
        self,
        head: Object,
        n: nat,
        fuel: nat,
        s1: Lisp,
        later: Lisp,
        r: Object,
    )
        requires
            self.heap.at(head.spec_index()) matches Slot::Function(f) && f.body is SpecialForm,
            self.pushed_to(s1, spec_count_object(n as usize)),
            s1.special_called(fuel, later, r),
        ensures
            self.called(head, n, fuel, later, r),
    {
    }

    /// An error among the values of the arguments is the value of the call.
    pub proof fn lemma_called_failed(self, head: Object, n: nat, fuel: nat, s1: Lisp, e: Object)
        requires
            self.heap.at(head.spec_index()) matches Slot::Function(f) && !(f.body is SpecialForm),
            self.args_evaled(n, 0, fuel, s1, Some(e)),
        ensures
            self.called(head, n, fuel, s1, e),
    {
        assert(stage_failed(s1, Some(e)));
    }

    /// A function is called on the values of its arguments.
    pub proof fn lemma_called_on_values(
        self,
        head: Object,
        n: nat,
        fuel: nat,
        s1: Lisp,
        s2: Lisp,
        later: Lisp,
        r: Object,
    )
        requires
            self.heap.at(head.spec_index()) matches Slot::Function(f) && !(f.body is SpecialForm),
            self.args_evaled(n, 0, fuel, s1, None),
            s1.pushed_to(s2, spec_count_object(n as usize)),
            s2.scoped_call(fuel, later, r),
        ensures
            self.called(head, n, fuel, later, r),
    {
        assert(stage_failed(s1, None));
    }

    /// With no argument left to evaluate, nothing happens.
    pub proof fn lemma_args_evaled_all(self, n: nat, k: nat, fuel: nat)
        requires
            k >= n,
        ensures
            self.args_evaled(n, k, fuel, self, None),
    {
    }

    /// An argument whose value is an error ends the evaluation of the
    /// arguments.
    pub proof fn lemma_args_evaled_failed(self, n: nat, k: nat, fuel: nat, s1: Lisp, v: Object)
        requires
            k < n,
            self.evals(self.stack@[self.stack@.len() - 1 - k], fuel, s1, v),
            v.spec_what_type() == RlispType::Error,
        ensures
            self.args_evaled(n, k, fuel, s1, Some(v)),
    {
        assert(stage(s1, v));
    }

    /// An argument whose value is no error gives its place to the value, and
    /// the evaluation goes on with the next one.
    pub proof fn lemma_args_evaled_next(
        self,
        n: nat,
        k: nat,
        fuel: nat,
        s1: Lisp,
        v: Object,
        s2: Lisp,
        later: Lisp,
        failed: Option<Object>,
    )
        requires
            k < n,
            self.evals(self.stack@[self.stack@.len() - 1 - k], fuel, s1, v),
            v.spec_what_type() != RlispType::Error,
            s1.put_to(s2, self.stack@.len() - 1 - k, v),
            s2.args_evaled(n, k + 1, fuel, later, failed),
        ensures
            self.args_evaled(n, k, fuel, later, failed),
    {
        assert(stage(s1, v));
    }

    /// A function is called within the frames that it has captured.
    pub proof fn lemma_scoped_call(self, fuel: nat, s1: Lisp, s2: Lisp, later: Lisp, r: Object)
        requires
            s1 == (Lisp { symbols: s1.symbols, ..self }),
            s1.symbols@ == self.symbols@ + (match self.call_function().scope {
                Some(s) => s@,
                None => Seq::empty(),
            }),
            s1.funcalled(fuel, s2, r),
            later == (Lisp { symbols: later.symbols, ..s2 }),
            later.symbols@ == self.symbols@,
        ensures
            self.scoped_call(fuel, later, r),
    {
        assert(stages(s1, s2));
    }

    /// A call that is refused returns the error of the refusal.
    pub proof fn lemma_funcalled_refused(
        self,
        fuel: nat,
        kind: RlispErrorKind,
        s1: Lisp,
        later: Lisp,
        r: Object,
    )
        requires
            self.spec_call_refusal() == Some(kind),
            self.cut_to(s1, self.stack@.len() - 1 - self.call_args()),
            s1.allocated(later, Slot::Error(RlispError { gc_marking: 0, error: kind }), r),
        ensures
            self.funcalled(fuel, later, r),
    {
    }

    /// A call that is not refused goes on.
    pub proof fn lemma_funcalled_accepted(self, fuel: nat, s1: Lisp, later: Lisp, r: Object)
        requires
            self.spec_call_refusal() is None,
            self.cut_to(s1, self.stack@.len() - 1),
            match self.call_function().arglist {
                Some(al) => s1.checked_call(
                    al.spec_what_type() == RlispType::Cons,
                    self.call_args() as nat,
                    fuel,
                    later,
                    r,
                ),
                None => s1.unchecked_call(self.call_args() as nat, later, r),
            },
        ensures
            self.funcalled(fuel, later, r),
    {
    }

    /// With no expression left, the value so far is the value.
    pub proof fn lemma_body_run_out(self, fpos: int, count: nat, k: nat, ret: Object, fuel: nat)
        requires
            k >= count || self.line_at(fpos, k as int) is None,
        ensures
            self.body_run(fpos, count, k, ret, fuel, self, ret),
    {
    }

    /// An expression whose value is an error ends the body.
    pub proof fn lemma_body_run_failed(
        self,
        fpos: int,
        count: nat,
        k: nat,
        ret: Object,
        fuel: nat,
        s1: Lisp,
        v: Object,
    )
        requires
            k < count,
            self.line_at(fpos, k as int) matches Some(expr) && self.evals(expr, fuel, s1, v),
            v.spec_what_type() == RlispType::Error,
        ensures
            self.body_run(fpos, count, k, ret, fuel, s1, v),
    {
        assert(stage(s1, v));
    }

    /// An expression whose value is no error is followed by the next one.
    pub proof fn lemma_body_run_next(
        self,
        fpos: int,
        count: nat,
        k: nat,
        ret: Object,
        fuel: nat,
        s1: Lisp,
        v: Object,
        later: Lisp,
        r: Object,
    )
        requires
            k < count,
            self.line_at(fpos, k as int) matches Some(expr) && self.evals(expr, fuel, s1, v),
            v.spec_what_type() != RlispType::Error,
            s1.body_run(fpos, count, k + 1, v, fuel, later, r),
        ensures
            self.body_run(fpos, count, k, ret, fuel, later, r),
    {
        assert(stage(s1, v));
    }
}

} // verus!
