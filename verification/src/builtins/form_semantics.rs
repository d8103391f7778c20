//! What the special forms do, as relations between the runtime before and
//! the runtime after: the part of `evals` that speaks of special forms.
//!
//! A form finds its `n` arguments on the stack above its lowest `base`
//! entries, the first one topmost, and leaves the stack as it found it.

use super::RlispSpecialForm;
use crate::evaluator::semantics::{stage, stage_failed, stages};
use crate::evaluator::spec_count_object;
use crate::lisp::allocate::{Heap, Slot};
use crate::lisp::Lisp;
use crate::result::ErrorKind;
use crate::types::function::FunctionBody;
use crate::types::rlisperror::RlispErrorKind;
use crate::types::{Object, RlispError, RlispType};
use vstd::prelude::*;

verus! {

impl Lisp {
    /// Argument `i` of the `n` arguments above the lowest `base` entries of
    /// the stack.
    pub open spec fn arg(self, base: int, n: int, i: int) -> Object {
        self.stack@[base + n - 1 - i]
    }

    /// `r` is, in `later`, the new error that says that `found` arguments
    /// came where at least `min` and at most `max` were expected.
    pub open spec fn bad_args_raised(
        self,
        later: Lisp,
        found: usize,
        min: usize,
        max: Option<usize>,
        r: Object,
    ) -> bool {
        self.allocated(
            later,
            Slot::Error(
                RlispError {
                    gc_marking: 0,
                    error: RlispErrorKind::BadArgsCount {
                        min: spec_count_object(min),
                        max: match max {
                            Some(m) => spec_count_object(m),
                            None => Object::spec_nil(),
                        },
                        found: spec_count_object(found),
                    },
                },
            ),
            r,
        )
    }

    /// The special form of the function of the call that the stack ends in.
    pub open spec fn call_form(self) -> Option<RlispSpecialForm> {
        match self.call_function().body {
            FunctionBody::SpecialForm(f) => Some(f),
            _ => None,
        }
    }

    /// The special form of the call that the stack ends in returns `r`: the
    /// number of the arguments comes off the stack, the form does what
    /// `form_run` says, and the arguments come off the stack.
    pub open spec fn special_called(self, fuel: nat, later: Lisp, r: Object) -> bool
        decreases fuel, 13nat, 0nat,
    {
        let n = self.call_args();
        let len = self.stack@.len() as int;
        let base = len - 1 - n;
        exists|s1: Lisp, s2: Lisp|
            #![trigger stages(s1, s2)]
            {
                &&& stages(s1, s2)
                &&& self.cut_to(s1, len - 1)
                &&& s1.form_run(self.call_form(), base, n as nat, fuel, s2, r)
                &&& s2.cut_to(later, base)
            }
    }

    /// The special form `form` returns `r` on the `n` arguments above the
    /// lowest `base` entries of the stack.
    pub open spec fn form_run(
        self,
        form: Option<RlispSpecialForm>,
        base: int,
        n: nat,
        fuel: nat,
        later: Lisp,
        r: Object,
    ) -> bool
        decreases fuel, 12nat, 0nat,
    {
        match form {
            Some(RlispSpecialForm::Quote) => self.quote_run(base, n, later, r),
            Some(RlispSpecialForm::If) => self.if_run(base, n, fuel, later, r),
            Some(RlispSpecialForm::Cond) => self.cond_run(base, n, 0, fuel, later, r),
            Some(RlispSpecialForm::Setq) => if n % 2 != 0 {
                self.host_error_raised(later, ErrorKind::WantedEvenArgCt, r)
            } else {
                self.setq_run(base, n, 0, Object::spec_nil(), fuel, later, r)
            },
            Some(RlispSpecialForm::Defvar) => self.defvar_run(base, n, fuel, later, r),
            Some(RlispSpecialForm::Let) => self.let_run(base, n, fuel, later, r),
            Some(RlispSpecialForm::Defun) => self.defun_run(base, n, later, r),
            Some(RlispSpecialForm::Lambda) => self.lambda_run(base, n, later, r),
            Some(RlispSpecialForm::MakeNamespace) => self.make_namespace_run(base, n, later, r),
            Some(RlispSpecialForm::NamespaceGet) => self.get_run(base, n, fuel, later, r),
            Some(RlispSpecialForm::NamespaceSet) => self.set_run(base, n, fuel, later, r),
            Some(RlispSpecialForm::CatchError) => self.catch_error_run(base, n, fuel, later, r),
            Some(RlispSpecialForm::CheckType) => if n % 2 != 0 {
                self.host_error_raised(later, ErrorKind::WantedEvenArgCt, r)
            } else {
                self.check_type_run(base, n, 0, Object::spec_nil(), fuel, later, r)
            },
            None => self.host_error_raised(later, ErrorKind::NotAFunction, r),
        }
    }

    /// `(quote x)`: `x` as it was written; any other number of arguments
    /// than one is an error.
    pub open spec fn quote_run(self, base: int, n: nat, later: Lisp, r: Object) -> bool {
        if n != 1 {
            self.bad_args_raised(later, n as usize, 1, Some(1), r)
        } else {
            later == self && r == self.arg(base, 1, 0)
        }
    }

    /// The arguments from argument `i` on are evaluated one after the other.
    /// `r` is the value of the last one; or the first value that is an
    /// error, after which nothing is evaluated; or `ret`, the value so far,
    /// where none is left.
    pub open spec fn seq_run(
        self,
        base: int,
        n: nat,
        i: nat,
        ret: Object,
        fuel: nat,
        later: Lisp,
        r: Object,
    ) -> bool
        decreases fuel, 11nat, n - i,
    {
        if i >= n {
            later == self && r == ret
        } else {
            exists|s1: Lisp, v: Object|
                #![trigger stage(s1, v)]
                stage(s1, v) && self.evals(self.arg(base, n as int, i as int), fuel, s1, v) && (
                if v.spec_what_type() == RlispType::Error {
                    later == s1 && r == v
                } else {
                    s1.seq_run(base, n, i + 1, v, fuel, later, r)
                })
        }
    }

    /// `(if predicate then else...)`: the predicate is evaluated; an error
    /// is the value; where it is true the value is that of `then`; else the
    /// other clauses are evaluated as `seq_run` says. Fewer than two
    /// arguments are an error.
    pub open spec fn if_run(self, base: int, n: nat, fuel: nat, later: Lisp, r: Object) -> bool
        decreases fuel, 11nat, n + 1,
    {
        if n < 2 {
            self.bad_args_raised(later, n as usize, 2, None, r)
        } else {
            exists|s1: Lisp, p: Object|
                #![trigger stage(s1, p)]
                stage(s1, p) && self.evals(self.arg(base, n as int, 0), fuel, s1, p) && (
                if p.spec_what_type() == RlispType::Error {
                    later == s1 && r == p
                } else if p.spec_truthy() {
                    s1.evals(s1.arg(base, n as int, 1), fuel, later, r)
                } else {
                    s1.seq_run(base, n, 2, Object::spec_nil(), fuel, later, r)
                })
        }
    }

    /// `(cond (test value)...)`, from clause `i` on: the test of the clause
    /// is evaluated; an error is the value; where it is true the value is
    /// that of the clause's value; else the next clause is tried. The value
    /// is `nil` where no clause is left. A clause that is no list of a test
    /// and a value gives the error that says so.
    pub open spec fn cond_run(
        self,
        base: int,
        n: nat,
        i: nat,
        fuel: nat,
        later: Lisp,
        r: Object,
    ) -> bool
        decreases fuel, 11nat, n - i,
    {
        if i >= n {
            later == self && r == Object::spec_nil()
        } else {
            let clause = self.arg(base, n as int, i as int);
            match self.heap.spec_cell(clause) {
                None => self.wrong_type_raised(later, RlispType::Cons, clause.spec_what_type(), r),
                Some(cell) => exists|s1: Lisp, t: Object|
                    #![trigger stage(s1, t)]
                    stage(s1, t) && self.evals(cell.car, fuel, s1, t) && (if t.spec_what_type()
                        == RlispType::Error {
                        later == s1 && r == t
                    } else if t.spec_truthy() {
                        s1.clause_run(s1.arg(base, n as int, i as int), fuel, later, r)
                    } else {
                        s1.cond_run(base, n, i + 1, fuel, later, r)
                    }),
            }
        }
    }

    /// The value of the clause `clause` of a `cond` whose test was true, or
    /// of a handler of `catch-error` that was chosen: that of its second
    /// element; a clause without one gives the error that says so.
    pub open spec fn clause_run(self, clause: Object, fuel: nat, later: Lisp, r: Object) -> bool
        decreases fuel, 10nat, 0nat,
    {
        match self.heap.spec_cell(clause) {
            None => self.wrong_type_raised(later, RlispType::Cons, clause.spec_what_type(), r),
            Some(cell) => match self.heap.spec_cell(cell.cdr) {
                None => self.wrong_type_raised(
                    later,
                    RlispType::Cons,
                    cell.cdr.spec_what_type(),
                    r,
                ),
                Some(rest) => self.evals(rest.car, fuel, later, r),
            },
        }
    }

    /// `(setq symbol value...)`, from argument `i` on: the value of the next
    /// pair is evaluated; an error is the value of the form; else the symbol
    /// is bound to it as `set_symbol` does, and the next pair follows. The
    /// value is the last one bound, `res` so far. A name that is no symbol
    /// gives the error that says so.
    pub open spec fn setq_run(
        self,
        base: int,
        n: nat,
        i: nat,
        res: Object,
        fuel: nat,
        later: Lisp,
        r: Object,
    ) -> bool
        decreases fuel, 11nat, n - i,
    {
        if i + 1 >= n {
            later == self && r == res
        } else {
            let sym = self.arg(base, n as int, i as int);
            if sym.spec_what_type() != RlispType::Sym {
                self.wrong_type_raised(later, RlispType::Sym, sym.spec_what_type(), r)
            } else {
                exists|s1: Lisp, v: Object|
                    #![trigger stage(s1, v)]
                    stage(s1, v) && self.evals(self.arg(base, n as int, (i + 1) as int), fuel, s1, v) && (
                    if v.spec_what_type() == RlispType::Error {
                        later == s1 && r == v
                    } else {
                        exists|s2: Lisp|
                            #![trigger s1.bound(s2, sym.spec_index() as u64, v)]
                            s1.bound(s2, sym.spec_index() as u64, v) && s2.setq_run(
                                base,
                                n,
                                i + 2,
                                v,
                                fuel,
                                later,
                                r,
                            )
                    })
            }
        }
    }

    /// `(defvar name value)`: the value is evaluated; an error is the value
    /// of the form; else the symbol `name` is bound to it as `set_symbol`
    /// does, and it is the value. Another number of arguments than two is an
    /// error, and so is a name that is no symbol.
    pub open spec fn defvar_run(self, base: int, n: nat, fuel: nat, later: Lisp, r: Object) -> bool
        decreases fuel, 11nat, 0nat,
    {
        if n != 2 {
            self.bad_args_raised(later, n as usize, 2, Some(2), r)
        } else {
            let name = self.arg(base, 2, 0);
            if name.spec_what_type() != RlispType::Sym {
                self.wrong_type_raised(later, RlispType::Sym, name.spec_what_type(), r)
            } else {
                exists|s1: Lisp|
                    #![trigger stage(s1, r)]
                    stage(s1, r) && self.evals(self.arg(base, 2, 1), fuel, s1, r) && (
                    if r.spec_what_type() == RlispType::Error {
                        later == s1
                    } else {
                        s1.bound(later, name.spec_index() as u64, r)
                    })
            }
        }
    }

    /// What `make_closure` does: `r` is, in `later`, a new function of the
    /// language with the given parts that captures the frames that are
    /// active; or the full-heap error, and nothing has changed.
    pub open spec fn closure_made(
        self,
        later: Lisp,
        name: Option<Object>,
        arglist: Object,
        body: Seq<Object>,
        r: Object,
    ) -> bool {
        &&& self.heap_grew_to(later)
        &&& if self.heap.full() {
            r == Heap::spec_out_of_memory() && later == self
        } else {
            &&& Lisp::is_closure(later.heap, r, name, arglist, body, self.symbols@)
            &&& r.spec_index() == self.heap.next_index()
            &&& forall|j: int| j != r.spec_index() ==> #[trigger] later.heap.at(j) == self.heap.at(j)
        }
    }

    /// The arguments from argument `from` on, as they stand.
    pub open spec fn args_after(self, base: int, n: int, from: int) -> Seq<Object> {
        Seq::new((n - from) as nat, |i: int| self.arg(base, n, from + i))
    }

    /// `(defun name arglist body...)`: the function is made, and the symbol
    /// `name` is bound to it as `set_symbol` does; it is the value. Fewer
    /// than two arguments are an error, and so is a name that is no symbol.
    pub open spec fn defun_run(self, base: int, n: nat, later: Lisp, r: Object) -> bool {
        if n < 2 {
            self.bad_args_raised(later, n as usize, 2, None, r)
        } else {
            let name = self.arg(base, n as int, 0);
            if name.spec_what_type() != RlispType::Sym {
                self.wrong_type_raised(later, RlispType::Sym, name.spec_what_type(), r)
            } else {
                exists|s1: Lisp|
                    #![trigger stage(s1, r)]
                    stage(s1, r) && self.closure_made(
                        s1,
                        Some(name),
                        self.arg(base, n as int, 1),
                        self.args_after(base, n as int, 2),
                        r,
                    ) && (if r.spec_what_type() == RlispType::Error {
                        later == s1
                    } else {
                        s1.bound(later, name.spec_index() as u64, r)
                    })
            }
        }
    }

    /// `(lambda arglist body...)`: the function, without a name. No argument
    /// is an error, and so is a parameter list that is neither `nil` nor a
    /// cons.
    pub open spec fn lambda_run(self, base: int, n: nat, later: Lisp, r: Object) -> bool {
        if n < 1 {
            self.bad_args_raised(later, n as usize, 1, None, r)
        } else {
            let arglist = self.arg(base, n as int, 0);
            if arglist != Object::spec_nil() && arglist.spec_what_type() != RlispType::Cons {
                self.wrong_type_raised(later, RlispType::Cons, arglist.spec_what_type(), r)
            } else {
                self.closure_made(later, None, arglist, self.args_after(base, n as int, 1), r)
            }
        }
    }

    /// `r` is, in `later`, a new empty namespace with the name `name`, if
    /// there is one; or the full-heap error, and nothing has changed.
    pub open spec fn namespace_made(self, later: Lisp, name: Option<Object>, r: Object) -> bool {
        &&& self.heap_grew_to(later)
        &&& if self.heap.full() {
            r == Heap::spec_out_of_memory() && later == self
        } else {
            &&& r.spec_what_type() == RlispType::Namespace
            &&& r.spec_index() == self.heap.next_index()
            &&& match later.heap.at(r.spec_index()) {
                Slot::Namespace(t) => t.bindings() == Map::<u64, Object>::empty() && t.name
                    == name && t.gc_marking == 0,
                _ => false,
            }
            &&& forall|j: int| j != r.spec_index() ==> #[trigger] later.heap.at(j) == self.heap.at(j)
        }
    }

    /// `(make-namespace name)`: a new empty namespace, with the name `name`
    /// if one is given; a name that is a symbol is bound to it as
    /// `set_symbol` does. More than one argument is an error.
    pub open spec fn make_namespace_run(self, base: int, n: nat, later: Lisp, r: Object) -> bool {
        if n > 1 {
            self.bad_args_raised(later, n as usize, 0, Some(1), r)
        } else {
            let name = if n == 1 {
                Some(self.arg(base, 1, 0))
            } else {
                None
            };
            exists|s1: Lisp|
                #![trigger stage(s1, r)]
                stage(s1, r) && self.namespace_made(s1, name, r) && (match name {
                    Some(sym) => if r.spec_what_type() != RlispType::Error && sym.spec_what_type()
                        == RlispType::Sym {
                        s1.bound(later, sym.spec_index() as u64, r)
                    } else {
                        later == s1
                    },
                    None => later == s1,
                })
        }
    }

    /// What the namespace `ns` binds the symbol `sym` to.
    pub open spec fn binding_in(self, ns: Object, sym: Object) -> Option<Object> {
        match self.heap.at(ns.spec_index()) {
            Slot::Namespace(t) => if t.bindings().contains_key(sym.spec_index() as u64) {
                Some(t.bindings()[sym.spec_index() as u64])
            } else {
                None
            },
            _ => None,
        }
    }

    /// `(get namespace symbol)`: `namespace` is evaluated; an error is the
    /// value; a value that is no namespace gives the error that says so; else
    /// the value is what the namespace binds `symbol` to, or the error that
    /// says that it is unbound. Another number of arguments than two is an
    /// error, and so is a `symbol` that is none.
    pub open spec fn get_run(self, base: int, n: nat, fuel: nat, later: Lisp, r: Object) -> bool
        decreases fuel, 11nat, 0nat,
    {
        if n != 2 {
            self.bad_args_raised(later, n as usize, 2, Some(2), r)
        } else if self.arg(base, 2, 1).spec_what_type() != RlispType::Sym {
            self.wrong_type_raised(
                later,
                RlispType::Sym,
                self.arg(base, 2, 1).spec_what_type(),
                r,
            )
        } else {
            exists|s1: Lisp, ns: Object|
                #![trigger stage(s1, ns)]
                stage(s1, ns) && self.evals(self.arg(base, 2, 0), fuel, s1, ns) && (
                if ns.spec_what_type() == RlispType::Error {
                    later == s1 && r == ns
                } else if ns.spec_what_type() != RlispType::Namespace {
                    s1.wrong_type_raised(later, RlispType::Namespace, ns.spec_what_type(), r)
                } else {
                    match s1.binding_in(ns, s1.arg(base, 2, 1)) {
                        Some(v) => later == s1 && r == v,
                        None => s1.allocated(
                            later,
                            Slot::Error(
                                RlispError {
                                    gc_marking: 0,
                                    error: RlispErrorKind::UnboundSymbol {
                                        sym: s1.arg(base, 2, 1),
                                    },
                                },
                            ),
                            r,
                        ),
                    }
                })
        }
    }

    /// `later` is `self` with `sym` bound to `val` in the namespace `ns`,
    /// and `r` is what it was bound to there before, or `nil`.
    pub open spec fn inserted(
        self,
        later: Lisp,
        ns: Object,
        sym: Object,
        val: Object,
        r: Object,
    ) -> bool {
        &&& later == (Lisp { heap: later.heap, ..self })
        &&& forall|j: int| j != ns.spec_index() ==> #[trigger] later.heap.at(j) == self.heap.at(j)
        &&& match (self.heap.at(ns.spec_index()), later.heap.at(ns.spec_index())) {
            (Slot::Namespace(a), Slot::Namespace(b)) => {
                &&& b.bindings() == a.bindings().insert(sym.spec_index() as u64, val)
                &&& b.name == a.name
                &&& b.gc_marking == a.gc_marking
            },
            _ => false,
        }
        &&& r == (match self.binding_in(ns, sym) {
            Some(v) => v,
            None => Object::spec_nil(),
        })
    }

    /// `(set namespace symbol value)`: `namespace` is evaluated, and then
    /// `value`, while the namespace stands on the stack; an error is the
    /// value; else `symbol` is bound to the value in the namespace, and the
    /// value of the form is what it was bound to there before, or `nil`.
    pub open spec fn set_run(self, base: int, n: nat, fuel: nat, later: Lisp, r: Object) -> bool
        decreases fuel, 11nat, 0nat,
    {
        if n != 3 {
            self.bad_args_raised(later, n as usize, 3, Some(3), r)
        } else if self.arg(base, 3, 1).spec_what_type() != RlispType::Sym {
            self.wrong_type_raised(
                later,
                RlispType::Sym,
                self.arg(base, 3, 1).spec_what_type(),
                r,
            )
        } else {
            exists|s1: Lisp, ns: Object|
                #![trigger stage(s1, ns)]
                stage(s1, ns) && self.evals(self.arg(base, 3, 0), fuel, s1, ns) && (
                if ns.spec_what_type() == RlispType::Error {
                    later == s1 && r == ns
                } else if ns.spec_what_type() != RlispType::Namespace {
                    s1.wrong_type_raised(later, RlispType::Namespace, ns.spec_what_type(), r)
                } else {
                    exists|s2: Lisp, s3: Lisp, s4: Lisp, v: Object|
                        #![trigger stages(s2, s3), stage(s4, v)]
                        {
                            &&& stages(s2, s3)
                            &&& stage(s4, v)
                            &&& s1.pushed_to(s2, ns)
                            &&& s2.evals(s2.arg(base, 3, 2), fuel, s3, v)
                            &&& s3.cut_to(s4, base + 3)
                            &&& if v.spec_what_type() == RlispType::Error {
                                later == s4 && r == v
                            } else {
                                s4.inserted(later, ns, s4.arg(base, 3, 1), v, r)
                            }
                        }
                })
        }
    }

    /// What `error_name` does: `e` is the symbol under which a handler
    /// catches an error of the kind `kind`.
    pub open spec fn error_named(self, later: Lisp, kind: RlispErrorKind, e: Object) -> bool {
        match kind {
            RlispErrorKind::Custom { kind: own, info } => e == own && later == self,
            _ => self.interned(later, crate::symbols_table::spec_error_name(kind), e),
        }
    }

    /// The kind of the error that `res` names.
    pub open spec fn error_kind(self, res: Object) -> RlispErrorKind {
        match self.heap.at(res.spec_index()) {
            Slot::Error(e) => e.error,
            _ => RlispErrorKind::ImproperList,
        }
    }

    /// The handler among the arguments from argument `i` on that catches an
    /// error under the name `e`: the first whose head is `e` or `t`. `Err`
    /// holds an argument that is no cons and comes before any such handler.
    pub open spec fn chosen_handler(self, base: int, n: nat, i: nat, e: Object) -> Option<
        Result<Object, Object>,
    >
        decreases n - i,
    {
        if i >= n {
            None
        } else {
            let handler = self.arg(base, n as int, i as int);
            match self.heap.spec_cell(handler) {
                None => Some(Err(handler)),
                Some(cell) => if cell.car == e || cell.car == Object::spec_t() {
                    Some(Ok(handler))
                } else {
                    self.chosen_handler(base, n, i + 1, e)
                },
            }
        }
    }

    /// `(catch-error statement (kind handler)...)`: the statement is
    /// evaluated; a value that is no error is the value. For an error the
    /// symbol that names its kind is found, and the handler is chosen as
    /// `chosen_handler` says: its value is the value; where there is none,
    /// the error is the value. No argument is an error.
    pub open spec fn catch_error_run(
        self,
        base: int,
        n: nat,
        fuel: nat,
        later: Lisp,
        r: Object,
    ) -> bool
        decreases fuel, 11nat, 0nat,
    {
        if n < 1 {
            self.bad_args_raised(later, n as usize, 1, None, r)
        } else {
            exists|s1: Lisp, res: Object|
                #![trigger stage(s1, res)]
                stage(s1, res) && self.evals(self.arg(base, n as int, 0), fuel, s1, res) && (
                if res.spec_what_type() != RlispType::Error {
                    later == s1 && r == res
                } else {
                    exists|s2: Lisp, e: Object|
                        #![trigger stage(s2, e)]
                        stage(s2, e) && s1.error_named(s2, s1.error_kind(res), e) && (
                        match s2.chosen_handler(base, n, 1, e) {
                            None => later == s2 && r == res,
                            Some(Err(bad)) => s2.wrong_type_raised(
                                later,
                                RlispType::Cons,
                                bad.spec_what_type(),
                                r,
                            ),
                            Some(Ok(handler)) => s2.clause_run(handler, fuel, later, r),
                        })
                })
        }
    }

    /// `(check-type value type...)`, from argument `i` on: the next value is
    /// evaluated; an error is the value of the form; a value that is not of
    /// the type that the symbol after it designates gives the error that
    /// says so; a symbol that designates no type gives the error that says
    /// so; else the next pair follows. The value is the last one checked,
    /// `res` so far. A designator that is no symbol gives an error.
    pub open spec fn check_type_run(
        self,
        base: int,
        n: nat,
        i: nat,
        res: Object,
        fuel: nat,
        later: Lisp,
        r: Object,
    ) -> bool
        decreases fuel, 11nat, n - i,
    {
        if i + 1 >= n {
            later == self && r == res
        } else {
            let designator = self.arg(base, n as int, (i + 1) as int);
            if designator.spec_what_type() != RlispType::Sym {
                self.wrong_type_raised(later, RlispType::Sym, designator.spec_what_type(), r)
            } else {
                exists|s1: Lisp, v: Object|
                    #![trigger stage(s1, v)]
                    stage(s1, v) && self.evals(self.arg(base, n as int, i as int), fuel, s1, v)
                        && (if v.spec_what_type() == RlispType::Error {
                        later == s1 && r == v
                    } else {
                        let d = s1.arg(base, n as int, (i + 1) as int);
                        match crate::symbols_table::spec_type_from_name(
                            s1.symbol_name(d.spec_index()),
                        ) {
                            Some(typ) => if typ.spec_admits(v.spec_what_type()) {
                                s1.check_type_run(base, n, i + 2, v, fuel, later, r)
                            } else {
                                s1.wrong_type_raised(later, typ, v.spec_what_type(), r)
                            },
                            None => s1.allocated(
                                later,
                                Slot::Error(
                                    RlispError {
                                        gc_marking: 0,
                                        error: RlispErrorKind::NotAType { found: d },
                                    },
                                ),
                                r,
                            ),
                        }
                    })
            }
        }
    }

    /// The first fault among the bindings `pairs` of a `let`, from binding
    /// `j` on, as the type that was wanted and the type that was found: a
    /// binding is a cons that holds a symbol and then a cons that holds the
    /// expression for the value.
    pub open spec fn binding_fault(heap: Heap, pairs: Seq<Object>, j: nat) -> Option<
        (RlispType, RlispType),
    >
        decreases pairs.len() - j,
    {
        if j >= pairs.len() {
            None
        } else {
            match heap.spec_cell(pairs[j as int]) {
                None => Some((RlispType::Cons, pairs[j as int].spec_what_type())),
                Some(cell) => if cell.car.spec_what_type() != RlispType::Sym {
                    Some((RlispType::Sym, cell.car.spec_what_type()))
                } else {
                    match heap.spec_cell(cell.cdr) {
                        None => Some((RlispType::Cons, cell.cdr.spec_what_type())),
                        Some(rest) => Lisp::binding_fault(heap, pairs, j + 1),
                    }
                },
            }
        }
    }

    /// The symbol of the binding `pair`.
    pub open spec fn binding_symbol(heap: Heap, pair: Object) -> Object {
        match heap.spec_cell(pair) {
            Some(cell) => cell.car,
            None => Object::spec_nil(),
        }
    }

    /// The expression for the value of the binding `pair`.
    pub open spec fn binding_form(heap: Heap, pair: Object) -> Object {
        match heap.spec_cell(pair) {
            Some(cell) => match heap.spec_cell(cell.cdr) {
                Some(rest) => rest.car,
                None => Object::spec_nil(),
            },
            None => Object::spec_nil(),
        }
    }

    /// What the bindings `pairs` put on the stack: for each, from the first
    /// on, its symbol and above it the expression for its value.
    pub open spec fn laid_out(heap: Heap, pairs: Seq<Object>) -> Seq<Object> {
        Seq::new(
            2 * pairs.len(),
            |q: int|
                if q % 2 == 0 {
                    Lisp::binding_symbol(heap, pairs[q / 2])
                } else {
                    Lisp::binding_form(heap, pairs[q / 2])
                },
        )
    }

    /// `later` is `self` with `objs` on top of the stack, the last one
    /// topmost.
    pub open spec fn laid_to(self, later: Lisp, objs: Seq<Object>) -> bool {
        &&& later == (Lisp { stack: later.stack, ..self })
        &&& later.stack@ == self.stack@ + objs
    }

    /// The expressions of `count` bindings that lie on the stack from entry
    /// `top` on, as `laid_out` says, are evaluated where they stand, from
    /// binding `j` on, each value taking the place of its expression. The
    /// first value that is an error ends this: `failed` holds it. `failed`
    /// is `None` where every one was evaluated and none is an error.
    pub open spec fn values_run(
        self,
        top: int,
        count: nat,
        j: nat,
        fuel: nat,
        later: Lisp,
        failed: Option<Object>,
    ) -> bool
        decreases fuel, 10nat, count - j,
    {
        if j >= count {
            later == self && failed is None
        } else {
            let pos = top + 2 * j + 1;
            exists|s1: Lisp, v: Object|
                #![trigger stage(s1, v)]
                stage(s1, v) && self.evals(self.stack@[pos], fuel, s1, v) && (if v.spec_what_type()
                    == RlispType::Error {
                    later == s1 && failed == Some(v)
                } else {
                    exists|s2: Lisp|
                        #![trigger s1.put_to(s2, pos, v)]
                        s1.put_to(s2, pos, v) && s2.values_run(
                            top,
                            count,
                            j + 1,
                            fuel,
                            later,
                            failed,
                        )
                })
        }
    }

    /// The bindings that lie on the stack from entry `top` on: for each, the
    /// slot of its symbol and its value.
    pub open spec fn frame_of(stack: Seq<Object>, top: int, count: nat) -> Seq<(u64, Object)> {
        Seq::new(
            count,
            |q: int| (stack[top + 2 * q].spec_index() as u64, stack[top + 2 * q + 1]),
        )
    }

    /// What `new_scope` does: `later` is `self` with a new innermost frame
    /// that binds each key of `frame` to its value, of two pairs with one key
    /// to the later one; or `self`, where the heap has no slot left for the
    /// frame.
    pub open spec fn scope_entered(self, later: Lisp, frame: Seq<(u64, Object)>) -> bool {
        if self.heap.full() {
            later == self
        } else {
            let i = self.heap.next_index();
            &&& later == (Lisp { heap: later.heap, symbols: later.symbols, ..self })
            &&& later.symbols@ == self.symbols@.push(i as u64)
            &&& forall|j: int| j != i ==> #[trigger] later.heap.at(j) == self.heap.at(j)
            &&& match later.heap.at(i) {
                Slot::Namespace(t) => t.bindings() == crate::symbols_table::pairs_to_map(frame)
                    && t.name is None && t.gc_marking == 0,
                _ => false,
            }
        }
    }

    /// `(let ((symbol value)...) body...)`: the bindings are laid out on the
    /// stack and their values evaluated, from the first on; the stack is cut
    /// down again; an error among the values is the value of the form. Else
    /// a new innermost frame binds each symbol to its value, the expressions
    /// of the body are evaluated there as `seq_run` says, and the frame is
    /// taken off again, also where the body gave an error. Other errors: no
    /// argument; bindings that are no proper list; a binding that is not as
    /// `binding_fault` wants it; no slot left for the frame. With any of
    /// these nothing is evaluated.
    pub open spec fn let_run(self, base: int, n: nat, fuel: nat, later: Lisp, r: Object) -> bool
        decreases fuel, 11nat, n + 2,
    {
        if n < 1 {
            self.bad_args_raised(later, n as usize, 1, None, r)
        } else {
            let (pairs, end) = self.heap.list_view(self.arg(base, n as int, 0));
            if end != Object::spec_nil() {
                self.host_error_raised(later, ErrorKind::ImproperList, r)
            } else {
                match Lisp::binding_fault(self.heap, pairs, 0) {
                    Some((wanted, found)) => self.wrong_type_raised(later, wanted, found, r),
                    None => exists|s1: Lisp, s2: Lisp, s3: Lisp, failed: Option<Object>|
                        #![trigger stages(s1, s2), stage_failed(s3, failed)]
                        {
                            &&& stages(s1, s2)
                            &&& stage_failed(s3, failed)
                            &&& self.laid_to(s1, Lisp::laid_out(self.heap, pairs))
                            &&& s1.values_run(base + n, pairs.len(), 0, fuel, s2, failed)
                            &&& s2.cut_to(s3, base + n)
                            &&& match failed {
                                Some(e) => later == s3 && r == e,
                                None => s3.let_body_run(
                                    base,
                                    n,
                                    Lisp::frame_of(s2.stack@, base + n, pairs.len()),
                                    fuel,
                                    later,
                                    r,
                                ),
                            }
                        },
                }
            }
        }
    }

    /// The body of a `let` whose bindings are `frame`: the frame is entered
    /// as `scope_entered` says, the expressions from the second argument on
    /// are evaluated as `seq_run` says, and the frame is taken off. Where no
    /// slot is left for the frame, the value is the full-heap error.
    pub open spec fn let_body_run(
        self,
        base: int,
        n: nat,
        frame: Seq<(u64, Object)>,
        fuel: nat,
        later: Lisp,
        r: Object,
    ) -> bool
        decreases fuel, 11nat, n + 1,
    {
        if self.heap.full() {
            later == self && r == Heap::spec_out_of_memory()
        } else {
            exists|s4: Lisp, s5: Lisp|
                #![trigger stages(s4, s5)]
                {
                    &&& stages(s4, s5)
                    &&& self.scope_entered(s4, frame)
                    &&& n >= 1
                    &&& s4.seq_run(base, n, 1, Object::spec_nil(), fuel, s5, r)
                    &&& s5.scope_popped_to(later)
                }
        }
    }

    /// With no binding left to evaluate, nothing happens.
    pub proof fn lemma_values_run_all(self, top: int, count: nat, j: nat, fuel: nat)
        requires
            j >= count,
        ensures
            self.values_run(top, count, j, fuel, self, None),
    {
    }

    /// A binding whose value is an error ends the evaluation of the
    /// bindings.
    pub proof fn lemma_values_run_failed(
        self,
        top: int,
        count: nat,
        j: nat,
        fuel: nat,
        s1: Lisp,
        v: Object,
    )
        requires
            j < count,
            self.evals(self.stack@[top + 2 * j + 1], fuel, s1, v),
            v.spec_what_type() == RlispType::Error,
        ensures
            self.values_run(top, count, j, fuel, s1, Some(v)),
    {
        assert(stage(s1, v));
    }

    /// A binding whose value is no error gives the place of its expression
    /// to the value, and the evaluation goes on with the next one.
    pub proof fn lemma_values_run_next(
        self,
        top: int,
        count: nat,
        j: nat,
        fuel: nat,
        s1: Lisp,
        v: Object,
        s2: Lisp,
        later: Lisp,
        failed: Option<Object>,
    )
        requires
            j < count,
            self.evals(self.stack@[top + 2 * j + 1], fuel, s1, v),
            v.spec_what_type() != RlispType::Error,
            s1.put_to(s2, top + 2 * j + 1, v),
            s2.values_run(top, count, j + 1, fuel, later, failed),
        ensures
            self.values_run(top, count, j, fuel, later, failed),
    {
        assert(stage(s1, v));
    }

    /// What the body of a `let` does once its frame is entered.
    pub proof fn lemma_let_body_run(
        self,
        base: int,
        n: nat,
        frame: Seq<(u64, Object)>,
        fuel: nat,
        s4: Lisp,
        s5: Lisp,
        later: Lisp,
        r: Object,
    )
        requires
            n >= 1,
            !self.heap.full(),
            self.scope_entered(s4, frame),
            s4.seq_run(base, n, 1, Object::spec_nil(), fuel, s5, r),
            s5.scope_popped_to(later),
        ensures
            self.let_body_run(base, n, frame, fuel, later, r),
    {
        assert(stages(s4, s5));
    }

    /// What `let` does once its bindings are laid out and evaluated.
    pub proof fn lemma_let_run(
        self,
        base: int,
        n: nat,
        fuel: nat,
        s1: Lisp,
        s2: Lisp,
        s3: Lisp,
        failed: Option<Object>,
        later: Lisp,
        r: Object,
    )
        requires
            n >= 1,
            self.heap.list_view(self.arg(base, n as int, 0)).1 == Object::spec_nil(),
            Lisp::binding_fault(
                self.heap,
                self.heap.list_view(self.arg(base, n as int, 0)).0,
                0,
            ) is None,
            self.laid_to(
                s1,
                Lisp::laid_out(self.heap, self.heap.list_view(self.arg(base, n as int, 0)).0),
            ),
            s1.values_run(
                base + n,
                self.heap.list_view(self.arg(base, n as int, 0)).0.len(),
                0,
                fuel,
                s2,
                failed,
            ),
            s2.cut_to(s3, base + n),
            match failed {
                Some(e) => later == s3 && r == e,
                None => s3.let_body_run(
                    base,
                    n,
                    Lisp::frame_of(
                        s2.stack@,
                        base + n,
                        self.heap.list_view(self.arg(base, n as int, 0)).0.len(),
                    ),
                    fuel,
                    later,
                    r,
                ),
            },
        ensures
            self.let_run(base, n, fuel, later, r),
    {
        assert(stages(s1, s2));
        assert(stage_failed(s3, failed));
    }

    /// What `defun` does once the function is made.
    pub proof fn lemma_defun_run(self, base: int, n: nat, s1: Lisp, later: Lisp, r: Object)
        requires
            n >= 2,
            self.arg(base, n as int, 0).spec_what_type() == RlispType::Sym,
            self.closure_made(
                s1,
                Some(self.arg(base, n as int, 0)),
                self.arg(base, n as int, 1),
                self.args_after(base, n as int, 2),
                r,
            ),
            if r.spec_what_type() == RlispType::Error {
                later == s1
            } else {
                s1.bound(later, self.arg(base, n as int, 0).spec_index() as u64, r)
            },
        ensures
            self.defun_run(base, n, later, r),
    {
        assert(stage(s1, r));
    }

    /// What `make-namespace` does once the namespace is made.
    pub proof fn lemma_make_namespace_run(
        self,
        base: int,
        n: nat,
        s1: Lisp,
        later: Lisp,
        r: Object,
    )
        requires
            n <= 1,
            self.namespace_made(
                s1,
                if n == 1 {
                    Some(self.arg(base, 1, 0))
                } else {
                    None
                },
                r,
            ),
            n == 1 && r.spec_what_type() != RlispType::Error && self.arg(
                base,
                1,
                0,
            ).spec_what_type() == RlispType::Sym ==> s1.bound(
                later,
                self.arg(base, 1, 0).spec_index() as u64,
                r,
            ),
            !(n == 1 && r.spec_what_type() != RlispType::Error && self.arg(
                base,
                1,
                0,
            ).spec_what_type() == RlispType::Sym) ==> later == s1,
        ensures
            self.make_namespace_run(base, n, later, r),
    {
        assert(stage(s1, r));
    }

    /// What `get` does once its namespace is evaluated.
    pub proof fn lemma_get_run(self, base: int, fuel: nat, s1: Lisp, ns: Object, later: Lisp, r: Object)
        requires
            self.arg(base, 2, 1).spec_what_type() == RlispType::Sym,
            self.evals(self.arg(base, 2, 0), fuel, s1, ns),
            if ns.spec_what_type() == RlispType::Error {
                later == s1 && r == ns
            } else if ns.spec_what_type() != RlispType::Namespace {
                s1.wrong_type_raised(later, RlispType::Namespace, ns.spec_what_type(), r)
            } else {
                match s1.binding_in(ns, s1.arg(base, 2, 1)) {
                    Some(v) => later == s1 && r == v,
                    None => s1.allocated(
                        later,
                        Slot::Error(
                            RlispError {
                                gc_marking: 0,
                                error: RlispErrorKind::UnboundSymbol { sym: s1.arg(base, 2, 1) },
                            },
                        ),
                        r,
                    ),
                }
            },
        ensures
            self.get_run(base, 2, fuel, later, r),
    {
        assert(stage(s1, ns));
    }

    /// What `set` does where its namespace is an error or no namespace.
    pub proof fn lemma_set_run_refused(
        self,
        base: int,
        fuel: nat,
        s1: Lisp,
        ns: Object,
        later: Lisp,
        r: Object,
    )
        requires
            self.arg(base, 3, 1).spec_what_type() == RlispType::Sym,
            self.evals(self.arg(base, 3, 0), fuel, s1, ns),
            ns.spec_what_type() != RlispType::Namespace,
            if ns.spec_what_type() == RlispType::Error {
                later == s1 && r == ns
            } else {
                s1.wrong_type_raised(later, RlispType::Namespace, ns.spec_what_type(), r)
            },
        ensures
            self.set_run(base, 3, fuel, later, r),
    {
        assert(stage(s1, ns));
    }

    /// What `set` does once its namespace and its value are evaluated.
    pub proof fn lemma_set_run(
        self,
        base: int,
        fuel: nat,
        s1: Lisp,
        ns: Object,
        s2: Lisp,
        s3: Lisp,
        s4: Lisp,
        v: Object,
        later: Lisp,
        r: Object,
    )
        requires
            self.arg(base, 3, 1).spec_what_type() == RlispType::Sym,
            self.evals(self.arg(base, 3, 0), fuel, s1, ns),
            ns.spec_what_type() == RlispType::Namespace,
            s1.pushed_to(s2, ns),
            s2.evals(s2.arg(base, 3, 2), fuel, s3, v),
            s3.cut_to(s4, base + 3),
            if v.spec_what_type() == RlispType::Error {
                later == s4 && r == v
            } else {
                s4.inserted(later, ns, s4.arg(base, 3, 1), v, r)
            },
        ensures
            self.set_run(base, 3, fuel, later, r),
    {
        assert(stage(s1, ns));
        assert(stages(s2, s3));
        assert(stage(s4, v));
    }

    /// What `catch-error` does where the statement gives no error.
    pub proof fn lemma_catch_error_run_passed(
        self,
        base: int,
        n: nat,
        fuel: nat,
        s1: Lisp,
        res: Object,
    )
        requires
            n >= 1,
            self.evals(self.arg(base, n as int, 0), fuel, s1, res),
            res.spec_what_type() != RlispType::Error,
        ensures
            self.catch_error_run(base, n, fuel, s1, res),
    {
        assert(stage(s1, res));
    }

    /// What `catch-error` does with an error.
    pub proof fn lemma_catch_error_run_caught(
        self,
        base: int,
        n: nat,
        fuel: nat,
        s1: Lisp,
        res: Object,
        s2: Lisp,
        e: Object,
        later: Lisp,
        r: Object,
    )
        requires
            n >= 1,
            self.evals(self.arg(base, n as int, 0), fuel, s1, res),
            res.spec_what_type() == RlispType::Error,
            s1.error_named(s2, s1.error_kind(res), e),
            match s2.chosen_handler(base, n, 1, e) {
                None => later == s2 && r == res,
                Some(Err(bad)) => s2.wrong_type_raised(
                    later,
                    RlispType::Cons,
                    bad.spec_what_type(),
                    r,
                ),
                Some(Ok(handler)) => s2.clause_run(handler, fuel, later, r),
            },
        ensures
            self.catch_error_run(base, n, fuel, later, r),
    {
        assert(stage(s1, res));
        assert(stage(s2, e));
    }

    /// With no pair left, `check-type` gives the value so far.
    pub proof fn lemma_check_type_run_out(self, base: int, n: nat, i: nat, res: Object, fuel: nat)
        requires
            i + 1 >= n,
        ensures
            self.check_type_run(base, n, i, res, fuel, self, res),
    {
    }

    /// A designator that is no symbol gives the error that says so.
    pub proof fn lemma_check_type_run_no_symbol(
        self,
        base: int,
        n: nat,
        i: nat,
        res: Object,
        fuel: nat,
        later: Lisp,
        r: Object,
    )
        requires
            i + 1 < n,
            self.arg(base, n as int, (i + 1) as int).spec_what_type() != RlispType::Sym,
            self.wrong_type_raised(
                later,
                RlispType::Sym,
                self.arg(base, n as int, (i + 1) as int).spec_what_type(),
                r,
            ),
        ensures
            self.check_type_run(base, n, i, res, fuel, later, r),
    {
    }

    /// What `check-type` does at argument `i` once the value is `v`.
    pub proof fn lemma_check_type_run_valued(
        self,
        base: int,
        n: nat,
        i: nat,
        res: Object,
        fuel: nat,
        s1: Lisp,
        v: Object,
        later: Lisp,
        r: Object,
    )
        requires
            i + 1 < n,
            self.arg(base, n as int, (i + 1) as int).spec_what_type() == RlispType::Sym,
            self.evals(self.arg(base, n as int, i as int), fuel, s1, v),
            if v.spec_what_type() == RlispType::Error {
                later == s1 && r == v
            } else {
                let d = s1.arg(base, n as int, (i + 1) as int);
                match crate::symbols_table::spec_type_from_name(s1.symbol_name(d.spec_index())) {
                    Some(typ) => if typ.spec_admits(v.spec_what_type()) {
                        s1.check_type_run(base, n, i + 2, v, fuel, later, r)
                    } else {
                        s1.wrong_type_raised(later, typ, v.spec_what_type(), r)
                    },
                    None => s1.allocated(
                        later,
                        Slot::Error(
                            RlispError {
                                gc_marking: 0,
                                error: RlispErrorKind::NotAType { found: d },
                            },
                        ),
                        r,
                    ),
                }
            },
        ensures
            self.check_type_run(base, n, i, res, fuel, later, r),
    {
        assert(stage(s1, v));
    }

    /// With no argument left, the value so far is the value.
    pub proof fn lemma_seq_run_out(self, base: int, n: nat, i: nat, ret: Object, fuel: nat)
        requires
            i >= n,
        ensures
            self.seq_run(base, n, i, ret, fuel, self, ret),
    {
    }

    /// An argument whose value is an error ends the sequence.
    pub proof fn lemma_seq_run_failed(
        self,
        base: int,
        n: nat,
        i: nat,
        ret: Object,
        fuel: nat,
        s1: Lisp,
        v: Object,
    )
        requires
            i < n,
            self.evals(self.arg(base, n as int, i as int), fuel, s1, v),
            v.spec_what_type() == RlispType::Error,
        ensures
            self.seq_run(base, n, i, ret, fuel, s1, v),
    {
        assert(stage(s1, v));
    }

    /// An argument whose value is no error is followed by the next one.
    pub proof fn lemma_seq_run_next(
        self,
        base: int,
        n: nat,
        i: nat,
        ret: Object,
        fuel: nat,
        s1: Lisp,
        v: Object,
        later: Lisp,
        r: Object,
    )
        requires
            i < n,
            self.evals(self.arg(base, n as int, i as int), fuel, s1, v),
            v.spec_what_type() != RlispType::Error,
            s1.seq_run(base, n, i + 1, v, fuel, later, r),
        ensures
            self.seq_run(base, n, i, ret, fuel, later, r),
    {
        assert(stage(s1, v));
    }

    /// What `if` does once its predicate has the value `p`.
    pub proof fn lemma_if_run(
        self,
        base: int,
        n: nat,
        fuel: nat,
        s1: Lisp,
        p: Object,
        later: Lisp,
        r: Object,
    )
        requires
            n >= 2,
            self.evals(self.arg(base, n as int, 0), fuel, s1, p),
            if p.spec_what_type() == RlispType::Error {
                later == s1 && r == p
            } else if p.spec_truthy() {
                s1.evals(s1.arg(base, n as int, 1), fuel, later, r)
            } else {
                s1.seq_run(base, n, 2, Object::spec_nil(), fuel, later, r)
            },
        ensures
            self.if_run(base, n, fuel, later, r),
    {
        assert(stage(s1, p));
    }

    /// With no clause left, `cond` gives `nil`.
    pub proof fn lemma_cond_run_out(self, base: int, n: nat, i: nat, fuel: nat)
        requires
            i >= n,
        ensures
            self.cond_run(base, n, i, fuel, self, Object::spec_nil()),
    {
    }

    /// A clause of `cond` that is no cons gives the error that says so.
    pub proof fn lemma_cond_run_no_clause(
        self,
        base: int,
        n: nat,
        i: nat,
        fuel: nat,
        later: Lisp,
        r: Object,
    )
        requires
            i < n,
            self.heap.spec_cell(self.arg(base, n as int, i as int)) is None,
            self.wrong_type_raised(
                later,
                RlispType::Cons,
                self.arg(base, n as int, i as int).spec_what_type(),
                r,
            ),
        ensures
            self.cond_run(base, n, i, fuel, later, r),
    {
    }

    /// With no pair left, `setq` gives the value so far.
    pub proof fn lemma_setq_run_out(self, base: int, n: nat, i: nat, res: Object, fuel: nat)
        requires
            i + 1 >= n,
        ensures
            self.setq_run(base, n, i, res, fuel, self, res),
    {
    }

    /// A name of `setq` that is no symbol gives the error that says so.
    pub proof fn lemma_setq_run_no_symbol(
        self,
        base: int,
        n: nat,
        i: nat,
        res: Object,
        fuel: nat,
        later: Lisp,
        r: Object,
    )
        requires
            i + 1 < n,
            self.arg(base, n as int, i as int).spec_what_type() != RlispType::Sym,
            self.wrong_type_raised(
                later,
                RlispType::Sym,
                self.arg(base, n as int, i as int).spec_what_type(),
                r,
            ),
        ensures
            self.setq_run(base, n, i, res, fuel, later, r),
    {
    }

    /// What `cond` does at clause `i` once the test has the value `t`.
    pub proof fn lemma_cond_run_tested(
        self,
        base: int,
        n: nat,
        i: nat,
        fuel: nat,
        s1: Lisp,
        t: Object,
        later: Lisp,
        r: Object,
    )
        requires
            i < n,
            self.heap.spec_cell(self.arg(base, n as int, i as int)) matches Some(cell)
                && self.evals(cell.car, fuel, s1, t),
            if t.spec_what_type() == RlispType::Error {
                later == s1 && r == t
            } else if t.spec_truthy() {
                s1.clause_run(s1.arg(base, n as int, i as int), fuel, later, r)
            } else {
                s1.cond_run(base, n, i + 1, fuel, later, r)
            },
        ensures
            self.cond_run(base, n, i, fuel, later, r),
    {
        assert(stage(s1, t));
    }

    /// What `setq` does at argument `i` once the value of the pair is `v`.
    pub proof fn lemma_setq_run_valued(
        self,
        base: int,
        n: nat,
        i: nat,
        res: Object,
        fuel: nat,
        s1: Lisp,
        v: Object,
        s2: Lisp,
        later: Lisp,
        r: Object,
    )
        requires
            i + 1 < n,
            self.arg(base, n as int, i as int).spec_what_type() == RlispType::Sym,
            self.evals(self.arg(base, n as int, (i + 1) as int), fuel, s1, v),
            if v.spec_what_type() == RlispType::Error {
                later == s1 && r == v
            } else {
                s1.bound(s2, self.arg(base, n as int, i as int).spec_index() as u64, v)
                    && s2.setq_run(base, n, i + 2, v, fuel, later, r)
            },
        ensures
            self.setq_run(base, n, i, res, fuel, later, r),
    {
        assert(stage(s1, v));
    }

    /// What `defvar` does once its value is evaluated.
    pub proof fn lemma_defvar_run(self, base: int, fuel: nat, s1: Lisp, later: Lisp, r: Object)
        requires
            self.arg(base, 2, 0).spec_what_type() == RlispType::Sym,
            self.evals(self.arg(base, 2, 1), fuel, s1, r),
            if r.spec_what_type() == RlispType::Error {
                later == s1
            } else {
                s1.bound(later, self.arg(base, 2, 0).spec_index() as u64, r)
            },
        ensures
            self.defvar_run(base, 2, fuel, later, r),
    {
        assert(stage(s1, r));
    }

    /// What a call of a special form is made of.
    pub proof fn lemma_special_called(self, fuel: nat, s1: Lisp, s2: Lisp, later: Lisp, r: Object)
        requires
            self.cut_to(s1, self.stack@.len() - 1),
            s1.form_run(
                self.call_form(),
                self.stack@.len() - 1 - self.call_args(),
                self.call_args() as nat,
                fuel,
                s2,
                r,
            ),
            s2.cut_to(later, self.stack@.len() - 1 - self.call_args()),
        ensures
            self.special_called(fuel, later, r),
    {
        assert(stages(s1, s2));
    }
}

} // verus!
