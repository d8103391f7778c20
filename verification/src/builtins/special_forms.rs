//! The special forms: the constructs that decide themselves which of their
//! arguments are evaluated, and when.
//!
//! A special form finds its arguments on the stack as they were written,
//! the first one topmost, and leaves them there while it works: whatever it
//! evaluates in between, the arguments can be read again afterwards.

use super::RlispSpecialForm;
use crate::evaluator::copy_indices;
use crate::lisp::allocate::{Heap, Slot};
use crate::lisp::Lisp;
use crate::result::ErrorKind;
use crate::types::function::FunctionBody;
use crate::types::{FloatOps, Namespace, Object, ObjectTag, RlispError, RlispFunc, RlispType};
use vstd::prelude::*;

verus! {

impl RlispType {
    /// True iff a value of the dynamic type `of` counts as one of this type:
    /// its type is this one, or this one is `Number` and it is an integer or
    /// a double.
    pub open spec fn spec_admits(self, of: RlispType) -> bool {
        if self == RlispType::Number {
            of == RlispType::Integer || of == RlispType::Float
        } else {
            self == of
        }
    }

    /// True iff `obj` is of this type.
    pub fn check_type(self, obj: Object) -> (r: bool)
        ensures
            r == self.spec_admits(obj.spec_what_type()),
    {
        match self {
            RlispType::Number => obj.numberp(),
            _ => self == obj.what_type(),
        }
    }
}

impl Lisp {
    /// Argument `i` of the `n` arguments that lie on the stack above its
    /// lowest `base` entries, the first one topmost.
    pub fn arg_at(&self, base: usize, n: usize, i: usize) -> (r: Object)
        requires
            self.inv(),
            self.stack@.len() == base + n,
            i < n,
        ensures
            r == self.stack@[base + n - 1 - i],
            self.heap.valid(r),
    {
        let len: usize = self.stack.len();
        self.stack[len - 1 - i]
    }

    /// Calls the special form of the call that the stack ends in, on the
    /// arguments as they were written, and takes them and their number off
    /// the stack.
    pub fn call_special_form<H: FloatOps>(&mut self, host: &H, fuel: usize) -> (r: Object)
        requires
            old(self).inv(),
            old(self).call_ready(),
        ensures
            old(self).called_to(*final(self), old(self).call_args() + 1, r),
            old(self).special_called(fuel as nat, *final(self), r),
        decreases fuel, 7nat,
    {
        let count = self.pop();
        let ghost s1 = *self;
        let n: usize = count.int_value() as usize;
        let len: usize = self.stack.len();
        let base: usize = len - n;
        let func = self.stack[base - 1];
        let form = match &self.heap.function(func).body {
            FunctionBody::SpecialForm(f) => Some(*f),
            _ => None,
        };
        proof {
            self.heap.lemma_valid_reference(func);
            assert(old(self).call_form() == form);
            assert(old(self).stack@.drop_last() =~= old(self).stack@.take(
                old(self).stack@.len() - 1,
            ));
        }
        let r = match form {
            Some(RlispSpecialForm::Cond) => self.form_cond(host, base, n, fuel),
            Some(RlispSpecialForm::Let) => self.form_let(host, base, n, fuel),
            Some(RlispSpecialForm::Setq) => self.form_setq(host, base, n, fuel),
            Some(RlispSpecialForm::Quote) => self.form_quote(base, n),
            Some(RlispSpecialForm::If) => self.form_if(host, base, n, fuel),
            Some(RlispSpecialForm::Defun) => self.form_defun(base, n),
            Some(RlispSpecialForm::Defvar) => self.form_defvar(host, base, n, fuel),
            Some(RlispSpecialForm::CatchError) => self.form_catch_error(host, base, n, fuel),
            Some(RlispSpecialForm::Lambda) => self.form_lambda(base, n),
            Some(RlispSpecialForm::CheckType) => self.form_check_type(host, base, n, fuel),
            Some(RlispSpecialForm::NamespaceGet) => self.form_get(host, base, n, fuel),
            Some(RlispSpecialForm::NamespaceSet) => self.form_set(host, base, n, fuel),
            Some(RlispSpecialForm::MakeNamespace) => self.form_make_namespace(base, n),
            None => self.host_error(ErrorKind::NotAFunction),
        };
        let ghost s2 = *self;
        self.truncate_stack(base);
        proof {
            assert(self.stack@ =~= old(self).stack@.take(old(self).stack@.len() - (n + 1)));
            old(self).lemma_special_called(fuel as nat, s1, s2, *self, r);
        }
        r
    }

    /// `(quote x)`: `x` as it was written. Any other number of arguments
    /// than one is an error.
    pub fn form_quote(&mut self, base: usize, n: usize) -> (r: Object)
        requires
            old(self).inv(),
            old(self).stack@.len() == base + n,
        ensures
            old(self).evaluated_to(*final(self), r),
            n == 1 ==> r == old(self).stack@[base as int] && *final(self) == *old(self),
            n != 1 ==> r.spec_what_type() == RlispType::Error,
            old(self).quote_run(base as int, n as nat, *final(self), r),
    {
        if n != 1 {
            self.bad_args_count_error(n, 1, Some(1))
        } else {
            self.arg_at(base, n, 0)
        }
    }

    /// `(if predicate then else...)`: where the predicate evaluates to
    /// something true, the value of `then`; else the value of the last of the
    /// other clauses, or `nil` where there is none. An error on the way is
    /// the value.
    pub fn form_if<H: FloatOps>(&mut self, host: &H, base: usize, n: usize, fuel: usize) -> (r:
        Object)
        requires
            old(self).inv(),
            old(self).stack@.len() == base + n,
        ensures
            old(self).evaluated_to(*final(self), r),
            n < 2 ==> r.spec_what_type() == RlispType::Error,
            old(self).if_run(base as int, n as nat, fuel as nat, *final(self), r),
        decreases fuel, 3nat,
    {
        if n < 2 {
            return self.bad_args_count_error(n, 2, None);
        }
        let predicate = self.arg_at(base, n, 0);
        let p = self.evaluate_within(host, predicate, fuel);
        let ghost s1 = *self;
        if p.errorp() {
            proof {
                old(self).lemma_if_run(base as int, n as nat, fuel as nat, s1, p, s1, p);
            }
            return p;
        }
        if p.truthy() {
            let then = self.arg_at(base, n, 1);
            let r = self.evaluate_within(host, then, fuel);
            proof {
                old(self).lemma_if_run(base as int, n as nat, fuel as nat, s1, p, *self, r);
            }
            return r;
        }
        let r = self.eval_sequence(host, base, n, 2, fuel);
        proof {
            old(self).lemma_if_run(base as int, n as nat, fuel as nat, s1, p, *self, r);
        }
        r
    }

    /// Evaluates the arguments from argument `from` on, one after the other.
    /// The value is that of the last one; or the first value that is an
    /// error, after which nothing is evaluated; or `nil` where there is none.
    pub fn eval_sequence<H: FloatOps>(
        &mut self,
        host: &H,
        base: usize,
        n: usize,
        from: usize,
        fuel: usize,
    ) -> (r: Object)
        requires
            old(self).inv(),
            old(self).stack@.len() == base + n,
        ensures
            old(self).evaluated_to(*final(self), r),
            old(self).seq_run(
                base as int,
                n as nat,
                from as nat,
                Object::spec_nil(),
                fuel as nat,
                *final(self),
                r,
            ),
        decreases fuel, 2nat,
    {
        let mut res = Object::nil();
        let mut i: usize = from;
        while i < n
            invariant
                from <= i,
                self.inv(),
                old(self).same_frame(*self),
                old(self).stack@.len() == base + n,
                self.heap.valid(res),
                forall|l: Lisp, o: Object|
                    #![trigger self.seq_run(base as int, n as nat, i as nat, res, fuel as nat, l, o)]
                    self.seq_run(base as int, n as nat, i as nat, res, fuel as nat, l, o)
                        ==> old(self).seq_run(
                        base as int,
                        n as nat,
                        from as nat,
                        Object::spec_nil(),
                        fuel as nat,
                        l,
                        o,
                    ),
            decreases n - i,
        {
            let clause = self.arg_at(base, n, i);
            let ghost prev = *self;
            let ghost prev_res = res;
            let v = self.evaluate_within(host, clause, fuel);
            let ghost s1 = *self;
            if v.errorp() {
                proof {
                    prev.lemma_seq_run_failed(
                        base as int,
                        n as nat,
                        i as nat,
                        prev_res,
                        fuel as nat,
                        s1,
                        v,
                    );
                }
                return v;
            }
            res = v;
            i += 1;
            proof {
                assert forall|l: Lisp, o: Object|
                    #![trigger self.seq_run(base as int, n as nat, i as nat, res, fuel as nat, l, o)]
                    self.seq_run(
                        base as int,
                        n as nat,
                        i as nat,
                        res,
                        fuel as nat,
                        l,
                        o,
                    ) implies old(self).seq_run(
                    base as int,
                    n as nat,
                    from as nat,
                    Object::spec_nil(),
                    fuel as nat,
                    l,
                    o,
                ) by {
                    prev.lemma_seq_run_next(
                        base as int,
                        n as nat,
                        (i - 1) as nat,
                        prev_res,
                        fuel as nat,
                        s1,
                        v,
                        l,
                        o,
                    );
                }
            }
        }
        proof {
            self.lemma_seq_run_out(base as int, n as nat, i as nat, res, fuel as nat);
        }
        res
    }

    /// The value of the clause `clause` of a `cond` whose test was true, or
    /// of a handler of `catch-error` that was chosen: that of its second
    /// element; a clause without one gives the error that says so.
    pub fn eval_clause<H: FloatOps>(&mut self, host: &H, clause: Object, fuel: usize) -> (r: Object)
        requires
            old(self).inv(),
            old(self).heap.valid(clause),
        ensures
            old(self).evaluated_to(*final(self), r),
            old(self).clause_run(clause, fuel as nat, *final(self), r),
        decreases fuel, 2nat,
    {
        if !clause.consp() {
            return self.wrong_type_error(RlispType::Cons, clause.what_type());
        }
        let (_test, rest) = self.heap.cons_parts(clause);
        if !rest.consp() {
            return self.wrong_type_error(RlispType::Cons, rest.what_type());
        }
        let (value, _end) = self.heap.cons_parts(rest);
        self.evaluate_within(host, value, fuel)
    }

    /// `(cond (test value)...)`: the value of the first clause whose test
    /// evaluates to something true, or `nil` where there is none. An error on
    /// the way is the value, and so is the error that says that a clause is
    /// no list of a test and a value.
    pub fn form_cond<H: FloatOps>(&mut self, host: &H, base: usize, n: usize, fuel: usize) -> (r:
        Object)
        requires
            old(self).inv(),
            old(self).stack@.len() == base + n,
        ensures
            old(self).evaluated_to(*final(self), r),
            n == 0 ==> r == Object::spec_nil() && *final(self) == *old(self),
            old(self).cond_run(base as int, n as nat, 0, fuel as nat, *final(self), r),
        decreases fuel, 3nat,
    {
        let mut i: usize = 0;
        while i < n
            invariant
                self.inv(),
                old(self).same_frame(*self),
                old(self).stack@.len() == base + n,
                n == 0 ==> *self == *old(self),
                forall|l: Lisp, o: Object|
                    #![trigger self.cond_run(base as int, n as nat, i as nat, fuel as nat, l, o)]
                    self.cond_run(base as int, n as nat, i as nat, fuel as nat, l, o) ==> old(
                        self,
                    ).cond_run(base as int, n as nat, 0, fuel as nat, l, o),
            decreases n - i,
        {
            let clause = self.arg_at(base, n, i);
            let ghost prev = *self;
            if !clause.consp() {
                let r = self.wrong_type_error(RlispType::Cons, clause.what_type());
                proof {
                    prev.lemma_cond_run_no_clause(
                        base as int,
                        n as nat,
                        i as nat,
                        fuel as nat,
                        *self,
                        r,
                    );
                }
                return r;
            }
            let (test, _rest) = self.heap.cons_parts(clause);
            let t = self.evaluate_within(host, test, fuel);
            let ghost s1 = *self;
            if t.errorp() {
                proof {
                    prev.lemma_cond_run_tested(
                        base as int,
                        n as nat,
                        i as nat,
                        fuel as nat,
                        s1,
                        t,
                        s1,
                        t,
                    );
                }
                return t;
            }
            if t.truthy() {
                let clause = self.arg_at(base, n, i);
                let r = self.eval_clause(host, clause, fuel);
                proof {
                    prev.lemma_cond_run_tested(
                        base as int,
                        n as nat,
                        i as nat,
                        fuel as nat,
                        s1,
                        t,
                        *self,
                        r,
                    );
                }
                return r;
            }
            i += 1;
            proof {
                assert forall|l: Lisp, o: Object|
                    #![trigger self.cond_run(base as int, n as nat, i as nat, fuel as nat, l, o)]
                    self.cond_run(base as int, n as nat, i as nat, fuel as nat, l, o) implies old(
                        self,
                    ).cond_run(base as int, n as nat, 0, fuel as nat, l, o) by {
                    prev.lemma_cond_run_tested(
                        base as int,
                        n as nat,
                        (i - 1) as nat,
                        fuel as nat,
                        s1,
                        t,
                        l,
                        o,
                    );
                }
            }
        }
        proof {
            self.lemma_cond_run_out(base as int, n as nat, i as nat, fuel as nat);
        }
        Object::nil()
    }

    /// `(setq symbol value...)`: binds each symbol to the value of the
    /// expression after it, as `set_symbol` does, from the first pair to the
    /// last; the value is the last one bound, or `nil`. An odd number of
    /// arguments is an error, and so is a name that is no symbol; an error
    /// among the values is the value, and nothing after it is bound.
    #[verifier::rlimit(30)]
    pub fn form_setq<H: FloatOps>(&mut self, host: &H, base: usize, n: usize, fuel: usize) -> (r:
        Object)
        requires
            old(self).inv(),
            old(self).stack@.len() == base + n,
        ensures
            old(self).evaluated_to(*final(self), r),
            n % 2 != 0 ==> r.spec_what_type() == RlispType::Error,
            n == 0 ==> r == Object::spec_nil() && *final(self) == *old(self),
            n % 2 != 0 ==> old(self).host_error_raised(
                *final(self),
                ErrorKind::WantedEvenArgCt,
                r,
            ),
            n % 2 == 0 ==> old(self).setq_run(
                base as int,
                n as nat,
                0,
                Object::spec_nil(),
                fuel as nat,
                *final(self),
                r,
            ),
        decreases fuel, 3nat,
    {
        if n % 2 != 0 {
            return self.host_error(ErrorKind::WantedEvenArgCt);
        }
        let mut res = Object::nil();
        let mut i: usize = 0;
        while i < n
            invariant
                i % 2 == 0,
                n % 2 == 0,
                i <= n,
                self.inv(),
                old(self).same_frame(*self),
                old(self).stack@.len() == base + n,
                self.heap.valid(res),
                i == 0 ==> *self == *old(self) && res == Object::spec_nil(),
                forall|l: Lisp, o: Object|
                    #![trigger self.setq_run(base as int, n as nat, i as nat, res, fuel as nat, l, o)]
                    self.setq_run(base as int, n as nat, i as nat, res, fuel as nat, l, o)
                        ==> old(self).setq_run(
                        base as int,
                        n as nat,
                        0,
                        Object::spec_nil(),
                        fuel as nat,
                        l,
                        o,
                    ),
            decreases n - i,
        {
            let sym = self.arg_at(base, n, i);
            let ghost prev = *self;
            let ghost prev_res = res;
            if !sym.symbolp() {
                let r = self.wrong_type_error(RlispType::Sym, sym.what_type());
                proof {
                    prev.lemma_setq_run_no_symbol(
                        base as int,
                        n as nat,
                        i as nat,
                        prev_res,
                        fuel as nat,
                        *self,
                        r,
                    );
                }
                return r;
            }
            let value = self.arg_at(base, n, i + 1);
            let v = self.evaluate_within(host, value, fuel);
            let ghost s1 = *self;
            if v.errorp() {
                proof {
                    prev.lemma_setq_run_valued(
                        base as int,
                        n as nat,
                        i as nat,
                        prev_res,
                        fuel as nat,
                        s1,
                        v,
                        s1,
                        s1,
                        v,
                    );
                }
                return v;
            }
            res = v;
            let sym = self.arg_at(base, n, i);
            proof {
                self.heap.lemma_valid_reference(sym);
            }
            self.set_symbol(sym.index(), res);
            let ghost s2 = *self;
            proof {
                s1.heap.lemma_valid_kept(self.heap, res);
            }
            i += 2;
            proof {
                assert forall|l: Lisp, o: Object|
                    #![trigger self.setq_run(base as int, n as nat, i as nat, res, fuel as nat, l, o)]
                    self.setq_run(
                        base as int,
                        n as nat,
                        i as nat,
                        res,
                        fuel as nat,
                        l,
                        o,
                    ) implies old(self).setq_run(
                    base as int,
                    n as nat,
                    0,
                    Object::spec_nil(),
                    fuel as nat,
                    l,
                    o,
                ) by {
                    prev.lemma_setq_run_valued(
                        base as int,
                        n as nat,
                        (i - 2) as nat,
                        prev_res,
                        fuel as nat,
                        s1,
                        v,
                        s2,
                        l,
                        o,
                    );
                }
            }
        }
        proof {
            self.lemma_setq_run_out(base as int, n as nat, i as nat, res, fuel as nat);
        }
        res
    }

    /// `(defvar name value)`: binds the symbol `name` to the value of
    /// `value`, as `set_symbol` does; the value is that value.
    pub fn form_defvar<H: FloatOps>(&mut self, host: &H, base: usize, n: usize, fuel: usize) -> (r:
        Object)
        requires
            old(self).inv(),
            old(self).stack@.len() == base + n,
        ensures
            old(self).evaluated_to(*final(self), r),
            n != 2 || old(self).stack@[base + n - 1].spec_what_type() != RlispType::Sym
                ==> r.spec_what_type() == RlispType::Error,
            r.spec_what_type() != RlispType::Error ==> crate::symbols_table::lookup_in(
                final(self).scope_view(),
                old(self).stack@[base + n - 1].spec_index() as u64,
            ) == Some(r),
            old(self).defvar_run(base as int, n as nat, fuel as nat, *final(self), r),
        decreases fuel, 3nat,
    {
        if n != 2 {
            return self.bad_args_count_error(n, 2, Some(2));
        }
        let name = self.arg_at(base, n, 0);
        if !name.symbolp() {
            return self.wrong_type_error(RlispType::Sym, name.what_type());
        }
        let value = self.arg_at(base, n, 1);
        let val = self.evaluate_within(host, value, fuel);
        let ghost s1 = *self;
        if val.errorp() {
            proof {
                old(self).lemma_defvar_run(base as int, fuel as nat, s1, s1, val);
            }
            return val;
        }
        let name = self.arg_at(base, n, 0);
        proof {
            self.heap.lemma_valid_reference(name);
        }
        self.set_symbol(name.index(), val);
        proof {
            s1.heap.lemma_valid_kept(self.heap, val);
            old(self).lemma_defvar_run(base as int, fuel as nat, s1, *self, val);
        }
        val
    }

    /// The arguments from argument `from` on, in the order in which they
    /// were written.
    pub fn args_from(&self, base: usize, n: usize, from: usize) -> (r: Vec<Object>)
        requires
            self.inv(),
            self.stack@.len() == base + n,
            from <= n,
        ensures
            r@.len() == n - from,
            forall|i: int| 0 <= i < r@.len() ==> #[trigger] r@[i] == self.stack@[base + n - 1 - from - i],
            forall|i: int| 0 <= i < r@.len() ==> self.heap.valid(#[trigger] r@[i]),
    {
        let mut out: Vec<Object> = Vec::new();
        let mut i: usize = from;
        while i < n
            invariant
                from <= i <= n,
                self.inv(),
                self.stack@.len() == base + n,
                out@.len() == i - from,
                forall|q: int|
                    0 <= q < out@.len() ==> #[trigger] out@[q] == self.stack@[base + n - 1 - from
                        - q],
                forall|q: int| 0 <= q < out@.len() ==> self.heap.valid(#[trigger] out@[q]),
            decreases n - i,
        {
            out.push(self.arg_at(base, n, i));
            i += 1;
        }
        out
    }

    /// True iff `r` is, in the heap `heap`, a function of the language with
    /// the parameter list `arglist`, the expressions `body`, the name `name`
    /// if there is one, and the captured frames `scope`.
    pub open spec fn is_closure(
        heap: Heap,
        r: Object,
        name: Option<Object>,
        arglist: Object,
        body: Seq<Object>,
        scope: Seq<u64>,
    ) -> bool {
        &&& r.spec_what_type() == RlispType::Function
        &&& match heap.at(r.spec_index()) {
            Slot::Function(f) => {
                &&& f.arglist == Some(arglist)
                &&& f.name == name
                &&& f.body matches FunctionBody::LispFn(b) && b@ == body
                &&& f.scope matches Some(s) && s@ == scope
            },
            _ => false,
        }
    }

    /// Puts on the heap the function of the language with the parameter list
    /// `arglist`, the expressions `body` and, if there is one, the name
    /// `name`, which captures the frames that are active now.
    pub fn make_closure(&mut self, name: Option<Object>, arglist: Object, body: Vec<Object>) -> (r:
        Object)
        requires
            old(self).inv(),
            old(self).heap.valid(arglist),
            name matches Some(n) ==> old(self).heap.valid(n),
            forall|i: int| 0 <= i < body@.len() ==> old(self).heap.valid(#[trigger] body@[i]),
        ensures
            old(self).stepped_to(*final(self)),
            final(self).heap.valid(r),
            old(self).heap_grew_to(*final(self)),
            !old(self).heap.full() ==> {
                &&& Lisp::is_closure(
                    final(self).heap,
                    r,
                    name,
                    arglist,
                    body@,
                    old(self).symbols@,
                )
                &&& r.spec_index() == old(self).heap.next_index()
                &&& forall|j: int|
                    j != r.spec_index() ==> #[trigger] final(self).heap.at(j) == old(self).heap.at(
                        j,
                    )
            },
            old(self).heap.full() ==> r == Heap::spec_out_of_memory() && *final(self) == *old(self),
    {
        let scope = copy_indices(&self.symbols);
        let ghost body_seq = body@;
        let mut f = RlispFunc::from_body(body).with_arglist(arglist).with_scope(scope);
        match name {
            Some(nm) => {
                f = f.with_name(nm);
            },
            None => {},
        }
        proof {
            let slot = Slot::Function(f);
            assert forall|o: Object| #[trigger] slot.holds(o) implies self.heap.valid(o) by {
                match f.body {
                    FunctionBody::LispFn(b) => {
                        if b@.contains(o) {
                            let i = choose|i: int| 0 <= i < b@.len() && b@[i] == o;
                            assert(self.heap.valid(body_seq[i]));
                        }
                    },
                    _ => {},
                }
            }
            assert forall|t: ObjectTag, j: u64| #[trigger] slot.names(t, j) implies self.heap.kind(
                j as int,
            ) == Some(t) by {
                let k = choose|k: int| 0 <= k < self.symbols@.len() && self.symbols@[k] == j;
                assert(self.heap.kind(self.symbols@[k] as int) == Some(ObjectTag::Namespace));
            }
        }
        self.alloc_function(f)
    }

    /// `(defun name arglist body...)`: makes the function, binds the symbol
    /// `name` to it as `set_symbol` does, and returns it. Nothing is
    /// evaluated.
    pub fn form_defun(&mut self, base: usize, n: usize) -> (r: Object)
        requires
            old(self).inv(),
            old(self).stack@.len() == base + n,
        ensures
            old(self).stepped_to(*final(self)),
            old(self).evaluated_to(*final(self), r),
            n < 2 || old(self).stack@[base + n - 1].spec_what_type() != RlispType::Sym
                ==> r.spec_what_type() == RlispType::Error,
            n >= 2 && old(self).stack@[base + n - 1].spec_what_type() == RlispType::Sym
                && !old(self).heap.full() ==> {
                let name = old(self).stack@[base + n - 1];
                &&& Lisp::is_closure(
                    final(self).heap,
                    r,
                    Some(name),
                    old(self).stack@[base + n - 2],
                    Seq::new((n - 2) as nat, |i: int| old(self).stack@[base + n - 3 - i]),
                    old(self).symbols@,
                )
                &&& crate::symbols_table::lookup_in(
                    final(self).scope_view(),
                    name.spec_index() as u64,
                ) == Some(r)
            },
            old(self).defun_run(base as int, n as nat, *final(self), r),
    {
        if n < 2 {
            return self.bad_args_count_error(n, 2, None);
        }
        let name = self.arg_at(base, n, 0);
        if !name.symbolp() {
            return self.wrong_type_error(RlispType::Sym, name.what_type());
        }
        let arglist = self.arg_at(base, n, 1);
        let body = self.args_from(base, n, 2);
        let ghost s0 = *self;
        let ghost body_seq = body@;
        proof {
            assert(body_seq =~= Seq::new(
                (n - 2) as nat,
                |i: int| old(self).stack@[base + n - 3 - i],
            ));
            assert(body_seq =~= old(self).args_after(base as int, n as int, 2));
            Object::lemma_reference_type(ObjectTag::Error, 0);
        }
        let fun = self.make_closure(Some(name), arglist, body);
        if fun.errorp() {
            proof {
                old(self).lemma_defun_run(base as int, n as nat, *self, *self, fun);
            }
            return fun;
        }
        proof {
            s0.heap.lemma_valid_kept(self.heap, name);
            self.heap.lemma_valid_reference(name);
        }
        let ghost s1 = *self;
        self.set_symbol(name.index(), fun);
        proof {
            s1.heap.lemma_valid_kept(self.heap, fun);
            s0.lemma_stepped_twice(s1, *self);
            let k = match crate::symbols_table::binding_frame(
                s1.scope_view(),
                name.spec_index() as u64,
            ) {
                Some(k) => k,
                None => 0,
            };
            crate::symbols_table::lemma_lookup_frame(s1.scope_view(), name.spec_index() as u64);
            let ns = s1.symbols@[k] as int;
            assert(s1.heap.kind(ns) == Some(ObjectTag::Namespace));
            assert(ns != fun.spec_index());
            assert(self.heap.at(fun.spec_index()) == s1.heap.at(fun.spec_index()));
            old(self).lemma_defun_run(base as int, n as nat, s1, *self, fun);
        }
        fun
    }

    /// `(lambda arglist body...)`: the function, without a name. A parameter
    /// list that is neither `nil` nor a cons is an error. Nothing is
    /// evaluated.
    pub fn form_lambda(&mut self, base: usize, n: usize) -> (r: Object)
        requires
            old(self).inv(),
            old(self).stack@.len() == base + n,
        ensures
            old(self).stepped_to(*final(self)),
            old(self).evaluated_to(*final(self), r),
            n >= 1 ==> {
                let arglist = old(self).stack@[base + n - 1];
                if arglist == Object::spec_nil() || arglist.spec_what_type() == RlispType::Cons {
                    !old(self).heap.full() ==> Lisp::is_closure(
                        final(self).heap,
                        r,
                        None,
                        arglist,
                        Seq::new((n - 1) as nat, |i: int| old(self).stack@[base + n - 2 - i]),
                        old(self).symbols@,
                    )
                } else {
                    r.spec_what_type() == RlispType::Error
                }
            },
            n < 1 ==> r.spec_what_type() == RlispType::Error,
            old(self).lambda_run(base as int, n as nat, *final(self), r),
    {
        if n < 1 {
            return self.bad_args_count_error(n, 1, None);
        }
        let arglist = self.arg_at(base, n, 0);
        if !arglist.nilp() && !arglist.consp() {
            return self.wrong_type_error(RlispType::Cons, arglist.what_type());
        }
        let body = self.args_from(base, n, 1);
        proof {
            assert(body@ =~= Seq::new(
                (n - 1) as nat,
                |i: int| old(self).stack@[base + n - 2 - i],
            ));
            assert(body@ =~= old(self).args_after(base as int, n as int, 1));
        }
        self.make_closure(None, arglist, body)
    }

    /// `(make-namespace name)`: a new empty namespace with the name `name`,
    /// if one is given; where the name is a symbol, the symbol is bound to
    /// the namespace as `set_symbol` does. Nothing is evaluated.
    pub fn form_make_namespace(&mut self, base: usize, n: usize) -> (r: Object)
        requires
            old(self).inv(),
            old(self).stack@.len() == base + n,
        ensures
            old(self).stepped_to(*final(self)),
            old(self).evaluated_to(*final(self), r),
            old(self).make_namespace_run(base as int, n as nat, *final(self), r),
    {
        if n > 1 {
            return self.bad_args_count_error(n, 0, Some(1));
        }
        let name: Option<Object> = if n == 1 {
            Some(self.arg_at(base, n, 0))
        } else {
            None
        };
        let table = Namespace::new().with_maybe_name(name);
        let ghost s0 = *self;
        let namespace = self.alloc_namespace(table);
        let ghost s1 = *self;
        proof {
            Object::lemma_reference_type(ObjectTag::Error, 0);
        }
        if namespace.errorp() {
            proof {
                old(self).lemma_make_namespace_run(base as int, n as nat, s1, s1, namespace);
            }
            return namespace;
        }
        match name {
            Some(nm) => {
                if nm.symbolp() {
                    proof {
                        s0.heap.lemma_valid_kept(self.heap, nm);
                        self.heap.lemma_valid_reference(nm);
                    }
                    self.set_symbol(nm.index(), namespace);
                    proof {
                        s1.heap.lemma_valid_kept(self.heap, namespace);
                        s0.lemma_stepped_twice(s1, *self);
                    }
                }
            },
            None => {},
        }
        proof {
            old(self).lemma_make_namespace_run(base as int, n as nat, s1, *self, namespace);
        }
        namespace
    }

    /// The first fault among the bindings `pairs` of a `let`, as the type
    /// that was wanted and the type that was found.
    pub fn find_binding_fault(&self, pairs: &Vec<Object>) -> (r: Option<(RlispType, RlispType)>)
        requires
            self.inv(),
            forall|q: int| 0 <= q < pairs@.len() ==> self.heap.valid(#[trigger] pairs@[q]),
        ensures
            r == Lisp::binding_fault(self.heap, pairs@, 0),
    {
        let mut j: usize = 0;
        while j < pairs.len()
            invariant
                j <= pairs@.len(),
                self.inv(),
                forall|q: int| 0 <= q < pairs@.len() ==> self.heap.valid(#[trigger] pairs@[q]),
                Lisp::binding_fault(self.heap, pairs@, j as nat) == Lisp::binding_fault(
                    self.heap,
                    pairs@,
                    0,
                ),
            decreases pairs@.len() - j,
        {
            let pair = pairs[j];
            if !pair.consp() {
                assert(self.heap.spec_cell(pair) is None);
                return Some((RlispType::Cons, pair.what_type()));
            }
            let (symbol, rest) = self.heap.cons_parts(pair);
            if !symbol.symbolp() {
                return Some((RlispType::Sym, symbol.what_type()));
            }
            if !rest.consp() {
                assert(self.heap.spec_cell(rest) is None);
                return Some((RlispType::Cons, rest.what_type()));
            }
            let (_value, _end) = self.heap.cons_parts(rest);
            j += 1;
        }
        None
    }

    /// Puts the bindings `pairs` of a `let` on the stack: for each, from the
    /// first on, its symbol and above it the expression for its value.
    pub fn lay_out_bindings(&mut self, pairs: &Vec<Object>)
        requires
            old(self).inv(),
            forall|q: int| 0 <= q < pairs@.len() ==> old(self).heap.valid(#[trigger] pairs@[q]),
            Lisp::binding_fault(old(self).heap, pairs@, 0) is None,
        ensures
            final(self).inv(),
            old(self).laid_to(*final(self), Lisp::laid_out(old(self).heap, pairs@)),
            forall|q: int|
                0 <= q < pairs@.len() ==> (#[trigger] final(self).stack@[old(self).stack@.len() + 2
                    * q]).spec_what_type() == RlispType::Sym,
    {
        let ghost top = self.stack@.len() as int;
        let ghost heap = self.heap;
        let mut j: usize = 0;
        while j < pairs.len()
            invariant
                j <= pairs@.len(),
                self.inv(),
                heap == old(self).heap,
                top == old(self).stack@.len(),
                *self == (Lisp { stack: self.stack, ..*old(self) }),
                forall|q: int| 0 <= q < pairs@.len() ==> self.heap.valid(#[trigger] pairs@[q]),
                Lisp::binding_fault(heap, pairs@, j as nat) is None,
                self.stack@.len() == top + 2 * j,
                self.stack@.take(top) == old(self).stack@,
                forall|q: int|
                    0 <= q < 2 * j ==> #[trigger] self.stack@[top + q] == Lisp::laid_out(
                        heap,
                        pairs@,
                    )[q],
                forall|q: int|
                    0 <= q < j ==> (#[trigger] self.stack@[top + 2 * q]).spec_what_type()
                        == RlispType::Sym,
            decreases pairs@.len() - j,
        {
            let pair = pairs[j];
            assert(self.heap.spec_cell(pair) is Some);
            let (symbol, rest) = self.heap.cons_parts(pair);
            assert(self.heap.spec_cell(rest) is Some);
            let (value, _end) = self.heap.cons_parts(rest);
            let ghost before = self.stack@;
            self.push(symbol);
            self.push(value);
            proof {
                assert(self.stack@.take(top) =~= before.take(top));
                assert forall|q: int| 0 <= q < 2 * (j + 1) implies #[trigger] self.stack@[top + q]
                    == Lisp::laid_out(heap, pairs@)[q] by {
                    if q < 2 * j {
                        assert(self.stack@[top + q] == before[top + q]);
                    } else if q == 2 * j {
                        assert(q / 2 == j && q % 2 == 0);
                    } else {
                        assert(q / 2 == j && q % 2 == 1);
                    }
                }
                assert forall|q: int| 0 <= q < j + 1 implies (
                #[trigger] self.stack@[top + 2 * q]).spec_what_type() == RlispType::Sym by {
                    if q < j {
                        assert(self.stack@[top + 2 * q] == before[top + 2 * q]);
                    }
                }
            }
            j += 1;
        }
        proof {
            let laid = Lisp::laid_out(heap, pairs@);
            assert(self.stack@ =~= old(self).stack@ + laid) by {
                assert forall|q: int| 0 <= q < self.stack@.len() implies self.stack@[q] == (old(
                    self,
                ).stack@ + laid)[q] by {
                    if q < top {
                        assert(self.stack@.take(top)[q] == self.stack@[q]);
                    } else {
                        assert(self.stack@[top + (q - top)] == laid[q - top]);
                    }
                }
            }
        }
    }

    /// Evaluates the expressions of the `count` bindings that lie on the
    /// stack from entry `top` on, where they stand, from the first on, each
    /// value taking the place of its expression. The first value that is an
    /// error ends this and is returned.
    pub fn eval_bindings<H: FloatOps>(
        &mut self,
        host: &H,
        top: usize,
        count: usize,
        fuel: usize,
    ) -> (failed: Option<Object>)
        requires
            old(self).inv(),
            old(self).stack@.len() == top + 2 * count,
        ensures
            final(self).inv(),
            final(self).symbols@ == old(self).symbols@,
            final(self).max_depth == old(self).max_depth,
            final(self).macro_chars == old(self).macro_chars,
            final(self).stack@.len() == old(self).stack@.len(),
            final(self).stack@.take(top as int) == old(self).stack@.take(top as int),
            forall|q: int|
                0 <= q < count ==> #[trigger] final(self).stack@[top + 2 * q] == old(
                    self,
                ).stack@[top + 2 * q],
            failed matches Some(e) ==> final(self).heap.valid(e) && e.spec_what_type()
                == RlispType::Error,
            old(self).values_run(top as int, count as nat, 0, fuel as nat, *final(self), failed),
        decreases fuel, 2nat,
    {
        let mut j: usize = 0;
        while j < count
            invariant
                j <= count,
                self.inv(),
                self.symbols@ == old(self).symbols@,
                self.max_depth == old(self).max_depth,
                self.macro_chars == old(self).macro_chars,
                self.stack@.len() == top + 2 * count,
                old(self).stack@.len() == top + 2 * count,
                self.stack@.take(top as int) == old(self).stack@.take(top as int),
                forall|q: int|
                    0 <= q < count ==> #[trigger] self.stack@[top + 2 * q] == old(
                        self,
                    ).stack@[top + 2 * q],
                forall|l: Lisp, f: Option<Object>|
                    #![trigger self.values_run(top as int, count as nat, j as nat, fuel as nat, l, f)]
                    self.values_run(top as int, count as nat, j as nat, fuel as nat, l, f) ==> old(
                        self,
                    ).values_run(top as int, count as nat, 0, fuel as nat, l, f),
            decreases count - j,
        {
            let total: usize = self.stack.len();
            assert(total == top + 2 * count);
            let pos: usize = top + 2 * j + 1;
            let form = self.stack[pos];
            let ghost prev = *self;
            let v = self.evaluate_within(host, form, fuel);
            let ghost s1 = *self;
            if v.errorp() {
                proof {
                    prev.lemma_values_run_failed(
                        top as int,
                        count as nat,
                        j as nat,
                        fuel as nat,
                        s1,
                        v,
                    );
                }
                return Some(v);
            }
            self.set_stack(pos, v);
            let ghost s2 = *self;
            j += 1;
            proof {
                assert(self.stack@.take(top as int) =~= prev.stack@.take(top as int));
                assert forall|q: int| 0 <= q < count implies #[trigger] self.stack@[top + 2 * q]
                    == old(self).stack@[top + 2 * q] by {
                    assert(self.stack@[top + 2 * q] == prev.stack@[top + 2 * q]);
                }
                assert forall|l: Lisp, f: Option<Object>|
                    #![trigger self.values_run(top as int, count as nat, j as nat, fuel as nat, l, f)]
                    self.values_run(
                        top as int,
                        count as nat,
                        j as nat,
                        fuel as nat,
                        l,
                        f,
                    ) implies old(self).values_run(
                    top as int,
                    count as nat,
                    0,
                    fuel as nat,
                    l,
                    f,
                ) by {
                    prev.lemma_values_run_next(
                        top as int,
                        count as nat,
                        (j - 1) as nat,
                        fuel as nat,
                        s1,
                        v,
                        s2,
                        l,
                        f,
                    );
                }
            }
        }
        proof {
            self.lemma_values_run_all(top as int, count as nat, j as nat, fuel as nat);
        }
        None
    }

    /// The bindings that lie on the stack from entry `top` on: for each, the
    /// slot of its symbol and its value.
    pub fn frame_from_stack(&self, top: usize, count: usize) -> (frame: Vec<(u64, Object)>)
        requires
            self.inv(),
            self.stack@.len() == top + 2 * count,
            forall|q: int|
                0 <= q < count ==> (#[trigger] self.stack@[top + 2 * q]).spec_what_type()
                    == RlispType::Sym,
        ensures
            frame@ == Lisp::frame_of(self.stack@, top as int, count as nat),
            forall|q: int|
                0 <= q < frame@.len() ==> self.heap.kind((#[trigger] frame@[q]).0 as int) == Some(
                    ObjectTag::Sym,
                ) && self.heap.valid(frame@[q].1),
    {
        let mut frame: Vec<(u64, Object)> = Vec::new();
        let mut j: usize = 0;
        while j < count
            invariant
                j <= count,
                self.inv(),
                self.stack@.len() == top + 2 * count,
                frame@.len() == j,
                forall|q: int|
                    0 <= q < count ==> (#[trigger] self.stack@[top + 2 * q]).spec_what_type()
                        == RlispType::Sym,
                forall|q: int|
                    0 <= q < j ==> #[trigger] frame@[q] == (
                        self.stack@[top + 2 * q].spec_index() as u64,
                        self.stack@[top + 2 * q + 1],
                    ),
                forall|q: int|
                    0 <= q < frame@.len() ==> self.heap.kind((#[trigger] frame@[q]).0 as int)
                        == Some(ObjectTag::Sym) && self.heap.valid(frame@[q].1),
            decreases count - j,
        {
            let total: usize = self.stack.len();
            assert(total == top + 2 * count);
            let symbol = self.stack[top + 2 * j];
            let value = self.stack[top + 2 * j + 1];
            proof {
                assert(self.stack@[top + 2 * j].spec_what_type() == RlispType::Sym);
                self.heap.lemma_valid_reference(symbol);
            }
            frame.push((symbol.index(), value));
            j += 1;
        }
        proof {
            assert(frame@ =~= Lisp::frame_of(self.stack@, top as int, count as nat));
        }
        frame
    }

    /// `(let ((symbol value)...) body...)`: evaluates the values, from the
    /// first to the last, binds each symbol to its value in a new innermost
    /// frame, evaluates the expressions of the body there, and takes the
    /// frame off again. The value is that of the last expression, or `nil`.
    /// An error among the values or in the body is the value; so is the
    /// error that says that a binding is no list of a symbol and a value.
    pub fn form_let<H: FloatOps>(&mut self, host: &H, base: usize, n: usize, fuel: usize) -> (r:
        Object)
        requires
            old(self).inv(),
            old(self).stack@.len() == base + n,
        ensures
            old(self).evaluated_to(*final(self), r),
            n < 1 ==> r.spec_what_type() == RlispType::Error,
            old(self).let_run(base as int, n as nat, fuel as nat, *final(self), r),
        decreases fuel, 3nat,
    {
        if n < 1 {
            return self.bad_args_count_error(n, 1, None);
        }
        let top: usize = self.stack.len();
        let bindings = self.arg_at(base, n, 0);
        let (pairs, end) = self.heap.list_to_vec(bindings);
        if !end.nilp() {
            return self.host_error(ErrorKind::ImproperList);
        }
        match self.find_binding_fault(&pairs) {
            Some((wanted, found)) => {
                return self.wrong_type_error(wanted, found);
            },
            None => {},
        }
        let count: usize = pairs.len();
        self.lay_out_bindings(&pairs);
        let ghost s1 = *self;
        let failed = self.eval_bindings(host, top, count, fuel);
        let ghost s2 = *self;
        match failed {
            Some(e) => {
                self.truncate_stack(top);
                proof {
                    assert(self.stack@ =~= old(self).stack@);
                    old(self).lemma_let_run(
                        base as int,
                        n as nat,
                        fuel as nat,
                        s1,
                        s2,
                        *self,
                        failed,
                        *self,
                        e,
                    );
                }
                return e;
            },
            None => {},
        }
        let frame = self.frame_from_stack(top, count);
        self.truncate_stack(top);
        let ghost s3 = *self;
        proof {
            assert(self.stack@ =~= old(self).stack@);
        }
        let ok = self.new_scope(&frame);
        if !ok {
            proof {
                Object::lemma_reference_type(ObjectTag::Error, 0);
                assert(self.heap.slots@[0] == self.heap.at(0));
                old(self).lemma_let_run(
                    base as int,
                    n as nat,
                    fuel as nat,
                    s1,
                    s2,
                    s3,
                    failed,
                    s3,
                    Heap::spec_out_of_memory(),
                );
            }
            return Heap::out_of_memory();
        }
        let ghost s4 = *self;
        let res = self.eval_sequence(host, base, n, 1, fuel);
        let ghost s5 = *self;
        self.end_scope();
        proof {
            assert(self.symbols@ =~= old(self).symbols@);
            s3.lemma_let_body_run(
                base as int,
                n as nat,
                frame@,
                fuel as nat,
                s4,
                s5,
                *self,
                res,
            );
            old(self).lemma_let_run(
                base as int,
                n as nat,
                fuel as nat,
                s1,
                s2,
                s3,
                failed,
                *self,
                res,
            );
        }
        res
    }

    /// The handler among the arguments of a `catch-error`, from the second
    /// on, that catches an error under the name `e`.
    pub fn choose_handler(&self, base: usize, n: usize, e: Object) -> (r: Option<
        Result<Object, Object>,
    >)
        requires
            self.inv(),
            self.stack@.len() == base + n,
            n >= 1,
        ensures
            r == self.chosen_handler(base as int, n as nat, 1, e),
            match r {
                Some(Ok(o)) => self.heap.valid(o),
                Some(Err(o)) => self.heap.valid(o),
                None => true,
            },
    {
        let mut i: usize = 1;
        while i < n
            invariant
                1 <= i,
                self.inv(),
                self.stack@.len() == base + n,
                self.chosen_handler(base as int, n as nat, i as nat, e) == self.chosen_handler(
                    base as int,
                    n as nat,
                    1,
                    e,
                ),
            decreases n - i,
        {
            let handler = self.arg_at(base, n, i);
            if !handler.consp() {
                assert(self.heap.spec_cell(handler) is None);
                return Some(Err(handler));
            }
            let (kind_name, _rest) = self.heap.cons_parts(handler);
            if kind_name == e || kind_name == Object::t() {
                return Some(Ok(handler));
            }
            i += 1;
        }
        None
    }

    /// `(catch-error statement (kind handler)...)`: the value of
    /// `statement`, unless that is an error. Then the value is that of the
    /// handler of the first clause whose kind is the symbol that names the
    /// kind of the error (see `error_name`) or is `t`; the error itself
    /// where no clause is such.
    pub fn form_catch_error<H: FloatOps>(&mut self, host: &H, base: usize, n: usize, fuel: usize) -> (r:
        Object)
        requires
            old(self).inv(),
            old(self).stack@.len() == base + n,
        ensures
            old(self).evaluated_to(*final(self), r),
            n < 1 ==> r.spec_what_type() == RlispType::Error,
            old(self).catch_error_run(base as int, n as nat, fuel as nat, *final(self), r),
        decreases fuel, 3nat,
    {
        if n < 1 {
            return self.bad_args_count_error(n, 1, None);
        }
        let statement = self.arg_at(base, n, 0);
        let res = self.evaluate_within(host, statement, fuel);
        if !res.errorp() {
            proof {
                old(self).lemma_catch_error_run_passed(
                    base as int,
                    n as nat,
                    fuel as nat,
                    *self,
                    res,
                );
            }
            return res;
        }
        let kind = self.heap.error(res).error;
        proof {
            self.heap.lemma_valid_reference(res);
            let held = self.heap.slots@[res.spec_index()];
            assert(self.heap.slot_ok(held));
            let plain = Slot::Error(RlispError { gc_marking: 0, error: kind });
            assert forall|o: Object| #[trigger] plain.holds(o) implies self.heap.valid(o) by {
                assert(held.holds(o));
            }
        }
        let ghost s1 = *self;
        let e = self.error_name(&kind);
        let ghost s2 = *self;
        proof {
            s1.heap.lemma_valid_kept(self.heap, res);
            assert(s1.error_kind(res) == kind);
            assert(s1.error_named(s2, kind, e));
        }
        match self.choose_handler(base, n, e) {
            None => {
                proof {
                    old(self).lemma_catch_error_run_caught(
                        base as int,
                        n as nat,
                        fuel as nat,
                        s1,
                        res,
                        s2,
                        e,
                        s2,
                        res,
                    );
                }
                res
            },
            Some(Err(bad)) => {
                let r = self.wrong_type_error(RlispType::Cons, bad.what_type());
                proof {
                    old(self).lemma_catch_error_run_caught(
                        base as int,
                        n as nat,
                        fuel as nat,
                        s1,
                        res,
                        s2,
                        e,
                        *self,
                        r,
                    );
                }
                r
            },
            Some(Ok(handler)) => {
                let r = self.eval_clause(host, handler, fuel);
                proof {
                    old(self).lemma_catch_error_run_caught(
                        base as int,
                        n as nat,
                        fuel as nat,
                        s1,
                        res,
                        s2,
                        e,
                        *self,
                        r,
                    );
                }
                r
            },
        }
    }

    /// `(check-type value type...)`: evaluates each value and checks that it
    /// is of the type that the symbol after it designates; the value is the
    /// last one checked, or `nil`. The first value that is not of its type is
    /// an error, and so are a symbol that designates no type, a designator
    /// that is no symbol, and an odd number of arguments.
    pub fn form_check_type<H: FloatOps>(&mut self, host: &H, base: usize, n: usize, fuel: usize) -> (r:
        Object)
        requires
            old(self).inv(),
            old(self).stack@.len() == base + n,
        ensures
            old(self).evaluated_to(*final(self), r),
            n % 2 != 0 ==> r.spec_what_type() == RlispType::Error,
            n == 0 ==> r == Object::spec_nil() && *final(self) == *old(self),
            n % 2 != 0 ==> old(self).host_error_raised(
                *final(self),
                ErrorKind::WantedEvenArgCt,
                r,
            ),
            n % 2 == 0 ==> old(self).check_type_run(
                base as int,
                n as nat,
                0,
                Object::spec_nil(),
                fuel as nat,
                *final(self),
                r,
            ),
        decreases fuel, 3nat,
    {
        if n % 2 != 0 {
            return self.host_error(ErrorKind::WantedEvenArgCt);
        }
        let mut res = Object::nil();
        let mut i: usize = 0;
        while i < n
            invariant
                i % 2 == 0,
                n % 2 == 0,
                self.inv(),
                old(self).inv(),
                old(self).same_frame(*self),
                old(self).stack@.len() == base + n,
                self.heap.valid(res),
                n == 0 ==> *self == *old(self) && res == Object::spec_nil(),
                forall|l: Lisp, o: Object|
                    #![trigger self.check_type_run(base as int, n as nat, i as nat, res, fuel as nat, l, o)]
                    self.check_type_run(base as int, n as nat, i as nat, res, fuel as nat, l, o)
                        ==> old(self).check_type_run(
                        base as int,
                        n as nat,
                        0,
                        Object::spec_nil(),
                        fuel as nat,
                        l,
                        o,
                    ),
            decreases n - i,
        {
            let ghost before = *self;
            let ghost res0 = res;
            let designator = self.arg_at(base, n, i + 1);
            if !designator.symbolp() {
                let r = self.wrong_type_error(RlispType::Sym, designator.what_type());
                proof {
                    before.lemma_check_type_run_no_symbol(
                        base as int,
                        n as nat,
                        i as nat,
                        res0,
                        fuel as nat,
                        *self,
                        r,
                    );
                }
                return r;
            }
            let value = self.arg_at(base, n, i);
            res = self.evaluate_within(host, value, fuel);
            let ghost s1 = *self;
            if res.errorp() {
                proof {
                    before.lemma_check_type_run_valued(
                        base as int,
                        n as nat,
                        i as nat,
                        res0,
                        fuel as nat,
                        s1,
                        res,
                        s1,
                        res,
                    );
                }
                return res;
            }
            let designator = self.arg_at(base, n, i + 1);
            match self.type_from_symbol(designator) {
                Some(typ) => {
                    if !typ.check_type(res) {
                        let r = self.wrong_type_error(typ, res.what_type());
                        proof {
                            before.lemma_check_type_run_valued(
                                base as int,
                                n as nat,
                                i as nat,
                                res0,
                                fuel as nat,
                                s1,
                                res,
                                *self,
                                r,
                            );
                        }
                        return r;
                    }
                },
                None => {
                    let err = RlispError::not_a_type(designator);
                    proof {
                        let slot = Slot::Error(err);
                        assert forall|o: Object| #[trigger] slot.holds(o) implies self.heap.valid(
                            o,
                        ) by {}
                    }
                    let r = self.alloc_error(err);
                    proof {
                        before.lemma_check_type_run_valued(
                            base as int,
                            n as nat,
                            i as nat,
                            res0,
                            fuel as nat,
                            s1,
                            res,
                            *self,
                            r,
                        );
                    }
                    return r;
                },
            }
            i += 2;
            proof {
                assert forall|l: Lisp, o: Object|
                    #![trigger self.check_type_run(base as int, n as nat, i as nat, res, fuel as nat, l, o)]
                    self.check_type_run(
                        base as int,
                        n as nat,
                        i as nat,
                        res,
                        fuel as nat,
                        l,
                        o,
                    ) implies old(self).check_type_run(
                    base as int,
                    n as nat,
                    0,
                    Object::spec_nil(),
                    fuel as nat,
                    l,
                    o,
                ) by {
                    before.lemma_check_type_run_valued(
                        base as int,
                        n as nat,
                        (i - 2) as nat,
                        res0,
                        fuel as nat,
                        s1,
                        res,
                        l,
                        o,
                    );
                }
            }
        }
        proof {
            self.lemma_check_type_run_out(base as int, n as nat, i as nat, res, fuel as nat);
        }
        res
    }

    /// `(get namespace symbol)`: what the namespace that `namespace`
    /// evaluates to binds `symbol` to, or the error that says that the symbol
    /// is unbound.
    pub fn form_get<H: FloatOps>(&mut self, host: &H, base: usize, n: usize, fuel: usize) -> (r:
        Object)
        requires
            old(self).inv(),
            old(self).stack@.len() == base + n,
        ensures
            old(self).evaluated_to(*final(self), r),
            n != 2 || old(self).stack@[base + n - 2].spec_what_type() != RlispType::Sym
                ==> r.spec_what_type() == RlispType::Error,
            old(self).get_run(base as int, n as nat, fuel as nat, *final(self), r),
        decreases fuel, 3nat,
    {
        if n != 2 {
            return self.bad_args_count_error(n, 2, Some(2));
        }
        let symbol = self.arg_at(base, n, 1);
        if !symbol.symbolp() {
            return self.wrong_type_error(RlispType::Sym, symbol.what_type());
        }
        let place = self.arg_at(base, n, 0);
        let namespace = self.evaluate_within(host, place, fuel);
        let ghost s1 = *self;
        if namespace.errorp() {
            proof {
                old(self).lemma_get_run(base as int, fuel as nat, s1, namespace, s1, namespace);
            }
            return namespace;
        }
        if !namespace.namespacep() {
            let r = self.wrong_type_error(RlispType::Namespace, namespace.what_type());
            proof {
                old(self).lemma_get_run(base as int, fuel as nat, s1, namespace, *self, r);
            }
            return r;
        }
        let symbol = self.arg_at(base, n, 1);
        proof {
            self.heap.lemma_valid_reference(namespace);
            self.heap.lemma_valid_reference(symbol);
        }
        let found = self.heap.namespace(namespace.index()).get(symbol.index());
        match found {
            Some(v) => {
                proof {
                    let i = namespace.spec_index();
                    assert(self.heap.slot_ok(self.heap.slots@[i]));
                    match self.heap.slots@[i] {
                        Slot::Namespace(t) => {
                            assert(t.table@.contains_value(v));
                        },
                        _ => {},
                    }
                    assert(self.heap.slots@[i].holds(v));
                    old(self).lemma_get_run(base as int, fuel as nat, s1, namespace, s1, v);
                }
                v
            },
            None => {
                let err = RlispError::unbound_symbol(symbol);
                proof {
                    let slot = Slot::Error(err);
                    assert forall|o: Object| #[trigger] slot.holds(o) implies self.heap.valid(
                        o,
                    ) by {}
                }
                let r = self.alloc_error(err);
                proof {
                    old(self).lemma_get_run(base as int, fuel as nat, s1, namespace, *self, r);
                }
                r
            },
        }
    }

    /// `(set namespace symbol value)`: binds `symbol`, in the namespace that
    /// `namespace` evaluates to, to the value of `value`; the value is what
    /// the symbol was bound to there before, or `nil`.
    pub fn form_set<H: FloatOps>(&mut self, host: &H, base: usize, n: usize, fuel: usize) -> (r:
        Object)
        requires
            old(self).inv(),
            old(self).stack@.len() == base + n,
        ensures
            old(self).evaluated_to(*final(self), r),
            n != 3 || old(self).stack@[base + n - 2].spec_what_type() != RlispType::Sym
                ==> r.spec_what_type() == RlispType::Error,
            old(self).set_run(base as int, n as nat, fuel as nat, *final(self), r),
        decreases fuel, 3nat,
    {
        if n != 3 {
            return self.bad_args_count_error(n, 3, Some(3));
        }
        let symbol = self.arg_at(base, n, 1);
        if !symbol.symbolp() {
            return self.wrong_type_error(RlispType::Sym, symbol.what_type());
        }
        let place = self.arg_at(base, n, 0);
        let namespace = self.evaluate_within(host, place, fuel);
        let ghost s0 = *self;
        let ghost ns = namespace;
        if namespace.errorp() {
            proof {
                old(self).lemma_set_run_refused(base as int, fuel as nat, s0, ns, s0, ns);
            }
            return namespace;
        }
        if !namespace.namespacep() {
            let r = self.wrong_type_error(RlispType::Namespace, namespace.what_type());
            proof {
                old(self).lemma_set_run_refused(base as int, fuel as nat, s0, ns, *self, r);
            }
            return r;
        }
        self.push(namespace);
        let ghost s1 = *self;
        let form = self.stack[self.stack.len() - 2 - 2];
        proof {
            assert(form == old(self).stack@[base + n - 1 - 2]);
            assert(form == s1.arg(base as int, 3, 2));
        }
        let value = self.evaluate_within(host, form, fuel);
        let ghost s3 = *self;
        let namespace = self.pop();
        proof {
            assert(self.stack@ =~= old(self).stack@);
            assert(self.stack@ =~= s3.stack@.take(base + 3));
            assert(namespace == ns);
        }
        if value.errorp() {
            proof {
                old(self).lemma_set_run(
                    base as int,
                    fuel as nat,
                    s0,
                    ns,
                    s1,
                    s3,
                    *self,
                    value,
                    *self,
                    value,
                );
            }
            return value;
        }
        let symbol = self.arg_at(base, n, 1);
        let ghost s2 = *self;
        let r = self.insert_in_namespace(namespace, symbol, value);
        proof {
            old(self).lemma_set_run(
                base as int,
                fuel as nat,
                s0,
                ns,
                s1,
                s3,
                s2,
                value,
                *self,
                r,
            );
        }
        r
    }

    /// Binds the symbol `symbol` to `value` in the namespace `namespace`,
    /// and returns what it was bound to there before, or `nil`.
    pub fn insert_in_namespace(&mut self, namespace: Object, symbol: Object, value: Object) -> (r:
        Object)
        requires
            old(self).inv(),
            old(self).heap.valid(namespace),
            old(self).heap.valid(symbol),
            old(self).heap.valid(value),
            namespace.spec_what_type() == RlispType::Namespace,
            symbol.spec_what_type() == RlispType::Sym,
        ensures
            final(self).inv(),
            old(self).inserted(*final(self), namespace, symbol, value, r),
            final(self).heap.valid(r),
    {
        proof {
            self.heap.lemma_valid_reference(namespace);
            self.heap.lemma_valid_reference(symbol);
        }
        let ghost s2 = *self;
        let ghost i = namespace.spec_index();
        let before = self.heap.namespace_insert(namespace.index(), symbol.index(), value);
        proof {
            assert forall|j: int|
                0 <= j < self.heap.slots@.len() && (#[trigger] self.heap.slots@[j]) is Sym
                    implies s2.heap.at(j) is Sym by {
                assert(self.heap.slots@[j] == self.heap.at(j));
                if j != i {
                    assert(self.heap.at(j) == s2.heap.at(j));
                }
            }
            assert forall|j: int| 0 <= j < self.heap.slots@.len() implies (
            #[trigger] self.heap.slots@[j]).marking() < s2.current_gc_mark by {
                assert(self.heap.slots@[j] == self.heap.at(j));
                assert(s2.heap.at(j) == s2.heap.slots@[j]);
                if j != i {
                    assert(self.heap.at(j) == s2.heap.at(j));
                }
            }
            s2.lemma_inv_kept(*self);
        }
        match before {
            Some(v) => {
                proof {
                    assert(s2.heap.slot_ok(s2.heap.slots@[i]));
                    match s2.heap.slots@[i] {
                        Slot::Namespace(t) => {
                            assert(t.table@.contains_value(v));
                        },
                        _ => {},
                    }
                    assert(s2.heap.slots@[i].holds(v));
                    s2.heap.lemma_valid_kept(self.heap, v);
                }
                v
            },
            None => Object::nil(),
        }
    }
}

} // verus!
