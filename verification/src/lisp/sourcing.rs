//! What defining the native functions, the special forms and the variables
//! does to a runtime, as relations between the runtime before and the
//! runtime after, and what a runtime is that has just started.

use super::allocate::{Heap, Slot};
use super::{Lisp, DEFAULT_MAX_DEPTH, INITIAL_GC_THRESHOLD};
use crate::builtins::{Name, RlispBuiltinFunc, RlispSpecialForm};
use crate::evaluator::semantics::{stage, stage_failed, stages};
use crate::types::function::FunctionBody;
use crate::types::into_object::IntoObject;
use crate::types::{Object, RlispFunc, RlispType};
use vstd::prelude::*;
use vstd::string::StringSliceAdditionalSpecFns;

verus! {

/// A native function or a special form to define: its name, the names of
/// its parameters, and what it does.
pub type Row = (Name, Seq<Name>, FunctionBody);

/// Names whether four steps went without an error.
pub open spec fn stage_flags(a: bool, b: bool, c: bool, d: bool) -> bool {
    true
}

/// Names a runtime in between and whether a step went without an error.
pub open spec fn stage_done(s: Lisp, done: bool) -> bool {
    true
}

/// Names the symbols of the parameters and the list of them.
pub open spec fn stage_list(syms: Seq<Object>, list: Object) -> bool {
    true
}

/// The rows of a table of native functions.
pub open spec fn builtin_rows(table: Seq<(Name, Vec<Name>, RlispBuiltinFunc)>) -> Seq<Row> {
    Seq::new(table.len(), |i: int| (table[i].0, table[i].1@, FunctionBody::RustFn(table[i].2)))
}

/// The rows of a table of special forms.
pub open spec fn form_rows(table: Seq<(Name, Vec<Name>, RlispSpecialForm)>) -> Seq<Row> {
    Seq::new(
        table.len(),
        |i: int| (table[i].0, table[i].1@, FunctionBody::SpecialForm(table[i].2)),
    )
}

/// The rows for the native functions `funcs`, each under its own name and
/// with its own parameters.
pub open spec fn rows_of_builtins(funcs: Seq<RlispBuiltinFunc>) -> Seq<Row> {
    Seq::new(
        funcs.len(),
        |i: int| (funcs[i].spec_name(), funcs[i].spec_arglist(), FunctionBody::RustFn(funcs[i])),
    )
}

/// The rows for the special forms `forms`, each under its own name and with
/// its own parameters.
pub open spec fn rows_of_forms(forms: Seq<RlispSpecialForm>) -> Seq<Row> {
    Seq::new(
        forms.len(),
        |i: int|
            (forms[i].spec_name(), forms[i].spec_arglist(), FunctionBody::SpecialForm(forms[i])),
    )
}

impl Lisp {
    /// The names `params`, from name `i` on, are interned one after the
    /// other, after the symbols `so_far`: `syms` holds all the symbols. The
    /// first name for which no slot is left ends this: `failed` holds the
    /// full-heap error.
    pub open spec fn params_interned(
        self,
        params: Seq<Name>,
        i: nat,
        so_far: Seq<Object>,
        later: Lisp,
        syms: Seq<Object>,
        failed: Option<Object>,
    ) -> bool
        decreases params.len() - i,
    {
        if i >= params.len() {
            later == self && syms == so_far && failed is None
        } else {
            exists|s1: Lisp, sym: Object|
                #![trigger stage(s1, sym)]
                stage(s1, sym) && self.interned(s1, params[i as int].spec_bytes(), sym) && (
                if sym.spec_what_type() == RlispType::Error {
                    later == s1 && failed == Some(sym)
                } else {
                    s1.params_interned(params, i + 1, so_far.push(sym), later, syms, failed)
                })
        }
    }

    /// What `define_native` does: the name is interned, then the names of
    /// the parameters; the list of these is built; the function with that
    /// name, that list and the body `body` goes on the heap; and the name is
    /// bound to it as `set_symbol` does. `r` is the function. Where the heap
    /// has no slot left for one of these, `r` is the full-heap error and
    /// nothing more is done.
    pub open spec fn native_defined(
        self,
        name: Seq<u8>,
        params: Seq<Name>,
        body: FunctionBody,
        later: Lisp,
        r: Object,
    ) -> bool {
        exists|s1: Lisp, name_sym: Object|
            #![trigger stage(s1, name_sym)]
            stage(s1, name_sym) && self.interned(s1, name, name_sym) && (
            if name_sym.spec_what_type() == RlispType::Error {
                later == s1 && r == name_sym
            } else {
                s1.native_named(name_sym, params, body, later, r)
            })
    }

    /// What `define_native` does once the name is the symbol `name_sym`.
    pub open spec fn native_named(
        self,
        name_sym: Object,
        params: Seq<Name>,
        body: FunctionBody,
        later: Lisp,
        r: Object,
    ) -> bool {
        exists|s2: Lisp, s3: Lisp, syms: Seq<Object>, failed: Option<Object>, list: Object|
            #![trigger stages(s2, s3), stage_failed(s2, failed), stage_list(syms, list)]
            {
                &&& stages(s2, s3)
                &&& stage_failed(s2, failed)
                &&& stage_list(syms, list)
                &&& self.params_interned(params, 0, Seq::empty(), s2, syms, failed)
                &&& match failed {
                    Some(e) => later == s2 && r == e,
                    None => {
                        &&& s2.chain_run(syms, Object::spec_nil(), s3, list)
                        &&& if list.spec_what_type() == RlispType::Error {
                            later == s3 && r == list
                        } else {
                            s3.native_put(name_sym, list, body, later, r)
                        }
                    },
                }
            }
    }

    /// What `define_native` does once the parameters are the list `list`.
    pub open spec fn native_put(
        self,
        name_sym: Object,
        list: Object,
        body: FunctionBody,
        later: Lisp,
        r: Object,
    ) -> bool {
        exists|s4: Lisp|
            #![trigger stage(s4, r)]
            {
                &&& stage(s4, r)
                &&& self.allocated(
                    s4,
                    Slot::Function(
                        RlispFunc {
                            arglist: Some(list),
                            body,
                            scope: None,
                            gc_marking: 0,
                            name: Some(name_sym),
                        },
                    ),
                    r,
                )
                &&& if r.spec_what_type() == RlispType::Error {
                    later == s4
                } else {
                    s4.bound(later, name_sym.spec_index() as u64, r)
                }
            }
    }

    /// An error ends `define_native` while the parameters are interned.
    pub proof fn lemma_native_named_failed(
        self,
        name_sym: Object,
        params: Seq<Name>,
        body: FunctionBody,
        s2: Lisp,
        syms: Seq<Object>,
        e: Object,
    )
        requires
            self.params_interned(params, 0, Seq::empty(), s2, syms, Some(e)),
        ensures
            self.native_named(name_sym, params, body, s2, e),
    {
        assert(stages(s2, s2));
        assert(stage_failed(s2, Some(e)));
        assert(stage_list(syms, e));
    }

    /// What `define_native` does once the parameters are interned.
    pub proof fn lemma_native_named(
        self,
        name_sym: Object,
        params: Seq<Name>,
        body: FunctionBody,
        s2: Lisp,
        syms: Seq<Object>,
        s3: Lisp,
        list: Object,
        later: Lisp,
        r: Object,
    )
        requires
            self.params_interned(params, 0, Seq::empty(), s2, syms, None),
            s2.chain_run(syms, Object::spec_nil(), s3, list),
            if list.spec_what_type() == RlispType::Error {
                later == s3 && r == list
            } else {
                s3.native_put(name_sym, list, body, later, r)
            },
        ensures
            self.native_named(name_sym, params, body, later, r),
    {
        assert(stages(s2, s3));
        assert(stage_failed(s2, None));
        assert(stage_list(syms, list));
    }

    /// What `define_native` does once the function is on the heap.
    pub proof fn lemma_native_put(
        self,
        name_sym: Object,
        list: Object,
        body: FunctionBody,
        s4: Lisp,
        later: Lisp,
        r: Object,
    )
        requires
            self.allocated(
                s4,
                Slot::Function(
                    RlispFunc {
                        arglist: Some(list),
                        body,
                        scope: None,
                        gc_marking: 0,
                        name: Some(name_sym),
                    },
                ),
                r,
            ),
            if r.spec_what_type() == RlispType::Error {
                later == s4
            } else {
                s4.bound(later, name_sym.spec_index() as u64, r)
            },
        ensures
            self.native_put(name_sym, list, body, later, r),
    {
        assert(stage(s4, r));
    }

    /// What `define_native` does once the name is interned.
    pub proof fn lemma_native_defined(
        self,
        name: Seq<u8>,
        params: Seq<Name>,
        body: FunctionBody,
        s1: Lisp,
        name_sym: Object,
        later: Lisp,
        r: Object,
    )
        requires
            self.interned(s1, name, name_sym),
            if name_sym.spec_what_type() == RlispType::Error {
                later == s1 && r == name_sym
            } else {
                s1.native_named(name_sym, params, body, later, r)
            },
        ensures
            self.native_defined(name, params, body, later, r),
    {
        assert(stage(s1, name_sym));
    }

    /// What the rows give once row `i` is defined.
    pub proof fn lemma_natives_sourced_next(
        self,
        rows: Seq<Row>,
        i: nat,
        ok: bool,
        s1: Lisp,
        r: Object,
        later: Lisp,
        res: bool,
    )
        requires
            i < rows.len(),
            self.native_defined(
                rows[i as int].0.spec_bytes(),
                rows[i as int].1,
                rows[i as int].2,
                s1,
                r,
            ),
            s1.natives_sourced(
                rows,
                i + 1,
                ok && r.spec_what_type() != RlispType::Error,
                later,
                res,
            ),
        ensures
            self.natives_sourced(rows, i, ok, later, res),
    {
        assert(stage(s1, r));
    }

    /// What a variable's definition gives, step by step.
    pub proof fn lemma_var_defined(
        self,
        name: Name,
        val: IntoObject,
        s1: Lisp,
        sym: Object,
        s2: Lisp,
        obj: Object,
        later: Lisp,
        ok: bool,
    )
        requires
            self.interned(s1, name.spec_bytes(), sym),
            if sym.spec_what_type() == RlispType::Error {
                later == s1 && !ok
            } else {
                &&& s1.converted(val, s2, obj)
                &&& if obj.spec_what_type() == RlispType::Error {
                    later == s2 && !ok
                } else {
                    s2.bound(later, sym.spec_index() as u64, obj) && ok
                }
            },
        ensures
            self.var_defined(name, val, later, ok),
    {
        assert(stage(s1, sym));
        assert(stage(s2, obj));
    }

    /// What the variables give once the last one is defined.
    pub proof fn lemma_vars_sourced_next(
        self,
        vars: Seq<(Name, IntoObject)>,
        ok: bool,
        s1: Lisp,
        done: bool,
        later: Lisp,
        res: bool,
    )
        requires
            vars.len() > 0,
            self.var_defined(vars.last().0, vars.last().1, s1, done),
            s1.vars_sourced(vars.drop_last(), ok && done, later, res),
        ensures
            self.vars_sourced(vars, ok, later, res),
    {
        assert(stage_done(s1, done));
    }

    /// What a runtime is that has just started, step by step.
    pub proof fn lemma_started(
        self,
        s0: Lisp,
        s1: Lisp,
        s2: Lisp,
        s3: Lisp,
        a: bool,
        b: bool,
        c: bool,
        d: bool,
    )
        requires
            s0.is_bare(),
            s0.vars_sourced(crate::builtins::spec_builtin_vars(), true, s1, a),
            s1.natives_sourced(
                rows_of_forms(crate::builtins::spec_special_forms()),
                0,
                true,
                s2,
                b,
            ),
            s2.natives_sourced(
                rows_of_builtins(crate::builtins::spec_builtins()),
                0,
                true,
                s3,
                c,
            ),
            s3.natives_sourced(
                rows_of_builtins(crate::math::spec_builtins()),
                0,
                true,
                self,
                d,
            ),
        ensures
            self.started(),
    {
        assert(stages(s0, s1));
        assert(stages(s2, s3));
        assert(stage_flags(a, b, c, d));
    }

    /// The rows `rows` are defined, from row `i` on, one after the other, as
    /// `native_defined` says. `res` is true iff `ok` is and none of them
    /// gave an error.
    pub open spec fn natives_sourced(
        self,
        rows: Seq<Row>,
        i: nat,
        ok: bool,
        later: Lisp,
        res: bool,
    ) -> bool
        decreases rows.len() - i,
    {
        if i >= rows.len() {
            later == self && res == ok
        } else {
            exists|s1: Lisp, r: Object|
                #![trigger stage(s1, r)]
                stage(s1, r) && self.native_defined(
                    rows[i as int].0.spec_bytes(),
                    rows[i as int].1,
                    rows[i as int].2,
                    s1,
                    r,
                ) && s1.natives_sourced(
                    rows,
                    i + 1,
                    ok && r.spec_what_type() != RlispType::Error,
                    later,
                    res,
                )
        }
    }

    /// What `convert_into_object` does: `r` is the value that `val` stands
    /// for, a double or a boolean as it is, a string or an error as a new
    /// value on the heap.
    pub open spec fn converted(self, val: IntoObject, later: Lisp, r: Object) -> bool {
        match val {
            IntoObject::Num(bits) => later == self && r == Object::spec_from_float_bits(bits),
            IntoObject::Bool(b) => later == self && r == (if b {
                Object::spec_t()
            } else {
                Object::spec_nil()
            }),
            IntoObject::String(s) => self.string_made(later, s.spec_bytes(), r),
            IntoObject::Error(e) => self.allocated(later, Slot::Error(e), r),
        }
    }

    /// The variable `name` is defined with the value that `val` stands for:
    /// the name is interned, the value made, and the name bound to it as
    /// `set_symbol` does. `ok` is false iff the heap had no slot left for
    /// the symbol or for the value.
    pub open spec fn var_defined(self, name: Name, val: IntoObject, later: Lisp, ok: bool) -> bool {
        exists|s1: Lisp, sym: Object, s2: Lisp, obj: Object|
            #![trigger stage(s1, sym), stage(s2, obj)]
            {
                &&& stage(s1, sym)
                &&& stage(s2, obj)
                &&& self.interned(s1, name.spec_bytes(), sym)
                &&& if sym.spec_what_type() == RlispType::Error {
                    later == s1 && !ok
                } else {
                    &&& s1.converted(val, s2, obj)
                    &&& if obj.spec_what_type() == RlispType::Error {
                        later == s2 && !ok
                    } else {
                        s2.bound(later, sym.spec_index() as u64, obj) && ok
                    }
                }
            }
    }

    /// The variables `vars` are defined, from the last to the first, as
    /// `var_defined` says. `res` is true iff `ok` is and none of them
    /// failed.
    pub open spec fn vars_sourced(
        self,
        vars: Seq<(Name, IntoObject)>,
        ok: bool,
        later: Lisp,
        res: bool,
    ) -> bool
        decreases vars.len(),
    {
        if vars.len() == 0 {
            later == self && res == ok
        } else {
            exists|s1: Lisp, done: bool|
                #![trigger stage_done(s1, done)]
                stage_done(s1, done) && self.var_defined(vars.last().0, vars.last().1, s1, done) && s1.vars_sourced(
                    vars.drop_last(),
                    ok && done,
                    later,
                    res,
                )
        }
    }

    /// True iff the runtime is one with an empty global namespace and
    /// nothing else: what `bare` returns.
    pub open spec fn is_bare(self) -> bool {
        &&& self.inv()
        &&& self.stack@.len() == 0
        &&& self.symbols@ == seq![1u64]
        &&& self.syms_in_memory@.len() == 0
        &&& self.output@.len() == 0
        &&& self.current_gc_mark == 1
        &&& self.gc_threshold == INITIAL_GC_THRESHOLD
        &&& self.max_depth == DEFAULT_MAX_DEPTH
        &&& self.frame(0) == Map::<u64, Object>::empty()
        &&& self.heap.slots@.len() == 2
        &&& self.heap.free@.len() == 0
        &&& self.macro_chars@.len() == 1
        &&& self.macro_chars@[0].0 == 0x27
        &&& self.macro_chars@[0].1@ == "quote".spec_bytes()
    }

    /// True iff the runtime has just started: it is what a bare runtime
    /// becomes when the variables, the special forms, the native functions
    /// and the native functions on numbers that the language starts with
    /// are defined, in this order.
    pub open spec fn started(self) -> bool {
        exists|s0: Lisp, s1: Lisp, s2: Lisp, s3: Lisp, a: bool, b: bool, c: bool, d: bool|
            #![trigger stages(s0, s1), stages(s2, s3), stage_flags(a, b, c, d)]
            {
                &&& stages(s0, s1)
                &&& stages(s2, s3)
                &&& stage_flags(a, b, c, d)
                &&& s0.is_bare()
                &&& s0.vars_sourced(crate::builtins::spec_builtin_vars(), true, s1, a)
                &&& s1.natives_sourced(
                    rows_of_forms(crate::builtins::spec_special_forms()),
                    0,
                    true,
                    s2,
                    b,
                )
                &&& s2.natives_sourced(
                    rows_of_builtins(crate::builtins::spec_builtins()),
                    0,
                    true,
                    s3,
                    c,
                )
                &&& s3.natives_sourced(
                    rows_of_builtins(crate::math::spec_builtins()),
                    0,
                    true,
                    self,
                    d,
                )
            }
    }
}

} // verus!
