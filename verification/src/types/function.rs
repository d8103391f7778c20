//! Function values. The functions of `builtins` make them and the evaluator
//! calls them.

use super::Object;
use crate::builtins::{RlispBuiltinFunc, RlispSpecialForm};
use crate::gc::GcMark;
use vstd::prelude::*;

verus! {

/// What a name in a parameter list stands for.
#[derive(Copy, Clone, PartialEq, Eq, Structural, Debug)]
pub enum ArgType {
    Mandatory,
    Optional,
    Rest,
}

pub struct RlispFunc {
    /// The parameter list: `None` where the function takes the argument
    /// count as it comes and checks nothing.
    pub arglist: Option<Object>,
    pub body: FunctionBody,
    /// The frames that were active where the function was made.
    pub scope: Option<Vec<u64>>,
    pub gc_marking: GcMark,
    pub name: Option<Object>,
}

pub enum FunctionBody {
    /// A native function.
    RustFn(RlispBuiltinFunc),
    /// The expressions of a function of the language.
    LispFn(Vec<Object>),
    /// A native special form.
    SpecialForm(RlispSpecialForm),
}

impl RlispFunc {
    pub fn from_body(body: Vec<Object>) -> (r: Self)
        ensures
            r.arglist is None,
            r.body matches FunctionBody::LispFn(b) && b@ == body@,
            r.gc_marking == 0,
            r.name is None,
            r.scope is None,
    {
        Self {
            arglist: None,
            body: FunctionBody::LispFn(body),
            gc_marking: 0,
            name: None,
            scope: None,
        }
    }

    pub fn from_builtin(fun: RlispBuiltinFunc) -> (r: Self)
        ensures
            r.arglist is None,
            r.body == FunctionBody::RustFn(fun),
            r.gc_marking == 0,
            r.name is None,
            r.scope is None,
    {
        Self {
            arglist: None,
            body: FunctionBody::RustFn(fun),
            gc_marking: 0,
            name: None,
            scope: None,
        }
    }

    pub fn from_special_form(fun: RlispSpecialForm) -> (r: Self)
        ensures
            r.arglist is None,
            r.body == FunctionBody::SpecialForm(fun),
            r.gc_marking == 0,
            r.name is None,
            r.scope is None,
    {
        Self {
            arglist: None,
            body: FunctionBody::SpecialForm(fun),
            gc_marking: 0,
            name: None,
            scope: None,
        }
    }

    pub fn with_arglist(self, arglist: Object) -> (r: Self)
        ensures
            r == (RlispFunc { arglist: Some(arglist), ..self }),
    {
        let mut me = self;
        me.arglist = Some(arglist);
        me
    }

    pub fn with_name(self, name: Object) -> (r: Self)
        ensures
            r == (RlispFunc { name: Some(name), ..self }),
    {
        let mut me = self;
        me.name = Some(name);
        me
    }

    pub fn with_scope(self, scope: Vec<u64>) -> (r: Self)
        ensures
            r == (RlispFunc { scope: Some(scope), ..self }),
    {
        let mut me = self;
        me.scope = Some(scope);
        me
    }
}

} // verus!
