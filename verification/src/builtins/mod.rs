//! The functions and special forms that the runtime starts with.

use crate::lisp::Lisp;
use crate::result::ErrorKind;
use crate::types::into_object::IntoObject;
use crate::types::{FloatOps, Object, RlispType};
use vstd::prelude::*;

pub mod form_semantics;
pub mod native_semantics;
pub mod special_forms;

verus! {

/// The name under which a native function or a special form is bound.
pub type Name = &'static str;

/// The names of the parameters, with `&optional` and `&rest` among them.
pub type Arglist = Vec<Name>;

pub type RlispBuiltinTuple = (Name, Arglist, RlispBuiltinFunc);

pub type RlispBuiltins = Vec<RlispBuiltinTuple>;

pub type RlispSpecialForms = Vec<(Name, Arglist, RlispSpecialForm)>;

pub type RlispBuiltinVars = Vec<(Name, IntoObject)>;

/// The native functions. Each gets its arguments evaluated.
#[derive(Copy, Clone, PartialEq, Eq, Structural, Debug)]
pub enum RlispBuiltinFunc {
    Consp,
    Numberp,
    Integerp,
    Floatp,
    Symbolp,
    Stringp,
    Functionp,
    Boolp,
    Namespacep,
    Placep,
    Cons,
    List,
    Debug,
    Print,
    Eq,
    WrongTypeError,
    WrongArgCountError,
    ImproperListError,
    UnboundSymbolError,
    TypeDesignatorError,
    UndefinedSymbolError,
    IndexOutOfBoundsError,
    Error,
    GlobalNamespace,
    TypeOf,
    Car,
    Cdr,
    Nth,
    NumEq,
    Mul,
    Add,
    Sub,
    Div,
    Lt,
    Le,
    Gt,
    Ge,
    Rem,
    Mod,
    Trunc,
    Floor,
    Ceil,
    Round,
    Flatten,
    Abs,
}

/// The special forms. Each gets its arguments as they were written and
/// decides itself what to evaluate, and when.
#[derive(Copy, Clone, PartialEq, Eq, Structural, Debug)]
pub enum RlispSpecialForm {
    Cond,
    Let,
    Setq,
    Quote,
    If,
    Defun,
    Defvar,
    CatchError,
    Lambda,
    CheckType,
    NamespaceGet,
    NamespaceSet,
    MakeNamespace,
}

impl RlispSpecialForm {
    /// The name under which the form is bound.
    pub open spec fn spec_name(self) -> Name {
        match self {
            RlispSpecialForm::Cond => "cond",
            RlispSpecialForm::Let => "let",
            RlispSpecialForm::Setq => "setq",
            RlispSpecialForm::Quote => "quote",
            RlispSpecialForm::If => "if",
            RlispSpecialForm::Defun => "defun",
            RlispSpecialForm::Defvar => "defvar",
            RlispSpecialForm::CatchError => "catch-error",
            RlispSpecialForm::Lambda => "lambda",
            RlispSpecialForm::CheckType => "check-type",
            RlispSpecialForm::NamespaceGet => "get",
            RlispSpecialForm::NamespaceSet => "set",
            RlispSpecialForm::MakeNamespace => "make-namespace",
        }
    }

    /// The name under which the form is bound.
    pub fn name(self) -> (r: Name)
        ensures
            r == self.spec_name(),
    {
        match self {
            RlispSpecialForm::Cond => "cond",
            RlispSpecialForm::Let => "let",
            RlispSpecialForm::Setq => "setq",
            RlispSpecialForm::Quote => "quote",
            RlispSpecialForm::If => "if",
            RlispSpecialForm::Defun => "defun",
            RlispSpecialForm::Defvar => "defvar",
            RlispSpecialForm::CatchError => "catch-error",
            RlispSpecialForm::Lambda => "lambda",
            RlispSpecialForm::CheckType => "check-type",
            RlispSpecialForm::NamespaceGet => "get",
            RlispSpecialForm::NamespaceSet => "set",
            RlispSpecialForm::MakeNamespace => "make-namespace",
        }
    }

    /// The parameters of the form.
    pub open spec fn spec_arglist(self) -> Seq<Name> {
        match self {
            RlispSpecialForm::Cond => seq!["&rest", "clauses"],
            RlispSpecialForm::Let => seq!["bindings", "&rest", "body"],
            RlispSpecialForm::Setq => seq!["symbol", "value", "&rest", "symbols", "values"],
            RlispSpecialForm::Quote => seq!["x"],
            RlispSpecialForm::If => seq!["predicate", "ifclause", "&rest", "elseclauses"],
            RlispSpecialForm::Defun => seq!["name", "arglist", "&rest", "body"],
            RlispSpecialForm::Defvar => seq!["name", "value"],
            RlispSpecialForm::CatchError => seq!["statement", "&rest", "handlers"],
            RlispSpecialForm::Lambda => seq!["args", "&rest", "body"],
            RlispSpecialForm::CheckType => seq!["&rest", "objects", "typenames"],
            RlispSpecialForm::NamespaceGet => seq!["namespace", "symbol"],
            RlispSpecialForm::NamespaceSet => seq!["namespace", "symbol", "value"],
            RlispSpecialForm::MakeNamespace => seq!["&optional", "name"],
        }
    }

    /// The parameters of the form.
    pub fn arglist(self) -> (r: Arglist)
        ensures
            r@ == self.spec_arglist(),
    {
        match self {
            RlispSpecialForm::Cond => vec!["&rest", "clauses"],
            RlispSpecialForm::Let => vec!["bindings", "&rest", "body"],
            RlispSpecialForm::Setq => vec!["symbol", "value", "&rest", "symbols", "values"],
            RlispSpecialForm::Quote => vec!["x"],
            RlispSpecialForm::If => vec!["predicate", "ifclause", "&rest", "elseclauses"],
            RlispSpecialForm::Defun => vec!["name", "arglist", "&rest", "body"],
            RlispSpecialForm::Defvar => vec!["name", "value"],
            RlispSpecialForm::CatchError => vec!["statement", "&rest", "handlers"],
            RlispSpecialForm::Lambda => vec!["args", "&rest", "body"],
            RlispSpecialForm::CheckType => vec!["&rest", "objects", "typenames"],
            RlispSpecialForm::NamespaceGet => vec!["namespace", "symbol"],
            RlispSpecialForm::NamespaceSet => vec!["namespace", "symbol", "value"],
            RlispSpecialForm::MakeNamespace => vec!["&optional", "name"],
        }
    }
}

impl RlispBuiltinFunc {
    /// The name under which the function is bound.
    pub open spec fn spec_name(self) -> Name {
        match self {
            RlispBuiltinFunc::Consp => "consp",
            RlispBuiltinFunc::Numberp => "numberp",
            RlispBuiltinFunc::Integerp => "integerp",
            RlispBuiltinFunc::Floatp => "floatp",
            RlispBuiltinFunc::Symbolp => "symbolp",
            RlispBuiltinFunc::Stringp => "stringp",
            RlispBuiltinFunc::Functionp => "functionp",
            RlispBuiltinFunc::Boolp => "boolp",
            RlispBuiltinFunc::Namespacep => "namespacep",
            RlispBuiltinFunc::Placep => "placep",
            RlispBuiltinFunc::Cons => "cons",
            RlispBuiltinFunc::List => "list",
            RlispBuiltinFunc::Debug => "debug",
            RlispBuiltinFunc::Print => "print",
            RlispBuiltinFunc::Eq => "eq",
            RlispBuiltinFunc::WrongTypeError => "wrong-type-error",
            RlispBuiltinFunc::WrongArgCountError => "wrong-arg-count-error",
            RlispBuiltinFunc::ImproperListError => "improper-list-error",
            RlispBuiltinFunc::UnboundSymbolError => "unbound-symbol-error",
            RlispBuiltinFunc::TypeDesignatorError => "type-designator-error",
            RlispBuiltinFunc::UndefinedSymbolError => "undefined-symbol-error",
            RlispBuiltinFunc::IndexOutOfBoundsError => "index-out-of-bounds-error",
            RlispBuiltinFunc::Error => "error",
            RlispBuiltinFunc::GlobalNamespace => "global-namespace",
            RlispBuiltinFunc::TypeOf => "type-of",
            RlispBuiltinFunc::Car => "car",
            RlispBuiltinFunc::Cdr => "cdr",
            RlispBuiltinFunc::Nth => "nth",
            RlispBuiltinFunc::NumEq => "=",
            RlispBuiltinFunc::Mul => "*",
            RlispBuiltinFunc::Add => "+",
            RlispBuiltinFunc::Sub => "-",
            RlispBuiltinFunc::Div => "/",
            RlispBuiltinFunc::Lt => "<",
            RlispBuiltinFunc::Le => "<=",
            RlispBuiltinFunc::Gt => ">",
            RlispBuiltinFunc::Ge => ">=",
            RlispBuiltinFunc::Rem => "rem",
            RlispBuiltinFunc::Mod => "mod",
            RlispBuiltinFunc::Trunc => "trunc",
            RlispBuiltinFunc::Floor => "floor",
            RlispBuiltinFunc::Ceil => "ceil",
            RlispBuiltinFunc::Round => "round",
            RlispBuiltinFunc::Flatten => "flatten",
            RlispBuiltinFunc::Abs => "abs",
        }
    }

    /// The name under which the function is bound.
    pub fn name(self) -> (r: Name)
        ensures
            r == self.spec_name(),
    {
        match self {
            RlispBuiltinFunc::Consp => "consp",
            RlispBuiltinFunc::Numberp => "numberp",
            RlispBuiltinFunc::Integerp => "integerp",
            RlispBuiltinFunc::Floatp => "floatp",
            RlispBuiltinFunc::Symbolp => "symbolp",
            RlispBuiltinFunc::Stringp => "stringp",
            RlispBuiltinFunc::Functionp => "functionp",
            RlispBuiltinFunc::Boolp => "boolp",
            RlispBuiltinFunc::Namespacep => "namespacep",
            RlispBuiltinFunc::Placep => "placep",
            RlispBuiltinFunc::Cons => "cons",
            RlispBuiltinFunc::List => "list",
            RlispBuiltinFunc::Debug => "debug",
            RlispBuiltinFunc::Print => "print",
            RlispBuiltinFunc::Eq => "eq",
            RlispBuiltinFunc::WrongTypeError => "wrong-type-error",
            RlispBuiltinFunc::WrongArgCountError => "wrong-arg-count-error",
            RlispBuiltinFunc::ImproperListError => "improper-list-error",
            RlispBuiltinFunc::UnboundSymbolError => "unbound-symbol-error",
            RlispBuiltinFunc::TypeDesignatorError => "type-designator-error",
            RlispBuiltinFunc::UndefinedSymbolError => "undefined-symbol-error",
            RlispBuiltinFunc::IndexOutOfBoundsError => "index-out-of-bounds-error",
            RlispBuiltinFunc::Error => "error",
            RlispBuiltinFunc::GlobalNamespace => "global-namespace",
            RlispBuiltinFunc::TypeOf => "type-of",
            RlispBuiltinFunc::Car => "car",
            RlispBuiltinFunc::Cdr => "cdr",
            RlispBuiltinFunc::Nth => "nth",
            RlispBuiltinFunc::NumEq => "=",
            RlispBuiltinFunc::Mul => "*",
            RlispBuiltinFunc::Add => "+",
            RlispBuiltinFunc::Sub => "-",
            RlispBuiltinFunc::Div => "/",
            RlispBuiltinFunc::Lt => "<",
            RlispBuiltinFunc::Le => "<=",
            RlispBuiltinFunc::Gt => ">",
            RlispBuiltinFunc::Ge => ">=",
            RlispBuiltinFunc::Rem => "rem",
            RlispBuiltinFunc::Mod => "mod",
            RlispBuiltinFunc::Trunc => "trunc",
            RlispBuiltinFunc::Floor => "floor",
            RlispBuiltinFunc::Ceil => "ceil",
            RlispBuiltinFunc::Round => "round",
            RlispBuiltinFunc::Flatten => "flatten",
            RlispBuiltinFunc::Abs => "abs",
        }
    }

    /// The parameters of the function.
    pub open spec fn spec_arglist(self) -> Seq<Name> {
        match self {
            RlispBuiltinFunc::Consp => seq!["c"],
            RlispBuiltinFunc::Numberp => seq!["n"],
            RlispBuiltinFunc::Integerp => seq!["n"],
            RlispBuiltinFunc::Floatp => seq!["n"],
            RlispBuiltinFunc::Symbolp => seq!["s"],
            RlispBuiltinFunc::Stringp => seq!["s"],
            RlispBuiltinFunc::Functionp => seq!["f"],
            RlispBuiltinFunc::Boolp => seq!["b"],
            RlispBuiltinFunc::Namespacep => seq!["n"],
            RlispBuiltinFunc::Placep => seq!["p"],
            RlispBuiltinFunc::Cons => seq!["car", "cdr"],
            RlispBuiltinFunc::List => seq!["&rest", "items"],
            RlispBuiltinFunc::Debug => seq!["obj"],
            RlispBuiltinFunc::Print => seq!["&rest", "objects"],
            RlispBuiltinFunc::Eq => seq!["first", "&rest", "objects"],
            RlispBuiltinFunc::WrongTypeError => seq!["wanted", "found"],
            RlispBuiltinFunc::WrongArgCountError => seq!["found", "min", "&optional", "max"],
            RlispBuiltinFunc::ImproperListError => Seq::empty(),
            RlispBuiltinFunc::UnboundSymbolError => seq!["sym"],
            RlispBuiltinFunc::TypeDesignatorError => seq!["designator"],
            RlispBuiltinFunc::UndefinedSymbolError => seq!["sym"],
            RlispBuiltinFunc::IndexOutOfBoundsError => seq!["idx", "reciever"],
            RlispBuiltinFunc::Error => seq!["kind", "&rest", "info"],
            RlispBuiltinFunc::GlobalNamespace => Seq::empty(),
            RlispBuiltinFunc::TypeOf => seq!["x"],
            RlispBuiltinFunc::Car => seq!["cons"],
            RlispBuiltinFunc::Cdr => seq!["cons"],
            RlispBuiltinFunc::Nth => seq!["list", "n"],
            RlispBuiltinFunc::NumEq => seq!["first", "&rest", "nums"],
            RlispBuiltinFunc::Mul => seq!["&rest", "nums"],
            RlispBuiltinFunc::Add => seq!["&rest", "nums"],
            RlispBuiltinFunc::Sub => seq!["&rest", "nums"],
            RlispBuiltinFunc::Div => seq!["&rest", "nums"],
            RlispBuiltinFunc::Lt => seq!["lesser", "greater"],
            RlispBuiltinFunc::Le => seq!["lesser", "greater"],
            RlispBuiltinFunc::Gt => seq!["greater", "lesser"],
            RlispBuiltinFunc::Ge => seq!["greater", "lesser"],
            RlispBuiltinFunc::Rem => seq!["num", "divisor"],
            RlispBuiltinFunc::Mod => seq!["num", "modulus"],
            RlispBuiltinFunc::Trunc => seq!["num"],
            RlispBuiltinFunc::Floor => seq!["num"],
            RlispBuiltinFunc::Ceil => seq!["num"],
            RlispBuiltinFunc::Round => seq!["num"],
            RlispBuiltinFunc::Flatten => seq!["num"],
            RlispBuiltinFunc::Abs => seq!["n"],
        }
    }

    /// The parameters of the function.
    pub fn arglist(self) -> (r: Arglist)
        ensures
            r@ == self.spec_arglist(),
    {
        match self {
            RlispBuiltinFunc::Consp => vec!["c"],
            RlispBuiltinFunc::Numberp => vec!["n"],
            RlispBuiltinFunc::Integerp => vec!["n"],
            RlispBuiltinFunc::Floatp => vec!["n"],
            RlispBuiltinFunc::Symbolp => vec!["s"],
            RlispBuiltinFunc::Stringp => vec!["s"],
            RlispBuiltinFunc::Functionp => vec!["f"],
            RlispBuiltinFunc::Boolp => vec!["b"],
            RlispBuiltinFunc::Namespacep => vec!["n"],
            RlispBuiltinFunc::Placep => vec!["p"],
            RlispBuiltinFunc::Cons => vec!["car", "cdr"],
            RlispBuiltinFunc::List => vec!["&rest", "items"],
            RlispBuiltinFunc::Debug => vec!["obj"],
            RlispBuiltinFunc::Print => vec!["&rest", "objects"],
            RlispBuiltinFunc::Eq => vec!["first", "&rest", "objects"],
            RlispBuiltinFunc::WrongTypeError => vec!["wanted", "found"],
            RlispBuiltinFunc::WrongArgCountError => vec!["found", "min", "&optional", "max"],
            RlispBuiltinFunc::ImproperListError => Vec::new(),
            RlispBuiltinFunc::UnboundSymbolError => vec!["sym"],
            RlispBuiltinFunc::TypeDesignatorError => vec!["designator"],
            RlispBuiltinFunc::UndefinedSymbolError => vec!["sym"],
            RlispBuiltinFunc::IndexOutOfBoundsError => vec!["idx", "reciever"],
            RlispBuiltinFunc::Error => vec!["kind", "&rest", "info"],
            RlispBuiltinFunc::GlobalNamespace => Vec::new(),
            RlispBuiltinFunc::TypeOf => vec!["x"],
            RlispBuiltinFunc::Car => vec!["cons"],
            RlispBuiltinFunc::Cdr => vec!["cons"],
            RlispBuiltinFunc::Nth => vec!["list", "n"],
            RlispBuiltinFunc::NumEq => vec!["first", "&rest", "nums"],
            RlispBuiltinFunc::Mul => vec!["&rest", "nums"],
            RlispBuiltinFunc::Add => vec!["&rest", "nums"],
            RlispBuiltinFunc::Sub => vec!["&rest", "nums"],
            RlispBuiltinFunc::Div => vec!["&rest", "nums"],
            RlispBuiltinFunc::Lt => vec!["lesser", "greater"],
            RlispBuiltinFunc::Le => vec!["lesser", "greater"],
            RlispBuiltinFunc::Gt => vec!["greater", "lesser"],
            RlispBuiltinFunc::Ge => vec!["greater", "lesser"],
            RlispBuiltinFunc::Rem => vec!["num", "divisor"],
            RlispBuiltinFunc::Mod => vec!["num", "modulus"],
            RlispBuiltinFunc::Trunc => vec!["num"],
            RlispBuiltinFunc::Floor => vec!["num"],
            RlispBuiltinFunc::Ceil => vec!["num"],
            RlispBuiltinFunc::Round => vec!["num"],
            RlispBuiltinFunc::Flatten => vec!["num"],
            RlispBuiltinFunc::Abs => vec!["n"],
        }
    }
}

/// The table of the functions in `funcs`: each with its name and its
/// parameters.
pub fn table_of(funcs: Vec<RlispBuiltinFunc>) -> (r: RlispBuiltins)
    ensures
        r@.len() == funcs@.len(),
        forall|i: int|
            0 <= i < r@.len() ==> (#[trigger] r@[i]).2 == funcs@[i] && r@[i].0
                == funcs@[i].spec_name() && r@[i].1@ == funcs@[i].spec_arglist(),
{
    let mut out: RlispBuiltins = Vec::new();
    let mut i: usize = 0;
    while i < funcs.len()
        invariant
            i <= funcs@.len(),
            out@.len() == i,
            forall|j: int|
                0 <= j < i ==> (#[trigger] out@[j]).2 == funcs@[j] && out@[j].0
                    == funcs@[j].spec_name() && out@[j].1@ == funcs@[j].spec_arglist(),
        decreases funcs@.len() - i,
    {
        let f = funcs[i];
        out.push((f.name(), f.arglist(), f));
        i += 1;
    }
    out
}

/// The special forms that the runtime starts with, in the order in which
/// they are defined.
pub open spec fn spec_special_forms() -> Seq<RlispSpecialForm> {
    seq![
        RlispSpecialForm::Cond,
        RlispSpecialForm::Let,
        RlispSpecialForm::Setq,
        RlispSpecialForm::Quote,
        RlispSpecialForm::If,
        RlispSpecialForm::Defun,
        RlispSpecialForm::Defvar,
        RlispSpecialForm::CatchError,
        RlispSpecialForm::Lambda,
        RlispSpecialForm::CheckType,
        RlispSpecialForm::NamespaceGet,
        RlispSpecialForm::NamespaceSet,
        RlispSpecialForm::MakeNamespace,
    ]
}

/// The native functions that the runtime starts with, but for those on
/// numbers, in the order in which they are defined.
pub open spec fn spec_builtins() -> Seq<RlispBuiltinFunc> {
    seq![
        RlispBuiltinFunc::Consp,
        RlispBuiltinFunc::Numberp,
        RlispBuiltinFunc::Integerp,
        RlispBuiltinFunc::Floatp,
        RlispBuiltinFunc::Symbolp,
        RlispBuiltinFunc::Stringp,
        RlispBuiltinFunc::Functionp,
        RlispBuiltinFunc::Boolp,
        RlispBuiltinFunc::Namespacep,
        RlispBuiltinFunc::Placep,
        RlispBuiltinFunc::Cons,
        RlispBuiltinFunc::List,
        RlispBuiltinFunc::Debug,
        RlispBuiltinFunc::Print,
        RlispBuiltinFunc::Eq,
        RlispBuiltinFunc::WrongTypeError,
        RlispBuiltinFunc::WrongArgCountError,
        RlispBuiltinFunc::ImproperListError,
        RlispBuiltinFunc::UnboundSymbolError,
        RlispBuiltinFunc::TypeDesignatorError,
        RlispBuiltinFunc::UndefinedSymbolError,
        RlispBuiltinFunc::IndexOutOfBoundsError,
        RlispBuiltinFunc::Error,
        RlispBuiltinFunc::GlobalNamespace,
        RlispBuiltinFunc::TypeOf,
        RlispBuiltinFunc::Car,
        RlispBuiltinFunc::Cdr,
        RlispBuiltinFunc::Nth,
    ]
}

/// The special forms that the runtime starts with: the basic constructs of
/// the language.
pub fn make_special_forms() -> (r: RlispSpecialForms)
    ensures
        crate::lisp::sourcing::form_rows(r@) == crate::lisp::sourcing::rows_of_forms(
            spec_special_forms(),
        ),
        r@.len() == 13,
        r@[0].2 == RlispSpecialForm::Cond,
        r@[1].2 == RlispSpecialForm::Let,
        r@[2].2 == RlispSpecialForm::Setq,
        r@[3].2 == RlispSpecialForm::Quote,
        r@[4].2 == RlispSpecialForm::If,
        r@[5].2 == RlispSpecialForm::Defun,
        r@[6].2 == RlispSpecialForm::Defvar,
        r@[7].2 == RlispSpecialForm::CatchError,
        r@[8].2 == RlispSpecialForm::Lambda,
        r@[9].2 == RlispSpecialForm::CheckType,
        r@[10].2 == RlispSpecialForm::NamespaceGet,
        r@[11].2 == RlispSpecialForm::NamespaceSet,
        r@[12].2 == RlispSpecialForm::MakeNamespace,
        forall|i: int|
            0 <= i < r@.len() ==> (#[trigger] r@[i]).0 == r@[i].2.spec_name() && r@[i].1@
                == r@[i].2.spec_arglist(),
{
    let forms: Vec<RlispSpecialForm> = vec![
        RlispSpecialForm::Cond,
        RlispSpecialForm::Let,
        RlispSpecialForm::Setq,
        RlispSpecialForm::Quote,
        RlispSpecialForm::If,
        RlispSpecialForm::Defun,
        RlispSpecialForm::Defvar,
        RlispSpecialForm::CatchError,
        RlispSpecialForm::Lambda,
        RlispSpecialForm::CheckType,
        RlispSpecialForm::NamespaceGet,
        RlispSpecialForm::NamespaceSet,
        RlispSpecialForm::MakeNamespace,
    ];
    let mut out: RlispSpecialForms = Vec::new();
    let mut i: usize = 0;
    while i < forms.len()
        invariant
            i <= forms@.len(),
            out@.len() == i,
            forall|j: int|
                0 <= j < i ==> (#[trigger] out@[j]).2 == forms@[j] && out@[j].0
                    == forms@[j].spec_name() && out@[j].1@ == forms@[j].spec_arglist(),
        decreases forms@.len() - i,
    {
        let f = forms[i];
        out.push((f.name(), f.arglist(), f));
        i += 1;
    }
    proof {
        assert(forms@ =~= spec_special_forms());
        assert(crate::lisp::sourcing::form_rows(out@) =~= crate::lisp::sourcing::rows_of_forms(
            spec_special_forms(),
        ));
    }
    out
}

/// The native functions that the runtime starts with, but for those on
/// numbers: the tests for types, the constructors, and what serves to look
/// at values.
pub fn make_builtins() -> (r: RlispBuiltins)
    ensures
        crate::lisp::sourcing::builtin_rows(r@) == crate::lisp::sourcing::rows_of_builtins(
            spec_builtins(),
        ),
        r@.len() == 28,
        forall|i: int|
            0 <= i < r@.len() ==> (#[trigger] r@[i]).0 == r@[i].2.spec_name() && r@[i].1@
                == r@[i].2.spec_arglist(),
        r@[0].2 == RlispBuiltinFunc::Consp,
        r@[10].2 == RlispBuiltinFunc::Cons,
        r@[27].2 == RlispBuiltinFunc::Nth,
{
    let funcs: Vec<RlispBuiltinFunc> =
        vec![
            RlispBuiltinFunc::Consp,
            RlispBuiltinFunc::Numberp,
            RlispBuiltinFunc::Integerp,
            RlispBuiltinFunc::Floatp,
            RlispBuiltinFunc::Symbolp,
            RlispBuiltinFunc::Stringp,
            RlispBuiltinFunc::Functionp,
            RlispBuiltinFunc::Boolp,
            RlispBuiltinFunc::Namespacep,
            RlispBuiltinFunc::Placep,
            RlispBuiltinFunc::Cons,
            RlispBuiltinFunc::List,
            RlispBuiltinFunc::Debug,
            RlispBuiltinFunc::Print,
            RlispBuiltinFunc::Eq,
            RlispBuiltinFunc::WrongTypeError,
            RlispBuiltinFunc::WrongArgCountError,
            RlispBuiltinFunc::ImproperListError,
            RlispBuiltinFunc::UnboundSymbolError,
            RlispBuiltinFunc::TypeDesignatorError,
            RlispBuiltinFunc::UndefinedSymbolError,
            RlispBuiltinFunc::IndexOutOfBoundsError,
            RlispBuiltinFunc::Error,
            RlispBuiltinFunc::GlobalNamespace,
            RlispBuiltinFunc::TypeOf,
            RlispBuiltinFunc::Car,
            RlispBuiltinFunc::Cdr,
            RlispBuiltinFunc::Nth,
        ];
    proof {
        assert(funcs@ =~= spec_builtins());
    }
    let r = table_of(funcs);
    proof {
        assert(crate::lisp::sourcing::builtin_rows(r@) =~= crate::lisp::sourcing::rows_of_builtins(
            spec_builtins(),
        ));
    }
    r
}

/// The variables that the runtime starts with: constants of arithmetic, each
/// a double, given by its bit pattern.
pub open spec fn spec_builtin_vars() -> Seq<(Name, IntoObject)> {
    seq![
        ("+pi+", IntoObject::Num(0x4009_21FB_5444_2D18)),
        ("+e+", IntoObject::Num(0x4005_BF0A_8B14_5769)),
        ("+sqrt2+", IntoObject::Num(0x3FF6_A09E_667F_3BCD)),
        ("+ln2+", IntoObject::Num(0x3FE6_2E42_FEFA_39EF)),
        ("+ln10+", IntoObject::Num(0x4002_6BB1_BBB5_5516)),
        ("+log2-e+", IntoObject::Num(0x3FF7_1547_652B_82FE)),
        ("+lge+", IntoObject::Num(0x3FDB_CB7B_1526_E50E)),
        ("+1/pi+", IntoObject::Num(0x3FD4_5F30_6DC9_C883)),
        ("+2/pi+", IntoObject::Num(0x3FE4_5F30_6DC9_C883)),
        ("+pi/2+", IntoObject::Num(0x3FF9_21FB_5444_2D18)),
        ("+pi/3+", IntoObject::Num(0x3FF0_C152_382D_7366)),
        ("+pi/4+", IntoObject::Num(0x3FE9_21FB_5444_2D18)),
        ("+pi/6+", IntoObject::Num(0x3FE0_C152_382D_7366)),
        ("+pi/8+", IntoObject::Num(0x3FD9_21FB_5444_2D18)),
        ("+1/sqrt2+", IntoObject::Num(0x3FE6_A09E_667F_3BCD)),
        ("+infinity+", IntoObject::Num(0x7FF0_0000_0000_0000)),
        ("+-infinity+", IntoObject::Num(0xFFF0_0000_0000_0000)),
        ("+epsilon+", IntoObject::Num(0x3CB0_0000_0000_0000)),
        ("+min-num+", IntoObject::Num(0xFFEF_FFFF_FFFF_FFFF)),
        ("+max-num+", IntoObject::Num(0x7FEF_FFFF_FFFF_FFFF)),
        ("+nan+", IntoObject::Num(0x7FF8_0000_0000_0000)),
        ("+min-integer+", IntoObject::Num(0xC1E0_0000_0000_0000)),
        ("+max-integer+", IntoObject::Num(0x41DF_FFFF_FFC0_0000)),
    ]
}

/// The variables that the runtime starts with: constants of arithmetic, each
/// a double, given by its bit pattern.
pub fn builtin_vars() -> (r: RlispBuiltinVars)
    ensures
        r@ == spec_builtin_vars(),
        r@.len() == 23,
        forall|i: int| 0 <= i < r@.len() ==> (#[trigger] r@[i]).1 is Num,
{
    let r = vec![
        ("+pi+", IntoObject::Num(0x4009_21FB_5444_2D18)),
        ("+e+", IntoObject::Num(0x4005_BF0A_8B14_5769)),
        ("+sqrt2+", IntoObject::Num(0x3FF6_A09E_667F_3BCD)),
        ("+ln2+", IntoObject::Num(0x3FE6_2E42_FEFA_39EF)),
        ("+ln10+", IntoObject::Num(0x4002_6BB1_BBB5_5516)),
        ("+log2-e+", IntoObject::Num(0x3FF7_1547_652B_82FE)),
        ("+lge+", IntoObject::Num(0x3FDB_CB7B_1526_E50E)),
        ("+1/pi+", IntoObject::Num(0x3FD4_5F30_6DC9_C883)),
        ("+2/pi+", IntoObject::Num(0x3FE4_5F30_6DC9_C883)),
        ("+pi/2+", IntoObject::Num(0x3FF9_21FB_5444_2D18)),
        ("+pi/3+", IntoObject::Num(0x3FF0_C152_382D_7366)),
        ("+pi/4+", IntoObject::Num(0x3FE9_21FB_5444_2D18)),
        ("+pi/6+", IntoObject::Num(0x3FE0_C152_382D_7366)),
        ("+pi/8+", IntoObject::Num(0x3FD9_21FB_5444_2D18)),
        ("+1/sqrt2+", IntoObject::Num(0x3FE6_A09E_667F_3BCD)),
        ("+infinity+", IntoObject::Num(0x7FF0_0000_0000_0000)),
        ("+-infinity+", IntoObject::Num(0xFFF0_0000_0000_0000)),
        ("+epsilon+", IntoObject::Num(0x3CB0_0000_0000_0000)),
        ("+min-num+", IntoObject::Num(0xFFEF_FFFF_FFFF_FFFF)),
        ("+max-num+", IntoObject::Num(0x7FEF_FFFF_FFFF_FFFF)),
        ("+nan+", IntoObject::Num(0x7FF8_0000_0000_0000)),
        ("+min-integer+", IntoObject::Num(0xC1E0_0000_0000_0000)),
        ("+max-integer+", IntoObject::Num(0x41DF_FFFF_FFC0_0000)),
    ];
    proof {
        assert(r@ =~= spec_builtin_vars());
    }
    r
}

impl Lisp {
    /// What a native function keeps, and what holds of the value `r` that it
    /// returns: the invariant, the stack, the scope, the settings, and the
    /// type of what each slot in use holds; and `r` can be used.
    pub open spec fn returned(self, later: Lisp, r: Object) -> bool {
        self.stepped_to(later) && later.heap.valid(r)
    }

    /// Calls the native function `func` on the topmost `n_args` values of the
    /// stack, the first argument topmost, and takes them off the stack.
    pub fn call_rust_func<H: FloatOps>(&mut self, host: &H, func: RlispBuiltinFunc, n_args: usize) -> (r:
        Object)
        requires
            old(self).inv(),
            n_args <= old(self).stack@.len(),
        ensures
            old(self).called_to(*final(self), n_args as int, r),
            old(self).heap.kinds_kept_by(final(self).heap),
            old(self).native_called(func, n_args as nat, *final(self), r),
    {
        let mut args: Vec<Object> = Vec::new();
        let mut k: usize = 0;
        while k < n_args
            invariant
                k <= n_args,
                n_args <= old(self).stack@.len(),
                self.inv(),
                *self == (Lisp { stack: self.stack, ..*old(self) }),
                self.stack@ == old(self).stack@.take(old(self).stack@.len() - k),
                args@.len() == k,
                forall|q: int| 0 <= q < args@.len() ==> self.heap.valid(#[trigger] args@[q]),
                forall|q: int|
                    0 <= q < args@.len() ==> #[trigger] args@[q] == old(self).stack@[old(
                        self,
                    ).stack@.len() - 1 - q],
            decreases n_args - k,
        {
            let arg = self.pop();
            args.push(arg);
            k += 1;
            proof {
                assert(self.stack@ =~= old(self).stack@.take(old(self).stack@.len() - k));
            }
        }
        let ghost s1 = *self;
        let r = self.builtin(host, func, &args);
        proof {
            assert(args@ =~= old(self).top_of_stack(n_args as int));
            assert(old(self).cut_to(s1, old(self).stack@.len() - n_args));
        }
        r
    }

    /// The value of the native function `func` on the arguments `args`.
    pub fn builtin<H: FloatOps>(&mut self, host: &H, func: RlispBuiltinFunc, args: &Vec<Object>) -> (r:
        Object)
        requires
            old(self).inv(),
            forall|q: int| 0 <= q < args@.len() ==> old(self).heap.valid(#[trigger] args@[q]),
        ensures
            old(self).returned(*final(self), r),
            old(self).builtin_run(func, args@, *final(self), r),
    {
        match func {
            RlispBuiltinFunc::Consp => self.builtin_predicate(RlispType::Cons, args),
            RlispBuiltinFunc::Numberp => self.builtin_predicate(RlispType::Number, args),
            RlispBuiltinFunc::Integerp => self.builtin_predicate(RlispType::Integer, args),
            RlispBuiltinFunc::Floatp => self.builtin_predicate(RlispType::Float, args),
            RlispBuiltinFunc::Symbolp => self.builtin_predicate(RlispType::Sym, args),
            RlispBuiltinFunc::Stringp => self.builtin_predicate(RlispType::String, args),
            RlispBuiltinFunc::Functionp => self.builtin_predicate(RlispType::Function, args),
            RlispBuiltinFunc::Boolp => self.builtin_predicate(RlispType::Bool, args),
            RlispBuiltinFunc::Namespacep => self.builtin_predicate(RlispType::Namespace, args),
            RlispBuiltinFunc::Placep => self.builtin_predicate(RlispType::Place, args),
            RlispBuiltinFunc::Cons => self.builtin_cons(args),
            RlispBuiltinFunc::List => self.builtin_list(args),
            RlispBuiltinFunc::Debug => self.builtin_debug(host, args),
            RlispBuiltinFunc::Print => self.builtin_print(host, args),
            RlispBuiltinFunc::Eq => self.builtin_eq(args),
            RlispBuiltinFunc::WrongTypeError
            | RlispBuiltinFunc::WrongArgCountError
            | RlispBuiltinFunc::ImproperListError
            | RlispBuiltinFunc::UnboundSymbolError
            | RlispBuiltinFunc::TypeDesignatorError
            | RlispBuiltinFunc::UndefinedSymbolError
            | RlispBuiltinFunc::IndexOutOfBoundsError
            | RlispBuiltinFunc::Error => self.builtin_make_error(func, args),
            RlispBuiltinFunc::GlobalNamespace => self.builtin_global_namespace(args),
            RlispBuiltinFunc::TypeOf => self.builtin_type_of(args),
            RlispBuiltinFunc::Car => self.builtin_car_cdr(true, args),
            RlispBuiltinFunc::Cdr => self.builtin_car_cdr(false, args),
            RlispBuiltinFunc::Nth => self.builtin_nth(args),
            _ => self.math_builtin(host, func, args),
        }
    }

    /// The value of a type predicate: `t` iff the one argument is of the type
    /// `wanted`, and else `nil`.
    pub fn builtin_predicate(&mut self, wanted: RlispType, args: &Vec<Object>) -> (r: Object)
        requires
            old(self).inv(),
        ensures
            old(self).returned(*final(self), r),
            args@.len() == 1 ==> *final(self) == *old(self) && r == (if wanted.spec_admits(
                args@[0].spec_what_type(),
            ) {
                Object::spec_t()
            } else {
                Object::spec_nil()
            }),
            args@.len() != 1 ==> r.spec_what_type() == RlispType::Error,
            old(self).predicate_run(wanted, args@, *final(self), r),
    {
        if args.len() != 1 {
            return self.bad_args_count_error(args.len(), 1, Some(1));
        }
        Object::from_bool(wanted.check_type(args[0]))
    }

    /// `(cons car cdr)`: a new pair.
    pub fn builtin_cons(&mut self, args: &Vec<Object>) -> (r: Object)
        requires
            old(self).inv(),
            forall|q: int| 0 <= q < args@.len() ==> old(self).heap.valid(#[trigger] args@[q]),
        ensures
            old(self).returned(*final(self), r),
            args@.len() == 2 ==> old(self).allocated(
                *final(self),
                crate::lisp::allocate::Slot::Cons(
                    crate::types::ConsCell { car: args@[0], cdr: args@[1], gc_marking: 0 },
                ),
                r,
            ),
            args@.len() != 2 ==> r.spec_what_type() == RlispType::Error,
            old(self).cons_run(args@, *final(self), r),
    {
        if args.len() != 2 {
            return self.bad_args_count_error(args.len(), 2, Some(2));
        }
        self.alloc_cons(args[0], args[1])
    }

    /// `(list items...)`: the proper list of the arguments.
    pub fn builtin_list(&mut self, args: &Vec<Object>) -> (r: Object)
        requires
            old(self).inv(),
            forall|q: int| 0 <= q < args@.len() ==> old(self).heap.valid(#[trigger] args@[q]),
        ensures
            old(self).returned(*final(self), r),
            old(self).extended_to(*final(self)),
            old(self).heap.room() >= args@.len() ==> final(self).heap.is_list(r, args@),
            old(self).heap.room() < args@.len() ==> r
                == crate::lisp::allocate::Heap::spec_out_of_memory(),
            old(self).list_run(args@, *final(self), r),
    {
        let r = self.list_onto(args, Object::nil());
        proof {
            old(self).heap.lemma_extended_kinds(self.heap);
        }
        r
    }

    /// `(eq first objects...)`: `t` iff every argument is the very value that
    /// the first one is, and else `nil`.
    pub fn builtin_eq(&mut self, args: &Vec<Object>) -> (r: Object)
        requires
            old(self).inv(),
        ensures
            old(self).returned(*final(self), r),
            args@.len() >= 1 ==> *final(self) == *old(self) && r == (if forall|i: int|
                0 <= i < args@.len() ==> #[trigger] args@[i] == args@[0] {
                Object::spec_t()
            } else {
                Object::spec_nil()
            }),
            args@.len() == 0 ==> r.spec_what_type() == RlispType::Error,
            old(self).eq_run(args@, *final(self), r),
    {
        if args.len() < 1 {
            return self.bad_args_count_error(args.len(), 1, None);
        }
        let first = args[0];
        let mut i: usize = 1;
        while i < args.len()
            invariant
                1 <= i <= args@.len(),
                first == args@[0],
                *self == *old(self),
                old(self).inv(),
                forall|j: int| 0 <= j < i ==> #[trigger] args@[j] == args@[0],
            decreases args@.len() - i,
        {
            if !(args[i] == first) {
                proof {
                    assert(args@[i as int] != args@[0]);
                }
                return Object::nil();
            }
            i += 1;
        }
        Object::t()
    }

    /// `(debug obj)` writes `obj` to the output, with a line end after it,
    /// and returns it.
    pub fn builtin_debug<H: FloatOps>(&mut self, host: &H, args: &Vec<Object>) -> (r: Object)
        requires
            old(self).inv(),
            forall|q: int| 0 <= q < args@.len() ==> old(self).heap.valid(#[trigger] args@[q]),
        ensures
            old(self).returned(*final(self), r),
            args@.len() == 1 ==> r == args@[0] && *final(self) == (Lisp {
                output: final(self).output,
                ..*old(self)
            }),
            args@.len() == 1 ==> (old(self).heap.printed(args@[0], old(self).max_depth as nat)
                matches Some(text) ==> final(self).output@ == old(self).output@ + text
                + seq![0x0Au8]),
            args@.len() != 1 ==> r.spec_what_type() == RlispType::Error,
            old(self).debug_run(args@, *final(self), r),
    {
        if args.len() != 1 {
            return self.bad_args_count_error(args.len(), 1, Some(1));
        }
        let fuel: usize = self.max_depth;
        self.heap.write_object(host, args[0], &mut self.output, fuel);
        let ghost written = self.output@;
        self.output.push(0x0Au8);
        proof {
            assert(self.output@ =~= written + seq![0x0Au8]);
            assert(args@.len() == 1);
        }
        args[0]
    }

    /// `(print objects...)` writes the arguments to the output, one after
    /// the other, with a line end after the last, and returns their number;
    /// without arguments it writes the line end and returns `nil`.
    pub fn builtin_print<H: FloatOps>(&mut self, host: &H, args: &Vec<Object>) -> (r: Object)
        requires
            old(self).inv(),
            forall|q: int| 0 <= q < args@.len() ==> old(self).heap.valid(#[trigger] args@[q]),
        ensures
            old(self).returned(*final(self), r),
            *final(self) == (Lisp { output: final(self).output, ..*old(self) }),
            r == (if args@.len() == 0 {
                Object::spec_nil()
            } else {
                crate::evaluator::spec_count_object(args.len())
            }),
            old(self).print_run(args@, *final(self), r),
    {
        let fuel: usize = self.max_depth;
        let mut i: usize = 0;
        while i < args.len()
            invariant
                i <= args@.len(),
                fuel == old(self).max_depth,
                *self == (Lisp { output: self.output, ..*old(self) }),
                old(self).inv(),
                forall|q: int| 0 <= q < args@.len() ==> old(self).heap.valid(#[trigger] args@[q]),
                Lisp::printed_all(old(self).heap, args@, fuel as nat, i as nat) matches Some(text)
                    ==> self.output@ == old(self).output@ + text,
            decreases args@.len() - i,
        {
            let ghost before = self.output@;
            self.heap.write_object(host, args[i], &mut self.output, fuel);
            i += 1;
            proof {
                match (
                    Lisp::printed_all(old(self).heap, args@, fuel as nat, (i - 1) as nat),
                    old(self).heap.printed(args@[i - 1], fuel as nat),
                ) {
                    (Some(a), Some(b)) => {
                        assert(self.output@ =~= old(self).output@ + (a + b));
                    },
                    _ => {},
                }
            }
        }
        let ghost before = self.output@;
        self.output.push(0x0Au8);
        proof {
            assert(self.output@ =~= before + seq![0x0Au8]);
        }
        if args.len() == 0 {
            Object::nil()
        } else {
            crate::evaluator::count_object(args.len())
        }
    }

    /// The constructors of errors: each puts on the heap the error of its
    /// kind that holds the arguments.
    pub fn builtin_make_error(&mut self, func: RlispBuiltinFunc, args: &Vec<Object>) -> (r: Object)
        requires
            old(self).inv(),
            forall|q: int| 0 <= q < args@.len() ==> old(self).heap.valid(#[trigger] args@[q]),
        ensures
            old(self).returned(*final(self), r),
            r.spec_what_type() == RlispType::Error,
            old(self).make_error_run(func, args@, *final(self), r),
    {
        let n: usize = args.len();
        match func {
            RlispBuiltinFunc::WrongTypeError => {
                if n != 2 {
                    return self.bad_args_count_error(n, 2, Some(2));
                }
                self.alloc_error(crate::types::RlispError::wrong_type(args[0], args[1]))
            },
            RlispBuiltinFunc::WrongArgCountError => {
                if n < 2 || n > 3 {
                    return self.bad_args_count_error(n, 2, Some(3));
                }
                if !args[0].integerp() {
                    return self.wrong_type_error(RlispType::Integer, args[0].what_type());
                }
                if !args[1].integerp() {
                    return self.wrong_type_error(RlispType::Integer, args[1].what_type());
                }
                let max = if n == 3 {
                    args[2]
                } else {
                    Object::nil()
                };
                if max.truthy() && !max.integerp() {
                    return self.wrong_type_error(RlispType::Integer, max.what_type());
                }
                self.alloc_error(crate::types::RlispError::bad_args_count(args[0], args[1], max))
            },
            RlispBuiltinFunc::ImproperListError => {
                if n != 0 {
                    return self.bad_args_count_error(n, 0, Some(0));
                }
                self.alloc_error(crate::types::RlispError::improper_list())
            },
            RlispBuiltinFunc::UnboundSymbolError => {
                if n != 1 {
                    return self.bad_args_count_error(n, 1, Some(1));
                }
                if !args[0].symbolp() {
                    return self.wrong_type_error(RlispType::Sym, args[0].what_type());
                }
                self.alloc_error(crate::types::RlispError::unbound_symbol(args[0]))
            },
            RlispBuiltinFunc::TypeDesignatorError => {
                if n != 1 {
                    return self.bad_args_count_error(n, 1, Some(1));
                }
                self.alloc_error(crate::types::RlispError::not_a_type(args[0]))
            },
            RlispBuiltinFunc::UndefinedSymbolError => {
                if n != 1 {
                    return self.bad_args_count_error(n, 1, Some(1));
                }
                if !args[0].symbolp() {
                    return self.wrong_type_error(RlispType::Sym, args[0].what_type());
                }
                self.alloc_error(crate::types::RlispError::undefined_symbol(args[0]))
            },
            RlispBuiltinFunc::IndexOutOfBoundsError => {
                if n != 2 {
                    return self.bad_args_count_error(n, 2, Some(2));
                }
                self.alloc_error(crate::types::RlispError::index_out_of_bounds(args[0], args[1]))
            },
            _ => {
                if n < 1 {
                    return self.bad_args_count_error(n, 1, None);
                }
                let mut rest: Vec<Object> = Vec::new();
                let mut i: usize = 1;
                while i < n
                    invariant
                        1 <= i <= n,
                        n == args@.len(),
                        forall|q: int|
                            0 <= q < args@.len() ==> old(self).heap.valid(#[trigger] args@[q]),
                        forall|q: int| 0 <= q < rest@.len() ==> old(self).heap.valid(#[trigger] rest@[q]),
                        rest@ == args@.subrange(1, i as int),
                    decreases n - i,
                {
                    rest.push(args[i]);
                    i += 1;
                    proof {
                        assert(rest@ =~= args@.subrange(1, i as int));
                    }
                }
                proof {
                    assert(rest@ =~= args@.skip(1));
                }
                let ghost s0 = *self;
                let info = self.list_from_vec(rest);
                if info.errorp() {
                    proof {
                        s0.heap.lemma_extended_kinds(self.heap);
                        assert(crate::evaluator::semantics::stage(*self, info));
                    }
                    return info;
                }
                proof {
                    s0.heap.lemma_extended_kinds(self.heap);
                    s0.heap.lemma_valid_kept(self.heap, args@[0]);
                }
                let ghost s1 = *self;
                let r = self.alloc_error(crate::types::RlispError::custom(args[0], info));
                proof {
                    assert forall|i: int| #[trigger] s0.heap.kind(i) is Some implies self.heap.kind(
                        i,
                    ) == s0.heap.kind(i) by {
                        assert(s1.heap.kind(i) is Some);
                    }
                    assert(crate::evaluator::semantics::stage(s1, info));
                }
                r
            },
        }
    }

    /// `(global-namespace)`: the namespace at the bottom of the scope.
    pub fn builtin_global_namespace(&mut self, args: &Vec<Object>) -> (r: Object)
        requires
            old(self).inv(),
        ensures
            old(self).returned(*final(self), r),
            args@.len() == 0 ==> *final(self) == *old(self) && r == Object::spec_reference(
                crate::types::ObjectTag::Namespace,
                old(self).symbols@[0] as int,
            ),
            args@.len() != 0 ==> r.spec_what_type() == RlispType::Error,
            old(self).global_namespace_run(args@, *final(self), r),
    {
        if args.len() != 0 {
            return self.bad_args_count_error(args.len(), 0, Some(0));
        }
        let global: u64 = self.symbols[0];
        self.heap.reference_to(crate::types::ObjectTag::Namespace, global)
    }

    /// `(type-of x)`: the symbol that names the type of `x`.
    pub fn builtin_type_of(&mut self, args: &Vec<Object>) -> (r: Object)
        requires
            old(self).inv(),
        ensures
            old(self).returned(*final(self), r),
            args@.len() == 1 ==> old(self).interned(
                *final(self),
                crate::symbols_table::spec_type_name(args@[0].spec_what_type()),
                r,
            ),
            args@.len() != 1 ==> r.spec_what_type() == RlispType::Error,
            old(self).type_of_run(args@, *final(self), r),
    {
        if args.len() != 1 {
            return self.bad_args_count_error(args.len(), 1, Some(1));
        }
        self.name_of_type(args[0].what_type())
    }

    /// `(car cons)` and `(cdr cons)`: the first half of the pair, or the
    /// second. An argument that is no cons is an error.
    pub fn builtin_car_cdr(&mut self, first: bool, args: &Vec<Object>) -> (r: Object)
        requires
            old(self).inv(),
            forall|q: int| 0 <= q < args@.len() ==> old(self).heap.valid(#[trigger] args@[q]),
        ensures
            old(self).returned(*final(self), r),
            args@.len() == 1 ==> match old(self).heap.spec_cell(args@[0]) {
                Some(cell) => *final(self) == *old(self) && r == (if first {
                    cell.car
                } else {
                    cell.cdr
                }),
                None => r.spec_what_type() == RlispType::Error,
            },
            args@.len() != 1 ==> r.spec_what_type() == RlispType::Error,
            old(self).car_cdr_run(first, args@, *final(self), r),
    {
        if args.len() != 1 {
            return self.bad_args_count_error(args.len(), 1, Some(1));
        }
        let c = args[0];
        if !c.consp() {
            return self.wrong_type_error(RlispType::Cons, c.what_type());
        }
        let (car, cdr) = self.heap.cons_parts(c);
        if first {
            car
        } else {
            cdr
        }
    }

    /// `(nth list n)`: element `n` of the list, counted from 0. An `n` that
    /// is no integer, or a list that is no cons, is an error, and so is an
    /// `n` that is negative or not less than the number of elements.
    pub fn builtin_nth(&mut self, args: &Vec<Object>) -> (r: Object)
        requires
            old(self).inv(),
            forall|q: int| 0 <= q < args@.len() ==> old(self).heap.valid(#[trigger] args@[q]),
        ensures
            old(self).returned(*final(self), r),
            args@.len() == 2 && args@[0].spec_what_type() == RlispType::Cons
                && args@[1].spec_what_type() == RlispType::Integer ==> {
                let elems = old(self).heap.list_view(args@[0]).0;
                let n = args@[1].spec_int();
                if 0 <= n < elems.len() {
                    r == elems[n] && *final(self) == *old(self)
                } else {
                    r.spec_what_type() == RlispType::Error
                }
            },
            !(args@.len() == 2 && args@[0].spec_what_type() == RlispType::Cons
                && args@[1].spec_what_type() == RlispType::Integer) ==> r.spec_what_type()
                == RlispType::Error,
            old(self).nth_run(args@, *final(self), r),
    {
        if args.len() != 2 {
            return self.bad_args_count_error(args.len(), 2, Some(2));
        }
        let list = args[0];
        let n = args[1];
        if !list.consp() {
            return self.wrong_type_error(RlispType::Cons, list.what_type());
        }
        if !n.integerp() {
            return self.wrong_type_error(RlispType::Integer, n.what_type());
        }
        let (elems, _end) = self.heap.list_to_vec(list);
        let at: i32 = n.int_value();
        if at >= 0 && (at as usize) < elems.len() {
            elems[at as usize]
        } else {
            self.alloc_error(crate::types::RlispError::index_out_of_bounds(n, list))
        }
    }
}

} // verus!
