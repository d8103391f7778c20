//! What the native functions do, as relations between the runtime before
//! and the runtime after: the part of `evals` that speaks of them.
//!
//! A native function gets its arguments evaluated, as a sequence with the
//! first argument first.

use super::RlispBuiltinFunc;
use crate::evaluator::semantics::stage;
use crate::lisp::allocate::{Heap, Slot};
use crate::lisp::Lisp;
use crate::result::ErrorKind;
use crate::math::{all_numbers, first_other, spec_numbers};
use crate::types::rlisperror::RlispErrorKind;
use crate::types::{ConsCell, Object, ObjectTag, RlispError, RlispType};
use vstd::prelude::*;

verus! {

impl Lisp {
    /// `r` is, in `later`, the new error of the kind `kind`.
    pub open spec fn raised(self, later: Lisp, kind: RlispErrorKind, r: Object) -> bool {
        self.allocated(later, Slot::Error(RlispError { gc_marking: 0, error: kind }), r)
    }

    /// A type predicate: `t` iff the one argument is of the type `wanted`,
    /// and else `nil`.
    pub open spec fn predicate_run(
        self,
        wanted: RlispType,
        args: Seq<Object>,
        later: Lisp,
        r: Object,
    ) -> bool {
        if args.len() != 1 {
            self.bad_args_raised(later, args.len() as usize, 1, Some(1), r)
        } else {
            later == self && r == (if wanted.spec_admits(args[0].spec_what_type()) {
                Object::spec_t()
            } else {
                Object::spec_nil()
            })
        }
    }

    /// `(cons car cdr)`: a new pair.
    pub open spec fn cons_run(self, args: Seq<Object>, later: Lisp, r: Object) -> bool {
        if args.len() != 2 {
            self.bad_args_raised(later, args.len() as usize, 2, Some(2), r)
        } else {
            self.allocated(
                later,
                Slot::Cons(ConsCell { car: args[0], cdr: args[1], gc_marking: 0 }),
                r,
            )
        }
    }

    /// `(list items...)`: the proper list of the arguments, in cells that
    /// were free; the full-heap error where the heap has no room for it.
    pub open spec fn list_run(self, args: Seq<Object>, later: Lisp, r: Object) -> bool {
        self.chain_run(args, Object::spec_nil(), later, r)
    }

    /// `(eq first objects...)`: `t` iff every argument is the very value
    /// that the first one is, and else `nil`.
    pub open spec fn eq_run(self, args: Seq<Object>, later: Lisp, r: Object) -> bool {
        if args.len() < 1 {
            self.bad_args_raised(later, args.len() as usize, 1, None, r)
        } else {
            later == self && r == (if forall|i: int|
                0 <= i < args.len() ==> #[trigger] args[i] == args[0] {
                Object::spec_t()
            } else {
                Object::spec_nil()
            })
        }
    }

    /// `(debug obj)`: `obj`, after its text and a line end have gone to the
    /// output. Of the text of a value in which a double shows nothing is
    /// said.
    pub open spec fn debug_run(self, args: Seq<Object>, later: Lisp, r: Object) -> bool {
        if args.len() != 1 {
            self.bad_args_raised(later, args.len() as usize, 1, Some(1), r)
        } else {
            &&& r == args[0]
            &&& later == (Lisp { output: later.output, ..self })
            &&& self.heap.printed(args[0], self.max_depth as nat) matches Some(text)
                ==> later.output@ == self.output@ + text + seq![0x0Au8]
        }
    }

    /// The texts of the first `i` of `args`, one after the other; `None`
    /// where a double shows in one of them.
    pub open spec fn printed_all(heap: Heap, args: Seq<Object>, depth: nat, i: nat) -> Option<
        Seq<u8>,
    >
        decreases i,
    {
        if i == 0 {
            Some(Seq::empty())
        } else {
            match (
                Lisp::printed_all(heap, args, depth, (i - 1) as nat),
                heap.printed(args[i - 1], depth),
            ) {
                (Some(a), Some(b)) => Some(a + b),
                _ => None,
            }
        }
    }

    /// `(print objects...)`: the number of the arguments, or `nil` where
    /// there is none, after their texts and a line end have gone to the
    /// output.
    pub open spec fn print_run(self, args: Seq<Object>, later: Lisp, r: Object) -> bool {
        &&& later == (Lisp { output: later.output, ..self })
        &&& r == (if args.len() == 0 {
            Object::spec_nil()
        } else {
            crate::evaluator::spec_count_object(args.len() as usize)
        })
        &&& Lisp::printed_all(self.heap, args, self.max_depth as nat, args.len()) matches Some(
            text,
        ) ==> later.output@ == self.output@ + text + seq![0x0Au8]
    }

    /// The constructors of errors: each gives the new error of its kind
    /// that holds the arguments.
    pub open spec fn make_error_run(
        self,
        b: RlispBuiltinFunc,
        args: Seq<Object>,
        later: Lisp,
        r: Object,
    ) -> bool {
        let n = args.len();
        match b {
            RlispBuiltinFunc::WrongTypeError => if n != 2 {
                self.bad_args_raised(later, n as usize, 2, Some(2), r)
            } else {
                self.raised(later, RlispErrorKind::WrongType { wanted: args[0], found: args[1] }, r)
            },
            RlispBuiltinFunc::WrongArgCountError => if n < 2 || n > 3 {
                self.bad_args_raised(later, n as usize, 2, Some(3), r)
            } else if args[0].spec_what_type() != RlispType::Integer {
                self.wrong_type_raised(later, RlispType::Integer, args[0].spec_what_type(), r)
            } else if args[1].spec_what_type() != RlispType::Integer {
                self.wrong_type_raised(later, RlispType::Integer, args[1].spec_what_type(), r)
            } else {
                let max = if n == 3 {
                    args[2]
                } else {
                    Object::spec_nil()
                };
                if max.spec_truthy() && max.spec_what_type() != RlispType::Integer {
                    self.wrong_type_raised(later, RlispType::Integer, max.spec_what_type(), r)
                } else {
                    self.raised(
                        later,
                        RlispErrorKind::BadArgsCount { min: args[1], max, found: args[0] },
                        r,
                    )
                }
            },
            RlispBuiltinFunc::ImproperListError => if n != 0 {
                self.bad_args_raised(later, n as usize, 0, Some(0), r)
            } else {
                self.raised(later, RlispErrorKind::ImproperList, r)
            },
            RlispBuiltinFunc::UnboundSymbolError => if n != 1 {
                self.bad_args_raised(later, n as usize, 1, Some(1), r)
            } else if args[0].spec_what_type() != RlispType::Sym {
                self.wrong_type_raised(later, RlispType::Sym, args[0].spec_what_type(), r)
            } else {
                self.raised(later, RlispErrorKind::UnboundSymbol { sym: args[0] }, r)
            },
            RlispBuiltinFunc::TypeDesignatorError => if n != 1 {
                self.bad_args_raised(later, n as usize, 1, Some(1), r)
            } else {
                self.raised(later, RlispErrorKind::NotAType { found: args[0] }, r)
            },
            RlispBuiltinFunc::UndefinedSymbolError => if n != 1 {
                self.bad_args_raised(later, n as usize, 1, Some(1), r)
            } else if args[0].spec_what_type() != RlispType::Sym {
                self.wrong_type_raised(later, RlispType::Sym, args[0].spec_what_type(), r)
            } else {
                self.raised(later, RlispErrorKind::UndefinedSymbol { sym: args[0] }, r)
            },
            RlispBuiltinFunc::IndexOutOfBoundsError => if n != 2 {
                self.bad_args_raised(later, n as usize, 2, Some(2), r)
            } else {
                self.raised(
                    later,
                    RlispErrorKind::IndexOutOfBounds { idx: args[0], reciever: args[1] },
                    r,
                )
            },
            _ => self.custom_error_run(args, later, r),
        }
    }

    /// `(error kind info...)`: the new error that a program makes itself,
    /// of the kind `kind`, which holds the other arguments as a proper list;
    /// the full-heap error where the heap has no room for that list.
    pub open spec fn custom_error_run(self, args: Seq<Object>, later: Lisp, r: Object) -> bool {
        if args.len() < 1 {
            self.bad_args_raised(later, args.len() as usize, 1, None, r)
        } else {
            exists|s1: Lisp, info: Object|
                #![trigger stage(s1, info)]
                {
                    &&& stage(s1, info)
                    &&& self.list_run(args.skip(1), s1, info)
                    &&& if info.spec_what_type() == RlispType::Error {
                        later == s1 && r == info
                    } else {
                        s1.raised(later, RlispErrorKind::Custom { kind: args[0], info }, r)
                    }
                }
        }
    }

    /// `(global-namespace)`: the namespace at the bottom of the scope.
    pub open spec fn global_namespace_run(self, args: Seq<Object>, later: Lisp, r: Object) -> bool {
        if args.len() != 0 {
            self.bad_args_raised(later, args.len() as usize, 0, Some(0), r)
        } else {
            later == self && r == Object::spec_reference(
                ObjectTag::Namespace,
                self.symbols@[0] as int,
            )
        }
    }

    /// `(type-of x)`: the symbol that names the type of `x`, interned as
    /// `interned` says.
    pub open spec fn type_of_run(self, args: Seq<Object>, later: Lisp, r: Object) -> bool {
        if args.len() != 1 {
            self.bad_args_raised(later, args.len() as usize, 1, Some(1), r)
        } else {
            self.interned(later, crate::symbols_table::spec_type_name(args[0].spec_what_type()), r)
        }
    }

    /// `(car cons)`, where `first` is true, and `(cdr cons)`: the first half
    /// of the pair, or the second.
    pub open spec fn car_cdr_run(
        self,
        first: bool,
        args: Seq<Object>,
        later: Lisp,
        r: Object,
    ) -> bool {
        if args.len() != 1 {
            self.bad_args_raised(later, args.len() as usize, 1, Some(1), r)
        } else if args[0].spec_what_type() != RlispType::Cons {
            self.wrong_type_raised(later, RlispType::Cons, args[0].spec_what_type(), r)
        } else {
            match self.heap.spec_cell(args[0]) {
                Some(cell) => later == self && r == (if first {
                    cell.car
                } else {
                    cell.cdr
                }),
                None => false,
            }
        }
    }

    /// `(nth list n)`: element `n` of the list, counted from 0; the error
    /// that says that the index is out of bounds where there is none.
    pub open spec fn nth_run(self, args: Seq<Object>, later: Lisp, r: Object) -> bool {
        if args.len() != 2 {
            self.bad_args_raised(later, args.len() as usize, 2, Some(2), r)
        } else if args[0].spec_what_type() != RlispType::Cons {
            self.wrong_type_raised(later, RlispType::Cons, args[0].spec_what_type(), r)
        } else if args[1].spec_what_type() != RlispType::Integer {
            self.wrong_type_raised(later, RlispType::Integer, args[1].spec_what_type(), r)
        } else {
            let elems = self.heap.list_view(args[0]).0;
            let n = args[1].spec_int();
            if 0 <= n < elems.len() {
                later == self && r == elems[n]
            } else {
                self.raised(
                    later,
                    RlispErrorKind::IndexOutOfBounds { idx: args[1], reciever: args[0] },
                    r,
                )
            }
        }
    }

    /// The numbers of arguments that the native function on numbers `b`
    /// takes: the least, and the most where there is one. `None` for a
    /// function that is none on numbers.
    pub open spec fn math_arity(b: RlispBuiltinFunc) -> Option<(usize, Option<usize>)> {
        match b {
            RlispBuiltinFunc::Add | RlispBuiltinFunc::Mul | RlispBuiltinFunc::Sub
            | RlispBuiltinFunc::Div => Some((0, None)),
            RlispBuiltinFunc::NumEq => Some((1, None)),
            RlispBuiltinFunc::Lt | RlispBuiltinFunc::Le | RlispBuiltinFunc::Gt
            | RlispBuiltinFunc::Ge | RlispBuiltinFunc::Rem | RlispBuiltinFunc::Mod => Some(
                (2, Some(2)),
            ),
            RlispBuiltinFunc::Trunc | RlispBuiltinFunc::Floor | RlispBuiltinFunc::Ceil
            | RlispBuiltinFunc::Round | RlispBuiltinFunc::Flatten | RlispBuiltinFunc::Abs => Some(
                (1, Some(1)),
            ),
            _ => None,
        }
    }

    /// True iff the native function on numbers `b` gives a boolean.
    pub open spec fn compares(b: RlispBuiltinFunc) -> bool {
        b == RlispBuiltinFunc::NumEq || b == RlispBuiltinFunc::Lt || b == RlispBuiltinFunc::Le
            || b == RlispBuiltinFunc::Gt || b == RlispBuiltinFunc::Ge
    }

    /// The native functions on numbers: the first argument that is no
    /// number gives the error that says so, and then a wrong number of
    /// arguments the error that says so. Else nothing changes; where
    /// `spec_math` gives a value, that is the value, and else it is a
    /// boolean from a function that compares, and a number from any other:
    /// which one, the host decides that computes on doubles.
    pub open spec fn math_run(
        self,
        b: RlispBuiltinFunc,
        args: Seq<Object>,
        later: Lisp,
        r: Object,
    ) -> bool {
        match first_other(args, 0) {
            Some(o) => self.wrong_type_raised(later, RlispType::Number, o.spec_what_type(), r),
            None => match Lisp::math_arity(b) {
                Some((min, max)) => if args.len() < min || (max matches Some(m) && args.len()
                    > m) {
                    self.bad_args_raised(later, args.len() as usize, min, max, r)
                } else {
                    &&& later == self
                    &&& match Lisp::spec_math(b, spec_numbers(args)) {
                        Some(v) => r == v,
                        None => if Lisp::compares(b) {
                            r.spec_what_type() == RlispType::Bool
                        } else {
                            r.spec_what_type() == RlispType::Integer || r.spec_what_type()
                                == RlispType::Float
                        },
                    }
                },
                None => if args.len() != 1 {
                    self.bad_args_raised(later, args.len() as usize, 1, Some(1), r)
                } else {
                    self.host_error_raised(later, ErrorKind::NotAFunction, r)
                },
            },
        }
    }

    /// The native function `b` returns `r` on the arguments `args`.
    pub open spec fn builtin_run(
        self,
        b: RlispBuiltinFunc,
        args: Seq<Object>,
        later: Lisp,
        r: Object,
    ) -> bool {
        match b {
            RlispBuiltinFunc::Consp => self.predicate_run(RlispType::Cons, args, later, r),
            RlispBuiltinFunc::Numberp => self.predicate_run(RlispType::Number, args, later, r),
            RlispBuiltinFunc::Integerp => self.predicate_run(RlispType::Integer, args, later, r),
            RlispBuiltinFunc::Floatp => self.predicate_run(RlispType::Float, args, later, r),
            RlispBuiltinFunc::Symbolp => self.predicate_run(RlispType::Sym, args, later, r),
            RlispBuiltinFunc::Stringp => self.predicate_run(RlispType::String, args, later, r),
            RlispBuiltinFunc::Functionp => self.predicate_run(RlispType::Function, args, later, r),
            RlispBuiltinFunc::Boolp => self.predicate_run(RlispType::Bool, args, later, r),
            RlispBuiltinFunc::Namespacep => self.predicate_run(
                RlispType::Namespace,
                args,
                later,
                r,
            ),
            RlispBuiltinFunc::Placep => self.predicate_run(RlispType::Place, args, later, r),
            RlispBuiltinFunc::Cons => self.cons_run(args, later, r),
            RlispBuiltinFunc::List => self.list_run(args, later, r),
            RlispBuiltinFunc::Debug => self.debug_run(args, later, r),
            RlispBuiltinFunc::Print => self.print_run(args, later, r),
            RlispBuiltinFunc::Eq => self.eq_run(args, later, r),
            RlispBuiltinFunc::WrongTypeError
            | RlispBuiltinFunc::WrongArgCountError
            | RlispBuiltinFunc::ImproperListError
            | RlispBuiltinFunc::UnboundSymbolError
            | RlispBuiltinFunc::TypeDesignatorError
            | RlispBuiltinFunc::UndefinedSymbolError
            | RlispBuiltinFunc::IndexOutOfBoundsError
            | RlispBuiltinFunc::Error => self.make_error_run(b, args, later, r),
            RlispBuiltinFunc::GlobalNamespace => self.global_namespace_run(args, later, r),
            RlispBuiltinFunc::TypeOf => self.type_of_run(args, later, r),
            RlispBuiltinFunc::Car => self.car_cdr_run(true, args, later, r),
            RlispBuiltinFunc::Cdr => self.car_cdr_run(false, args, later, r),
            RlispBuiltinFunc::Nth => self.nth_run(args, later, r),
            _ => self.math_run(b, args, later, r),
        }
    }
}

} // verus!
