//! The native functions on numbers.

use crate::builtins::RlispBuiltinFunc;
use crate::lisp::Lisp;
use crate::types::{FloatOps, Object, RlispNum, RlispType};
use vstd::prelude::*;

pub use crate::types::num::oddp;

verus! {

/// The native functions on numbers that the runtime starts with, in the
/// order in which they are defined.
pub open spec fn spec_builtins() -> Seq<RlispBuiltinFunc> {
    seq![
        RlispBuiltinFunc::NumEq,
        RlispBuiltinFunc::Mul,
        RlispBuiltinFunc::Add,
        RlispBuiltinFunc::Sub,
        RlispBuiltinFunc::Div,
        RlispBuiltinFunc::Lt,
        RlispBuiltinFunc::Le,
        RlispBuiltinFunc::Gt,
        RlispBuiltinFunc::Ge,
        RlispBuiltinFunc::Rem,
        RlispBuiltinFunc::Mod,
        RlispBuiltinFunc::Trunc,
        RlispBuiltinFunc::Floor,
        RlispBuiltinFunc::Ceil,
        RlispBuiltinFunc::Round,
        RlispBuiltinFunc::Flatten,
        RlispBuiltinFunc::Abs,
    ]
}

/// The native functions on numbers that the runtime starts with.
pub fn make_builtins() -> (r: crate::builtins::RlispBuiltins)
    ensures
        crate::lisp::sourcing::builtin_rows(r@) == crate::lisp::sourcing::rows_of_builtins(
            spec_builtins(),
        ),
        r@.len() == 17,
        forall|i: int|
            0 <= i < r@.len() ==> (#[trigger] r@[i]).0 == r@[i].2.spec_name() && r@[i].1@
                == r@[i].2.spec_arglist(),
        r@[0].2 == RlispBuiltinFunc::NumEq,
        r@[2].2 == RlispBuiltinFunc::Add,
        r@[16].2 == RlispBuiltinFunc::Abs,
{
    let funcs: Vec<RlispBuiltinFunc> =
        vec![
            RlispBuiltinFunc::NumEq,
            RlispBuiltinFunc::Mul,
            RlispBuiltinFunc::Add,
            RlispBuiltinFunc::Sub,
            RlispBuiltinFunc::Div,
            RlispBuiltinFunc::Lt,
            RlispBuiltinFunc::Le,
            RlispBuiltinFunc::Gt,
            RlispBuiltinFunc::Ge,
            RlispBuiltinFunc::Rem,
            RlispBuiltinFunc::Mod,
            RlispBuiltinFunc::Trunc,
            RlispBuiltinFunc::Floor,
            RlispBuiltinFunc::Ceil,
            RlispBuiltinFunc::Round,
            RlispBuiltinFunc::Flatten,
            RlispBuiltinFunc::Abs,
        ];
    proof {
        assert(funcs@ =~= spec_builtins());
    }
    let r = crate::builtins::table_of(funcs);
    proof {
        assert(crate::lisp::sourcing::builtin_rows(r@) =~= crate::lisp::sourcing::rows_of_builtins(
            spec_builtins(),
        ));
    }
    r
}

/// True iff every one of `args` is a number.
pub open spec fn all_numbers(args: Seq<Object>) -> bool {
    forall|i: int| 0 <= i < args.len() ==> RlispNum::spec_maybe_from(#[trigger] args[i]) is Some
}

/// The first of `args`, from argument `from` on, that is no number.
pub open spec fn first_other(args: Seq<Object>, from: int) -> Option<Object>
    decreases args.len() - from,
{
    if from < 0 || from >= args.len() {
        None
    } else if RlispNum::spec_maybe_from(args[from]) is None {
        Some(args[from])
    } else {
        first_other(args, from + 1)
    }
}

/// The arguments as numbers; `Err` holds the first that is no number, where
/// there is one.
pub fn numbers_of(args: &Vec<Object>) -> (r: Result<Vec<RlispNum>, Object>)
    ensures
        match r {
            Ok(nums) => all_numbers(args@) && nums@.len() == args@.len() && forall|i: int|
                0 <= i < nums@.len() ==> Some(#[trigger] nums@[i]) == RlispNum::spec_maybe_from(
                    args@[i],
                ),
            Err(o) => !all_numbers(args@) && RlispNum::spec_maybe_from(o) is None
                && args@.contains(o),
        },
        first_other(args@, 0) == (match r {
            Ok(_) => None,
            Err(o) => Some(o),
        }),
{
    let mut out: Vec<RlispNum> = Vec::new();
    let mut i: usize = 0;
    while i < args.len()
        invariant
            i <= args@.len(),
            out@.len() == i,
            first_other(args@, i as int) == first_other(args@, 0),
            forall|j: int|
                0 <= j < i ==> Some(#[trigger] out@[j]) == RlispNum::spec_maybe_from(args@[j]),
        decreases args@.len() - i,
    {
        match RlispNum::maybe_from(args[i]) {
            Some(n) => {
                out.push(n);
            },
            None => {
                proof {
                    assert(RlispNum::spec_maybe_from(args@[i as int]) is None);
                }
                return Err(args[i]);
            },
        }
        i += 1;
    }
    proof {
        assert forall|j: int| 0 <= j < args@.len() implies RlispNum::spec_maybe_from(
            #[trigger] args@[j],
        ) is Some by {
            assert(Some(out@[j]) == RlispNum::spec_maybe_from(args@[j]));
        }
    }
    Ok(out)
}

/// The ways to fold numbers into one.
#[derive(Copy, Clone, PartialEq, Eq, Structural, Debug)]
pub enum Fold {
    Plus,
    Minus,
    Times,
    Over,
}

/// The numbers that `args` are, where all are numbers.
pub open spec fn spec_numbers(args: Seq<Object>) -> Seq<RlispNum> {
    Seq::new(args.len(), |i: int| RlispNum::spec_maybe_from(args[i]).unwrap())
}

/// What folding the first `k` of `nums` into the integer `start` gives as
/// long as integers come in and integers in the range of `i32` come out;
/// `None` where they do not, or where quotients are asked for, which are
/// doubles.
pub open spec fn int_fold(op: Fold, start: int, nums: Seq<RlispNum>, k: int) -> Option<int>
    decreases k,
{
    if k <= 0 {
        Some(start)
    } else {
        match (int_fold(op, start, nums, k - 1), nums[k - 1]) {
            (Some(acc), RlispNum::Int(b)) => {
                let v = match op {
                    Fold::Plus => acc + b,
                    Fold::Minus => acc - b,
                    Fold::Times => acc * b,
                    Fold::Over => i32::MAX + 1,
                };
                if i32::MIN <= v <= i32::MAX {
                    Some(v)
                } else {
                    None
                }
            },
            _ => None,
        }
    }
}

/// Folds the numbers of `nums` from index `from` on into `start`, from the
/// first to the last. As long as integers come out of integers the result
/// is `int_fold`'s; from the first double on, every result is a double.
pub fn fold_numbers<H: FloatOps>(
    host: &H,
    op: Fold,
    start: RlispNum,
    nums: &Vec<RlispNum>,
    from: usize,
) -> (r: RlispNum)
    requires
        from <= nums@.len(),
    ensures
        match start {
            RlispNum::Int(s) => match int_fold(
                op,
                s as int,
                nums@.skip(from as int),
                nums@.len() - from,
            ) {
                Some(v) => r == RlispNum::Int(v as i32),
                None => r is Float,
            },
            RlispNum::Float(_) => nums@.len() > from ==> r is Float,
        },
{
    let ghost rest = nums@.skip(from as int);
    let mut total = start;
    let mut i: usize = from;
    while i < nums.len()
        invariant
            from <= i <= nums@.len(),
            rest == nums@.skip(from as int),
            match start {
                RlispNum::Int(s) => match int_fold(op, s as int, rest, i - from) {
                    Some(v) => total == RlispNum::Int(v as i32),
                    None => total is Float,
                },
                RlispNum::Float(_) => i > from ==> total is Float,
            },
            start is Float && i == from ==> total == start,
        decreases nums@.len() - i,
    {
        proof {
            assert(rest[i - from] == nums@[i as int]);
        }
        total = match op {
            Fold::Plus => total.plus(host, nums[i]),
            Fold::Minus => total.minus(host, nums[i]),
            Fold::Times => total.times(host, nums[i]),
            Fold::Over => total.divided_by(host, nums[i]),
        };
        i += 1;
    }
    total
}

impl Lisp {
    /// What a native function on numbers gives where only integers are
    /// involved and integers in the range of `i32` come out, and what
    /// rounding gives of a double that is a whole number in that range;
    /// `None` where the value is a double, whose computation is the host's,
    /// or an error.
    pub open spec fn spec_math(func: RlispBuiltinFunc, nums: Seq<RlispNum>) -> Option<Object> {
        let n = nums.len() as int;
        match func {
            RlispBuiltinFunc::Add => match int_fold(Fold::Plus, 0, nums, n) {
                Some(v) => Some(Object::spec_from_int(v)),
                None => None,
            },
            RlispBuiltinFunc::Mul => match int_fold(Fold::Times, 1, nums, n) {
                Some(v) => Some(Object::spec_from_int(v)),
                None => None,
            },
            RlispBuiltinFunc::Sub => if n == 0 {
                Some(Object::spec_from_int(0))
            } else {
                match nums[0] {
                    RlispNum::Int(a) => if n == 1 {
                        if a > i32::MIN {
                            Some(Object::spec_from_int(-a))
                        } else {
                            None
                        }
                    } else {
                        match int_fold(Fold::Minus, a as int, nums.skip(1), n - 1) {
                            Some(v) => Some(Object::spec_from_int(v)),
                            None => None,
                        }
                    },
                    RlispNum::Float(_) => None,
                }
            },
            RlispBuiltinFunc::Div => if n == 0 {
                Some(Object::spec_from_int(1))
            } else {
                None
            },
            RlispBuiltinFunc::NumEq => if n >= 1 && forall|i: int|
                0 <= i < n ==> (#[trigger] nums[i]) is Int {
                Some(
                    if forall|i: int| 0 <= i < n ==> #[trigger] nums[i] == nums[0] {
                        Object::spec_t()
                    } else {
                        Object::spec_nil()
                    },
                )
            } else {
                None
            },
            RlispBuiltinFunc::Lt | RlispBuiltinFunc::Le | RlispBuiltinFunc::Gt
            | RlispBuiltinFunc::Ge => if n == 2 {
                match (nums[0], nums[1]) {
                    (RlispNum::Int(a), RlispNum::Int(b)) => {
                        let holds = match func {
                            RlispBuiltinFunc::Lt => a < b,
                            RlispBuiltinFunc::Le => a <= b,
                            RlispBuiltinFunc::Gt => a > b,
                            _ => a >= b,
                        };
                        Some(
                            if holds {
                                Object::spec_t()
                            } else {
                                Object::spec_nil()
                            },
                        )
                    },
                    _ => None,
                }
            } else {
                None
            },
            RlispBuiltinFunc::Trunc | RlispBuiltinFunc::Floor | RlispBuiltinFunc::Ceil
            | RlispBuiltinFunc::Round | RlispBuiltinFunc::Flatten => if n == 1 {
                match nums[0] {
                    RlispNum::Int(a) => Some(Object::spec_from_int(a as int)),
                    RlispNum::Float(bits) => match crate::types::num::spec_whole(bits) {
                        Some(i) => Some(Object::spec_from_int(i as int)),
                        None => None,
                    },
                }
            } else {
                None
            },
            RlispBuiltinFunc::Abs => if n == 1 {
                match nums[0] {
                    RlispNum::Int(a) => if a >= 0 {
                        Some(Object::spec_from_int(a as int))
                    } else if a > i32::MIN {
                        Some(Object::spec_from_int(-a))
                    } else {
                        None
                    },
                    RlispNum::Float(_) => None,
                }
            } else {
                None
            },
            _ => None,
        }
    }

    /// The value of the native function on numbers `func` on the arguments
    /// `args`. An argument that is no number is an error, and so is a wrong
    /// number of arguments. Two integers are added, subtracted, multiplied
    /// and compared as integers, and give an integer as long as the result is
    /// in the range of `i32`; a quotient is a double always. Where
    /// `spec_math` gives a value, that is the value.
    pub fn math_builtin<H: FloatOps>(&mut self, host: &H, func: RlispBuiltinFunc, args: &Vec<Object>) -> (r:
        Object)
        requires
            old(self).inv(),
        ensures
            old(self).returned(*final(self), r),
            !all_numbers(args@) ==> r.spec_what_type() == RlispType::Error,
            all_numbers(args@) ==> match Lisp::spec_math(func, spec_numbers(args@)) {
                Some(v) => r == v && *final(self) == *old(self),
                None => true,
            },
            old(self).math_run(func, args@, *final(self), r),
    {
        let nums = match numbers_of(args) {
            Ok(nums) => nums,
            Err(o) => {
                return self.wrong_type_error(RlispType::Number, o.what_type());
            },
        };
        proof {
            assert(nums@ =~= spec_numbers(args@));
            assert(nums@.skip(0) =~= nums@);
        }
        let n: usize = nums.len();
        match func {
            RlispBuiltinFunc::NumEq => {
                if n < 1 {
                    return self.bad_args_count_error(n, 1, None);
                }
                let mut i: usize = 1;
                while i < n
                    invariant
                        1 <= i <= n,
                        n == nums@.len(),
                        *self == *old(self),
                        old(self).inv(),
                        all_numbers(args@),
                        first_other(args@, 0) is None,
                        nums@ == spec_numbers(args@),
                        func == RlispBuiltinFunc::NumEq,
                        (forall|q: int| 0 <= q < n ==> (#[trigger] nums@[q]) is Int) ==> forall|
                            j: int,
                        | 0 <= j < i ==> #[trigger] nums@[j] == nums@[0],
                    decreases n - i,
                {
                    if !nums[0].num_eq(host, nums[i]) {
                        proof {
                            if forall|q: int| 0 <= q < n ==> (#[trigger] nums@[q]) is Int {
                                assert(nums@[0] is Int);
                                assert(nums@[i as int] is Int);
                                assert(nums@[i as int] != nums@[0]);
                            }
                        }
                        return Object::nil();
                    }
                    proof {
                        if forall|q: int| 0 <= q < n ==> (#[trigger] nums@[q]) is Int {
                            assert(nums@[0] is Int);
                            assert(nums@[i as int] is Int);
                        }
                    }
                    i += 1;
                }
                Object::t()
            },
            RlispBuiltinFunc::Add => fold_numbers(
                host,
                Fold::Plus,
                RlispNum::Int(0),
                &nums,
                0,
            ).into_object(),
            RlispBuiltinFunc::Mul => fold_numbers(
                host,
                Fold::Times,
                RlispNum::Int(1),
                &nums,
                0,
            ).into_object(),
            RlispBuiltinFunc::Sub => {
                if n == 0 {
                    Object::from_int(0)
                } else if n == 1 {
                    nums[0].negated(host).into_object()
                } else {
                    fold_numbers(host, Fold::Minus, nums[0], &nums, 1).into_object()
                }
            },
            RlispBuiltinFunc::Div => {
                if n == 0 {
                    Object::from_int(1)
                } else if n == 1 {
                    RlispNum::Int(1).divided_by(host, nums[0]).into_object()
                } else {
                    fold_numbers(host, Fold::Over, nums[0], &nums, 1).into_object()
                }
            },
            RlispBuiltinFunc::Lt | RlispBuiltinFunc::Le | RlispBuiltinFunc::Gt | RlispBuiltinFunc::Ge
            | RlispBuiltinFunc::Rem | RlispBuiltinFunc::Mod => {
                if n != 2 {
                    return self.bad_args_count_error(n, 2, Some(2));
                }
                let a = nums[0];
                let b = nums[1];
                match func {
                    RlispBuiltinFunc::Lt => Object::from_bool(a.num_lt(host, b)),
                    RlispBuiltinFunc::Le => Object::from_bool(a.num_le(host, b)),
                    RlispBuiltinFunc::Gt => Object::from_bool(b.num_lt(host, a)),
                    RlispBuiltinFunc::Ge => Object::from_bool(b.num_le(host, a)),
                    RlispBuiltinFunc::Rem => a.remainder(host, b).into_object(),
                    _ => {
                        let positive = if a.num_lt(host, RlispNum::Int(1)) {
                            a.negated(host)
                        } else {
                            a
                        };
                        positive.remainder(host, b).into_object()
                    },
                }
            },
            _ => {
                if n != 1 {
                    return self.bad_args_count_error(n, 1, Some(1));
                }
                let a = nums[0];
                match func {
                    RlispBuiltinFunc::Trunc => a.trunc(host).into_object(),
                    RlispBuiltinFunc::Floor => a.floor(host).into_object(),
                    RlispBuiltinFunc::Ceil => a.ceil(host).into_object(),
                    RlispBuiltinFunc::Round => a.round(host).into_object(),
                    RlispBuiltinFunc::Flatten => a.try_flatten().into_object(),
                    RlispBuiltinFunc::Abs => a.abs(host).into_object(),
                    _ => self.host_error(crate::result::ErrorKind::NotAFunction),
                }
            },
        }
    }
}

} // verus!
