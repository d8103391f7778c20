//! The failures of the host side of the runtime: what the reader and the
//! evaluator report when the fault is not a value of the language.

use vstd::prelude::*;

verus! {

#[derive(Copy, Clone, PartialEq, Eq, Structural, Debug)]
pub enum ErrorKind {
    /// A token looked like a number and could not be read as one.
    ParseFloat,
    /// The input ended before a list was closed.
    UnclosedList,
    /// The input ended before a string was closed.
    UnclosedString,
    /// The input ended in the middle of a form.
    UnexpectedEOF,
    /// The value of an unbound symbol was asked for.
    Unbound,
    /// An empty stack was popped.
    StackUnderflow,
    /// A list did not end in `nil`.
    ImproperList,
    /// The head of an evaluated list was no function.
    NotAFunction,
    /// A function without a parameter list was called that needs one.
    RequiresArglist,
    /// A form that takes its arguments in pairs got an odd number of them.
    WantedEvenArgCt,
    /// A function asked for more arguments than it was given.
    OutOfArgs,
    /// The heap has no slot left to give out.
    OutOfMemory,
    /// Evaluation nested deeper than the runtime allows.
    DepthExceeded,
}

impl ErrorKind {
    /// The message.
    pub open spec fn spec_description(self) -> &'static str {
        match self {
            ErrorKind::ParseFloat => "something went wrong while parsing a float",
            ErrorKind::UnclosedList => "met EOF before a list was closed",
            ErrorKind::UnclosedString => "met EOF before a string was closed",
            ErrorKind::UnexpectedEOF => "met EOF before finished parsing",
            ErrorKind::Unbound => "attempted to access the value of an unbound symbol",
            ErrorKind::StackUnderflow => "attempted to pop off an empty stack",
            ErrorKind::ImproperList => "an improperly terminated list",
            ErrorKind::NotAFunction => "tried to evaluate a list whose car was not a funciton",
            ErrorKind::RequiresArglist =>
                "the called function requires an arglist but did not have one",
            ErrorKind::WantedEvenArgCt => "the called function wants an even number of arguments",
            ErrorKind::OutOfArgs => "ran out of args!",
            ErrorKind::OutOfMemory => "the heap is full",
            ErrorKind::DepthExceeded => "evaluation nested too deeply",
        }
    }

    /// The message.
    pub fn description(self) -> (r: &'static str)
        ensures
            r == self.spec_description(),
    {
        match self {
            ErrorKind::ParseFloat => "something went wrong while parsing a float",
            ErrorKind::UnclosedList => "met EOF before a list was closed",
            ErrorKind::UnclosedString => "met EOF before a string was closed",
            ErrorKind::UnexpectedEOF => "met EOF before finished parsing",
            ErrorKind::Unbound => "attempted to access the value of an unbound symbol",
            ErrorKind::StackUnderflow => "attempted to pop off an empty stack",
            ErrorKind::ImproperList => "an improperly terminated list",
            ErrorKind::NotAFunction => "tried to evaluate a list whose car was not a funciton",
            ErrorKind::RequiresArglist =>
                "the called function requires an arglist but did not have one",
            ErrorKind::WantedEvenArgCt => "the called function wants an even number of arguments",
            ErrorKind::OutOfArgs => "ran out of args!",
            ErrorKind::OutOfMemory => "the heap is full",
            ErrorKind::DepthExceeded => "evaluation nested too deeply",
        }
    }
}

} // verus!
