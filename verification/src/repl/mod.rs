//! The read-eval-print loop.
//!
//! `rep` reads one value from the input, evaluates it and gives the value as
//! text. A `Repl` owns a runtime and a host for arithmetic on doubles, and
//! runs that step over a whole input. The loop over a terminal is the
//! host's: it reads the bytes and hands them over.

use crate::evaluator::semantics::stage;
use crate::lisp::Lisp;
use crate::reader::semantics::read_stage;
use crate::result::ErrorKind;
use crate::types::{FloatOps, Object, RlispType};
use vstd::prelude::*;

pub mod string_repl;
pub mod vec_repl;

verus! {

/// `String::from_utf8_lossy`: the text that `bytes` encode. Bytes that are
/// valid UTF-8 are decoded as they are; what the function puts in the place
/// of other bytes is not stated here.
#[verifier::external_body]
pub(crate) fn string_from_bytes(bytes: &Vec<u8>) -> (r: String)
    ensures
        vstd::utf8::valid_utf8(bytes@) ==> r@ == vstd::utf8::decode_utf8(bytes@),
{
    String::from_utf8_lossy(bytes).into_owned()
}

/// A loop that reads, evaluates and prints.
pub trait Repl {
    type Input;

    type Output;

    type Error;

    /// The invariant of the loop.
    spec fn wf(&self) -> bool;

    /// Reads value after value from `input`, evaluates each, and hands the
    /// text of each value to `write_out`; stops at the end of the input, or
    /// at the first failure to read, which comes back.
    fn run(
        &mut self,
        input: &mut Self::Input,
        output: &mut Self::Output,
        error: &mut Self::Error,
    ) -> (r: Result<(), ErrorKind>)
        requires
            old(self).wf(),
        ensures
            final(self).wf(),
    ;

    /// Puts the text `out` of a value into `output`.
    fn write_out(out: String, output: &mut Self::Output) -> (r: Result<(), ErrorKind>);

    /// Puts the failure `err` into `error`.
    fn write_error(err: ErrorKind, error: &mut Self::Error) -> (r: Result<(), ErrorKind>);
}

/// What a step of the loop returns, with the text as a sequence of bytes.
pub open spec fn text_result(r: Result<Option<Vec<u8>>, ErrorKind>) -> Result<
    Option<Seq<u8>>,
    ErrorKind,
> {
    match r {
        Ok(Some(text)) => Ok(Some(text@)),
        Ok(None) => Ok(None),
        Err(e) => Err(e),
    }
}

/// Names a runtime in between, the position that a step of the loop has
/// reached, and what the step returned.
pub open spec fn step_stage(s: Lisp, end: int, r: Result<Option<Seq<u8>>, ErrorKind>) -> bool {
    true
}

impl Lisp {
    /// What `eval` does: `read` evaluates to `r` as `evals` says, with
    /// evaluation nested at most as deep as the runtime allows; where `r` is
    /// an error, the evaluation stack is emptied.
    pub open spec fn eval_run(self, read: Object, later: Lisp, r: Object) -> bool {
        exists|s1: Lisp|
            #![trigger stage(s1, r)]
            stage(s1, r) && self.evals(read, self.max_depth as nat, s1, r) && (
            if r.spec_what_type() == RlispType::Error {
                later == (Lisp { stack: later.stack, ..s1 }) && later.stack@.len() == 0
            } else {
                later == s1
            })
    }

    /// One step of the loop on `input` at `pos`: a value is read as `reads`
    /// says and evaluated as `eval_run` says, and `r` holds its text, which
    /// is what `printed` gives where no double shows in it. `Ok(None)`
    /// where nothing but white space and comments is left; a failure to
    /// read comes back.
    pub open spec fn rep_run(
        self,
        input: Seq<u8>,
        pos: int,
        later: Lisp,
        end: int,
        r: Result<Option<Seq<u8>>, ErrorKind>,
    ) -> bool {
        exists|s1: Lisp, read: Result<Option<Object>, ErrorKind>|
            #![trigger read_stage(s1, end, read)]
            read_stage(s1, end, read) && self.reads(
                input,
                pos,
                self.max_depth as nat,
                s1,
                end,
                read,
            ) && (match read {
                Ok(Some(obj)) => exists|v: Object|
                    #![trigger stage(later, v)]
                    {
                        &&& stage(later, v)
                        &&& s1.eval_run(obj, later, v)
                        &&& r matches Ok(Some(text)) && (later.heap.printed(
                            v,
                            later.max_depth as nat,
                        ) matches Some(t) ==> text == t)
                    },
                Ok(None) => later == s1 && r == Ok::<Option<Seq<u8>>, ErrorKind>(None),
                Err(e) => later == s1 && r == Err::<Option<Seq<u8>>, ErrorKind>(e),
            })
    }

    /// The loop on `input` from `pos` on: step after step as `rep_run` says,
    /// until nothing is left or a step fails. `out` is the text of the last
    /// value, or `last`, the text so far, where no value was read.
    pub open spec fn loop_run(
        self,
        input: Seq<u8>,
        pos: int,
        last: Seq<u8>,
        later: Lisp,
        out: Seq<u8>,
        r: Result<(), ErrorKind>,
    ) -> bool
        decreases input.len() - pos,
    {
        exists|s1: Lisp, mid: int, step: Result<Option<Seq<u8>>, ErrorKind>|
            #![trigger step_stage(s1, mid, step)]
            step_stage(s1, mid, step) && self.rep_run(input, pos, s1, mid, step) && (match step {
                Ok(Some(text)) => pos < mid <= input.len() && s1.loop_run(
                    input,
                    mid,
                    text,
                    later,
                    out,
                    r,
                ),
                Ok(None) => later == s1 && out == last && r == Ok::<(), ErrorKind>(()),
                Err(e) => later == s1 && out == last && r == Err::<(), ErrorKind>(e),
            })
    }

    /// What the loop gives once a step is done.
    pub proof fn lemma_loop_run(
        self,
        input: Seq<u8>,
        pos: int,
        last: Seq<u8>,
        s1: Lisp,
        mid: int,
        step: Result<Option<Seq<u8>>, ErrorKind>,
        later: Lisp,
        out: Seq<u8>,
        r: Result<(), ErrorKind>,
    )
        requires
            self.rep_run(input, pos, s1, mid, step),
            match step {
                Ok(Some(text)) => pos < mid <= input.len() && s1.loop_run(
                    input,
                    mid,
                    text,
                    later,
                    out,
                    r,
                ),
                Ok(None) => later == s1 && out == last && r == Ok::<(), ErrorKind>(()),
                Err(e) => later == s1 && out == last && r == Err::<(), ErrorKind>(e),
            },
        ensures
            self.loop_run(input, pos, last, later, out, r),
    {
        assert(step_stage(s1, mid, step));
    }

    /// Evaluates `read`; where the value is an error, the evaluation stack
    /// is emptied.
    pub fn eval<H: FloatOps>(&mut self, host: &H, read: Object) -> (r: Object)
        requires
            old(self).inv(),
            old(self).heap.valid(read),
        ensures
            final(self).inv(),
            final(self).heap.valid(r),
            final(self).symbols@ == old(self).symbols@,
            final(self).max_depth == old(self).max_depth,
            final(self).macro_chars == old(self).macro_chars,
            final(self).stack@ == (if r.spec_what_type() == RlispType::Error {
                Seq::empty()
            } else {
                old(self).stack@
            }),
            old(self).max_depth > 0 && !read.evaluates() ==> r == read,
            old(self).eval_run(read, *final(self), r),
    {
        let res = self.evaluate(host, read);
        proof {
            assert(stage(*self, res));
        }
        if res.errorp() {
            self.clean_stack();
            proof {
                assert(self.stack@ =~= Seq::<Object>::empty());
            }
        }
        res
    }

    /// The value `evaled` as text.
    pub fn print<H: FloatOps>(&self, host: &H, evaled: Object) -> (r: Vec<u8>)
        requires
            self.inv(),
            self.heap.valid(evaled),
        ensures
            self.heap.printed(evaled, self.max_depth as nat) matches Some(text) ==> r@ == text,
    {
        let mut out: Vec<u8> = Vec::new();
        self.heap.write_object(host, evaled, &mut out, self.max_depth);
        proof {
            match self.heap.printed(evaled, self.max_depth as nat) {
                Some(text) => {
                    assert(Seq::<u8>::empty() + text =~= text);
                },
                None => {},
            }
        }
        out
    }

    /// Reads one value from `input` at `pos`, evaluates it, and returns it as
    /// text; moves `pos` behind what was read. `Ok(None)` where nothing but
    /// white space and comments is left.
    pub fn rep<H: FloatOps>(&mut self, host: &H, input: &[u8], pos: &mut usize) -> (r: Result<
        Option<Vec<u8>>,
        ErrorKind,
    >)
        requires
            old(self).inv(),
            *old(pos) <= input@.len(),
        ensures
            final(self).inv(),
            final(self).symbols@ == old(self).symbols@,
            *old(pos) <= *final(pos) <= input@.len(),
            r matches Ok(Some(_)) ==> *old(pos) < *final(pos),
            r matches Ok(None) <==> crate::reader::skip_blank_from(
                input@,
                *old(pos) as int,
                false,
            ) == input@.len(),
            r matches Ok(None) ==> *final(self) == *old(self),
            old(self).rep_run(
                input@,
                *old(pos) as int,
                *final(self),
                *final(pos) as int,
                text_result(r),
            ),
    {
        let read = self.read(host, input, &mut *pos);
        proof {
            assert(read_stage(*self, *pos as int, read));
        }
        match read {
            Ok(Some(obj)) => {
                let evaled = self.eval(host, obj);
                proof {
                    assert(stage(*self, evaled));
                }
                Ok(Some(self.print(host, evaled)))
            },
            Ok(None) => Ok(None),
            Err(e) => Err(e),
        }
    }
}

} // verus!
