//! A loop over a `String`.

use super::{string_from_bytes, Repl};
use crate::lisp::Lisp;
use crate::result::ErrorKind;
use crate::types::FloatOps;
use vstd::prelude::*;
use vstd::string::StringSliceAdditionalSpecFns;

verus! {

pub struct StringRepl<H: FloatOps> {
    pub lisp: Lisp,
    pub host: H,
}

/// Names the bytes of the text that a loop ends with.
pub open spec fn shown(out: Seq<u8>) -> bool {
    true
}

impl<H: FloatOps> StringRepl<H> {
    /// A loop over a runtime with what the language starts with.
    pub fn new(host: H) -> (r: Self)
        ensures
            r.lisp.inv(),
            r.lisp.started(),
            r.host == host,
    {
        Self { lisp: Lisp::default(), host }
    }

    /// A loop over the runtime `lisp`.
    pub fn from_lisp(lisp: Lisp, host: H) -> (r: Self)
        requires
            lisp.inv(),
        ensures
            r.lisp == lisp,
            r.host == host,
    {
        Self { lisp, host }
    }
}

impl<H: FloatOps> Repl for StringRepl<H> {
    type Input = String;

    type Output = String;

    type Error = String;

    open spec fn wf(&self) -> bool {
        self.lisp.inv()
    }

    /// Evaluates every value in `input`; `output` then holds the text of the
    /// last one, or what it held where there was none.
    fn run(&mut self, input: &mut String, output: &mut String, _error: &mut String) -> (r: Result<
        (),
        ErrorKind,
    >)
        ensures
            *final(input) == *old(input),
            *final(_error) == *old(_error),
            final(self).lisp.symbols@ == old(self).lisp.symbols@,
            ({
                let bytes = vstd::utf8::encode_utf8(old(input)@);
                crate::reader::skip_blank_from(bytes, 0, false) == bytes.len() ==> {
                    &&& r is Ok
                    &&& *final(output) == *old(output)
                    &&& final(self).lisp == old(self).lisp
                }
            }),
            exists|out: Seq<u8>|
                #![trigger shown(out)]
                {
                    &&& shown(out)
                    &&& old(self).lisp.loop_run(
                        vstd::utf8::encode_utf8(old(input)@),
                        0,
                        vstd::utf8::encode_utf8(old(output)@),
                        final(self).lisp,
                        out,
                        r,
                    )
                    &&& vstd::utf8::valid_utf8(out) ==> final(output)@ == vstd::utf8::decode_utf8(
                        out,
                    )
                },
    {
        let bytes = input.as_str().as_bytes();
        let mut pos: usize = 0;
        let mut first = true;
        let ghost mut last = vstd::utf8::encode_utf8(output@);
        proof {
            vstd::utf8::encode_utf8_valid_utf8(output@);
            vstd::utf8::encode_utf8_decode_utf8(output@);
        }
        loop
            invariant
                pos <= bytes@.len(),
                self.lisp.inv(),
                bytes@ == vstd::utf8::encode_utf8(old(input)@),
                *input == *old(input),
                *_error == *old(_error),
                self.lisp.symbols@ == old(self).lisp.symbols@,
                first ==> pos == 0 && *output == *old(output) && self.lisp == old(self).lisp,
                !first ==> crate::reader::skip_blank_from(bytes@, 0, false) != bytes@.len(),
                vstd::utf8::valid_utf8(last) ==> output@ == vstd::utf8::decode_utf8(last),
                forall|l: Lisp, out: Seq<u8>, res: Result<(), ErrorKind>|
                    #![trigger self.lisp.loop_run(bytes@, pos as int, last, l, out, res)]
                    self.lisp.loop_run(bytes@, pos as int, last, l, out, res) ==> old(
                        self,
                    ).lisp.loop_run(
                        bytes@,
                        0,
                        vstd::utf8::encode_utf8(old(output)@),
                        l,
                        out,
                        res,
                    ),
            decreases bytes@.len() - pos,
        {
            let ghost prev = self.lisp;
            let ghost pos0 = pos as int;
            let ghost last0 = last;
            let step = self.lisp.rep(&self.host, bytes, &mut pos);
            match step {
                Ok(Some(text)) => {
                    let _ = Self::write_out(string_from_bytes(&text), &mut *output);
                    first = false;
                    proof {
                        last = text@;
                        assert forall|l: Lisp, out: Seq<u8>, res: Result<(), ErrorKind>|
                            #![trigger self.lisp.loop_run(bytes@, pos as int, last, l, out, res)]
                            self.lisp.loop_run(
                                bytes@,
                                pos as int,
                                last,
                                l,
                                out,
                                res,
                            ) implies old(self).lisp.loop_run(
                            bytes@,
                            0,
                            vstd::utf8::encode_utf8(old(output)@),
                            l,
                            out,
                            res,
                        ) by {
                            prev.lemma_loop_run(
                                bytes@,
                                pos0,
                                last0,
                                self.lisp,
                                pos as int,
                                Ok(Some(last)),
                                l,
                                out,
                                res,
                            );
                        }
                    }
                },
                Ok(None) => {
                    proof {
                        prev.lemma_loop_run(
                            bytes@,
                            pos0,
                            last0,
                            self.lisp,
                            pos as int,
                            Ok(None),
                            self.lisp,
                            last0,
                            Ok(()),
                        );
                        assert(shown(last0));
                    }
                    return Ok(());
                },
                Err(e) => {
                    proof {
                        prev.lemma_loop_run(
                            bytes@,
                            pos0,
                            last0,
                            self.lisp,
                            pos as int,
                            Err(e),
                            self.lisp,
                            last0,
                            Err(e),
                        );
                        assert(shown(last0));
                    }
                    return Err(e);
                },
            }
        }
    }

    fn write_out(out: String, output: &mut String) -> (r: Result<(), ErrorKind>)
        ensures
            *final(output) == out,
            r is Ok,
    {
        *output = out;
        Ok(())
    }

    fn write_error(err: ErrorKind, error: &mut String) -> (r: Result<(), ErrorKind>)
        ensures
            final(error)@ == err.spec_description()@,
            r is Ok,
    {
        *error = err.description().to_owned();
        Ok(())
    }
}

} // verus!
