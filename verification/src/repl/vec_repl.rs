//! A loop over bytes.

use super::Repl;
use crate::lisp::Lisp;
use crate::result::ErrorKind;
use crate::types::FloatOps;
use vstd::prelude::*;
use vstd::string::StringSliceAdditionalSpecFns;

verus! {

pub struct VecRepl<H: FloatOps> {
    pub lisp: Lisp,
    pub host: H,
}

impl<H: FloatOps> VecRepl<H> {
    /// A loop over a runtime with what the language starts with.
    pub fn new(host: H) -> (r: Self)
        ensures
            r.lisp.inv(),
            r.lisp.started(),
            r.host == host,
    {
        Self { lisp: Lisp::default(), host }
    }

    /// A loop over the runtime `lisp`.
    pub fn from_lisp(lisp: Lisp, host: H) -> (r: Self)
        requires
            lisp.inv(),
        ensures
            r.lisp == lisp,
            r.host == host,
    {
        Self { lisp, host }
    }
}

impl<H: FloatOps> Repl for VecRepl<H> {
    type Input = Vec<u8>;

    type Output = Vec<u8>;

    type Error = Vec<u8>;

    open spec fn wf(&self) -> bool {
        self.lisp.inv()
    }

    /// Evaluates every value in `input`; `output` then holds the text of the
    /// last one, or what it held where there was none.
    fn run(&mut self, input: &mut Vec<u8>, output: &mut Vec<u8>, _error: &mut Vec<u8>) -> (r:
        Result<(), ErrorKind>)
        ensures
            *final(input) == *old(input),
            *final(_error) == *old(_error),
            final(self).lisp.symbols@ == old(self).lisp.symbols@,
            crate::reader::skip_blank_from(old(input)@, 0, false) == old(input)@.len() ==> r
                is Ok && *final(output) == *old(output) && final(self).lisp == old(self).lisp,
            old(self).lisp.loop_run(
                old(input)@,
                0,
                old(output)@,
                final(self).lisp,
                final(output)@,
                r,
            ),
    {
        let mut pos: usize = 0;
        let mut first = true;
        loop
            invariant
                pos <= input@.len(),
                self.lisp.inv(),
                *input == *old(input),
                *_error == *old(_error),
                self.lisp.symbols@ == old(self).lisp.symbols@,
                first ==> pos == 0 && *output == *old(output) && self.lisp == old(self).lisp,
                !first ==> crate::reader::skip_blank_from(input@, 0, false) != input@.len(),
                forall|l: Lisp, out: Seq<u8>, res: Result<(), ErrorKind>|
                    #![trigger self.lisp.loop_run(input@, pos as int, output@, l, out, res)]
                    self.lisp.loop_run(input@, pos as int, output@, l, out, res) ==> old(
                        self,
                    ).lisp.loop_run(input@, 0, old(output)@, l, out, res),
            decreases input@.len() - pos,
        {
            let ghost prev = self.lisp;
            let ghost pos0 = pos as int;
            let ghost last = output@;
            let step = self.lisp.rep(&self.host, input.as_slice(), &mut pos);
            match step {
                Ok(Some(text)) => {
                    let ghost bytes = text@;
                    *output = text;
                    first = false;
                    proof {
                        assert forall|l: Lisp, out: Seq<u8>, res: Result<(), ErrorKind>|
                            #![trigger self.lisp.loop_run(input@, pos as int, output@, l, out, res)]
                            self.lisp.loop_run(
                                input@,
                                pos as int,
                                output@,
                                l,
                                out,
                                res,
                            ) implies old(self).lisp.loop_run(
                            input@,
                            0,
                            old(output)@,
                            l,
                            out,
                            res,
                        ) by {
                            prev.lemma_loop_run(
                                input@,
                                pos0,
                                last,
                                self.lisp,
                                pos as int,
                                Ok(Some(bytes)),
                                l,
                                out,
                                res,
                            );
                        }
                    }
                },
                Ok(None) => {
                    proof {
                        prev.lemma_loop_run(
                            input@,
                            pos0,
                            last,
                            self.lisp,
                            pos as int,
                            Ok(None),
                            self.lisp,
                            last,
                            Ok(()),
                        );
                    }
                    return Ok(());
                },
                Err(e) => {
                    proof {
                        prev.lemma_loop_run(
                            input@,
                            pos0,
                            last,
                            self.lisp,
                            pos as int,
                            Err(e),
                            self.lisp,
                            last,
                            Err(e),
                        );
                    }
                    return Err(e);
                },
            }
        }
    }

    fn write_out(out: String, output: &mut Vec<u8>) -> (r: Result<(), ErrorKind>)
        ensures
            final(output)@ == vstd::utf8::encode_utf8(out@),
            r is Ok,
    {
        let mut bytes: Vec<u8> = Vec::new();
        let text = out.as_str();
        bytes.extend_from_slice(text.as_bytes());
        assert(bytes@ =~= text.spec_bytes());
        *output = bytes;
        Ok(())
    }

    fn write_error(err: ErrorKind, error: &mut Vec<u8>) -> (r: Result<(), ErrorKind>)
        ensures
            final(error)@ == err.spec_description().spec_bytes(),
            r is Ok,
    {
        let mut bytes: Vec<u8> = Vec::new();
        let text = err.description();
        bytes.extend_from_slice(text.as_bytes());
        assert(bytes@ =~= text.spec_bytes());
        *error = bytes;
        Ok(())
    }
}

} // verus!
