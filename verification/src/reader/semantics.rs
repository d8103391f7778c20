//! What the reader does, as relations between the runtime before and the
//! runtime after: which value a text denotes, where the value ends in the
//! text, and which error a text that denotes none gives.

use super::numbers::{spec_looks_numeric, spec_parse_integer};
use super::strings::spec_string_at;
use super::{skip_blank_from, spec_ends_token, token_end};
use crate::evaluator::semantics::stage;
use crate::lisp::Lisp;
use crate::result::ErrorKind;
use crate::types::{Object, RlispType};
use vstd::prelude::*;
use vstd::string::StringSliceAdditionalSpecFns;

verus! {

/// Skipping white space and comments never moves back, and never behind the
/// end of the input.
pub proof fn lemma_skip_blank_bounds(input: Seq<u8>, pos: int, in_comment: bool)
    requires
        0 <= pos <= input.len(),
    ensures
        pos <= skip_blank_from(input, pos, in_comment) <= input.len(),
    decreases input.len() - pos,
{
    if pos < input.len() {
        lemma_skip_blank_bounds(input, pos + 1, input[pos] != 0x0A);
        lemma_skip_blank_bounds(input, pos + 1, true);
        lemma_skip_blank_bounds(input, pos + 1, false);
    }
}

/// The position of the first byte at or after `pos` that is neither white
/// space nor part of a comment; the length of the input where there is none.
pub open spec fn next_at(input: Seq<u8>, pos: int) -> int {
    let p = skip_blank_from(input, pos, false);
    if pos <= p <= input.len() {
        p
    } else {
        input.len() as int
    }
}

/// From a position in the input, `next_at` is what skipping gives.
pub proof fn lemma_next_at(input: Seq<u8>, pos: int)
    requires
        0 <= pos <= input.len(),
    ensures
        next_at(input, pos) == skip_blank_from(input, pos, false),
        pos <= next_at(input, pos) <= input.len(),
{
    lemma_skip_blank_bounds(input, pos, false);
}

/// The first entry of `chars`, from entry `from` on, that is for the macro
/// character `byte`.
pub open spec fn macro_at(chars: Seq<(u8, Vec<u8>)>, byte: u8, from: int) -> Option<int>
    decreases chars.len() - from,
{
    if from < 0 || from >= chars.len() {
        None
    } else if chars[from].0 == byte {
        Some(from)
    } else {
        macro_at(chars, byte, from + 1)
    }
}

/// Names a runtime in between, the position that a read has reached, and
/// what it returned.
pub open spec fn read_stage(s: Lisp, end: int, r: Result<Option<Object>, ErrorKind>) -> bool {
    true
}

/// What a read returns where a list was read.
pub open spec fn list_result(r: Result<Object, ErrorKind>) -> Result<Option<Object>, ErrorKind> {
    match r {
        Ok(o) => Ok(Some(o)),
        Err(e) => Err(e),
    }
}

impl Lisp {
    /// What a token that is no number denotes: `nil` or `t` where it is one
    /// of these names, and else the symbol of that name, interned as
    /// `interned` says.
    pub open spec fn name_read(self, token: Seq<u8>, later: Lisp, r: Object) -> bool {
        if token == "nil".spec_bytes() {
            later == self && r == Object::spec_nil()
        } else if token == "t".spec_bytes() {
            later == self && r == Object::spec_t()
        } else {
            self.interned(later, token, r)
        }
    }

    /// What the token `token` denotes: the integer that it reads as, where
    /// that is in the range of `i32`; else a double, where it looks like a
    /// number and the host reads it as one; else what `name_read` says.
    /// Which double the host reads is not said here.
    pub open spec fn token_read(self, token: Seq<u8>, later: Lisp, r: Object) -> bool {
        match spec_parse_integer(token) {
            Some(v) => later == self && r == Object::spec_from_int(v as int),
            None => (spec_looks_numeric(token) && later == self && r.spec_what_type()
                == RlispType::Float) || self.name_read(token, later, r),
        }
    }

    /// Reading the next value from `input` at `pos`, with lists and quotes
    /// nested at most `fuel` deep, returns `r`, moves the position to `end`,
    /// and the runtime `self` becomes `later`. `Ok(None)` where nothing but
    /// white space and comments is left. After a macro character comes a
    /// value, and the two-element list of the character's symbol and that
    /// value is read. An opening parenthesis starts a list, a quote a
    /// string, and anything else a token. Of an error, where the position
    /// stands is not said.
    pub open spec fn reads(
        self,
        input: Seq<u8>,
        pos: int,
        fuel: nat,
        later: Lisp,
        end: int,
        r: Result<Option<Object>, ErrorKind>,
    ) -> bool
        decreases input.len() - pos, 0nat,
    {
        let p = next_at(input, pos);
        if p >= input.len() {
            later == self && end == input.len() && r == Ok::<Option<Object>, ErrorKind>(None)
        } else if fuel == 0 {
            later == self && r == Err::<Option<Object>, ErrorKind>(ErrorKind::DepthExceeded)
        } else {
            match macro_at(self.macro_chars@, input[p], 0) {
                Some(i) => exists|s1: Lisp, symbol: Object, s2: Lisp, inner: Result<
                    Option<Object>,
                    ErrorKind,
                >|
                    #![trigger stage(s1, symbol), read_stage(s2, end, inner)]
                    {
                        &&& stage(s1, symbol)
                        &&& read_stage(s2, end, inner)
                        &&& self.interned(s1, self.macro_chars@[i].1@, symbol)
                        &&& s1.reads(input, p + 1, (fuel - 1) as nat, s2, end, inner)
                        &&& match inner {
                            Ok(Some(obj)) => exists|list: Object|
                                #![trigger stage(s2, list)]
                                stage(s2, list) && s2.chain_run(
                                    seq![symbol, obj],
                                    Object::spec_nil(),
                                    later,
                                    list,
                                ) && r == Ok::<Option<Object>, ErrorKind>(Some(list)),
                            Ok(None) => later == s2 && r == Err::<Option<Object>, ErrorKind>(
                                ErrorKind::UnexpectedEOF,
                            ),
                            Err(e) => later == s2 && r == Err::<Option<Object>, ErrorKind>(e),
                        }
                    },
                None => if input[p] == 0x28 {
                    self.list_read(
                        input,
                        p + 1,
                        (fuel - 1) as nat,
                        Seq::empty(),
                        None,
                        later,
                        end,
                        r,
                    )
                } else if input[p] == 0x22 {
                    match spec_string_at(input, p + 1, input[p], Seq::empty()) {
                        Some((text, after)) => exists|o: Object|
                            #![trigger stage(later, o)]
                            stage(later, o) && self.string_made(later, text, o) && end == after
                                && r == Ok::<Option<Object>, ErrorKind>(Some(o)),
                        None => later == self && r == Err::<Option<Object>, ErrorKind>(
                            ErrorKind::UnclosedString,
                        ),
                    }
                } else {
                    exists|o: Object|
                        #![trigger stage(later, o)]
                        stage(later, o) && self.token_read(
                            input.subrange(p, token_end(input, p + 1)),
                            later,
                            o,
                        ) && end == token_end(input, p + 1) && r == Ok::<Option<Object>, ErrorKind>(
                            Some(o),
                        )
                },
            }
        }
    }

    /// Reading the rest of a list from `input` at `pos`, after the elements
    /// `elems` and, behind a dot, the end `tail`, returns `r`. A closing
    /// parenthesis ends the list: the chain through the elements to the
    /// end, or to `nil`, is built. A lone dot behind at least one element
    /// makes the value after it the end of the list; anything but the
    /// closing parenthesis behind that is an error, and so is input that
    /// ends before the list is closed.
    pub open spec fn list_read(
        self,
        input: Seq<u8>,
        pos: int,
        fuel: nat,
        elems: Seq<Object>,
        tail: Option<Object>,
        later: Lisp,
        end: int,
        r: Result<Option<Object>, ErrorKind>,
    ) -> bool
        decreases input.len() - pos, 1nat,
    {
        let p = next_at(input, pos);
        if p >= input.len() {
            later == self && r == Err::<Option<Object>, ErrorKind>(ErrorKind::UnclosedList)
        } else if input[p] == 0x29 {
            exists|list: Object|
                #![trigger stage(later, list)]
                stage(later, list) && self.chain_run(
                    elems,
                    match tail {
                        Some(t) => t,
                        None => Object::spec_nil(),
                    },
                    later,
                    list,
                ) && end == p + 1 && r == Ok::<Option<Object>, ErrorKind>(Some(list))
        } else if tail is Some {
            later == self && r == Err::<Option<Object>, ErrorKind>(ErrorKind::UnclosedList)
        } else {
            let dot = input[p] == 0x2E && (p + 1 >= input.len() || spec_ends_token(input[p + 1]))
                && elems.len() > 0;
            let start = if dot {
                p + 1
            } else {
                p
            };
            exists|s1: Lisp, mid: int, item: Result<Option<Object>, ErrorKind>|
                #![trigger read_stage(s1, mid, item)]
                {
                    &&& read_stage(s1, mid, item)
                    &&& self.reads(input, start, fuel, s1, mid, item)
                    &&& match item {
                        Ok(Some(o)) => p < mid <= input.len() && s1.list_read(
                            input,
                            mid,
                            fuel,
                            if dot {
                                elems
                            } else {
                                elems.push(o)
                            },
                            if dot {
                                Some(o)
                            } else {
                                None
                            },
                            later,
                            end,
                            r,
                        ),
                        Ok(None) => later == s1 && r == Err::<Option<Object>, ErrorKind>(
                            ErrorKind::UnclosedList,
                        ),
                        Err(e) => later == s1 && r == Err::<Option<Object>, ErrorKind>(e),
                    }
                }
        }
    }

    /// What reading gives behind a macro character.
    pub proof fn lemma_reads_macro(
        self,
        input: Seq<u8>,
        pos: int,
        fuel: nat,
        s1: Lisp,
        symbol: Object,
        s2: Lisp,
        inner: Result<Option<Object>, ErrorKind>,
        later: Lisp,
        end: int,
        r: Result<Option<Object>, ErrorKind>,
    )
        requires
            next_at(input, pos) < input.len(),
            fuel > 0,
            macro_at(self.macro_chars@, input[next_at(input, pos)], 0) matches Some(i)
                && self.interned(s1, self.macro_chars@[i].1@, symbol),
            s1.reads(input, next_at(input, pos) + 1, (fuel - 1) as nat, s2, end, inner),
            match inner {
                Ok(Some(obj)) => r matches Ok(Some(list)) && s2.chain_run(
                    seq![symbol, obj],
                    Object::spec_nil(),
                    later,
                    list,
                ),
                Ok(None) => later == s2 && r == Err::<Option<Object>, ErrorKind>(
                    ErrorKind::UnexpectedEOF,
                ),
                Err(e) => later == s2 && r == Err::<Option<Object>, ErrorKind>(e),
            },
        ensures
            self.reads(input, pos, fuel, later, end, r),
    {
        assert(stage(s1, symbol));
        assert(read_stage(s2, end, inner));
        match (inner, r) {
            (Ok(Some(obj)), Ok(Some(list))) => {
                assert(stage(s2, list));
            },
            _ => {},
        }
    }

    /// What reading the rest of a list gives once its next element, or its
    /// end behind a dot, is read.
    pub proof fn lemma_list_read_next(
        self,
        input: Seq<u8>,
        pos: int,
        fuel: nat,
        elems: Seq<Object>,
        s1: Lisp,
        mid: int,
        item: Result<Option<Object>, ErrorKind>,
        later: Lisp,
        end: int,
        r: Result<Option<Object>, ErrorKind>,
    )
        requires
            next_at(input, pos) < input.len(),
            input[next_at(input, pos)] != 0x29,
            ({
                let p = next_at(input, pos);
                let dot = input[p] == 0x2E && (p + 1 >= input.len() || spec_ends_token(
                    input[p + 1],
                )) && elems.len() > 0;
                &&& self.reads(
                    input,
                    if dot {
                        p + 1
                    } else {
                        p
                    },
                    fuel,
                    s1,
                    mid,
                    item,
                )
                &&& match item {
                    Ok(Some(o)) => p < mid <= input.len() && s1.list_read(
                        input,
                        mid,
                        fuel,
                        if dot {
                            elems
                        } else {
                            elems.push(o)
                        },
                        if dot {
                            Some(o)
                        } else {
                            None
                        },
                        later,
                        end,
                        r,
                    ),
                    Ok(None) => later == s1 && r == Err::<Option<Object>, ErrorKind>(
                        ErrorKind::UnclosedList,
                    ),
                    Err(e) => later == s1 && r == Err::<Option<Object>, ErrorKind>(e),
                }
            }),
        ensures
            self.list_read(input, pos, fuel, elems, None, later, end, r),
    {
        assert(read_stage(s1, mid, item));
    }
}

} // verus!
