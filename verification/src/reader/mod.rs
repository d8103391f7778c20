//! The reader: from text to values.
//!
//! The syntax is that of S-expressions. A list stands between parentheses,
//! with a dot before its end where that is not `nil`; a string between
//! quotes; `'x` stands for `(quote x)`; a semicolon starts a comment that
//! runs to the end of the line. Any other token is an integer or a double
//! if it reads as one, `nil` or `t` if it is one of these, and else a symbol.

use crate::lisp::Lisp;
use crate::result::ErrorKind;
use crate::types::{FloatOps, Object, RlispType};
use vstd::prelude::*;

pub mod numbers;
pub mod semantics;
pub mod strings;

use self::numbers::{looks_numeric, parse_integer};
use self::strings::read_string_bytes;

verus! {

/// True iff `b` is a blank, a tab or a line end.
pub open spec fn spec_is_whitespace(b: u8) -> bool {
    b == 0x20 || b == 0x09 || b == 0x0A || b == 0x0D
}

/// True iff `b` is a blank, a tab or a line end.
pub fn is_whitespace(b: u8) -> (r: bool)
    ensures
        r == spec_is_whitespace(b),
{
    b == 0x20 || b == 0x09 || b == 0x0A || b == 0x0D
}

/// True iff `b` ends a token: white space, a closing parenthesis, or the
/// semicolon of a comment.
pub open spec fn spec_ends_token(b: u8) -> bool {
    spec_is_whitespace(b) || b == 0x29 || b == 0x3B
}

/// The position of the first byte at or after `pos` that is neither white
/// space nor part of a comment; the length of the input where there is none.
pub open spec fn skip_blank_from(input: Seq<u8>, pos: int, in_comment: bool) -> int
    decreases input.len() - pos,
{
    if pos >= input.len() || pos < 0 {
        input.len() as int
    } else if in_comment {
        skip_blank_from(input, pos + 1, input[pos] != 0x0A)
    } else if input[pos] == 0x3B {
        skip_blank_from(input, pos + 1, true)
    } else if spec_is_whitespace(input[pos]) {
        skip_blank_from(input, pos + 1, false)
    } else {
        pos
    }
}

/// Moves `pos` past white space and comments.
pub fn skip_blank(input: &[u8], pos: &mut usize)
    requires
        *old(pos) <= input@.len(),
    ensures
        *final(pos) == skip_blank_from(input@, *old(pos) as int, false),
        *old(pos) <= *final(pos) <= input@.len(),
        *final(pos) < input@.len() ==> !spec_is_whitespace(input@[*final(pos) as int])
            && input@[*final(pos) as int] != 0x3B,
{
    let mut in_comment = false;
    while *pos < input.len()
        invariant
            *old(pos) <= *pos <= input@.len(),
            skip_blank_from(input@, *old(pos) as int, false) == skip_blank_from(
                input@,
                *pos as int,
                in_comment,
            ),
        decreases input@.len() - *pos,
    {
        let b: u8 = input[*pos];
        if in_comment {
            in_comment = b != 0x0A;
        } else if b == 0x3B {
            in_comment = true;
        } else if !is_whitespace(b) {
            return ;
        }
        *pos = *pos + 1;
    }
}

/// The position of the first byte at or after `pos` that ends a token; the
/// length of the input where there is none.
pub open spec fn token_end(input: Seq<u8>, pos: int) -> int
    decreases input.len() - pos,
{
    if pos >= input.len() || pos < 0 {
        input.len() as int
    } else if spec_ends_token(input[pos]) {
        pos
    } else {
        token_end(input, pos + 1)
    }
}

/// The token that starts at `pos`: its first byte, whatever it is, and the
/// bytes after it up to the first that ends a token. Moves `pos` behind it.
pub fn read_token(input: &[u8], pos: &mut usize) -> (r: Vec<u8>)
    requires
        *old(pos) < input@.len(),
    ensures
        *final(pos) == token_end(input@, *old(pos) + 1),
        *old(pos) < *final(pos) <= input@.len(),
        r@ == input@.subrange(*old(pos) as int, *final(pos) as int),
{
    let start: usize = *pos;
    let mut token: Vec<u8> = Vec::new();
    token.push(input[*pos]);
    *pos = *pos + 1;
    proof {
        assert(token@ =~= input@.subrange(start as int, *pos as int));
    }
    while *pos < input.len()
        invariant
            start < *pos <= input@.len(),
            start == *old(pos),
            token@ == input@.subrange(start as int, *pos as int),
            token_end(input@, start + 1) == token_end(input@, *pos as int),
        decreases input@.len() - *pos,
    {
        let b: u8 = input[*pos];
        if is_whitespace(b) || b == 0x29 || b == 0x3B {
            return token;
        }
        token.push(b);
        *pos = *pos + 1;
        proof {
            assert(token@ =~= input@.subrange(start as int, *pos as int));
        }
    }
    token
}

impl Lisp {
    /// The symbol that the macro character `byte` stands for, if it is one.
    pub fn check_macro_char(&mut self, byte: u8) -> (r: Option<Object>)
        requires
            old(self).inv(),
        ensures
            old(self).stepped_to(*final(self)),
            r matches Some(o) ==> final(self).heap.valid(o),
            r is None ==> *final(self) == *old(self),
            r is Some <==> exists|i: int|
                0 <= i < old(self).macro_chars@.len() && (#[trigger] old(self).macro_chars@[i]).0
                    == byte,
            match semantics::macro_at(old(self).macro_chars@, byte, 0) {
                Some(i) => r matches Some(o) && old(self).interned(
                    *final(self),
                    old(self).macro_chars@[i].1@,
                    o,
                ),
                None => r is None,
            },
    {
        let mut i: usize = 0;
        while i < self.macro_chars.len()
            invariant
                i <= self.macro_chars@.len(),
                *self == *old(self),
                self.inv(),
                forall|j: int| 0 <= j < i ==> (#[trigger] self.macro_chars@[j]).0 != byte,
                semantics::macro_at(self.macro_chars@, byte, i as int) == semantics::macro_at(
                    self.macro_chars@,
                    byte,
                    0,
                ),
            decreases self.macro_chars@.len() - i,
        {
            if self.macro_chars[i].0 == byte {
                let mut name: Vec<u8> = Vec::new();
                name.extend_from_slice(self.macro_chars[i].1.as_slice());
                proof {
                    assert(name@ =~= self.macro_chars@[i as int].1@);
                }
                let sym = self.make_symbol(name.as_slice());
                proof {
                    assert(old(self).macro_chars@[i as int].0 == byte);
                    assert(semantics::macro_at(old(self).macro_chars@, byte, i as int) == Some(
                        i as int,
                    ));
                }
                return Some(sym);
            }
            i += 1;
        }
        None
    }

    /// The value that the token `token` denotes: an integer where it reads
    /// as one in the range of `i32`; else a double where it looks like a
    /// number and the host reads it as one; else `nil` or `t` where it is one
    /// of these names; and else the symbol of that name.
    pub fn finish_symbol_or_number<H: FloatOps>(&mut self, host: &H, token: Vec<u8>) -> (r: Object)
        requires
            old(self).inv(),
        ensures
            old(self).stepped_to(*final(self)),
            final(self).heap.valid(r),
            numbers::spec_parse_integer(token@) matches Some(v) ==> r == Object::spec_from_int(
                v as int,
            ) && *final(self) == *old(self),
            old(self).token_read(token@, *final(self), r),
    {
        match parse_integer(token.as_slice()) {
            Some(i) => {
                return Object::from_int(i);
            },
            None => {},
        }
        if looks_numeric(token.as_slice()) {
            match host.parse(token.as_slice()) {
                Some(bits) => {
                    return Object::from_float_bits(bits);
                },
                None => {},
            }
        }
        if crate::symbols_table::bytes_eq(token.as_slice(), "nil".as_bytes()) {
            return Object::nil();
        }
        if crate::symbols_table::bytes_eq(token.as_slice(), "t".as_bytes()) {
            return Object::t();
        }
        self.make_symbol(token.as_slice())
    }

    /// Reads a string, whose opening quote stands at `pos`, and moves `pos`
    /// behind its closing quote.
    pub fn read_string(&mut self, input: &[u8], pos: &mut usize) -> (r: Result<Object, ErrorKind>)
        requires
            old(self).inv(),
            *old(pos) < input@.len(),
        ensures
            old(self).stepped_to(*final(self)),
            *old(pos) < *final(pos) <= input@.len(),
            match (
                r,
                strings::spec_string_at(
                    input@,
                    *old(pos) + 1,
                    input@[*old(pos) as int],
                    Seq::empty(),
                ),
            ) {
                (Ok(o), Some((text, end))) => {
                    &&& final(self).heap.valid(o)
                    &&& end == *final(pos)
                    &&& o.spec_what_type() == RlispType::String ==> match final(self).heap.at(
                        o.spec_index(),
                    ) {
                        crate::lisp::allocate::Slot::String(s) => s.val@ == text,
                        _ => false,
                    }
                },
                (Err(e), None) => e == ErrorKind::UnclosedString && *final(self) == *old(self),
                _ => false,
            },
            match (
                r,
                strings::spec_string_at(
                    input@,
                    *old(pos) + 1,
                    input@[*old(pos) as int],
                    Seq::empty(),
                ),
            ) {
                (Ok(o), Some((text, end))) => old(self).string_made(*final(self), text, o),
                _ => true,
            },
    {
        match read_string_bytes(input, &mut *pos) {
            Some(text) => {
                let o = self.alloc_string(text);
                proof {
                    Object::lemma_reference_type(crate::types::ObjectTag::Error, 0);
                }
                Ok(o)
            },
            None => Err(ErrorKind::UnclosedString),
        }
    }

    /// Reads the next value from `input` at `pos`, and moves `pos` behind
    /// it. `Ok(None)` where nothing but white space and comments is left.
    pub fn read<H: FloatOps>(&mut self, host: &H, input: &[u8], pos: &mut usize) -> (r: Result<
        Option<Object>,
        ErrorKind,
    >)
        requires
            old(self).inv(),
            *old(pos) <= input@.len(),
        ensures
            old(self).stepped_to(*final(self)),
            *old(pos) <= *final(pos) <= input@.len(),
            match r {
                Ok(Some(o)) => final(self).heap.valid(o) && *old(pos) < *final(pos),
                Ok(None) => skip_blank_from(input@, *old(pos) as int, false) == input@.len()
                    && *final(self) == *old(self) && *final(pos) == input@.len(),
                Err(_) => true,
            },
            r matches Ok(None) <==> skip_blank_from(input@, *old(pos) as int, false)
                == input@.len(),
            old(self).reads(
                input@,
                *old(pos) as int,
                old(self).max_depth as nat,
                *final(self),
                *final(pos) as int,
                r,
            ),
    {
        let fuel: usize = self.max_depth;
        self.read_within(host, input, &mut *pos, fuel)
    }

    /// Reads the next value from `input` at `pos`, with lists and quotes
    /// nested at most `fuel` deep, and moves `pos` behind it. `Ok(None)`
    /// where nothing but white space and comments is left.
    pub fn read_within<H: FloatOps>(
        &mut self,
        host: &H,
        input: &[u8],
        pos: &mut usize,
        fuel: usize,
    ) -> (r: Result<Option<Object>, ErrorKind>)
        requires
            old(self).inv(),
            *old(pos) <= input@.len(),
        ensures
            old(self).stepped_to(*final(self)),
            *old(pos) <= *final(pos) <= input@.len(),
            match r {
                Ok(Some(o)) => final(self).heap.valid(o) && *old(pos) < *final(pos),
                Ok(None) => skip_blank_from(input@, *old(pos) as int, false) == input@.len()
                    && *final(self) == *old(self) && *final(pos) == input@.len(),
                Err(_) => true,
            },
            r matches Ok(None) <==> skip_blank_from(input@, *old(pos) as int, false)
                == input@.len(),
            old(self).reads(
                input@,
                *old(pos) as int,
                fuel as nat,
                *final(self),
                *final(pos) as int,
                r,
            ),
        decreases input@.len() - *old(pos), 0nat,
    {
        proof {
            semantics::lemma_next_at(input@, *pos as int);
        }
        skip_blank(input, &mut *pos);
        if *pos >= input.len() {
            return Ok(None);
        }
        if fuel == 0 {
            return Err(ErrorKind::DepthExceeded);
        }
        let b: u8 = input[*pos];
        let ghost s0 = *self;
        match self.check_macro_char(b) {
            Some(symbol) => {
                *pos = *pos + 1;
                let ghost s1 = *self;
                let inner = self.read_within(host, input, &mut *pos, fuel - 1);
                let ghost s2 = *self;
                proof {
                    s0.lemma_stepped_twice(s1, *self);
                }
                match inner {
                    Ok(Some(obj)) => {
                        let mut pair: Vec<Object> = Vec::new();
                        proof {
                            s1.heap.lemma_valid_kept(self.heap, symbol);
                        }
                        pair.push(symbol);
                        pair.push(obj);
                        let list = self.list_from_vec(pair);
                        proof {
                            s2.heap.lemma_extended_kinds(self.heap);
                            assert(s2.stepped_to(*self));
                            s0.lemma_stepped_twice(s2, *self);
                            assert(pair@ =~= seq![symbol, obj]);
                            s0.lemma_reads_macro(
                                input@,
                                *old(pos) as int,
                                fuel as nat,
                                s1,
                                symbol,
                                s2,
                                inner,
                                *self,
                                *pos as int,
                                Ok(Some(list)),
                            );
                        }
                        return Ok(Some(list));
                    },
                    Ok(None) => {
                        proof {
                            s0.lemma_reads_macro(
                                input@,
                                *old(pos) as int,
                                fuel as nat,
                                s1,
                                symbol,
                                s2,
                                inner,
                                *self,
                                *pos as int,
                                Err(ErrorKind::UnexpectedEOF),
                            );
                        }
                        return Err(ErrorKind::UnexpectedEOF);
                    },
                    Err(e) => {
                        proof {
                            s0.lemma_reads_macro(
                                input@,
                                *old(pos) as int,
                                fuel as nat,
                                s1,
                                symbol,
                                s2,
                                inner,
                                *self,
                                *pos as int,
                                Err(e),
                            );
                        }
                        return Err(e);
                    },
                }
            },
            None => {},
        }
        if b == 0x28 {
            *pos = *pos + 1;
            match self.read_list(host, input, &mut *pos, fuel - 1) {
                Ok(list) => Ok(Some(list)),
                Err(e) => Err(e),
            }
        } else if b == 0x22 {
            match self.read_string(input, &mut *pos) {
                Ok(s) => {
                    proof {
                        assert(crate::evaluator::semantics::stage(*self, s));
                    }
                    Ok(Some(s))
                },
                Err(e) => Err(e),
            }
        } else {
            let token = read_token(input, &mut *pos);
            let o = self.finish_symbol_or_number(host, token);
            proof {
                assert(crate::evaluator::semantics::stage(*self, o));
            }
            Ok(Some(o))
        }
    }

    /// Reads the elements of a list, whose opening parenthesis stands before
    /// `pos`, up to its closing parenthesis, and moves `pos` behind that. A
    /// lone dot before the last element makes that element the end of the
    /// list. Input that ends before the list is closed is an error.
    pub fn read_list<H: FloatOps>(
        &mut self,
        host: &H,
        input: &[u8],
        pos: &mut usize,
        fuel: usize,
    ) -> (r: Result<Object, ErrorKind>)
        requires
            old(self).inv(),
            *old(pos) <= input@.len(),
        ensures
            old(self).stepped_to(*final(self)),
            *old(pos) <= *final(pos) <= input@.len(),
            r matches Ok(o) ==> final(self).heap.valid(o) && *old(pos) < *final(pos),
            old(self).list_read(
                input@,
                *old(pos) as int,
                fuel as nat,
                Seq::empty(),
                None,
                *final(self),
                *final(pos) as int,
                semantics::list_result(r),
            ),
        decreases input@.len() - *old(pos), 1nat,
    {
        let mut elems: Vec<Object> = Vec::new();
        let mut tail: Option<Object> = None;
        loop
            invariant
                *old(pos) <= *pos <= input@.len(),
                old(self).stepped_to(*self),
                forall|q: int| 0 <= q < elems@.len() ==> self.heap.valid(#[trigger] elems@[q]),
                tail matches Some(t) ==> self.heap.valid(t),
                forall|l: Lisp, e: int, o: Result<Option<Object>, ErrorKind>|
                    #![trigger self.list_read(input@, *pos as int, fuel as nat, elems@, tail, l, e, o)]
                    self.list_read(input@, *pos as int, fuel as nat, elems@, tail, l, e, o)
                        ==> old(self).list_read(
                        input@,
                        *old(pos) as int,
                        fuel as nat,
                        Seq::empty(),
                        None,
                        l,
                        e,
                        o,
                    ),
            decreases input@.len() - *pos,
        {
            let ghost prev = *self;
            let ghost pos0 = *pos as int;
            let ghost elems0 = elems@;
            proof {
                semantics::lemma_next_at(input@, pos0);
            }
            skip_blank(input, &mut *pos);
            if *pos >= input.len() {
                proof {
                    assert(prev.list_read(
                        input@,
                        pos0,
                        fuel as nat,
                        elems0,
                        tail,
                        *self,
                        *pos as int,
                        Err(ErrorKind::UnclosedList),
                    ));
                }
                return Err(ErrorKind::UnclosedList);
            }
            let b: u8 = input[*pos];
            if b == 0x29 {
                *pos = *pos + 1;
                let ghost s1 = *self;
                let list = match tail {
                    Some(t) => self.list_onto(&elems, t),
                    None => self.list_onto(&elems, Object::nil()),
                };
                proof {
                    s1.heap.lemma_extended_kinds(self.heap);
                    assert(s1.stepped_to(*self));
                    old(self).lemma_stepped_twice(s1, *self);
                    assert(crate::evaluator::semantics::stage(*self, list));
                    assert(prev.list_read(
                        input@,
                        pos0,
                        fuel as nat,
                        elems0,
                        tail,
                        *self,
                        *pos as int,
                        Ok(Some(list)),
                    ));
                }
                return Ok(list);
            }
            if tail.is_some() {
                proof {
                    assert(prev.list_read(
                        input@,
                        pos0,
                        fuel as nat,
                        elems0,
                        tail,
                        *self,
                        *pos as int,
                        Err(ErrorKind::UnclosedList),
                    ));
                }
                return Err(ErrorKind::UnclosedList);
            }
            let is_dot = b == 0x2E && (*pos + 1 >= input.len() || is_whitespace(input[*pos + 1])
                || input[*pos + 1] == 0x29 || input[*pos + 1] == 0x3B);
            if is_dot && elems.len() > 0 {
                *pos = *pos + 1;
            }
            let ghost s1 = *self;
            let item = self.read_within(host, input, &mut *pos, fuel);
            proof {
                old(self).lemma_stepped_twice(s1, *self);
                assert forall|q: int| 0 <= q < elems@.len() implies self.heap.valid(
                    #[trigger] elems@[q],
                ) by {
                    s1.heap.lemma_valid_kept(self.heap, elems@[q]);
                }
            }
            match item {
                Ok(Some(o)) => {
                    if is_dot && elems.len() > 0 {
                        tail = Some(o);
                    } else {
                        elems.push(o);
                    }
                    proof {
                        assert forall|l: Lisp, e: int, r: Result<Option<Object>, ErrorKind>|
                            #![trigger self.list_read(input@, *pos as int, fuel as nat, elems@, tail, l, e, r)]
                            self.list_read(
                                input@,
                                *pos as int,
                                fuel as nat,
                                elems@,
                                tail,
                                l,
                                e,
                                r,
                            ) implies old(self).list_read(
                            input@,
                            *old(pos) as int,
                            fuel as nat,
                            Seq::empty(),
                            None,
                            l,
                            e,
                            r,
                        ) by {
                            prev.lemma_list_read_next(
                                input@,
                                pos0,
                                fuel as nat,
                                elems0,
                                *self,
                                *pos as int,
                                item,
                                l,
                                e,
                                r,
                            );
                        }
                    }
                },
                Ok(None) => {
                    proof {
                        prev.lemma_list_read_next(
                            input@,
                            pos0,
                            fuel as nat,
                            elems0,
                            *self,
                            *pos as int,
                            item,
                            *self,
                            *pos as int,
                            Err(ErrorKind::UnclosedList),
                        );
                    }
                    return Err(ErrorKind::UnclosedList);
                },
                Err(e) => {
                    proof {
                        prev.lemma_list_read_next(
                            input@,
                            pos0,
                            fuel as nat,
                            elems0,
                            *self,
                            *pos as int,
                            item,
                            *self,
                            *pos as int,
                            Err(e),
                        );
                    }
                    return Err(e);
                },
            }
        }
    }
}

} // verus!
