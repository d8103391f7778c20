//! Values as text, in the syntax that the reader takes.

use crate::lisp::allocate::{Heap, Slot};
use crate::types::rlisperror::RlispErrorKind;
use crate::types::{FloatOps, Object, RlispType};
use vstd::prelude::*;
use vstd::string::StringSliceAdditionalSpecFns;

verus! {

/// The decimal digits of `n`.
pub open spec fn digits(n: nat) -> Seq<u8>
    decreases n,
{
    if n < 10 {
        seq![(48 + n) as u8]
    } else {
        digits(n / 10).push((48 + n % 10) as u8)
    }
}

/// The integer `i` in decimal, with a minus sign in front where it is
/// negative.
pub open spec fn decimal(i: int) -> Seq<u8> {
    if i < 0 {
        seq![45u8] + digits((-i) as nat)
    } else {
        digits(i as nat)
    }
}

/// What stands for the byte `b` between the quotes of a string: a backslash
/// and a letter for a quote, a backslash, a newline or a tab, and the byte
/// itself for any other.
pub open spec fn escaped_byte(b: u8) -> Seq<u8> {
    if b == 0x22 {
        seq![0x5Cu8, 0x22u8]
    } else if b == 0x5C {
        seq![0x5Cu8, 0x5Cu8]
    } else if b == 0x0A {
        seq![0x5Cu8, 0x6Eu8]
    } else if b == 0x09 {
        seq![0x5Cu8, 0x74u8]
    } else {
        seq![b]
    }
}

/// What stands for `bytes` between the quotes of a string.
pub open spec fn escaped(bytes: Seq<u8>) -> Seq<u8>
    decreases bytes.len(),
{
    if bytes.len() == 0 {
        Seq::empty()
    } else {
        escaped(bytes.drop_last()) + escaped_byte(bytes.last())
    }
}

/// The string with the bytes `bytes` as it is written: between quotes, with
/// escapes.
pub open spec fn quoted(bytes: Seq<u8>) -> Seq<u8> {
    seq![0x22u8] + escaped(bytes) + seq![0x22u8]
}

/// Appends the bytes of `s`.
pub fn push_str(out: &mut Vec<u8>, s: &str)
    ensures
        final(out)@ == old(out)@ + s.spec_bytes(),
{
    out.extend_from_slice(s.as_bytes());
}

/// Appends `bytes`.
pub fn push_bytes(out: &mut Vec<u8>, bytes: &Vec<u8>)
    ensures
        final(out)@ == old(out)@ + bytes@,
{
    out.extend_from_slice(bytes.as_slice());
}

/// Appends the decimal digits of `n`.
pub fn push_digits(out: &mut Vec<u8>, n: u64)
    ensures
        final(out)@ == old(out)@ + digits(n as nat),
    decreases n,
{
    if n >= 10 {
        push_digits(&mut *out, n / 10);
    }
    let d: u8 = (48 + n % 10) as u8;
    out.push(d);
    proof {
        if n >= 10 {
            assert(old(out)@ + digits(n as nat) =~= (old(out)@ + digits((n / 10) as nat)).push(d));
        } else {
            assert(old(out)@ + digits(n as nat) =~= old(out)@.push(d));
        }
    }
}

/// Appends the integer `i` in decimal.
pub fn push_int(out: &mut Vec<u8>, i: i32)
    ensures
        final(out)@ == old(out)@ + decimal(i as int),
{
    if i < 0 {
        out.push(45u8);
        let n: u64 = (-(i as i64)) as u64;
        push_digits(&mut *out, n);
        proof {
            assert(old(out)@.push(45u8) + digits(n as nat) =~= old(out)@ + decimal(i as int));
        }
    } else {
        push_digits(&mut *out, i as u64);
    }
}

/// Appends the string with the bytes `bytes` as it is written.
pub fn push_quoted(out: &mut Vec<u8>, bytes: &Vec<u8>)
    ensures
        final(out)@ == old(out)@ + quoted(bytes@),
{
    out.push(0x22u8);
    let mut i: usize = 0;
    while i < bytes.len()
        invariant
            i <= bytes@.len(),
            out@ == old(out)@ + seq![0x22u8] + escaped(bytes@.take(i as int)),
        decreases bytes@.len() - i,
    {
        let b: u8 = bytes[i];
        let ghost before = out@;
        if b == 0x22 {
            out.push(0x5Cu8);
            out.push(0x22u8);
        } else if b == 0x5C {
            out.push(0x5Cu8);
            out.push(0x5Cu8);
        } else if b == 0x0A {
            out.push(0x5Cu8);
            out.push(0x6Eu8);
        } else if b == 0x09 {
            out.push(0x5Cu8);
            out.push(0x74u8);
        } else {
            out.push(b);
        }
        proof {
            assert(bytes@.take(i + 1).drop_last() =~= bytes@.take(i as int));
            assert(bytes@.take(i + 1).last() == b);
            assert(out@ =~= before + escaped_byte(b));
            assert(out@ =~= old(out)@ + seq![0x22u8] + escaped(bytes@.take(i + 1)));
        }
        i += 1;
    }
    out.push(0x22u8);
    proof {
        assert(bytes@.take(bytes@.len() as int) =~= bytes@);
        assert(out@ =~= old(out)@ + quoted(bytes@));
    }
}

/// The bytes of `s`, as a text that is known.
pub open spec fn text(s: &str) -> Option<Seq<u8>> {
    Some(s.spec_bytes())
}

/// The one text after the other, where both are known.
pub open spec fn joined(a: Option<Seq<u8>>, b: Option<Seq<u8>>) -> Option<Seq<u8>> {
    match (a, b) {
        (Some(x), Some(y)) => Some(x + y),
        _ => None,
    }
}

impl Heap {
    /// What `write_object` appends for a value that holds nothing else: an
    /// integer in decimal, `nil` and `t` by their names, a symbol by its
    /// name, and a string as it is written. `None` for every other value.
    pub open spec fn printed_atom(self, obj: Object) -> Option<Seq<u8>> {
        match obj.spec_what_type() {
            RlispType::Integer => Some(decimal(obj.spec_int())),
            RlispType::Bool => Some(
                if obj == Object::spec_nil() {
                    "nil".spec_bytes()
                } else {
                    "t".spec_bytes()
                },
            ),
            RlispType::Sym => match self.at(obj.spec_index()) {
                Slot::Sym(s) => Some(s.name@),
                _ => None,
            },
            RlispType::String => match self.at(obj.spec_index()) {
                Slot::String(s) => Some(quoted(s.val@)),
                _ => None,
            },
            _ => None,
        }
    }

    /// The text of `obj`, nested at most `fuel` deep; what lies deeper is
    /// three dots. `None` where the text shows a double: the host formats
    /// doubles, and nothing is known here of how. A list stands between
    /// parentheses, its elements apart by blanks, with an end that is not
    /// `nil` after a dot. A function is its name after `#'`, an error what
    /// it says after `ERROR: `, a namespace its name between angle brackets.
    pub open spec fn printed(self, obj: Object, fuel: nat) -> Option<Seq<u8>>
        decreases fuel, 0nat,
    {
        if fuel == 0 {
            text("...")
        } else {
            let less = (fuel - 1) as nat;
            match obj.spec_what_type() {
                RlispType::Float => None,
                RlispType::Cons => {
                    let (elems, end) = self.list_view(obj);
                    joined(
                        joined(
                            joined(text("("), self.printed_items(elems, less)),
                            if end == Object::spec_nil() {
                                Some(Seq::empty())
                            } else {
                                joined(text(" . "), self.printed(end, less))
                            },
                        ),
                        text(")"),
                    )
                },
                RlispType::Function => match self.at(obj.spec_index()) {
                    Slot::Function(f) => match f.name {
                        Some(n) => joined(text("#'"), self.printed(n, less)),
                        None => text("ANONYMOUS FUNCTION"),
                    },
                    _ => None,
                },
                RlispType::Error => match self.at(obj.spec_index()) {
                    Slot::Error(e) => joined(text("ERROR: "), self.printed_error(e.error, less)),
                    _ => None,
                },
                RlispType::Namespace => match self.at(obj.spec_index()) {
                    Slot::Namespace(n) => match n.name {
                        Some(name) => joined(
                            joined(text("<namespace "), self.printed(name, less)),
                            text(">"),
                        ),
                        None => text("<anonymous namespace>"),
                    },
                    _ => None,
                },
                RlispType::Place => text("<place>"),
                _ => self.printed_atom(obj),
            }
        }
    }

    /// The texts of `elems`, nested at most `fuel` deep, with a blank
    /// between each two.
    pub open spec fn printed_items(self, elems: Seq<Object>, fuel: nat) -> Option<Seq<u8>>
        decreases fuel, elems.len() + 1,
    {
        if elems.len() == 0 {
            Some(Seq::empty())
        } else if elems.len() == 1 {
            self.printed(elems[0], fuel)
        } else {
            joined(
                joined(self.printed_items(elems.drop_last(), fuel), text(" ")),
                self.printed(elems.last(), fuel),
            )
        }
    }

    /// What an error of the kind `kind` says, with the values that it holds
    /// nested at most `fuel` deep.
    pub open spec fn printed_error(self, kind: RlispErrorKind, fuel: nat) -> Option<Seq<u8>>
        decreases fuel, 1nat,
    {
        match kind {
            RlispErrorKind::WrongType { wanted, found } => joined(
                joined(
                    joined(text("expected type "), self.printed(wanted, fuel)),
                    text(" but found type "),
                ),
                self.printed(found, fuel),
            ),
            RlispErrorKind::BadArgsCount { min, max, found } => if max == Object::spec_nil() {
                joined(
                    joined(
                        joined(text("wanted at least "), self.printed(min, fuel)),
                        text(" args but found only "),
                    ),
                    self.printed(found, fuel),
                )
            } else {
                joined(
                    joined(
                        joined(
                            joined(
                                joined(text("wanted between "), self.printed(min, fuel)),
                                text(" and "),
                            ),
                            self.printed(max, fuel),
                        ),
                        text(" args but found "),
                    ),
                    self.printed(found, fuel),
                )
            },
            RlispErrorKind::ImproperList => text(
                "found an improper list where a proper one was expected",
            ),
            RlispErrorKind::UnboundSymbol { sym } => joined(
                joined(text("symbol "), self.printed(sym, fuel)),
                text(" is unbound"),
            ),
            RlispErrorKind::RustError(e) => joined(text("INTERNAL: "), text(e.spec_description())),
            RlispErrorKind::NotAType { found } => joined(
                self.printed(found, fuel),
                text(" is not a type designator"),
            ),
            RlispErrorKind::Custom { kind, info } => joined(
                joined(self.printed(kind, fuel), text(": ")),
                self.printed(info, fuel),
            ),
            RlispErrorKind::UndefinedSymbol { sym } => joined(
                joined(text("symbol "), self.printed(sym, fuel)),
                text(" is undefined"),
            ),
            RlispErrorKind::IndexOutOfBounds { idx, reciever } => joined(
                joined(self.printed(idx, fuel), text(" is not a valid index into ")),
                self.printed(reciever, fuel),
            ),
        }
    }

    /// Appends `obj` as text, nested at most `fuel` deep: the text that
    /// `printed` gives, with every double as the host formats it.
    #[verifier::rlimit(40)]
    pub fn write_object<H: FloatOps>(&self, host: &H, obj: Object, out: &mut Vec<u8>, fuel: usize)
        requires
            self.wf(),
            self.valid(obj),
        ensures
            final(out)@.len() >= old(out)@.len(),
            self.printed(obj, fuel as nat) matches Some(t) ==> final(out)@ == old(out)@ + t,
        decreases fuel, 1nat,
    {
        if fuel == 0 {
            push_str(&mut *out, "...");
            return ;
        }
        let ghost less = (fuel - 1) as nat;
        match obj.what_type() {
            RlispType::Float => {
                let shown = host.format(obj.float_bits());
                push_bytes(&mut *out, &shown);
            },
            RlispType::Integer => {
                push_int(&mut *out, obj.int_value());
            },
            RlispType::Bool => {
                if obj.nilp() {
                    push_str(&mut *out, "nil");
                } else {
                    push_str(&mut *out, "t");
                }
            },
            RlispType::Sym => {
                push_bytes(&mut *out, &self.symbol(obj).name);
            },
            RlispType::String => {
                push_quoted(&mut *out, &self.string(obj).val);
            },
            RlispType::Cons => {
                self.write_list(host, obj, &mut *out, fuel);
            },
            RlispType::Function => {
                let name = self.function(obj).name;
                match name {
                    Some(n) => {
                        proof {
                            self.lemma_valid_reference(obj);
                            assert(self.slot_ok(self.slots@[obj.spec_index()]));
                            assert(self.slots@[obj.spec_index()].holds(n));
                        }
                        push_str(&mut *out, "#'");
                        self.write_object(host, n, &mut *out, fuel - 1);
                        proof {
                            match self.printed(n, less) {
                                Some(t) => {
                                    assert(old(out)@ + ("#'".spec_bytes() + t) =~= old(out)@
                                        + "#'".spec_bytes() + t);
                                },
                                None => {},
                            }
                        }
                    },
                    None => {
                        push_str(&mut *out, "ANONYMOUS FUNCTION");
                    },
                }
            },
            RlispType::Error => {
                push_str(&mut *out, "ERROR: ");
                let kind = self.error(obj).error;
                proof {
                    self.lemma_valid_reference(obj);
                    let held = self.slots@[obj.spec_index()];
                    assert(self.slot_ok(held));
                    let plain = Slot::Error(
                        crate::types::RlispError { gc_marking: 0, error: kind },
                    );
                    assert forall|o: Object| #[trigger] plain.holds(o) implies self.valid(o) by {
                        assert(held.holds(o));
                    }
                }
                self.write_error_kind(host, kind, &mut *out, fuel - 1);
                proof {
                    match self.printed_error(kind, less) {
                        Some(t) => {
                            assert(old(out)@ + ("ERROR: ".spec_bytes() + t) =~= old(out)@
                                + "ERROR: ".spec_bytes() + t);
                        },
                        None => {},
                    }
                }
            },
            RlispType::Namespace => {
                proof {
                    self.lemma_valid_reference(obj);
                }
                let name = self.namespace(obj.index()).name;
                match name {
                    Some(n) => {
                        proof {
                            assert(self.slot_ok(self.slots@[obj.spec_index()]));
                            assert(self.slots@[obj.spec_index()].holds(n));
                        }
                        push_str(&mut *out, "<namespace ");
                        self.write_object(host, n, &mut *out, fuel - 1);
                        push_str(&mut *out, ">");
                        proof {
                            match self.printed(n, less) {
                                Some(t) => {
                                    assert(old(out)@ + ("<namespace ".spec_bytes() + t
                                        + ">".spec_bytes()) =~= old(out)@
                                        + "<namespace ".spec_bytes() + t + ">".spec_bytes());
                                },
                                None => {},
                            }
                        }
                    },
                    None => {
                        push_str(&mut *out, "<anonymous namespace>");
                    },
                }
            },
            _ => {
                push_str(&mut *out, "<place>");
            },
        }
    }

    /// Appends the list `obj` as text, nested at most `fuel` deep: its
    /// elements between parentheses, apart by blanks, and an end that is not
    /// `nil` after a dot.
    #[verifier::rlimit(40)]
    pub fn write_list<H: FloatOps>(&self, host: &H, obj: Object, out: &mut Vec<u8>, fuel: usize)
        requires
            self.wf(),
            self.valid(obj),
            obj.spec_what_type() == RlispType::Cons,
            fuel > 0,
        ensures
            final(out)@.len() >= old(out)@.len(),
            self.printed(obj, fuel as nat) matches Some(t) ==> final(out)@ == old(out)@ + t,
        decreases fuel, 0nat,
    {
        let ghost less = (fuel - 1) as nat;
        let (elems, end) = self.list_to_vec(obj);
        push_str(&mut *out, "(");
        let ghost opened = out@;
        let mut i: usize = 0;
        proof {
            assert(elems@.take(0) =~= Seq::<Object>::empty());
            assert(opened + Seq::<u8>::empty() =~= opened);
        }
        while i < elems.len()
            invariant
                i <= elems@.len(),
                self.wf(),
                fuel > 0,
                less == fuel - 1,
                forall|q: int| 0 <= q < elems@.len() ==> self.valid(#[trigger] elems@[q]),
                out@.len() >= old(out)@.len(),
                self.printed_items(elems@.take(i as int), less) matches Some(t) ==> out@
                    == opened + t,
                self.printed_items(elems@.take(i as int), less) is None
                    ==> self.printed_items(elems@, less) is None,
            decreases elems@.len() - i,
        {
            if i > 0 {
                push_str(&mut *out, " ");
            }
            self.write_object(host, elems[i], &mut *out, fuel - 1);
            proof {
                let now = elems@.take(i + 1);
                assert(now.drop_last() =~= elems@.take(i as int));
                assert(now.last() == elems@[i as int]);
                assert(now[0] == elems@[0]);
                match self.printed_items(now, less) {
                    Some(t) => {
                        if i > 0 {
                            let a = self.printed_items(elems@.take(i as int), less).unwrap();
                            let b = self.printed(elems@[i as int], less).unwrap();
                            assert(opened + (a + " ".spec_bytes() + b) =~= opened + a
                                + " ".spec_bytes() + b);
                        }
                    },
                    None => {
                        self.lemma_items_unknown(elems@, i + 1, less);
                    },
                }
            }
            i += 1;
        }
        proof {
            assert(elems@.take(elems@.len() as int) =~= elems@);
        }
        if !end.nilp() {
            push_str(&mut *out, " . ");
            self.write_object(host, end, &mut *out, fuel - 1);
        }
        push_str(&mut *out, ")");
        proof {
            match self.printed(obj, fuel as nat) {
                Some(t) => {
                    let items = self.printed_items(elems@, less).unwrap();
                    if end == Object::spec_nil() {
                        assert(old(out)@ + ("(".spec_bytes() + items + Seq::<u8>::empty()
                            + ")".spec_bytes()) =~= old(out)@ + "(".spec_bytes() + items
                            + ")".spec_bytes());
                    } else {
                        let last = self.printed(end, less).unwrap();
                        assert(old(out)@ + ("(".spec_bytes() + items + (
                        " . ".spec_bytes() + last) + ")".spec_bytes()) =~= old(out)@
                            + "(".spec_bytes() + items + " . ".spec_bytes() + last
                            + ")".spec_bytes());
                    }
                },
                None => {},
            }
        }
    }

    /// Where the text of the first elements shows a double, so does the text
    /// of all elements.
    pub proof fn lemma_items_unknown(self, elems: Seq<Object>, n: int, fuel: nat)
        requires
            0 <= n <= elems.len(),
            self.printed_items(elems.take(n), fuel) is None,
        ensures
            self.printed_items(elems, fuel) is None,
        decreases elems.len() - n,
    {
        if n < elems.len() {
            let more = elems.take(n + 1);
            assert(more.drop_last() =~= elems.take(n));
            if n == 0 {
                assert(elems.take(0) =~= Seq::<Object>::empty());
            }
            if n == 1 {
                assert(elems.take(1)[0] == elems[0]);
            }
            self.lemma_items_unknown(elems, n + 1, fuel);
        } else {
            assert(elems.take(n) =~= elems);
        }
    }

    /// Appends what an error of the kind `kind` says: the text that
    /// `printed_error` gives, with every double as the host formats it.
    #[verifier::rlimit(40)]
    pub fn write_error_kind<H: FloatOps>(
        &self,
        host: &H,
        kind: RlispErrorKind,
        out: &mut Vec<u8>,
        fuel: usize,
    )
        requires
            self.wf(),
            self.slot_ok(Slot::Error(crate::types::RlispError { gc_marking: 0, error: kind })),
        ensures
            final(out)@.len() >= old(out)@.len(),
            self.printed_error(kind, fuel as nat) matches Some(t) ==> final(out)@ == old(out)@
                + t,
        decreases fuel, 2nat,
    {
        let ghost slot = Slot::Error(crate::types::RlispError { gc_marking: 0, error: kind });
        let ghost start = out@;
        let ghost f = fuel as nat;
        match kind {
            RlispErrorKind::WrongType { wanted, found } => {
                proof {
                    assert(slot.holds(wanted));
                    assert(slot.holds(found));
                }
                push_str(&mut *out, "expected type ");
                self.write_object(host, wanted, &mut *out, fuel);
                push_str(&mut *out, " but found type ");
                self.write_object(host, found, &mut *out, fuel);
                proof {
                    match (self.printed(wanted, f), self.printed(found, f)) {
                        (Some(a), Some(b)) => {
                            assert(start + ("expected type ".spec_bytes() + a
                                + " but found type ".spec_bytes() + b) =~= start
                                + "expected type ".spec_bytes() + a
                                + " but found type ".spec_bytes() + b);
                        },
                        _ => {},
                    }
                }
            },
            RlispErrorKind::BadArgsCount { min, max, found } => {
                proof {
                    assert(slot.holds(min));
                    assert(slot.holds(max));
                    assert(slot.holds(found));
                }
                if max.nilp() {
                    push_str(&mut *out, "wanted at least ");
                    self.write_object(host, min, &mut *out, fuel);
                    push_str(&mut *out, " args but found only ");
                    self.write_object(host, found, &mut *out, fuel);
                    proof {
                        match (self.printed(min, f), self.printed(found, f)) {
                            (Some(a), Some(b)) => {
                                assert(start + ("wanted at least ".spec_bytes() + a
                                    + " args but found only ".spec_bytes() + b) =~= start
                                    + "wanted at least ".spec_bytes() + a
                                    + " args but found only ".spec_bytes() + b);
                            },
                            _ => {},
                        }
                    }
                } else {
                    push_str(&mut *out, "wanted between ");
                    self.write_object(host, min, &mut *out, fuel);
                    push_str(&mut *out, " and ");
                    self.write_object(host, max, &mut *out, fuel);
                    push_str(&mut *out, " args but found ");
                    self.write_object(host, found, &mut *out, fuel);
                    proof {
                        match (self.printed(min, f), self.printed(max, f), self.printed(found, f)) {
                            (Some(a), Some(b), Some(c)) => {
                                assert(start + ("wanted between ".spec_bytes() + a
                                    + " and ".spec_bytes() + b + " args but found ".spec_bytes()
                                    + c) =~= start + "wanted between ".spec_bytes() + a
                                    + " and ".spec_bytes() + b + " args but found ".spec_bytes()
                                    + c);
                            },
                            _ => {},
                        }
                    }
                }
            },
            RlispErrorKind::ImproperList => {
                push_str(&mut *out, "found an improper list where a proper one was expected");
            },
            RlispErrorKind::UnboundSymbol { sym } => {
                proof {
                    assert(slot.holds(sym));
                }
                push_str(&mut *out, "symbol ");
                self.write_object(host, sym, &mut *out, fuel);
                push_str(&mut *out, " is unbound");
                proof {
                    match self.printed(sym, f) {
                        Some(a) => {
                            assert(start + ("symbol ".spec_bytes() + a + " is unbound".spec_bytes())
                                =~= start + "symbol ".spec_bytes() + a + " is unbound".spec_bytes());
                        },
                        None => {},
                    }
                }
            },
            RlispErrorKind::RustError(e) => {
                push_str(&mut *out, "INTERNAL: ");
                push_str(&mut *out, e.description());
                proof {
                    let m = e.spec_description().spec_bytes();
                    assert(start + ("INTERNAL: ".spec_bytes() + m) =~= start
                        + "INTERNAL: ".spec_bytes() + m);
                }
            },
            RlispErrorKind::NotAType { found } => {
                proof {
                    assert(slot.holds(found));
                }
                self.write_object(host, found, &mut *out, fuel);
                push_str(&mut *out, " is not a type designator");
                proof {
                    match self.printed(found, f) {
                        Some(a) => {
                            assert(start + (a + " is not a type designator".spec_bytes()) =~= start
                                + a + " is not a type designator".spec_bytes());
                        },
                        None => {},
                    }
                }
            },
            RlispErrorKind::Custom { kind, info } => {
                proof {
                    assert(slot.holds(kind));
                    assert(slot.holds(info));
                }
                self.write_object(host, kind, &mut *out, fuel);
                push_str(&mut *out, ": ");
                self.write_object(host, info, &mut *out, fuel);
                proof {
                    match (self.printed(kind, f), self.printed(info, f)) {
                        (Some(a), Some(b)) => {
                            assert(start + (a + ": ".spec_bytes() + b) =~= start + a
                                + ": ".spec_bytes() + b);
                        },
                        _ => {},
                    }
                }
            },
            RlispErrorKind::UndefinedSymbol { sym } => {
                proof {
                    assert(slot.holds(sym));
                }
                push_str(&mut *out, "symbol ");
                self.write_object(host, sym, &mut *out, fuel);
                push_str(&mut *out, " is undefined");
                proof {
                    match self.printed(sym, f) {
                        Some(a) => {
                            assert(start + ("symbol ".spec_bytes() + a
                                + " is undefined".spec_bytes()) =~= start + "symbol ".spec_bytes()
                                + a + " is undefined".spec_bytes());
                        },
                        None => {},
                    }
                }
            },
            RlispErrorKind::IndexOutOfBounds { idx, reciever } => {
                proof {
                    assert(slot.holds(idx));
                    assert(slot.holds(reciever));
                }
                self.write_object(host, idx, &mut *out, fuel);
                push_str(&mut *out, " is not a valid index into ");
                self.write_object(host, reciever, &mut *out, fuel);
                proof {
                    match (self.printed(idx, f), self.printed(reciever, f)) {
                        (Some(a), Some(b)) => {
                            assert(start + (a + " is not a valid index into ".spec_bytes() + b)
                                =~= start + a + " is not a valid index into ".spec_bytes() + b);
                        },
                        _ => {},
                    }
                }
            },
        }
    }
}

} // verus!
