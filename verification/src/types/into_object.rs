//! Plain values that become values of the language when the runtime starts.

use super::{Object, RlispError, RlispType};
use crate::lisp::allocate::Slot;
use crate::lisp::Lisp;
use vstd::prelude::*;
use vstd::string::StringSliceAdditionalSpecFns;

verus! {

pub enum IntoObject {
    /// A double, as its bit pattern.
    Num(u64),
    String(&'static str),
    Error(RlispError),
    Bool(bool),
}

impl IntoObject {
    /// The double with the bit pattern `bits`.
    pub fn from_float_bits(bits: u64) -> (r: Self)
        ensures
            r == IntoObject::Num(bits),
    {
        IntoObject::Num(bits)
    }
}

impl Lisp {
    /// The value that `i` stands for: a double or a boolean as it is, a
    /// string or an error as a new value on the heap.
    pub fn convert_into_object(&mut self, i: IntoObject) -> (r: Object)
        requires
            old(self).inv(),
            i matches IntoObject::Error(e) ==> e.gc_marking == 0 && old(self).heap.slot_ok(
                Slot::Error(e),
            ),
        ensures
            old(self).stepped_to(*final(self)),
            final(self).heap.valid(r),
            match i {
                IntoObject::Num(bits) => r == Object::spec_from_float_bits(bits) && *final(self)
                    == *old(self),
                IntoObject::Bool(b) => *final(self) == *old(self) && r == (if b {
                    Object::spec_t()
                } else {
                    Object::spec_nil()
                }),
                IntoObject::String(s) => !old(self).heap.full() ==> r.spec_what_type()
                    == RlispType::String && (match final(self).heap.at(r.spec_index()) {
                    Slot::String(held) => held.val@ == s.spec_bytes(),
                    _ => false,
                }),
                IntoObject::Error(e) => old(self).allocated(*final(self), Slot::Error(e), r),
            },
            old(self).converted(i, *final(self), r),
    {
        match i {
            IntoObject::Num(bits) => Object::from_float_bits(bits),
            IntoObject::String(s) => {
                let mut val: Vec<u8> = Vec::new();
                val.extend_from_slice(s.as_bytes());
                assert(val@ =~= s.spec_bytes());
                self.alloc_string(val)
            },
            IntoObject::Error(e) => self.alloc_error(e),
            IntoObject::Bool(b) => Object::from_bool(b),
        }
    }
}

} // verus!
