//! Strings: byte sequences that do not change once made.

use super::symbol::{byte_at, spec_byte_at};
use crate::gc::GcMark;
use vstd::prelude::*;

verus! {

pub struct RlispString {
    pub gc_marking: GcMark,
    pub val: Vec<u8>,
}

impl RlispString {
    /// A string that no collection has visited yet.
    pub fn new(val: Vec<u8>) -> (r: Self)
        ensures
            r.val@ == val@,
            r.gc_marking == 0,
    {
        Self { gc_marking: 0, val }
    }

    pub fn len(&self) -> (r: usize)
        ensures
            r == self.val@.len(),
    {
        self.val.len()
    }

    /// The bytes of the string.
    pub fn as_bytes(&self) -> (r: &Vec<u8>)
        ensures
            r@ == self.val@,
    {
        &self.val
    }

    /// The byte at `index`; a negative index counts from the end.
    pub fn byte_at(&self, index: i32) -> (r: Option<u8>)
        ensures
            r == spec_byte_at(self.val@, index as int),
    {
        byte_at(&self.val, index)
    }
}

} // verus!
