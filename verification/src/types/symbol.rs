//! Symbols. A symbol is interned: the runtime holds one per name, so two
//! symbols are the same iff their references are.

use crate::gc::GcMark;
use vstd::prelude::*;

verus! {

pub struct Symbol {
    pub gc_marking: GcMark,
    pub name: Vec<u8>,
}

impl Symbol {
    /// A symbol that no collection has visited yet.
    pub fn new(name: Vec<u8>) -> (r: Self)
        ensures
            r.name@ == name@,
            r.gc_marking == 0,
    {
        Self { gc_marking: 0, name }
    }

    /// The bytes of the name.
    pub fn as_bytes(&self) -> (r: &Vec<u8>)
        ensures
            r@ == self.name@,
    {
        &self.name
    }

    /// The byte at `index`; a negative index counts from the end.
    pub fn byte_at(&self, index: i32) -> (r: Option<u8>)
        ensures
            r == spec_byte_at(self.name@, index as int),
    {
        byte_at(&self.name, index)
    }
}

/// The byte at `index` of `bytes`, where a negative index counts from the
/// end, and `None` where the index falls outside.
pub open spec fn spec_byte_at(bytes: Seq<u8>, index: int) -> Option<u8> {
    let at = if index < 0 {
        index + bytes.len()
    } else {
        index
    };
    if 0 <= at < bytes.len() {
        Some(bytes[at])
    } else {
        None
    }
}

/// The byte at `index` of `bytes`; a negative index counts from the end.
pub fn byte_at(bytes: &Vec<u8>, index: i32) -> (r: Option<u8>)
    ensures
        r == spec_byte_at(bytes@, index as int),
{
    let len: usize = bytes.len();
    if index >= 0 {
        let at: usize = index as usize;
        if at < len {
            Some(bytes[at])
        } else {
            None
        }
    } else {
        let back: u64 = (-(index as i64)) as u64;
        if back <= len as u64 {
            let at: usize = len - (back as usize);
            Some(bytes[at])
        } else {
            None
        }
    }
}

} // verus!
