//! Raw cons cells. The operations on whole lists are in `list`.

use super::Object;
use crate::gc::GcMark;
use vstd::prelude::*;

verus! {

/// A pair. Lists are chains of pairs that end in `nil`.
#[derive(Clone, Copy, Debug)]
pub struct ConsCell {
    pub car: Object,
    pub cdr: Object,
    pub gc_marking: GcMark,
}

impl ConsCell {
    /// A cell that no collection has visited yet.
    pub fn new(car: Object, cdr: Object) -> (r: Self)
        ensures
            r.car == car,
            r.cdr == cdr,
            r.gc_marking == 0,
    {
        Self { car, cdr, gc_marking: 0 }
    }
}

} // verus!
