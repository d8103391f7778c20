//! Errors. An error is a value like any other: it can stand wherever a value
//! can, and code that is about to use a value looks first whether it is one.

use super::Object;
use crate::gc::GcMark;
use crate::result::ErrorKind;
use vstd::prelude::*;

verus! {

pub struct RlispError {
    pub gc_marking: GcMark,
    pub error: RlispErrorKind,
}

#[derive(Copy, Clone, PartialEq, Eq, Structural, Debug)]
pub enum RlispErrorKind {
    WrongType { wanted: Object, found: Object },
    BadArgsCount { min: Object, max: Object, found: Object },
    ImproperList,
    UnboundSymbol { sym: Object },
    RustError(ErrorKind),
    NotAType { found: Object },
    Custom { kind: Object, info: Object },
    UndefinedSymbol { sym: Object },
    IndexOutOfBounds { idx: Object, reciever: Object },
}

impl RlispErrorKind {
    pub fn wrong_type(wanted: Object, found: Object) -> (r: Self)
        ensures
            r == (RlispErrorKind::WrongType { wanted, found }),
    {
        RlispErrorKind::WrongType { wanted, found }
    }
}

impl RlispError {
    /// An error of the given kind that no collection has visited yet.
    pub fn from_kind(error: RlispErrorKind) -> (r: Self)
        ensures
            r.error == error,
            r.gc_marking == 0,
    {
        Self { gc_marking: 0, error }
    }

    /// The error that wraps a failure of the host side.
    pub fn from_host(e: ErrorKind) -> (r: Self)
        ensures
            r.error == RlispErrorKind::RustError(e),
            r.gc_marking == 0,
    {
        Self { gc_marking: 0, error: RlispErrorKind::RustError(e) }
    }

    pub fn wrong_type(wanted: Object, found: Object) -> (r: Self)
        ensures
            r.error == (RlispErrorKind::WrongType { wanted, found }),
            r.gc_marking == 0,
    {
        Self::from_kind(RlispErrorKind::wrong_type(wanted, found))
    }

    pub fn improper_list() -> (r: Self)
        ensures
            r.error == RlispErrorKind::ImproperList,
            r.gc_marking == 0,
    {
        Self::from_kind(RlispErrorKind::ImproperList)
    }

    pub fn unbound_symbol(sym: Object) -> (r: Self)
        ensures
            r.error == (RlispErrorKind::UnboundSymbol { sym }),
            r.gc_marking == 0,
    {
        Self::from_kind(RlispErrorKind::UnboundSymbol { sym })
    }

    pub fn bad_args_count(found: Object, min: Object, max: Object) -> (r: Self)
        ensures
            r.error == (RlispErrorKind::BadArgsCount { min, max, found }),
            r.gc_marking == 0,
    {
        Self::from_kind(RlispErrorKind::BadArgsCount { found, min, max })
    }

    pub fn not_a_type(found: Object) -> (r: Self)
        ensures
            r.error == (RlispErrorKind::NotAType { found }),
            r.gc_marking == 0,
    {
        Self::from_kind(RlispErrorKind::NotAType { found })
    }

    pub fn undefined_symbol(sym: Object) -> (r: Self)
        ensures
            r.error == (RlispErrorKind::UndefinedSymbol { sym }),
            r.gc_marking == 0,
    {
        Self::from_kind(RlispErrorKind::UndefinedSymbol { sym })
    }

    pub fn index_out_of_bounds(idx: Object, reciever: Object) -> (r: Self)
        ensures
            r.error == (RlispErrorKind::IndexOutOfBounds { idx, reciever }),
            r.gc_marking == 0,
    {
        Self::from_kind(RlispErrorKind::IndexOutOfBounds { idx, reciever })
    }

    pub fn custom(kind: Object, info: Object) -> (r: Self)
        ensures
            r.error == (RlispErrorKind::Custom { kind, info }),
            r.gc_marking == 0,
    {
        Self::from_kind(RlispErrorKind::Custom { kind, info })
    }
}

} // verus!
