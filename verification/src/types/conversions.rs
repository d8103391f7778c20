//! Conversions between values and what they hold.
//!
//! `maybe_from` looks at the type of a value first and gives `None` where it
//! is another one; `from_unchecked` is for where the type is known.

use super::{
    ConsCell, Namespace, Object, ObjectTag, RlispError, RlispFunc, RlispNum, RlispString,
    RlispType, Symbol,
};
use core::marker::PhantomData;
use vstd::prelude::*;

verus! {

/// A conversion that can fail.
pub trait MaybeFrom<T>: Sized {
    /// What `t` converts to, if it does.
    spec fn spec_maybe_from(t: T) -> Option<Self>;

    fn maybe_from(t: T) -> (r: Option<Self>)
        ensures
            r == Self::spec_maybe_from(t),
    ;
}

/// What can be taken out of a value of one type.
pub trait FromObject: Sized {
    /// The type of the values that hold a `Self`.
    spec fn spec_rlisp_type() -> RlispType;

    fn rlisp_type() -> (r: RlispType)
        ensures
            r == Self::spec_rlisp_type(),
    ;

    /// True iff `obj` holds a `Self`.
    fn is_type(obj: Object) -> (r: bool)
        ensures
            r == Self::spec_rlisp_type().spec_admits(obj.spec_what_type()),
    ;
}

/// A conversion for where the type of the value is known.
pub trait FromUnchecked<T>: Sized {
    /// True iff `obj` holds a `Self`.
    spec fn holds_one(obj: T) -> bool;

    /// The `Self` that `obj` holds.
    spec fn spec_from_unchecked(obj: T) -> Self;

    fn from_unchecked(obj: T) -> (r: Self)
        requires
            Self::holds_one(obj),
        ensures
            r == Self::spec_from_unchecked(obj),
    ;
}

/// `MaybeFrom`, seen from the other side.
pub trait MaybeInto<T>: Sized {
    /// What `self` converts to, if it does.
    spec fn spec_maybe_into(self) -> Option<T>;

    fn maybe_into(self) -> (r: Option<T>)
        ensures
            r == self.spec_maybe_into(),
    ;
}

/// `FromUnchecked`, seen from the other side.
pub trait IntoUnchecked<T>: Sized {
    /// True iff `self` holds a `T`.
    spec fn holds_a(self) -> bool;

    /// The `T` that `self` holds.
    spec fn spec_into_unchecked(self) -> T;

    fn into_unchecked(self) -> (r: T)
        requires
            self.holds_a(),
        ensures
            r == self.spec_into_unchecked(),
    ;
}

/// The types of heap values: each has its tag.
pub trait HeapKind {
    spec fn spec_tag() -> ObjectTag;

    fn tag() -> (r: ObjectTag)
        ensures
            r == Self::spec_tag(),
            r != ObjectTag::Immediate,
            r != ObjectTag::Place,
    ;
}

impl HeapKind for ConsCell {
    open spec fn spec_tag() -> ObjectTag {
        ObjectTag::Cons
    }

    fn tag() -> (r: ObjectTag) {
        ObjectTag::Cons
    }
}

impl HeapKind for Symbol {
    open spec fn spec_tag() -> ObjectTag {
        ObjectTag::Sym
    }

    fn tag() -> (r: ObjectTag) {
        ObjectTag::Sym
    }
}

impl HeapKind for RlispString {
    open spec fn spec_tag() -> ObjectTag {
        ObjectTag::String
    }

    fn tag() -> (r: ObjectTag) {
        ObjectTag::String
    }
}

impl HeapKind for RlispFunc {
    open spec fn spec_tag() -> ObjectTag {
        ObjectTag::Function
    }

    fn tag() -> (r: ObjectTag) {
        ObjectTag::Function
    }
}

impl HeapKind for RlispError {
    open spec fn spec_tag() -> ObjectTag {
        ObjectTag::Error
    }

    fn tag() -> (r: ObjectTag) {
        ObjectTag::Error
    }
}

impl HeapKind for Namespace {
    open spec fn spec_tag() -> ObjectTag {
        ObjectTag::Namespace
    }

    fn tag() -> (r: ObjectTag) {
        ObjectTag::Namespace
    }
}

/// The index of a slot that holds a `K`.
pub struct Ptr<K: HeapKind> {
    pub index: u64,
    pub kind: PhantomData<K>,
}

impl<K: HeapKind> Ptr<K> {
    pub fn new(index: u64) -> (r: Self)
        ensures
            r.index == index,
    {
        Ptr { index, kind: PhantomData }
    }
}

impl<K: HeapKind> FromObject for Ptr<K> {
    open spec fn spec_rlisp_type() -> RlispType {
        Object::tag_type(K::spec_tag())
    }

    fn rlisp_type() -> (r: RlispType) {
        match K::tag() {
            ObjectTag::Cons => RlispType::Cons,
            ObjectTag::Sym => RlispType::Sym,
            ObjectTag::String => RlispType::String,
            ObjectTag::Function => RlispType::Function,
            ObjectTag::Error => RlispType::Error,
            ObjectTag::Namespace => RlispType::Namespace,
            ObjectTag::Immediate => RlispType::Bool,
            ObjectTag::Place => RlispType::Place,
        }
    }

    fn is_type(obj: Object) -> (r: bool) {
        Self::rlisp_type() == obj.what_type()
    }
}

impl<K: HeapKind> FromUnchecked<Object> for Ptr<K> {
    open spec fn holds_one(obj: Object) -> bool {
        obj.spec_what_type() == Self::spec_rlisp_type()
    }

    open spec fn spec_from_unchecked(obj: Object) -> Self {
        Ptr { index: obj.spec_index() as u64, kind: PhantomData }
    }

    fn from_unchecked(obj: Object) -> (r: Self) {
        Ptr { index: obj.index(), kind: PhantomData }
    }
}

impl<K: HeapKind> MaybeFrom<Object> for Ptr<K> {
    open spec fn spec_maybe_from(obj: Object) -> Option<Self> {
        if obj.spec_what_type() == Self::spec_rlisp_type() {
            Some(Ptr { index: obj.spec_index() as u64, kind: PhantomData })
        } else {
            None
        }
    }

    fn maybe_from(obj: Object) -> (r: Option<Self>) {
        if Self::is_type(obj) {
            Some(Self::from_unchecked(obj))
        } else {
            None
        }
    }
}

impl FromObject for i32 {
    open spec fn spec_rlisp_type() -> RlispType {
        RlispType::Integer
    }

    fn rlisp_type() -> (r: RlispType) {
        RlispType::Integer
    }

    fn is_type(obj: Object) -> (r: bool) {
        obj.integerp()
    }
}

impl FromUnchecked<Object> for i32 {
    open spec fn holds_one(obj: Object) -> bool {
        obj.spec_what_type() == RlispType::Integer
    }

    open spec fn spec_from_unchecked(obj: Object) -> Self {
        obj.spec_int() as i32
    }

    fn from_unchecked(obj: Object) -> (r: Self) {
        obj.int_value()
    }
}

impl MaybeFrom<Object> for i32 {
    open spec fn spec_maybe_from(obj: Object) -> Option<Self> {
        if obj.spec_what_type() == RlispType::Integer {
            Some(obj.spec_int() as i32)
        } else {
            None
        }
    }

    fn maybe_from(obj: Object) -> (r: Option<Self>) {
        if obj.integerp() {
            Some(obj.int_value())
        } else {
            None
        }
    }
}

impl FromObject for bool {
    open spec fn spec_rlisp_type() -> RlispType {
        RlispType::Bool
    }

    fn rlisp_type() -> (r: RlispType) {
        RlispType::Bool
    }

    fn is_type(obj: Object) -> (r: bool) {
        obj.boolp()
    }
}

impl FromUnchecked<Object> for bool {
    open spec fn holds_one(obj: Object) -> bool {
        obj.spec_what_type() == RlispType::Bool
    }

    open spec fn spec_from_unchecked(obj: Object) -> Self {
        obj != Object::spec_nil()
    }

    fn from_unchecked(obj: Object) -> (r: Self) {
        !obj.nilp()
    }
}

impl MaybeFrom<Object> for bool {
    open spec fn spec_maybe_from(obj: Object) -> Option<Self> {
        if obj.spec_what_type() == RlispType::Bool {
            Some(obj != Object::spec_nil())
        } else {
            None
        }
    }

    fn maybe_from(obj: Object) -> (r: Option<Self>) {
        if obj.boolp() {
            Some(!obj.nilp())
        } else {
            None
        }
    }
}

impl FromObject for RlispNum {
    open spec fn spec_rlisp_type() -> RlispType {
        RlispType::Number
    }

    fn rlisp_type() -> (r: RlispType) {
        RlispType::Number
    }

    fn is_type(obj: Object) -> (r: bool) {
        obj.numberp()
    }
}

impl MaybeFrom<Object> for RlispNum {
    open spec fn spec_maybe_from(obj: Object) -> Option<Self> {
        RlispNum::spec_maybe_from(obj)
    }

    fn maybe_from(obj: Object) -> (r: Option<Self>) {
        RlispNum::maybe_from(obj)
    }
}

impl MaybeFrom<RlispNum> for i32 {
    open spec fn spec_maybe_from(n: RlispNum) -> Option<Self> {
        match n {
            RlispNum::Int(i) => Some(i),
            RlispNum::Float(_) => None,
        }
    }

    fn maybe_from(n: RlispNum) -> (r: Option<Self>) {
        n.as_int()
    }
}

impl<T: MaybeFrom<Object>> MaybeInto<T> for Object {
    open spec fn spec_maybe_into(self) -> Option<T> {
        T::spec_maybe_from(self)
    }

    fn maybe_into(self) -> (r: Option<T>) {
        T::maybe_from(self)
    }
}

impl<T: FromUnchecked<Object>> IntoUnchecked<T> for Object {
    open spec fn holds_a(self) -> bool {
        T::holds_one(self)
    }

    open spec fn spec_into_unchecked(self) -> T {
        T::spec_from_unchecked(self)
    }

    fn into_unchecked(self) -> (r: T) {
        T::from_unchecked(self)
    }
}

} // verus!
