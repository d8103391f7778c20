//! The tagged value representation.
//!
//! An [`Object`] is a 64-bit word. Every word that is not a positive
//! signalling NaN is a double, stored by value. The positive signalling NaNs
//! carry a three-bit type tag in bits 48..51 and a 48-bit payload in the bits
//! below: the index of a heap slot, or an immediate boolean or integer.

use vstd::prelude::*;

pub mod cons;
pub mod conversions;
pub mod function;
pub mod into_object;
pub mod namespace;
pub mod num;
pub mod rlisperror;
pub mod string;
pub mod symbol;

pub use self::cons::ConsCell;
pub use self::function::RlispFunc;
pub use self::namespace::{Namespace, Scope};
pub use self::num::{FloatOps, RlispNum};
pub use self::rlisperror::RlispError;
pub use self::string::RlispString;
pub use self::symbol::Symbol;

verus! {

/// The exponent bits; set in every NaN and in both infinities.
pub const NAN_MASK: u64 = 0x7FF0_0000_0000_0000;

/// Payloads are strictly below this bound.
pub const MAX_PTR: u64 = 0x0001_0000_0000_0000;

/// Immediate values are strictly below this bound.
pub const MAX_IMMEDIATE: u64 = 0x0000_0001_0000_0000;

/// The four bits above the payload, which hold the type tag.
pub const OBJECT_TAG_MASK: u64 = 0x000F_0000_0000_0000;

/// The NaN that arithmetic produces; it is a double like any other.
pub const CANONICAL_NAN: u64 = 0x7FF8_0000_0000_0000;

/// Sign, exponent and quiet bit: the part of a word that tells a boxed value
/// from a double.
pub const BOX_HEAD_MASK: u64 = 0xFFF8_0000_0000_0000;

/// The 51 bits below the quiet bit: tag and payload together.
pub const BOX_BODY_MASK: u64 = 0x0007_FFFF_FFFF_FFFF;

/// The bit that tells an immediate integer from an immediate boolean.
pub const INTEGER_BIT: u64 = 0x0000_0001_0000_0000;

/// The low 48 bits of a word, where the payload sits.
pub const PAYLOAD_MASK: u64 = 0x0000_FFFF_FFFF_FFFF;

/// The low 32 bits of a word.
pub const LOW_WORD_MASK: u64 = 0x0000_0000_FFFF_FFFF;

/// True iff `bits` is a boxed value rather than a double: sign and quiet bit
/// clear, exponent all ones, and something set below.
pub open spec fn is_boxed(bits: u64) -> bool {
    (bits & BOX_HEAD_MASK) == NAN_MASK && (bits & BOX_BODY_MASK) != 0
}

/// The kinds of boxed value.
#[derive(Copy, Clone, PartialEq, Eq, Structural, Debug)]
pub enum ObjectTag {
    /// Index of a cons cell. Index 0 under this tag would be the bit pattern
    /// of positive infinity, so slot 0 never holds a cons cell.
    Cons,
    /// Index of a symbol.
    Sym,
    /// Index of a string.
    String,
    /// Index of a function.
    Function,
    /// Index of an error.
    Error,
    /// Index of a namespace.
    Namespace,
    /// An immediate value; see [`ImmediateTag`].
    Immediate,
    /// Reserved for references to a mutable location.
    Place,
}

impl ObjectTag {
    /// The tag, shifted to where it sits in a word.
    pub open spec fn spec_bits(self) -> u64 {
        match self {
            ObjectTag::Cons => 0x0000_0000_0000_0000,
            ObjectTag::Sym => 0x0001_0000_0000_0000,
            ObjectTag::String => 0x0002_0000_0000_0000,
            ObjectTag::Function => 0x0003_0000_0000_0000,
            ObjectTag::Error => 0x0004_0000_0000_0000,
            ObjectTag::Namespace => 0x0005_0000_0000_0000,
            ObjectTag::Immediate => 0x0006_0000_0000_0000,
            ObjectTag::Place => 0x0007_0000_0000_0000,
        }
    }

    /// The word that boxes `ptr` under this tag.
    pub open spec fn spec_tag(self, ptr: u64) -> u64 {
        self.spec_bits() ^ NAN_MASK ^ ptr
    }

    /// True iff `bits` is a boxed value with this tag.
    pub open spec fn spec_is_of_type(self, bits: u64) -> bool {
        is_boxed(bits) && (bits & OBJECT_TAG_MASK) == self.spec_bits()
    }

    /// The payload of a word boxed under this tag.
    pub open spec fn spec_untag(self, bits: u64) -> u64 {
        bits & !(self.spec_bits() ^ NAN_MASK)
    }

    /// A payload that can be boxed under this tag and told apart from a
    /// double afterwards.
    pub open spec fn payload_ok(self, ptr: u64) -> bool {
        ptr < MAX_PTR && !(self == ObjectTag::Cons && ptr == 0)
    }

    pub fn bits(self) -> (r: u64)
        ensures
            r == self.spec_bits(),
    {
        match self {
            ObjectTag::Cons => 0x0000_0000_0000_0000,
            ObjectTag::Sym => 0x0001_0000_0000_0000,
            ObjectTag::String => 0x0002_0000_0000_0000,
            ObjectTag::Function => 0x0003_0000_0000_0000,
            ObjectTag::Error => 0x0004_0000_0000_0000,
            ObjectTag::Namespace => 0x0005_0000_0000_0000,
            ObjectTag::Immediate => 0x0006_0000_0000_0000,
            ObjectTag::Place => 0x0007_0000_0000_0000,
        }
    }

    /// Boxes a payload below `MAX_PTR`.
    pub fn tag(self, ptr: u64) -> (r: u64)
        requires
            ptr < MAX_PTR,
        ensures
            r == self.spec_tag(ptr),
    {
        self.bits() ^ NAN_MASK ^ ptr
    }

    /// True iff `bits` is a boxed value with this tag. A double never is,
    /// whatever its bits.
    pub fn is_of_type(self, bits: u64) -> (r: bool)
        ensures
            r == self.spec_is_of_type(bits),
    {
        (bits & BOX_HEAD_MASK) == NAN_MASK && (bits & BOX_BODY_MASK) != 0 && (bits
            & OBJECT_TAG_MASK) == self.bits()
    }

    /// The payload of a word that is boxed under this tag.
    pub fn untag(self, bits: u64) -> (r: u64)
        requires
            self.spec_is_of_type(bits),
        ensures
            r == self.spec_untag(bits),
            r < MAX_PTR,
            self.spec_tag(r) == bits,
    {
        let mask: u64 = self.bits() ^ NAN_MASK;
        proof {
            lemma_tag_in_range(self);
            lemma_untag_bits(self.spec_bits(), bits);
        }
        bits & !mask
    }
}

/// What holds of the bits when a payload is boxed under a three-bit tag.
pub proof fn lemma_tag_bits(t: u64, p: u64)
    by (bit_vector)
    requires
        p < 0x0001_0000_0000_0000u64,
        t & 0xFFF8_FFFF_FFFF_FFFFu64 == 0,
        t != 0 || p != 0,
    ensures
        ((t ^ 0x7FF0_0000_0000_0000u64 ^ p) & 0xFFF8_0000_0000_0000u64)
            == 0x7FF0_0000_0000_0000u64,
        ((t ^ 0x7FF0_0000_0000_0000u64 ^ p) & 0x0007_FFFF_FFFF_FFFFu64) != 0,
        ((t ^ 0x7FF0_0000_0000_0000u64 ^ p) & 0x000F_0000_0000_0000u64) == t,
        ((t ^ 0x7FF0_0000_0000_0000u64 ^ p) & !(t ^ 0x7FF0_0000_0000_0000u64)) == p,
{
}

/// What holds of the payload when a boxed word is opened under its own tag.
pub proof fn lemma_untag_bits(t: u64, b: u64)
    by (bit_vector)
    requires
        t & 0xFFF8_FFFF_FFFF_FFFFu64 == 0,
        (b & 0xFFF8_0000_0000_0000u64) == 0x7FF0_0000_0000_0000u64,
        (b & 0x000F_0000_0000_0000u64) == t,
    ensures
        (b & !(t ^ 0x7FF0_0000_0000_0000u64)) < 0x0001_0000_0000_0000u64,
        (t ^ 0x7FF0_0000_0000_0000u64 ^ (b & !(t ^ 0x7FF0_0000_0000_0000u64))) == b,
        (b & !(t ^ 0x7FF0_0000_0000_0000u64)) == (b & 0x0000_FFFF_FFFF_FFFFu64),
{
}

/// Every tag sits in bits 48..51 and nowhere else.
pub proof fn lemma_tag_in_range(tag: ObjectTag)
    ensures
        tag.spec_bits() & 0xFFF8_FFFF_FFFF_FFFFu64 == 0,
{
    assert(0x0000_0000_0000_0000u64 & 0xFFF8_FFFF_FFFF_FFFFu64 == 0) by (bit_vector);
    assert(0x0001_0000_0000_0000u64 & 0xFFF8_FFFF_FFFF_FFFFu64 == 0) by (bit_vector);
    assert(0x0002_0000_0000_0000u64 & 0xFFF8_FFFF_FFFF_FFFFu64 == 0) by (bit_vector);
    assert(0x0003_0000_0000_0000u64 & 0xFFF8_FFFF_FFFF_FFFFu64 == 0) by (bit_vector);
    assert(0x0004_0000_0000_0000u64 & 0xFFF8_FFFF_FFFF_FFFFu64 == 0) by (bit_vector);
    assert(0x0005_0000_0000_0000u64 & 0xFFF8_FFFF_FFFF_FFFFu64 == 0) by (bit_vector);
    assert(0x0006_0000_0000_0000u64 & 0xFFF8_FFFF_FFFF_FFFFu64 == 0) by (bit_vector);
    assert(0x0007_0000_0000_0000u64 & 0xFFF8_FFFF_FFFF_FFFFu64 == 0) by (bit_vector);
}

/// Boxing and opening are inverse, and a boxed word has exactly one tag: for
/// every tag and every payload below `MAX_PTR` (but payload 0 under
/// `ObjectTag::Cons`, which is the bit pattern of positive infinity), the
/// boxed word is of that tag's type, opens to the payload, and is of no other
/// tag's type.
pub proof fn lemma_tag_round_trip(tag: ObjectTag, ptr: u64)
    requires
        tag.payload_ok(ptr),
    ensures
        tag.spec_is_of_type(tag.spec_tag(ptr)),
        tag.spec_untag(tag.spec_tag(ptr)) == ptr,
        forall|other: ObjectTag| other != tag ==> !other.spec_is_of_type(tag.spec_tag(ptr)),
{
    lemma_tag_in_range(tag);
    lemma_tag_bits(tag.spec_bits(), ptr);
}


/// The kinds of immediate value. Both live under `ObjectTag::Immediate`; bit
/// 32 of the word tells them apart.
#[derive(Copy, Clone, PartialEq, Eq, Structural, Debug)]
pub enum ImmediateTag {
    Bool,
    Integer,
}

impl ImmediateTag {
    pub open spec fn spec_bits(self) -> u64 {
        match self {
            ImmediateTag::Bool => 0,
            ImmediateTag::Integer => INTEGER_BIT,
        }
    }

    /// The word that boxes the immediate `val`.
    pub open spec fn spec_tag(self, val: u64) -> u64 {
        ObjectTag::Immediate.spec_tag(self.spec_bits() ^ val)
    }

    /// True iff `bits` is an immediate of this kind.
    pub open spec fn spec_is_of_type(self, bits: u64) -> bool {
        ObjectTag::Immediate.spec_is_of_type(bits) && (bits & INTEGER_BIT) == self.spec_bits()
    }

    /// The value of an immediate of this kind.
    pub open spec fn spec_untag(self, bits: u64) -> u64 {
        ObjectTag::Immediate.spec_untag(bits & !self.spec_bits())
    }

    pub fn bits(self) -> (r: u64)
        ensures
            r == self.spec_bits(),
    {
        match self {
            ImmediateTag::Bool => 0,
            ImmediateTag::Integer => INTEGER_BIT,
        }
    }

    /// Boxes an immediate below `MAX_IMMEDIATE`.
    pub fn tag(self, val: u64) -> (r: u64)
        requires
            val < MAX_IMMEDIATE,
        ensures
            r == self.spec_tag(val),
            self.spec_is_of_type(r),
            self.spec_untag(r) == val,
            r & LOW_WORD_MASK == val,
    {
        let inner: u64 = self.bits() ^ val;
        proof {
            lemma_immediate_bits(self.spec_bits(), val);
        }
        ObjectTag::Immediate.tag(inner)
    }

    /// True iff `bits` is an immediate of this kind.
    pub fn is_of_type(self, bits: u64) -> (r: bool)
        ensures
            r == self.spec_is_of_type(bits),
    {
        ObjectTag::Immediate.is_of_type(bits) && (bits & INTEGER_BIT) == self.bits()
    }

    /// The value of an immediate of this kind.
    pub fn untag(self, bits: u64) -> (r: u64)
        requires
            self.spec_is_of_type(bits),
        ensures
            r == self.spec_untag(bits),
    {
        let cleared: u64 = bits & !self.bits();
        proof {
            lemma_clear_integer_bit(self.spec_bits(), bits);
        }
        ObjectTag::Immediate.untag(cleared)
    }
}

/// What holds of the bits when an immediate is boxed under a sub-tag.
pub proof fn lemma_immediate_bits(s: u64, v: u64)
    by (bit_vector)
    requires
        v < 0x0000_0001_0000_0000u64,
        s == 0 || s == 0x0000_0001_0000_0000u64,
    ensures
        (s ^ v) < 0x0001_0000_0000_0000u64,
        ((0x0006_0000_0000_0000u64 ^ 0x7FF0_0000_0000_0000u64 ^ (s ^ v))
            & 0xFFF8_0000_0000_0000u64) == 0x7FF0_0000_0000_0000u64,
        ((0x0006_0000_0000_0000u64 ^ 0x7FF0_0000_0000_0000u64 ^ (s ^ v))
            & 0x0007_FFFF_FFFF_FFFFu64) != 0,
        ((0x0006_0000_0000_0000u64 ^ 0x7FF0_0000_0000_0000u64 ^ (s ^ v))
            & 0x000F_0000_0000_0000u64) == 0x0006_0000_0000_0000u64,
        ((0x0006_0000_0000_0000u64 ^ 0x7FF0_0000_0000_0000u64 ^ (s ^ v))
            & 0x0000_0001_0000_0000u64) == s,
        ((0x0006_0000_0000_0000u64 ^ 0x7FF0_0000_0000_0000u64 ^ (s ^ v))
            & 0x0000_0000_FFFF_FFFFu64) == v,
        (((0x0006_0000_0000_0000u64 ^ 0x7FF0_0000_0000_0000u64 ^ (s ^ v)) & !s) & !(
        0x0006_0000_0000_0000u64 ^ 0x7FF0_0000_0000_0000u64)) == v,
{
}

/// Clearing the sub-tag bit leaves an immediate an immediate.
pub proof fn lemma_clear_integer_bit(s: u64, b: u64)
    by (bit_vector)
    requires
        s == 0 || s == 0x0000_0001_0000_0000u64,
        (b & 0xFFF8_0000_0000_0000u64) == 0x7FF0_0000_0000_0000u64,
        (b & 0x000F_0000_0000_0000u64) == 0x0006_0000_0000_0000u64,
    ensures
        ((b & !s) & 0xFFF8_0000_0000_0000u64) == 0x7FF0_0000_0000_0000u64,
        ((b & !s) & 0x0007_FFFF_FFFF_FFFFu64) != 0,
        ((b & !s) & 0x000F_0000_0000_0000u64) == 0x0006_0000_0000_0000u64,
{
}

/// The dynamic types that a program can name. `Number` is the union of
/// `Integer` and `Float`: no value has it as its own type.
#[derive(Copy, Clone, PartialEq, Eq, Structural, Debug)]
pub enum RlispType {
    Cons,
    Number,
    Integer,
    Float,
    Sym,
    String,
    Function,
    Bool,
    Error,
    Namespace,
    Place,
}

/// A NaN-boxed value: a double, or a tag with a payload.
#[derive(Copy, Clone, PartialEq, Eq, Structural, Debug)]
pub struct Object(u64);

impl Object {
    /// The word itself.
    pub closed spec fn raw(self) -> u64 {
        self.0
    }

    pub open spec fn spec_nil() -> Object {
        Object::from_raw(ImmediateTag::Bool.spec_tag(0))
    }

    pub open spec fn spec_t() -> Object {
        Object::from_raw(ImmediateTag::Bool.spec_tag(1))
    }

    /// The object whose word is `bits`.
    pub closed spec fn from_raw(bits: u64) -> Object {
        Object(bits)
    }

    pub open spec fn spec_floatp(self) -> bool {
        !is_boxed(self.raw())
    }

    pub open spec fn spec_integerp(self) -> bool {
        ImmediateTag::Integer.spec_is_of_type(self.raw())
    }

    pub open spec fn spec_boolp(self) -> bool {
        ImmediateTag::Bool.spec_is_of_type(self.raw())
    }

    pub open spec fn has_tag(self, tag: ObjectTag) -> bool {
        tag.spec_is_of_type(self.raw())
    }

    /// The dynamic type of a value. Every word has exactly one.
    pub open spec fn spec_what_type(self) -> RlispType {
        if self.spec_floatp() {
            RlispType::Float
        } else if self.spec_integerp() {
            RlispType::Integer
        } else if self.has_tag(ObjectTag::Cons) {
            RlispType::Cons
        } else if self.has_tag(ObjectTag::Sym) {
            RlispType::Sym
        } else if self.has_tag(ObjectTag::String) {
            RlispType::String
        } else if self.has_tag(ObjectTag::Function) {
            RlispType::Function
        } else if self.spec_boolp() {
            RlispType::Bool
        } else if self.has_tag(ObjectTag::Error) {
            RlispType::Error
        } else if self.has_tag(ObjectTag::Namespace) {
            RlispType::Namespace
        } else {
            RlispType::Place
        }
    }

    /// The low 48 bits: for a reference, the index of the slot it names.
    pub open spec fn spec_index(self) -> int {
        (self.raw() & PAYLOAD_MASK) as int
    }

    /// The integer that an immediate integer holds.
    pub open spec fn spec_int(self) -> int {
        let low = (self.raw() & LOW_WORD_MASK) as int;
        if low < 0x8000_0000 {
            low
        } else {
            low - 0x1_0000_0000
        }
    }

    /// The reference to slot `index` under `tag`.
    pub open spec fn spec_reference(tag: ObjectTag, index: int) -> Object {
        Object::from_raw(tag.spec_tag(index as u64))
    }

    /// The heap type that a tag stands for.
    pub open spec fn tag_type(tag: ObjectTag) -> RlispType {
        match tag {
            ObjectTag::Cons => RlispType::Cons,
            ObjectTag::Sym => RlispType::Sym,
            ObjectTag::String => RlispType::String,
            ObjectTag::Function => RlispType::Function,
            ObjectTag::Error => RlispType::Error,
            ObjectTag::Namespace => RlispType::Namespace,
            ObjectTag::Immediate => RlispType::Bool,
            ObjectTag::Place => RlispType::Place,
        }
    }

    /// The double with the bit pattern `bits`, or the canonical NaN where
    /// `bits` is a signalling NaN that a boxed value would be taken for.
    pub open spec fn spec_from_float_bits(bits: u64) -> Object {
        if is_boxed(bits) {
            Object::from_raw(CANONICAL_NAN)
        } else {
            Object::from_raw(bits)
        }
    }

    /// True for every value but `nil` and the errors.
    pub open spec fn spec_truthy(self) -> bool {
        self != Object::spec_nil() && self.spec_what_type() != RlispType::Error
    }

    /// The reference to slot `index` under `tag`.
    pub fn reference(tag: ObjectTag, index: usize) -> (r: Object)
        requires
            tag.payload_ok(index as u64),
            tag != ObjectTag::Immediate,
        ensures
            r == Object::spec_reference(tag, index as int),
            r.spec_what_type() == Object::tag_type(tag),
            r.spec_index() == index,
    {
        let bits: u64 = tag.tag(index as u64);
        proof {
            lemma_tag_in_range(tag);
            lemma_tag_bits(tag.spec_bits(), index as u64);
            lemma_untag_bits(tag.spec_bits(), bits);
            lemma_word_shape(bits);
        }
        Object(bits)
    }

    /// The index of the slot that a reference names.
    pub fn index(self) -> (r: u64)
        ensures
            r == self.spec_index(),
            r < MAX_PTR,
    {
        let low: u64 = self.0 & PAYLOAD_MASK;
        proof {
            let b = self.0;
            assert((b & 0x0000_FFFF_FFFF_FFFFu64) < 0x0001_0000_0000_0000u64) by (bit_vector);
        }
        low
    }

    /// `nil` and `t` are two booleans.
    pub proof fn lemma_constants()
        ensures
            Object::spec_nil().spec_what_type() == RlispType::Bool,
            Object::spec_t().spec_what_type() == RlispType::Bool,
            Object::spec_nil() != Object::spec_t(),
    {
        lemma_immediate_bits(0, 0);
        lemma_immediate_bits(0, 1);
        lemma_kind_of_bool(Object::spec_nil().raw());
        lemma_kind_of_bool(Object::spec_t().raw());
    }

    /// A reference has the type of its tag and names the slot it was made
    /// for.
    pub proof fn lemma_reference_type(tag: ObjectTag, index: int)
        requires
            0 <= index < MAX_PTR,
            !(tag == ObjectTag::Cons && index == 0),
            tag != ObjectTag::Immediate,
        ensures
            Object::spec_reference(tag, index).spec_what_type() == Object::tag_type(tag),
            Object::spec_reference(tag, index).spec_index() == index,
            tag != ObjectTag::Place ==> Object::spec_reference(tag, index).spec_ref_tag()
                == Some(tag),
    {
        let bits = tag.spec_tag(index as u64);
        lemma_tag_in_range(tag);
        lemma_tag_bits(tag.spec_bits(), index as u64);
        lemma_untag_bits(tag.spec_bits(), bits);
        lemma_word_shape(bits);
    }

    /// A reference is rebuilt from its type and its index.
    pub proof fn lemma_reference_rebuilt(self, tag: ObjectTag)
        requires
            self.has_tag(tag),
        ensures
            self == Object::spec_reference(tag, self.spec_index()),
            tag.payload_ok(self.spec_index() as u64),
    {
        let b = self.raw();
        lemma_tag_in_range(tag);
        lemma_untag_bits(tag.spec_bits(), b);
        assert((b & 0x0000_FFFF_FFFF_FFFFu64) < 0x0001_0000_0000_0000u64) by (bit_vector);
        if tag == ObjectTag::Cons && (b & PAYLOAD_MASK) == 0 {
            assert((b & 0xFFF8_0000_0000_0000u64) == 0x7FF0_0000_0000_0000u64 && (b
                & 0x000F_0000_0000_0000u64) == 0 && (b & 0x0000_FFFF_FFFF_FFFFu64) == 0 ==> (b
                & 0x0007_FFFF_FFFF_FFFFu64) == 0) by (bit_vector);
        }
    }

    /// The boolean `b` as a value.
    pub fn from_bool(b: bool) -> (r: Object)
        ensures
            r == (if b {
                Object::spec_t()
            } else {
                Object::spec_nil()
            }),
            r.spec_what_type() == RlispType::Bool,
    {
        if b {
            Object::t()
        } else {
            Object::nil()
        }
    }

    /// The integer `num` as a value.
    pub fn from_int(num: i32) -> (r: Object)
        ensures
            r.spec_what_type() == RlispType::Integer,
            r.spec_int() == num,
            r == Object::spec_from_int(num as int),
    {
        let wide: i64 = num as i64;
        let low: u64 = if wide >= 0 {
            wide as u64
        } else {
            (wide + 0x1_0000_0000) as u64
        };
        let bits: u64 = ImmediateTag::Integer.tag(low);
        proof {
            lemma_word_shape(bits);
        }
        Object(bits)
    }

    /// The value that holds the integer `n`, for `n` in the range of `i32`.
    pub open spec fn spec_from_int(n: int) -> Object {
        Object::from_raw(
            ImmediateTag::Integer.spec_tag(
                if n >= 0 {
                    n as u64
                } else {
                    (n + 0x1_0000_0000) as u64
                },
            ),
        )
    }

    /// The integer that an immediate integer holds.
    pub fn int_value(self) -> (r: i32)
        requires
            self.spec_what_type() == RlispType::Integer,
        ensures
            r == self.spec_int(),
    {
        let low: u64 = self.0 & LOW_WORD_MASK;
        proof {
            let b = self.0;
            assert((b & 0x0000_0000_FFFF_FFFFu64) < 0x0000_0001_0000_0000u64) by (bit_vector);
        }
        if low < 0x8000_0000 {
            low as i32
        } else {
            (low as i64 - 0x1_0000_0000) as i32
        }
    }

    /// The double with the bit pattern `bits`. A signalling NaN that a boxed
    /// value would be taken for becomes the canonical NaN.
    pub fn from_float_bits(bits: u64) -> (r: Object)
        ensures
            r == Object::spec_from_float_bits(bits),
            r.spec_what_type() == RlispType::Float,
            !is_boxed(bits) ==> r.raw() == bits,
    {
        if (bits & BOX_HEAD_MASK) == NAN_MASK && (bits & BOX_BODY_MASK) != 0 {
            proof {
                assert((0x7FF8_0000_0000_0000u64 & 0xFFF8_0000_0000_0000u64)
                    != 0x7FF0_0000_0000_0000u64) by (bit_vector);
            }
            Object(CANONICAL_NAN)
        } else {
            Object(bits)
        }
    }

    /// The bit pattern of a double.
    pub fn float_bits(self) -> (r: u64)
        requires
            self.spec_what_type() == RlispType::Float,
        ensures
            r == self.raw(),
    {
        self.0
    }

    /// True for every value but `nil` and the errors.
    pub fn truthy(self) -> (r: bool)
        ensures
            r == self.spec_truthy(),
    {
        !(self.nilp() || self.errorp())
    }

    /// The bit pattern of the NaN that arithmetic produces.
    pub fn the_nan() -> (r: u64)
        ensures
            r == CANONICAL_NAN,
    {
        CANONICAL_NAN
    }

    /// The logical inverse of `floatp`: true iff this is a boxed value.
    pub fn is_nanbox(self) -> (r: bool)
        ensures
            r == !self.spec_floatp(),
    {
        (self.0 & BOX_HEAD_MASK) == NAN_MASK && (self.0 & BOX_BODY_MASK) != 0
    }

    /// True iff this is the NaN that arithmetic produces.
    pub fn nanp(self) -> (r: bool)
        ensures
            r == (self.raw() == CANONICAL_NAN),
            r ==> self.spec_floatp(),
    {
        proof {
            assert((0x7FF8_0000_0000_0000u64 & 0xFFF8_0000_0000_0000u64)
                != 0x7FF0_0000_0000_0000u64) by (bit_vector);
        }
        self.0 == Self::the_nan()
    }

    /// The word itself.
    pub fn to_bits(self) -> (r: u64)
        ensures
            r == self.raw(),
    {
        self.0
    }

    /// The object that the symbol `nil` evaluates to.
    pub fn nil() -> (r: Object)
        ensures
            r == Object::spec_nil(),
            r.spec_what_type() == RlispType::Bool,
    {
        let r = Object(ImmediateTag::Bool.tag(0));
        proof {
            lemma_kind_of_bool(r.raw());
        }
        r
    }

    /// The object that the symbol `t` evaluates to.
    pub fn t() -> (r: Object)
        ensures
            r == Object::spec_t(),
            r.spec_what_type() == RlispType::Bool,
            r != Object::spec_nil(),
    {
        let r = Object(ImmediateTag::Bool.tag(1));
        proof {
            lemma_kind_of_bool(r.raw());
            lemma_immediate_bits(0, 0);
            lemma_immediate_bits(0, 1);
        }
        r
    }

    /// True iff this is exactly `t` or `nil`; every other value, though it
    /// counts as true in a condition, is no boolean.
    pub fn boolp(self) -> (r: bool)
        ensures
            r == (self.spec_what_type() == RlispType::Bool),
    {
        proof {
            lemma_word_shape(self.raw());
        }
        ImmediateTag::Bool.is_of_type(self.0)
    }

    pub fn numberp(self) -> (r: bool)
        ensures
            r == (self.spec_what_type() == RlispType::Float || self.spec_what_type()
                == RlispType::Integer),
    {
        self.floatp() || self.integerp()
    }

    pub fn integerp(self) -> (r: bool)
        ensures
            r == (self.spec_what_type() == RlispType::Integer),
    {
        proof {
            lemma_word_shape(self.raw());
        }
        ImmediateTag::Integer.is_of_type(self.0)
    }

    pub fn symbolp(self) -> (r: bool)
        ensures
            r == (self.spec_what_type() == RlispType::Sym),
    {
        proof {
            lemma_word_shape(self.raw());
        }
        ObjectTag::Sym.is_of_type(self.0)
    }

    pub fn floatp(self) -> (r: bool)
        ensures
            r == (self.spec_what_type() == RlispType::Float),
    {
        proof {
            lemma_word_shape(self.raw());
        }
        !self.is_nanbox()
    }

    /// Being a cons does not mean being a proper list.
    pub fn consp(self) -> (r: bool)
        ensures
            r == (self.spec_what_type() == RlispType::Cons),
    {
        proof {
            lemma_word_shape(self.raw());
        }
        ObjectTag::Cons.is_of_type(self.0)
    }

    pub fn stringp(self) -> (r: bool)
        ensures
            r == (self.spec_what_type() == RlispType::String),
    {
        proof {
            lemma_word_shape(self.raw());
        }
        ObjectTag::String.is_of_type(self.0)
    }

    pub fn functionp(self) -> (r: bool)
        ensures
            r == (self.spec_what_type() == RlispType::Function),
    {
        proof {
            lemma_word_shape(self.raw());
        }
        ObjectTag::Function.is_of_type(self.0)
    }

    pub fn errorp(self) -> (r: bool)
        ensures
            r == (self.spec_what_type() == RlispType::Error),
    {
        proof {
            lemma_word_shape(self.raw());
        }
        ObjectTag::Error.is_of_type(self.0)
    }

    pub fn namespacep(self) -> (r: bool)
        ensures
            r == (self.spec_what_type() == RlispType::Namespace),
    {
        proof {
            lemma_word_shape(self.raw());
        }
        ObjectTag::Namespace.is_of_type(self.0)
    }

    pub fn placep(self) -> (r: bool)
        ensures
            r == (self.spec_what_type() == RlispType::Place),
    {
        proof {
            lemma_word_shape(self.raw());
        }
        ObjectTag::Place.is_of_type(self.0)
    }

    /// True iff this is `nil`.
    pub fn nilp(self) -> (r: bool)
        ensures
            r == (self == Object::spec_nil()),
    {
        self.0 == ImmediateTag::Bool.tag(0)
    }

    /// The dynamic type of this value.
    pub fn what_type(self) -> (r: RlispType)
        ensures
            r == self.spec_what_type(),
            r != RlispType::Number,
    {
        if self.floatp() {
            RlispType::Float
        } else if self.integerp() {
            RlispType::Integer
        } else if self.consp() {
            RlispType::Cons
        } else if self.symbolp() {
            RlispType::Sym
        } else if self.stringp() {
            RlispType::String
        } else if self.functionp() {
            RlispType::Function
        } else if self.boolp() {
            RlispType::Bool
        } else if self.errorp() {
            RlispType::Error
        } else if self.namespacep() {
            RlispType::Namespace
        } else {
            RlispType::Place
        }
    }
}

/// A boxed word has one of the eight tags in its tag bits, and bit 32 of a
/// word is set or clear: so every word has exactly one type.
pub proof fn lemma_word_shape(b: u64)
    by (bit_vector)
    ensures
        (b & 0xFFF8_0000_0000_0000u64) == 0x7FF0_0000_0000_0000u64 ==> {
            ||| (b & 0x000F_0000_0000_0000u64) == 0x0000_0000_0000_0000u64
            ||| (b & 0x000F_0000_0000_0000u64) == 0x0001_0000_0000_0000u64
            ||| (b & 0x000F_0000_0000_0000u64) == 0x0002_0000_0000_0000u64
            ||| (b & 0x000F_0000_0000_0000u64) == 0x0003_0000_0000_0000u64
            ||| (b & 0x000F_0000_0000_0000u64) == 0x0004_0000_0000_0000u64
            ||| (b & 0x000F_0000_0000_0000u64) == 0x0005_0000_0000_0000u64
            ||| (b & 0x000F_0000_0000_0000u64) == 0x0006_0000_0000_0000u64
            ||| (b & 0x000F_0000_0000_0000u64) == 0x0007_0000_0000_0000u64
        },
        (b & 0x0000_0001_0000_0000u64) == 0 || (b & 0x0000_0001_0000_0000u64)
            == 0x0000_0001_0000_0000u64,
{
}

/// An immediate with bit 32 clear has the type of the booleans.
pub proof fn lemma_kind_of_bool(b: u64)
    requires
        ImmediateTag::Bool.spec_is_of_type(b),
    ensures
        forall|o: Object| o.raw() == b ==> #[trigger] o.spec_what_type() == RlispType::Bool,
{
    assert(0u64 != 0x0000_0001_0000_0000u64);
}

} // verus!
