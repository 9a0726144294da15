//! The caller-chosen width of a stored byte offset.
//!
//! A partial record remembers where its line starts in the source file. The
//! width of that stored position is a memory/capacity trade-off knob: a
//! narrower type makes the resident index smaller but caps the file size it
//! can address. Conversion from a real 64-bit position is therefore fallible
//! and must never truncate; conversion back for seeking is lossless.

use vstd::prelude::*;

verus! {

/// A bounded unsigned type that stores a byte position of the source file.
///
/// `try_from_u64` fails exactly when the real position is out of the type's
/// range, and `to_u64` returns the position losslessly.
pub trait OffsetType: Sized + Copy {
    /// Whether a real byte position is representable in this type.
    spec fn spec_in_range(v: u64) -> bool;

    /// The value of this type that stands for the byte position `v`.
    spec fn spec_of(v: u64) -> Self;

    /// The byte position this value stands for.
    spec fn spec_val(self) -> u64;

    /// A byte position of zero is representable in every offset type.
    proof fn lemma_zero_in_range()
        ensures
            Self::spec_in_range(0),
    ;

    /// Narrowing a representable position and widening it back is lossless.
    proof fn lemma_of_val(v: u64)
        requires
            Self::spec_in_range(v),
        ensures
            Self::spec_of(v).spec_val() == v,
    ;

    /// Narrows a real byte position, failing instead of truncating.
    fn try_from_u64(v: u64) -> (r: Option<Self>)
        ensures
            (r is Some) == Self::spec_in_range(v),
            r matches Some(o) ==> o == Self::spec_of(v) && o.spec_val() == v,
    ;

    /// Widens the stored position back to the canonical file-position type.
    fn to_u64(self) -> (r: u64)
        ensures
            r == self.spec_val(),
    ;
}

impl OffsetType for u8 {
    open spec fn spec_in_range(v: u64) -> bool {
        v <= u8::MAX
    }

    open spec fn spec_of(v: u64) -> Self {
        v as u8
    }

    open spec fn spec_val(self) -> u64 {
        self as u64
    }

    proof fn lemma_zero_in_range() {
    }

    proof fn lemma_of_val(v: u64) {
    }

    fn try_from_u64(v: u64) -> (r: Option<Self>) {
        if v <= u8::MAX as u64 {
            Some(v as u8)
        } else {
            None
        }
    }

    fn to_u64(self) -> (r: u64) {
        self as u64
    }
}

impl OffsetType for u16 {
    open spec fn spec_in_range(v: u64) -> bool {
        v <= u16::MAX
    }

    open spec fn spec_of(v: u64) -> Self {
        v as u16
    }

    open spec fn spec_val(self) -> u64 {
        self as u64
    }

    proof fn lemma_zero_in_range() {
    }

    proof fn lemma_of_val(v: u64) {
    }

    fn try_from_u64(v: u64) -> (r: Option<Self>) {
        if v <= u16::MAX as u64 {
            Some(v as u16)
        } else {
            None
        }
    }

    fn to_u64(self) -> (r: u64) {
        self as u64
    }
}

impl OffsetType for u32 {
    open spec fn spec_in_range(v: u64) -> bool {
        v <= u32::MAX
    }

    open spec fn spec_of(v: u64) -> Self {
        v as u32
    }

    open spec fn spec_val(self) -> u64 {
        self as u64
    }

    proof fn lemma_zero_in_range() {
    }

    proof fn lemma_of_val(v: u64) {
    }

    fn try_from_u64(v: u64) -> (r: Option<Self>) {
        if v <= u32::MAX as u64 {
            Some(v as u32)
        } else {
            None
        }
    }

    fn to_u64(self) -> (r: u64) {
        self as u64
    }
}

impl OffsetType for u64 {
    open spec fn spec_in_range(v: u64) -> bool {
        true
    }

    open spec fn spec_of(v: u64) -> Self {
        v
    }

    open spec fn spec_val(self) -> u64 {
        self
    }

    proof fn lemma_zero_in_range() {
    }

    proof fn lemma_of_val(v: u64) {
    }

    fn try_from_u64(v: u64) -> (r: Option<Self>) {
        Some(v)
    }

    fn to_u64(self) -> (r: u64) {
        self
    }
}

} // verus!
