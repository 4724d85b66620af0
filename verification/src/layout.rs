//! Resolved data types, as the layout engine sees them.
use vstd::prelude::*;

verus! {

/// A resolved type.
#[derive(Debug)]
pub enum Ty {
    /// A primitive integer: its width in bytes, signedness, byte order.
    Prim { width: u8, signed: bool, le: bool },
    /// A fixed-point number of `i` integer and `f` fraction bits.
    Fixed { i: u32, f: u32 },
    /// A named newtype over another type.
    Newtype(String),
    /// A type narrowed by a refinement.
    Refined { inner: Box<Ty> },
    /// A named bitfield.
    Bitfield(String),
    /// A named enum.
    Enum(String),
    /// `n` elements of a type.
    Array(Box<Ty>, u64),
    /// A tuple of types.
    Tuple(Vec<Ty>),
    /// A named struct.
    Struct(String),
    /// A pointer.
    Ptr(Box<Ty>),
    /// An already-reported type error.
    Poison,
}

} // verus!
