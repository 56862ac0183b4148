use vstd::prelude::*;

verus! {

/// The two conventions for ordering the bytes of a multi-byte number.
#[derive(Clone, Copy, PartialEq, Eq, Debug, Structural)]
pub enum ByteOrder {
    /// Most significant byte first.
    Big,
    /// Least significant byte first.
    Little,
}

/// A byte order chosen at compile time.
///
/// The trait is sealed: [`BigEndian`] and [`LittleEndian`] are its only
/// implementors, so every dispatch on a byte order is exhaustive.
pub trait Endianness: crate::private::Sealed {
    /// The byte order this type stands for.
    spec fn byte_order() -> ByteOrder;

    /// The byte order this type stands for, as a run-time value.
    fn order() -> (o: ByteOrder)
        ensures
            o == Self::byte_order(),
    ;
}

/// Type-level tag for big-endian encoding.
pub struct BigEndian;

/// Type-level tag for little-endian encoding.
pub struct LittleEndian;

impl Endianness for BigEndian {
    open spec fn byte_order() -> ByteOrder {
        ByteOrder::Big
    }

    fn order() -> (o: ByteOrder) {
        ByteOrder::Big
    }
}

impl Endianness for LittleEndian {
    open spec fn byte_order() -> ByteOrder {
        ByteOrder::Little
    }

    fn order() -> (o: ByteOrder) {
        ByteOrder::Little
    }
}

} // verus!
