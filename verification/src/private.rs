use vstd::prelude::*;

verus! {

/// Closes [`crate::Endianness`]: only the two byte orders of this crate
/// implement it.
pub trait Sealed {
}

impl Sealed for crate::endian::BigEndian {
}

impl Sealed for crate::endian::LittleEndian {
}

} // verus!
