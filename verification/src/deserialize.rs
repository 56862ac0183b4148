use crate::bytes::{decode_int, decode_uint};
use crate::endian::{ByteOrder, Endianness};
use crate::error::Error;
use crate::read::Reader;
use vstd::prelude::*;

verus! {

/// Types that can be decoded from a source of bytes in the byte order `E`.
///
/// `decoded` is the meaning of the format: from the bytes that are pending
/// it gives the value and the number of bytes that belong to it, or the
/// failure. `deserialize` is held to it.
pub trait Deserialize<E: Endianness>: Sized {
    /// The value that the front of `bytes` encodes and the number of bytes
    /// it takes, or why there is none. A type that does not say leaves its
    /// format unknown.
    open spec fn decoded(bytes: Seq<u8>) -> Result<(Self, nat), Error> {
        arbitrary()
    }

    /// Reads one value from the front of the source. On success the source
    /// has moved past the value's bytes and no further.
    fn deserialize(reader: &mut Reader) -> (r: Result<Self, Error>)
        ensures
            match Self::decoded(old(reader).pending()) {
                Ok((v, n)) => {
                    &&& r == Ok::<Self, Error>(v)
                    &&& n <= old(reader).pending().len()
                    &&& final(reader).pending() == old(reader).pending().skip(n as int)
                },
                Err(e) => r == Err::<Self, Error>(e),
            },
    ;
}

/// A read of a `D` in the byte order `E` that found `before` pending, gave
/// `r` and left `after` pending did what the format says: on success the
/// value is the one that the front of `before` encodes and `after` is what
/// follows it; on failure the error is the format's.
pub open spec fn reads<E: Endianness, D: Deserialize<E>>(
    before: Seq<u8>,
    r: Result<D, Error>,
    after: Seq<u8>,
) -> bool {
    match D::decoded(before) {
        Ok((v, n)) => r == Ok::<D, Error>(v) && n <= before.len() && after == before.skip(n as int),
        Err(e) => r == Err::<D, Error>(e),
    }
}

/// The meaning of one byte as a boolean: 0 is `false`, 1 is `true`, and
/// every other byte is refused.
pub open spec fn bool_decoded(bytes: Seq<u8>) -> Result<(bool, nat), Error> {
    if bytes.len() < 1 {
        Err(Error::ShortRead)
    } else if bytes[0] == 0 {
        Ok((false, 1))
    } else if bytes[0] == 1 {
        Ok((true, 1))
    } else {
        Err(Error::InvalidBooleanByte(bytes[0]))
    }
}

/// The meaning of the first `width` bytes as an unsigned number.
pub open spec fn uint_decoded(bytes: Seq<u8>, width: nat, order: ByteOrder) -> Result<
    (nat, nat),
    Error,
> {
    if bytes.len() < width {
        Err(Error::ShortRead)
    } else {
        Ok((crate::bytes::uint_value(bytes.take(width as int), order), width))
    }
}

/// The meaning of the first `width` bytes as a signed number in two's
/// complement.
pub open spec fn int_decoded(bytes: Seq<u8>, width: nat, order: ByteOrder) -> Result<
    (int, nat),
    Error,
> {
    if bytes.len() < width {
        Err(Error::ShortRead)
    } else {
        Ok((crate::bytes::int_value(bytes.take(width as int), order), width))
    }
}

/// The meaning of the first four bytes as an address: the bytes themselves,
/// in the order they come, whatever the byte order.
pub open spec fn address_decoded(bytes: Seq<u8>) -> Result<([u8; 4], nat), Error> {
    if bytes.len() < 4 {
        Err(Error::ShortRead)
    } else {
        Ok(([bytes[0], bytes[1], bytes[2], bytes[3]], 4))
    }
}

/// Reads a boolean: one byte, which must be 0 or 1.
pub fn read_bool(reader: &mut Reader) -> (r: Result<bool, Error>)
    ensures
        match bool_decoded(old(reader).pending()) {
            Ok((v, n)) => r == Ok::<bool, Error>(v) && final(reader).pending() == old(
                reader,
            ).pending().skip(n as int),
            Err(e) => r == Err::<bool, Error>(e),
        },
{
    let buf = reader.take(1)?;
    match buf[0] {
        0 => Ok(false),
        1 => Ok(true),
        b => Err(Error::InvalidBooleanByte(b)),
    }
}

/// Reads an unsigned number of `width` bytes.
pub(crate) fn read_uint(reader: &mut Reader, width: usize, order: ByteOrder) -> (r: Result<u128, Error>)
    requires
        width <= 16,
    ensures
        match uint_decoded(old(reader).pending(), width as nat, order) {
            Ok((v, n)) => r == Ok::<u128, Error>(v as u128) && v < crate::bytes::pow256(
                width as nat,
            ) && final(reader).pending() == old(reader).pending().skip(n as int),
            Err(e) => r == Err::<u128, Error>(e),
        },
{
    let buf = reader.take(width)?;
    proof {
        crate::bytes::lemma_uint_bytes_of_value(buf@, order);
    }
    Ok(decode_uint(buf, order))
}

/// Reads a signed number of `width` bytes in two's complement.
pub(crate) fn read_int(reader: &mut Reader, width: usize, order: ByteOrder) -> (r: Result<i128, Error>)
    requires
        1 <= width <= 16,
    ensures
        match int_decoded(old(reader).pending(), width as nat, order) {
            Ok((v, n)) => r == Ok::<i128, Error>(v as i128) && crate::bytes::fits_signed(
                v,
                width as nat,
            ) && final(reader).pending() == old(reader).pending().skip(n as int),
            Err(e) => r == Err::<i128, Error>(e),
        },
{
    let buf = reader.take(width)?;
    proof {
        crate::bytes::lemma_int_value_fits(buf@, order);
    }
    Ok(decode_int(buf, order))
}

impl<E: Endianness> Deserialize<E> for bool {
    open spec fn decoded(bytes: Seq<u8>) -> Result<(Self, nat), Error> {
        bool_decoded(bytes)
    }

    fn deserialize(reader: &mut Reader) -> (r: Result<Self, Error>) {
        read_bool(reader)
    }
}

impl<E: Endianness> Deserialize<E> for u8 {
    open spec fn decoded(bytes: Seq<u8>) -> Result<(Self, nat), Error> {
        match uint_decoded(bytes, 1, E::byte_order()) {
            Ok((v, n)) => Ok((v as u8, n)),
            Err(e) => Err(e),
        }
    }

    fn deserialize(reader: &mut Reader) -> (r: Result<Self, Error>) {
        let v: u128 = read_uint(reader, 1, E::order())?;
        proof {
            crate::bytes::lemma_pow256_widths();
        }
        Ok(v as u8)
    }
}

impl<E: Endianness> Deserialize<E> for u16 {
    open spec fn decoded(bytes: Seq<u8>) -> Result<(Self, nat), Error> {
        match uint_decoded(bytes, 2, E::byte_order()) {
            Ok((v, n)) => Ok((v as u16, n)),
            Err(e) => Err(e),
        }
    }

    fn deserialize(reader: &mut Reader) -> (r: Result<Self, Error>) {
        let v: u128 = read_uint(reader, 2, E::order())?;
        proof {
            crate::bytes::lemma_pow256_widths();
        }
        Ok(v as u16)
    }
}

impl<E: Endianness> Deserialize<E> for u32 {
    open spec fn decoded(bytes: Seq<u8>) -> Result<(Self, nat), Error> {
        match uint_decoded(bytes, 4, E::byte_order()) {
            Ok((v, n)) => Ok((v as u32, n)),
            Err(e) => Err(e),
        }
    }

    fn deserialize(reader: &mut Reader) -> (r: Result<Self, Error>) {
        let v: u128 = read_uint(reader, 4, E::order())?;
        proof {
            crate::bytes::lemma_pow256_widths();
        }
        Ok(v as u32)
    }
}

impl<E: Endianness> Deserialize<E> for u64 {
    open spec fn decoded(bytes: Seq<u8>) -> Result<(Self, nat), Error> {
        match uint_decoded(bytes, 8, E::byte_order()) {
            Ok((v, n)) => Ok((v as u64, n)),
            Err(e) => Err(e),
        }
    }

    fn deserialize(reader: &mut Reader) -> (r: Result<Self, Error>) {
        let v: u128 = read_uint(reader, 8, E::order())?;
        proof {
            crate::bytes::lemma_pow256_widths();
        }
        Ok(v as u64)
    }
}

impl<E: Endianness> Deserialize<E> for u128 {
    open spec fn decoded(bytes: Seq<u8>) -> Result<(Self, nat), Error> {
        match uint_decoded(bytes, 16, E::byte_order()) {
            Ok((v, n)) => Ok((v as u128, n)),
            Err(e) => Err(e),
        }
    }

    fn deserialize(reader: &mut Reader) -> (r: Result<Self, Error>) {
        let v: u128 = read_uint(reader, 16, E::order())?;
        Ok(v)
    }
}

impl<E: Endianness> Deserialize<E> for i8 {
    open spec fn decoded(bytes: Seq<u8>) -> Result<(Self, nat), Error> {
        match int_decoded(bytes, 1, E::byte_order()) {
            Ok((v, n)) => Ok((v as i8, n)),
            Err(e) => Err(e),
        }
    }

    fn deserialize(reader: &mut Reader) -> (r: Result<Self, Error>) {
        let v: i128 = read_int(reader, 1, E::order())?;
        proof {
            crate::bytes::lemma_pow256_widths();
        }
        Ok(v as i8)
    }
}

impl<E: Endianness> Deserialize<E> for i16 {
    open spec fn decoded(bytes: Seq<u8>) -> Result<(Self, nat), Error> {
        match int_decoded(bytes, 2, E::byte_order()) {
            Ok((v, n)) => Ok((v as i16, n)),
            Err(e) => Err(e),
        }
    }

    fn deserialize(reader: &mut Reader) -> (r: Result<Self, Error>) {
        let v: i128 = read_int(reader, 2, E::order())?;
        proof {
            crate::bytes::lemma_pow256_widths();
        }
        Ok(v as i16)
    }
}

impl<E: Endianness> Deserialize<E> for i32 {
    open spec fn decoded(bytes: Seq<u8>) -> Result<(Self, nat), Error> {
        match int_decoded(bytes, 4, E::byte_order()) {
            Ok((v, n)) => Ok((v as i32, n)),
            Err(e) => Err(e),
        }
    }

    fn deserialize(reader: &mut Reader) -> (r: Result<Self, Error>) {
        let v: i128 = read_int(reader, 4, E::order())?;
        proof {
            crate::bytes::lemma_pow256_widths();
        }
        Ok(v as i32)
    }
}

impl<E: Endianness> Deserialize<E> for i64 {
    open spec fn decoded(bytes: Seq<u8>) -> Result<(Self, nat), Error> {
        match int_decoded(bytes, 8, E::byte_order()) {
            Ok((v, n)) => Ok((v as i64, n)),
            Err(e) => Err(e),
        }
    }

    fn deserialize(reader: &mut Reader) -> (r: Result<Self, Error>) {
        let v: i128 = read_int(reader, 8, E::order())?;
        proof {
            crate::bytes::lemma_pow256_widths();
        }
        Ok(v as i64)
    }
}

impl<E: Endianness> Deserialize<E> for i128 {
    open spec fn decoded(bytes: Seq<u8>) -> Result<(Self, nat), Error> {
        match int_decoded(bytes, 16, E::byte_order()) {
            Ok((v, n)) => Ok((v as i128, n)),
            Err(e) => Err(e),
        }
    }

    fn deserialize(reader: &mut Reader) -> (r: Result<Self, Error>) {
        let v: i128 = read_int(reader, 16, E::order())?;
        Ok(v)
    }
}

/// An address is four bytes in the order they come: no byte order applies.
impl<E: Endianness> Deserialize<E> for [u8; 4] {
    open spec fn decoded(bytes: Seq<u8>) -> Result<(Self, nat), Error> {
        address_decoded(bytes)
    }

    fn deserialize(reader: &mut Reader) -> (r: Result<Self, Error>) {
        let buf = reader.take(4)?;
        Ok([buf[0], buf[1], buf[2], buf[3]])
    }
}

/// An optional value is a boolean that says whether the value is there,
/// and then the value if it is.
impl<E: Endianness, T: Deserialize<E>> Deserialize<E> for Option<T> {
    open spec fn decoded(bytes: Seq<u8>) -> Result<(Self, nat), Error> {
        match bool_decoded(bytes) {
            Err(e) => Err(e),
            Ok((false, _)) => Ok((None, 1)),
            Ok((true, _)) => match T::decoded(bytes.skip(1)) {
                Err(e) => Err(e),
                Ok((v, n)) => Ok((Some(v), n + 1)),
            },
        }
    }

    fn deserialize(reader: &mut Reader) -> (r: Result<Self, Error>) {
        let present: bool = read_bool(reader)?;
        if present {
            let v: T = T::deserialize(reader)?;
            Ok(Some(v))
        } else {
            Ok(None)
        }
    }
}

} // verus!
