use crate::bytes::{encode_int, encode_uint};
use crate::endian::Endianness;
use crate::error::Error;
use crate::write::Writer;
use vstd::prelude::*;

verus! {

/// Types that can be encoded to a sink of bytes in the byte order `E`.
///
/// `encoding` is the meaning of the format: the bytes that stand for the
/// value. `serialize` is held to it.
pub trait Serialize<E: Endianness>: Sized {
    /// The bytes that stand for this value. A type that does not say leaves
    /// its format unknown.
    open spec fn encoding(self) -> Seq<u8> {
        arbitrary()
    }

    /// Writes the value's bytes after what the sink already holds. Fails,
    /// for want of room only, exactly when they do not fit.
    fn serialize(self, writer: &mut Writer) -> (r: Result<(), Error>)
        ensures
            crate::write::wrote(*old(writer), self.encoding(), r, *final(writer)),
    ;
}

/// The byte that stands for a boolean: 1 for `true`, 0 for `false`.
pub open spec fn bool_encoding(b: bool) -> Seq<u8> {
    if b {
        seq![1u8]
    } else {
        seq![0u8]
    }
}

/// Writes a boolean as one byte.
pub fn write_bool(b: bool, writer: &mut Writer) -> (r: Result<(), Error>)
    ensures
        crate::write::wrote(*old(writer), bool_encoding(b), r, *final(writer)),
{
    let mut buf: Vec<u8> = Vec::new();
    buf.push(if b { 1u8 } else { 0u8 });
    writer.write_all(buf.as_slice())
}

impl<E: Endianness> Serialize<E> for bool {
    open spec fn encoding(self) -> Seq<u8> {
        bool_encoding(self)
    }

    fn serialize(self, writer: &mut Writer) -> (r: Result<(), Error>) {
        write_bool(self, writer)
    }
}

impl<'a, E: Endianness> Serialize<E> for &'a bool {
    open spec fn encoding(self) -> Seq<u8> {
        bool_encoding(*self)
    }

    fn serialize(self, writer: &mut Writer) -> (r: Result<(), Error>) {
        write_bool(*self, writer)
    }
}

impl<E: Endianness> Serialize<E> for u8 {
    open spec fn encoding(self) -> Seq<u8> {
        crate::bytes::uint_bytes(self as nat, 1, E::byte_order())
    }

    fn serialize(self, writer: &mut Writer) -> (r: Result<(), Error>) {
        let buf: Vec<u8> = encode_uint(self as u128, 1, E::order());
        writer.write_all(buf.as_slice())
    }
}

impl<'a, E: Endianness> Serialize<E> for &'a u8 {
    open spec fn encoding(self) -> Seq<u8> {
        crate::bytes::uint_bytes(*self as nat, 1, E::byte_order())
    }

    fn serialize(self, writer: &mut Writer) -> (r: Result<(), Error>) {
        <u8 as Serialize<E>>::serialize(*self, writer)
    }
}

impl<E: Endianness> Serialize<E> for u16 {
    open spec fn encoding(self) -> Seq<u8> {
        crate::bytes::uint_bytes(self as nat, 2, E::byte_order())
    }

    fn serialize(self, writer: &mut Writer) -> (r: Result<(), Error>) {
        let buf: Vec<u8> = encode_uint(self as u128, 2, E::order());
        writer.write_all(buf.as_slice())
    }
}

impl<'a, E: Endianness> Serialize<E> for &'a u16 {
    open spec fn encoding(self) -> Seq<u8> {
        crate::bytes::uint_bytes(*self as nat, 2, E::byte_order())
    }

    fn serialize(self, writer: &mut Writer) -> (r: Result<(), Error>) {
        <u16 as Serialize<E>>::serialize(*self, writer)
    }
}

impl<E: Endianness> Serialize<E> for u32 {
    open spec fn encoding(self) -> Seq<u8> {
        crate::bytes::uint_bytes(self as nat, 4, E::byte_order())
    }

    fn serialize(self, writer: &mut Writer) -> (r: Result<(), Error>) {
        let buf: Vec<u8> = encode_uint(self as u128, 4, E::order());
        writer.write_all(buf.as_slice())
    }
}

impl<'a, E: Endianness> Serialize<E> for &'a u32 {
    open spec fn encoding(self) -> Seq<u8> {
        crate::bytes::uint_bytes(*self as nat, 4, E::byte_order())
    }

    fn serialize(self, writer: &mut Writer) -> (r: Result<(), Error>) {
        <u32 as Serialize<E>>::serialize(*self, writer)
    }
}

impl<E: Endianness> Serialize<E> for u64 {
    open spec fn encoding(self) -> Seq<u8> {
        crate::bytes::uint_bytes(self as nat, 8, E::byte_order())
    }

    fn serialize(self, writer: &mut Writer) -> (r: Result<(), Error>) {
        let buf: Vec<u8> = encode_uint(self as u128, 8, E::order());
        writer.write_all(buf.as_slice())
    }
}

impl<'a, E: Endianness> Serialize<E> for &'a u64 {
    open spec fn encoding(self) -> Seq<u8> {
        crate::bytes::uint_bytes(*self as nat, 8, E::byte_order())
    }

    fn serialize(self, writer: &mut Writer) -> (r: Result<(), Error>) {
        <u64 as Serialize<E>>::serialize(*self, writer)
    }
}

impl<E: Endianness> Serialize<E> for u128 {
    open spec fn encoding(self) -> Seq<u8> {
        crate::bytes::uint_bytes(self as nat, 16, E::byte_order())
    }

    fn serialize(self, writer: &mut Writer) -> (r: Result<(), Error>) {
        let buf: Vec<u8> = encode_uint(self, 16, E::order());
        writer.write_all(buf.as_slice())
    }
}

impl<'a, E: Endianness> Serialize<E> for &'a u128 {
    open spec fn encoding(self) -> Seq<u8> {
        crate::bytes::uint_bytes(*self as nat, 16, E::byte_order())
    }

    fn serialize(self, writer: &mut Writer) -> (r: Result<(), Error>) {
        <u128 as Serialize<E>>::serialize(*self, writer)
    }
}

impl<E: Endianness> Serialize<E> for i8 {
    open spec fn encoding(self) -> Seq<u8> {
        crate::bytes::int_bytes(self as int, 1, E::byte_order())
    }

    fn serialize(self, writer: &mut Writer) -> (r: Result<(), Error>) {
        proof {
            crate::bytes::lemma_pow256_widths();
        }
        let buf: Vec<u8> = encode_int(self as i128, 1, E::order());
        writer.write_all(buf.as_slice())
    }
}

impl<'a, E: Endianness> Serialize<E> for &'a i8 {
    open spec fn encoding(self) -> Seq<u8> {
        crate::bytes::int_bytes(*self as int, 1, E::byte_order())
    }

    fn serialize(self, writer: &mut Writer) -> (r: Result<(), Error>) {
        <i8 as Serialize<E>>::serialize(*self, writer)
    }
}

impl<E: Endianness> Serialize<E> for i16 {
    open spec fn encoding(self) -> Seq<u8> {
        crate::bytes::int_bytes(self as int, 2, E::byte_order())
    }

    fn serialize(self, writer: &mut Writer) -> (r: Result<(), Error>) {
        proof {
            crate::bytes::lemma_pow256_widths();
        }
        let buf: Vec<u8> = encode_int(self as i128, 2, E::order());
        writer.write_all(buf.as_slice())
    }
}

impl<'a, E: Endianness> Serialize<E> for &'a i16 {
    open spec fn encoding(self) -> Seq<u8> {
        crate::bytes::int_bytes(*self as int, 2, E::byte_order())
    }

    fn serialize(self, writer: &mut Writer) -> (r: Result<(), Error>) {
        <i16 as Serialize<E>>::serialize(*self, writer)
    }
}

impl<E: Endianness> Serialize<E> for i32 {
    open spec fn encoding(self) -> Seq<u8> {
        crate::bytes::int_bytes(self as int, 4, E::byte_order())
    }

    fn serialize(self, writer: &mut Writer) -> (r: Result<(), Error>) {
        proof {
            crate::bytes::lemma_pow256_widths();
        }
        let buf: Vec<u8> = encode_int(self as i128, 4, E::order());
        writer.write_all(buf.as_slice())
    }
}

impl<'a, E: Endianness> Serialize<E> for &'a i32 {
    open spec fn encoding(self) -> Seq<u8> {
        crate::bytes::int_bytes(*self as int, 4, E::byte_order())
    }

    fn serialize(self, writer: &mut Writer) -> (r: Result<(), Error>) {
        <i32 as Serialize<E>>::serialize(*self, writer)
    }
}

impl<E: Endianness> Serialize<E> for i64 {
    open spec fn encoding(self) -> Seq<u8> {
        crate::bytes::int_bytes(self as int, 8, E::byte_order())
    }

    fn serialize(self, writer: &mut Writer) -> (r: Result<(), Error>) {
        proof {
            crate::bytes::lemma_pow256_widths();
        }
        let buf: Vec<u8> = encode_int(self as i128, 8, E::order());
        writer.write_all(buf.as_slice())
    }
}

impl<'a, E: Endianness> Serialize<E> for &'a i64 {
    open spec fn encoding(self) -> Seq<u8> {
        crate::bytes::int_bytes(*self as int, 8, E::byte_order())
    }

    fn serialize(self, writer: &mut Writer) -> (r: Result<(), Error>) {
        <i64 as Serialize<E>>::serialize(*self, writer)
    }
}

impl<E: Endianness> Serialize<E> for i128 {
    open spec fn encoding(self) -> Seq<u8> {
        crate::bytes::int_bytes(self as int, 16, E::byte_order())
    }

    fn serialize(self, writer: &mut Writer) -> (r: Result<(), Error>) {
        proof {
            crate::bytes::lemma_pow256_widths();
        }
        let buf: Vec<u8> = encode_int(self, 16, E::order());
        writer.write_all(buf.as_slice())
    }
}

impl<'a, E: Endianness> Serialize<E> for &'a i128 {
    open spec fn encoding(self) -> Seq<u8> {
        crate::bytes::int_bytes(*self as int, 16, E::byte_order())
    }

    fn serialize(self, writer: &mut Writer) -> (r: Result<(), Error>) {
        <i128 as Serialize<E>>::serialize(*self, writer)
    }
}

/// An address is four bytes in the order they come: no byte order applies.
impl<E: Endianness> Serialize<E> for [u8; 4] {
    open spec fn encoding(self) -> Seq<u8> {
        self@
    }

    fn serialize(self, writer: &mut Writer) -> (r: Result<(), Error>) {
        writer.write_all(self.as_slice())
    }
}

impl<'a, E: Endianness> Serialize<E> for &'a [u8; 4] {
    open spec fn encoding(self) -> Seq<u8> {
        self@
    }

    fn serialize(self, writer: &mut Writer) -> (r: Result<(), Error>) {
        writer.write_all(self.as_slice())
    }
}

/// An optional value is a boolean that says whether the value is there,
/// and then the value if it is.
impl<E: Endianness, T: Serialize<E>> Serialize<E> for Option<T> {
    open spec fn encoding(self) -> Seq<u8> {
        match self {
            None => bool_encoding(false),
            Some(v) => bool_encoding(true) + v.encoding(),
        }
    }

    fn serialize(self, writer: &mut Writer) -> (r: Result<(), Error>) {
        match self {
            None => write_bool(false, writer),
            Some(v) => {
                let ghost start = *writer;
                write_bool(true, writer)?;
                let ghost middle = *writer;
                let r = v.serialize(writer);
                proof {
                    crate::write::lemma_wrote_both(
                        start,
                        bool_encoding(true),
                        middle,
                        v.encoding(),
                        r,
                        *writer,
                    );
                }
                r
            },
        }
    }
}

/// The encodings of the items of a sequence, one after the other. Nothing
/// marks where the sequence ends or how long it is.
pub open spec fn seq_encoding<E: Endianness, S>(items: Seq<S>) -> Seq<u8> where
    for <'b>&'b S: Serialize<E>,

    decreases items.len(),
{
    if items.len() == 0 {
        Seq::empty()
    } else {
        seq_encoding::<E, S>(items.drop_last()) + (&items.last()).encoding()
    }
}

/// A sequence's encoding is at least as long as that of any of its
/// prefixes.
pub proof fn lemma_seq_encoding_grows<E: Endianness, S>(prefix: Seq<S>, whole: Seq<S>) where
    for <'b>&'b S: Serialize<E>,

    requires
        prefix.is_prefix_of(whole),
    ensures
        seq_encoding::<E, S>(prefix).len() <= seq_encoding::<E, S>(whole).len(),
    decreases whole.len(),
{
    if prefix.len() < whole.len() {
        lemma_seq_encoding_grows::<E, S>(prefix, whole.drop_last());
    } else {
        assert(prefix =~= whole);
    }
}

/// A slice is written item by item, in order, and nothing else.
impl<'a, E: Endianness, S> Serialize<E> for &'a [S] where for <'b>&'b S: Serialize<E> {
    open spec fn encoding(self) -> Seq<u8> {
        seq_encoding::<E, S>(self@)
    }

    fn serialize(self, writer: &mut Writer) -> (r: Result<(), Error>) {
        let n: usize = self.len();
        let _room: usize = writer.room();
        let mut i: usize = 0;
        while i < n
            invariant
                i <= n == self@.len(),
                writer.limit() == old(writer).limit(),
                writer.written().len() <= old(writer).limit(),
                writer.written() == old(writer).written() + seq_encoding::<E, S>(
                    self@.take(i as int),
                ),
            decreases n - i,
        {
            let ghost done = self@.take(i as int);
            let ghost next = self@.take(i + 1);
            proof {
                assert(next.drop_last() =~= done);
                lemma_seq_encoding_grows::<E, S>(next, self@);
            }
            (&self[i]).serialize(writer)?;
            i = i + 1;
        }
        assert(self@.take(n as int) =~= self@);
        Ok(())
    }
}

/// A vector is written as the slice of its items.
impl<'a, E: Endianness, S> Serialize<E> for &'a Vec<S> where for <'b>&'b S: Serialize<E> {
    open spec fn encoding(self) -> Seq<u8> {
        seq_encoding::<E, S>(self@)
    }

    fn serialize(self, writer: &mut Writer) -> (r: Result<(), Error>) {
        <&[S] as Serialize<E>>::serialize(self.as_slice(), writer)
    }
}

} // verus!
