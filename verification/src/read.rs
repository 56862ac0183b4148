use crate::deserialize::Deserialize;
use crate::endian::{BigEndian, Endianness, LittleEndian};
use crate::error::Error;
use vstd::prelude::*;
use vstd::slice::slice_subrange;

verus! {

/// A source of bytes: a byte string and a position in it. Reading takes
/// bytes from the front of what is still pending and never looks back.
pub struct Reader<'a> {
    bytes: &'a [u8],
    pos: usize,
}

impl<'a> Reader<'a> {
    #[verifier::type_invariant]
    spec fn within(self) -> bool {
        self.pos <= self.bytes@.len()
    }

    /// The bytes not yet read, in order.
    pub closed spec fn pending(self) -> Seq<u8> {
        self.bytes@.skip(self.pos as int)
    }

    /// A source that will supply `bytes` from its first byte on.
    pub fn new(bytes: &'a [u8]) -> (r: Self)
        ensures
            r.pending() == bytes@,
    {
        Reader { bytes, pos: 0 }
    }

    /// How many bytes are still pending.
    pub fn remaining(&self) -> (n: usize)
        ensures
            n == self.pending().len(),
    {
        proof {
            use_type_invariant(self);
        }
        self.bytes.len() - self.pos
    }

    /// Reads exactly `n` bytes, or fails with [`Error::ShortRead`] and
    /// reads nothing when fewer are pending.
    pub fn take(&mut self, n: usize) -> (r: Result<&'a [u8], Error>)
        ensures
            match r {
                Ok(s) => {
                    &&& n <= old(self).pending().len()
                    &&& s@ == old(self).pending().take(n as int)
                    &&& final(self).pending() == old(self).pending().skip(n as int)
                },
                Err(e) => {
                    &&& n > old(self).pending().len()
                    &&& e == Error::ShortRead
                    &&& final(self).pending() == old(self).pending()
                },
            },
    {
        proof {
            use_type_invariant(&*self);
        }
        if n > self.bytes.len() - self.pos {
            return Err(Error::ShortRead);
        }
        let start: usize = self.pos;
        let taken = slice_subrange(self.bytes, start, start + n);
        self.pos = start + n;
        Ok(taken)
    }

    /// Passes over `n` bytes of padding without looking at them, or fails
    /// with [`Error::ShortRead`] when fewer are pending.
    pub fn skip(&mut self, n: usize) -> (r: Result<(), Error>)
        ensures
            match r {
                Ok(()) => {
                    &&& n <= old(self).pending().len()
                    &&& final(self).pending() == old(self).pending().skip(n as int)
                },
                Err(e) => {
                    &&& n > old(self).pending().len()
                    &&& e == Error::ShortRead
                    &&& final(self).pending() == old(self).pending()
                },
            },
    {
        match self.take(n) {
            Ok(_) => Ok(()),
            Err(e) => Err(e),
        }
    }
}

/// Reading in an ambient byte order `E`, with the two forced orders beside
/// it. A value read through any of the three is decoded wholly in that one
/// order, fields of fields included.
pub trait ERead<E: Endianness>: Sized {
    /// The bytes that this source has yet to supply.
    spec fn source(&self) -> Seq<u8>;

    /// Reads a value in the ambient byte order.
    fn read<D: Deserialize<E>>(&mut self) -> (r: Result<D, Error>)
        ensures
            crate::deserialize::reads::<E, D>(old(self).source(), r, final(self).source()),
    ;

    /// Reads a value in big-endian, whatever the ambient order.
    fn read_be<D: Deserialize<BigEndian>>(&mut self) -> (r: Result<D, Error>)
        ensures
            crate::deserialize::reads::<BigEndian, D>(old(self).source(), r, final(self).source()),
    ;

    /// Reads a value in little-endian, whatever the ambient order.
    fn read_le<D: Deserialize<LittleEndian>>(&mut self) -> (r: Result<D, Error>)
        ensures
            crate::deserialize::reads::<LittleEndian, D>(old(self).source(), r, final(self).source()),
    ;
}

impl<'a, E: Endianness> ERead<E> for Reader<'a> {
    open spec fn source(&self) -> Seq<u8> {
        self.pending()
    }

    fn read<D: Deserialize<E>>(&mut self) -> (r: Result<D, Error>) {
        D::deserialize(self)
    }

    fn read_be<D: Deserialize<BigEndian>>(&mut self) -> (r: Result<D, Error>) {
        D::deserialize(self)
    }

    fn read_le<D: Deserialize<LittleEndian>>(&mut self) -> (r: Result<D, Error>) {
        D::deserialize(self)
    }
}

/// Reading with big-endian as the ambient byte order.
pub trait BERead: Sized {
    /// The bytes that this source has yet to supply.
    spec fn source(&self) -> Seq<u8>;

    /// Reads a value in big-endian.
    fn read<D: Deserialize<BigEndian>>(&mut self) -> (r: Result<D, Error>)
        ensures
            crate::deserialize::reads::<BigEndian, D>(old(self).source(), r, final(self).source()),
    ;

    /// Reads a value in big-endian.
    fn read_be<D: Deserialize<BigEndian>>(&mut self) -> (r: Result<D, Error>)
        ensures
            crate::deserialize::reads::<BigEndian, D>(old(self).source(), r, final(self).source()),
    ;

    /// Reads a value in little-endian, whatever the ambient order.
    fn read_le<D: Deserialize<LittleEndian>>(&mut self) -> (r: Result<D, Error>)
        ensures
            crate::deserialize::reads::<LittleEndian, D>(
                old(self).source(),
                r,
                final(self).source(),
            ),
    ;
}

impl<'a> BERead for Reader<'a> {
    open spec fn source(&self) -> Seq<u8> {
        self.pending()
    }

    fn read<D: Deserialize<BigEndian>>(&mut self) -> (r: Result<D, Error>) {
        D::deserialize(self)
    }

    fn read_be<D: Deserialize<BigEndian>>(&mut self) -> (r: Result<D, Error>) {
        D::deserialize(self)
    }

    fn read_le<D: Deserialize<LittleEndian>>(&mut self) -> (r: Result<D, Error>) {
        D::deserialize(self)
    }
}

/// Reading with little-endian as the ambient byte order.
pub trait LERead: Sized {
    /// The bytes that this source has yet to supply.
    spec fn source(&self) -> Seq<u8>;

    /// Reads a value in little-endian.
    fn read<D: Deserialize<LittleEndian>>(&mut self) -> (r: Result<D, Error>)
        ensures
            crate::deserialize::reads::<LittleEndian, D>(
                old(self).source(),
                r,
                final(self).source(),
            ),
    ;

    /// Reads a value in big-endian, whatever the ambient order.
    fn read_be<D: Deserialize<BigEndian>>(&mut self) -> (r: Result<D, Error>)
        ensures
            crate::deserialize::reads::<BigEndian, D>(old(self).source(), r, final(self).source()),
    ;

    /// Reads a value in little-endian.
    fn read_le<D: Deserialize<LittleEndian>>(&mut self) -> (r: Result<D, Error>)
        ensures
            crate::deserialize::reads::<LittleEndian, D>(
                old(self).source(),
                r,
                final(self).source(),
            ),
    ;
}

impl<'a> LERead for Reader<'a> {
    open spec fn source(&self) -> Seq<u8> {
        self.pending()
    }

    fn read<D: Deserialize<LittleEndian>>(&mut self) -> (r: Result<D, Error>) {
        D::deserialize(self)
    }

    fn read_be<D: Deserialize<BigEndian>>(&mut self) -> (r: Result<D, Error>) {
        D::deserialize(self)
    }

    fn read_le<D: Deserialize<LittleEndian>>(&mut self) -> (r: Result<D, Error>) {
        D::deserialize(self)
    }
}

} // verus!
