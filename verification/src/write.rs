use crate::endian::{BigEndian, Endianness, LittleEndian};
use crate::error::Error;
use crate::serialize::Serialize;
use vstd::prelude::*;

verus! {

/// A sink of bytes: what has been written so far, and a limit on how much
/// it will hold. A write that would pass the limit fails as a whole and
/// leaves the sink as it was.
pub struct Writer {
    buf: Vec<u8>,
    limit: usize,
}

impl Writer {
    #[verifier::type_invariant]
    spec fn within(self) -> bool {
        self.buf@.len() <= self.limit
    }

    /// The bytes written so far, in order.
    pub closed spec fn written(self) -> Seq<u8> {
        self.buf@
    }

    /// The most bytes this sink will hold.
    pub closed spec fn limit(self) -> nat {
        self.limit as nat
    }

    /// An empty sink that holds as much as memory allows.
    pub fn new() -> (w: Self)
        ensures
            w.written() == Seq::<u8>::empty(),
            w.limit() == usize::MAX,
    {
        Writer { buf: Vec::new(), limit: usize::MAX }
    }

    /// An empty sink that holds at most `limit` bytes.
    pub fn with_limit(limit: usize) -> (w: Self)
        ensures
            w.written() == Seq::<u8>::empty(),
            w.limit() == limit,
    {
        Writer { buf: Vec::new(), limit }
    }

    /// The bytes written so far.
    pub fn bytes(&self) -> (s: &[u8])
        ensures
            s@ == self.written(),
    {
        self.buf.as_slice()
    }

    /// Gives up the sink for the bytes written to it.
    pub fn into_bytes(self) -> (v: Vec<u8>)
        ensures
            v@ == self.written(),
    {
        self.buf
    }

    /// How many more bytes the sink will hold.
    pub fn room(&self) -> (n: usize)
        ensures
            n == self.limit() - self.written().len(),
    {
        proof {
            use_type_invariant(self);
        }
        self.limit - self.buf.len()
    }

    /// Writes all of `bytes`, or fails with [`Error::ShortWrite`] and
    /// writes nothing when they would pass the limit.
    pub fn write_all(&mut self, bytes: &[u8]) -> (r: Result<(), Error>)
        ensures
            wrote(*old(self), bytes@, r, *final(self)),
            r is Err ==> final(self).written() == old(self).written(),
    {
        proof {
            use_type_invariant(&*self);
        }
        let n: usize = bytes.len();
        if n > self.limit - self.buf.len() {
            return Err(Error::ShortWrite);
        }
        let mut buf: Vec<u8> = Vec::new();
        core::mem::swap(&mut self.buf, &mut buf);
        let mut i: usize = 0;
        while i < n
            invariant
                i <= n == bytes@.len(),
                buf@ == old(self).buf@ + bytes@.take(i as int),
            decreases n - i,
        {
            buf.push(bytes[i]);
            i = i + 1;
        }
        assert(bytes@.take(n as int) =~= bytes@);
        self.buf = buf;
        Ok(())
    }

    /// Writes `n` zero bytes of padding, or fails with
    /// [`Error::ShortWrite`] and writes nothing when they would pass the
    /// limit.
    pub fn write_zeros(&mut self, n: usize) -> (r: Result<(), Error>)
        ensures
            wrote(*old(self), zeros(n as nat), r, *final(self)),
            r is Err ==> final(self).written() == old(self).written(),
    {
        proof {
            use_type_invariant(&*self);
        }
        if n > self.limit - self.buf.len() {
            return Err(Error::ShortWrite);
        }
        let mut buf: Vec<u8> = Vec::new();
        core::mem::swap(&mut self.buf, &mut buf);
        let mut i: usize = 0;
        while i < n
            invariant
                i <= n,
                buf@ == old(self).buf@ + zeros(i as nat),
            decreases n - i,
        {
            buf.push(0u8);
            i = i + 1;
        }
        self.buf = buf;
        Ok(())
    }
}

/// `n` zero bytes: what a padding gap of `n` looks like on the wire.
pub open spec fn zeros(n: nat) -> Seq<u8> {
    Seq::new(n, |i: int| 0u8)
}

/// A write of `bytes` to a sink in state `before` that gave `r` and left
/// the sink in state `after` did what a write does: it succeeds exactly when
/// the bytes fit under the limit, and then they follow what was written
/// before; when it fails it is for want of room, and of what was written
/// before nothing is lost.
pub open spec fn wrote(before: Writer, bytes: Seq<u8>, r: Result<(), Error>, after: Writer) -> bool {
    &&& after.limit() == before.limit()
    &&& match r {
        Ok(()) => {
            &&& before.written().len() + bytes.len() <= before.limit()
            &&& after.written() == before.written() + bytes
        },
        Err(e) => {
            &&& e == Error::ShortWrite
            &&& before.written().len() + bytes.len() > before.limit()
            &&& before.written().is_prefix_of(after.written())
        },
    }
}

/// Two writes in a row are one write of both runs of bytes: where the first
/// went through, the two come to what the second came to.
pub proof fn lemma_wrote_both(
    start: Writer,
    first: Seq<u8>,
    middle: Writer,
    second: Seq<u8>,
    r: Result<(), Error>,
    end: Writer,
)
    requires
        wrote(start, first, Ok(()), middle),
        wrote(middle, second, r, end),
    ensures
        wrote(start, first + second, r, end),
{
    assert((start.written() + first) + second =~= start.written() + (first + second));
}

/// Writing in an ambient byte order `E`, with the two forced orders beside
/// it. A value written through any of the three is encoded wholly in that
/// one order, fields of fields included.
pub trait EWrite<E: Endianness>: Sized {
    /// The sink that is written to.
    spec fn sink(&self) -> Writer;

    /// Writes a value in the ambient byte order.
    fn write<S: Serialize<E>>(&mut self, ser: S) -> (r: Result<(), Error>)
        ensures
            wrote(old(self).sink(), ser.encoding(), r, final(self).sink()),
    ;

    /// Writes a value in big-endian, whatever the ambient order.
    fn write_be<S: Serialize<BigEndian>>(&mut self, ser: S) -> (r: Result<(), Error>)
        ensures
            wrote(old(self).sink(), ser.encoding(), r, final(self).sink()),
    ;

    /// Writes a value in little-endian, whatever the ambient order.
    fn write_le<S: Serialize<LittleEndian>>(&mut self, ser: S) -> (r: Result<(), Error>)
        ensures
            wrote(old(self).sink(), ser.encoding(), r, final(self).sink()),
    ;
}

impl<E: Endianness> EWrite<E> for Writer {
    open spec fn sink(&self) -> Writer {
        *self
    }

    fn write<S: Serialize<E>>(&mut self, ser: S) -> (r: Result<(), Error>) {
        ser.serialize(self)
    }

    fn write_be<S: Serialize<BigEndian>>(&mut self, ser: S) -> (r: Result<(), Error>) {
        ser.serialize(self)
    }

    fn write_le<S: Serialize<LittleEndian>>(&mut self, ser: S) -> (r: Result<(), Error>) {
        ser.serialize(self)
    }
}

/// Writing with big-endian as the ambient byte order.
pub trait BEWrite: Sized {
    /// The sink that is written to.
    spec fn sink(&self) -> Writer;

    /// Writes a value in big-endian.
    fn write<S: Serialize<BigEndian>>(&mut self, ser: S) -> (r: Result<(), Error>)
        ensures
            wrote(old(self).sink(), ser.encoding(), r, final(self).sink()),
    ;

    /// Writes a value in big-endian.
    fn write_be<S: Serialize<BigEndian>>(&mut self, ser: S) -> (r: Result<(), Error>)
        ensures
            wrote(old(self).sink(), ser.encoding(), r, final(self).sink()),
    ;

    /// Writes a value in little-endian, whatever the ambient order.
    fn write_le<S: Serialize<LittleEndian>>(&mut self, ser: S) -> (r: Result<(), Error>)
        ensures
            wrote(old(self).sink(), ser.encoding(), r, final(self).sink()),
    ;
}

impl BEWrite for Writer {
    open spec fn sink(&self) -> Writer {
        *self
    }

    fn write<S: Serialize<BigEndian>>(&mut self, ser: S) -> (r: Result<(), Error>) {
        ser.serialize(self)
    }

    fn write_be<S: Serialize<BigEndian>>(&mut self, ser: S) -> (r: Result<(), Error>) {
        ser.serialize(self)
    }

    fn write_le<S: Serialize<LittleEndian>>(&mut self, ser: S) -> (r: Result<(), Error>) {
        ser.serialize(self)
    }
}

/// Writing with little-endian as the ambient byte order.
pub trait LEWrite: Sized {
    /// The sink that is written to.
    spec fn sink(&self) -> Writer;

    /// Writes a value in little-endian.
    fn write<S: Serialize<LittleEndian>>(&mut self, ser: S) -> (r: Result<(), Error>)
        ensures
            wrote(old(self).sink(), ser.encoding(), r, final(self).sink()),
    ;

    /// Writes a value in big-endian, whatever the ambient order.
    fn write_be<S: Serialize<BigEndian>>(&mut self, ser: S) -> (r: Result<(), Error>)
        ensures
            wrote(old(self).sink(), ser.encoding(), r, final(self).sink()),
    ;

    /// Writes a value in little-endian.
    fn write_le<S: Serialize<LittleEndian>>(&mut self, ser: S) -> (r: Result<(), Error>)
        ensures
            wrote(old(self).sink(), ser.encoding(), r, final(self).sink()),
    ;
}

impl LEWrite for Writer {
    open spec fn sink(&self) -> Writer {
        *self
    }

    fn write<S: Serialize<LittleEndian>>(&mut self, ser: S) -> (r: Result<(), Error>) {
        ser.serialize(self)
    }

    fn write_be<S: Serialize<BigEndian>>(&mut self, ser: S) -> (r: Result<(), Error>) {
        ser.serialize(self)
    }

    fn write_le<S: Serialize<LittleEndian>>(&mut self, ser: S) -> (r: Result<(), Error>) {
        ser.serialize(self)
    }
}

} // verus!
