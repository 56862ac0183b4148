//! The types a field can have, and integers on the wire.

use crate::bytes::{encode_int, encode_uint};
use crate::deserialize::{read_int, read_uint};
use crate::endian::ByteOrder;
use crate::error::{Error, Number};
use crate::read::Reader;
use crate::write::Writer;
use vstd::prelude::*;

verus! {

/// The fixed-width integer types: five widths, unsigned and signed.
#[derive(Clone, Copy, PartialEq, Eq, Debug, Structural)]
pub enum IntType {
    U8,
    U16,
    U32,
    U64,
    U128,
    I8,
    I16,
    I32,
    I64,
    I128,
}

impl IntType {
    /// How many bytes a number of this type takes.
    pub open spec fn spec_width(self) -> nat {
        match self {
            IntType::U8 | IntType::I8 => 1,
            IntType::U16 | IntType::I16 => 2,
            IntType::U32 | IntType::I32 => 4,
            IntType::U64 | IntType::I64 => 8,
            IntType::U128 | IntType::I128 => 16,
        }
    }

    /// Whether the type has negative numbers.
    pub open spec fn spec_signed(self) -> bool {
        match self {
            IntType::U8 | IntType::U16 | IntType::U32 | IntType::U64 | IntType::U128 => false,
            IntType::I8 | IntType::I16 | IntType::I32 | IntType::I64 | IntType::I128 => true,
        }
    }

    /// Whether `x` is a number of this type.
    pub open spec fn admits(self, x: int) -> bool {
        if self.spec_signed() {
            crate::bytes::fits_signed(x, self.spec_width())
        } else {
            0 <= x < crate::bytes::pow256(self.spec_width())
        }
    }

    /// The type that a name stands for, if it is the name of one.
    pub open spec fn named(name: Seq<char>) -> Option<IntType> {
        if name == "u8"@ {
            Some(IntType::U8)
        } else if name == "u16"@ {
            Some(IntType::U16)
        } else if name == "u32"@ {
            Some(IntType::U32)
        } else if name == "u64"@ {
            Some(IntType::U64)
        } else if name == "u128"@ {
            Some(IntType::U128)
        } else if name == "i8"@ {
            Some(IntType::I8)
        } else if name == "i16"@ {
            Some(IntType::I16)
        } else if name == "i32"@ {
            Some(IntType::I32)
        } else if name == "i64"@ {
            Some(IntType::I64)
        } else if name == "i128"@ {
            Some(IntType::I128)
        } else {
            None
        }
    }

    /// How many bytes a number of this type takes.
    pub fn width(self) -> (w: usize)
        ensures
            w == self.spec_width(),
            1 <= w <= 16,
    {
        match self {
            IntType::U8 | IntType::I8 => 1,
            IntType::U16 | IntType::I16 => 2,
            IntType::U32 | IntType::I32 => 4,
            IntType::U64 | IntType::I64 => 8,
            IntType::U128 | IntType::I128 => 16,
        }
    }

    /// Whether the type has negative numbers.
    pub fn signed(self) -> (s: bool)
        ensures
            s == self.spec_signed(),
    {
        match self {
            IntType::U8 | IntType::U16 | IntType::U32 | IntType::U64 | IntType::U128 => false,
            IntType::I8 | IntType::I16 | IntType::I32 | IntType::I64 | IntType::I128 => true,
        }
    }

    /// The type that `name` stands for, if it is the name of one.
    pub fn from_name(name: &str) -> (r: Option<IntType>)
        ensures
            r == Self::named(name@),
    {
        if same_text(name, "u8") {
            Some(IntType::U8)
        } else if same_text(name, "u16") {
            Some(IntType::U16)
        } else if same_text(name, "u32") {
            Some(IntType::U32)
        } else if same_text(name, "u64") {
            Some(IntType::U64)
        } else if same_text(name, "u128") {
            Some(IntType::U128)
        } else if same_text(name, "i8") {
            Some(IntType::I8)
        } else if same_text(name, "i16") {
            Some(IntType::I16)
        } else if same_text(name, "i32") {
            Some(IntType::I32)
        } else if same_text(name, "i64") {
            Some(IntType::I64)
        } else if same_text(name, "i128") {
            Some(IntType::I128)
        } else {
            None
        }
    }

    /// Whether `n` is a number of this type, held the way this type's
    /// numbers are: unsigned types hold [`Number::Unsigned`], signed ones
    /// [`Number::Signed`].
    pub open spec fn holds(self, n: Number) -> bool {
        match n {
            Number::Unsigned(u) => !self.spec_signed() && self.admits(u as int),
            Number::Signed(s) => self.spec_signed() && self.admits(s as int),
        }
    }

    /// Whether `n` is a number of this type, held the way this type's
    /// numbers are.
    pub fn check(self, n: Number) -> (b: bool)
        ensures
            b == self.holds(n),
    {
        let w: usize = self.width();
        match n {
            Number::Unsigned(u) => {
                if self.signed() {
                    false
                } else {
                    u <= crate::bytes::max_unsigned(w)
                }
            },
            Number::Signed(s) => {
                if !self.signed() {
                    false
                } else {
                    let top: u128 = crate::bytes::max_unsigned(w) / 2;
                    if s >= 0 {
                        s as u128 <= top
                    } else {
                        (-(s + 1)) as u128 <= top
                    }
                }
            },
        }
    }
}

/// Whether two strings hold the same text.
pub(crate) fn same_text(a: &str, b: &str) -> (same: bool)
    ensures
        same == (a@ == b@),
{
    let x: String = a.to_owned();
    let y: String = b.to_owned();
    x == y
}

/// The type of a field: one of the primitives, or a type of a registry,
/// named by its index there.
#[derive(Clone, Copy, PartialEq, Eq, Debug, Structural)]
pub enum FieldType {
    /// One byte, 0 or 1.
    Bool,
    /// A fixed-width integer.
    Int(IntType),
    /// Four bytes in the order they come.
    Address,
    /// The type registered under this index.
    Ref(usize),
}

impl FieldType {
    /// 0 for a primitive; for a registered type, one more than its index.
    /// A type may only be built from types of lower rank.
    pub open spec fn rank(self) -> nat {
        match self {
            FieldType::Ref(id) => id as nat + 1,
            _ => 0,
        }
    }
}

/// The bytes that stand for `n` as a number of type `t`.
pub open spec fn number_bytes(n: Number, t: IntType, order: ByteOrder) -> Seq<u8> {
    match n {
        Number::Unsigned(u) => crate::bytes::uint_bytes(u as nat, t.spec_width(), order),
        Number::Signed(s) => crate::bytes::int_bytes(s as int, t.spec_width(), order),
    }
}

/// The number of type `t` at the front of `bytes`.
pub open spec fn number_decoded(bytes: Seq<u8>, t: IntType, order: ByteOrder) -> Result<
    (Number, nat),
    Error,
> {
    if t.spec_signed() {
        match crate::deserialize::int_decoded(bytes, t.spec_width(), order) {
            Ok((v, n)) => Ok((Number::Signed(v as i128), n)),
            Err(e) => Err(e),
        }
    } else {
        match crate::deserialize::uint_decoded(bytes, t.spec_width(), order) {
            Ok((v, n)) => Ok((Number::Unsigned(v as u128), n)),
            Err(e) => Err(e),
        }
    }
}

/// Reads a number of type `t`.
pub fn read_number(reader: &mut Reader, t: IntType, order: ByteOrder) -> (r: Result<Number, Error>)
    ensures
        match number_decoded(old(reader).pending(), t, order) {
            Ok((v, n)) => {
                &&& r == Ok::<Number, Error>(v)
                &&& t.holds(v)
                &&& n <= old(reader).pending().len()
                &&& final(reader).pending() == old(reader).pending().skip(n as int)
            },
            Err(e) => r == Err::<Number, Error>(e),
        },
{
    if t.signed() {
        let v: i128 = read_int(reader, t.width(), order)?;
        Ok(Number::Signed(v))
    } else {
        let v: u128 = read_uint(reader, t.width(), order)?;
        Ok(Number::Unsigned(v))
    }
}

/// Writes `n` as a number of type `t`. A number that is none of that type
/// is refused, and so is one held the wrong way: nothing is written then.
pub fn write_number(n: Number, t: IntType, writer: &mut Writer, order: ByteOrder) -> (r: Result<
    (),
    Error,
>)
    ensures
        !t.holds(n) ==> r == Err::<(), Error>(Error::InvalidInstance) && *final(writer) == *old(
            writer,
        ),
        t.holds(n) ==> crate::write::wrote(
            *old(writer),
            number_bytes(n, t, order),
            r,
            *final(writer),
        ),
        r is Err ==> final(writer).written() == old(writer).written(),
{
    if !t.check(n) {
        return Err(Error::InvalidInstance);
    }
    let buf: Vec<u8> = match n {
        Number::Unsigned(u) => encode_uint(u, t.width(), order),
        Number::Signed(s) => encode_int(s, t.width(), order),
    };
    writer.write_all(buf.as_slice())
}

/// Round trip of numbers: a number of type `t` is decoded from its own
/// encoding, whatever follows it, and takes exactly the width of `t`.
pub proof fn lemma_number_round_trip(n: Number, t: IntType, order: ByteOrder, rest: Seq<u8>)
    requires
        t.holds(n),
    ensures
        number_bytes(n, t, order).len() == t.spec_width(),
        number_decoded(number_bytes(n, t, order) + rest, t, order) == Ok::<(Number, nat), Error>(
            (n, t.spec_width()),
        ),
{
    let w = t.spec_width();
    let enc = number_bytes(n, t, order);
    match n {
        Number::Unsigned(u) => {
            crate::bytes::lemma_uint_bytes_len(u as nat, w, order);
            crate::bytes::lemma_uint_round_trip(u as nat, w, order);
        },
        Number::Signed(s) => {
            crate::bytes::lemma_int_round_trip(s as int, w, order);
        },
    }
    assert((enc + rest).take(w as int) =~= enc);
}

} // verus!
