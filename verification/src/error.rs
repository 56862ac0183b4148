use vstd::prelude::*;

verus! {

/// An integer as it travels on the wire: unsigned or signed, of any width
/// up to 128 bits.
#[derive(Clone, Copy, PartialEq, Eq, Debug, Structural)]
pub enum Number {
    Unsigned(u128),
    Signed(i128),
}

impl Number {
    /// The integer this number denotes.
    pub open spec fn as_int(self) -> int {
        match self {
            Number::Unsigned(u) => u as int,
            Number::Signed(s) => s as int,
        }
    }
}

/// The broad class of a failure, for callers that only route on it.
#[derive(Clone, Copy, PartialEq, Eq, Debug, Structural)]
pub enum ErrorKind {
    /// The source ended before the bytes asked for.
    UnexpectedEof,
    /// The sink took fewer bytes than it was given.
    WriteZero,
    /// The bytes read do not encode a value of the type asked for.
    InvalidData,
    /// What the caller handed in cannot be worked on.
    InvalidInput,
}

/// Why a decode or an encode failed. Nothing is retried or recovered from:
/// a failure ends the call.
#[derive(Clone, PartialEq, Eq, Debug)]
pub enum Error {
    /// The source could not supply the number of bytes asked for.
    ShortRead,
    /// The sink could not accept the number of bytes given.
    ShortWrite,
    /// A boolean's byte was neither 0 nor 1; holds the byte.
    InvalidBooleanByte(u8),
    /// The discriminant read for a union matches none of its variants; holds
    /// the name of the union and the discriminant read.
    InvalidDiscriminant { name: String, value: Number },
    /// The value handed to an encoder is not an instance of the type.
    InvalidInstance,
    /// The type asked for is not one the registry knows.
    UnknownType,
}

/// Why no layout could be made of a declaration. These are found before
/// any byte is read or written; a declaration that is refused yields no
/// procedure at all.
#[derive(Clone, Copy, PartialEq, Eq, Debug, Structural)]
pub enum LayoutError {
    /// A union does not say which integer type holds its discriminant.
    MissingDiscriminantType,
    /// A `repr` annotation is not in the form of a name, a list or a
    /// name and a value.
    UnparseableRepr,
    /// A `repr` annotation has an empty list of arguments.
    EmptyRepr,
    /// A `repr` argument is a path of several segments.
    InvalidReprArgument,
    /// The `repr` annotation names something other than a fixed-width
    /// integer type.
    UnsupportedDiscriminantType,
    /// A padding annotation is not in the form of a name, a list or a name
    /// and a value.
    UnparseablePadding,
    /// A padding annotation is not a name and a value.
    PaddingNotNameValue,
    /// The value of a padding annotation is not an integer.
    PaddingNotInteger,
    /// The discriminant of a variant is not a number of the union's
    /// discriminant type.
    DiscriminantOutOfRange,
    /// A field is of a type that the registry does not know yet.
    UnknownFieldType,
}

impl Error {
    /// The class of this failure.
    pub open spec fn spec_kind(self) -> ErrorKind {
        match self {
            Error::ShortRead => ErrorKind::UnexpectedEof,
            Error::ShortWrite => ErrorKind::WriteZero,
            Error::InvalidBooleanByte(_) => ErrorKind::InvalidData,
            Error::InvalidDiscriminant { .. } => ErrorKind::InvalidData,
            Error::InvalidInstance => ErrorKind::InvalidInput,
            Error::UnknownType => ErrorKind::InvalidInput,
        }
    }

    /// The class of this failure.
    pub fn kind(&self) -> (k: ErrorKind)
        ensures
            k == self.spec_kind(),
    {
        match self {
            Error::ShortRead => ErrorKind::UnexpectedEof,
            Error::ShortWrite => ErrorKind::WriteZero,
            Error::InvalidBooleanByte(_) => ErrorKind::InvalidData,
            Error::InvalidDiscriminant { .. } => ErrorKind::InvalidData,
            Error::InvalidInstance => ErrorKind::InvalidInput,
            Error::UnknownType => ErrorKind::InvalidInput,
        }
    }
}

} // verus!
