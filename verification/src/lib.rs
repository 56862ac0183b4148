//! Endian-aware binary encoding and decoding of primitives, records and
//! tagged unions, with layouts described declaratively.
//!
//! There are two ways in.
//!
//! Types known when the program is written implement [`Serialize`] and
//! [`Deserialize`], and are read from a [`Reader`] and written to a
//! [`Writer`] through the traits [`BERead`], [`LERead`], [`BEWrite`] and
//! [`LEWrite`], or [`ERead`] and [`EWrite`] where the byte order is itself a
//! parameter. The primitives implement them here.
//!
//! Types described when the program runs are declared as values
//! ([`decl`]), with their annotations still unread ([`attr`]). A
//! declaration is made into a descriptor ([`descriptor`]), where the
//! variants of a union get their numbers ([`discriminant`]), and the
//! descriptor is compiled into a decode procedure and an encode procedure
//! ([`derive`], [`procedure`]). A [`Registry`] holds the procedures and
//! runs them on instances held as trees ([`value`]).
//!
//! What the bytes mean is written down once, in [`bytes`] for numbers and
//! in [`meaning`] for registered types; the code that reads and writes is
//! held to it, and [`laws`] states what follows.

pub mod attr;
pub mod bytes;
pub mod decl;
pub mod derive;
pub mod descriptor;
pub mod deserialize;
pub mod discriminant;
pub mod endian;
pub mod error;
pub mod laws;
pub mod meaning;
pub mod procedure;
pub mod read;
pub mod registry;
pub mod schema;
pub mod serialize;
pub mod value;
pub mod write;
mod private;

pub use derive::{derive_deserialize, derive_serialize};
pub use endian::{BigEndian, ByteOrder, Endianness, LittleEndian};
pub use deserialize::Deserialize;
pub use error::{Error, ErrorKind, LayoutError, Number};
pub use read::{BERead, ERead, LERead, Reader};
pub use registry::Registry;
pub use schema::{FieldType, IntType};
pub use serialize::Serialize;
pub use value::Value;
pub use write::{BEWrite, EWrite, LEWrite, Writer};
