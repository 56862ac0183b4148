//! Procedures: what a descriptor is compiled to. A procedure is a fixed
//! sequence of reads or of writes; running it does nothing else, in no
//! other order.

use crate::descriptor::{Descriptor, FieldDescriptor, VariantDescriptor};
use crate::discriminant::Discriminant;
use crate::schema::{FieldType, IntType};
use vstd::prelude::*;

verus! {

/// One step of a decode procedure.
#[derive(Clone, Copy, Debug, PartialEq, Eq, Structural)]
pub enum ReadOp {
    /// Pass over this many bytes of padding, whatever they hold.
    Skip(usize),
    /// Read one value of this type.
    Value(FieldType),
}

/// One step of an encode procedure.
#[derive(Clone, Copy, Debug, PartialEq, Eq, Structural)]
pub enum WriteOp {
    /// Write this many zero bytes of padding.
    Zeros(usize),
    /// Write the next value, which is of this type.
    Value(FieldType),
}

/// What to read once the discriminant read is that of one given variant.
#[derive(Debug, PartialEq, Eq)]
pub struct ReadArm {
    /// The discriminant that selects this arm.
    pub discriminant: Discriminant,
    /// The reads that make up the variant's fields.
    pub ops: Vec<ReadOp>,
}

/// What to write for one given variant.
#[derive(Debug, PartialEq, Eq)]
pub struct WriteArm {
    /// The discriminant that is written for this variant.
    pub discriminant: Discriminant,
    /// The writes that make up the variant's fields.
    pub ops: Vec<WriteOp>,
}

/// The body of a decode procedure.
#[derive(Debug, PartialEq, Eq)]
pub enum ReadCode {
    /// A record: its fields.
    Record(Vec<ReadOp>),
    /// A union: padding, the discriminant, padding, then the arm of the
    /// first variant whose discriminant is the one read.
    Union { name: String, pre: Vec<ReadOp>, disc_type: IntType, post: Vec<ReadOp>, arms: Vec<ReadArm> },
}

/// The body of an encode procedure.
#[derive(Debug, PartialEq, Eq)]
pub enum WriteCode {
    /// A record: its fields.
    Record(Vec<WriteOp>),
    /// A union: padding, the discriminant of the instance's variant,
    /// padding, then that variant's arm.
    Union { pre: Vec<WriteOp>, disc_type: IntType, post: Vec<WriteOp>, arms: Vec<WriteArm> },
}

/// The procedure that decodes one declared type.
#[derive(Debug, PartialEq, Eq)]
pub struct DecodeProcedure {
    /// The types that must be decodable for the procedure to run: the
    /// discriminant type of a union, and the type of every field.
    pub bounds: Vec<FieldType>,
    /// The reads that make up the instance.
    pub code: ReadCode,
    /// The trailing padding, read last.
    pub trailing: Vec<ReadOp>,
}

/// The procedure that encodes one declared type.
#[derive(Debug, PartialEq, Eq)]
pub struct EncodeProcedure {
    /// The types that must be encodable for the procedure to run: the
    /// discriminant type of a union, and the type of every field.
    pub bounds: Vec<FieldType>,
    /// The writes that make up the instance.
    pub code: WriteCode,
    /// The trailing padding, written last.
    pub trailing: Vec<WriteOp>,
}

/// The reads for a padding gap: one skip where a gap is declared, of
/// whatever size, and nothing where none is.
pub open spec fn read_padding(padding: Option<usize>) -> Seq<ReadOp> {
    match padding {
        Some(n) => seq![ReadOp::Skip(n)],
        None => Seq::empty(),
    }
}

/// The writes for a padding gap: one run of zeros where a gap is declared,
/// of whatever size, and nothing where none is.
pub open spec fn write_padding(padding: Option<usize>) -> Seq<WriteOp> {
    match padding {
        Some(n) => seq![WriteOp::Zeros(n)],
        None => Seq::empty(),
    }
}

/// The reads for a list of fields: for each field in order, its padding
/// and then its value.
pub open spec fn read_fields(fs: Seq<FieldDescriptor>) -> Seq<ReadOp>
    decreases fs.len(),
{
    if fs.len() == 0 {
        Seq::empty()
    } else {
        read_padding(fs[0].padding) + seq![ReadOp::Value(fs[0].ty)] + read_fields(fs.drop_first())
    }
}

/// The writes for a list of fields: for each field in order, its padding
/// and then its value.
pub open spec fn write_fields(fs: Seq<FieldDescriptor>) -> Seq<WriteOp>
    decreases fs.len(),
{
    if fs.len() == 0 {
        Seq::empty()
    } else {
        write_padding(fs[0].padding) + seq![WriteOp::Value(fs[0].ty)] + write_fields(
            fs.drop_first(),
        )
    }
}

/// The types of a list of fields, in order.
pub open spec fn field_types(fs: Seq<FieldDescriptor>) -> Seq<FieldType> {
    Seq::new(fs.len(), |i: int| fs[i].ty)
}

/// The types of the fields of all variants: variant by variant, field by
/// field.
pub open spec fn variant_types(vs: Seq<VariantDescriptor>) -> Seq<FieldType>
    decreases vs.len(),
{
    if vs.len() == 0 {
        Seq::empty()
    } else {
        variant_types(vs.drop_last()) + field_types(vs.last().shape.fields())
    }
}

/// The types that a descriptor's procedures depend on: for a record the
/// types of its fields; for a union its discriminant type, then the types
/// of the fields of its variants.
pub open spec fn bounds_of(d: Descriptor) -> Seq<FieldType> {
    match d {
        Descriptor::Record(r) => field_types(r.shape.fields()),
        Descriptor::Union(u) => seq![FieldType::Int(u.disc_type)] + variant_types(u.variants@),
    }
}

/// Whether `arms` are the decode arms of the variants `vs`: one for each,
/// in order, with the variant's discriminant and the reads for its fields.
pub open spec fn read_arms_of(vs: Seq<VariantDescriptor>, arms: Seq<ReadArm>) -> bool {
    &&& arms.len() == vs.len()
    &&& forall|i: int|
        0 <= i < vs.len() ==> (#[trigger] arms[i]).discriminant == vs[i].discriminant && arms[i].ops@
            == read_fields(vs[i].shape.fields())
}

/// Whether `arms` are the encode arms of the variants `vs`: one for each,
/// in order, with the variant's discriminant and the writes for its fields.
pub open spec fn write_arms_of(vs: Seq<VariantDescriptor>, arms: Seq<WriteArm>) -> bool {
    &&& arms.len() == vs.len()
    &&& forall|i: int|
        0 <= i < vs.len() ==> (#[trigger] arms[i]).discriminant == vs[i].discriminant && arms[i].ops@
            == write_fields(vs[i].shape.fields())
}

/// Whether `code` is the decode body of the descriptor `d`.
pub open spec fn read_code_of(d: Descriptor, code: ReadCode) -> bool {
    match (d, code) {
        (Descriptor::Record(r), ReadCode::Record(ops)) => ops@ == read_fields(r.shape.fields()),
        (Descriptor::Union(u), ReadCode::Union { name, pre, disc_type, post, arms }) => {
            &&& name == u.name
            &&& pre@ == read_padding(u.pre_disc)
            &&& disc_type == u.disc_type
            &&& post@ == read_padding(u.post_disc)
            &&& read_arms_of(u.variants@, arms@)
        },
        _ => false,
    }
}

/// Whether `code` is the encode body of the descriptor `d`.
pub open spec fn write_code_of(d: Descriptor, code: WriteCode) -> bool {
    match (d, code) {
        (Descriptor::Record(r), WriteCode::Record(ops)) => ops@ == write_fields(r.shape.fields()),
        (Descriptor::Union(u), WriteCode::Union { pre, disc_type, post, arms }) => {
            &&& pre@ == write_padding(u.pre_disc)
            &&& disc_type == u.disc_type
            &&& post@ == write_padding(u.post_disc)
            &&& write_arms_of(u.variants@, arms@)
        },
        _ => false,
    }
}

/// The trailing padding count of a descriptor.
pub open spec fn trailing_of(d: Descriptor) -> Option<usize> {
    match d {
        Descriptor::Record(r) => r.trailing,
        Descriptor::Union(u) => u.trailing,
    }
}

impl DecodeProcedure {
    /// Whether this is the decode procedure of the descriptor `d`.
    pub open spec fn implements(self, d: Descriptor) -> bool {
        &&& self.bounds@ == bounds_of(d)
        &&& read_code_of(d, self.code)
        &&& self.trailing@ == read_padding(trailing_of(d))
    }
}

impl EncodeProcedure {
    /// Whether this is the encode procedure of the descriptor `d`.
    pub open spec fn implements(self, d: Descriptor) -> bool {
        &&& self.bounds@ == bounds_of(d)
        &&& write_code_of(d, self.code)
        &&& self.trailing@ == write_padding(trailing_of(d))
    }
}

} // verus!
