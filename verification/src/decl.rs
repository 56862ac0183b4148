//! Declarations: the shape of a type as its author wrote it down, with the
//! annotations still unread.

use crate::attr::Attribute;
use crate::schema::FieldType;
use vstd::prelude::*;

verus! {

/// One field of a record or of a variant.
#[derive(Debug, PartialEq, Eq)]
pub struct Field {
    /// The annotations on the field.
    pub attrs: Vec<Attribute>,
    /// The field's name, where fields are named.
    pub ident: Option<String>,
    /// The field's type.
    pub ty: FieldType,
}

/// The fields of a record or of a variant, in the order of declaration,
/// which is the order on the wire.
#[derive(Debug, PartialEq, Eq)]
pub enum Fields {
    /// Fields with names.
    Named(Vec<Field>),
    /// Fields told apart by position.
    Unnamed(Vec<Field>),
    /// No fields.
    Unit,
}

impl Fields {
    /// The fields in order; none for a unit.
    pub open spec fn list(self) -> Seq<Field> {
        match self {
            Fields::Named(fields) => fields@,
            Fields::Unnamed(fields) => fields@,
            Fields::Unit => Seq::empty(),
        }
    }
}

/// One variant of a union.
#[derive(Debug, PartialEq, Eq)]
pub struct Variant {
    /// The variant's name.
    pub ident: String,
    /// The variant's own fields.
    pub fields: Fields,
    /// The discriminant written behind the variant, if one is.
    pub discriminant: Option<i128>,
}

/// What a declaration declares.
#[derive(Debug, PartialEq, Eq)]
pub enum Data {
    /// A record: fields, and no choice.
    Record(Fields),
    /// A tagged union: variants in order, one of which is chosen.
    Union(Vec<Variant>),
}

/// The declaration of a record or of a union.
#[derive(Debug, PartialEq, Eq)]
pub struct Declaration {
    /// The annotations on the type.
    pub attrs: Vec<Attribute>,
    /// The type's name.
    pub ident: String,
    /// The fields or the variants.
    pub data: Data,
}

} // verus!
