//! From a declaration to its procedures.

pub mod deserialize;
pub mod serialize;

use crate::decl::Declaration;
use crate::descriptor::{TypeShape, VariantDescriptor};
use crate::error::LayoutError;
use crate::procedure::{DecodeProcedure, EncodeProcedure};
use crate::schema::{FieldType, IntType};
use vstd::prelude::*;

verus! {

/// Makes the decode procedure of a declaration, or refuses the declaration
/// with the first fault found in it.
pub fn derive_deserialize(input: &Declaration) -> (r: Result<DecodeProcedure, LayoutError>)
    ensures
        match r {
            Ok(p) => crate::descriptor::declaration_error(*input) is None && exists|
                d: crate::descriptor::Descriptor,
            |
                crate::descriptor::describes(*input, d) && p.implements(d),
            Err(e) => crate::descriptor::declaration_error(*input) == Some(e),
        },
{
    deserialize::derive(input)
}

/// Makes the encode procedure of a declaration, or refuses the declaration
/// with the first fault found in it.
pub fn derive_serialize(input: &Declaration) -> (r: Result<EncodeProcedure, LayoutError>)
    ensures
        match r {
            Ok(p) => crate::descriptor::declaration_error(*input) is None && exists|
                d: crate::descriptor::Descriptor,
            |
                crate::descriptor::describes(*input, d) && p.implements(d),
            Err(e) => crate::descriptor::declaration_error(*input) == Some(e),
        },
{
    serialize::derive(input)
}

/// Adds to `where_clause` the type of each field, in order: each must have
/// a codec for the procedure to run.
pub fn add_where_clauses_fields(where_clause: &mut Vec<FieldType>, fields: &TypeShape)
    ensures
        final(where_clause)@ == old(where_clause)@ + crate::procedure::field_types(fields.fields()),
{
    match fields {
        TypeShape::Named(fields) => {
            let mut i: usize = 0;
            while i < fields.len()
                invariant
                    i <= fields@.len(),
                    where_clause@ == old(where_clause)@ + crate::procedure::field_types(
                        fields@,
                    ).take(i as int),
                decreases fields@.len() - i,
            {
                where_clause.push(fields[i].ty);
                i = i + 1;
            }
        },
        TypeShape::Positional(fields) => {
            let mut i: usize = 0;
            while i < fields.len()
                invariant
                    i <= fields@.len(),
                    where_clause@ == old(where_clause)@ + crate::procedure::field_types(
                        fields@,
                    ).take(i as int),
                decreases fields@.len() - i,
            {
                where_clause.push(fields[i].ty);
                i = i + 1;
            }
        },
        TypeShape::Unit => {},
    }
}

/// Adds to `where_clause` what a union needs: its discriminant type, then
/// the types of the fields of each variant in order.
pub fn add_where_clauses_enum(
    where_clause: &mut Vec<FieldType>,
    data: &Vec<VariantDescriptor>,
    ty: IntType,
)
    ensures
        final(where_clause)@ == old(where_clause)@ + seq![FieldType::Int(ty)]
            + crate::procedure::variant_types(data@),
{
    where_clause.push(FieldType::Int(ty));
    let mut i: usize = 0;
    while i < data.len()
        invariant
            i <= data@.len(),
            where_clause@ == old(where_clause)@ + seq![FieldType::Int(ty)]
                + crate::procedure::variant_types(data@.take(i as int)),
        decreases data@.len() - i,
    {
        proof {
            assert(data@.take(i + 1).drop_last() =~= data@.take(i as int));
        }
        add_where_clauses_fields(where_clause, &data[i].shape);
        i = i + 1;
    }
    assert(data@.take(i as int) =~= data@);
}

} // verus!
