//! The decode procedure of a descriptor.

use crate::decl::Declaration;
use crate::derive::{add_where_clauses_enum, add_where_clauses_fields};
use crate::descriptor::{describe, Descriptor, FieldDescriptor, TypeShape, VariantDescriptor};
use crate::discriminant::Resolved;
use crate::error::LayoutError;
use crate::procedure::{DecodeProcedure, ReadArm, ReadCode, ReadOp};
use crate::schema::{FieldType, IntType};
use vstd::prelude::*;

verus! {

/// Makes the decode procedure of a declaration: the descriptor is made
/// first, and the procedure is compiled from it.
pub fn derive(input: &Declaration) -> (r: Result<DecodeProcedure, LayoutError>)
    ensures
        match r {
            Ok(p) => crate::descriptor::declaration_error(*input) is None && exists|d: Descriptor|
                crate::descriptor::describes(*input, d) && p.implements(d),
            Err(e) => crate::descriptor::declaration_error(*input) == Some(e),
        },
{
    let descriptor = describe(input)?;
    Ok(compile(&descriptor))
}

/// Compiles a descriptor to its decode procedure.
pub fn compile(descriptor: &Descriptor) -> (p: DecodeProcedure)
    ensures
        p.implements(*descriptor),
{
    let mut where_clause: Vec<FieldType> = Vec::new();
    match descriptor {
        Descriptor::Record(data) => {
            add_where_clauses_fields(&mut where_clause, &data.shape);
            let deser_code = gen_deser_code_struct(&data.shape);
            let read_padding = gen_read_padding(&data.trailing);
            DecodeProcedure { bounds: where_clause, code: deser_code, trailing: read_padding }
        },
        Descriptor::Union(data) => {
            add_where_clauses_enum(&mut where_clause, &data.variants, data.disc_type);
            let deser_code = gen_deser_code_enum(
                &data.variants,
                &data.name,
                data.disc_type,
                &data.pre_disc,
                &data.post_disc,
            );
            let read_padding = gen_read_padding(&data.trailing);
            DecodeProcedure { bounds: where_clause, code: deser_code, trailing: read_padding }
        },
    }
}

/// The reads for a list of fields.
fn gen_deser_code_field_list(fields: &Vec<FieldDescriptor>) -> (deser: Vec<ReadOp>)
    ensures
        deser@ == crate::procedure::read_fields(fields@),
{
    let mut deser: Vec<ReadOp> = Vec::new();
    let mut i: usize = 0;
    proof {
        assert(fields@.skip(0) =~= fields@);
    }
    while i < fields.len()
        invariant
            i <= fields@.len(),
            deser@ + crate::procedure::read_fields(fields@.skip(i as int))
                == crate::procedure::read_fields(fields@),
        decreases fields@.len() - i,
    {
        let f = &fields[i];
        proof {
            assert(fields@.skip(i as int).drop_first() =~= fields@.skip(i + 1));
        }
        match f.padding {
            Some(x) => {
                deser.push(ReadOp::Skip(x));
            },
            None => {},
        }
        deser.push(ReadOp::Value(f.ty));
        i = i + 1;
    }
    deser
}

/// The reads for the fields of a record or variant: for each field in the
/// order of declaration, its padding and then its value.
pub fn gen_deser_code_fields(fields: &TypeShape) -> (deser: Vec<ReadOp>)
    ensures
        deser@ == crate::procedure::read_fields(fields.fields()),
{
    match fields {
        TypeShape::Named(fields) => gen_deser_code_field_list(fields),
        TypeShape::Positional(fields) => gen_deser_code_field_list(fields),
        TypeShape::Unit => {
            let deser: Vec<ReadOp> = Vec::new();
            deser
        },
    }
}

/// The decode body of a record.
pub fn gen_deser_code_struct(fields: &TypeShape) -> (code: ReadCode)
    ensures
        code matches ReadCode::Record(ops) && ops@ == crate::procedure::read_fields(fields.fields()),
{
    let deser_code = gen_deser_code_fields(fields);
    ReadCode::Record(deser_code)
}

/// The decode body of a union: the padding before the discriminant, the
/// discriminant, the padding after it, and one arm for each variant, in
/// the order of declaration, under the variant's discriminant.
pub fn gen_deser_code_enum(
    data: &Vec<VariantDescriptor>,
    name: &String,
    ty: IntType,
    pre_disc_padding: &Option<usize>,
    post_disc_padding: &Option<usize>,
) -> (code: ReadCode)
    ensures
        code matches ReadCode::Union { name: n, pre, disc_type, post, arms } && {
            &&& n == *name
            &&& pre@ == crate::procedure::read_padding(*pre_disc_padding)
            &&& disc_type == ty
            &&& post@ == crate::procedure::read_padding(*post_disc_padding)
            &&& crate::procedure::read_arms_of(data@, arms@)
        },
{
    let mut arms: Vec<ReadArm> = Vec::new();
    let mut i: usize = 0;
    while i < data.len()
        invariant
            i <= data@.len(),
            arms@.len() == i,
            forall|k: int|
                0 <= k < i ==> (#[trigger] arms@[k]).discriminant == data@[k].discriminant
                    && arms@[k].ops@ == crate::procedure::read_fields(data@[k].shape.fields()),
        decreases data@.len() - i,
    {
        let f = &data[i];
        let deser_fields = gen_deser_code_fields(&f.shape);
        let arm = ReadArm {
            discriminant: Resolved { base: f.discriminant.base, offset: f.discriminant.offset },
            ops: deser_fields,
        };
        arms.push(arm);
        i = i + 1;
    }
    let read_pre_padding = gen_read_padding(pre_disc_padding);
    let read_post_padding = gen_read_padding(post_disc_padding);
    ReadCode::Union {
        name: name.clone(),
        pre: read_pre_padding,
        disc_type: ty,
        post: read_post_padding,
        arms,
    }
}

/// The reads for a padding gap: one skip where a gap is declared, nothing
/// where none is.
pub fn gen_read_padding(padding: &Option<usize>) -> (ops: Vec<ReadOp>)
    ensures
        ops@ == crate::procedure::read_padding(*padding),
{
    let mut ops: Vec<ReadOp> = Vec::new();
    match padding {
        Some(x) => {
            ops.push(ReadOp::Skip(*x));
        },
        None => {},
    }
    ops
}

} // verus!
