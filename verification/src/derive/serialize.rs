//! The encode procedure of a descriptor.

use crate::decl::Declaration;
use crate::derive::{add_where_clauses_enum, add_where_clauses_fields};
use crate::descriptor::{describe, Descriptor, FieldDescriptor, TypeShape, VariantDescriptor};
use crate::discriminant::Resolved;
use crate::error::LayoutError;
use crate::procedure::{EncodeProcedure, WriteArm, WriteCode, WriteOp};
use crate::schema::{FieldType, IntType};
use vstd::prelude::*;

verus! {

/// Makes the encode procedure of a declaration: the descriptor is made
/// first, and the procedure is compiled from it.
pub fn derive(input: &Declaration) -> (r: Result<EncodeProcedure, LayoutError>)
    ensures
        match r {
            Ok(p) => crate::descriptor::declaration_error(*input) is None && exists|d: Descriptor|
                crate::descriptor::describes(*input, d) && p.implements(d),
            Err(e) => crate::descriptor::declaration_error(*input) == Some(e),
        },
{
    let descriptor = describe(input)?;
    Ok(compile(&descriptor))
}

/// Compiles a descriptor to its encode procedure.
pub fn compile(descriptor: &Descriptor) -> (p: EncodeProcedure)
    ensures
        p.implements(*descriptor),
{
    let mut where_clause: Vec<FieldType> = Vec::new();
    match descriptor {
        Descriptor::Record(data) => {
            add_where_clauses_fields(&mut where_clause, &data.shape);
            let ser_code = gen_ser_code_struct(&data.shape);
            let write_padding = gen_write_padding(&data.trailing);
            EncodeProcedure { bounds: where_clause, code: ser_code, trailing: write_padding }
        },
        Descriptor::Union(data) => {
            add_where_clauses_enum(&mut where_clause, &data.variants, data.disc_type);
            let ser_code = gen_ser_code_enum(
                &data.variants,
                data.disc_type,
                &data.pre_disc,
                &data.post_disc,
            );
            let write_padding = gen_write_padding(&data.trailing);
            EncodeProcedure { bounds: where_clause, code: ser_code, trailing: write_padding }
        },
    }
}

/// The writes for a list of fields.
fn gen_ser_code_field_list(fields: &Vec<FieldDescriptor>) -> (ser: Vec<WriteOp>)
    ensures
        ser@ == crate::procedure::write_fields(fields@),
{
    let mut ser: Vec<WriteOp> = Vec::new();
    let mut i: usize = 0;
    proof {
        assert(fields@.skip(0) =~= fields@);
    }
    while i < fields.len()
        invariant
            i <= fields@.len(),
            ser@ + crate::procedure::write_fields(fields@.skip(i as int))
                == crate::procedure::write_fields(fields@),
        decreases fields@.len() - i,
    {
        let f = &fields[i];
        proof {
            assert(fields@.skip(i as int).drop_first() =~= fields@.skip(i + 1));
        }
        match f.padding {
            Some(x) => {
                ser.push(WriteOp::Zeros(x));
            },
            None => {},
        }
        ser.push(WriteOp::Value(f.ty));
        i = i + 1;
    }
    ser
}

/// The writes for the fields of a record or variant: for each field in
/// the order of declaration, its padding and then its value.
pub fn gen_ser_code_fields(fields: &TypeShape) -> (ser: Vec<WriteOp>)
    ensures
        ser@ == crate::procedure::write_fields(fields.fields()),
{
    match fields {
        TypeShape::Named(fields) => gen_ser_code_field_list(fields),
        TypeShape::Positional(fields) => gen_ser_code_field_list(fields),
        TypeShape::Unit => {
            let ser: Vec<WriteOp> = Vec::new();
            ser
        },
    }
}

/// The encode body of a record.
pub fn gen_ser_code_struct(fields: &TypeShape) -> (code: WriteCode)
    ensures
        code matches WriteCode::Record(ops) && ops@ == crate::procedure::write_fields(fields.fields()),
{
    let ser_code = gen_ser_code_fields(fields);
    WriteCode::Record(ser_code)
}

/// The encode body of a union: the padding before the discriminant, the
/// discriminant, the padding after it, and one arm for each variant, in
/// the order of declaration, with the discriminant that is written for
/// it.
pub fn gen_ser_code_enum(
    data: &Vec<VariantDescriptor>,
    ty: IntType,
    pre_disc_padding: &Option<usize>,
    post_disc_padding: &Option<usize>,
) -> (code: WriteCode)
    ensures
        code matches WriteCode::Union { pre, disc_type, post, arms } && {
            &&& pre@ == crate::procedure::write_padding(*pre_disc_padding)
            &&& disc_type == ty
            &&& post@ == crate::procedure::write_padding(*post_disc_padding)
            &&& crate::procedure::write_arms_of(data@, arms@)
        },
{
    let mut arms: Vec<WriteArm> = Vec::new();
    let mut i: usize = 0;
    while i < data.len()
        invariant
            i <= data@.len(),
            arms@.len() == i,
            forall|k: int|
                0 <= k < i ==> (#[trigger] arms@[k]).discriminant == data@[k].discriminant
                    && arms@[k].ops@ == crate::procedure::write_fields(data@[k].shape.fields()),
        decreases data@.len() - i,
    {
        let f = &data[i];
        let ser_fields = gen_ser_code_fields(&f.shape);
        let arm = WriteArm {
            discriminant: Resolved { base: f.discriminant.base, offset: f.discriminant.offset },
            ops: ser_fields,
        };
        arms.push(arm);
        i = i + 1;
    }
    let write_pre_padding = gen_write_padding(pre_disc_padding);
    let write_post_padding = gen_write_padding(post_disc_padding);
    WriteCode::Union {
        pre: write_pre_padding,
        disc_type: ty,
        post: write_post_padding,
        arms,
    }
}

/// The writes for a padding gap: one run of zeros where a gap is declared,
/// nothing where none is.
pub fn gen_write_padding(padding: &Option<usize>) -> (ops: Vec<WriteOp>)
    ensures
        ops@ == crate::procedure::write_padding(*padding),
{
    let mut ops: Vec<WriteOp> = Vec::new();
    match padding {
        Some(x) => {
            ops.push(WriteOp::Zeros(*x));
        },
        None => {},
    }
    ops
}

/// The name that the field at position `i` of a shape is bound to while
/// the fields are written: its own name where fields have names, and `a`,
/// `aa`, `aaa` and so on where they are told apart by position.
pub open spec fn binder(fields: TypeShape, i: int) -> Seq<char> {
    match fields {
        TypeShape::Named(fs) => match fs@[i].name {
            Some(name) => name@,
            None => Seq::empty(),
        },
        TypeShape::Positional(_) => Seq::new((i + 1) as nat, |k: int| 'a'),
        TypeShape::Unit => Seq::empty(),
    }
}

/// The names that the fields of a shape are bound to while they are
/// written, in the order of declaration.
pub fn gen_ser_pattern(fields: &TypeShape) -> (pat: Vec<String>)
    ensures
        pat@.len() == fields.fields().len(),
        forall|i: int| 0 <= i < pat@.len() ==> (#[trigger] pat@[i])@ == binder(*fields, i),
{
    let mut pat: Vec<String> = Vec::new();
    match fields {
        TypeShape::Named(fs) => {
            let mut i: usize = 0;
            while i < fs.len()
                invariant
                    i <= fs@.len(),
                    pat@.len() == i,
                    *fields == TypeShape::Named(*fs),
                    forall|k: int| 0 <= k < i ==> (#[trigger] pat@[k])@ == binder(*fields, k),
                decreases fs@.len() - i,
            {
                let name: String = match &fs[i].name {
                    Some(name) => name.clone(),
                    None => String::new(),
                };
                pat.push(name);
                i = i + 1;
            }
        },
        TypeShape::Positional(fs) => {
            let mut index: String = String::new();
            let mut i: usize = 0;
            while i < fs.len()
                invariant
                    i <= fs@.len(),
                    pat@.len() == i,
                    *fields == TypeShape::Positional(*fs),
                    index@ == Seq::new(i as nat, |k: int| 'a'),
                    forall|k: int| 0 <= k < i ==> (#[trigger] pat@[k])@ == binder(*fields, k),
                decreases fs@.len() - i,
            {
                proof {
                    reveal_strlit("a");
                }
                index.append("a");
                pat.push(index.clone());
                i = i + 1;
            }
        },
        TypeShape::Unit => {},
    }
    pat
}

/// The names that positional fields are bound to are all different.
pub proof fn binders_differ(fields: TypeShape, i: int, j: int)
    requires
        fields is Positional,
        0 <= i < j,
    ensures
        binder(fields, i) != binder(fields, j),
{
    assert(binder(fields, i).len() != binder(fields, j).len());
}

} // verus!
