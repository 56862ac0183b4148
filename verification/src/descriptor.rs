//! Descriptors: what a declaration comes to once its annotations are read.
//! A descriptor is made once and never changed; the order of its fields is
//! the order of declaration.

use crate::attr::{
    get_enum_type,
    get_field_padding,
    get_post_disc_padding,
    get_pre_disc_padding,
    get_trailing_padding,
};
use crate::decl::{Data, Declaration, Field, Fields, Variant};
use crate::discriminant::{resolve, Discriminant, Resolved};
use crate::error::LayoutError;
use crate::schema::{FieldType, IntType};
use vstd::prelude::*;

verus! {

/// One field: its type and the padding gap before it.
#[derive(Debug, PartialEq, Eq)]
pub struct FieldDescriptor {
    /// The field's name, where fields are named.
    pub name: Option<String>,
    /// The field's type.
    pub ty: FieldType,
    /// The number of padding bytes before the field, if any are declared.
    pub padding: Option<usize>,
}

/// The fields of a record or of a variant.
#[derive(Debug, PartialEq, Eq)]
pub enum TypeShape {
    /// No fields.
    Unit,
    /// Fields told apart by position.
    Positional(Vec<FieldDescriptor>),
    /// Fields with names.
    Named(Vec<FieldDescriptor>),
}

impl TypeShape {
    /// The fields in order; none for a unit shape.
    pub open spec fn fields(self) -> Seq<FieldDescriptor> {
        match self {
            TypeShape::Unit => Seq::empty(),
            TypeShape::Positional(fields) => fields@,
            TypeShape::Named(fields) => fields@,
        }
    }
}

/// One variant of a union, with its discriminant resolved.
#[derive(Debug, PartialEq, Eq)]
pub struct VariantDescriptor {
    /// The variant's name.
    pub name: String,
    /// The variant's own fields.
    pub shape: TypeShape,
    /// The variant's discriminant.
    pub discriminant: Discriminant,
}

/// A record: fields, then trailing padding.
#[derive(Debug, PartialEq, Eq)]
pub struct RecordDescriptor {
    /// The record's name.
    pub name: String,
    /// The record's fields.
    pub shape: TypeShape,
    /// The number of padding bytes after the last field, if any are
    /// declared.
    pub trailing: Option<usize>,
}

/// A union: padding, the discriminant, padding, the fields of the variant
/// chosen, then trailing padding.
#[derive(Debug, PartialEq, Eq)]
pub struct UnionDescriptor {
    /// The union's name.
    pub name: String,
    /// The variants in the order of declaration.
    pub variants: Vec<VariantDescriptor>,
    /// The integer type that holds the discriminant on the wire.
    pub disc_type: IntType,
    /// The padding before the discriminant.
    pub pre_disc: Option<usize>,
    /// The padding after the discriminant.
    pub post_disc: Option<usize>,
    /// The padding after the fields of the variant chosen. It comes once,
    /// whichever the variant.
    pub trailing: Option<usize>,
}

/// The descriptor of a declared type.
#[derive(Debug, PartialEq, Eq)]
pub enum Descriptor {
    Record(RecordDescriptor),
    Union(UnionDescriptor),
}

/// The error in a result, if it is one.
pub open spec fn err_of<T>(r: Result<T, LayoutError>) -> Option<LayoutError> {
    match r {
        Ok(_) => None,
        Err(e) => Some(e),
    }
}

/// The first of two findings: `a` where it is one, else `b`.
pub open spec fn first_of(a: Option<LayoutError>, b: Option<LayoutError>) -> Option<LayoutError> {
    if a is Some {
        a
    } else {
        b
    }
}

/// Whether `d` describes the field `f`: same name, same type, and the
/// padding that the field's annotations give.
pub open spec fn describes_field(f: Field, d: FieldDescriptor) -> bool {
    &&& d.name == f.ident
    &&& d.ty == f.ty
    &&& crate::attr::padding_named(f.attrs@, "padding"@) == Ok::<Option<usize>, LayoutError>(
        d.padding,
    )
}

/// Whether `ds` describes the fields `fs`, one by one and in order.
pub open spec fn describes_fields(fs: Seq<Field>, ds: Seq<FieldDescriptor>) -> bool {
    &&& ds.len() == fs.len()
    &&& forall|i: int| 0 <= i < fs.len() ==> describes_field(fs[i], #[trigger] ds[i])
}

/// Whether `shape` describes `fields`: the same kind, and the same fields
/// in the same order.
pub open spec fn describes_shape(fields: Fields, shape: TypeShape) -> bool {
    match (fields, shape) {
        (Fields::Unit, TypeShape::Unit) => true,
        (Fields::Unnamed(fs), TypeShape::Positional(ds)) => describes_fields(fs@, ds@),
        (Fields::Named(fs), TypeShape::Named(ds)) => describes_fields(fs@, ds@),
        _ => false,
    }
}

/// What is wrong with the first field whose padding annotation is
/// refused, if any is.
pub open spec fn fields_error(fs: Seq<Field>) -> Option<LayoutError>
    decreases fs.len(),
{
    if fs.len() == 0 {
        None
    } else {
        first_of(
            err_of(crate::attr::padding_named(fs[0].attrs@, "padding"@)),
            fields_error(fs.drop_first()),
        )
    }
}

/// What is wrong with the fields of a record or variant, if anything.
pub open spec fn shape_error(fields: Fields) -> Option<LayoutError> {
    match fields {
        Fields::Unit => None,
        Fields::Unnamed(fs) => fields_error(fs@),
        Fields::Named(fs) => fields_error(fs@),
    }
}

/// What is wrong with the first variant whose fields are refused, if any
/// is.
pub open spec fn variants_error(vs: Seq<Variant>) -> Option<LayoutError>
    decreases vs.len(),
{
    if vs.len() == 0 {
        None
    } else {
        first_of(shape_error(vs[0].fields), variants_error(vs.drop_first()))
    }
}

/// The explicit discriminants of the variants, in order.
pub open spec fn overrides_of(vs: Seq<Variant>) -> Seq<Option<i128>> {
    Seq::new(vs.len(), |i: int| vs[i].discriminant)
}

/// Whether `d` describes the variant at position `i` of `vs`: same name,
/// same fields, and the discriminant that the numbering rule gives it.
pub open spec fn describes_variant(vs: Seq<Variant>, i: int, d: VariantDescriptor) -> bool {
    &&& d.name == vs[i].ident
    &&& describes_shape(vs[i].fields, d.shape)
    &&& d.discriminant == crate::discriminant::resolved_at(overrides_of(vs), 0i128, i)
}

/// Whether `ds` describes the variants `vs`, one by one and in order.
pub open spec fn describes_variants(vs: Seq<Variant>, ds: Seq<VariantDescriptor>) -> bool {
    &&& ds.len() == vs.len()
    &&& forall|i: int| 0 <= i < vs.len() ==> describes_variant(vs, i, #[trigger] ds[i])
}

/// The discriminant type that a union's annotations give: the `repr`
/// annotation must name a fixed-width integer type.
pub open spec fn disc_type_of(attrs: Seq<crate::attr::Attribute>) -> Result<IntType, LayoutError> {
    match crate::attr::repr_ident(attrs) {
        Err(e) => Err(e),
        Ok(name) => match IntType::named(name@) {
            Some(t) => Ok(t),
            None => Err(LayoutError::UnsupportedDiscriminantType),
        },
    }
}

/// What is wrong with a declaration, if anything: the first finding, in
/// this order. For a record: its fields in order, then its trailing
/// padding. For a union: its discriminant type, the padding before and
/// after the discriminant, the fields of its variants in order, then its
/// trailing padding.
pub open spec fn declaration_error(input: Declaration) -> Option<LayoutError> {
    let trailing = err_of(crate::attr::padding_named(input.attrs@, "trailing_padding"@));
    match input.data {
        Data::Record(fields) => first_of(shape_error(fields), trailing),
        Data::Union(vs) => first_of(
            err_of(disc_type_of(input.attrs@)),
            first_of(
                err_of(crate::attr::padding_named(input.attrs@, "pre_disc_padding"@)),
                first_of(
                    err_of(crate::attr::padding_named(input.attrs@, "post_disc_padding"@)),
                    first_of(variants_error(vs@), trailing),
                ),
            ),
        ),
    }
}

/// Whether `d` is the descriptor of the declaration `input`.
pub open spec fn describes(input: Declaration, d: Descriptor) -> bool {
    match (input.data, d) {
        (Data::Record(fields), Descriptor::Record(r)) => {
            &&& r.name == input.ident
            &&& describes_shape(fields, r.shape)
            &&& crate::attr::padding_named(input.attrs@, "trailing_padding"@) == Ok::<
                Option<usize>,
                LayoutError,
            >(r.trailing)
        },
        (Data::Union(vs), Descriptor::Union(u)) => {
            &&& u.name == input.ident
            &&& describes_variants(vs@, u.variants@)
            &&& disc_type_of(input.attrs@) == Ok::<IntType, LayoutError>(u.disc_type)
            &&& crate::attr::padding_named(input.attrs@, "pre_disc_padding"@) == Ok::<
                Option<usize>,
                LayoutError,
            >(u.pre_disc)
            &&& crate::attr::padding_named(input.attrs@, "post_disc_padding"@) == Ok::<
                Option<usize>,
                LayoutError,
            >(u.post_disc)
            &&& crate::attr::padding_named(input.attrs@, "trailing_padding"@) == Ok::<
                Option<usize>,
                LayoutError,
            >(u.trailing)
        },
        _ => false,
    }
}

/// A copy of an optional name.
fn copy_name(name: &Option<String>) -> (r: Option<String>)
    ensures
        r == *name,
{
    match name {
        Some(s) => Some(s.clone()),
        None => None,
    }
}

/// Describes a list of fields: reads each field's padding annotation.
fn describe_field_list(fs: &Vec<Field>) -> (r: Result<Vec<FieldDescriptor>, LayoutError>)
    ensures
        match r {
            Ok(ds) => fields_error(fs@) is None && describes_fields(fs@, ds@),
            Err(e) => fields_error(fs@) == Some(e),
        },
{
    let mut out: Vec<FieldDescriptor> = Vec::new();
    let mut i: usize = 0;
    assert(fs@.skip(0) =~= fs@);
    while i < fs.len()
        invariant
            i <= fs@.len(),
            out@.len() == i,
            fields_error(fs@) == fields_error(fs@.skip(i as int)),
            forall|k: int| 0 <= k < i ==> describes_field(fs@[k], #[trigger] out@[k]),
        decreases fs@.len() - i,
    {
        let f = &fs[i];
        proof {
            assert(fs@.skip(i as int).drop_first() =~= fs@.skip(i + 1));
        }
        let padding = get_field_padding(&f.attrs)?;
        out.push(FieldDescriptor { name: copy_name(&f.ident), ty: f.ty, padding });
        i = i + 1;
    }
    Ok(out)
}

/// Describes the fields of a record or variant.
pub fn describe_shape(fields: &Fields) -> (r: Result<TypeShape, LayoutError>)
    ensures
        match r {
            Ok(shape) => shape_error(*fields) is None && describes_shape(*fields, shape),
            Err(e) => shape_error(*fields) == Some(e),
        },
{
    match fields {
        Fields::Unit => Ok(TypeShape::Unit),
        Fields::Unnamed(fs) => Ok(TypeShape::Positional(describe_field_list(fs)?)),
        Fields::Named(fs) => Ok(TypeShape::Named(describe_field_list(fs)?)),
    }
}

/// The discriminant type that a union's annotations give.
pub fn discriminant_type(attrs: &Vec<crate::attr::Attribute>) -> (r: Result<IntType, LayoutError>)
    ensures
        r == disc_type_of(attrs@),
{
    let name: String = get_enum_type(attrs)?;
    match IntType::from_name(name.as_str()) {
        Some(t) => Ok(t),
        None => Err(LayoutError::UnsupportedDiscriminantType),
    }
}

/// Describes the variants of a union and numbers them.
fn describe_variants(vs: &Vec<Variant>) -> (r: Result<Vec<VariantDescriptor>, LayoutError>)
    ensures
        match r {
            Ok(ds) => variants_error(vs@) is None && describes_variants(vs@, ds@),
            Err(e) => variants_error(vs@) == Some(e),
        },
{
    let mut overrides: Vec<Option<i128>> = Vec::new();
    let mut k: usize = 0;
    while k < vs.len()
        invariant
            k <= vs@.len(),
            overrides@.len() == k,
            forall|j: int| 0 <= j < k ==> overrides@[j] == vs@[j].discriminant,
        decreases vs@.len() - k,
    {
        overrides.push(vs[k].discriminant);
        k = k + 1;
    }
    assert(overrides@ =~= overrides_of(vs@));
    let discriminants: Vec<Discriminant> = resolve(&overrides, 0i128);
    let mut out: Vec<VariantDescriptor> = Vec::new();
    let mut i: usize = 0;
    assert(vs@.skip(0) =~= vs@);
    while i < vs.len()
        invariant
            i <= vs@.len(),
            out@.len() == i,
            discriminants@.len() == vs@.len(),
            forall|j: int|
                0 <= j < vs@.len() ==> discriminants@[j] == crate::discriminant::resolved_at(
                    overrides_of(vs@),
                    0i128,
                    j,
                ),
            variants_error(vs@) == variants_error(vs@.skip(i as int)),
            forall|j: int| 0 <= j < i ==> describes_variant(vs@, j, #[trigger] out@[j]),
        decreases vs@.len() - i,
    {
        let v = &vs[i];
        proof {
            assert(vs@.skip(i as int).drop_first() =~= vs@.skip(i + 1));
        }
        let shape = describe_shape(&v.fields)?;
        let d = &discriminants[i];
        out.push(
            VariantDescriptor {
                name: v.ident.clone(),
                shape,
                discriminant: Resolved { base: d.base, offset: d.offset },
            },
        );
        i = i + 1;
    }
    Ok(out)
}

/// Makes the descriptor of a declaration: reads the annotations, keeps
/// the fields in the order of declaration and numbers the variants of a
/// union. A declaration with a fault in it is refused, with the first
/// fault found (see [`declaration_error`]); the types of the fields are not
/// looked into here.
pub fn describe(input: &Declaration) -> (r: Result<Descriptor, LayoutError>)
    ensures
        match r {
            Ok(d) => declaration_error(*input) is None && describes(*input, d),
            Err(e) => declaration_error(*input) == Some(e),
        },
{
    match &input.data {
        Data::Record(fields) => {
            let shape = describe_shape(fields)?;
            let trailing = get_trailing_padding(&input.attrs)?;
            Ok(Descriptor::Record(RecordDescriptor { name: input.ident.clone(), shape, trailing }))
        },
        Data::Union(vs) => {
            let disc_type = discriminant_type(&input.attrs)?;
            let pre_disc = get_pre_disc_padding(&input.attrs)?;
            let post_disc = get_post_disc_padding(&input.attrs)?;
            let variants = describe_variants(vs)?;
            let trailing = get_trailing_padding(&input.attrs)?;
            Ok(
                Descriptor::Union(
                    UnionDescriptor {
                        name: input.ident.clone(),
                        variants,
                        disc_type,
                        pre_disc,
                        post_disc,
                        trailing,
                    },
                ),
            )
        },
    }
}

/// The discriminants of the variants, in order.
pub open spec fn discriminants_of(vs: Seq<VariantDescriptor>) -> Seq<Discriminant> {
    Seq::new(vs.len(), |i: int| vs[i].discriminant)
}

/// The first variant of a union whose discriminant is that of a variant
/// before it, with the first variant that has that discriminant. Such a
/// variant can be written but is never read back: its bytes are read as
/// the earlier variant. `None` for a record and for a union whose
/// discriminants all differ.
pub fn duplicate_discriminant(descriptor: &Descriptor) -> (r: Option<(usize, usize)>)
    ensures
        match (*descriptor, r) {
            (Descriptor::Record(_), r) => r is None,
            (Descriptor::Union(u), Some((i, j))) => {
                let ds = discriminants_of(u.variants@);
                &&& i < j < ds.len()
                &&& ds[i as int].value() == ds[j as int].value()
                &&& forall|q: int| 0 <= q < i ==> (#[trigger] ds[q]).value() != ds[j as int].value()
                &&& forall|q: int| 0 <= q < j ==> !crate::discriminant::shadowed(ds, q)
            },
            (Descriptor::Union(u), None) => forall|q: int|
                0 <= q < u.variants@.len() ==> !crate::discriminant::shadowed(
                    discriminants_of(u.variants@),
                    q,
                ),
        },
{
    match descriptor {
        Descriptor::Record(_) => None,
        Descriptor::Union(u) => {
            let mut ds: Vec<Discriminant> = Vec::new();
            let mut k: usize = 0;
            while k < u.variants.len()
                invariant
                    k <= u.variants@.len(),
                    ds@.len() == k,
                    forall|q: int| 0 <= q < k ==> ds@[q] == u.variants@[q].discriminant,
                decreases u.variants@.len() - k,
            {
                let d = &u.variants[k].discriminant;
                ds.push(Resolved { base: d.base, offset: d.offset });
                k = k + 1;
            }
            assert(ds@ =~= discriminants_of(u.variants@));
            crate::discriminant::first_duplicate(&ds)
        },
    }
}

} // verus!
