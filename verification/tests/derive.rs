use endio::attr::Attribute;
use endio::decl::{Data, Declaration, Field, Fields, Variant};
use endio::derive::deserialize::{gen_deser_code_enum, gen_deser_code_fields, gen_deser_code_struct, gen_read_padding};
use endio::derive::serialize::{
    gen_ser_code_enum, gen_ser_code_fields, gen_ser_code_struct, gen_ser_pattern, gen_write_padding,
};
use endio::derive::{add_where_clauses_enum, add_where_clauses_fields, derive_deserialize, derive_serialize};
use endio::descriptor::{
    describe, describe_shape, duplicate_discriminant, Descriptor, FieldDescriptor, TypeShape, VariantDescriptor,
};
use endio::discriminant::{first_duplicate, resolve, same_value, Resolved};
use endio::procedure::{ReadArm, ReadCode, ReadOp, WriteArm, WriteCode, WriteOp};
use endio::{FieldType, IntType, LayoutError, Registry};

const U8: FieldType = FieldType::Int(IntType::U8);
const U16: FieldType = FieldType::Int(IntType::U16);
const U32: FieldType = FieldType::Int(IntType::U32);

fn field(name: Option<&str>, ty: FieldType, padding: Option<usize>) -> Field {
    let mut attrs = Vec::new();
    if let Some(n) = padding {
        attrs.push(Attribute::name_value("padding", n));
    }
    Field { attrs, ident: name.map(|s| s.to_string()), ty }
}

fn described(name: Option<&str>, ty: FieldType, padding: Option<usize>) -> FieldDescriptor {
    FieldDescriptor { name: name.map(|s| s.to_string()), ty, padding }
}

fn at(base: i128, offset: usize) -> Resolved<i128> {
    Resolved { base, offset }
}

fn padded_union() -> Declaration {
    Declaration {
        attrs: vec![
            Attribute::name_value("pre_disc_padding", 1),
            Attribute::repr("u16"),
            Attribute::name_value("post_disc_padding", 3),
            Attribute::name_value("trailing_padding", 0),
        ],
        ident: "Example".to_string(),
        data: Data::Union(vec![
            Variant { ident: "A".to_string(), fields: Fields::Unit, discriminant: None },
            Variant {
                ident: "B".to_string(),
                fields: Fields::Named(vec![
                    field(Some("a"), U16, None),
                    field(Some("b"), FieldType::Bool, Some(1)),
                    field(Some("c"), U32, Some(0)),
                ]),
                discriminant: Some(-7),
            },
            Variant {
                ident: "C".to_string(),
                fields: Fields::Unnamed(vec![field(None, FieldType::Ref(3), Some(2))]),
                discriminant: None,
            },
        ]),
    }
}

#[test]
fn discriminants_are_numbered_from_the_last_explicit_one() {
    let resolved = resolve(&vec![None, None, Some(42i128), None], 0);
    assert_eq!(resolved, vec![at(0, 0), at(0, 1), at(42, 0), at(42, 1)]);
    let resolved = resolve(&vec![Some(5i128), Some(5), None, None, Some(-1), None], 0);
    assert_eq!(resolved, vec![at(5, 0), at(5, 0), at(5, 1), at(5, 2), at(-1, 0), at(-1, 1)]);
    assert_eq!(resolve(&Vec::<Option<i128>>::new(), 0), vec![]);
}

#[test]
fn the_base_of_a_discriminant_may_be_anything() {
    let resolved = resolve(&vec![None, Some("FIRST"), None, Some("SECOND"), None, None], "0");
    let expected = vec![
        Resolved { base: "0", offset: 0 },
        Resolved { base: "FIRST", offset: 0 },
        Resolved { base: "FIRST", offset: 1 },
        Resolved { base: "SECOND", offset: 0 },
        Resolved { base: "SECOND", offset: 1 },
        Resolved { base: "SECOND", offset: 2 },
    ];
    assert_eq!(resolved, expected);
}

#[test]
fn equal_discriminants_are_found() {
    assert!(same_value(&at(1, 2), &at(3, 0)));
    assert!(same_value(&at(-1, 1), &at(0, 0)));
    assert!(!same_value(&at(1, 2), &at(3, 1)));
    assert!(!same_value(&at(i128::MAX, 0), &at(i128::MIN, 0)));
    assert!(!same_value(&at(i128::MIN, usize::MAX), &at(i128::MAX, 0)));
    assert!(same_value(&at(i128::MAX, 1), &at(i128::MAX - 1, 2)));
    assert_eq!(first_duplicate(&vec![at(0, 0), at(0, 1), at(42, 0), at(42, 1)]), None);
    assert_eq!(first_duplicate(&vec![at(1, 0), at(0, 0), at(0, 1), at(1, 0)]), Some((0, 2)));
    assert_eq!(first_duplicate(&vec![at(3, 0), at(1, 0), at(1, 0), at(3, 0)]), Some((1, 2)));
    assert_eq!(first_duplicate(&vec![]), None);
}

#[test]
fn declarations_are_described_in_order() {
    let d = describe(&padded_union()).unwrap();
    let expected = Descriptor::Union(endio::descriptor::UnionDescriptor {
        name: "Example".to_string(),
        variants: vec![
            VariantDescriptor { name: "A".to_string(), shape: TypeShape::Unit, discriminant: at(0, 0) },
            VariantDescriptor {
                name: "B".to_string(),
                shape: TypeShape::Named(vec![
                    described(Some("a"), U16, None),
                    described(Some("b"), FieldType::Bool, Some(1)),
                    described(Some("c"), U32, Some(0)),
                ]),
                discriminant: at(-7, 0),
            },
            VariantDescriptor {
                name: "C".to_string(),
                shape: TypeShape::Positional(vec![described(None, FieldType::Ref(3), Some(2))]),
                discriminant: at(-7, 1),
            },
        ],
        disc_type: IntType::U16,
        pre_disc: Some(1),
        post_disc: Some(3),
        trailing: Some(0),
    });
    assert_eq!(d, expected);
    assert_eq!(duplicate_discriminant(&d), None);
    assert_eq!(describe_shape(&Fields::Unit), Ok(TypeShape::Unit));
    assert_eq!(describe_shape(&Fields::Named(vec![])), Ok(TypeShape::Named(vec![])));
    assert_eq!(describe_shape(&Fields::Unnamed(vec![])), Ok(TypeShape::Positional(vec![])));
}

#[test]
fn decode_procedure_reads_in_declared_order() {
    let p = derive_deserialize(&padded_union()).unwrap();
    assert_eq!(p.bounds, vec![U16, U16, FieldType::Bool, U32, FieldType::Ref(3)]);
    assert_eq!(p.trailing, vec![ReadOp::Skip(0)]);
    let expected = ReadCode::Union {
        name: "Example".to_string(),
        pre: vec![ReadOp::Skip(1)],
        disc_type: IntType::U16,
        post: vec![ReadOp::Skip(3)],
        arms: vec![
            ReadArm { discriminant: at(0, 0), ops: vec![] },
            ReadArm {
                discriminant: at(-7, 0),
                ops: vec![
                    ReadOp::Value(U16),
                    ReadOp::Skip(1),
                    ReadOp::Value(FieldType::Bool),
                    ReadOp::Skip(0),
                    ReadOp::Value(U32),
                ],
            },
            ReadArm { discriminant: at(-7, 1), ops: vec![ReadOp::Skip(2), ReadOp::Value(FieldType::Ref(3))] },
        ],
    };
    assert_eq!(p.code, expected);
    assert_eq!(endio::derive::deserialize::derive(&padded_union()), Ok(p));
}

#[test]
fn encode_procedure_writes_in_declared_order() {
    let p = derive_serialize(&padded_union()).unwrap();
    assert_eq!(p.bounds, vec![U16, U16, FieldType::Bool, U32, FieldType::Ref(3)]);
    assert_eq!(p.trailing, vec![WriteOp::Zeros(0)]);
    let expected = WriteCode::Union {
        pre: vec![WriteOp::Zeros(1)],
        disc_type: IntType::U16,
        post: vec![WriteOp::Zeros(3)],
        arms: vec![
            WriteArm { discriminant: at(0, 0), ops: vec![] },
            WriteArm {
                discriminant: at(-7, 0),
                ops: vec![
                    WriteOp::Value(U16),
                    WriteOp::Zeros(1),
                    WriteOp::Value(FieldType::Bool),
                    WriteOp::Zeros(0),
                    WriteOp::Value(U32),
                ],
            },
            WriteArm { discriminant: at(-7, 1), ops: vec![WriteOp::Zeros(2), WriteOp::Value(FieldType::Ref(3))] },
        ],
    };
    assert_eq!(p.code, expected);
    assert_eq!(endio::derive::serialize::derive(&padded_union()), Ok(p));
}

#[test]
fn record_procedures_hold_the_fields_and_the_trailing_padding() {
    let decl = Declaration {
        attrs: vec![Attribute::name_value("trailing_padding", 4), Attribute::repr("u8")],
        ident: "R".to_string(),
        data: Data::Record(Fields::Unnamed(vec![field(None, U8, Some(3)), field(None, FieldType::Address, None)])),
    };
    let d = derive_deserialize(&decl).unwrap();
    assert_eq!(d.bounds, vec![U8, FieldType::Address]);
    assert_eq!(
        d.code,
        ReadCode::Record(vec![ReadOp::Skip(3), ReadOp::Value(U8), ReadOp::Value(FieldType::Address)])
    );
    assert_eq!(d.trailing, vec![ReadOp::Skip(4)]);
    let e = derive_serialize(&decl).unwrap();
    assert_eq!(e.bounds, vec![U8, FieldType::Address]);
    assert_eq!(
        e.code,
        WriteCode::Record(vec![WriteOp::Zeros(3), WriteOp::Value(U8), WriteOp::Value(FieldType::Address)])
    );
    assert_eq!(e.trailing, vec![WriteOp::Zeros(4)]);
    let unit = Declaration { attrs: vec![], ident: "U".to_string(), data: Data::Record(Fields::Unit) };
    let d = derive_deserialize(&unit).unwrap();
    assert_eq!((d.bounds, d.code, d.trailing), (vec![], ReadCode::Record(vec![]), vec![]));
}

#[test]
fn the_parts_of_a_decode_procedure_are_made_one_by_one() {
    assert_eq!(gen_read_padding(&None), vec![]);
    assert_eq!(gen_read_padding(&Some(0)), vec![ReadOp::Skip(0)]);
    assert_eq!(gen_read_padding(&Some(9)), vec![ReadOp::Skip(9)]);
    let shape = TypeShape::Named(vec![described(Some("x"), U8, Some(2)), described(Some("y"), U16, None)]);
    let ops = vec![ReadOp::Skip(2), ReadOp::Value(U8), ReadOp::Value(U16)];
    assert_eq!(gen_deser_code_fields(&shape), ops);
    assert_eq!(gen_deser_code_fields(&TypeShape::Unit), vec![]);
    assert_eq!(gen_deser_code_struct(&shape), ReadCode::Record(ops.clone()));
    let variants = vec![VariantDescriptor { name: "V".to_string(), shape, discriminant: at(9, 1) }];
    assert_eq!(
        gen_deser_code_enum(&variants, &"E".to_string(), IntType::I8, &Some(1), &None),
        ReadCode::Union {
            name: "E".to_string(),
            pre: vec![ReadOp::Skip(1)],
            disc_type: IntType::I8,
            post: vec![],
            arms: vec![ReadArm { discriminant: at(9, 1), ops }],
        }
    );
}

#[test]
fn the_parts_of_an_encode_procedure_are_made_one_by_one() {
    assert_eq!(gen_write_padding(&None), vec![]);
    assert_eq!(gen_write_padding(&Some(0)), vec![WriteOp::Zeros(0)]);
    assert_eq!(gen_write_padding(&Some(9)), vec![WriteOp::Zeros(9)]);
    let shape = TypeShape::Positional(vec![described(None, U8, Some(2)), described(None, U16, None)]);
    let ops = vec![WriteOp::Zeros(2), WriteOp::Value(U8), WriteOp::Value(U16)];
    assert_eq!(gen_ser_code_fields(&shape), ops);
    assert_eq!(gen_ser_code_fields(&TypeShape::Unit), vec![]);
    assert_eq!(gen_ser_code_struct(&shape), WriteCode::Record(ops.clone()));
    let variants = vec![VariantDescriptor { name: "V".to_string(), shape, discriminant: at(9, 1) }];
    assert_eq!(
        gen_ser_code_enum(&variants, IntType::I8, &None, &Some(1)),
        WriteCode::Union {
            pre: vec![],
            disc_type: IntType::I8,
            post: vec![WriteOp::Zeros(1)],
            arms: vec![WriteArm { discriminant: at(9, 1), ops }],
        }
    );
}

#[test]
fn bounds_list_the_types_that_are_needed() {
    let mut bounds = vec![FieldType::Bool];
    let shape = TypeShape::Named(vec![described(Some("x"), U8, Some(2)), described(Some("y"), U16, None)]);
    add_where_clauses_fields(&mut bounds, &shape);
    assert_eq!(bounds, vec![FieldType::Bool, U8, U16]);
    add_where_clauses_fields(&mut bounds, &TypeShape::Unit);
    assert_eq!(bounds, vec![FieldType::Bool, U8, U16]);
    let variants = vec![
        VariantDescriptor { name: "A".to_string(), shape: TypeShape::Unit, discriminant: at(0, 0) },
        VariantDescriptor { name: "B".to_string(), shape, discriminant: at(0, 1) },
        VariantDescriptor {
            name: "C".to_string(),
            shape: TypeShape::Positional(vec![described(None, U32, None)]),
            discriminant: at(0, 2),
        },
    ];
    add_where_clauses_enum(&mut bounds, &variants, IntType::I64);
    assert_eq!(bounds, vec![FieldType::Bool, U8, U16, FieldType::Int(IntType::I64), U8, U16, U32]);
}

#[test]
fn refused_declarations_have_no_procedures() {
    let mut decl = padded_union();
    decl.attrs.remove(1);
    assert_eq!(derive_deserialize(&decl), Err(LayoutError::MissingDiscriminantType));
    assert_eq!(derive_serialize(&decl), Err(LayoutError::MissingDiscriminantType));
    assert_eq!(describe(&decl), Err(LayoutError::MissingDiscriminantType));
}

#[test]
fn unions_with_equal_discriminants_are_flagged() {
    let decl = Declaration {
        attrs: vec![Attribute::repr("u8")],
        ident: "Clash".to_string(),
        data: Data::Union(vec![
            Variant { ident: "A".to_string(), fields: Fields::Unit, discriminant: Some(1) },
            Variant { ident: "B".to_string(), fields: Fields::Unit, discriminant: Some(0) },
            Variant { ident: "C".to_string(), fields: Fields::Unit, discriminant: None },
        ]),
    };
    assert_eq!(duplicate_discriminant(&describe(&decl).unwrap()), Some((0, 2)));
    let record = Declaration { attrs: vec![], ident: "R".to_string(), data: Data::Record(Fields::Unit) };
    assert_eq!(duplicate_discriminant(&describe(&record).unwrap()), None);
    let mut reg = Registry::new();
    assert_eq!(reg.first_ambiguous(), None);
    assert_eq!(reg.register(&record), Ok(0));
    assert_eq!(reg.register_optional(FieldType::Ref(0)), Ok(1));
    assert_eq!(reg.first_ambiguous(), None);
    assert_eq!(reg.register(&decl), Ok(2));
    assert_eq!(reg.register(&decl), Ok(3));
    assert_eq!(reg.first_ambiguous(), Some(2));
}

#[test]
fn fields_are_bound_to_names_that_differ() {
    let named = TypeShape::Named(vec![described(Some("x"), U8, Some(2)), described(Some("y"), U16, None)]);
    assert_eq!(gen_ser_pattern(&named), vec!["x".to_string(), "y".to_string()]);
    let positional =
        TypeShape::Positional(vec![described(None, U8, None), described(None, U8, None), described(None, U8, None)]);
    assert_eq!(gen_ser_pattern(&positional), vec!["a".to_string(), "aa".to_string(), "aaa".to_string()]);
    assert_eq!(gen_ser_pattern(&TypeShape::Unit), Vec::<String>::new());
}
