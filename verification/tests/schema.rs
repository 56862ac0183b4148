use endio::attr::{Attribute, Lit, Meta, NestedMeta, Path};
use endio::decl::{Data, Declaration, Field, Fields, Variant};
use endio::{ByteOrder, Error, FieldType, IntType, LayoutError, Number, Reader, Registry, Value, Writer};

fn field(name: Option<&str>, ty: FieldType, padding: Option<usize>) -> Field {
    let mut attrs = Vec::new();
    if let Some(n) = padding {
        attrs.push(Attribute::name_value("padding", n));
    }
    Field { attrs, ident: name.map(|s| s.to_string()), ty }
}

fn unit_variant(name: &str, discriminant: Option<i128>) -> Variant {
    Variant { ident: name.to_string(), fields: Fields::Unit, discriminant }
}

fn example_record() -> Declaration {
    Declaration {
        attrs: vec![],
        ident: "Example".to_string(),
        data: Data::Record(Fields::Named(vec![
            field(Some("a"), FieldType::Int(IntType::U16), None),
            field(Some("b"), FieldType::Bool, None),
            field(Some("c"), FieldType::Int(IntType::U32), None),
        ])),
    }
}

fn numbered_union() -> Declaration {
    Declaration {
        attrs: vec![Attribute::repr("u16")],
        ident: "Example".to_string(),
        data: Data::Union(vec![
            unit_variant("A", None),
            unit_variant("B", None),
            unit_variant("C", Some(42)),
            unit_variant("D", None),
        ]),
    }
}

fn u(n: u128) -> Value {
    Value::Int(Number::Unsigned(n))
}

fn decode_all(reg: &Registry, ty: FieldType, bytes: &[u8], order: ByteOrder) -> Result<Value, Error> {
    let mut reader = Reader::new(bytes);
    let v = reg.decode(ty, &mut reader, order)?;
    assert_eq!(reader.remaining(), 0);
    Ok(v)
}

fn encode_all(reg: &Registry, ty: FieldType, value: &Value, order: ByteOrder) -> Vec<u8> {
    let mut writer = Writer::new();
    reg.encode(ty, value, &mut writer, order).unwrap();
    writer.into_bytes()
}

#[test]
fn record_decodes_fields_in_order() {
    let mut reg = Registry::new();
    let id = reg.register(&example_record()).unwrap();
    assert_eq!(id, 0);
    let bytes = b"\xba\xad\x01\xba\xad\xf0\x0d";
    let le = decode_all(&reg, FieldType::Ref(id), bytes, ByteOrder::Little).unwrap();
    assert_eq!(le, Value::Record(vec![u(0xadba), Value::Bool(true), u(0x0df0adba)]));
    let be = decode_all(&reg, FieldType::Ref(id), bytes, ByteOrder::Big).unwrap();
    assert_eq!(be, Value::Record(vec![u(0xbaad), Value::Bool(true), u(0xbaadf00d)]));
}

#[test]
fn record_encodes_fields_in_order() {
    let mut reg = Registry::new();
    let id = reg.register(&example_record()).unwrap();
    let le = Value::Record(vec![u(0xadba), Value::Bool(true), u(0x0df0adba)]);
    assert_eq!(encode_all(&reg, FieldType::Ref(id), &le, ByteOrder::Little), b"\xba\xad\x01\xba\xad\xf0\x0d");
    let be = Value::Record(vec![u(0xbaad), Value::Bool(true), u(0xbaadf00d)]);
    assert_eq!(encode_all(&reg, FieldType::Ref(id), &be, ByteOrder::Big), b"\xba\xad\x01\xba\xad\xf0\x0d");
}

#[test]
fn unit_record_takes_no_bytes() {
    let mut reg = Registry::new();
    let decl = Declaration { attrs: vec![], ident: "Example".to_string(), data: Data::Record(Fields::Unit) };
    let id = reg.register(&decl).unwrap();
    assert_eq!(decode_all(&reg, FieldType::Ref(id), b"", ByteOrder::Little).unwrap(), Value::Record(vec![]));
    assert_eq!(encode_all(&reg, FieldType::Ref(id), &Value::Record(vec![]), ByteOrder::Big), b"");
}

#[test]
fn discriminants_count_up_from_the_last_explicit_one() {
    let mut reg = Registry::new();
    let id = reg.register(&numbered_union()).unwrap();
    let ty = FieldType::Ref(id);
    let mut reader = Reader::new(b"\x00\x00\x01\x00\x2a\x00\x2b\x00\x2c\x00");
    assert_eq!(reg.decode(ty, &mut reader, ByteOrder::Little).unwrap(), Value::Variant(0, vec![]));
    assert_eq!(reg.decode(ty, &mut reader, ByteOrder::Little).unwrap(), Value::Variant(1, vec![]));
    assert_eq!(reg.decode(ty, &mut reader, ByteOrder::Little).unwrap(), Value::Variant(2, vec![]));
    assert_eq!(reg.decode(ty, &mut reader, ByteOrder::Little).unwrap(), Value::Variant(3, vec![]));
    assert_eq!(
        reg.decode(ty, &mut reader, ByteOrder::Little),
        Err(Error::InvalidDiscriminant { name: "Example".to_string(), value: Number::Unsigned(44) })
    );
    let mut reader = Reader::new(b"\x00\x00\x00\x01\x00\x2a\x00\x2b\x00\x2c");
    assert_eq!(reg.decode(ty, &mut reader, ByteOrder::Big).unwrap(), Value::Variant(0, vec![]));
    assert_eq!(reg.decode(ty, &mut reader, ByteOrder::Big).unwrap(), Value::Variant(1, vec![]));
    assert_eq!(reg.decode(ty, &mut reader, ByteOrder::Big).unwrap(), Value::Variant(2, vec![]));
    assert_eq!(reg.decode(ty, &mut reader, ByteOrder::Big).unwrap(), Value::Variant(3, vec![]));
    assert!(reg.decode(ty, &mut reader, ByteOrder::Big).is_err());
}

#[test]
fn discriminant_one_is_b_and_forty_three_is_d() {
    let mut reg = Registry::new();
    let id = reg.register(&numbered_union()).unwrap();
    let ty = FieldType::Ref(id);
    assert_eq!(decode_all(&reg, ty, &1u16.to_le_bytes(), ByteOrder::Little).unwrap(), Value::Variant(1, vec![]));
    assert_eq!(decode_all(&reg, ty, &43u16.to_le_bytes(), ByteOrder::Little).unwrap(), Value::Variant(3, vec![]));
    for value in (2u16..42).chain(44..300).chain([0xffff, 0x2a00, 0x0100]) {
        let r = decode_all(&reg, ty, &value.to_le_bytes(), ByteOrder::Little);
        assert_eq!(
            r,
            Err(Error::InvalidDiscriminant {
                name: "Example".to_string(),
                value: Number::Unsigned(value as u128)
            })
        );
    }
}

#[test]
fn union_writes_its_discriminant() {
    let mut reg = Registry::new();
    let id = reg.register(&numbered_union()).unwrap();
    let ty = FieldType::Ref(id);
    let mut writer = Writer::new();
    for k in 0..4 {
        reg.encode(ty, &Value::Variant(k, vec![]), &mut writer, ByteOrder::Little).unwrap();
    }
    assert_eq!(writer.bytes(), b"\x00\x00\x01\x00\x2a\x00\x2b\x00");
    let mut writer = Writer::new();
    for k in 0..4 {
        reg.encode(ty, &Value::Variant(k, vec![]), &mut writer, ByteOrder::Big).unwrap();
    }
    assert_eq!(writer.bytes(), b"\x00\x00\x00\x01\x00\x2a\x00\x2b");
}

fn union_with_payloads() -> Declaration {
    Declaration {
        attrs: vec![Attribute::repr("u16")],
        ident: "Example".to_string(),
        data: Data::Union(vec![
            unit_variant("A", None),
            Variant {
                ident: "B".to_string(),
                fields: Fields::Unnamed(vec![field(None, FieldType::Int(IntType::U8), None)]),
                discriminant: None,
            },
            Variant {
                ident: "C".to_string(),
                fields: Fields::Named(vec![
                    field(Some("a"), FieldType::Int(IntType::U16), None),
                    field(Some("b"), FieldType::Bool, None),
                    field(Some("c"), FieldType::Int(IntType::U32), None),
                ]),
                discriminant: None,
            },
            Variant {
                ident: "D".to_string(),
                fields: Fields::Unnamed(vec![field(None, FieldType::Int(IntType::U32), None)]),
                discriminant: None,
            },
        ]),
    }
}

#[test]
fn variant_carries_its_fields() {
    let mut reg = Registry::new();
    let id = reg.register(&union_with_payloads()).unwrap();
    let ty = FieldType::Ref(id);
    let le = Value::Variant(2, vec![u(0xadba), Value::Bool(true), u(0x0df0adba)]);
    assert_eq!(decode_all(&reg, ty, b"\x02\x00\xba\xad\x01\xba\xad\xf0\x0d", ByteOrder::Little).unwrap(), le);
    assert_eq!(encode_all(&reg, ty, &le, ByteOrder::Little), b"\x02\x00\xba\xad\x01\xba\xad\xf0\x0d");
    let be = Value::Variant(2, vec![u(0xbaad), Value::Bool(true), u(0xbaadf00d)]);
    assert_eq!(decode_all(&reg, ty, b"\x00\x02\xba\xad\x01\xba\xad\xf0\x0d", ByteOrder::Big).unwrap(), be);
    assert_eq!(encode_all(&reg, ty, &be, ByteOrder::Big), b"\x00\x02\xba\xad\x01\xba\xad\xf0\x0d");
}

fn padded_union(pre: Option<usize>) -> Declaration {
    let mut attrs = Vec::new();
    if let Some(n) = pre {
        attrs.push(Attribute::name_value("pre_disc_padding", n));
    }
    attrs.push(Attribute::repr("u16"));
    attrs.push(Attribute::name_value("post_disc_padding", 3));
    attrs.push(Attribute::name_value("trailing_padding", 1));
    Declaration {
        attrs,
        ident: "Example".to_string(),
        data: Data::Union(vec![Variant {
            ident: "A".to_string(),
            fields: Fields::Named(vec![
                field(Some("a"), FieldType::Int(IntType::U16), None),
                field(Some("b"), FieldType::Bool, Some(1)),
                field(Some("c"), FieldType::Int(IntType::U32), Some(1)),
            ]),
            discriminant: None,
        }]),
    }
}

#[test]
fn padding_is_skipped_on_read() {
    let mut reg = Registry::new();
    let id = reg.register(&padded_union(Some(1))).unwrap();
    let bytes = b"\xff\x00\x00\xff\xff\xff\xba\xad\xff\x01\xff\xba\xad\xf0\x0d\xff";
    let v = decode_all(&reg, FieldType::Ref(id), bytes, ByteOrder::Little).unwrap();
    assert_eq!(v, Value::Variant(0, vec![u(0xadba), Value::Bool(true), u(0x0df0adba)]));
}

#[test]
fn padding_is_written_as_zeros() {
    let mut reg = Registry::new();
    let id = reg.register(&padded_union(None)).unwrap();
    let v = Value::Variant(0, vec![u(0xadba), Value::Bool(true), u(0x0df0adba)]);
    assert_eq!(
        encode_all(&reg, FieldType::Ref(id), &v, ByteOrder::Little),
        b"\x00\x00\x00\x00\x00\xba\xad\x00\x01\x00\xba\xad\xf0\x0d\x00"
    );
}

#[test]
fn leading_pad_is_ignored_and_zero_filled() {
    let mut reg = Registry::new();
    let decl = Declaration {
        attrs: vec![],
        ident: "Padded".to_string(),
        data: Data::Record(Fields::Unnamed(vec![field(None, FieldType::Int(IntType::U32), Some(1))])),
    };
    let id = reg.register(&decl).unwrap();
    let v = decode_all(&reg, FieldType::Ref(id), b"\xff\x0d\xf0\xad\xba", ByteOrder::Little).unwrap();
    assert_eq!(v, Value::Record(vec![u(0xbaadf00d)]));
    assert_eq!(encode_all(&reg, FieldType::Ref(id), &v, ByteOrder::Little), b"\x00\x0d\xf0\xad\xba");
}

#[test]
fn short_read_in_padding_is_fatal() {
    let mut reg = Registry::new();
    let decl = Declaration {
        attrs: vec![Attribute::name_value("trailing_padding", 2)],
        ident: "Padded".to_string(),
        data: Data::Record(Fields::Unnamed(vec![field(None, FieldType::Int(IntType::U8), None)])),
    };
    let id = reg.register(&decl).unwrap();
    let mut reader = Reader::new(b"\x07\x00");
    assert_eq!(reg.decode(FieldType::Ref(id), &mut reader, ByteOrder::Big), Err(Error::ShortRead));
    let mut reader = Reader::new(b"\x07\x00\x00");
    assert_eq!(reg.decode(FieldType::Ref(id), &mut reader, ByteOrder::Big), Ok(Value::Record(vec![u(7)])));
}

#[test]
fn zero_padding_is_no_padding() {
    let mut reg = Registry::new();
    let absent = Declaration {
        attrs: vec![],
        ident: "P".to_string(),
        data: Data::Record(Fields::Unnamed(vec![
            field(None, FieldType::Int(IntType::U16), None),
            field(None, FieldType::Bool, None),
        ])),
    };
    let zero = Declaration {
        attrs: vec![Attribute::name_value("trailing_padding", 0)],
        ident: "P".to_string(),
        data: Data::Record(Fields::Unnamed(vec![
            field(None, FieldType::Int(IntType::U16), Some(0)),
            field(None, FieldType::Bool, Some(0)),
        ])),
    };
    let a = reg.register(&absent).unwrap();
    let z = reg.register(&zero).unwrap();
    let v = Value::Record(vec![u(0x1234), Value::Bool(false)]);
    for order in [ByteOrder::Big, ByteOrder::Little] {
        let x = encode_all(&reg, FieldType::Ref(a), &v, order);
        let y = encode_all(&reg, FieldType::Ref(z), &v, order);
        assert_eq!(x, y);
        assert_eq!(x.len(), 3);
        assert_eq!(decode_all(&reg, FieldType::Ref(z), &x, order).unwrap(), v);
    }
}

#[test]
fn swapping_fields_swaps_their_bytes() {
    let mut reg = Registry::new();
    let ab = Declaration {
        attrs: vec![],
        ident: "AB".to_string(),
        data: Data::Record(Fields::Unnamed(vec![
            field(None, FieldType::Int(IntType::U8), None),
            field(None, FieldType::Int(IntType::U16), None),
        ])),
    };
    let ba = Declaration {
        attrs: vec![],
        ident: "BA".to_string(),
        data: Data::Record(Fields::Unnamed(vec![
            field(None, FieldType::Int(IntType::U16), None),
            field(None, FieldType::Int(IntType::U8), None),
        ])),
    };
    let ab = reg.register(&ab).unwrap();
    let ba = reg.register(&ba).unwrap();
    let x = encode_all(&reg, FieldType::Ref(ab), &Value::Record(vec![u(0x11), u(0x2233)]), ByteOrder::Big);
    let y = encode_all(&reg, FieldType::Ref(ba), &Value::Record(vec![u(0x2233), u(0x11)]), ByteOrder::Big);
    assert_eq!(x, b"\x11\x22\x33");
    assert_eq!(y, b"\x22\x33\x11");
}

#[test]
fn round_trip_of_nested_types_in_both_orders() {
    let mut reg = Registry::new();
    let inner = reg.register(&example_record()).unwrap();
    let maybe = reg.register_optional(FieldType::Ref(inner)).unwrap();
    let outer = Declaration {
        attrs: vec![Attribute::repr("i8"), Attribute::name_value("trailing_padding", 2)],
        ident: "Outer".to_string(),
        data: Data::Union(vec![
            unit_variant("Nothing", Some(-2)),
            Variant {
                ident: "Something".to_string(),
                fields: Fields::Unnamed(vec![
                    field(None, FieldType::Ref(maybe), Some(1)),
                    field(None, FieldType::Address, None),
                    field(None, FieldType::Int(IntType::I64), None),
                ]),
                discriminant: None,
            },
        ]),
    };
    let outer = reg.register(&outer).unwrap();
    let record = Value::Record(vec![u(0x0102), Value::Bool(false), u(0x03040506)]);
    let values = [
        Value::Variant(0, vec![]),
        Value::Variant(
            1,
            vec![Value::Optional(None), Value::Address([10, 0, 0, 1]), Value::Int(Number::Signed(-3))],
        ),
        Value::Variant(
            1,
            vec![
                Value::Optional(Some(Box::new(record))),
                Value::Address([192, 168, 1, 1]),
                Value::Int(Number::Signed(i64::MIN as i128)),
            ],
        ),
    ];
    for v in &values {
        let be = encode_all(&reg, FieldType::Ref(outer), v, ByteOrder::Big);
        let le = encode_all(&reg, FieldType::Ref(outer), v, ByteOrder::Little);
        assert_eq!(&decode_all(&reg, FieldType::Ref(outer), &be, ByteOrder::Big).unwrap(), v);
        assert_eq!(&decode_all(&reg, FieldType::Ref(outer), &le, ByteOrder::Little).unwrap(), v);
        assert_eq!(be.len(), le.len());
    }
    let be = encode_all(&reg, FieldType::Ref(outer), &values[2], ByteOrder::Big);
    let le = encode_all(&reg, FieldType::Ref(outer), &values[2], ByteOrder::Little);
    assert_eq!(
        be,
        b"\xff\x00\x01\x01\x02\x00\x03\x04\x05\x06\xc0\xa8\x01\x01\x80\x00\x00\x00\x00\x00\x00\x00\x00\x00"
    );
    assert_eq!(
        le,
        b"\xff\x00\x01\x02\x01\x00\x06\x05\x04\x03\xc0\xa8\x01\x01\x00\x00\x00\x00\x00\x00\x00\x80\x00\x00"
    );
    assert_ne!(be, le);
}

#[test]
fn first_matching_variant_wins() {
    let mut reg = Registry::new();
    let decl = Declaration {
        attrs: vec![Attribute::repr("u8")],
        ident: "Clash".to_string(),
        data: Data::Union(vec![
            unit_variant("A", Some(1)),
            unit_variant("B", Some(0)),
            unit_variant("C", None),
        ]),
    };
    let id = reg.register(&decl).unwrap();
    let bytes = encode_all(&reg, FieldType::Ref(id), &Value::Variant(2, vec![]), ByteOrder::Big);
    assert_eq!(bytes, b"\x01");
    assert_eq!(decode_all(&reg, FieldType::Ref(id), &bytes, ByteOrder::Big).unwrap(), Value::Variant(0, vec![]));
}

#[test]
fn union_without_discriminant_type_is_refused() {
    let mut reg = Registry::new();
    let mut decl = numbered_union();
    decl.attrs.clear();
    assert_eq!(reg.register(&decl), Err(LayoutError::MissingDiscriminantType));
    assert_eq!(reg.len(), 0);
}

#[test]
fn repr_annotations_are_read_as_declared() {
    let named = |path: Path, meta: Option<Meta>| Attribute { path, meta };
    let list = |items: Vec<NestedMeta>| Some(Meta::List(items));
    let p = |s: &str| NestedMeta::Path(Path::ident(s));
    let mut decl = numbered_union();

    decl.attrs = vec![named(Path::ident("repr"), list(vec![p("C"), p("transparent"), NestedMeta::Lit, NestedMeta::Meta, p("u8")]))];
    assert_eq!(endio::attr::get_enum_type(&decl.attrs), Ok("u8".to_string()));

    decl.attrs = vec![
        named(Path::ident("doc"), None),
        named(Path::ident("repr"), list(vec![p("C")])),
        named(Path::ident("repr"), Some(Meta::Path)),
        named(Path::ident("repr"), Some(Meta::NameValue(Lit::Other))),
        named(Path { leading_colon: true, segments: vec!["repr".to_string()] }, None),
        named(Path::ident("repr"), list(vec![p("i32")])),
    ];
    assert_eq!(endio::attr::get_enum_type(&decl.attrs), Ok("i32".to_string()));
    assert_eq!(endio::descriptor::discriminant_type(&decl.attrs), Ok(IntType::I32));

    decl.attrs = vec![named(Path::ident("repr"), None)];
    assert_eq!(endio::attr::get_enum_type(&decl.attrs), Err(LayoutError::UnparseableRepr));

    decl.attrs = vec![named(Path::ident("repr"), list(vec![]))];
    assert_eq!(endio::attr::get_enum_type(&decl.attrs), Err(LayoutError::EmptyRepr));

    let long = Path { leading_colon: false, segments: vec!["a".to_string(), "b".to_string()] };
    decl.attrs = vec![named(Path::ident("repr"), list(vec![NestedMeta::Path(long)]))];
    assert_eq!(endio::attr::get_enum_type(&decl.attrs), Err(LayoutError::InvalidReprArgument));

    decl.attrs = vec![named(Path::ident("repr"), list(vec![p("C")]))];
    assert_eq!(endio::attr::get_enum_type(&decl.attrs), Err(LayoutError::MissingDiscriminantType));

    decl.attrs = vec![Attribute::repr("usize")];
    assert_eq!(endio::attr::get_enum_type(&decl.attrs), Ok("usize".to_string()));
    let mut reg = Registry::new();
    assert_eq!(reg.register(&decl), Err(LayoutError::UnsupportedDiscriminantType));
}

#[test]
fn padding_annotations_are_read_as_declared() {
    let named = |name: &str, meta: Option<Meta>| Attribute { path: Path::ident(name), meta };
    let attrs = vec![
        named("other", Some(Meta::NameValue(Lit::Int(9)))),
        named("padding", Some(Meta::NameValue(Lit::Int(4)))),
        named("padding", Some(Meta::NameValue(Lit::Int(5)))),
    ];
    assert_eq!(endio::attr::get_padding(&attrs, "padding"), Ok(Some(4)));
    assert_eq!(endio::attr::get_field_padding(&attrs), Ok(Some(4)));
    assert_eq!(endio::attr::get_padding(&attrs, "other"), Ok(Some(9)));
    assert_eq!(endio::attr::get_trailing_padding(&attrs), Ok(None));
    assert_eq!(endio::attr::get_pre_disc_padding(&attrs), Ok(None));
    assert_eq!(endio::attr::get_post_disc_padding(&attrs), Ok(None));
    assert_eq!(endio::attr::get_padding(&vec![named("padding", None)], "padding"), Err(LayoutError::UnparseablePadding));
    assert_eq!(
        endio::attr::get_padding(&vec![named("padding", Some(Meta::Path))], "padding"),
        Err(LayoutError::PaddingNotNameValue)
    );
    assert_eq!(
        endio::attr::get_padding(&vec![named("padding", Some(Meta::List(vec![])))], "padding"),
        Err(LayoutError::PaddingNotNameValue)
    );
    assert_eq!(
        endio::attr::get_padding(&vec![named("padding", Some(Meta::NameValue(Lit::Other)))], "padding"),
        Err(LayoutError::PaddingNotInteger)
    );
}

#[test]
fn faults_are_reported_in_order() {
    let mut reg = Registry::new();
    let bad = |name: &str| Attribute { path: Path::ident(name), meta: None };
    let mut decl = numbered_union();
    decl.attrs.push(bad("trailing_padding"));
    assert_eq!(reg.register(&decl), Err(LayoutError::UnparseablePadding));
    decl.attrs.push(Attribute { path: Path::ident("post_disc_padding"), meta: Some(Meta::Path) });
    assert_eq!(reg.register(&decl), Err(LayoutError::PaddingNotNameValue));
    decl.attrs.push(Attribute { path: Path::ident("pre_disc_padding"), meta: Some(Meta::NameValue(Lit::Other)) });
    assert_eq!(reg.register(&decl), Err(LayoutError::PaddingNotInteger));
    decl.attrs.insert(0, bad("repr"));
    assert_eq!(reg.register(&decl), Err(LayoutError::UnparseableRepr));

    let mut record = example_record();
    record.attrs.push(Attribute { path: Path::ident("trailing_padding"), meta: Some(Meta::NameValue(Lit::Other)) });
    assert_eq!(reg.register(&record), Err(LayoutError::PaddingNotInteger));
    if let Data::Record(Fields::Named(fields)) = &mut record.data {
        fields[1].attrs.push(bad("padding"));
    }
    assert_eq!(reg.register(&record), Err(LayoutError::UnparseablePadding));
    assert_eq!(reg.len(), 0);
}

#[test]
fn fields_of_unknown_types_are_refused() {
    let mut reg = Registry::new();
    let decl = Declaration {
        attrs: vec![],
        ident: "Loop".to_string(),
        data: Data::Record(Fields::Unnamed(vec![field(None, FieldType::Ref(0), None)])),
    };
    assert_eq!(reg.register(&decl), Err(LayoutError::UnknownFieldType));
    assert_eq!(reg.register_optional(FieldType::Ref(0)), Err(LayoutError::UnknownFieldType));
    assert_eq!(reg.register_optional(FieldType::Bool), Ok(0));
    assert_eq!(reg.register(&decl), Ok(1));
    assert_eq!(reg.len(), 2);
}

#[test]
fn discriminants_out_of_range_are_refused() {
    let mut reg = Registry::new();
    let with = |repr: &str, variants: Vec<Variant>| Declaration {
        attrs: vec![Attribute::repr(repr)],
        ident: "E".to_string(),
        data: Data::Union(variants),
    };
    assert_eq!(
        reg.register(&with("u8", vec![unit_variant("A", Some(255)), unit_variant("B", None)])),
        Err(LayoutError::DiscriminantOutOfRange)
    );
    assert_eq!(reg.register(&with("u8", vec![unit_variant("A", Some(-1))])), Err(LayoutError::DiscriminantOutOfRange));
    assert_eq!(reg.register(&with("i8", vec![unit_variant("A", Some(-129))])), Err(LayoutError::DiscriminantOutOfRange));
    assert_eq!(reg.register(&with("i8", vec![unit_variant("A", Some(127)), unit_variant("B", None)])), Err(LayoutError::DiscriminantOutOfRange));
    assert_eq!(reg.register(&with("i128", vec![unit_variant("A", Some(i128::MAX)), unit_variant("B", None)])), Err(LayoutError::DiscriminantOutOfRange));
    assert_eq!(reg.register(&with("u128", vec![unit_variant("A", Some(i128::MAX)), unit_variant("B", None)])), Ok(0));
    assert_eq!(reg.register(&with("i8", vec![unit_variant("A", Some(-128)), unit_variant("B", None)])), Ok(1));
    assert_eq!(reg.register(&with("u8", vec![unit_variant("A", Some(254)), unit_variant("B", None)])), Ok(2));
    assert_eq!(
        encode_all(&reg, FieldType::Ref(0), &Value::Variant(1, vec![]), ByteOrder::Big),
        b"\x80\x00\x00\x00\x00\x00\x00\x00\x00\x00\x00\x00\x00\x00\x00\x00"
    );
    assert_eq!(encode_all(&reg, FieldType::Ref(1), &Value::Variant(0, vec![]), ByteOrder::Big), b"\x80");
    assert_eq!(encode_all(&reg, FieldType::Ref(1), &Value::Variant(1, vec![]), ByteOrder::Big), b"\x81");
    assert_eq!(
        decode_all(&reg, FieldType::Ref(1), b"\xff", ByteOrder::Little),
        Err(Error::InvalidDiscriminant { name: "E".to_string(), value: Number::Signed(-1) })
    );
}

#[test]
fn values_that_are_no_instances_are_refused() {
    let mut reg = Registry::new();
    let id = reg.register(&example_record()).unwrap();
    let un = reg.register(&numbered_union()).unwrap();
    let ty = FieldType::Ref(id);
    let wrong = [
        Value::Bool(true),
        Value::Record(vec![]),
        Value::Record(vec![u(1), Value::Bool(true)]),
        Value::Record(vec![u(1), Value::Bool(true), u(2), u(3)]),
        Value::Record(vec![u(0x10000), Value::Bool(true), u(2)]),
        Value::Record(vec![Value::Int(Number::Signed(1)), Value::Bool(true), u(2)]),
        Value::Record(vec![u(1), u(1), u(2)]),
        Value::Variant(0, vec![]),
    ];
    for v in &wrong {
        assert!(!reg.conforms(ty, v));
        let mut writer = Writer::new();
        assert_eq!(reg.encode(ty, v, &mut writer, ByteOrder::Big), Err(Error::InvalidInstance));
        assert_eq!(writer.bytes(), b"");
    }
    assert!(reg.conforms(ty, &Value::Record(vec![u(0xffff), Value::Bool(true), u(0xffff_ffff)])));
    assert!(!reg.conforms(FieldType::Ref(un), &Value::Variant(4, vec![])));
    assert!(!reg.conforms(FieldType::Ref(un), &Value::Variant(0, vec![u(1)])));
    assert!(reg.conforms(FieldType::Ref(un), &Value::Variant(3, vec![])));
    assert!(!reg.conforms(FieldType::Ref(7), &Value::Bool(true)));
    assert!(reg.conforms(FieldType::Bool, &Value::Bool(true)));
    assert!(reg.conforms(FieldType::Address, &Value::Address([1, 2, 3, 4])));
    assert!(!reg.conforms(FieldType::Address, &Value::Bool(true)));
    assert!(reg.conforms(FieldType::Int(IntType::I8), &Value::Int(Number::Signed(-128))));
    assert!(!reg.conforms(FieldType::Int(IntType::I8), &Value::Int(Number::Signed(128))));
    assert!(!reg.conforms(FieldType::Int(IntType::I8), &Value::Int(Number::Unsigned(1))));
}

#[test]
fn unknown_types_cannot_be_decoded() {
    let reg = Registry::new();
    let mut reader = Reader::new(b"\x00\x00");
    assert_eq!(reg.decode(FieldType::Ref(0), &mut reader, ByteOrder::Big), Err(Error::UnknownType));
    assert_eq!(reader.remaining(), 2);
}

#[test]
fn short_write_is_fatal() {
    let mut reg = Registry::new();
    let id = reg.register(&example_record()).unwrap();
    let v = Value::Record(vec![u(0xadba), Value::Bool(true), u(0x0df0adba)]);
    let mut writer = Writer::with_limit(6);
    assert_eq!(reg.encode(FieldType::Ref(id), &v, &mut writer, ByteOrder::Little), Err(Error::ShortWrite));
    assert_eq!(writer.bytes(), b"\xba\xad\x01");
    let mut writer = Writer::with_limit(7);
    assert_eq!(reg.encode(FieldType::Ref(id), &v, &mut writer, ByteOrder::Little), Ok(()));
    assert_eq!(writer.room(), 0);
}

#[test]
fn short_read_is_fatal() {
    let mut reg = Registry::new();
    let id = reg.register(&example_record()).unwrap();
    for n in 0..7 {
        let bytes = &b"\xba\xad\x01\xba\xad\xf0\x0d"[..n];
        let mut reader = Reader::new(bytes);
        assert_eq!(reg.decode(FieldType::Ref(id), &mut reader, ByteOrder::Little), Err(Error::ShortRead));
    }
    let mut reader = Reader::new(b"\xba\xad\x02\xba\xad\xf0\x0d");
    assert_eq!(reg.decode(FieldType::Ref(id), &mut reader, ByteOrder::Little), Err(Error::InvalidBooleanByte(2)));
}

#[test]
fn values_are_copied_whole() {
    let record = Value::Record(vec![u(0x0102), Value::Bool(false), Value::Address([1, 2, 3, 4])]);
    let v = Value::Variant(
        1,
        vec![Value::Optional(Some(Box::new(record))), Value::Optional(None), Value::Int(Number::Signed(-3))],
    );
    assert_eq!(v.copy(), v);
    assert_eq!(Value::Record(vec![]).copy(), Value::Record(vec![]));
    assert_ne!(v.copy(), Value::Variant(1, vec![]));
}

#[test]
fn registering_more_types_changes_nothing_of_the_earlier_ones() {
    let mut reg = Registry::new();
    let id = reg.register(&example_record()).unwrap();
    let v = Value::Record(vec![u(0xadba), Value::Bool(true), u(0x0df0adba)]);
    let before = encode_all(&reg, FieldType::Ref(id), &v, ByteOrder::Big);
    reg.register(&numbered_union()).unwrap();
    reg.register_optional(FieldType::Ref(id)).unwrap();
    reg.register(&padded_union(Some(1))).unwrap();
    assert_eq!(reg.len(), 4);
    assert!(reg.conforms(FieldType::Ref(id), &v));
    assert_eq!(encode_all(&reg, FieldType::Ref(id), &v, ByteOrder::Big), before);
    assert_eq!(decode_all(&reg, FieldType::Ref(id), &before, ByteOrder::Big).unwrap(), v);
}
