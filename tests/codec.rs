use scroll_derive::declaration::scalar_from_name;
use scroll_derive::{
    derive_ioread, derive_iowrite, derive_pread, derive_pwrite, derive_sizewith, record_schema,
    unique_field_types, ArrayLen, ByteOrder, DeclData, DeclFields, DeclType, Declaration,
    FieldType, FieldValue, NamedField, Scalar, SchemaError,
};

fn named(t: &str) -> DeclType {
    DeclType::Named(t.to_string())
}

fn array(t: &str, n: usize) -> DeclType {
    DeclType::Array(Box::new(named(t)), ArrayLen::Literal(n))
}

fn field(name: &str, ty: DeclType) -> NamedField {
    NamedField { name: name.to_string(), ty }
}

fn record(name: &str, fields: Vec<NamedField>) -> Declaration {
    Declaration { name: name.to_string(), data: DeclData::Struct(DeclFields::Named(fields)) }
}

/// `{ a: u16, b: [u8; 4] }`
fn small() -> Declaration {
    record("Small", vec![field("a", named("u16")), field("b", array("u8", 4))])
}

/// `{ tag: u8, len: u32, items: [u16; 3], stamp: u64 }`
fn mixed() -> Declaration {
    record(
        "Mixed",
        vec![
            field("tag", named("u8")),
            field("len", named("u32")),
            field("items", array("u16", 3)),
            field("stamp", named("u64")),
        ],
    )
}

fn mixed_value() -> Vec<FieldValue> {
    vec![
        FieldValue::Scalar(0x7f),
        FieldValue::Scalar(0xdead_beef),
        FieldValue::Array(vec![1, 0x0203, 0xfffe]),
        FieldValue::Scalar(0x0102_0304_0506_0708),
    ]
}

#[test]
fn small_record_decodes_little_endian() {
    let p = derive_pread(&small()).unwrap();
    let bytes = [0x01, 0x00, 0xAA, 0xBB, 0xCC, 0xDD];
    let (v, n) = p.try_from_ctx(&bytes, ByteOrder::Little).unwrap();
    assert_eq!(v, vec![FieldValue::Scalar(1), FieldValue::Array(vec![0xAA, 0xBB, 0xCC, 0xDD])]);
    assert_eq!(n, 6);
    let s = derive_sizewith(&small()).unwrap();
    assert_eq!(s.size_with(&ByteOrder::Little), 6);
}

#[test]
fn small_record_decodes_big_endian() {
    let p = derive_pread(&small()).unwrap();
    let bytes = [0x01, 0x00, 0xAA, 0xBB, 0xCC, 0xDD, 0xEE];
    let (v, n) = p.try_from_ctx(&bytes, ByteOrder::Big).unwrap();
    assert_eq!(v, vec![FieldValue::Scalar(0x0100), FieldValue::Array(vec![0xAA, 0xBB, 0xCC, 0xDD])]);
    assert_eq!(n, 6);
}

#[test]
fn wide_scalars_decode_in_both_orders() {
    let decl = record("Wide", vec![field("x", named("u32")), field("y", named("u64"))]);
    let p = derive_pread(&decl).unwrap();
    let bytes = [0xDE, 0xAD, 0xBE, 0xEF, 1, 2, 3, 4, 5, 6, 7, 8];
    let (be, _) = p.try_from_ctx(&bytes, ByteOrder::Big).unwrap();
    assert_eq!(be, vec![FieldValue::Scalar(0xDEAD_BEEF), FieldValue::Scalar(0x0102_0304_0506_0708)]);
    let (le, _) = p.try_from_ctx(&bytes, ByteOrder::Little).unwrap();
    assert_eq!(le, vec![FieldValue::Scalar(0xEFBE_ADDE), FieldValue::Scalar(0x0807_0605_0403_0201)]);
}

#[test]
fn encode_then_decode_gives_record_back() {
    for order in [ByteOrder::Little, ByteOrder::Big] {
        let w = derive_pwrite(&mixed()).unwrap();
        let r = derive_pread(&mixed()).unwrap();
        let s = derive_sizewith(&mixed()).unwrap();
        let mut buf = vec![0x55u8; 40];
        let written = w.try_into_ctx(&mixed_value(), &mut buf, order).unwrap();
        assert_eq!(written, s.size_with(&order));
        let (v, read) = r.try_from_ctx(&buf, order).unwrap();
        assert_eq!(v, mixed_value());
        assert_eq!(read, written);
        assert!(buf[written..].iter().all(|b| *b == 0x55));
    }
}

#[test]
fn encode_writes_exact_bytes() {
    let w = derive_pwrite(&small()).unwrap();
    let mut buf = vec![0u8; 8];
    let value = vec![FieldValue::Scalar(0x1234), FieldValue::Array(vec![9, 8, 7, 6])];
    assert_eq!(w.try_into_ctx(&value, &mut buf, ByteOrder::Little).unwrap(), 6);
    assert_eq!(buf, vec![0x34, 0x12, 9, 8, 7, 6, 0, 0]);
    let mut buf = vec![0u8; 6];
    assert_eq!(w.try_into_ctx(&value, &mut buf, ByteOrder::Big).unwrap(), 6);
    assert_eq!(buf, vec![0x12, 0x34, 9, 8, 7, 6]);
}

#[test]
fn sizes_agree_across_facets() {
    let s = derive_sizewith(&mixed()).unwrap();
    assert_eq!(s.size_with(&ByteOrder::Big), 1 + 4 + 3 * 2 + 8);
    let w = derive_pwrite(&mixed()).unwrap();
    let mut buf = vec![0u8; 19];
    assert_eq!(w.try_into_ctx(&mixed_value(), &mut buf, ByteOrder::Big).unwrap(), 19);
    let (_, n) = derive_pread(&mixed()).unwrap().try_from_ctx(&buf, ByteOrder::Big).unwrap();
    assert_eq!(n, 19);
}

#[test]
fn array_field_contributes_length_times_element_size() {
    let one = record("One", vec![field("v", array("u32", 1))]);
    let five = record("Five", vec![field("v", array("u32", 5))]);
    let none = record("None", vec![field("v", array("u64", 0))]);
    assert_eq!(derive_sizewith(&one).unwrap().size_with(&ByteOrder::Little), 4);
    assert_eq!(derive_sizewith(&five).unwrap().size_with(&ByteOrder::Little), 20);
    assert_eq!(derive_sizewith(&none).unwrap().size_with(&ByteOrder::Little), 0);
    let empty = record("Empty", vec![]);
    assert_eq!(derive_sizewith(&empty).unwrap().size_with(&ByteOrder::Little), 0);
}

#[test]
fn array_elements_are_visited_in_index_order() {
    let decl = record("A", vec![field("v", array("u16", 3))]);
    let mut buf = vec![0u8; 6];
    let value = vec![FieldValue::Array(vec![0x0102, 0x0304, 0x0506])];
    derive_pwrite(&decl).unwrap().try_into_ctx(&value, &mut buf, ByteOrder::Big).unwrap();
    assert_eq!(buf, vec![1, 2, 3, 4, 5, 6]);
    let got = derive_ioread(&decl).unwrap().from_ctx(&buf, ByteOrder::Big);
    assert_eq!(got, value);
    let mut out = vec![0u8; 6];
    derive_iowrite(&decl).unwrap().into_ctx(&value, &mut out, ByteOrder::Little);
    assert_eq!(out, vec![2, 1, 4, 3, 6, 5]);
}

#[test]
fn indexed_facets_round_trip() {
    for order in [ByteOrder::Little, ByteOrder::Big] {
        let mut buf = vec![0xEEu8; 24];
        derive_iowrite(&mixed()).unwrap().into_ctx(&mixed_value(), &mut buf, order);
        assert!(buf[19..].iter().all(|b| *b == 0xEE));
        let v = derive_ioread(&mixed()).unwrap().from_ctx(&buf, order);
        assert_eq!(v, mixed_value());
        let (w, n) = derive_pread(&mixed()).unwrap().try_from_ctx(&buf, order).unwrap();
        assert_eq!(w, mixed_value());
        assert_eq!(n, 19);
    }
}

#[test]
fn indexed_decode_matches_fallible_decode() {
    let bytes: Vec<u8> = (0u8..19).collect();
    let a = derive_ioread(&mixed()).unwrap().from_ctx(&bytes, ByteOrder::Little);
    let (b, _) = derive_pread(&mixed()).unwrap().try_from_ctx(&bytes, ByteOrder::Little).unwrap();
    assert_eq!(a, b);
    assert_eq!(a[1], FieldValue::Scalar(0x0403_0201));
    assert_eq!(a[2], FieldValue::Array(vec![0x0605, 0x0807, 0x0a09]));
}

#[test]
fn decode_fails_at_first_field_that_does_not_fit() {
    let p = derive_pread(&mixed()).unwrap();
    // tag and len fit; items needs 6 bytes from offset 5, only 3 remain.
    let bytes = [0u8; 8];
    match p.try_from_ctx(&bytes, ByteOrder::Little) {
        Err(scroll::Error::TooBig { size, len }) => {
            assert_eq!(size, 2);
            assert_eq!(len, 1);
        }
        other => panic!("unexpected {:?}", other),
    }
    match p.try_from_ctx(&[], ByteOrder::Little) {
        Err(scroll::Error::TooBig { size, len }) => {
            assert_eq!(size, 1);
            assert_eq!(len, 0);
        }
        other => panic!("unexpected {:?}", other),
    }
    assert!(p.try_from_ctx(&[0u8; 18], ByteOrder::Big).is_err());
}

#[test]
fn encode_stops_at_first_field_that_does_not_fit() {
    let w = derive_pwrite(&mixed()).unwrap();
    let mut buf = vec![0xAAu8; 9];
    match w.try_into_ctx(&mixed_value(), &mut buf, ByteOrder::Big) {
        Err(scroll::Error::TooBig { size, len }) => {
            assert_eq!(size, 2);
            assert_eq!(len, 0);
        }
        other => panic!("unexpected {:?}", other),
    }
    // tag, len and the first two elements of items are written, nothing after.
    assert_eq!(buf, vec![0x7f, 0xde, 0xad, 0xbe, 0xef, 0x00, 0x01, 0x02, 0x03]);
    let mut short = vec![0xAAu8; 3];
    assert!(w.try_into_ctx(&mixed_value(), &mut short, ByteOrder::Big).is_err());
    assert_eq!(short, vec![0x7f, 0xAA, 0xAA]);
}

#[test]
fn deduplicated_types_are_sorted_by_signature() {
    let d = record(
        "D",
        vec![
            field("a", named("u8")),
            field("b", array("u8", 2)),
            field("c", named("u64")),
            field("d", array("u16", 4)),
            field("e", named("u16")),
        ],
    );
    let s = record_schema(&d).unwrap();
    assert_eq!(unique_field_types(&s), vec![Scalar::U16, Scalar::U64, Scalar::U8]);
    let p = derive_pread(&d).unwrap();
    assert_eq!(p.bounds, vec![Scalar::U16, Scalar::U64, Scalar::U8]);
}

#[test]
fn deduplication_ignores_field_order() {
    let a = record(
        "A",
        vec![field("x", named("u32")), field("y", array("u8", 3)), field("z", named("u32"))],
    );
    let b = record(
        "B",
        vec![field("z", named("u8")), field("y", named("u32")), field("x", array("u32", 7))],
    );
    let ta = unique_field_types(&record_schema(&a).unwrap());
    let tb = unique_field_types(&record_schema(&b).unwrap());
    assert_eq!(ta, tb);
    assert_eq!(ta, vec![Scalar::U32, Scalar::U8]);
    assert!(unique_field_types(&record_schema(&record("E", vec![])).unwrap()).is_empty());
}

#[test]
fn schema_keeps_names_and_types() {
    let s = record_schema(&mixed()).unwrap();
    assert_eq!(s.name, "Mixed");
    let names: Vec<&str> = s.fields.iter().map(|f| f.name.as_str()).collect();
    assert_eq!(names, vec!["tag", "len", "items", "stamp"]);
    let types: Vec<FieldType> = s.fields.iter().map(|f| f.ty).collect();
    assert_eq!(
        types,
        vec![
            FieldType::Scalar(Scalar::U8),
            FieldType::Scalar(Scalar::U32),
            FieldType::Array(Scalar::U16, 3),
            FieldType::Scalar(Scalar::U64),
        ]
    );
}

#[test]
fn enum_and_union_are_rejected() {
    for data in [DeclData::Enum, DeclData::Union] {
        let d = Declaration { name: "E".to_string(), data };
        assert_eq!(derive_pread(&d).unwrap_err(), SchemaError::NotAStruct);
    }
    let d = Declaration { name: "E".to_string(), data: DeclData::Enum };
    assert_eq!(derive_pwrite(&d).unwrap_err(), SchemaError::NotAStruct);
    assert_eq!(derive_sizewith(&d).unwrap_err(), SchemaError::NotAStruct);
    assert_eq!(derive_ioread(&d).unwrap_err(), SchemaError::NotAStruct);
    assert_eq!(derive_iowrite(&d).unwrap_err(), SchemaError::NotAStruct);
}

#[test]
fn unnamed_fields_are_rejected() {
    let tuple = Declaration {
        name: "T".to_string(),
        data: DeclData::Struct(DeclFields::Unnamed(vec![named("u8")])),
    };
    assert_eq!(derive_pwrite(&tuple).unwrap_err(), SchemaError::UnnamedFields);
    let unit = Declaration { name: "U".to_string(), data: DeclData::Struct(DeclFields::Unit) };
    assert_eq!(derive_ioread(&unit).unwrap_err(), SchemaError::UnnamedFields);
}

#[test]
fn non_literal_array_length_is_rejected() {
    let d = record(
        "R",
        vec![
            field("a", named("u8")),
            field("b", DeclType::Array(Box::new(named("u8")), ArrayLen::Expr("N".to_string()))),
            field("c", DeclType::Other("&str".to_string())),
        ],
    );
    assert_eq!(derive_pread(&d).unwrap_err(), SchemaError::BadArrayLength(1));
    assert_eq!(derive_iowrite(&d).unwrap_err(), SchemaError::BadArrayLength(1));
    assert_eq!(derive_sizewith(&d).unwrap_err(), SchemaError::BadArrayLength(1));
}

#[test]
fn unsupported_types_are_rejected() {
    let d = record("R", vec![field("a", named("u16")), field("b", named("f32"))]);
    assert_eq!(derive_pread(&d).unwrap_err(), SchemaError::UnsupportedType(1));
    let nested = DeclType::Array(Box::new(array("u8", 2)), ArrayLen::Literal(3));
    let d = record("R", vec![field("a", nested)]);
    assert_eq!(derive_pwrite(&d).unwrap_err(), SchemaError::UnsupportedType(0));
    let d = record("R", vec![field("a", named("u6"))]);
    assert_eq!(derive_sizewith(&d).unwrap_err(), SchemaError::UnsupportedType(0));
    let d = record("R", vec![field("a", named("i32")), field("b", named("u256"))]);
    assert_eq!(derive_ioread(&d).unwrap_err(), SchemaError::UnsupportedType(1));
    let d = record("R", vec![field("h", named("Header"))]);
    assert_eq!(derive_iowrite(&d).unwrap_err(), SchemaError::UnsupportedType(0));
}

#[test]
fn every_integer_type_is_accepted() {
    let names = ["u8", "u16", "u32", "u64", "i8", "i16", "i32", "i64", "u128", "i128"];
    let d = record(
        "All",
        names.iter().enumerate().map(|(k, n)| field(&format!("f{}", k), named(n))).collect(),
    );
    assert!(derive_pread(&d).is_ok());
    assert!(derive_pwrite(&d).is_ok());
    assert!(derive_ioread(&d).is_ok());
    assert!(derive_iowrite(&d).is_ok());
    assert_eq!(derive_sizewith(&d).unwrap().size_with(&ByteOrder::Little), 62);
    let single = record("S", vec![field("x", named("i32"))]);
    assert_eq!(derive_pread(&single).unwrap().bounds, vec![Scalar::I32]);
    assert_eq!(
        unique_field_types(&record_schema(&d).unwrap()),
        vec![
            Scalar::I128,
            Scalar::I16,
            Scalar::I32,
            Scalar::I64,
            Scalar::I8,
            Scalar::U128,
            Scalar::U16,
            Scalar::U32,
            Scalar::U64,
            Scalar::U8,
        ]
    );
}

#[test]
fn signed_fields_hold_twos_complement_bits() {
    let d = record(
        "S",
        vec![
            field("a", named("i8")),
            field("b", named("i16")),
            field("c", array("i32", 2)),
            field("d", named("i64")),
        ],
    );
    let value = vec![
        FieldValue::Scalar((-2i8) as u8 as u128),
        FieldValue::Scalar((-300i16) as u16 as u128),
        FieldValue::Array(vec![(-1i32) as u32 as u128, 0x7fff_ffff]),
        FieldValue::Scalar((-5i64) as u64 as u128),
    ];
    let mut buf = vec![0u8; 19];
    assert_eq!(derive_pwrite(&d).unwrap().try_into_ctx(&value, &mut buf, ByteOrder::Little).unwrap(), 19);
    assert_eq!(
        buf,
        vec![
            0xFE, 0xD4, 0xFE, 0xFF, 0xFF, 0xFF, 0xFF, 0xFF, 0xFF, 0xFF, 0x7F, 0xFB, 0xFF, 0xFF, 0xFF,
            0xFF, 0xFF, 0xFF, 0xFF,
        ]
    );
    let (got, n) = derive_pread(&d).unwrap().try_from_ctx(&buf, ByteOrder::Little).unwrap();
    assert_eq!(got, value);
    assert_eq!(n, 19);
    let mut be = vec![0u8; 19];
    derive_iowrite(&d).unwrap().into_ctx(&value, &mut be, ByteOrder::Big);
    assert_eq!(&be[..3], &[0xFE, 0xFE, 0xD4]);
    assert_eq!(derive_ioread(&d).unwrap().from_ctx(&be, ByteOrder::Big), value);
    let (again, _) = derive_pread(&d).unwrap().try_from_ctx(&be, ByteOrder::Big).unwrap();
    assert_eq!(again, value);
}

#[test]
fn signed_scalar_names_resolve() {
    assert_eq!(scalar_from_name("i8"), Some(Scalar::I8));
    assert_eq!(scalar_from_name("i16"), Some(Scalar::I16));
    assert_eq!(scalar_from_name("i32"), Some(Scalar::I32));
    assert_eq!(scalar_from_name("i64"), Some(Scalar::I64));
    assert_eq!(scalar_from_name("i128"), Some(Scalar::I128));
    assert_eq!(scalar_from_name("u128"), Some(Scalar::U128));
    assert_eq!(scalar_from_name("u127"), None);
    assert_eq!(scalar_from_name("x128"), None);
    assert_eq!(scalar_from_name("x16"), None);
    assert_eq!(Scalar::I32.size(), 4);
    assert!(Scalar::I8.precedes(Scalar::U16));
    assert_eq!(Scalar::I128.position(), 0);
    assert_eq!(Scalar::U128.position(), 5);
    assert_eq!(Scalar::U8.position(), 9);
}

#[test]
fn failed_encode_leaves_bytes_from_failing_write_on() {
    let d = record("R", vec![field("a", named("u8")), field("b", array("u16", 3)), field("c", named("u8"))]);
    let value = vec![
        FieldValue::Scalar(7),
        FieldValue::Array(vec![0x0102, 0x0304, 0x0506]),
        FieldValue::Scalar(9),
    ];
    let mut buf = vec![0xAAu8; 6];
    assert!(derive_pwrite(&d).unwrap().try_into_ctx(&value, &mut buf, ByteOrder::Big).is_err());
    assert_eq!(buf, vec![7, 1, 2, 3, 4, 0xAA]);
}

#[test]
fn oversized_schema_is_rejected() {
    let d = record("R", vec![field("a", array("u64", usize::MAX / 4))]);
    assert_eq!(derive_pread(&d).unwrap_err(), SchemaError::TooLarge);
    let d = record(
        "R",
        vec![field("a", array("u8", usize::MAX)), field("b", named("u8"))],
    );
    assert_eq!(derive_sizewith(&d).unwrap_err(), SchemaError::TooLarge);
    let d = record("R", vec![field("a", array("u8", usize::MAX))]);
    assert_eq!(derive_sizewith(&d).unwrap().size_with(&ByteOrder::Big), usize::MAX);
}

#[test]
fn scalar_names_resolve() {
    assert_eq!(scalar_from_name("u8"), Some(Scalar::U8));
    assert_eq!(scalar_from_name("u16"), Some(Scalar::U16));
    assert_eq!(scalar_from_name("u32"), Some(Scalar::U32));
    assert_eq!(scalar_from_name("u64"), Some(Scalar::U64));
    assert_eq!(scalar_from_name(""), None);
}

#[test]
fn scalar_sizes_and_signature_order() {
    assert_eq!(Scalar::U8.size(), 1);
    assert_eq!(Scalar::U16.size(), 2);
    assert_eq!(Scalar::U32.size(), 4);
    assert_eq!(Scalar::U64.size(), 8);
    assert!(Scalar::U16.precedes(Scalar::U32));
    assert!(Scalar::U64.precedes(Scalar::U8));
    assert!(!Scalar::U8.precedes(Scalar::U16));
    assert!(!Scalar::U32.precedes(Scalar::U32));
}

#[test]
fn decoded_record_encodes_to_same_bytes() {
    let bytes: Vec<u8> = (100u8..119).collect();
    let (v, n) = derive_pread(&mixed()).unwrap().try_from_ctx(&bytes, ByteOrder::Big).unwrap();
    let mut out = vec![0u8; n];
    derive_pwrite(&mixed()).unwrap().try_into_ctx(&v, &mut out, ByteOrder::Big).unwrap();
    assert_eq!(out, bytes);
}

#[test]
fn long_array_on_short_buffer_fails_like_bulk_read() {
    let huge = record("H", vec![field("v", array("u32", 1usize << 40))]);
    match derive_pread(&huge).unwrap().try_from_ctx(&[1, 2, 3, 4, 5, 6], ByteOrder::Little) {
        Err(scroll::Error::TooBig { size, len }) => {
            assert_eq!(size, 4);
            assert_eq!(len, 2);
        }
        other => panic!("unexpected {:?}", other),
    }
    let ten = record("T", vec![field("v", array("u8", 10))]);
    match derive_pread(&ten).unwrap().try_from_ctx(&[1, 2, 3, 4], ByteOrder::Big) {
        Err(scroll::Error::TooBig { size, len }) => {
            assert_eq!(size, 1);
            assert_eq!(len, 0);
        }
        other => panic!("unexpected {:?}", other),
    }
    let four = record("F", vec![field("v", array("u16", 3))]);
    match derive_pread(&four).unwrap().try_from_ctx(&[1, 2, 3, 4, 5], ByteOrder::Big) {
        Err(scroll::Error::TooBig { size, len }) => {
            assert_eq!(size, 2);
            assert_eq!(len, 1);
        }
        other => panic!("unexpected {:?}", other),
    }
}

#[test]
fn wide_integers_round_trip() {
    let d = record("W", vec![field("a", named("u128")), field("b", array("i128", 2))]);
    let value = vec![
        FieldValue::Scalar(0x0102_0304_0506_0708_090a_0b0c_0d0e_0f10),
        FieldValue::Array(vec![(-1i128) as u128, (i128::MIN) as u128]),
    ];
    assert_eq!(derive_sizewith(&d).unwrap().size_with(&ByteOrder::Big), 48);
    let mut buf = vec![0u8; 48];
    assert_eq!(derive_pwrite(&d).unwrap().try_into_ctx(&value, &mut buf, ByteOrder::Big).unwrap(), 48);
    assert_eq!(buf[0], 0x01);
    assert_eq!(buf[15], 0x10);
    assert!(buf[16..32].iter().all(|b| *b == 0xFF));
    assert_eq!(buf[32], 0x80);
    assert!(buf[33..48].iter().all(|b| *b == 0));
    let (got, n) = derive_pread(&d).unwrap().try_from_ctx(&buf, ByteOrder::Big).unwrap();
    assert_eq!((got, n), (value.clone(), 48));
    let mut le = vec![0u8; 48];
    derive_iowrite(&d).unwrap().into_ctx(&value, &mut le, ByteOrder::Little);
    assert_eq!(le[0], 0x10);
    assert_eq!(le[47], 0x80);
    assert_eq!(derive_ioread(&d).unwrap().from_ctx(&le, ByteOrder::Little), value);
    assert!(derive_pread(&d).unwrap().try_from_ctx(&buf[..40], ByteOrder::Big).is_err());
}
