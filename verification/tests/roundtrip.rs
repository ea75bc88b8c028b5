use reflector::Descriptor;
use reflector::Document;
use reflector::EnumKind;
use reflector::Ident;
use reflector::Kind;
use reflector::NamedField;
use reflector::NamedShape;
use reflector::PrimType;
use reflector::PrimValue;
use reflector::Reflect;
use reflector::Shape;
use reflector::StructKind;
use reflector::TupleShape;
use reflector::Type;
use reflector::UnitShape;
use reflector::Value;
use reflector::VariantDescriptor;

fn named_shape(fields: Vec<(&str, Type)>) -> Shape {
    Shape::Named(NamedShape {
        fields: fields
            .into_iter()
            .map(|(n, t)| NamedField {
                ident: n.to_string(),
                ty: t,
            })
            .collect(),
    })
}

fn tuple_shape(tys: Vec<Type>) -> Shape {
    Shape::Tuple(TupleShape { fields: tys })
}

fn record(name: &str, shape: Shape) -> Descriptor {
    Descriptor {
        ident: name.to_string(),
        kind: Kind::Struct(StructKind { shape }),
    }
}

fn sum(name: &str, variants: Vec<(&str, Shape)>) -> Descriptor {
    Descriptor {
        ident: name.to_string(),
        kind: Kind::Enum(EnumKind {
            variants: variants
                .into_iter()
                .enumerate()
                .map(|(i, (n, shape))| VariantDescriptor {
                    ident: n.to_string(),
                    index: i,
                    root: name.to_string(),
                    record: StructKind { shape },
                })
                .collect(),
        }),
    }
}

fn i32v(x: i32) -> Value {
    Value::Prim(PrimValue::I32(x))
}

fn strv(s: &str) -> Value {
    Value::Prim(PrimValue::Str(s.to_string()))
}

fn roundtrip(ty: Descriptor, value: Value) {
    let p = Reflect::new(ty, value).expect("value should conform to its descriptor");
    let doc = p.serialize();
    let back = Reflect::deserialize(p.ty, &doc).expect("serialized form should read back");
    assert_eq!(p.value, back.value);
}

#[test]
fn works() {
    let a_i32 = || {
        record(
            "A",
            named_shape(vec![
                ("a", Type::Prim(PrimType::I32)),
                ("b", Type::Prim(PrimType::U8)),
            ]),
        )
    };
    roundtrip(
        a_i32(),
        Value::Record(vec![i32v(42), Value::Prim(PrimValue::U8(3))]),
    );

    let a_str = record(
        "A",
        named_shape(vec![
            ("a", Type::Prim(PrimType::I32)),
            ("b", Type::Prim(PrimType::Str)),
        ]),
    );
    roundtrip(a_str, Value::Record(vec![i32v(42), strv("hey")]));

    let b = record(
        "B",
        tuple_shape(vec![
            Type::Prim(PrimType::I32),
            Type::Ref(Box::new(Type::Prim(PrimType::Str))),
        ]),
    );
    roundtrip(b, Value::Record(vec![i32v(3), strv("hey")]));

    let c = || {
        sum(
            "C",
            vec![
                ("A", Shape::Unit(UnitShape)),
                ("B", tuple_shape(vec![Type::Prim(PrimType::I32)])),
                (
                    "C",
                    tuple_shape(vec![
                        Type::Prim(PrimType::I32),
                        Type::Ref(Box::new(Type::Prim(PrimType::Str))),
                    ]),
                ),
                (
                    "D",
                    named_shape(vec![("x", Type::Ref(Box::new(Type::Prim(PrimType::Str))))]),
                ),
            ],
        )
    };
    roundtrip(c(), Value::Sum(0, vec![]));
    roundtrip(c(), Value::Sum(1, vec![i32v(42)]));
    roundtrip(c(), Value::Sum(2, vec![i32v(42), strv("hey")]));
    roundtrip(c(), Value::Sum(3, vec![strv("hey")]));
}

#[test]
fn de_works() {
    let x = record("X", named_shape(vec![("a", Type::Prim(PrimType::I32))]));
    assert!(x.is_well_formed());
}

#[test]
fn works_map() {
    // The same named type reads from a field map whatever the key order,
    // and numeric keys address the same slots.
    let x = || {
        record(
            "X",
            named_shape(vec![
                ("a", Type::Prim(PrimType::I32)),
                ("b", Type::Prim(PrimType::U8)),
            ]),
        )
    };
    let by_name = Document::NamedStruct(
        "X".to_string(),
        vec![
            (Ident::Name("a".to_string()), Document::Prim(PrimValue::I32(1))),
            (Ident::Name("b".to_string()), Document::Prim(PrimValue::U8(2))),
        ],
    );
    let reversed = Document::NamedStruct(
        "X".to_string(),
        vec![
            (Ident::Name("b".to_string()), Document::Prim(PrimValue::U8(2))),
            (Ident::Name("a".to_string()), Document::Prim(PrimValue::I32(1))),
        ],
    );
    let by_index = Document::NamedStruct(
        "X".to_string(),
        vec![
            (Ident::Index(1), Document::Prim(PrimValue::U8(2))),
            (Ident::Index(0), Document::Prim(PrimValue::I32(1))),
        ],
    );
    let expected = Value::Record(vec![i32v(1), Value::Prim(PrimValue::U8(2))]);
    for doc in [by_name, reversed, by_index] {
        let got = Reflect::deserialize(x(), &doc).expect("the map should read back");
        assert_eq!(got.value, expected);
    }
}

#[test]
fn works_unknown_keys_skipped() {
    let x = record("X", named_shape(vec![("a", Type::Prim(PrimType::I32))]));
    let doc = Document::NamedStruct(
        "X".to_string(),
        vec![
            (
                Ident::Name("ignored".to_string()),
                Document::Prim(PrimValue::U8(9)),
            ),
            (Ident::Name("a".to_string()), Document::Prim(PrimValue::I32(5))),
            (Ident::Index(7), Document::Prim(PrimValue::U8(9))),
        ],
    );
    let got = Reflect::deserialize(x, &doc).expect("unknown keys are skipped");
    assert_eq!(got.value, Value::Record(vec![i32v(5)]));
}

#[test]
fn works_positional_fallback() {
    // A named type also reads from a positional sequence.
    let x = record(
        "X",
        named_shape(vec![
            ("a", Type::Prim(PrimType::I32)),
            ("b", Type::Prim(PrimType::U8)),
        ]),
    );
    let doc = Document::Sequence(vec![
        Document::Prim(PrimValue::I32(1)),
        Document::Prim(PrimValue::U8(2)),
    ]);
    let got = Reflect::deserialize(x, &doc).expect("positional fallback should read");
    assert_eq!(
        got.value,
        Value::Record(vec![i32v(1), Value::Prim(PrimValue::U8(2))])
    );
}

#[test]
fn works_discriminant_by_index() {
    let c = sum(
        "C",
        vec![
            ("A", Shape::Unit(UnitShape)),
            ("B", tuple_shape(vec![Type::Prim(PrimType::I32)])),
        ],
    );
    let doc = Document::NewtypeVariant(
        "C".to_string(),
        Ident::Index(1),
        Box::new(Document::Prim(PrimValue::I32(8))),
    );
    let got = Reflect::deserialize(c, &doc).expect("an in-range index selects the variant");
    assert_eq!(got.value, Value::Sum(1, vec![i32v(8)]));
}

#[test]
fn unit_and_empty_tuple_differ() {
    // The resolver keeps the empty positional record apart from the unit
    // record: they serialize to different forms.
    let unit_ty = record("A", Shape::Unit(UnitShape));
    let unit = Reflect::new(unit_ty, Value::Record(vec![])).unwrap();
    assert_eq!(unit.serialize(), Document::UnitStruct("A".to_string()));

    let empty_ty = record("B", tuple_shape(vec![]));
    let empty = Reflect::new(empty_ty, Value::Record(vec![])).unwrap();
    assert_eq!(empty.serialize(), Document::TupleStruct("B".to_string(), vec![]));

    // And a one-field positional record always narrows to the newtype form.
    let single_ty = record("N", tuple_shape(vec![Type::Prim(PrimType::I32)]));
    let single = Reflect::new(single_ty, Value::Record(vec![i32v(7)])).unwrap();
    assert_eq!(
        single.serialize(),
        Document::NewtypeStruct("N".to_string(), Box::new(Document::Prim(PrimValue::I32(7))))
    );
}

#[test]
fn mod_works() {
    // Field maps arriving from a real structured-data format: parse JSON
    // text and hand the fields to the reflection core.
    let parsed: serde_json::Value = serde_json::from_str("{\"a\": 42}").unwrap();
    let mut pairs = Vec::new();
    if let serde_json::Value::Object(map) = parsed {
        for (key, val) in map {
            let num = val.as_i64().unwrap() as i32;
            pairs.push((Ident::Name(key), Document::Prim(PrimValue::I32(num))));
        }
    }
    let doc = Document::NamedStruct("X".to_string(), pairs);
    let x = record("X", named_shape(vec![("a", Type::Prim(PrimType::I32))]));
    let got = Reflect::deserialize(x, &doc).expect("the parsed map should read back");
    println!("{:?}", got.value);
    assert_eq!(got.value, Value::Record(vec![i32v(42)]));
}

#[test]
fn element_type_roundtrip() {
    // The traversals also run at a bare element type, outside any record.
    let ty = Type::Sequence(Box::new(Type::Prim(PrimType::U8)));
    let v = Value::Sequence(vec![
        Value::Prim(PrimValue::U8(1)),
        Value::Prim(PrimValue::U8(2)),
    ]);
    let doc = reflector::serialize(&ty, &v);
    assert_eq!(
        doc,
        Document::Sequence(vec![
            Document::Prim(PrimValue::U8(1)),
            Document::Prim(PrimValue::U8(2)),
        ])
    );
    assert_eq!(reflector::deserialize(&ty, &doc), Ok(v));
}

#[test]
fn containers_roundtrip() {
    let ty = record(
        "Deep",
        named_shape(vec![
            (
                "rows",
                Type::Sequence(Box::new(Type::Sequence(Box::new(Type::Prim(PrimType::U8))))),
            ),
            ("boxed", Type::Boxed(Box::new(Type::Prim(PrimType::I64)))),
            ("fixed", Type::Array(Box::new(Type::Prim(PrimType::U16)), 3)),
        ]),
    );
    let value = Value::Record(vec![
        Value::Sequence(vec![
            Value::Sequence(vec![
                Value::Prim(PrimValue::U8(1)),
                Value::Prim(PrimValue::U8(2)),
            ]),
            Value::Sequence(vec![]),
        ]),
        Value::Boxed(Box::new(Value::Prim(PrimValue::I64(-7)))),
        Value::Array(vec![
            Value::Prim(PrimValue::U16(10)),
            Value::Prim(PrimValue::U16(20)),
            Value::Prim(PrimValue::U16(30)),
        ]),
    ]);
    roundtrip(ty, value);
}

#[test]
fn newtype_from_one_item_sequence() {
    // A one-field positional record also reads from a one-item sequence.
    let n = record("N", tuple_shape(vec![Type::Prim(PrimType::I32)]));
    let doc = Document::Sequence(vec![Document::Prim(PrimValue::I32(9))]);
    let got = Reflect::deserialize(n, &doc).expect("the one-item sequence should read");
    assert_eq!(got.value, Value::Record(vec![i32v(9)]));
}
