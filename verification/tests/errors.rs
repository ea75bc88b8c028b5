use reflector::Descriptor;
use reflector::Document;
use reflector::EnumKind;
use reflector::Error;
use reflector::Ident;
use reflector::Kind;
use reflector::NamedField;
use reflector::NamedShape;
use reflector::PrimType;
use reflector::PrimValue;
use reflector::Reflect;
use reflector::Shape;
use reflector::StructKind;
use reflector::TupleShape;
use reflector::Type;
use reflector::UnitShape;
use reflector::VariantDescriptor;

fn named_shape(fields: Vec<(&str, Type)>) -> Shape {
    Shape::Named(NamedShape {
        fields: fields
            .into_iter()
            .map(|(n, t)| NamedField {
                ident: n.to_string(),
                ty: t,
            })
            .collect(),
    })
}

fn tuple_shape(tys: Vec<Type>) -> Shape {
    Shape::Tuple(TupleShape { fields: tys })
}

fn record(name: &str, shape: Shape) -> Descriptor {
    Descriptor {
        ident: name.to_string(),
        kind: Kind::Struct(StructKind { shape }),
    }
}

fn sum(name: &str, variants: Vec<(&str, Shape)>) -> Descriptor {
    Descriptor {
        ident: name.to_string(),
        kind: Kind::Enum(EnumKind {
            variants: variants
                .into_iter()
                .enumerate()
                .map(|(i, (n, shape))| VariantDescriptor {
                    ident: n.to_string(),
                    index: i,
                    root: name.to_string(),
                    record: StructKind { shape },
                })
                .collect(),
        }),
    }
}

fn two_field_record() -> Descriptor {
    record(
        "X",
        named_shape(vec![
            ("a", Type::Prim(PrimType::I32)),
            ("b", Type::Prim(PrimType::U8)),
        ]),
    )
}

fn two_variant_sum() -> Descriptor {
    sum(
        "C",
        vec![
            ("A", Shape::Unit(UnitShape)),
            ("B", tuple_shape(vec![Type::Prim(PrimType::I32)])),
        ],
    )
}

#[test]
fn missing_field() {
    let doc = Document::NamedStruct(
        "X".to_string(),
        vec![(Ident::Name("a".to_string()), Document::Prim(PrimValue::I32(1)))],
    );
    let err = Reflect::deserialize(two_field_record(), &doc).unwrap_err();
    assert_eq!(err, Error::MissingField);
    assert_eq!(err.message(), "missing field");
}

#[test]
fn duplicate_field() {
    let doc = Document::NamedStruct(
        "X".to_string(),
        vec![
            (Ident::Name("a".to_string()), Document::Prim(PrimValue::I32(1))),
            (Ident::Name("b".to_string()), Document::Prim(PrimValue::U8(2))),
            (Ident::Name("a".to_string()), Document::Prim(PrimValue::I32(3))),
        ],
    );
    let err = Reflect::deserialize(two_field_record(), &doc).unwrap_err();
    assert_eq!(err, Error::DuplicateField);
    assert_eq!(err.message(), "duplicate field");
}

#[test]
fn variant_index_out_of_range() {
    let doc = Document::UnitVariant("C".to_string(), Ident::Index(2));
    let err = Reflect::deserialize(two_variant_sum(), &doc).unwrap_err();
    assert_eq!(err, Error::VariantIndexOutOfRange);
    assert_eq!(err.message(), "variant index out of range");
}

#[test]
fn unknown_variant() {
    let doc = Document::UnitVariant("C".to_string(), Ident::Name("Nope".to_string()));
    let err = Reflect::deserialize(two_variant_sum(), &doc).unwrap_err();
    assert_eq!(err, Error::UnknownVariant);
    assert_eq!(err.message(), "unknown variant");
}

#[test]
fn not_enough_items() {
    let tuple = record(
        "T",
        tuple_shape(vec![Type::Prim(PrimType::I32), Type::Prim(PrimType::I32)]),
    );
    let doc = Document::Sequence(vec![Document::Prim(PrimValue::I32(1))]);
    let err = Reflect::deserialize(tuple, &doc).unwrap_err();
    assert_eq!(err, Error::NotEnoughItems);
    assert_eq!(err.message(), "not enough items in sequence");
}

#[test]
fn type_mismatch() {
    let x = record("X", named_shape(vec![("a", Type::Prim(PrimType::I32))]));
    let doc = Document::NamedStruct(
        "X".to_string(),
        vec![(
            Ident::Name("a".to_string()),
            Document::Prim(PrimValue::Str("no".to_string())),
        )],
    );
    let err = Reflect::deserialize(x, &doc).unwrap_err();
    assert_eq!(err, Error::Mismatch);
    assert_eq!(err.message(), "invalid type");
}

#[test]
fn trailing_item_rejected() {
    let tuple = record(
        "T",
        tuple_shape(vec![Type::Prim(PrimType::I32), Type::Prim(PrimType::I32)]),
    );
    let doc = Document::Sequence(vec![
        Document::Prim(PrimValue::I32(1)),
        Document::Prim(PrimValue::I32(2)),
        Document::Prim(PrimValue::I32(3)),
    ]);
    let err = Reflect::deserialize(tuple, &doc).unwrap_err();
    assert_eq!(err, Error::Mismatch);
}

#[test]
fn wrong_content_form_for_variant() {
    let doc = Document::TupleVariant(
        "C".to_string(),
        Ident::Name("A".to_string()),
        vec![Document::Prim(PrimValue::I32(1))],
    );
    let err = Reflect::deserialize(two_variant_sum(), &doc).unwrap_err();
    assert_eq!(err, Error::Mismatch);
}

#[test]
fn rejected_pairings() {
    // A value that does not conform to its descriptor is refused at the
    // pairing step.
    let x = two_field_record();
    let too_few = reflector::Value::Record(vec![reflector::Value::Prim(PrimValue::I32(1))]);
    assert!(Reflect::new(x, too_few).is_none());

    let c = two_variant_sum();
    let out_of_range = reflector::Value::Sum(5, vec![]);
    assert!(Reflect::new(c, out_of_range).is_none());
}
