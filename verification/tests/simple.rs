use reflector::Descriptor;
use reflector::EnumKind;
use reflector::Introspect;
use reflector::SizedStruct;
use reflector::Strategy;
use reflector::Struct;
use reflector::Variant;
use reflector::HeapSize;
use reflector::Kind;
use reflector::NamedField;
use reflector::NamedShape;
use reflector::PrimType;
use reflector::PrimValue;
use reflector::Reflect;
use reflector::Shape;
use reflector::StructKind;
use reflector::TupleShape;
use reflector::Type;
use reflector::UnitShape;
use reflector::Value;
use reflector::VariantDescriptor;

fn named_shape(fields: Vec<(&str, Type)>) -> Shape {
    Shape::Named(NamedShape {
        fields: fields
            .into_iter()
            .map(|(n, t)| NamedField {
                ident: n.to_string(),
                ty: t,
            })
            .collect(),
    })
}

fn tuple_shape(tys: Vec<Type>) -> Shape {
    Shape::Tuple(TupleShape { fields: tys })
}

fn record(name: &str, shape: Shape) -> Descriptor {
    Descriptor {
        ident: name.to_string(),
        kind: Kind::Struct(StructKind { shape }),
    }
}

fn sum(name: &str, variants: Vec<(&str, Shape)>) -> Descriptor {
    Descriptor {
        ident: name.to_string(),
        kind: Kind::Enum(EnumKind {
            variants: variants
                .into_iter()
                .enumerate()
                .map(|(i, (n, shape))| VariantDescriptor {
                    ident: n.to_string(),
                    index: i,
                    root: name.to_string(),
                    record: StructKind { shape },
                })
                .collect(),
        }),
    }
}

fn reflect(ty: Descriptor, value: Value) -> Reflect {
    Reflect::new(ty, value).expect("value should conform to its descriptor")
}

fn i32v(x: i32) -> Value {
    Value::Prim(PrimValue::I32(x))
}

fn u8v(x: u8) -> Value {
    Value::Prim(PrimValue::U8(x))
}

#[test]
fn asdf() {
    let ty = record("MyStruct", tuple_shape(vec![Type::Prim(PrimType::I32)]));
    assert!(ty.is_well_formed());
}

#[test]
fn simple_struct() {
    let ty = record(
        "MyStruct",
        named_shape(vec![
            ("a", Type::Prim(PrimType::I32)),
            ("b", Type::Sequence(Box::new(Type::Prim(PrimType::U8)))),
        ]),
    );
    let value = Value::Record(vec![i32v(42), Value::Sequence((0..42).map(|_| u8v(42)).collect())]);
    assert_eq!(reflect(ty, value).heap_size(), 42);
}

#[test]
fn with_lifetime() {
    let ty = record(
        "X",
        tuple_shape(vec![
            Type::Ref(Box::new(Type::Prim(PrimType::I32))),
            Type::Ref(Box::new(Type::Prim(PrimType::I32))),
        ]),
    );
    let value = Value::Record(vec![i32v(0), i32v(0)]);
    assert_eq!(reflect(ty, value).heap_size(), 0);
}

#[test]
fn with_generics() {
    let ty = record(
        "X",
        tuple_shape(vec![
            Type::Boxed(Box::new(Type::Prim(PrimType::U8))),
            Type::Boxed(Box::new(Type::Prim(PrimType::U8))),
        ]),
    );
    let value = Value::Record(vec![
        Value::Boxed(Box::new(u8v(0))),
        Value::Boxed(Box::new(u8v(0))),
    ]);
    assert_eq!(reflect(ty, value).heap_size(), 2);
}

#[test]
fn unit() {
    let a = record("A", Shape::Unit(UnitShape));
    let b = record("B", tuple_shape(vec![]));
    let c = record("C", named_shape(vec![]));

    assert_eq!(reflect(a, Value::Record(vec![])).heap_size(), 0);
    assert_eq!(reflect(b, Value::Record(vec![])).heap_size(), 0);
    assert_eq!(reflect(c, Value::Record(vec![])).heap_size(), 0);
}

#[test]
fn simple_enum() {
    let simple = || {
        sum(
            "Simple",
            vec![
                ("A", tuple_shape(vec![Type::Prim(PrimType::I32)])),
                (
                    "B",
                    tuple_shape(vec![Type::Boxed(Box::new(Type::Array(
                        Box::new(Type::Prim(PrimType::U8)),
                        128,
                    )))]),
                ),
                (
                    "C",
                    tuple_shape(vec![Type::Sequence(Box::new(Type::Prim(PrimType::U8)))]),
                ),
            ],
        )
    };

    let a = Value::Sum(0, vec![i32v(0)]);
    let b = Value::Sum(1, vec![Value::Boxed(Box::new(Value::Array((0..128).map(|_| u8v(0)).collect())))]);
    let c = Value::Sum(2, vec![Value::Sequence((0..1024).map(|_| u8v(0)).collect())]);

    assert_eq!(reflect(simple(), a).heap_size(), 0);
    assert_eq!(reflect(simple(), b).heap_size(), 128);
    assert_eq!(reflect(simple(), c).heap_size(), 1024);
}

#[test]
fn gigantic() {
    let mut fields = Vec::new();
    for i in 0..100 {
        fields.push(NamedField {
            ident: format!("f{:02}", i),
            ty: Type::Prim(PrimType::U8),
        });
    }
    let ty = record("Gigantic", Shape::Named(NamedShape { fields }));
    assert!(ty.is_well_formed());
}

#[test]
fn has_heap_primitives() {
    assert!(!reflector::has_heap(&Type::Prim(PrimType::I32)));
    assert!(!reflector::has_heap(&Type::Prim(PrimType::Str)));
    assert!(!reflector::has_heap(&Type::Ref(Box::new(Type::Prim(
        PrimType::U64
    )))));
}

#[test]
fn has_heap_containers_even_when_empty() {
    let vec_ty = Type::Sequence(Box::new(Type::Prim(PrimType::U8)));
    assert!(reflector::has_heap(&vec_ty));
    let boxed = Type::Boxed(Box::new(Type::Prim(PrimType::U8)));
    assert!(reflector::has_heap(&boxed));

    let ty = record("Holder", named_shape(vec![("buf", vec_ty)]));
    let empty = Value::Record(vec![Value::Sequence(vec![])]);
    let holder = reflect(ty, empty);
    assert!(holder.has_heap());
    assert_eq!(holder.heap_size(), 0);
}

#[test]
fn has_heap_any_variant() {
    let ty = sum(
        "Either",
        vec![
            ("Plain", tuple_shape(vec![Type::Prim(PrimType::I32)])),
            (
                "Heapy",
                tuple_shape(vec![Type::Sequence(Box::new(Type::Prim(PrimType::U8)))]),
            ),
        ],
    );
    let plain = reflect(ty, Value::Sum(0, vec![i32v(7)]));
    assert!(plain.has_heap());
    assert_eq!(plain.heap_size(), 0);
}

#[test]
fn field_access() {
    let ty = record(
        "Pair",
        named_shape(vec![
            ("x", Type::Prim(PrimType::I32)),
            ("y", Type::Prim(PrimType::I32)),
        ]),
    );
    let p = reflect(ty, Value::Record(vec![i32v(1), i32v(2)]));
    assert_eq!(p.try_get_ref(None, 0), Some(&i32v(1)));
    assert_eq!(p.try_get_ref(None, 1), Some(&i32v(2)));

    let ty = sum(
        "Choice",
        vec![
            ("L", tuple_shape(vec![Type::Prim(PrimType::I32)])),
            ("R", tuple_shape(vec![Type::Prim(PrimType::U8)])),
        ],
    );
    let v = reflect(ty, Value::Sum(0, vec![i32v(9)]));
    assert_eq!(v.try_get_ref(Some(0), 0), Some(&i32v(9)));
    assert_eq!(v.try_get_ref(Some(1), 0), None);
}

#[test]
fn access_protocol() {
    let ty = sum(
        "Shape2",
        vec![
            ("Dot", Shape::Unit(UnitShape)),
            ("At", named_shape(vec![("x", Type::Prim(PrimType::I32))])),
        ],
    );
    assert_eq!(ty.ident(), "Shape2");
    assert_eq!(ty.root_ident(), "Shape2");

    let variants = match &ty.kind {
        Kind::Enum(ek) => &ek.variants,
        _ => panic!("a sum type"),
    };
    let at = &variants[1];
    assert_eq!(at.ident(), "At");
    assert_eq!(at.root_ident(), "Shape2");
    assert_eq!(at.variant_index(), 1);
    assert!(matches!(at.shape().strategy(), Strategy::Named));

    let value = at.from_values(vec![i32v(3)]);
    assert_eq!(value, Value::Sum(1, vec![i32v(3)]));
    assert!(at.is_active(&value));
    assert!(!variants[0].is_active(&value));

    let record_kind = StructKind {
        shape: tuple_shape(vec![Type::Prim(PrimType::I32)]),
    };
    assert!(matches!(record_kind.shape().strategy(), Strategy::Newtype));
    assert_eq!(record_kind.from_values(vec![i32v(5)]), Value::Record(vec![i32v(5)]));
}

#[test]
fn nominal_sizes() {
    assert_eq!(reflector::ty_size(&Type::Prim(PrimType::U8)), 1);
    assert_eq!(reflector::ty_size(&Type::Prim(PrimType::I32)), 4);
    assert_eq!(reflector::ty_size(&Type::Boxed(Box::new(Type::Prim(PrimType::U64)))), 8);
    assert_eq!(
        reflector::ty_size(&Type::Array(Box::new(Type::Prim(PrimType::U16)), 10)),
        20
    );
}

#[test]
fn heap_size_adds_over_fields() {
    let ty = record(
        "Two",
        named_shape(vec![
            ("first", Type::Sequence(Box::new(Type::Prim(PrimType::U8)))),
            ("second", Type::Sequence(Box::new(Type::Prim(PrimType::U8)))),
        ]),
    );
    let value = Value::Record(vec![
        Value::Sequence((0..3).map(|_| u8v(1)).collect()),
        Value::Sequence((0..5).map(|_| u8v(2)).collect()),
    ]);
    let both = reflect(ty, value).heap_size();
    assert_eq!(both, 3 + 5);

    let nested = Type::Sequence(Box::new(Type::Sequence(Box::new(Type::Prim(PrimType::U8)))));
    let v = Value::Sequence(vec![Value::Sequence((0..4).map(|_| u8v(0)).collect())]);
    // one inner buffer header (24 bytes) plus four bytes of contents
    assert_eq!(reflector::heap_size_of(&nested, &v), 24 + 4);
}
