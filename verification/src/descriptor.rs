//! The descriptor model: immutable metadata describing the shape of a
//! reflectable type — its fields, its variants, and how they are declared.
//!
//! A descriptor is produced once per type by an external generation step and
//! never mutated afterwards; the traversals in the other modules only read it.

use vstd::prelude::*;

verus! {

/// A primitive element type: it never owns indirect storage.
///
/// `Str` stands for a borrowed string slice; on reconstruction its data is
/// re-expressed as owned text.
#[derive(Clone, Copy, Debug, PartialEq, Eq, Structural)]
pub enum PrimType {
    U8,
    U16,
    U32,
    U64,
    U128,
    I8,
    I16,
    I32,
    I64,
    I128,
    Str,
}

impl PrimType {
    /// The direct footprint of one value of this primitive, in bytes, under
    /// the model's nominal layout: each integer is its bit width in bytes and
    /// a borrowed string slice is two machine words.
    pub open spec fn spec_size(self) -> nat {
        match self {
            PrimType::U8 => 1,
            PrimType::U16 => 2,
            PrimType::U32 => 4,
            PrimType::U64 => 8,
            PrimType::U128 => 16,
            PrimType::I8 => 1,
            PrimType::I16 => 2,
            PrimType::I32 => 4,
            PrimType::I64 => 8,
            PrimType::I128 => 16,
            PrimType::Str => 16,
        }
    }

    pub fn size(&self) -> (r: usize)
        ensures
            r == self.spec_size(),
    {
        match self {
            PrimType::U8 => 1,
            PrimType::U16 => 2,
            PrimType::U32 => 4,
            PrimType::U64 => 8,
            PrimType::U128 => 16,
            PrimType::I8 => 1,
            PrimType::I16 => 2,
            PrimType::I32 => 4,
            PrimType::I64 => 8,
            PrimType::I128 => 16,
            PrimType::Str => 16,
        }
    }
}

/// The shape of a record with no fields at all (`struct A;`).
#[derive(Debug, PartialEq, Eq)]
pub struct UnitShape;

/// The shape of a record with positional fields (`struct B(i32, u8);`),
/// including the empty positional record (`struct B();`). The ordinal of a
/// field is its place in `fields`.
#[derive(Debug, PartialEq, Eq)]
pub struct TupleShape {
    pub fields: Vec<Type>,
}

/// One field of a named-field record: its identifier and its element type.
/// Its ordinal is its place in the owning `NamedShape`.
#[derive(Debug, PartialEq, Eq)]
pub struct NamedField {
    pub ident: String,
    pub ty: Type,
}

/// The shape of a record whose fields are addressed by name
/// (`struct C { a: i32 }`), including the empty one (`struct C {}`).
#[derive(Debug, PartialEq, Eq)]
pub struct NamedShape {
    pub fields: Vec<NamedField>,
}

/// How a record declares its fields. This is the explicit tag the traversals
/// switch on; each variant carries that declaration form's field list.
#[derive(Debug, PartialEq, Eq)]
pub enum Shape {
    Unit(UnitShape),
    Tuple(TupleShape),
    Named(NamedShape),
}

/// The data of a record (product) type: its shape, which carries its fields.
#[derive(Debug, PartialEq, Eq)]
pub struct StructKind {
    pub shape: Shape,
}

/// One alternative of a sum type: a record descriptor together with its
/// ordinal inside the sum type and a back-reference to the sum type's name.
#[derive(Debug, PartialEq, Eq)]
pub struct VariantDescriptor {
    pub ident: String,
    pub index: usize,
    pub root: String,
    pub record: StructKind,
}

/// The data of a sum type: its alternatives, in declaration order. That
/// order fixes the externally visible discriminant numbering.
#[derive(Debug, PartialEq, Eq)]
pub struct EnumKind {
    pub variants: Vec<VariantDescriptor>,
}

/// Whether a reflectable type is a record (product) or a sum of records.
#[derive(Debug, PartialEq, Eq)]
pub enum Kind {
    Struct(StructKind),
    Enum(EnumKind),
}

/// The descriptor of one reflectable type: a stable identifier and its kind.
#[derive(Debug, PartialEq, Eq)]
pub struct Descriptor {
    pub ident: String,
    pub kind: Kind,
}

/// The element type of a field: a primitive, a reference, one of the two
/// indirection containers, a fixed-length array, or a nested reflectable
/// type described by its own descriptor.
#[derive(Debug, PartialEq, Eq)]
pub enum Type {
    Prim(PrimType),
    Ref(Box<Type>),
    Sequence(Box<Type>),
    Boxed(Box<Type>),
    Array(Box<Type>, usize),
    Desc(Box<Descriptor>),
}

/// The traversal strategy a record shape resolves to. A one-field positional
/// record is always `Newtype`, never `Tuple`; a zero-field positional record
/// is `EmptyTuple`, which is written differently from `Unit`.
#[derive(Clone, Copy, Debug, PartialEq, Eq, Structural)]
pub enum Strategy {
    Unit,
    EmptyTuple,
    Newtype,
    Tuple,
    Named,
}

impl Shape {
    /// How many fields this shape declares.
    pub open spec fn spec_field_count(self) -> nat {
        match self {
            Shape::Unit(_) => 0,
            Shape::Tuple(t) => t.fields@.len(),
            Shape::Named(n) => n.fields@.len(),
        }
    }

    /// The element type of the field at ordinal `i`.
    pub open spec fn spec_field_ty(self, i: int) -> Type {
        match self {
            Shape::Unit(_) => Type::Prim(PrimType::U8),
            Shape::Tuple(t) => t.fields@[i],
            Shape::Named(n) => n.fields@[i].ty,
        }
    }

    pub fn field_count(&self) -> (r: usize)
        ensures
            r == self.spec_field_count(),
    {
        match self {
            Shape::Unit(_) => 0,
            Shape::Tuple(t) => t.fields.len(),
            Shape::Named(n) => n.fields.len(),
        }
    }

    /// Which of the record strategies this shape routes to.
    pub open spec fn spec_strategy(self) -> Strategy {
        match self {
            Shape::Unit(_) => Strategy::Unit,
            Shape::Tuple(t) => if t.fields@.len() == 0 {
                Strategy::EmptyTuple
            } else if t.fields@.len() == 1 {
                Strategy::Newtype
            } else {
                Strategy::Tuple
            },
            Shape::Named(_) => Strategy::Named,
        }
    }

    /// Resolves this shape to its traversal strategy: the shape resolver's
    /// record half. Sum types route each variant through the same four record
    /// strategies.
    pub fn strategy(&self) -> (r: Strategy)
        ensures
            r == self.spec_strategy(),
    {
        match self {
            Shape::Unit(_) => Strategy::Unit,
            Shape::Tuple(t) => {
                if t.fields.len() == 0 {
                    Strategy::EmptyTuple
                } else if t.fields.len() == 1 {
                    Strategy::Newtype
                } else {
                    Strategy::Tuple
                }
            },
            Shape::Named(_) => Strategy::Named,
        }
    }
}

/// Well-formedness of a field element type.
pub open spec fn wf_type(t: Type) -> bool
    decreases t,
{
    match t {
        Type::Prim(_) => true,
        Type::Ref(inner) => wf_type(*inner),
        Type::Sequence(elem) => wf_type(*elem),
        Type::Boxed(inner) => wf_type(*inner),
        Type::Array(elem, _) => wf_type(*elem),
        Type::Desc(d) => wf_descriptor(*d),
    }
}

/// Well-formedness of a shape: every field type is well formed and, for a
/// named shape, the field identifiers are pairwise distinct.
pub open spec fn wf_shape(s: Shape) -> bool
    decreases s,
{
    match s {
        Shape::Unit(_) => true,
        Shape::Tuple(t) => forall|i: int|
            0 <= i < t.fields@.len() ==> wf_type(#[trigger] t.fields@[i]),
        Shape::Named(n) => {
            &&& forall|i: int|
                0 <= i < n.fields@.len() ==> wf_type(#[trigger] n.fields@[i].ty)
            &&& forall|i: int, j: int|
                0 <= i < j < n.fields@.len() ==> #[trigger] n.fields@[i].ident@
                    != #[trigger] n.fields@[j].ident@
        },
    }
}

/// Well-formedness of a sum type's variant list: variant identifiers are
/// pairwise distinct, each variant records its own ordinal and the name of
/// the sum type that owns it, and each variant's shape is well formed.
pub open spec fn wf_enum(e: EnumKind, root: Seq<char>) -> bool
    decreases e,
{
    &&& forall|i: int|
        0 <= i < e.variants@.len() ==> wf_shape(#[trigger] e.variants@[i].record.shape)
    &&& forall|i: int|
        0 <= i < e.variants@.len() ==> (#[trigger] e.variants@[i].index) == i
    &&& forall|i: int| 0 <= i < e.variants@.len() ==> (#[trigger] e.variants@[i].root@) == root
    &&& forall|i: int, j: int|
        0 <= i < j < e.variants@.len() ==> #[trigger] e.variants@[i].ident@
            != #[trigger] e.variants@[j].ident@
}

/// Well-formedness of a whole type descriptor.
pub open spec fn wf_descriptor(d: Descriptor) -> bool
    decreases d,
{
    match d.kind {
        Kind::Struct(sk) => wf_shape(sk.shape),
        Kind::Enum(ek) => wf_enum(ek, d.ident@),
    }
}

fn check_type(t: &Type) -> (r: bool)
    ensures
        r == wf_type(*t),
    decreases *t,
{
    match t {
        Type::Prim(_) => true,
        Type::Ref(inner) => check_type(inner),
        Type::Sequence(elem) => check_type(elem),
        Type::Boxed(inner) => check_type(inner),
        Type::Array(elem, _) => check_type(elem),
        Type::Desc(d) => check_descriptor(d),
    }
}

/// Whether `idents` already holds the identifier of `fields[k]` before `k`.
fn named_ident_repeated(fields: &Vec<NamedField>, k: usize) -> (r: bool)
    requires
        k < fields@.len(),
    ensures
        r == exists|j: int| 0 <= j < k && fields@[j].ident@ == fields@[k as int].ident@,
{
    let mut j: usize = 0;
    while j < k
        invariant
            j <= k < fields@.len(),
            forall|m: int| 0 <= m < j ==> fields@[m].ident@ != fields@[k as int].ident@,
        decreases k - j,
    {
        if fields[j].ident == fields[k].ident {
            return true;
        }
        j = j + 1;
    }
    false
}

fn check_shape(s: &Shape) -> (r: bool)
    ensures
        r == wf_shape(*s),
    decreases *s,
{
    match s {
        Shape::Unit(_) => true,
        Shape::Tuple(t) => {
            let mut i: usize = 0;
            while i < t.fields.len()
                invariant
                    i <= t.fields@.len(),
                    forall|m: int| 0 <= m < i ==> wf_type(#[trigger] t.fields@[m]),
                decreases t.fields@.len() - i,
            {
                if !check_type(&t.fields[i]) {
                    return false;
                }
                i = i + 1;
            }
            true
        },
        Shape::Named(n) => {
            let mut i: usize = 0;
            while i < n.fields.len()
                invariant
                    i <= n.fields@.len(),
                    forall|m: int| 0 <= m < i ==> wf_type(#[trigger] n.fields@[m].ty),
                    forall|m: int, l: int|
                        0 <= m < l < i ==> #[trigger] n.fields@[m].ident@ != #[trigger] n.fields@[l].ident@,
                decreases n.fields@.len() - i,
            {
                if !check_type(&n.fields[i].ty) {
                    return false;
                }
                if named_ident_repeated(&n.fields, i) {
                    return false;
                }
                i = i + 1;
            }
            true
        },
    }
}

/// Whether `variants` already holds the identifier of `variants[k]` before `k`.
fn variant_ident_repeated(variants: &Vec<VariantDescriptor>, k: usize) -> (r: bool)
    requires
        k < variants@.len(),
    ensures
        r == exists|j: int| 0 <= j < k && variants@[j].ident@ == variants@[k as int].ident@,
{
    let mut j: usize = 0;
    while j < k
        invariant
            j <= k < variants@.len(),
            forall|m: int| 0 <= m < j ==> variants@[m].ident@ != variants@[k as int].ident@,
        decreases k - j,
    {
        if variants[j].ident == variants[k].ident {
            return true;
        }
        j = j + 1;
    }
    false
}

fn check_enum(e: &EnumKind, root: &String) -> (r: bool)
    ensures
        r == wf_enum(*e, root@),
    decreases *e,
{
    let mut i: usize = 0;
    while i < e.variants.len()
        invariant
            i <= e.variants@.len(),
            forall|m: int| 0 <= m < i ==> wf_shape(#[trigger] e.variants@[m].record.shape),
            forall|m: int| 0 <= m < i ==> (#[trigger] e.variants@[m].index) == m,
            forall|m: int| 0 <= m < i ==> (#[trigger] e.variants@[m].root@) == root@,
            forall|m: int, l: int|
                0 <= m < l < i ==> #[trigger] e.variants@[m].ident@ != #[trigger] e.variants@[l].ident@,
        decreases e.variants@.len() - i,
    {
        if !check_shape(&e.variants[i].record.shape) {
            return false;
        }
        if e.variants[i].index != i {
            return false;
        }
        if e.variants[i].root != *root {
            return false;
        }
        if variant_ident_repeated(&e.variants, i) {
            return false;
        }
        i = i + 1;
    }
    true
}

fn check_descriptor(d: &Descriptor) -> (r: bool)
    ensures
        r == wf_descriptor(*d),
    decreases *d,
{
    match &d.kind {
        Kind::Struct(sk) => check_shape(&sk.shape),
        Kind::Enum(ek) => check_enum(ek, &d.ident),
    }
}

impl Type {
    /// Checks this type's well-formedness at run time.
    pub fn is_well_formed(&self) -> (r: bool)
        ensures
            r == wf_type(*self),
    {
        check_type(self)
    }
}

impl Descriptor {
    /// Checks this descriptor's well-formedness at run time: every nested
    /// type is well formed, named fields and variant names are distinct, and
    /// each variant carries its own ordinal and its sum type's name.
    pub fn is_well_formed(&self) -> (r: bool)
        ensures
            r == wf_descriptor(*self),
    {
        check_descriptor(self)
    }
}

} // verus!
