//! Runtime values of reflectable types, and what it means for a value to
//! conform to a descriptor.
//!
//! A record value carries its field values in ordinal order; a sum value
//! carries the ordinal of its active alternative and that alternative's
//! field values. Reference types are transparent: the value of a reference
//! field is the value it points at, held as owned data.

use vstd::prelude::*;

use crate::descriptor::Descriptor;
use crate::descriptor::EnumKind;
use crate::descriptor::Kind;
use crate::descriptor::NamedField;
use crate::descriptor::PrimType;
use crate::descriptor::Shape;
use crate::descriptor::Type;

verus! {

/// A primitive value. `Str` holds its text as owned data.
#[derive(Debug, PartialEq, Eq)]
pub enum PrimValue {
    U8(u8),
    U16(u16),
    U32(u32),
    U64(u64),
    U128(u128),
    I8(i8),
    I16(i16),
    I32(i32),
    I64(i64),
    I128(i128),
    Str(String),
}

impl PrimValue {
    /// The primitive type this value belongs to.
    pub open spec fn spec_prim_type(self) -> PrimType {
        match self {
            PrimValue::U8(_) => PrimType::U8,
            PrimValue::U16(_) => PrimType::U16,
            PrimValue::U32(_) => PrimType::U32,
            PrimValue::U64(_) => PrimType::U64,
            PrimValue::U128(_) => PrimType::U128,
            PrimValue::I8(_) => PrimType::I8,
            PrimValue::I16(_) => PrimType::I16,
            PrimValue::I32(_) => PrimType::I32,
            PrimValue::I64(_) => PrimType::I64,
            PrimValue::I128(_) => PrimType::I128,
            PrimValue::Str(_) => PrimType::Str,
        }
    }

    pub fn prim_type(&self) -> (r: PrimType)
        ensures
            r == self.spec_prim_type(),
    {
        match self {
            PrimValue::U8(_) => PrimType::U8,
            PrimValue::U16(_) => PrimType::U16,
            PrimValue::U32(_) => PrimType::U32,
            PrimValue::U64(_) => PrimType::U64,
            PrimValue::U128(_) => PrimType::U128,
            PrimValue::I8(_) => PrimType::I8,
            PrimValue::I16(_) => PrimType::I16,
            PrimValue::I32(_) => PrimType::I32,
            PrimValue::I64(_) => PrimType::I64,
            PrimValue::I128(_) => PrimType::I128,
            PrimValue::Str(_) => PrimType::Str,
        }
    }

    /// Copies this primitive value; the copy equals its source.
    pub fn duplicate(&self) -> (r: PrimValue)
        ensures
            r == *self,
    {
        match self {
            PrimValue::U8(x) => PrimValue::U8(*x),
            PrimValue::U16(x) => PrimValue::U16(*x),
            PrimValue::U32(x) => PrimValue::U32(*x),
            PrimValue::U64(x) => PrimValue::U64(*x),
            PrimValue::U128(x) => PrimValue::U128(*x),
            PrimValue::I8(x) => PrimValue::I8(*x),
            PrimValue::I16(x) => PrimValue::I16(*x),
            PrimValue::I32(x) => PrimValue::I32(*x),
            PrimValue::I64(x) => PrimValue::I64(*x),
            PrimValue::I128(x) => PrimValue::I128(*x),
            PrimValue::Str(s) => PrimValue::Str(s.clone()),
        }
    }
}

/// A value of a reflectable type, shaped by its descriptor.
#[derive(Debug, PartialEq, Eq)]
pub enum Value {
    Prim(PrimValue),
    Sequence(Vec<Value>),
    Boxed(Box<Value>),
    Array(Vec<Value>),
    Record(Vec<Value>),
    Sum(usize, Vec<Value>),
}

/// Whether `v` is a value of the element type `t`.
pub open spec fn conforms(v: Value, t: Type) -> bool
    decreases v, t,
{
    match t {
        Type::Prim(pt) => v matches Value::Prim(pv) && pv.spec_prim_type() == pt,
        Type::Ref(inner) => conforms(v, *inner),
        Type::Sequence(elem) => v matches Value::Sequence(vs) && conforms_elems(vs@, *elem),
        Type::Boxed(inner) => v matches Value::Boxed(b) && conforms(*b, *inner),
        Type::Array(elem, n) => v matches Value::Array(vs) && vs@.len() == n && conforms_elems(
            vs@,
            *elem,
        ),
        Type::Desc(d) => conforms_desc(v, *d),
    }
}

/// Whether every element of `vs` is a value of type `elem`.
pub open spec fn conforms_elems(vs: Seq<Value>, elem: Type) -> bool
    decreases vs, elem,
{
    forall|i: int| 0 <= i < vs.len() ==> conforms(#[trigger] vs[i], elem)
}

/// Whether `v` is a value of the reflectable type described by `d`.
pub open spec fn conforms_desc(v: Value, d: Descriptor) -> bool
    decreases v, d,
{
    match d.kind {
        Kind::Struct(sk) => v matches Value::Record(vals) && conforms_record(vals@, sk.shape),
        Kind::Enum(ek) => v matches Value::Sum(k, vals) && k < ek.variants@.len()
            && conforms_record(vals@, ek.variants@[k as int].record.shape),
    }
}

/// Whether `vals` supplies, in ordinal order, one conforming value for every
/// field of `shape` — no field absent, none extra.
pub open spec fn conforms_record(vals: Seq<Value>, shape: Shape) -> bool
    decreases vals, shape,
{
    match shape {
        Shape::Unit(_) => vals.len() == 0,
        Shape::Tuple(t) => conforms_fields(vals, t.fields@),
        Shape::Named(n) => conforms_named(vals, n.fields@),
    }
}

/// Positional fields: `vals[i]` conforms to `tys[i]`, with equal lengths.
pub open spec fn conforms_fields(vals: Seq<Value>, tys: Seq<Type>) -> bool
    decreases vals, tys,
{
    &&& vals.len() == tys.len()
    &&& forall|i: int| 0 <= i < vals.len() ==> conforms(#[trigger] vals[i], tys[i])
}

/// Named fields: `vals[i]` conforms to the type of `fields[i]`.
pub open spec fn conforms_named(vals: Seq<Value>, fields: Seq<NamedField>) -> bool
    decreases vals, fields,
{
    &&& vals.len() == fields.len()
    &&& forall|i: int| 0 <= i < vals.len() ==> conforms(#[trigger] vals[i], fields[i].ty)
}

fn check_conforms_elems(vs: &Vec<Value>, elem: &Type) -> (r: bool)
    ensures
        r == conforms_elems(vs@, *elem),
    decreases vs@, *elem,
{
    let mut i: usize = 0;
    while i < vs.len()
        invariant
            i <= vs@.len(),
            forall|m: int| 0 <= m < i ==> conforms(#[trigger] vs@[m], *elem),
        decreases vs@.len() - i,
    {
        if !check_conforms(&vs[i], elem) {
            return false;
        }
        i = i + 1;
    }
    true
}

fn check_conforms_record(vals: &Vec<Value>, shape: &Shape) -> (r: bool)
    ensures
        r == conforms_record(vals@, *shape),
    decreases vals@, *shape,
{
    match shape {
        Shape::Unit(_) => vals.len() == 0,
        Shape::Tuple(t) => {
            if vals.len() != t.fields.len() {
                return false;
            }
            let mut i: usize = 0;
            while i < vals.len()
                invariant
                    i <= vals@.len(),
                    vals@.len() == t.fields@.len(),
                    forall|m: int| 0 <= m < i ==> conforms(#[trigger] vals@[m], t.fields@[m]),
                decreases vals@.len() - i,
            {
                if !check_conforms(&vals[i], &t.fields[i]) {
                    return false;
                }
                i = i + 1;
            }
            true
        },
        Shape::Named(n) => {
            if vals.len() != n.fields.len() {
                return false;
            }
            let mut i: usize = 0;
            while i < vals.len()
                invariant
                    i <= vals@.len(),
                    vals@.len() == n.fields@.len(),
                    forall|m: int| 0 <= m < i ==> conforms(#[trigger] vals@[m], n.fields@[m].ty),
                decreases vals@.len() - i,
            {
                if !check_conforms(&vals[i], &n.fields[i].ty) {
                    return false;
                }
                i = i + 1;
            }
            true
        },
    }
}

fn check_conforms_desc(v: &Value, d: &Descriptor) -> (r: bool)
    ensures
        r == conforms_desc(*v, *d),
    decreases *v, *d,
{
    match &d.kind {
        Kind::Struct(sk) => match v {
            Value::Record(vals) => check_conforms_record(vals, &sk.shape),
            _ => false,
        },
        Kind::Enum(ek) => match v {
            Value::Sum(k, vals) => {
                if *k < ek.variants.len() {
                    check_conforms_record(vals, &ek.variants[*k].record.shape)
                } else {
                    false
                }
            },
            _ => false,
        },
    }
}

/// Checks at run time that `v` is a value of type `t`.
pub fn check_conforms(v: &Value, t: &Type) -> (r: bool)
    ensures
        r == conforms(*v, *t),
    decreases *v, *t,
{
    match t {
        Type::Prim(pt) => match v {
            Value::Prim(pv) => {
                let actual = pv.prim_type();
                actual == *pt
            },
            _ => false,
        },
        Type::Ref(inner) => check_conforms(v, inner),
        Type::Sequence(elem) => match v {
            Value::Sequence(vs) => check_conforms_elems(vs, elem),
            _ => false,
        },
        Type::Boxed(inner) => match v {
            Value::Boxed(b) => check_conforms(b, inner),
            _ => false,
        },
        Type::Array(elem, n) => match v {
            Value::Array(vs) => vs.len() == *n && check_conforms_elems(vs, elem),
            _ => false,
        },
        Type::Desc(d) => check_conforms_desc(v, d),
    }
}

/// Checks at run time that `v` is a value of the type described by `d`.
pub fn check_conforms_descriptor(v: &Value, d: &Descriptor) -> (r: bool)
    ensures
        r == conforms_desc(*v, *d),
{
    check_conforms_desc(v, d)
}

/// For any sum value, the activity test passes for exactly one ordinal:
/// the one the value holds.
pub proof fn lemma_one_active(e: EnumKind, v: Value, k1: int, k2: int)
    requires
        e.spec_is_active(v, k1),
        e.spec_is_active(v, k2),
    ensures
        k1 == k2,
        e.spec_is_active(v, v->Sum_0 as int),
{
}

impl EnumKind {
    /// The activity test: whether the alternative at ordinal `k` is the one
    /// `v` currently holds. For any sum value exactly one ordinal passes.
    pub open spec fn spec_is_active(self, v: Value, k: int) -> bool {
        v matches Value::Sum(a, _) && a == k
    }

    pub fn is_active(&self, v: &Value, k: usize) -> (r: bool)
        ensures
            r == self.spec_is_active(*v, k as int),
    {
        match v {
            Value::Sum(a, _) => *a == k,
            _ => false,
        }
    }
}

/// Structural equality of primitive values: text compares by its
/// characters.
pub open spec fn prim_eq(a: PrimValue, b: PrimValue) -> bool {
    match (a, b) {
        (PrimValue::U8(x), PrimValue::U8(y)) => x == y,
        (PrimValue::U16(x), PrimValue::U16(y)) => x == y,
        (PrimValue::U32(x), PrimValue::U32(y)) => x == y,
        (PrimValue::U64(x), PrimValue::U64(y)) => x == y,
        (PrimValue::U128(x), PrimValue::U128(y)) => x == y,
        (PrimValue::I8(x), PrimValue::I8(y)) => x == y,
        (PrimValue::I16(x), PrimValue::I16(y)) => x == y,
        (PrimValue::I32(x), PrimValue::I32(y)) => x == y,
        (PrimValue::I64(x), PrimValue::I64(y)) => x == y,
        (PrimValue::I128(x), PrimValue::I128(y)) => x == y,
        (PrimValue::Str(x), PrimValue::Str(y)) => x@ == y@,
        _ => false,
    }
}

/// Structural equality of values: the same structure with the same
/// contents, comparing containers element by element.
pub open spec fn value_eq(a: Value, b: Value) -> bool
    decreases a,
{
    match (a, b) {
        (Value::Prim(x), Value::Prim(y)) => prim_eq(x, y),
        (Value::Sequence(x), Value::Sequence(y)) => x@.len() == y@.len() && forall|i: int|
            0 <= i < x@.len() ==> value_eq(#[trigger] x@[i], y@[i]),
        (Value::Boxed(x), Value::Boxed(y)) => value_eq(*x, *y),
        (Value::Array(x), Value::Array(y)) => x@.len() == y@.len() && forall|i: int|
            0 <= i < x@.len() ==> value_eq(#[trigger] x@[i], y@[i]),
        (Value::Record(x), Value::Record(y)) => x@.len() == y@.len() && forall|i: int|
            0 <= i < x@.len() ==> value_eq(#[trigger] x@[i], y@[i]),
        (Value::Sum(j, x), Value::Sum(k, y)) => j == k && x@.len() == y@.len() && forall|i: int|
            0 <= i < x@.len() ==> value_eq(#[trigger] x@[i], y@[i]),
        _ => false,
    }
}

/// `value_eq` is reflexive: every value equals itself structurally.
pub proof fn lemma_value_eq_refl(a: Value)
    ensures
        value_eq(a, a),
    decreases a,
{
    match a {
        Value::Prim(_) => {},
        Value::Sequence(x) => {
            assert forall|i: int| 0 <= i < x@.len() implies value_eq(#[trigger] x@[i], x@[i]) by {
                lemma_value_eq_refl(x@[i]);
            }
        },
        Value::Boxed(x) => {
            lemma_value_eq_refl(*x);
        },
        Value::Array(x) => {
            assert forall|i: int| 0 <= i < x@.len() implies value_eq(#[trigger] x@[i], x@[i]) by {
                lemma_value_eq_refl(x@[i]);
            }
        },
        Value::Record(x) => {
            assert forall|i: int| 0 <= i < x@.len() implies value_eq(#[trigger] x@[i], x@[i]) by {
                lemma_value_eq_refl(x@[i]);
            }
        },
        Value::Sum(_, x) => {
            assert forall|i: int| 0 <= i < x@.len() implies value_eq(#[trigger] x@[i], x@[i]) by {
                lemma_value_eq_refl(x@[i]);
            }
        },
    }
}

} // verus!
