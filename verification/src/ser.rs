//! The serialization traversal: walking a value through its descriptor into
//! a self-describing document.
//!
//! `ser_rel` states, form by form, which document serializes a given value:
//! the shape resolver picks the record strategy, fields are streamed in
//! ordinal order, and a sum value is written through its active alternative
//! alone, wrapped with that alternative's name as discriminant. The
//! in-memory writer cannot fail, so this traversal is total.

use vstd::prelude::*;

use crate::descriptor::Descriptor;
use crate::descriptor::Kind;
use crate::descriptor::NamedField;
use crate::descriptor::Shape;
use crate::descriptor::Strategy;
use crate::descriptor::Type;
use crate::descriptor::VariantDescriptor;
use crate::document::Document;
use crate::document::Ident;
use crate::reflect::Reflect;
use crate::value::Value;
use crate::value::conforms;
use crate::value::conforms_desc;
use crate::value::conforms_elems;
use crate::value::conforms_fields;
use crate::value::conforms_named;
use crate::value::conforms_record;

verus! {

/// Whether a discriminant or key is the given name, written as a name.
pub open spec fn disc_names(disc: Ident, name: Seq<char>) -> bool {
    disc matches Ident::Name(s) && s@ == name
}

/// Whether `d` is the serialized form of the value `v` at type `t`.
pub open spec fn ser_rel(t: Type, v: Value, d: Document) -> bool
    decreases v, t,
{
    match t {
        Type::Prim(_) => v matches Value::Prim(pv) && d == Document::Prim(pv),
        Type::Ref(inner) => ser_rel(*inner, v, d),
        Type::Sequence(elem) => match (v, d) {
            (Value::Sequence(vs), Document::Sequence(ds)) => ser_elems_rel(*elem, vs@, ds@),
            _ => false,
        },
        Type::Boxed(inner) => v matches Value::Boxed(b) && ser_rel(*inner, *b, d),
        Type::Array(elem, n) => match (v, d) {
            (Value::Array(vs), Document::Sequence(ds)) => vs@.len() == n && ser_elems_rel(
                *elem,
                vs@,
                ds@,
            ),
            _ => false,
        },
        Type::Desc(desc) => ser_desc_rel(*desc, v, d),
    }
}

pub open spec fn ser_elems_rel(elem: Type, vs: Seq<Value>, ds: Seq<Document>) -> bool
    decreases vs, elem,
{
    &&& ds.len() == vs.len()
    &&& forall|i: int| 0 <= i < vs.len() ==> ser_rel(elem, #[trigger] vs[i], ds[i])
}

/// Whether `d` serializes `v` at the reflectable type described by `desc`:
/// a record through its shape's strategy, a sum value through its active
/// alternative.
pub open spec fn ser_desc_rel(desc: Descriptor, v: Value, d: Document) -> bool
    decreases v, desc,
{
    match desc.kind {
        Kind::Struct(sk) => v matches Value::Record(vals) && ser_record_rel(
            desc.ident@,
            sk.shape,
            vals@,
            d,
        ),
        Kind::Enum(ek) => v matches Value::Sum(k, vals) && k < ek.variants@.len()
            && ser_variant_rel(desc.ident@, ek.variants@[k as int], vals@, d),
    }
}

/// The four record strategies, at top level. The strategy is the shape's:
/// a unit record writes a unit form, an empty positional record an empty
/// tuple form, a one-field positional record the single field wrapped, and
/// the remaining forms stream their fields in ordinal order.
pub open spec fn ser_record_rel(name: Seq<char>, shape: Shape, vals: Seq<Value>, d: Document) -> bool
    decreases vals, shape,
{
    match shape {
        Shape::Unit(_) => match d {
            Document::UnitStruct(n) => vals.len() == 0 && n@ == name,
            _ => false,
        },
        Shape::Tuple(ts) => if ts.fields@.len() == 0 {
            match d {
                Document::TupleStruct(n, ds) => vals.len() == 0 && n@ == name && ds@.len() == 0,
                _ => false,
            }
        } else if ts.fields@.len() == 1 {
            match d {
                Document::NewtypeStruct(n, inner) => vals.len() == 1 && n@ == name && ser_rel(
                    ts.fields@[0],
                    vals[0],
                    *inner,
                ),
                _ => false,
            }
        } else {
            match d {
                Document::TupleStruct(n, ds) => n@ == name && ser_fields_rel(
                    ts.fields@,
                    vals,
                    ds@,
                ),
                _ => false,
            }
        },
        Shape::Named(ns) => match d {
            Document::NamedStruct(n, pairs) => n@ == name && ser_named_rel(
                ns.fields@,
                vals,
                pairs@,
            ),
            _ => false,
        },
    }
}

pub open spec fn ser_fields_rel(tys: Seq<Type>, vals: Seq<Value>, ds: Seq<Document>) -> bool
    decreases vals, tys,
{
    &&& vals.len() == tys.len()
    &&& ds.len() == tys.len()
    &&& forall|i: int| 0 <= i < tys.len() ==> ser_rel(tys[i], #[trigger] vals[i], ds[i])
}

/// Named fields are written as pairs, the declared name beside the field's
/// value, in ordinal order.
pub open spec fn ser_named_rel(
    fields: Seq<NamedField>,
    vals: Seq<Value>,
    pairs: Seq<(Ident, Document)>,
) -> bool
    decreases vals, fields,
{
    &&& vals.len() == fields.len()
    &&& pairs.len() == fields.len()
    &&& forall|i: int|
        0 <= i < fields.len() ==> disc_names((#[trigger] pairs[i]).0, fields[i].ident@)
    &&& forall|i: int| 0 <= i < fields.len() ==> ser_rel(fields[i].ty, #[trigger] vals[i], pairs[i].1)
}

/// The record strategies for a sum type's active alternative, wrapped with
/// the sum type's name and the alternative's name as discriminant.
pub open spec fn ser_variant_rel(
    root: Seq<char>,
    var: VariantDescriptor,
    vals: Seq<Value>,
    d: Document,
) -> bool
    decreases vals, var,
{
    match var.record.shape {
        Shape::Unit(_) => match d {
            Document::UnitVariant(n, disc) => vals.len() == 0 && n@ == root && disc_names(
                disc,
                var.ident@,
            ),
            _ => false,
        },
        Shape::Tuple(ts) => if ts.fields@.len() == 0 {
            match d {
                Document::TupleVariant(n, disc, ds) => vals.len() == 0 && n@ == root
                    && disc_names(disc, var.ident@) && ds@.len() == 0,
                _ => false,
            }
        } else if ts.fields@.len() == 1 {
            match d {
                Document::NewtypeVariant(n, disc, inner) => vals.len() == 1 && n@ == root
                    && disc_names(disc, var.ident@) && ser_rel(ts.fields@[0], vals[0], *inner),
                _ => false,
            }
        } else {
            match d {
                Document::TupleVariant(n, disc, ds) => n@ == root && disc_names(disc, var.ident@)
                    && ser_fields_rel(ts.fields@, vals, ds@),
                _ => false,
            }
        },
        Shape::Named(ns) => match d {
            Document::NamedVariant(n, disc, pairs) => n@ == root && disc_names(disc, var.ident@)
                && ser_named_rel(ns.fields@, vals, pairs@),
            _ => false,
        },
    }
}

fn serialize_elems(elem: &Type, vs: &Vec<Value>) -> (r: Vec<Document>)
    requires
        conforms_elems(vs@, *elem),
    ensures
        ser_elems_rel(*elem, vs@, r@),
    decreases vs@, *elem,
{
    let mut ds: Vec<Document> = Vec::new();
    let mut i: usize = 0;
    while i < vs.len()
        invariant
            i <= vs@.len(),
            ds@.len() == i,
            forall|m: int| 0 <= m < i ==> ser_rel(*elem, #[trigger] vs@[m], ds@[m]),
        decreases vs@.len() - i,
    {
        let d = serialize(elem, &vs[i]);
        ds.push(d);
        i = i + 1;
    }
    ds
}

fn serialize_fields(tys: &Vec<Type>, vals: &Vec<Value>) -> (r: Vec<Document>)
    requires
        conforms_fields(vals@, tys@),
    ensures
        ser_fields_rel(tys@, vals@, r@),
    decreases vals@, tys@,
{
    let mut ds: Vec<Document> = Vec::new();
    let mut i: usize = 0;
    while i < vals.len()
        invariant
            i <= vals@.len(),
            ds@.len() == i,
            forall|m: int| 0 <= m < i ==> ser_rel(tys@[m], #[trigger] vals@[m], ds@[m]),
        decreases vals@.len() - i,
    {
        let d = serialize(&tys[i], &vals[i]);
        ds.push(d);
        i = i + 1;
    }
    ds
}

fn serialize_named(fields: &Vec<NamedField>, vals: &Vec<Value>) -> (r: Vec<(Ident, Document)>)
    requires
        conforms_named(vals@, fields@),
    ensures
        ser_named_rel(fields@, vals@, r@),
    decreases vals@, fields@,
{
    let mut pairs: Vec<(Ident, Document)> = Vec::new();
    let mut i: usize = 0;
    while i < vals.len()
        invariant
            i <= vals@.len(),
            pairs@.len() == i,
            forall|m: int|
                0 <= m < i ==> disc_names((#[trigger] pairs@[m]).0, fields@[m].ident@),
            forall|m: int|
                0 <= m < i ==> ser_rel(fields@[m].ty, #[trigger] vals@[m], pairs@[m].1),
        decreases vals@.len() - i,
    {
        let d = serialize(&fields[i].ty, &vals[i]);
        pairs.push((Ident::Name(fields[i].ident.clone()), d));
        i = i + 1;
    }
    pairs
}

/// Serializes one record's fields under the resolved strategy.
fn serialize_record(name: &String, shape: &Shape, vals: &Vec<Value>) -> (r: Document)
    requires
        conforms_record(vals@, *shape),
    ensures
        ser_record_rel(name@, *shape, vals@, r),
    decreases vals@, *shape,
{
    match shape.strategy() {
        Strategy::Unit => Document::UnitStruct(name.clone()),
        Strategy::EmptyTuple => Document::TupleStruct(name.clone(), Vec::new()),
        Strategy::Newtype => {
            let tys = match shape {
                Shape::Tuple(ts) => &ts.fields,
                _ => unreached(),
            };
            let inner = serialize(&tys[0], &vals[0]);
            Document::NewtypeStruct(name.clone(), Box::new(inner))
        },
        Strategy::Tuple => {
            let tys = match shape {
                Shape::Tuple(ts) => &ts.fields,
                _ => unreached(),
            };
            Document::TupleStruct(name.clone(), serialize_fields(tys, vals))
        },
        Strategy::Named => {
            let fields = match shape {
                Shape::Named(ns) => &ns.fields,
                _ => unreached(),
            };
            Document::NamedStruct(name.clone(), serialize_named(fields, vals))
        },
    }
}

/// Serializes a sum value through its active alternative, wrapping the
/// record form with the sum type's name and the alternative's name.
fn serialize_variant(root: &String, var: &VariantDescriptor, vals: &Vec<Value>) -> (r: Document)
    requires
        conforms_record(vals@, var.record.shape),
    ensures
        ser_variant_rel(root@, *var, vals@, r),
    decreases vals@, *var,
{
    let disc = Ident::Name(var.ident.clone());
    match var.record.shape.strategy() {
        Strategy::Unit => Document::UnitVariant(root.clone(), disc),
        Strategy::EmptyTuple => Document::TupleVariant(root.clone(), disc, Vec::new()),
        Strategy::Newtype => {
            let tys = match &var.record.shape {
                Shape::Tuple(ts) => &ts.fields,
                _ => unreached(),
            };
            let inner = serialize(&tys[0], &vals[0]);
            Document::NewtypeVariant(root.clone(), disc, Box::new(inner))
        },
        Strategy::Tuple => {
            let tys = match &var.record.shape {
                Shape::Tuple(ts) => &ts.fields,
                _ => unreached(),
            };
            Document::TupleVariant(root.clone(), disc, serialize_fields(tys, vals))
        },
        Strategy::Named => {
            let fields = match &var.record.shape {
                Shape::Named(ns) => &ns.fields,
                _ => unreached(),
            };
            Document::NamedVariant(root.clone(), disc, serialize_named(fields, vals))
        },
    }
}

/// Serializes a value of the reflectable type described by `desc`. The
/// variant scan relies on the sum invariant: exactly one alternative is
/// active, and `conforms_desc` rules its ordinal into range.
pub fn serialize_descriptor(desc: &Descriptor, v: &Value) -> (r: Document)
    requires
        conforms_desc(*v, *desc),
    ensures
        ser_desc_rel(*desc, *v, r),
    decreases *v, *desc,
{
    match &desc.kind {
        Kind::Struct(sk) => match v {
            Value::Record(vals) => serialize_record(&desc.ident, &sk.shape, vals),
            _ => unreached(),
        },
        Kind::Enum(ek) => match v {
            Value::Sum(k, vals) => serialize_variant(&desc.ident, &ek.variants[*k], vals),
            _ => unreached(),
        },
    }
}

/// Serializes a value of element type `t` into a self-describing document.
pub fn serialize(t: &Type, v: &Value) -> (r: Document)
    requires
        conforms(*v, *t),
    ensures
        ser_rel(*t, *v, r),
    decreases *v, *t,
{
    match t {
        Type::Prim(_) => match v {
            Value::Prim(pv) => Document::Prim(pv.duplicate()),
            _ => unreached(),
        },
        Type::Ref(inner) => serialize(inner, v),
        Type::Sequence(elem) => match v {
            Value::Sequence(vs) => Document::Sequence(serialize_elems(elem, vs)),
            _ => unreached(),
        },
        Type::Boxed(inner) => match v {
            Value::Boxed(b) => serialize(inner, b),
            _ => unreached(),
        },
        Type::Array(elem, _) => match v {
            Value::Array(vs) => Document::Sequence(serialize_elems(elem, vs)),
            _ => unreached(),
        },
        Type::Desc(desc) => serialize_descriptor(desc, v),
    }
}

impl Reflect {
    /// Serializes this reflected value into a self-describing document.
    pub fn serialize(&self) -> (r: Document)
        requires
            self.wf(),
        ensures
            ser_desc_rel(self.ty, self.value, r),
    {
        serialize_descriptor(&self.ty, &self.value)
    }
}

} // verus!
