//! The deserialization traversal: reconstructing a value from a
//! self-describing document, against a descriptor.
//!
//! The contract has two halves. `spec_de_err` is the outcome of the parse:
//! `None` when reconstruction succeeds, otherwise exactly the error the
//! traversal reports, in the order the input is read — unknown keys in a
//! field map are skipped, a key hitting a filled slot is a duplicate, and a
//! slot left empty at the end is a missing field. `de_val_rel` ties the
//! reconstructed value to the document, field by field.

use vstd::prelude::*;
use vstd::multiset::Multiset;

use crate::access::SizedStruct;
use crate::descriptor::wf_descriptor;
use crate::reflect::Reflect;
use crate::descriptor::Descriptor;
use crate::descriptor::Kind;
use crate::descriptor::NamedField;
use crate::descriptor::Shape;
use crate::descriptor::Type;
use crate::descriptor::VariantDescriptor;
use crate::document::Document;
use crate::document::Ident;
use crate::value::Value;

verus! {

/// Why a document failed to deserialize.
#[derive(Clone, Copy, Debug, PartialEq, Eq, Structural)]
pub enum Error {
    /// A positional form ended before every field was supplied.
    NotEnoughItems,
    /// A field map left a required field without a value.
    MissingField,
    /// A field map supplied the same field twice.
    DuplicateField,
    /// A variant name matched no alternative of the sum type.
    UnknownVariant,
    /// A numeric discriminant was not below the variant count.
    VariantIndexOutOfRange,
    /// The document's form does not fit the expected type.
    Mismatch,
}

impl Error {
    pub open spec fn spec_message(self) -> Seq<char> {
        match self {
            Error::NotEnoughItems => "not enough items in sequence"@,
            Error::MissingField => "missing field"@,
            Error::DuplicateField => "duplicate field"@,
            Error::UnknownVariant => "unknown variant"@,
            Error::VariantIndexOutOfRange => "variant index out of range"@,
            Error::Mismatch => "invalid type"@,
        }
    }

    /// A short description of the error.
    pub fn message(&self) -> (r: &'static str)
        ensures
            r@ == self.spec_message(),
    {
        match self {
            Error::NotEnoughItems => "not enough items in sequence",
            Error::MissingField => "missing field",
            Error::DuplicateField => "duplicate field",
            Error::UnknownVariant => "unknown variant",
            Error::VariantIndexOutOfRange => "variant index out of range",
            Error::Mismatch => "invalid type",
        }
    }
}

/// The ordinal of the first field whose identifier is exactly `name`.
pub open spec fn spec_find_field(fields: Seq<NamedField>, name: Seq<char>) -> Option<int>
    decreases fields,
{
    if fields.len() == 0 {
        None
    } else if fields.first().ident@ == name {
        Some(0)
    } else {
        match spec_find_field(fields.drop_first(), name) {
            Some(i) => Some(i + 1),
            None => None,
        }
    }
}

/// The slot a map key resolves to: a name by exact match, an index when in
/// range. A key resolving to no slot is skipped, its value discarded.
pub open spec fn spec_key_slot(fields: Seq<NamedField>, key: Ident) -> Option<int> {
    match key {
        Ident::Index(n) => if n < fields.len() {
            Some(n as int)
        } else {
            None
        },
        Ident::Name(s) => spec_find_field(fields, s@),
    }
}

/// The ordinal of the first variant whose identifier is exactly `name`.
pub open spec fn spec_find_variant(vs: Seq<VariantDescriptor>, name: Seq<char>) -> Option<int>
    decreases vs,
{
    if vs.len() == 0 {
        None
    } else if vs.first().ident@ == name {
        Some(0)
    } else {
        match spec_find_variant(vs.drop_first(), name) {
            Some(i) => Some(i + 1),
            None => None,
        }
    }
}

/// Discriminant resolution: an index must be below the variant count and a
/// name must match one alternative exactly; each failure has its own error.
pub open spec fn spec_resolve_variant(vs: Seq<VariantDescriptor>, disc: Ident) -> Result<int, Error> {
    match disc {
        Ident::Index(n) => if n < vs.len() {
            Ok(n as int)
        } else {
            Err(Error::VariantIndexOutOfRange)
        },
        Ident::Name(s) => match spec_find_variant(vs, s@) {
            Some(i) => Ok(i),
            None => Err(Error::UnknownVariant),
        },
    }
}

/// The outcome of deserializing `d` at element type `t`: `None` on success,
/// otherwise the error reported.
pub open spec fn spec_de_err(t: Type, d: Document) -> Option<Error>
    decreases d, t,
{
    match t {
        Type::Prim(pt) => match d {
            Document::Prim(pv) => if pv.spec_prim_type() == pt {
                None
            } else {
                Some(Error::Mismatch)
            },
            _ => Some(Error::Mismatch),
        },
        Type::Ref(inner) => spec_de_err(*inner, d),
        Type::Sequence(elem) => match d {
            Document::Sequence(ds) => spec_elems_err(*elem, ds@),
            _ => Some(Error::Mismatch),
        },
        Type::Boxed(inner) => spec_de_err(*inner, d),
        Type::Array(elem, n) => match d {
            Document::Sequence(ds) => if ds@.len() < n {
                Some(Error::NotEnoughItems)
            } else if ds@.len() > n {
                Some(Error::Mismatch)
            } else {
                spec_elems_err(*elem, ds@)
            },
            _ => Some(Error::Mismatch),
        },
        Type::Desc(desc) => match desc.kind {
            Kind::Struct(sk) => spec_record_err(sk.shape, d),
            Kind::Enum(ek) => spec_enum_err(ek.variants@, d),
        },
    }
}

pub open spec fn spec_elems_err(elem: Type, ds: Seq<Document>) -> Option<Error>
    decreases ds, elem,
{
    if ds.len() == 0 {
        None
    } else {
        match spec_de_err(elem, ds.first()) {
            Some(e) => Some(e),
            None => spec_elems_err(elem, ds.drop_first()),
        }
    }
}

/// The outcome of reading one record under its shape's strategy. A unit
/// record wants a unit form; a positional record wants a positional form,
/// reporting too few items before too many; a one-field positional record
/// also accepts its single field wrapped; a named record wants a field map,
/// or a positional form as fallback.
pub open spec fn spec_record_err(shape: Shape, d: Document) -> Option<Error>
    decreases d, shape,
{
    match shape {
        Shape::Unit(_) => match d {
            Document::UnitStruct(_) => None,
            _ => Some(Error::Mismatch),
        },
        Shape::Tuple(ts) => if ts.fields@.len() == 1 {
            match d {
                Document::NewtypeStruct(_, inner) => spec_de_err(ts.fields@[0], *inner),
                Document::TupleStruct(_, ds) => spec_fields_err(ts.fields@, ds@),
                Document::Sequence(ds) => spec_fields_err(ts.fields@, ds@),
                _ => Some(Error::Mismatch),
            }
        } else {
            match d {
                Document::TupleStruct(_, ds) => spec_fields_err(ts.fields@, ds@),
                Document::Sequence(ds) => spec_fields_err(ts.fields@, ds@),
                _ => Some(Error::Mismatch),
            }
        },
        Shape::Named(ns) => match d {
            Document::NamedStruct(_, pairs) => spec_map_err(
                ns.fields@,
                pairs@,
                Seq::new(ns.fields@.len(), |i: int| false),
            ),
            Document::TupleStruct(_, ds) => spec_named_pos_err(ns.fields@, ds@),
            Document::Sequence(ds) => spec_named_pos_err(ns.fields@, ds@),
            _ => Some(Error::Mismatch),
        },
    }
}

/// Positional reading: each field in ordinal order; an exhausted input is
/// "not enough items", a leftover item after the last field is a mismatch.
pub open spec fn spec_fields_err(tys: Seq<Type>, ds: Seq<Document>) -> Option<Error>
    decreases ds, tys,
{
    if tys.len() == 0 {
        if ds.len() == 0 {
            None
        } else {
            Some(Error::Mismatch)
        }
    } else if ds.len() == 0 {
        Some(Error::NotEnoughItems)
    } else {
        match spec_de_err(tys.first(), ds.first()) {
            Some(e) => Some(e),
            None => spec_fields_err(tys.drop_first(), ds.drop_first()),
        }
    }
}

pub open spec fn spec_named_pos_err(fields: Seq<NamedField>, ds: Seq<Document>) -> Option<Error>
    decreases ds, fields,
{
    if fields.len() == 0 {
        if ds.len() == 0 {
            None
        } else {
            Some(Error::Mismatch)
        }
    } else if ds.len() == 0 {
        Some(Error::NotEnoughItems)
    } else {
        match spec_de_err(fields.first().ty, ds.first()) {
            Some(e) => Some(e),
            None => spec_named_pos_err(fields.drop_first(), ds.drop_first()),
        }
    }
}

/// Reading a field map, key by key: an unresolved key is skipped with its
/// value, a key hitting a filled slot is a duplicate, an inner failure
/// propagates, and at the end every slot must be filled.
pub open spec fn spec_map_err(
    fields: Seq<NamedField>,
    pairs: Seq<(Ident, Document)>,
    filled: Seq<bool>,
) -> Option<Error>
    decreases pairs, fields,
{
    if pairs.len() == 0 {
        if forall|i: int| 0 <= i < filled.len() ==> filled[i] {
            None
        } else {
            Some(Error::MissingField)
        }
    } else {
        match spec_key_slot(fields, pairs.first().0) {
            None => spec_map_err(fields, pairs.drop_first(), filled),
            Some(i) => if filled[i] {
                Some(Error::DuplicateField)
            } else {
                match spec_de_err(fields[i].ty, pairs.first().1) {
                    Some(e) => Some(e),
                    None => spec_map_err(fields, pairs.drop_first(), filled.update(i, true)),
                }
            },
        }
    }
}

/// The outcome of reading a sum value: the discriminant resolves first,
/// then the document's content form must fit the selected alternative's
/// strategy.
pub open spec fn spec_enum_err(variants: Seq<VariantDescriptor>, d: Document) -> Option<Error>
    decreases d, variants,
{
    match d {
        Document::UnitVariant(_, disc) => match spec_resolve_variant(variants, disc) {
            Err(e) => Some(e),
            Ok(k) => match variants[k].record.shape {
                Shape::Unit(_) => None,
                _ => Some(Error::Mismatch),
            },
        },
        Document::NewtypeVariant(_, disc, inner) => match spec_resolve_variant(variants, disc) {
            Err(e) => Some(e),
            Ok(k) => match variants[k].record.shape {
                Shape::Tuple(ts) => if ts.fields@.len() == 1 {
                    spec_de_err(ts.fields@[0], *inner)
                } else {
                    Some(Error::Mismatch)
                },
                _ => Some(Error::Mismatch),
            },
        },
        Document::TupleVariant(_, disc, ds) => match spec_resolve_variant(variants, disc) {
            Err(e) => Some(e),
            Ok(k) => match variants[k].record.shape {
                Shape::Tuple(ts) => if ts.fields@.len() == 1 {
                    Some(Error::Mismatch)
                } else {
                    spec_fields_err(ts.fields@, ds@)
                },
                Shape::Named(ns) => spec_named_pos_err(ns.fields@, ds@),
                Shape::Unit(_) => Some(Error::Mismatch),
            },
        },
        Document::NamedVariant(_, disc, pairs) => match spec_resolve_variant(variants, disc) {
            Err(e) => Some(e),
            Ok(k) => match variants[k].record.shape {
                Shape::Named(ns) => spec_map_err(
                    ns.fields@,
                    pairs@,
                    Seq::new(ns.fields@.len(), |i: int| false),
                ),
                _ => Some(Error::Mismatch),
            },
        },
        _ => Some(Error::Mismatch),
    }
}

/// Whether `v` is the value that a successful read of `d` at type `t`
/// reconstructs. Together with `spec_de_err(t, d) == None` this pins the
/// result of deserialization.
pub open spec fn de_val_rel(t: Type, d: Document, v: Value) -> bool
    decreases d, t,
{
    match t {
        Type::Prim(pt) => match d {
            Document::Prim(pv) => v == Value::Prim(pv) && pv.spec_prim_type() == pt,
            _ => false,
        },
        Type::Ref(inner) => de_val_rel(*inner, d, v),
        Type::Sequence(elem) => match (d, v) {
            (Document::Sequence(ds), Value::Sequence(vs)) => vs@.len() == ds@.len() && forall|
                i: int,
            |
                0 <= i < ds@.len() ==> de_val_rel(*elem, #[trigger] ds@[i], vs@[i]),
            _ => false,
        },
        Type::Boxed(inner) => v matches Value::Boxed(b) && de_val_rel(*inner, d, *b),
        Type::Array(elem, n) => match (d, v) {
            (Document::Sequence(ds), Value::Array(vs)) => ds@.len() == n && vs@.len() == n
                && forall|i: int|
                0 <= i < ds@.len() ==> de_val_rel(*elem, #[trigger] ds@[i], vs@[i]),
            _ => false,
        },
        Type::Desc(desc) => match desc.kind {
            Kind::Struct(sk) => v matches Value::Record(vals) && rec_val_rel(sk.shape, d, vals@),
            Kind::Enum(ek) => enum_val_rel(ek.variants@, d, v),
        },
    }
}

pub open spec fn rec_val_rel(shape: Shape, d: Document, vals: Seq<Value>) -> bool
    decreases d, shape,
{
    match shape {
        Shape::Unit(_) => vals.len() == 0 && d matches Document::UnitStruct(_),
        Shape::Tuple(ts) => if ts.fields@.len() == 1 {
            match d {
                Document::NewtypeStruct(_, inner) => vals.len() == 1 && de_val_rel(
                    ts.fields@[0],
                    *inner,
                    vals[0],
                ),
                Document::TupleStruct(_, ds) => fields_val_rel(ts.fields@, ds@, vals),
                Document::Sequence(ds) => fields_val_rel(ts.fields@, ds@, vals),
                _ => false,
            }
        } else {
            match d {
                Document::TupleStruct(_, ds) => fields_val_rel(ts.fields@, ds@, vals),
                Document::Sequence(ds) => fields_val_rel(ts.fields@, ds@, vals),
                _ => false,
            }
        },
        Shape::Named(ns) => match d {
            Document::NamedStruct(_, pairs) => map_val_rel(ns.fields@, pairs@, vals),
            Document::TupleStruct(_, ds) => named_pos_val_rel(ns.fields@, ds@, vals),
            Document::Sequence(ds) => named_pos_val_rel(ns.fields@, ds@, vals),
            _ => false,
        },
    }
}

pub open spec fn fields_val_rel(tys: Seq<Type>, ds: Seq<Document>, vals: Seq<Value>) -> bool
    decreases ds, tys,
{
    &&& vals.len() == tys.len()
    &&& ds.len() == tys.len()
    &&& forall|i: int| 0 <= i < tys.len() ==> de_val_rel(tys[i], #[trigger] ds[i], vals[i])
}

pub open spec fn named_pos_val_rel(
    fields: Seq<NamedField>,
    ds: Seq<Document>,
    vals: Seq<Value>,
) -> bool
    decreases ds, fields,
{
    &&& vals.len() == fields.len()
    &&& ds.len() == fields.len()
    &&& forall|i: int| 0 <= i < fields.len() ==> de_val_rel(fields[i].ty, #[trigger] ds[i], vals[i])
}

/// Every key that resolves to a slot agrees with that slot's value; on a
/// successful read each slot has exactly one such key.
pub open spec fn map_val_rel(
    fields: Seq<NamedField>,
    pairs: Seq<(Ident, Document)>,
    vals: Seq<Value>,
) -> bool
    decreases pairs, fields,
{
    &&& vals.len() == fields.len()
    &&& forall|j: int|
        0 <= j < pairs.len() ==> match spec_key_slot(fields, (#[trigger] pairs[j]).0) {
            Some(i) => de_val_rel(fields[i].ty, pairs[j].1, vals[i]),
            None => true,
        }
}

pub open spec fn enum_val_rel(variants: Seq<VariantDescriptor>, d: Document, v: Value) -> bool
    decreases d, variants,
{
    match d {
        Document::UnitVariant(_, disc) => v matches Value::Sum(k, vals)
            && spec_resolve_variant(variants, disc) == Ok::<int, Error>(k as int)
            && vals@.len() == 0
            && variants[k as int].record.shape matches Shape::Unit(_),
        Document::NewtypeVariant(_, disc, inner) => v matches Value::Sum(k, vals)
            && spec_resolve_variant(variants, disc) == Ok::<int, Error>(k as int)
            && (match variants[k as int].record.shape {
                Shape::Tuple(ts) => ts.fields@.len() == 1 && vals@.len() == 1 && de_val_rel(
                    ts.fields@[0],
                    *inner,
                    vals@[0],
                ),
                _ => false,
            }),
        Document::TupleVariant(_, disc, ds) => v matches Value::Sum(k, vals)
            && spec_resolve_variant(variants, disc) == Ok::<int, Error>(k as int)
            && (match variants[k as int].record.shape {
                Shape::Tuple(ts) => ts.fields@.len() != 1 && fields_val_rel(ts.fields@, ds@, vals@),
                Shape::Named(ns) => named_pos_val_rel(ns.fields@, ds@, vals@),
                _ => false,
            }),
        Document::NamedVariant(_, disc, pairs) => v matches Value::Sum(k, vals)
            && spec_resolve_variant(variants, disc) == Ok::<int, Error>(k as int)
            && (match variants[k as int].record.shape {
                Shape::Named(ns) => map_val_rel(ns.fields@, pairs@, vals@),
                _ => false,
            }),
        _ => false,
    }
}

/// Characterizes name lookup: a found ordinal is the first exact match,
/// and a miss means no field bears the name.
pub proof fn lemma_find_field_spec(fields: Seq<NamedField>, name: Seq<char>)
    ensures
        match spec_find_field(fields, name) {
            Some(i) => 0 <= i < fields.len() && fields[i].ident@ == name && forall|m: int|
                0 <= m < i ==> (#[trigger] fields[m].ident@) != name,
            None => forall|m: int|
                0 <= m < fields.len() ==> (#[trigger] fields[m].ident@) != name,
        },
    decreases fields,
{
    if fields.len() > 0 {
        lemma_find_field_spec(fields.drop_first(), name);
        assert forall|m: int| 0 < m < fields.len() implies fields[m]
            == fields.drop_first()[m - 1] by {}
    }
}

/// Characterizes variant lookup in the same way.
pub proof fn lemma_find_variant_spec(vs: Seq<VariantDescriptor>, name: Seq<char>)
    ensures
        match spec_find_variant(vs, name) {
            Some(i) => 0 <= i < vs.len() && vs[i].ident@ == name && forall|m: int|
                0 <= m < i ==> (#[trigger] vs[m].ident@) != name,
            None => forall|m: int| 0 <= m < vs.len() ==> (#[trigger] vs[m].ident@) != name,
        },
    decreases vs,
{
    if vs.len() > 0 {
        lemma_find_variant_spec(vs.drop_first(), name);
        assert forall|m: int| 0 < m < vs.len() implies vs[m] == vs.drop_first()[m - 1] by {}
    }
}

fn find_field(fields: &Vec<NamedField>, name: &String) -> (r: Option<usize>)
    ensures
        match r {
            Some(i) => i < fields@.len() && spec_find_field(fields@, name@) == Some(i as int),
            None => spec_find_field(fields@, name@) is None,
        },
{
    proof {
        lemma_find_field_spec(fields@, name@);
    }
    let mut i: usize = 0;
    while i < fields.len()
        invariant
            i <= fields@.len(),
            forall|m: int| 0 <= m < i ==> (#[trigger] fields@[m].ident@) != name@,
        decreases fields@.len() - i,
    {
        if fields[i].ident == *name {
            return Some(i);
        }
        i = i + 1;
    }
    None
}

/// Resolves a map key to a field slot, or to nothing when it is unknown.
fn key_slot(fields: &Vec<NamedField>, key: &Ident) -> (r: Option<usize>)
    ensures
        match r {
            Some(i) => i < fields@.len() && spec_key_slot(fields@, *key) == Some(i as int),
            None => spec_key_slot(fields@, *key) is None,
        },
{
    match key {
        Ident::Index(n) => {
            if *n < fields.len() as u64 {
                Some(*n as usize)
            } else {
                None
            }
        },
        Ident::Name(s) => find_field(fields, s),
    }
}

/// Resolves a discriminant against the variant list.
fn resolve_variant(variants: &Vec<VariantDescriptor>, disc: &Ident) -> (r: Result<usize, Error>)
    ensures
        match r {
            Ok(k) => k < variants@.len() && spec_resolve_variant(variants@, *disc) == Ok::<
                int,
                Error,
            >(k as int),
            Err(e) => spec_resolve_variant(variants@, *disc) == Err::<int, Error>(e),
        },
{
    match disc {
        Ident::Index(n) => {
            if *n < variants.len() as u64 {
                Ok(*n as usize)
            } else {
                Err(Error::VariantIndexOutOfRange)
            }
        },
        Ident::Name(s) => {
            proof {
                lemma_find_variant_spec(variants@, s@);
            }
            let mut i: usize = 0;
            while i < variants.len()
                invariant
                    i <= variants@.len(),
                    forall|m: int| 0 <= m < i ==> (#[trigger] variants@[m].ident@) != s@,
                decreases variants@.len() - i,
            {
                if variants[i].ident == *s {
                    return Ok(i);
                }
                i = i + 1;
            }
            Err(Error::UnknownVariant)
        },
    }
}

/// The field-map accumulator: one optional slot per declared field. Filling
/// a slot twice is the duplicate-field error; a slot still empty when the
/// map is exhausted is the missing-field error.
pub struct Visit {
    pub slots: Vec<Option<Value>>,
}

impl Visit {
    /// Which slots hold a value.
    pub open spec fn spec_filled(self) -> Seq<bool> {
        Seq::new(self.slots@.len(), |i: int| self.slots@[i] is Some)
    }

    /// An accumulator with one empty slot per field.
    pub fn new(n: usize) -> (r: Visit)
        ensures
            r.slots@.len() == n,
            forall|i: int| 0 <= i < n ==> (#[trigger] r.slots@[i]) is None,
    {
        let mut slots: Vec<Option<Value>> = Vec::new();
        let mut i: usize = 0;
        while i < n
            invariant
                i <= n,
                slots@.len() == i,
                forall|m: int| 0 <= m < i ==> (#[trigger] slots@[m]) is None,
            decreases n - i,
        {
            slots.push(None);
            i = i + 1;
        }
        Visit { slots }
    }

    /// Whether the slot at `i` already holds a value.
    pub fn is_filled(&self, i: usize) -> (r: bool)
        requires
            i < self.slots@.len(),
        ensures
            r == (self.slots@[i as int] is Some),
    {
        self.slots[i].is_some()
    }

    /// Puts a value into an empty slot; a filled slot is a duplicate field.
    pub fn fill(&mut self, i: usize, v: Value) -> (r: Result<(), Error>)
        requires
            i < old(self).slots@.len(),
        ensures
            match r {
                Ok(_) => old(self).slots@[i as int] is None
                    && final(self).slots@ == old(self).slots@.update(i as int, Some(v)),
                Err(e) => e == Error::DuplicateField && old(self).slots@[i as int] is Some
                    && *final(self) == *old(self),
            },
    {
        if self.slots[i].is_some() {
            Err(Error::DuplicateField)
        } else {
            self.slots[i] = Some(v);
            Ok(())
        }
    }

    /// Takes every slot's value, in ordinal order; an empty slot is a
    /// missing field.
    pub fn unwrap_all(self) -> (r: Result<Vec<Value>, Error>)
        ensures
            match r {
                Ok(vals) => {
                    &&& forall|i: int| 0 <= i < self.slots@.len() ==> (#[trigger] self.slots@[i]) is Some
                    &&& vals@.len() == self.slots@.len()
                    &&& forall|i: int| 0 <= i < vals@.len() ==> vals@[i] == self.slots@[i]->0
                },
                Err(e) => e == Error::MissingField && exists|i: int|
                    0 <= i < self.slots@.len() && !((#[trigger] self.slots@[i]) is Some),
            },
    {
        let n = self.slots.len();
        let ghost orig = self.slots@;
        let mut slots = self.slots;
        proof {
            assert(orig.skip(0) =~= orig);
        }
        let mut vals: Vec<Value> = Vec::new();
        let mut i: usize = 0;
        while slots.len() > 0
            invariant
                n == orig.len(),
                i + slots@.len() == orig.len(),
                vals@.len() == i,
                slots@ == orig.skip(i as int),
                forall|m: int| 0 <= m < i ==> (#[trigger] orig[m]) is Some,
                forall|m: int| 0 <= m < i ==> vals@[m] == orig[m]->0,
            decreases slots@.len(),
        {
            match slots.remove(0) {
                Some(v) => {
                    proof {
                        assert(orig.skip(i as int).drop_first() =~= orig.skip(i + 1));
                        assert(orig[i as int] == orig.skip(i as int)[0]);
                    }
                    vals.push(v);
                    i = i + 1;
                },
                None => {
                    proof {
                        assert(!(orig[i as int] is Some));
                    }
                    return Err(Error::MissingField);
                },
            }
        }
        Ok(vals)
    }
}

fn de_elems(elem: &Type, ds: &Vec<Document>) -> (r: Result<Vec<Value>, Error>)
    ensures
        match r {
            Ok(vs) => {
                &&& spec_elems_err(*elem, ds@) is None
                &&& vs@.len() == ds@.len()
                &&& forall|i: int| 0 <= i < ds@.len() ==> de_val_rel(*elem, #[trigger] ds@[i], vs@[i])
            },
            Err(e) => spec_elems_err(*elem, ds@) == Some(e),
        },
    decreases ds@, *elem,
{
    proof {
        assert(ds@.skip(0) =~= ds@);
    }
    let mut vs: Vec<Value> = Vec::new();
    let mut i: usize = 0;
    while i < ds.len()
        invariant
            i <= ds@.len(),
            vs@.len() == i,
            spec_elems_err(*elem, ds@) == spec_elems_err(*elem, ds@.skip(i as int)),
            forall|m: int| 0 <= m < i ==> de_val_rel(*elem, #[trigger] ds@[m], vs@[m]),
        decreases ds@.len() - i,
    {
        proof {
            assert(ds@.skip(i as int).drop_first() =~= ds@.skip(i + 1));
            assert(ds@.skip(i as int).first() == ds@[i as int]);
        }
        match deserialize(elem, &ds[i]) {
            Ok(v) => {
                vs.push(v);
                i = i + 1;
            },
            Err(e) => {
                return Err(e);
            },
        }
    }
    proof {
        assert(ds@.skip(ds@.len() as int) =~= Seq::<Document>::empty());
    }
    Ok(vs)
}

fn de_fields(tys: &Vec<Type>, ds: &Vec<Document>) -> (r: Result<Vec<Value>, Error>)
    ensures
        match r {
            Ok(vals) => spec_fields_err(tys@, ds@) is None && fields_val_rel(tys@, ds@, vals@),
            Err(e) => spec_fields_err(tys@, ds@) == Some(e),
        },
    decreases ds@, tys@,
{
    proof {
        assert(tys@.skip(0) =~= tys@);
        assert(ds@.skip(0) =~= ds@);
    }
    let mut vals: Vec<Value> = Vec::new();
    let mut i: usize = 0;
    while i < tys.len()
        invariant
            i <= tys@.len(),
            vals@.len() == i,
            i <= ds@.len(),
            spec_fields_err(tys@, ds@) == spec_fields_err(tys@.skip(i as int), ds@.skip(i as int)),
            forall|m: int| 0 <= m < i ==> de_val_rel(tys@[m], #[trigger] ds@[m], vals@[m]),
        decreases tys@.len() - i,
    {
        proof {
            assert(tys@.skip(i as int).drop_first() =~= tys@.skip(i + 1));
            assert(tys@.skip(i as int).first() == tys@[i as int]);
        }
        if i >= ds.len() {
            return Err(Error::NotEnoughItems);
        }
        proof {
            assert(ds@.skip(i as int).drop_first() =~= ds@.skip(i + 1));
            assert(ds@.skip(i as int).first() == ds@[i as int]);
        }
        match deserialize(&tys[i], &ds[i]) {
            Ok(v) => {
                vals.push(v);
                i = i + 1;
            },
            Err(e) => {
                return Err(e);
            },
        }
    }
    if ds.len() > tys.len() {
        proof {
            assert(tys@.skip(tys@.len() as int) =~= Seq::<Type>::empty());
        }
        return Err(Error::Mismatch);
    }
    proof {
        assert(tys@.skip(tys@.len() as int) =~= Seq::<Type>::empty());
        assert(ds@.skip(ds@.len() as int) =~= Seq::<Document>::empty());
    }
    Ok(vals)
}

fn de_named_pos(fields: &Vec<NamedField>, ds: &Vec<Document>) -> (r: Result<Vec<Value>, Error>)
    ensures
        match r {
            Ok(vals) => spec_named_pos_err(fields@, ds@) is None && named_pos_val_rel(
                fields@,
                ds@,
                vals@,
            ),
            Err(e) => spec_named_pos_err(fields@, ds@) == Some(e),
        },
    decreases ds@, fields@,
{
    proof {
        assert(fields@.skip(0) =~= fields@);
        assert(ds@.skip(0) =~= ds@);
    }
    let mut vals: Vec<Value> = Vec::new();
    let mut i: usize = 0;
    while i < fields.len()
        invariant
            i <= fields@.len(),
            vals@.len() == i,
            i <= ds@.len(),
            spec_named_pos_err(fields@, ds@) == spec_named_pos_err(
                fields@.skip(i as int),
                ds@.skip(i as int),
            ),
            forall|m: int| 0 <= m < i ==> de_val_rel(fields@[m].ty, #[trigger] ds@[m], vals@[m]),
        decreases fields@.len() - i,
    {
        proof {
            assert(fields@.skip(i as int).drop_first() =~= fields@.skip(i + 1));
            assert(fields@.skip(i as int).first() == fields@[i as int]);
        }
        if i >= ds.len() {
            return Err(Error::NotEnoughItems);
        }
        proof {
            assert(ds@.skip(i as int).drop_first() =~= ds@.skip(i + 1));
            assert(ds@.skip(i as int).first() == ds@[i as int]);
        }
        match deserialize(&fields[i].ty, &ds[i]) {
            Ok(v) => {
                vals.push(v);
                i = i + 1;
            },
            Err(e) => {
                return Err(e);
            },
        }
    }
    if ds.len() > fields.len() {
        proof {
            assert(fields@.skip(fields@.len() as int) =~= Seq::<NamedField>::empty());
        }
        return Err(Error::Mismatch);
    }
    proof {
        assert(fields@.skip(fields@.len() as int) =~= Seq::<NamedField>::empty());
        assert(ds@.skip(ds@.len() as int) =~= Seq::<Document>::empty());
    }
    Ok(vals)
}

/// Reads a field map: resolved keys fill their slots, unknown keys are
/// skipped with their values, and at the end every slot must be filled.
fn de_map(fields: &Vec<NamedField>, pairs: &Vec<(Ident, Document)>) -> (r: Result<Vec<Value>, Error>)
    ensures
        match r {
            Ok(vals) => spec_map_err(
                fields@,
                pairs@,
                Seq::new(fields@.len(), |i: int| false),
            ) is None && map_val_rel(fields@, pairs@, vals@),
            Err(e) => spec_map_err(fields@, pairs@, Seq::new(fields@.len(), |i: int| false))
                == Some(e),
        },
    decreases pairs@, fields@,
{
    let ghost init = Seq::new(fields@.len(), |i: int| false);
    let mut visit = Visit::new(fields.len());
    proof {
        assert(visit.spec_filled() =~= init);
        assert(pairs@.skip(0) =~= pairs@);
    }
    let mut j: usize = 0;
    while j < pairs.len()
        invariant
            j <= pairs@.len(),
            visit.slots@.len() == fields@.len(),
            spec_map_err(fields@, pairs@, init) == spec_map_err(
                fields@,
                pairs@.skip(j as int),
                visit.spec_filled(),
            ),
            forall|m: int|
                0 <= m < j ==> match spec_key_slot(fields@, (#[trigger] pairs@[m]).0) {
                    Some(i) => 0 <= i < fields@.len() && visit.slots@[i] is Some && de_val_rel(
                        fields@[i].ty,
                        pairs@[m].1,
                        visit.slots@[i]->0,
                    ),
                    None => true,
                },
        decreases pairs@.len() - j,
    {
        proof {
            assert(pairs@.skip(j as int).drop_first() =~= pairs@.skip(j + 1));
            assert(pairs@.skip(j as int).first() == pairs@[j as int]);
        }
        let pair = &pairs[j];
        match key_slot(fields, &pair.0) {
            None => {
                j = j + 1;
            },
            Some(i) => {
                if visit.is_filled(i) {
                    return Err(Error::DuplicateField);
                }
                match deserialize(&fields[i].ty, &pair.1) {
                    Err(e) => {
                        return Err(e);
                    },
                    Ok(v) => {
                        let ghost before = visit.spec_filled();
                        match visit.fill(i, v) {
                            Ok(_) => {
                                proof {
                                    assert(visit.spec_filled() =~= before.update(i as int, true));
                                }
                                j = j + 1;
                            },
                            Err(_) => {
                                // the slot was checked empty just above, so
                                // filling cannot report a duplicate
                                proof {
                                    assert(false);
                                }
                                return Err(Error::DuplicateField);
                            },
                        }
                    },
                }
            },
        }
    }
    proof {
        assert(pairs@.skip(pairs@.len() as int) =~= Seq::<(Ident, Document)>::empty());
    }
    let ghost slots_before = visit.slots@;
    match visit.unwrap_all() {
        Ok(vals) => {
            proof {
                assert forall|i: int| 0 <= i < visit.spec_filled().len() implies visit.spec_filled()[i] by {
                    assert(slots_before[i] is Some);
                }
                assert(spec_map_err(
                    fields@,
                    pairs@.skip(pairs@.len() as int),
                    visit.spec_filled(),
                ) is None);
                assert(vals@.len() == fields@.len());
                assert forall|m: int| 0 <= m < pairs@.len() implies match spec_key_slot(
                    fields@,
                    (#[trigger] pairs@[m]).0,
                ) {
                    Some(i) => de_val_rel(fields@[i].ty, pairs@[m].1, vals@[i]),
                    None => true,
                } by {
                    match spec_key_slot(fields@, pairs@[m].0) {
                        Some(i) => {
                            assert(slots_before[i] is Some && de_val_rel(
                                fields@[i].ty,
                                pairs@[m].1,
                                slots_before[i]->0,
                            ));
                            assert(vals@[i] == slots_before[i]->0);
                        },
                        None => {},
                    }
                }
            }
            Ok(vals)
        },
        Err(e) => {
            proof {
                let i = choose|i: int|
                    0 <= i < slots_before.len() && !((#[trigger] slots_before[i]) is Some);
                assert(!visit.spec_filled()[i]);
                assert(spec_map_err(
                    fields@,
                    pairs@.skip(pairs@.len() as int),
                    visit.spec_filled(),
                ) == Some(Error::MissingField));
            }
            Err(e)
        },
    }
}

/// Reads one record's field values under its shape's strategy.
fn de_record(shape: &Shape, d: &Document) -> (r: Result<Vec<Value>, Error>)
    ensures
        match r {
            Ok(vals) => spec_record_err(*shape, *d) is None && rec_val_rel(*shape, *d, vals@),
            Err(e) => spec_record_err(*shape, *d) == Some(e),
        },
    decreases *d, *shape,
{
    match shape {
        Shape::Unit(_) => match d {
            Document::UnitStruct(_) => Ok(Vec::new()),
            _ => Err(Error::Mismatch),
        },
        Shape::Tuple(ts) => {
            if ts.fields.len() == 1 {
                match d {
                    Document::NewtypeStruct(_, inner) => match deserialize(&ts.fields[0], inner) {
                        Ok(v) => {
                            let mut vals: Vec<Value> = Vec::new();
                            vals.push(v);
                            Ok(vals)
                        },
                        Err(e) => Err(e),
                    },
                    Document::TupleStruct(_, ds) => de_fields(&ts.fields, ds),
                    Document::Sequence(ds) => de_fields(&ts.fields, ds),
                    _ => Err(Error::Mismatch),
                }
            } else {
                match d {
                    Document::TupleStruct(_, ds) => de_fields(&ts.fields, ds),
                    Document::Sequence(ds) => de_fields(&ts.fields, ds),
                    _ => Err(Error::Mismatch),
                }
            }
        },
        Shape::Named(ns) => match d {
            Document::NamedStruct(_, pairs) => de_map(&ns.fields, pairs),
            Document::TupleStruct(_, ds) => de_named_pos(&ns.fields, ds),
            Document::Sequence(ds) => de_named_pos(&ns.fields, ds),
            _ => Err(Error::Mismatch),
        },
    }
}

/// Reads a sum value: the discriminant picks the alternative, the content
/// is read under that alternative's record strategy, and the field values
/// are re-wrapped under the alternative's ordinal.
fn de_enum(variants: &Vec<VariantDescriptor>, d: &Document) -> (r: Result<Value, Error>)
    ensures
        match r {
            Ok(v) => spec_enum_err(variants@, *d) is None && enum_val_rel(variants@, *d, v),
            Err(e) => spec_enum_err(variants@, *d) == Some(e),
        },
    decreases *d, variants@,
{
    match d {
        Document::UnitVariant(_, disc) => match resolve_variant(variants, disc) {
            Err(e) => Err(e),
            Ok(k) => match &variants[k].record.shape {
                Shape::Unit(_) => Ok(Value::Sum(k, Vec::new())),
                _ => Err(Error::Mismatch),
            },
        },
        Document::NewtypeVariant(_, disc, inner) => match resolve_variant(variants, disc) {
            Err(e) => Err(e),
            Ok(k) => match &variants[k].record.shape {
                Shape::Tuple(ts) => {
                    if ts.fields.len() == 1 {
                        match deserialize(&ts.fields[0], inner) {
                            Ok(v) => {
                                let mut vals: Vec<Value> = Vec::new();
                                vals.push(v);
                                Ok(Value::Sum(k, vals))
                            },
                            Err(e) => Err(e),
                        }
                    } else {
                        Err(Error::Mismatch)
                    }
                },
                _ => Err(Error::Mismatch),
            },
        },
        Document::TupleVariant(_, disc, ds) => match resolve_variant(variants, disc) {
            Err(e) => Err(e),
            Ok(k) => match &variants[k].record.shape {
                Shape::Tuple(ts) => {
                    if ts.fields.len() == 1 {
                        Err(Error::Mismatch)
                    } else {
                        match de_fields(&ts.fields, ds) {
                            Ok(vals) => Ok(Value::Sum(k, vals)),
                            Err(e) => Err(e),
                        }
                    }
                },
                Shape::Named(ns) => match de_named_pos(&ns.fields, ds) {
                    Ok(vals) => Ok(Value::Sum(k, vals)),
                    Err(e) => Err(e),
                },
                Shape::Unit(_) => Err(Error::Mismatch),
            },
        },
        Document::NamedVariant(_, disc, pairs) => match resolve_variant(variants, disc) {
            Err(e) => Err(e),
            Ok(k) => match &variants[k].record.shape {
                Shape::Named(ns) => match de_map(&ns.fields, pairs) {
                    Ok(vals) => Ok(Value::Sum(k, vals)),
                    Err(e) => Err(e),
                },
                _ => Err(Error::Mismatch),
            },
        },
        _ => Err(Error::Mismatch),
    }
}

/// Reconstructs a value of element type `t` from a self-describing
/// document. On success the result is pinned by `de_val_rel`; on failure
/// the error is exactly `spec_de_err`'s.
pub fn deserialize(t: &Type, d: &Document) -> (r: Result<Value, Error>)
    ensures
        match r {
            Ok(v) => spec_de_err(*t, *d) is None && de_val_rel(*t, *d, v),
            Err(e) => spec_de_err(*t, *d) == Some(e),
        },
    decreases *d, *t,
{
    match t {
        Type::Prim(pt) => match d {
            Document::Prim(pv) => {
                let actual = pv.prim_type();
                if actual == *pt {
                    Ok(Value::Prim(pv.duplicate()))
                } else {
                    Err(Error::Mismatch)
                }
            },
            _ => Err(Error::Mismatch),
        },
        Type::Ref(inner) => deserialize(inner, d),
        Type::Sequence(elem) => match d {
            Document::Sequence(ds) => match de_elems(elem, ds) {
                Ok(vs) => Ok(Value::Sequence(vs)),
                Err(e) => Err(e),
            },
            _ => Err(Error::Mismatch),
        },
        Type::Boxed(inner) => match deserialize(inner, d) {
            Ok(v) => Ok(Value::Boxed(Box::new(v))),
            Err(e) => Err(e),
        },
        Type::Array(elem, n) => match d {
            Document::Sequence(ds) => {
                if ds.len() < *n {
                    Err(Error::NotEnoughItems)
                } else if ds.len() > *n {
                    Err(Error::Mismatch)
                } else {
                    match de_elems(elem, ds) {
                        Ok(vs) => Ok(Value::Array(vs)),
                        Err(e) => Err(e),
                    }
                }
            },
            _ => Err(Error::Mismatch),
        },
        Type::Desc(desc) => match &desc.kind {
            Kind::Struct(sk) => match de_record(&sk.shape, d) {
                Ok(vals) => Ok(sk.from_values(vals)),
                Err(e) => Err(e),
            },
            Kind::Enum(ek) => de_enum(&ek.variants, d),
        },
    }
}

/// How many keys of `pairs` resolve to the slot `i`.
pub open spec fn slot_count(fields: Seq<NamedField>, pairs: Seq<(Ident, Document)>, i: int) -> nat
    decreases pairs,
{
    if pairs.len() == 0 {
        0
    } else {
        (if spec_key_slot(fields, pairs.first().0) == Some(i) {
            1nat
        } else {
            0nat
        }) + slot_count(fields, pairs.drop_first(), i)
    }
}

/// `slot_count` is a function of the multiset of pairs alone: it equals the
/// size of the multiset filtered to the keys resolving to `i`.
pub proof fn lemma_slot_count_multiset(
    fields: Seq<NamedField>,
    pairs: Seq<(Ident, Document)>,
    i: int,
)
    ensures
        slot_count(fields, pairs, i) == pairs.to_multiset().filter(
            |p: (Ident, Document)| spec_key_slot(fields, p.0) == Some(i),
        ).len(),
    decreases pairs,
{
    broadcast use vstd::seq_lib::group_to_multiset_ensures;

    let pred = |p: (Ident, Document)| spec_key_slot(fields, p.0) == Some(i);
    if pairs.len() == 0 {
        assert(pairs.to_multiset().filter(pred) =~= Multiset::<(Ident, Document)>::empty());
    } else {
        let p0 = pairs.first();
        let rest = pairs.drop_first();
        lemma_slot_count_multiset(fields, rest, i);
        assert(pairs.remove(0) =~= rest);
        assert(rest.to_multiset() =~= pairs.to_multiset().remove(p0));
        assert(pairs.to_multiset().count(p0) > 0);
        assert(pairs.to_multiset() =~= rest.to_multiset().insert(p0));
        if pred(p0) {
            assert(pairs.to_multiset().filter(pred) =~= rest.to_multiset().filter(pred).insert(
                p0,
            ));
        } else {
            assert(pairs.to_multiset().filter(pred) =~= rest.to_multiset().filter(pred));
        }
    }
}


/// Every key of `pairs` that resolves to a slot has a value that parses at
/// that slot's field type.
pub open spec fn pairs_clean(fields: Seq<NamedField>, pairs: Seq<(Ident, Document)>) -> bool {
    forall|j: int|
        0 <= j < pairs.len() ==> match spec_key_slot(fields, (#[trigger] pairs[j]).0) {
            Some(i) => spec_de_err(fields[i].ty, pairs[j].1) is None,
            None => true,
        }
}

proof fn lemma_pairs_clean_unfold(fields: Seq<NamedField>, pairs: Seq<(Ident, Document)>)
    requires
        pairs.len() > 0,
    ensures
        pairs_clean(fields, pairs) <==> ((match spec_key_slot(fields, pairs.first().0) {
            Some(i) => spec_de_err(fields[i].ty, pairs.first().1) is None,
            None => true,
        }) && pairs_clean(fields, pairs.drop_first())),
{
    let rest = pairs.drop_first();
    assert forall|j: int| 0 < j < pairs.len() implies pairs[j] == rest[j - 1] by {}
    if pairs_clean(fields, pairs) {
        assert forall|j: int| 0 <= j < rest.len() implies match spec_key_slot(
            fields,
            (#[trigger] rest[j]).0,
        ) {
            Some(i) => spec_de_err(fields[i].ty, rest[j].1) is None,
            None => true,
        } by {
            assert(rest[j] == pairs[j + 1]);
        }
    }
    if (match spec_key_slot(fields, pairs.first().0) {
        Some(i) => spec_de_err(fields[i].ty, pairs.first().1) is None,
        None => true,
    }) && pairs_clean(fields, rest) {
        assert forall|j: int| 0 <= j < pairs.len() implies match spec_key_slot(
            fields,
            (#[trigger] pairs[j]).0,
        ) {
            Some(i) => spec_de_err(fields[i].ty, pairs[j].1) is None,
            None => true,
        } by {
            if j > 0 {
                assert(pairs[j] == rest[j - 1]);
            }
        }
    }
}

/// Characterizes a successful field-map read: starting from `filled`, the
/// fold ends without error exactly when every already-filled slot gets no
/// further key, every open slot exactly one, and every resolved value
/// parses.
pub proof fn lemma_map_err_none_iff(
    fields: Seq<NamedField>,
    pairs: Seq<(Ident, Document)>,
    filled: Seq<bool>,
)
    requires
        filled.len() == fields.len(),
    ensures
        spec_map_err(fields, pairs, filled) is None <==> ((forall|i: int|
            0 <= i < fields.len() ==> slot_count(fields, pairs, i) == (if filled[i] {
                0nat
            } else {
                1nat
            })) && pairs_clean(fields, pairs)),
    decreases pairs,
{
    if pairs.len() == 0 {
        if forall|i: int|
            0 <= i < fields.len() ==> slot_count(fields, pairs, i) == (if filled[i] {
                0nat
            } else {
                1nat
            }) {
            assert forall|i: int| 0 <= i < filled.len() implies filled[i] by {
                assert(slot_count(fields, pairs, i) == 0);
            }
        }
        if spec_map_err(fields, pairs, filled) is None {
            assert forall|i: int| 0 <= i < fields.len() implies slot_count(fields, pairs, i) == (
            if filled[i] {
                0nat
            } else {
                1nat
            }) by {
                assert(filled[i]);
            }
        }
    } else {
        let p0 = pairs.first();
        let rest = pairs.drop_first();
        lemma_pairs_clean_unfold(fields, pairs);
        match spec_key_slot(fields, p0.0) {
            None => {
                lemma_map_err_none_iff(fields, rest, filled);
                assert forall|i: int| 0 <= i < fields.len() implies slot_count(fields, pairs, i)
                    == slot_count(fields, rest, i) by {}
                assert(spec_map_err(fields, pairs, filled) == spec_map_err(fields, rest, filled));
                assert((forall|i: int|
                    0 <= i < fields.len() ==> slot_count(fields, pairs, i) == (if filled[i] {
                        0nat
                    } else {
                        1nat
                    })) <==> (forall|i: int|
                    0 <= i < fields.len() ==> slot_count(fields, rest, i) == (if filled[i] {
                        0nat
                    } else {
                        1nat
                    })));
            },
            Some(i0) => {
                assert(0 <= i0 < fields.len()) by {
                    match p0.0 {
                        Ident::Name(nm) => {
                            lemma_find_field_spec(fields, nm@);
                        },
                        _ => {},
                    }
                }
                assert(slot_count(fields, pairs, i0) == 1 + slot_count(fields, rest, i0));
                assert forall|i: int| 0 <= i < fields.len() && i != i0 implies slot_count(
                    fields,
                    pairs,
                    i,
                ) == slot_count(fields, rest, i) by {}
                if filled[i0] {
                    assert(!(spec_map_err(fields, pairs, filled) is None));
                    assert(slot_count(fields, pairs, i0) >= 1);
                } else {
                    match spec_de_err(fields[i0].ty, p0.1) {
                        Some(_) => {
                            assert(!pairs_clean(fields, pairs)) by {
                                assert(pairs[0] == p0);
                            }
                        },
                        None => {
                            let filled2 = filled.update(i0, true);
                            lemma_map_err_none_iff(fields, rest, filled2);
                            assert forall|i: int| 0 <= i < fields.len() implies ((slot_count(
                                fields,
                                pairs,
                                i,
                            ) == (if filled[i] {
                                0nat
                            } else {
                                1nat
                            })) <==> (slot_count(fields, rest, i) == (if filled2[i] {
                                0nat
                            } else {
                                1nat
                            }))) by {
                                if i != i0 {
                                    assert(slot_count(fields, pairs, i) == slot_count(
                                        fields,
                                        rest,
                                        i,
                                    ));
                                    assert(filled2[i] == filled[i]);
                                }
                            }
                            if forall|i: int|
                                0 <= i < fields.len() ==> slot_count(fields, pairs, i) == (
                                if filled[i] {
                                    0nat
                                } else {
                                    1nat
                                }) {
                                assert forall|i: int| 0 <= i < fields.len() implies slot_count(
                                    fields,
                                    rest,
                                    i,
                                ) == (if filled2[i] {
                                    0nat
                                } else {
                                    1nat
                                }) by {
                                    assert(slot_count(fields, pairs, i) == (if filled[i] {
                                        0nat
                                    } else {
                                        1nat
                                    }));
                                }
                            }
                            if forall|i: int|
                                0 <= i < fields.len() ==> slot_count(fields, rest, i) == (
                                if filled2[i] {
                                    0nat
                                } else {
                                    1nat
                                }) {
                                assert forall|i: int| 0 <= i < fields.len() implies slot_count(
                                    fields,
                                    pairs,
                                    i,
                                ) == (if filled[i] {
                                    0nat
                                } else {
                                    1nat
                                }) by {
                                    assert(slot_count(fields, rest, i) == (if filled2[i] {
                                        0nat
                                    } else {
                                        1nat
                                    }));
                                }
                            }
                        },
                    }
                }
            },
        }
    }
}

/// Named-field map order independence: a successful read is a function of
/// the multiset of key-value pairs alone — any permutation of the map reads
/// without error to the same field values.
pub proof fn lemma_named_map_order(
    fields: Seq<NamedField>,
    pairs1: Seq<(Ident, Document)>,
    pairs2: Seq<(Ident, Document)>,
    vals: Seq<Value>,
)
    requires
        pairs2.to_multiset() == pairs1.to_multiset(),
        spec_map_err(fields, pairs1, Seq::new(fields.len(), |i: int| false)) is None,
        map_val_rel(fields, pairs1, vals),
    ensures
        spec_map_err(fields, pairs2, Seq::new(fields.len(), |i: int| false)) is None,
        map_val_rel(fields, pairs2, vals),
{
    broadcast use vstd::seq_lib::group_to_multiset_ensures;

    let init = Seq::new(fields.len(), |i: int| false);
    lemma_map_err_none_iff(fields, pairs1, init);
    lemma_map_err_none_iff(fields, pairs2, init);
    assert forall|i: int| 0 <= i < fields.len() implies slot_count(fields, pairs2, i)
        == slot_count(fields, pairs1, i) by {
        lemma_slot_count_multiset(fields, pairs1, i);
        lemma_slot_count_multiset(fields, pairs2, i);
    }
    assert forall|j: int| 0 <= j < pairs2.len() implies match spec_key_slot(
        fields,
        (#[trigger] pairs2[j]).0,
    ) {
        Some(i) => spec_de_err(fields[i].ty, pairs2[j].1) is None && de_val_rel(
            fields[i].ty,
            pairs2[j].1,
            vals[i],
        ),
        None => true,
    } by {
        assert(pairs_clean(fields, pairs1));
        let p = pairs2[j];
        assert(pairs2.to_multiset().count(p) > 0);
        assert(pairs1.contains(p));
        let j1 = choose|j1: int| 0 <= j1 < pairs1.len() && pairs1[j1] == p;
        assert(match spec_key_slot(fields, pairs1[j1].0) {
            Some(i) => spec_de_err(fields[i].ty, pairs1[j1].1) is None,
            None => true,
        });
        assert(match spec_key_slot(fields, pairs1[j1].0) {
            Some(i) => de_val_rel(fields[i].ty, pairs1[j1].1, vals[i]),
            None => true,
        });
    }
}

/// A map that leaves a required field without a key fails with the
/// missing-field error, provided no key repeats a slot and every resolved
/// value parses (those failures would be reported first).
pub proof fn lemma_missing_field(fields: Seq<NamedField>, pairs: Seq<(Ident, Document)>)
    requires
        forall|i: int| 0 <= i < fields.len() ==> slot_count(fields, pairs, i) <= 1,
        pairs_clean(fields, pairs),
        exists|i: int| 0 <= i < fields.len() && slot_count(fields, pairs, i) == 0,
    ensures
        spec_map_err(fields, pairs, Seq::new(fields.len(), |i: int| false)) == Some(
            Error::MissingField,
        ),
{
    let init = Seq::new(fields.len(), |i: int| false);
    let wi = choose|i: int| 0 <= i < fields.len() && slot_count(fields, pairs, i) == 0;
    assert(!init[wi] && slot_count(fields, pairs, wi) == 0);
    lemma_missing_general(fields, pairs, init);
}

proof fn lemma_missing_general(
    fields: Seq<NamedField>,
    pairs: Seq<(Ident, Document)>,
    filled: Seq<bool>,
)
    requires
        filled.len() == fields.len(),
        forall|i: int|
            0 <= i < fields.len() && !filled[i] ==> slot_count(fields, pairs, i) <= 1,
        forall|i: int| 0 <= i < fields.len() && filled[i] ==> slot_count(fields, pairs, i) == 0,
        pairs_clean(fields, pairs),
        exists|i: int| 0 <= i < fields.len() && !filled[i] && slot_count(fields, pairs, i) == 0,
    ensures
        spec_map_err(fields, pairs, filled) == Some(Error::MissingField),
    decreases pairs,
{
    if pairs.len() == 0 {
        if forall|i: int|
            0 <= i < fields.len() ==> slot_count(fields, pairs, i) == (if filled[i] {
                0nat
            } else {
                1nat
            }) {
            assert forall|i: int| 0 <= i < filled.len() implies filled[i] by {
                assert(slot_count(fields, pairs, i) == 0);
            }
        }
        if spec_map_err(fields, pairs, filled) is None {
            assert forall|i: int| 0 <= i < fields.len() implies slot_count(fields, pairs, i) == (
            if filled[i] {
                0nat
            } else {
                1nat
            }) by {
                assert(filled[i]);
            }
        }
    } else {
        let p0 = pairs.first();
        let rest = pairs.drop_first();
        lemma_pairs_clean_unfold(fields, pairs);
        match spec_key_slot(fields, p0.0) {
            None => {
                assert forall|i: int| 0 <= i < fields.len() implies slot_count(fields, pairs, i)
                    == slot_count(fields, rest, i) by {}
                lemma_missing_general(fields, rest, filled);
            },
            Some(i0) => {
                assert(0 <= i0 < fields.len()) by {
                    match p0.0 {
                        Ident::Name(nm) => {
                            lemma_find_field_spec(fields, nm@);
                        },
                        _ => {},
                    }
                }
                assert(slot_count(fields, pairs, i0) >= 1);
                assert(!filled[i0]);
                assert forall|i: int| 0 <= i < fields.len() && i != i0 implies slot_count(
                    fields,
                    pairs,
                    i,
                ) == slot_count(fields, rest, i) by {}
                let wi = choose|i: int|
                    0 <= i < fields.len() && !filled[i] && slot_count(fields, pairs, i) == 0;
                assert(wi != i0);
                assert(!filled.update(i0, true)[wi] && slot_count(fields, rest, wi) == 0);
                lemma_missing_general(fields, rest, filled.update(i0, true));
            },
        }
    }
}

/// A map that repeats one field's key fails with the duplicate-field error,
/// provided every resolved value parses (an inner failure on an earlier key
/// would be reported first).
pub proof fn lemma_duplicate_field(fields: Seq<NamedField>, pairs: Seq<(Ident, Document)>)
    requires
        pairs_clean(fields, pairs),
        exists|i: int| 0 <= i < fields.len() && slot_count(fields, pairs, i) >= 2,
    ensures
        spec_map_err(fields, pairs, Seq::new(fields.len(), |i: int| false)) == Some(
            Error::DuplicateField,
        ),
{
    let init = Seq::new(fields.len(), |i: int| false);
    let wi = choose|i: int| 0 <= i < fields.len() && slot_count(fields, pairs, i) >= 2;
    assert(!init[wi] && slot_count(fields, pairs, wi) >= 2);
    lemma_duplicate_general(fields, pairs, init);
}

proof fn lemma_duplicate_general(
    fields: Seq<NamedField>,
    pairs: Seq<(Ident, Document)>,
    filled: Seq<bool>,
)
    requires
        filled.len() == fields.len(),
        pairs_clean(fields, pairs),
        exists|i: int|
            0 <= i < fields.len() && ((!filled[i] && slot_count(fields, pairs, i) >= 2) || (
            filled[i] && slot_count(fields, pairs, i) >= 1)),
    ensures
        spec_map_err(fields, pairs, filled) == Some(Error::DuplicateField),
    decreases pairs,
{
    let wi = choose|i: int|
        0 <= i < fields.len() && ((!filled[i] && slot_count(fields, pairs, i) >= 2) || (filled[i]
            && slot_count(fields, pairs, i) >= 1));
    if pairs.len() == 0 {
        assert(false);
    } else {
        let p0 = pairs.first();
        let rest = pairs.drop_first();
        lemma_pairs_clean_unfold(fields, pairs);
        match spec_key_slot(fields, p0.0) {
            None => {
                assert forall|i: int| 0 <= i < fields.len() implies slot_count(fields, pairs, i)
                    == slot_count(fields, rest, i) by {}
                lemma_duplicate_general(fields, rest, filled);
            },
            Some(i0) => {
                assert(0 <= i0 < fields.len()) by {
                    match p0.0 {
                        Ident::Name(nm) => {
                            lemma_find_field_spec(fields, nm@);
                        },
                        _ => {},
                    }
                }
                if filled[i0] {
                } else {
                    assert forall|i: int| 0 <= i < fields.len() && i != i0 implies slot_count(
                        fields,
                        pairs,
                        i,
                    ) == slot_count(fields, rest, i) by {}
                    assert(slot_count(fields, pairs, i0) == 1 + slot_count(fields, rest, i0));
                    let filled2 = filled.update(i0, true);
                    if wi == i0 {
                        assert(filled2[i0] && slot_count(fields, rest, i0) >= 1);
                    } else {
                        assert(filled2[wi] == filled[wi]);
                    }
                    lemma_duplicate_general(fields, rest, filled2);
                }
            },
        }
    }
}

/// The discriminant of a variant-form document, if it is one.
pub open spec fn doc_disc(d: Document) -> Option<Ident> {
    match d {
        Document::UnitVariant(_, disc) => Some(disc),
        Document::NewtypeVariant(_, disc, _) => Some(disc),
        Document::TupleVariant(_, disc, _) => Some(disc),
        Document::NamedVariant(_, disc, _) => Some(disc),
        _ => None,
    }
}

/// A numeric discriminant at or above the variant count fails with the
/// out-of-range error, whatever the content form.
pub proof fn lemma_variant_index_out_of_range(
    variants: Seq<VariantDescriptor>,
    d: Document,
    n: u64,
)
    requires
        doc_disc(d) == Some(Ident::Index(n)),
        n >= variants.len(),
    ensures
        spec_enum_err(variants, d) == Some(Error::VariantIndexOutOfRange),
{
}

/// A name discriminant matching no variant fails with the unknown-variant
/// error, whatever the content form.
pub proof fn lemma_unknown_variant(variants: Seq<VariantDescriptor>, d: Document, s: String)
    requires
        doc_disc(d) == Some(Ident::Name(s)),
        forall|k: int| 0 <= k < variants.len() ==> (#[trigger] variants[k].ident@) != s@,
    ensures
        spec_enum_err(variants, d) == Some(Error::UnknownVariant),
{
    lemma_find_variant_spec(variants, s@);
    if spec_find_variant(variants, s@) is Some {
        let k = spec_find_variant(variants, s@)->0;
        assert(variants[k].ident@ == s@);
    }
}

/// The outcome of reading a document at a whole type descriptor.
pub open spec fn spec_desc_de_err(desc: Descriptor, d: Document) -> Option<Error> {
    match desc.kind {
        Kind::Struct(sk) => spec_record_err(sk.shape, d),
        Kind::Enum(ek) => spec_enum_err(ek.variants@, d),
    }
}

/// Whether `v` is the value a successful read at `desc` reconstructs.
pub open spec fn desc_de_val_rel(desc: Descriptor, d: Document, v: Value) -> bool {
    match desc.kind {
        Kind::Struct(sk) => v matches Value::Record(vals) && rec_val_rel(sk.shape, d, vals@),
        Kind::Enum(ek) => enum_val_rel(ek.variants@, d, v),
    }
}

impl Reflect {
    /// Reconstructs a reflected value of the described type from a
    /// self-describing document. On success the value conforms to the
    /// descriptor, with every field of the chosen shape supplied exactly
    /// once; on failure the error is exactly the parse outcome.
    pub fn deserialize(ty: Descriptor, doc: &Document) -> (r: Result<Reflect, Error>)
        requires
            wf_descriptor(ty),
        ensures
            match r {
                Ok(p) => p.ty == ty && p.wf() && spec_desc_de_err(ty, *doc) is None
                    && desc_de_val_rel(ty, *doc, p.value),
                Err(e) => spec_desc_de_err(ty, *doc) == Some(e),
            },
    {
        let value = match &ty.kind {
            Kind::Struct(sk) => match de_record(&sk.shape, doc) {
                Ok(vals) => sk.from_values(vals),
                Err(e) => {
                    return Err(e);
                },
            },
            Kind::Enum(ek) => match de_enum(&ek.variants, doc) {
                Ok(v) => v,
                Err(e) => {
                    return Err(e);
                },
            },
        };
        proof {
            crate::laws::lemma_desc_de_conforms(ty, *doc, value);
        }
        Ok(Reflect { ty, value })
    }
}

} // verus!
