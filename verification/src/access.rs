//! The access protocol: the capabilities that descriptors expose to the
//! traversals — naming, record structure, variant activity, and
//! construction from field values.

use vstd::prelude::*;

use crate::descriptor::Shape;
use crate::descriptor::StructKind;
use crate::descriptor::Descriptor;
use crate::descriptor::VariantDescriptor;
use crate::value::Value;

verus! {

/// Anything which can be introspected: it has a stable identifier and a
/// root. The root of a plain type is the type itself; the root of a variant
/// is the sum type that owns it.
pub trait Introspect {
    spec fn spec_ident(&self) -> Seq<char>;

    spec fn spec_root_ident(&self) -> Seq<char>;

    fn ident(&self) -> (r: &String)
        ensures
            r@ == self.spec_ident(),
    ;

    fn root_ident(&self) -> (r: &String)
        ensures
            r@ == self.spec_root_ident(),
    ;
}

impl Introspect for Descriptor {
    open spec fn spec_ident(&self) -> Seq<char> {
        self.ident@
    }

    open spec fn spec_root_ident(&self) -> Seq<char> {
        self.ident@
    }

    fn ident(&self) -> (r: &String) {
        &self.ident
    }

    fn root_ident(&self) -> (r: &String) {
        &self.ident
    }
}

impl Introspect for VariantDescriptor {
    open spec fn spec_ident(&self) -> Seq<char> {
        self.ident@
    }

    open spec fn spec_root_ident(&self) -> Seq<char> {
        self.root@
    }

    fn ident(&self) -> (r: &String) {
        &self.ident
    }

    fn root_ident(&self) -> (r: &String) {
        &self.root
    }
}

/// The capability of having record structure: exposing a shape, which
/// carries the ordered field list. Both plain records and sum-type variants
/// have it; the traversals route either through the same record strategies.
pub trait Struct {
    spec fn spec_shape(&self) -> Shape;

    fn shape(&self) -> (r: &Shape)
        ensures
            *r == self.spec_shape(),
    ;
}

impl Struct for StructKind {
    open spec fn spec_shape(&self) -> Shape {
        self.shape
    }

    fn shape(&self) -> (r: &Shape) {
        &self.shape
    }
}

impl Struct for VariantDescriptor {
    open spec fn spec_shape(&self) -> Shape {
        self.record.shape
    }

    fn shape(&self) -> (r: &Shape) {
        &self.record.shape
    }
}

/// The capability of a sum-type alternative: it knows its ordinal and can
/// test whether a given sum value currently holds it.
pub trait Variant {
    spec fn spec_variant_index(&self) -> int;

    fn variant_index(&self) -> (r: usize)
        ensures
            r == self.spec_variant_index(),
    ;

    /// The activity test: of all variants of a sum type, exactly one is
    /// active for any given sum value.
    fn is_active(&self, v: &Value) -> (r: bool)
        ensures
            r == (v matches Value::Sum(k, _) && k == self.spec_variant_index()),
    ;
}

impl Variant for VariantDescriptor {
    open spec fn spec_variant_index(&self) -> int {
        self.index as int
    }

    fn variant_index(&self) -> (r: usize) {
        self.index
    }

    fn is_active(&self, v: &Value) -> (r: bool) {
        match v {
            Value::Sum(k, _) => *k == self.index,
            _ => false,
        }
    }
}

/// The capability of being constructed from a full, ordered list of field
/// values. Reconstruction supplies every field of the chosen shape exactly
/// once; a variant re-wraps the record's field values under its own ordinal.
pub trait SizedStruct {
    spec fn spec_from_values(&self, vals: Vec<Value>) -> Value;

    fn from_values(&self, vals: Vec<Value>) -> (r: Value)
        ensures
            r == self.spec_from_values(vals),
    ;
}

impl SizedStruct for StructKind {
    open spec fn spec_from_values(&self, vals: Vec<Value>) -> Value {
        Value::Record(vals)
    }

    fn from_values(&self, vals: Vec<Value>) -> (r: Value) {
        Value::Record(vals)
    }
}

impl SizedStruct for VariantDescriptor {
    open spec fn spec_from_values(&self, vals: Vec<Value>) -> Value {
        Value::Sum(self.index, vals)
    }

    fn from_values(&self, vals: Vec<Value>) -> (r: Value) {
        Value::Sum(self.index, vals)
    }
}

} // verus!
