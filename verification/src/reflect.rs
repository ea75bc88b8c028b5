//! A reflected value: a value paired with the descriptor of its type. The
//! three traversals operate on this pairing.

use vstd::prelude::*;

use crate::descriptor::Descriptor;
use crate::descriptor::Kind;
use crate::descriptor::Shape;
use crate::descriptor::wf_descriptor;
use crate::value::Value;
use crate::value::check_conforms_descriptor;
use crate::value::conforms_desc;

verus! {

/// A value of a reflectable type together with that type's descriptor.
#[derive(Debug, PartialEq, Eq)]
pub struct Reflect {
    pub ty: Descriptor,
    pub value: Value,
}

impl Reflect {
    /// Well-formedness: the descriptor is well formed and the value conforms
    /// to it. `new` establishes this and every traversal preserves it; the
    /// pairing is never mutated afterwards.
    pub open spec fn wf(self) -> bool {
        wf_descriptor(self.ty) && conforms_desc(self.value, self.ty)
    }

    /// Pairs a value with its type's descriptor, after checking that the
    /// descriptor is well formed and the value conforms to it.
    pub fn new(ty: Descriptor, value: Value) -> (r: Option<Reflect>)
        ensures
            match r {
                Some(p) => p.wf() && p.ty == ty && p.value == value,
                None => !(wf_descriptor(ty) && conforms_desc(value, ty)),
            },
    {
        if ty.is_well_formed() && check_conforms_descriptor(&value, &ty) {
            Some(Reflect { ty, value })
        } else {
            None
        }
    }

    /// The shape that governs the field list addressed by `try_get_ref`:
    /// the record's own shape, or the shape of the variant at ordinal `k`.
    pub open spec fn spec_owner_shape(self, variant: Option<usize>) -> Shape {
        match variant {
            None => self.ty.kind->Struct_0.shape,
            Some(k) => self.ty.kind->Enum_0.variants@[k as int].record.shape,
        }
    }

    /// Whether `(variant, field)` addresses a declared field of this type:
    /// no variant ordinal for a record, a valid variant ordinal for a sum
    /// type, and in either case a field ordinal within that record's shape.
    pub open spec fn spec_addresses_field(self, variant: Option<usize>, field: int) -> bool {
        match variant {
            None => self.ty.kind matches Kind::Struct(_) && 0 <= field
                < self.ty.kind->Struct_0.shape.spec_field_count(),
            Some(k) => self.ty.kind matches Kind::Enum(_) && k < self.ty.kind->Enum_0.variants@.len()
                && 0 <= field < self.ty.kind->Enum_0.variants@[k as int]
                .record.shape.spec_field_count(),
        }
    }

    /// The field access capability: a reference to the addressed field's
    /// value inside this reflected value. The result is absent exactly when
    /// this is a sum type and the value's active alternative is not the
    /// variant owning the field; a record field is always present.
    pub fn try_get_ref(&self, variant: Option<usize>, field: usize) -> (r: Option<&Value>)
        requires
            self.wf(),
            self.spec_addresses_field(variant, field as int),
        ensures
            match variant {
                None => r matches Some(x) && *x == self.value->Record_0@[field as int],
                Some(k) => if self.value matches Value::Sum(a, _) && a == k {
                    r matches Some(x) && *x == self.value->Sum_1@[field as int]
                } else {
                    r is None
                },
            },
    {
        match variant {
            None => {
                match &self.value {
                    Value::Record(vals) => Some(&vals[field]),
                    _ => None,
                }
            },
            Some(k) => {
                match &self.value {
                    Value::Sum(a, vals) => {
                        if *a == k {
                            Some(&vals[field])
                        } else {
                            None
                        }
                    },
                    _ => None,
                }
            },
        }
    }

    /// The mutable half of the capability, with the same absence rule.
    pub fn try_get_mut(&mut self, variant: Option<usize>, field: usize) -> (r: Option<&mut Value>)
        requires
            old(self).wf(),
            old(self).spec_addresses_field(variant, field as int),
        ensures
            final(self).ty == old(self).ty,
            r is None ==> *final(self) == *old(self),
            match variant {
                None => r is Some,
                Some(k) => r is Some <==> (old(self).value matches Value::Sum(a, _) && a == k),
            },
    {
        match variant {
            None => {
                match &mut self.value {
                    Value::Record(vals) => Some(&mut vals[field]),
                    _ => None,
                }
            },
            Some(k) => {
                match &mut self.value {
                    Value::Sum(a, vals) => {
                        if *a == k {
                            Some(&mut vals[field])
                        } else {
                            None
                        }
                    },
                    _ => None,
                }
            },
        }
    }
}

} // verus!
