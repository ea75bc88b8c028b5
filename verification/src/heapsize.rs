//! The heap-size traversal: how many bytes of indirect storage a value
//! reaches, and the static `has_heap` property of a type.
//!
//! Sizes follow the model's nominal layout: integers are their bit width in
//! bytes, references and boxes are one machine word, a growable buffer's
//! header is three machine words, record fields are packed, and a sum type
//! is an eight-byte tag beside its largest alternative. A growable buffer's
//! direct footprint is its length times its element size (its capacity is
//! taken to be its length); a boxed allocation's is its pointee's size.

use vstd::prelude::*;

use crate::descriptor::Descriptor;
use crate::descriptor::Kind;
use crate::descriptor::NamedField;
use crate::descriptor::PrimType;
use crate::descriptor::Shape;
use crate::descriptor::Type;
use crate::descriptor::VariantDescriptor;
use crate::reflect::Reflect;
use crate::value::PrimValue;
use crate::value::Value;
use crate::value::conforms;
use crate::value::conforms_elems;
use crate::value::conforms_fields;
use crate::value::conforms_named;

verus! {

/// `n`, held to what a `usize` can carry.
pub open spec fn clamped(n: nat) -> nat {
    if n <= usize::MAX as nat {
        n
    } else {
        usize::MAX as nat
    }
}

fn sat_add(a: usize, b: usize) -> (r: usize)
    ensures
        r == clamped((a + b) as nat),
{
    if a > usize::MAX - b {
        usize::MAX
    } else {
        a + b
    }
}

fn sat_mul(a: usize, b: usize) -> (r: usize)
    ensures
        r == clamped((a * b) as nat),
{
    match a.checked_mul(b) {
        Some(r) => r,
        None => usize::MAX,
    }
}

/// The direct size of one value of type `t`, in bytes.
pub open spec fn spec_ty_size(t: Type) -> nat
    decreases t,
{
    match t {
        Type::Prim(pt) => pt.spec_size(),
        Type::Ref(_) => 8,
        Type::Sequence(_) => 24,
        Type::Boxed(_) => 8,
        Type::Array(elem, n) => (n as nat) * spec_ty_size(*elem),
        Type::Desc(d) => spec_desc_size(*d),
    }
}

/// The direct size of a value of the type described by `d`.
pub open spec fn spec_desc_size(d: Descriptor) -> nat
    decreases d,
{
    match d.kind {
        Kind::Struct(sk) => spec_shape_size(sk.shape),
        Kind::Enum(ek) => 8 + spec_max_variant_size(ek.variants@),
    }
}

/// The direct size of a record: its fields' sizes, summed.
pub open spec fn spec_shape_size(s: Shape) -> nat
    decreases s,
{
    match s {
        Shape::Unit(_) => 0,
        Shape::Tuple(t) => spec_fields_size(t.fields@),
        Shape::Named(n) => spec_named_size(n.fields@),
    }
}

pub open spec fn spec_fields_size(tys: Seq<Type>) -> nat
    decreases tys,
{
    if tys.len() == 0 {
        0
    } else {
        spec_ty_size(tys.first()) + spec_fields_size(tys.drop_first())
    }
}

pub open spec fn spec_named_size(fields: Seq<NamedField>) -> nat
    decreases fields,
{
    if fields.len() == 0 {
        0
    } else {
        spec_ty_size(fields.first().ty) + spec_named_size(fields.drop_first())
    }
}

/// The size of the largest alternative of a sum type.
pub open spec fn spec_max_variant_size(vs: Seq<VariantDescriptor>) -> nat
    decreases vs,
{
    if vs.len() == 0 {
        0
    } else {
        let head = spec_shape_size(vs.first().record.shape);
        let rest = spec_max_variant_size(vs.drop_first());
        if head >= rest {
            head
        } else {
            rest
        }
    }
}

/// Whether a value of type `t` may reach indirect storage: false for every
/// primitive; true for the two indirection containers whatever they hold;
/// and otherwise the disjunction over reachable field types. For a sum type
/// the disjunction ranges over all variants, active or not.
pub open spec fn spec_has_heap(t: Type) -> bool
    decreases t,
{
    match t {
        Type::Prim(_) => false,
        Type::Ref(inner) => spec_has_heap(*inner),
        Type::Sequence(_) => true,
        Type::Boxed(_) => true,
        Type::Array(elem, _) => spec_has_heap(*elem),
        Type::Desc(d) => spec_has_heap_desc(*d),
    }
}

pub open spec fn spec_has_heap_desc(d: Descriptor) -> bool
    decreases d,
{
    match d.kind {
        Kind::Struct(sk) => spec_has_heap_shape(sk.shape),
        Kind::Enum(ek) => exists|i: int|
            0 <= i < ek.variants@.len() && spec_has_heap_shape(#[trigger] ek.variants@[i].record.shape),
    }
}

pub open spec fn spec_has_heap_shape(s: Shape) -> bool
    decreases s,
{
    match s {
        Shape::Unit(_) => false,
        Shape::Tuple(t) => exists|i: int|
            0 <= i < t.fields@.len() && spec_has_heap(#[trigger] t.fields@[i]),
        Shape::Named(n) => exists|i: int|
            0 <= i < n.fields@.len() && spec_has_heap(#[trigger] n.fields@[i].ty),
    }
}

/// The bytes of indirect storage a value `v` of type `t` reaches: zero for
/// primitives, the container's own footprint plus its contents' for the two
/// indirection containers, and the sum over present fields otherwise. For a
/// sum value only the active alternative's fields count. A value that does
/// not conform to `t` counts zero at the mismatch.
pub open spec fn spec_heap_of(t: Type, v: Value) -> nat
    decreases v, t,
{
    match t {
        Type::Prim(_) => 0,
        Type::Ref(inner) => spec_heap_of(*inner, v),
        Type::Sequence(elem) => match v {
            Value::Sequence(vs) => vs@.len() * spec_ty_size(*elem) + spec_heap_elems(*elem, vs@),
            _ => 0,
        },
        Type::Boxed(inner) => match v {
            Value::Boxed(b) => spec_ty_size(*inner) + spec_heap_of(*inner, *b),
            _ => 0,
        },
        Type::Array(elem, _) => match v {
            Value::Array(vs) => spec_heap_elems(*elem, vs@),
            _ => 0,
        },
        Type::Desc(d) => spec_heap_of_desc(*d, v),
    }
}

pub open spec fn spec_heap_elems(elem: Type, vs: Seq<Value>) -> nat
    decreases vs, elem,
{
    if vs.len() == 0 {
        0
    } else {
        spec_heap_of(elem, vs.first()) + spec_heap_elems(elem, vs.drop_first())
    }
}

pub open spec fn spec_heap_of_desc(d: Descriptor, v: Value) -> nat
    decreases v, d,
{
    match d.kind {
        Kind::Struct(sk) => match v {
            Value::Record(vals) => spec_heap_of_record(sk.shape, vals@),
            _ => 0,
        },
        Kind::Enum(ek) => match v {
            Value::Sum(k, vals) => if k < ek.variants@.len() {
                spec_heap_of_record(ek.variants@[k as int].record.shape, vals@)
            } else {
                0
            },
            _ => 0,
        },
    }
}

pub open spec fn spec_heap_of_record(shape: Shape, vals: Seq<Value>) -> nat
    decreases vals, shape,
{
    match shape {
        Shape::Unit(_) => 0,
        Shape::Tuple(t) => spec_heap_of_fields(t.fields@, vals),
        Shape::Named(n) => spec_heap_of_named(n.fields@, vals),
    }
}

pub open spec fn spec_heap_of_fields(tys: Seq<Type>, vals: Seq<Value>) -> nat
    decreases vals, tys,
{
    if vals.len() == 0 || tys.len() == 0 {
        0
    } else {
        spec_heap_of(tys.first(), vals.first()) + spec_heap_of_fields(
            tys.drop_first(),
            vals.drop_first(),
        )
    }
}

pub open spec fn spec_heap_of_named(fields: Seq<NamedField>, vals: Seq<Value>) -> nat
    decreases vals, fields,
{
    if vals.len() == 0 || fields.len() == 0 {
        0
    } else {
        spec_heap_of(fields.first().ty, vals.first()) + spec_heap_of_named(
            fields.drop_first(),
            vals.drop_first(),
        )
    }
}

/// The static `has_heap` property of a field type, at run time.
pub fn has_heap(t: &Type) -> (r: bool)
    ensures
        r == spec_has_heap(*t),
    decreases *t,
{
    match t {
        Type::Prim(_) => false,
        Type::Ref(inner) => has_heap(inner),
        Type::Sequence(_) => true,
        Type::Boxed(_) => true,
        Type::Array(elem, _) => has_heap(elem),
        Type::Desc(d) => has_heap_desc(d),
    }
}

fn has_heap_shape(s: &Shape) -> (r: bool)
    ensures
        r == spec_has_heap_shape(*s),
    decreases *s,
{
    match s {
        Shape::Unit(_) => false,
        Shape::Tuple(t) => {
            let mut i: usize = 0;
            while i < t.fields.len()
                invariant
                    i <= t.fields@.len(),
                    forall|m: int| 0 <= m < i ==> !spec_has_heap(#[trigger] t.fields@[m]),
                decreases t.fields@.len() - i,
            {
                if has_heap(&t.fields[i]) {
                    return true;
                }
                i = i + 1;
            }
            false
        },
        Shape::Named(n) => {
            let mut i: usize = 0;
            while i < n.fields.len()
                invariant
                    i <= n.fields@.len(),
                    forall|m: int| 0 <= m < i ==> !spec_has_heap(#[trigger] n.fields@[m].ty),
                decreases n.fields@.len() - i,
            {
                if has_heap(&n.fields[i].ty) {
                    return true;
                }
                i = i + 1;
            }
            false
        },
    }
}

fn has_heap_desc(d: &Descriptor) -> (r: bool)
    ensures
        r == spec_has_heap_desc(*d),
    decreases *d,
{
    match &d.kind {
        Kind::Struct(sk) => has_heap_shape(&sk.shape),
        Kind::Enum(ek) => {
            let mut i: usize = 0;
            while i < ek.variants.len()
                invariant
                    i <= ek.variants@.len(),
                    forall|m: int|
                        0 <= m < i ==> !spec_has_heap_shape(#[trigger] ek.variants@[m].record.shape),
                decreases ek.variants@.len() - i,
            {
                if has_heap_shape(&ek.variants[i].record.shape) {
                    return true;
                }
                i = i + 1;
            }
            false
        },
    }
}

/// The direct size of one value of type `t`, held to what a `usize` carries.
pub fn ty_size(t: &Type) -> (r: usize)
    ensures
        r == clamped(spec_ty_size(*t)),
    decreases *t,
{
    match t {
        Type::Prim(pt) => pt.size(),
        Type::Ref(_) => 8,
        Type::Sequence(_) => 24,
        Type::Boxed(_) => 8,
        Type::Array(elem, n) => {
            let es = ty_size(elem);
            let r = sat_mul(*n, es);
            proof {
                lemma_mul_clamped(*n as nat, spec_ty_size(**elem));
            }
            r
        },
        Type::Desc(d) => desc_size(d),
    }
}

fn shape_size(s: &Shape) -> (r: usize)
    ensures
        r == clamped(spec_shape_size(*s)),
    decreases *s,
{
    match s {
        Shape::Unit(_) => 0,
        Shape::Tuple(t) => {
            let mut i: usize = t.fields.len();
            let mut total: usize = 0;
            while i > 0
                invariant
                    i <= t.fields@.len(),
                    total == clamped(spec_fields_size(t.fields@.skip(i as int))),
                decreases i,
            {
                i = i - 1;
                let fs = ty_size(&t.fields[i]);
                proof {
                    assert(t.fields@.skip(i as int).drop_first() =~= t.fields@.skip(i + 1));
                    lemma_add_clamped(spec_ty_size(t.fields@[i as int]), spec_fields_size(t.fields@.skip(i + 1)));
                }
                total = sat_add(fs, total);
            }
            proof {
                assert(t.fields@.skip(0) =~= t.fields@);
            }
            total
        },
        Shape::Named(n) => {
            let mut i: usize = n.fields.len();
            let mut total: usize = 0;
            while i > 0
                invariant
                    i <= n.fields@.len(),
                    total == clamped(spec_named_size(n.fields@.skip(i as int))),
                decreases i,
            {
                i = i - 1;
                let fs = ty_size(&n.fields[i].ty);
                proof {
                    assert(n.fields@.skip(i as int).drop_first() =~= n.fields@.skip(i + 1));
                    lemma_add_clamped(
                        spec_ty_size(n.fields@[i as int].ty),
                        spec_named_size(n.fields@.skip(i + 1)),
                    );
                }
                total = sat_add(fs, total);
            }
            proof {
                assert(n.fields@.skip(0) =~= n.fields@);
            }
            total
        },
    }
}

fn desc_size(d: &Descriptor) -> (r: usize)
    ensures
        r == clamped(spec_desc_size(*d)),
    decreases *d,
{
    match &d.kind {
        Kind::Struct(sk) => shape_size(&sk.shape),
        Kind::Enum(ek) => {
            let mut i: usize = ek.variants.len();
            let mut widest: usize = 0;
            while i > 0
                invariant
                    i <= ek.variants@.len(),
                    widest == clamped(spec_max_variant_size(ek.variants@.skip(i as int))),
                decreases i,
            {
                i = i - 1;
                let vs = shape_size(&ek.variants[i].record.shape);
                proof {
                    assert(ek.variants@.skip(i as int).drop_first() =~= ek.variants@.skip(i + 1));
                }
                widest = if vs >= widest {
                    vs
                } else {
                    widest
                };
            }
            proof {
                assert(ek.variants@.skip(0) =~= ek.variants@);
            }
            sat_add(8, widest)
        },
    }
}

/// `clamped` distributes over a sum: clamping the parts first changes nothing.
proof fn lemma_add_clamped(a: nat, b: nat)
    ensures
        clamped(clamped(a) + clamped(b)) == clamped(a + b),
{
}

/// `clamped` distributes over a product by an exact factor.
proof fn lemma_mul_clamped(n: nat, b: nat)
    requires
        n <= usize::MAX as nat,
    ensures
        clamped(n * clamped(b)) == clamped(n * b),
{
    if b > usize::MAX as nat {
        if n == 0 {
            assert(n * clamped(b) == 0) by (nonlinear_arith)
                requires
                    n == 0,
            ;
            assert(n * b == 0) by (nonlinear_arith)
                requires
                    n == 0,
            ;
        } else {
            assert(n * clamped(b) >= clamped(b)) by (nonlinear_arith)
                requires
                    n >= 1,
            ;
            assert(n * b >= b) by (nonlinear_arith)
                requires
                    n >= 1,
            ;
        }
    }
}

/// The bytes of indirect storage `v` reaches when read as a value of `t`.
/// The result is held to what a `usize` can carry; the exact count is
/// `spec_heap_of`. This traversal cannot fail.
pub fn heap_size_of(t: &Type, v: &Value) -> (r: usize)
    ensures
        r == clamped(spec_heap_of(*t, *v)),
    decreases *v, *t,
{
    match t {
        Type::Prim(_) => 0,
        Type::Ref(inner) => heap_size_of(inner, v),
        Type::Sequence(elem) => match v {
            Value::Sequence(vs) => {
                let es = ty_size(elem);
                let direct = sat_mul(vs.len(), es);
                let indirect = heap_of_elems(elem, vs);
                proof {
                    lemma_mul_clamped(vs@.len(), spec_ty_size(**elem));
                    lemma_add_clamped(
                        vs@.len() * spec_ty_size(**elem),
                        spec_heap_elems(**elem, vs@),
                    );
                }
                sat_add(direct, indirect)
            },
            _ => 0,
        },
        Type::Boxed(inner) => match v {
            Value::Boxed(b) => {
                let direct = ty_size(inner);
                let indirect = heap_size_of(inner, b);
                proof {
                    lemma_add_clamped(spec_ty_size(**inner), spec_heap_of(**inner, **b));
                }
                sat_add(direct, indirect)
            },
            _ => 0,
        },
        Type::Array(elem, _) => match v {
            Value::Array(vs) => heap_of_elems(elem, vs),
            _ => 0,
        },
        Type::Desc(d) => heap_of_desc(d, v),
    }
}

fn heap_of_elems(elem: &Type, vs: &Vec<Value>) -> (r: usize)
    ensures
        r == clamped(spec_heap_elems(*elem, vs@)),
    decreases vs@, *elem,
{
    let mut i: usize = vs.len();
    let mut total: usize = 0;
    while i > 0
        invariant
            i <= vs@.len(),
            total == clamped(spec_heap_elems(*elem, vs@.skip(i as int))),
        decreases i,
    {
        i = i - 1;
        let h = heap_size_of(elem, &vs[i]);
        proof {
            assert(vs@.skip(i as int).drop_first() =~= vs@.skip(i + 1));
            lemma_add_clamped(
                spec_heap_of(*elem, vs@[i as int]),
                spec_heap_elems(*elem, vs@.skip(i + 1)),
            );
        }
        total = sat_add(h, total);
    }
    proof {
        assert(vs@.skip(0) =~= vs@);
    }
    total
}

fn heap_of_desc(d: &Descriptor, v: &Value) -> (r: usize)
    ensures
        r == clamped(spec_heap_of_desc(*d, *v)),
    decreases *v, *d,
{
    match &d.kind {
        Kind::Struct(sk) => match v {
            Value::Record(vals) => heap_of_record(&sk.shape, vals),
            _ => 0,
        },
        Kind::Enum(ek) => match v {
            Value::Sum(k, vals) => {
                if *k < ek.variants.len() {
                    heap_of_record(&ek.variants[*k].record.shape, vals)
                } else {
                    0
                }
            },
            _ => 0,
        },
    }
}

fn heap_of_record(shape: &Shape, vals: &Vec<Value>) -> (r: usize)
    ensures
        r == clamped(spec_heap_of_record(*shape, vals@)),
    decreases vals@, *shape,
{
    match shape {
        Shape::Unit(_) => 0,
        Shape::Tuple(t) => {
            let mut i: usize = vals.len();
            if t.fields.len() < i {
                i = t.fields.len();
            }
            let mut total: usize = 0;
            while i > 0
                invariant
                    i <= vals@.len(),
                    i <= t.fields@.len(),
                    total == clamped(
                        spec_heap_of_fields(t.fields@.skip(i as int), vals@.skip(i as int)),
                    ),
                decreases i,
            {
                i = i - 1;
                let h = heap_size_of(&t.fields[i], &vals[i]);
                proof {
                    assert(t.fields@.skip(i as int).drop_first() =~= t.fields@.skip(i + 1));
                    assert(vals@.skip(i as int).drop_first() =~= vals@.skip(i + 1));
                    lemma_add_clamped(
                        spec_heap_of(t.fields@[i as int], vals@[i as int]),
                        spec_heap_of_fields(t.fields@.skip(i + 1), vals@.skip(i + 1)),
                    );
                }
                total = sat_add(h, total);
            }
            proof {
                assert(t.fields@.skip(0) =~= t.fields@);
                assert(vals@.skip(0) =~= vals@);
            }
            total
        },
        Shape::Named(n) => {
            let mut i: usize = vals.len();
            if n.fields.len() < i {
                i = n.fields.len();
            }
            let mut total: usize = 0;
            while i > 0
                invariant
                    i <= vals@.len(),
                    i <= n.fields@.len(),
                    total == clamped(
                        spec_heap_of_named(n.fields@.skip(i as int), vals@.skip(i as int)),
                    ),
                decreases i,
            {
                i = i - 1;
                let h = heap_size_of(&n.fields[i].ty, &vals[i]);
                proof {
                    assert(n.fields@.skip(i as int).drop_first() =~= n.fields@.skip(i + 1));
                    assert(vals@.skip(i as int).drop_first() =~= vals@.skip(i + 1));
                    lemma_add_clamped(
                        spec_heap_of(n.fields@[i as int].ty, vals@[i as int]),
                        spec_heap_of_named(n.fields@.skip(i + 1), vals@.skip(i + 1)),
                    );
                }
                total = sat_add(h, total);
            }
            proof {
                assert(n.fields@.skip(0) =~= n.fields@);
                assert(vals@.skip(0) =~= vals@);
            }
            total
        },
    }
}

/// Compute the number of bytes a value uses on the heap.
pub trait HeapSize {
    /// The exact count, as a mathematical number.
    spec fn spec_heap_size(&self) -> nat;

    /// The count, held to what a `usize` can carry.
    fn heap_size(&self) -> (r: usize)
        ensures
            r == clamped(self.spec_heap_size()),
    ;
}

impl HeapSize for Reflect {
    open spec fn spec_heap_size(&self) -> nat {
        spec_heap_of_desc(self.ty, self.value)
    }

    fn heap_size(&self) -> (r: usize) {
        heap_of_desc(&self.ty, &self.value)
    }
}

impl HeapSize for PrimValue {
    /// A primitive owns no indirect storage.
    open spec fn spec_heap_size(&self) -> nat {
        0
    }

    fn heap_size(&self) -> (r: usize) {
        0
    }
}

impl Reflect {
    /// Whether this type may reach indirect storage, whatever the value.
    pub fn has_heap(&self) -> (r: bool)
        ensures
            r == spec_has_heap_desc(self.ty),
    {
        has_heap_desc(&self.ty)
    }
}

/// Heap-size additivity over positional fields: splitting the field list
/// anywhere splits the sum, so a record's heap size is the sum, field by
/// field, of its fields' heap sizes.
pub proof fn lemma_heap_fields_split(tys: Seq<Type>, vals: Seq<Value>, i: int)
    requires
        tys.len() == vals.len(),
        0 <= i <= tys.len(),
    ensures
        spec_heap_of_fields(tys, vals) == spec_heap_of_fields(tys.take(i), vals.take(i))
            + spec_heap_of_fields(tys.skip(i), vals.skip(i)),
    decreases i,
{
    if i == 0 {
        assert(tys.take(0) =~= Seq::<Type>::empty());
        assert(vals.take(0) =~= Seq::<Value>::empty());
        assert(tys.skip(0) =~= tys);
        assert(vals.skip(0) =~= vals);
    } else {
        lemma_heap_fields_split(tys.drop_first(), vals.drop_first(), i - 1);
        assert(tys.take(i).drop_first() =~= tys.drop_first().take(i - 1));
        assert(vals.take(i).drop_first() =~= vals.drop_first().take(i - 1));
        assert(tys.skip(i) =~= tys.drop_first().skip(i - 1));
        assert(vals.skip(i) =~= vals.drop_first().skip(i - 1));
        assert(tys.take(i).first() == tys.first());
        assert(vals.take(i).first() == vals.first());
    }
}

/// Heap-size additivity over named fields.
pub proof fn lemma_heap_named_split(fields: Seq<NamedField>, vals: Seq<Value>, i: int)
    requires
        fields.len() == vals.len(),
        0 <= i <= fields.len(),
    ensures
        spec_heap_of_named(fields, vals) == spec_heap_of_named(fields.take(i), vals.take(i))
            + spec_heap_of_named(fields.skip(i), vals.skip(i)),
    decreases i,
{
    if i == 0 {
        assert(fields.take(0) =~= Seq::<NamedField>::empty());
        assert(vals.take(0) =~= Seq::<Value>::empty());
        assert(fields.skip(0) =~= fields);
        assert(vals.skip(0) =~= vals);
    } else {
        lemma_heap_named_split(fields.drop_first(), vals.drop_first(), i - 1);
        assert(fields.take(i).drop_first() =~= fields.drop_first().take(i - 1));
        assert(vals.take(i).drop_first() =~= vals.drop_first().take(i - 1));
        assert(fields.skip(i) =~= fields.drop_first().skip(i - 1));
        assert(vals.skip(i) =~= vals.drop_first().skip(i - 1));
        assert(fields.take(i).first() == fields.first());
        assert(vals.take(i).first() == vals.first());
    }
}

/// A sum value's heap size is the active alternative's field sum alone.
/// The inactive alternatives never contribute: two sum types that agree on
/// the active alternative's record give the value the same heap size,
/// whatever their other alternatives hold.
pub proof fn lemma_heap_sum_active_only(d1: Descriptor, d2: Descriptor, v: Value)
    requires
        d1.kind matches Kind::Enum(_),
        d2.kind matches Kind::Enum(_),
        v matches Value::Sum(_, _),
        v->Sum_0 < d1.kind->Enum_0.variants@.len(),
        v->Sum_0 < d2.kind->Enum_0.variants@.len(),
        d1.kind->Enum_0.variants@[v->Sum_0 as int].record == d2.kind->Enum_0.variants@[v->Sum_0 as int].record,
    ensures
        spec_heap_of_desc(d1, v) == spec_heap_of_desc(d2, v),
        spec_heap_of_desc(d1, v) == spec_heap_of_record(
            d1.kind->Enum_0.variants@[v->Sum_0 as int].record.shape,
            v->Sum_1@,
        ),
{
}

/// No primitive may reach indirect storage.
pub proof fn lemma_has_heap_prim(pt: PrimType)
    ensures
        !spec_has_heap(Type::Prim(pt)),
{
}

/// A reference has heap exactly when its target type does; a reference to
/// a primitive therefore has none.
pub proof fn lemma_has_heap_ref(t: Type)
    requires
        t matches Type::Ref(_),
    ensures
        spec_has_heap(t) == spec_has_heap(*t->Ref_0),
        (*t->Ref_0) matches Type::Prim(_) ==> !spec_has_heap(t),
{
    match t {
        Type::Ref(inner) => {
            assert(spec_has_heap(t) == spec_has_heap(*inner));
        },
        _ => {},
    }
}

/// The two indirection containers have heap whatever they hold — even an
/// instance that is empty belongs to a type that may allocate.
pub proof fn lemma_has_heap_containers(t: Type)
    requires
        t matches Type::Sequence(_) || t matches Type::Boxed(_),
    ensures
        spec_has_heap(t),
{
}

/// Has-heap is monotone in the fields: one field type with heap makes the
/// whole shape have heap.
pub proof fn lemma_has_heap_field(s: Shape, i: int)
    requires
        0 <= i < s.spec_field_count(),
        spec_has_heap(s.spec_field_ty(i)),
    ensures
        spec_has_heap_shape(s),
{
}

/// Has-heap is monotone in the variants: a sum type has heap as soon as any
/// alternative could allocate, active or not.
pub proof fn lemma_has_heap_variant(d: Descriptor, i: int)
    requires
        d.kind matches Kind::Enum(_),
        0 <= i < d.kind->Enum_0.variants@.len(),
        spec_has_heap_shape(d.kind->Enum_0.variants@[i].record.shape),
    ensures
        spec_has_heap_desc(d),
{
}

proof fn lemma_no_heap_elems(elem: Type, vs: Seq<Value>)
    requires
        !spec_has_heap(elem),
        conforms_elems(vs, elem),
    ensures
        spec_heap_elems(elem, vs) == 0,
    decreases vs, elem,
{
    if vs.len() > 0 {
        lemma_no_heap_no_usage(elem, vs.first());
        assert(conforms_elems(vs.drop_first(), elem));
        lemma_no_heap_elems(elem, vs.drop_first());
    }
}

proof fn lemma_no_heap_fields(tys: Seq<Type>, vals: Seq<Value>)
    requires
        conforms_fields(vals, tys),
        forall|i: int| 0 <= i < tys.len() ==> !spec_has_heap(#[trigger] tys[i]),
    ensures
        spec_heap_of_fields(tys, vals) == 0,
    decreases vals, tys,
{
    if vals.len() > 0 && tys.len() > 0 {
        lemma_no_heap_no_usage(tys.first(), vals.first());
        assert(conforms_fields(vals.drop_first(), tys.drop_first()));
        lemma_no_heap_fields(tys.drop_first(), vals.drop_first());
    }
}

proof fn lemma_no_heap_named(fields: Seq<NamedField>, vals: Seq<Value>)
    requires
        conforms_named(vals, fields),
        forall|i: int| 0 <= i < fields.len() ==> !spec_has_heap(#[trigger] fields[i].ty),
    ensures
        spec_heap_of_named(fields, vals) == 0,
    decreases vals, fields,
{
    if vals.len() > 0 && fields.len() > 0 {
        lemma_no_heap_no_usage(fields.first().ty, vals.first());
        assert(conforms_named(vals.drop_first(), fields.drop_first()));
        lemma_no_heap_named(fields.drop_first(), vals.drop_first());
    }
}

/// A type without heap gives every conforming value heap size zero: the
/// static property bounds every instance.
pub proof fn lemma_no_heap_no_usage(t: Type, v: Value)
    requires
        !spec_has_heap(t),
        conforms(v, t),
    ensures
        spec_heap_of(t, v) == 0,
    decreases v, t,
{
    match t {
        Type::Prim(_) => {},
        Type::Ref(inner) => {
            assert(conforms(v, *inner));
            lemma_no_heap_no_usage(*inner, v);
        },
        Type::Sequence(_) => {
            assert(spec_has_heap(t));
        },
        Type::Boxed(_) => {
            assert(spec_has_heap(t));
        },
        Type::Array(elem, _) => {
            match v {
                Value::Array(vs) => {
                    assert(conforms_elems(vs@, *elem));
                    lemma_no_heap_elems(*elem, vs@);
                },
                _ => {},
            }
        },
        Type::Desc(d) => {
            match d.kind {
                Kind::Struct(sk) => {
                    assert(!spec_has_heap_desc(*d));
                    assert(crate::value::conforms_desc(v, *d));
                    match v {
                        Value::Record(vals) => {
                            lemma_no_heap_record(sk.shape, vals@);
                        },
                        _ => {},
                    }
                    assert(spec_heap_of_desc(*d, v) == 0);
                },
                Kind::Enum(ek) => {
                    assert(!spec_has_heap_desc(*d));
                    assert(crate::value::conforms_desc(v, *d));
                    match v {
                        Value::Sum(k, vals) => {
                            if k < ek.variants@.len() {
                                assert(!spec_has_heap_shape(
                                    ek.variants@[k as int].record.shape,
                                ));
                                lemma_no_heap_record(ek.variants@[k as int].record.shape, vals@);
                            }
                        },
                        _ => {},
                    }
                    assert(spec_heap_of_desc(*d, v) == 0);
                },
            }
            assert(spec_heap_of(t, v) == 0);
        },
    }
}

proof fn lemma_no_heap_record(shape: Shape, vals: Seq<Value>)
    requires
        !spec_has_heap_shape(shape),
        crate::value::conforms_record(vals, shape),
    ensures
        spec_heap_of_record(shape, vals) == 0,
    decreases vals, shape,
{
    match shape {
        Shape::Unit(_) => {},
        Shape::Tuple(t) => {
            lemma_no_heap_fields(t.fields@, vals);
        },
        Shape::Named(n) => {
            lemma_no_heap_named(n.fields@, vals);
        },
    }
}

} // verus!
