//! The laws that tie the traversals together: serializing a value and
//! reading the document back reconstructs the value, and a successful read
//! always yields a conforming value with no field absent.

use vstd::prelude::*;

use crate::de::de_val_rel;
use crate::de::enum_val_rel;
use crate::de::fields_val_rel;
use crate::de::map_val_rel;
use crate::de::rec_val_rel;
use crate::de::slot_count;
use crate::de::lemma_find_field_spec;
use crate::de::lemma_find_variant_spec;
use crate::de::lemma_map_err_none_iff;
use crate::de::named_pos_val_rel;
use crate::de::spec_de_err;
use crate::de::spec_elems_err;
use crate::de::spec_enum_err;
use crate::de::spec_fields_err;
use crate::de::spec_find_field;
use crate::de::spec_find_variant;
use crate::de::spec_key_slot;
use crate::de::spec_map_err;
use crate::de::spec_named_pos_err;
use crate::de::spec_record_err;
use crate::de::spec_resolve_variant;
use crate::descriptor::Kind;
use crate::descriptor::NamedField;
use crate::descriptor::Shape;
use crate::descriptor::Type;
use crate::descriptor::wf_descriptor;
use crate::descriptor::wf_shape;
use crate::descriptor::wf_type;
use crate::document::Document;
use crate::document::Ident;
use crate::ser::disc_names;
use crate::ser::ser_desc_rel;
use crate::ser::ser_elems_rel;
use crate::ser::ser_fields_rel;
use crate::ser::ser_named_rel;
use crate::ser::ser_record_rel;
use crate::ser::ser_rel;
use crate::ser::ser_variant_rel;
use crate::value::Value;
use crate::value::conforms;
use crate::value::conforms_desc;
use crate::value::conforms_elems;
use crate::value::conforms_fields;
use crate::value::conforms_named;
use crate::value::conforms_record;
use crate::value::value_eq;

verus! {

/// The round-trip law: a serialized value reads back without error, and
/// anything the document reads back to is the value serialized, structure
/// and contents alike.
pub proof fn lemma_round_trip(t: Type, v: Value, d: Document)
    requires
        wf_type(t),
        conforms(v, t),
        ser_rel(t, v, d),
    ensures
        spec_de_err(t, d) is None,
        forall|w: Value| de_val_rel(t, d, w) ==> value_eq(w, v),
    decreases v, t, 0nat,
{
    match t {
        Type::Prim(_) => {
            assert forall|w: Value| de_val_rel(t, d, w) implies value_eq(w, v) by {}
        },
        Type::Ref(inner) => {
            lemma_round_trip(*inner, v, d);
            assert forall|w: Value| de_val_rel(t, d, w) implies value_eq(w, v) by {}
        },
        Type::Sequence(elem) => {
            match (v, d) {
                (Value::Sequence(vs), Document::Sequence(ds)) => {
                    lemma_round_trip_elems(*elem, vs@, ds@);
                    assert forall|w: Value| de_val_rel(t, d, w) implies value_eq(w, v) by {
                        match w {
                            Value::Sequence(ws) => {
                                assert forall|i: int| 0 <= i < vs@.len() implies value_eq(
                                    #[trigger] ws@[i],
                                    vs@[i],
                                ) by {
                                    assert(de_val_rel(*elem, ds@[i], ws@[i]));
                                }
                            },
                            _ => {},
                        }
                    }
                },
                _ => {},
            }
        },
        Type::Boxed(inner) => {
            match v {
                Value::Boxed(b) => {
                    lemma_round_trip(*inner, *b, d);
                    assert forall|w: Value| de_val_rel(t, d, w) implies value_eq(w, v) by {
                        match w {
                            Value::Boxed(wb) => {
                                assert(de_val_rel(*inner, d, *wb));
                                assert(value_eq(*wb, *b));
                            },
                            _ => {},
                        }
                    }
                },
                _ => {},
            }
        },
        Type::Array(elem, _) => {
            match (v, d) {
                (Value::Array(vs), Document::Sequence(ds)) => {
                    lemma_round_trip_elems(*elem, vs@, ds@);
                    assert forall|w: Value| de_val_rel(t, d, w) implies value_eq(w, v) by {
                        match w {
                            Value::Array(ws) => {
                                assert forall|i: int| 0 <= i < vs@.len() implies value_eq(
                                    #[trigger] ws@[i],
                                    vs@[i],
                                ) by {
                                    assert(de_val_rel(*elem, ds@[i], ws@[i]));
                                }
                            },
                            _ => {},
                        }
                    }
                },
                _ => {},
            }
        },
        Type::Desc(desc) => {
            assert(wf_descriptor(*desc));
            assert(conforms_desc(v, *desc));
            assert(ser_desc_rel(*desc, v, d));
            match desc.kind {
                Kind::Struct(sk) => {
                    match v {
                        Value::Record(vals) => {
                            lemma_round_trip_record(desc.ident@, sk.shape, vals@, d);
                            assert forall|w: Value| de_val_rel(t, d, w) implies value_eq(w, v) by {
                                match w {
                                    Value::Record(wvals) => {
                                        assert(rec_val_rel(sk.shape, d, wvals@));
                                    },
                                    _ => {},
                                }
                            }
                        },
                        _ => {},
                    }
                },
                Kind::Enum(ek) => {
                    match v {
                        Value::Sum(k, vals) => {
                            lemma_round_trip_variant(desc.ident@, ek.variants@, k as int, vals@, d);
                            assert forall|w: Value| de_val_rel(t, d, w) implies value_eq(w, v) by {
                                assert(enum_val_rel(ek.variants@, d, w));
                            }
                        },
                        _ => {},
                    }
                },
            }
        },
    }
}

proof fn lemma_round_trip_elems(elem: Type, vs: Seq<Value>, ds: Seq<Document>)
    requires
        wf_type(elem),
        conforms_elems(vs, elem),
        ser_elems_rel(elem, vs, ds),
    ensures
        spec_elems_err(elem, ds) is None,
        ds.len() == vs.len(),
        forall|i: int, w: Value|
            0 <= i < ds.len() && de_val_rel(elem, ds[i], w) ==> value_eq(w, vs[i]),
    decreases vs, elem, 0nat,
{
    if vs.len() > 0 {
        lemma_round_trip(elem, vs[0], ds[0]);
        assert forall|i: int| 0 <= i < vs.drop_first().len() implies conforms(
            #[trigger] vs.drop_first()[i],
            elem,
        ) && ser_rel(elem, vs.drop_first()[i], ds.drop_first()[i]) by {
            assert(vs.drop_first()[i] == vs[i + 1]);
            assert(ds.drop_first()[i] == ds[i + 1]);
        }
        lemma_round_trip_elems(elem, vs.drop_first(), ds.drop_first());
        assert(ds.first() == ds[0]);
        assert forall|i: int, w: Value|
            0 <= i < ds.len() && de_val_rel(elem, ds[i], w) implies value_eq(w, vs[i]) by {
            if i > 0 {
                assert(ds.drop_first()[i - 1] == ds[i]);
                assert(vs.drop_first()[i - 1] == vs[i]);
            }
        }
    }
}

proof fn lemma_round_trip_fields(tys: Seq<Type>, vals: Seq<Value>, ds: Seq<Document>)
    requires
        forall|i: int| 0 <= i < tys.len() ==> wf_type(#[trigger] tys[i]),
        conforms_fields(vals, tys),
        ser_fields_rel(tys, vals, ds),
    ensures
        spec_fields_err(tys, ds) is None,
        forall|i: int, w: Value|
            0 <= i < tys.len() && de_val_rel(tys[i], ds[i], w) ==> value_eq(w, vals[i]),
    decreases vals, tys, 0nat,
{
    if tys.len() > 0 {
        lemma_round_trip(tys[0], vals[0], ds[0]);
        assert(tys.first() == tys[0] && ds.first() == ds[0]);
        let tys2 = tys.drop_first();
        let vals2 = vals.drop_first();
        let ds2 = ds.drop_first();
        assert forall|i: int| 0 <= i < tys2.len() implies wf_type(#[trigger] tys2[i]) && conforms(
            vals2[i],
            tys2[i],
        ) && ser_rel(tys2[i], vals2[i], ds2[i]) by {
            assert(tys2[i] == tys[i + 1]);
            assert(vals2[i] == vals[i + 1]);
            assert(ds2[i] == ds[i + 1]);
        }
        assert(conforms_fields(vals2, tys2));
        assert(ser_fields_rel(tys2, vals2, ds2));
        lemma_round_trip_fields(tys2, vals2, ds2);
        assert forall|i: int, w: Value|
            0 <= i < tys.len() && de_val_rel(tys[i], ds[i], w) implies value_eq(w, vals[i]) by {
            if i > 0 {
                assert(tys2[i - 1] == tys[i]);
                assert(ds2[i - 1] == ds[i]);
                assert(vals2[i - 1] == vals[i]);
            }
        }
    }
}

/// Under distinct field names, the name written for field `i` resolves back
/// to slot `i`.
proof fn lemma_ser_keys_resolve(fields: Seq<NamedField>, pairs: Seq<(Ident, Document)>, j: int)
    requires
        forall|a: int, b: int|
            0 <= a < b < fields.len() ==> #[trigger] fields[a].ident@ != #[trigger] fields[b].ident@,
        pairs.len() == fields.len(),
        forall|i: int|
            0 <= i < fields.len() ==> disc_names((#[trigger] pairs[i]).0, fields[i].ident@),
        0 <= j < fields.len(),
    ensures
        spec_key_slot(fields, pairs[j].0) == Some(j),
{
    let s = pairs[j].0->Name_0;
    lemma_find_field_spec(fields, s@);
    match spec_find_field(fields, s@) {
        Some(i) => {
            if i < j {
                assert(fields[i].ident@ == fields[j].ident@);
            } else if i > j {
                assert(fields[j].ident@ != s@);
            }
        },
        None => {
            assert(fields[j].ident@ == s@);
        },
    }
}

proof fn lemma_round_trip_map(
    fields: Seq<NamedField>,
    vals: Seq<Value>,
    pairs: Seq<(Ident, Document)>,
)
    requires
        forall|i: int| 0 <= i < fields.len() ==> wf_type(#[trigger] fields[i].ty),
        forall|a: int, b: int|
            0 <= a < b < fields.len() ==> #[trigger] fields[a].ident@ != #[trigger] fields[b].ident@,
        conforms_named(vals, fields),
        ser_named_rel(fields, vals, pairs),
    ensures
        spec_map_err(fields, pairs, Seq::new(fields.len(), |i: int| false)) is None,
        forall|j: int| 0 <= j < pairs.len() ==> spec_key_slot(fields, (#[trigger] pairs[j]).0) == Some(j),
        forall|i: int, w: Value|
            0 <= i < fields.len() && de_val_rel(fields[i].ty, pairs[i].1, w) ==> value_eq(
                w,
                vals[i],
            ),
    decreases vals, fields, pairs.len() + 1,
{
    assert forall|j: int| 0 <= j < pairs.len() implies spec_key_slot(
        fields,
        (#[trigger] pairs[j]).0,
    ) == Some(j) by {
        lemma_ser_keys_resolve(fields, pairs, j);
    }
    lemma_rt_map_suffix(fields, vals, pairs, 0);
    assert(pairs.skip(0) =~= pairs);
    assert(Seq::new(fields.len(), |i: int| 0 <= i < 0) =~= Seq::new(fields.len(), |i: int| false));
    assert forall|i: int, w: Value|
        0 <= i < fields.len() && de_val_rel(fields[i].ty, pairs[i].1, w) implies value_eq(
        w,
        vals[i],
    ) by {
        lemma_round_trip(fields[i].ty, vals[i], pairs[i].1);
    }
}

proof fn lemma_rt_map_suffix(
    fields: Seq<NamedField>,
    vals: Seq<Value>,
    pairs: Seq<(Ident, Document)>,
    j: int,
)
    requires
        forall|i: int| 0 <= i < fields.len() ==> wf_type(#[trigger] fields[i].ty),
        conforms_named(vals, fields),
        ser_named_rel(fields, vals, pairs),
        forall|m: int| 0 <= m < pairs.len() ==> spec_key_slot(fields, (#[trigger] pairs[m]).0) == Some(m),
        0 <= j <= pairs.len(),
    ensures
        spec_map_err(fields, pairs.skip(j), Seq::new(fields.len(), |i: int| 0 <= i < j)) is None,
    decreases vals, fields, pairs.len() - j,
{
    let filled = Seq::new(fields.len(), |i: int| 0 <= i < j);
    if j == pairs.len() {
        assert(pairs.skip(j).len() == 0);
        assert forall|i: int| 0 <= i < filled.len() implies filled[i] by {}
    } else {
        let rest = pairs.skip(j);
        assert(rest.first() == pairs[j]);
        assert(spec_key_slot(fields, rest.first().0) == Some(j));
        assert(!filled[j]);
        lemma_round_trip(fields[j].ty, vals[j], pairs[j].1);
        assert(spec_de_err(fields[j].ty, rest.first().1) is None);
        lemma_rt_map_suffix(fields, vals, pairs, j + 1);
        assert(rest.drop_first() =~= pairs.skip(j + 1));
        assert(filled.update(j, true) =~= Seq::new(fields.len(), |i: int| 0 <= i < j + 1));
    }
}

proof fn lemma_round_trip_record(name: Seq<char>, shape: Shape, vals: Seq<Value>, d: Document)
    requires
        wf_shape(shape),
        conforms_record(vals, shape),
        ser_record_rel(name, shape, vals, d),
    ensures
        spec_record_err(shape, d) is None,
        forall|wvals: Seq<Value>|
            rec_val_rel(shape, d, wvals) ==> wvals.len() == vals.len() && (forall|i: int|
                0 <= i < vals.len() ==> value_eq(#[trigger] wvals[i], vals[i])),
    decreases vals, shape, 1nat,
{
    match shape {
        Shape::Unit(_) => {},
        Shape::Tuple(ts) => {
            if ts.fields@.len() == 1 {
                match d {
                    Document::NewtypeStruct(_, inner) => {
                        lemma_round_trip(ts.fields@[0], vals[0], *inner);
                        assert forall|wvals: Seq<Value>| rec_val_rel(shape, d, wvals) implies wvals.len()
                            == vals.len() && (forall|i: int|
                            0 <= i < vals.len() ==> value_eq(#[trigger] wvals[i], vals[i])) by {
                            assert(de_val_rel(ts.fields@[0], *inner, wvals[0]));
                        }
                    },
                    _ => {},
                }
            } else {
                match d {
                    Document::TupleStruct(_, ds) => {
                        lemma_round_trip_fields(ts.fields@, vals, ds@);
                        assert forall|wvals: Seq<Value>| rec_val_rel(shape, d, wvals) implies wvals.len()
                            == vals.len() && (forall|i: int|
                            0 <= i < vals.len() ==> value_eq(#[trigger] wvals[i], vals[i])) by {
                            assert(fields_val_rel(ts.fields@, ds@, wvals));
                        }
                    },
                    _ => {},
                }
            }
        },
        Shape::Named(ns) => {
            match d {
                Document::NamedStruct(_, pairs) => {
                    lemma_round_trip_map(ns.fields@, vals, pairs@);
                    assert forall|wvals: Seq<Value>| rec_val_rel(shape, d, wvals) implies wvals.len()
                        == vals.len() && (forall|i: int|
                        0 <= i < vals.len() ==> value_eq(#[trigger] wvals[i], vals[i])) by {
                        assert(map_val_rel(ns.fields@, pairs@, wvals));
                        assert forall|i: int| 0 <= i < vals.len() implies value_eq(
                            #[trigger] wvals[i],
                            vals[i],
                        ) by {
                            assert(spec_key_slot(ns.fields@, pairs@[i].0) == Some(i));
                            assert(de_val_rel(ns.fields@[i].ty, pairs@[i].1, wvals[i]));
                        }
                    }
                },
                _ => {},
            }
        },
    }
}

proof fn lemma_round_trip_variant(
    root: Seq<char>,
    variants: Seq<crate::descriptor::VariantDescriptor>,
    k: int,
    vals: Seq<Value>,
    d: Document,
)
    requires
        0 <= k < variants.len(),
        forall|a: int, b: int|
            0 <= a < b < variants.len() ==> #[trigger] variants[a].ident@ != #[trigger] variants[b].ident@,
        forall|a: int| 0 <= a < variants.len() ==> wf_shape(#[trigger] variants[a].record.shape),
        conforms_record(vals, variants[k].record.shape),
        ser_variant_rel(root, variants[k], vals, d),
    ensures
        spec_enum_err(variants, d) is None,
        forall|w: Value|
            enum_val_rel(variants, d, w) ==> (w matches Value::Sum(k2, wvals) && k2 == k
                && wvals@.len() == vals.len() && (forall|i: int|
                0 <= i < vals.len() ==> value_eq(#[trigger] wvals@[i], vals[i]))),
    decreases vals, variants, 2nat,
{
    let var = variants[k];
    let shape = var.record.shape;
    let disc = match d {
        Document::UnitVariant(_, disc) => disc,
        Document::NewtypeVariant(_, disc, _) => disc,
        Document::TupleVariant(_, disc, _) => disc,
        Document::NamedVariant(_, disc, _) => disc,
        _ => arbitrary(),
    };
    assert(disc_names(disc, var.ident@));
    let s = disc->Name_0;
    lemma_find_variant_spec(variants, s@);
    match spec_find_variant(variants, s@) {
        Some(i) => {
            if i < k {
                assert(variants[i].ident@ == variants[k].ident@);
            } else if i > k {
                assert(variants[k].ident@ != s@);
            }
        },
        None => {
            assert(variants[k].ident@ == s@);
        },
    }
    assert(spec_resolve_variant(variants, disc) == Ok::<int, crate::de::Error>(k));
    match shape {
        Shape::Unit(_) => {},
        Shape::Tuple(ts) => {
            if ts.fields@.len() == 1 {
                match d {
                    Document::NewtypeVariant(_, _, inner) => {
                        lemma_round_trip(ts.fields@[0], vals[0], *inner);
                    },
                    _ => {},
                }
            } else {
                match d {
                    Document::TupleVariant(_, _, ds) => {
                        lemma_round_trip_fields(ts.fields@, vals, ds@);
                        assert forall|w: Value| enum_val_rel(variants, d, w) implies (w matches
                            Value::Sum(k2, wvals) && k2 == k && wvals@.len() == vals.len() && (
                        forall|i: int|
                            0 <= i < vals.len() ==> value_eq(#[trigger] wvals@[i], vals[i]))) by {
                            match w {
                                Value::Sum(_, wvals) => {
                                    assert(fields_val_rel(ts.fields@, ds@, wvals@));
                                },
                                _ => {},
                            }
                        }
                    },
                    _ => {},
                }
            }
        },
        Shape::Named(ns) => {
            match d {
                Document::NamedVariant(_, _, pairs) => {
                    lemma_round_trip_map(ns.fields@, vals, pairs@);
                    assert forall|w: Value| enum_val_rel(variants, d, w) implies (w matches
                        Value::Sum(k2, wvals) && k2 == k && wvals@.len() == vals.len() && (forall|
                        i: int,
                    |
                        0 <= i < vals.len() ==> value_eq(#[trigger] wvals@[i], vals[i]))) by {
                        match w {
                            Value::Sum(_, wvals) => {
                                assert(map_val_rel(ns.fields@, pairs@, wvals@));
                                assert forall|i: int| 0 <= i < vals.len() implies value_eq(
                                    #[trigger] wvals@[i],
                                    vals[i],
                                ) by {
                                    assert(spec_key_slot(ns.fields@, pairs@[i].0) == Some(i));
                                    assert(de_val_rel(ns.fields@[i].ty, pairs@[i].1, wvals@[i]));
                                }
                            },
                            _ => {},
                        }
                    }
                },
                _ => {},
            }
        },
    }
}

proof fn lemma_slot_count_witness(fields: Seq<NamedField>, pairs: Seq<(Ident, Document)>, i: int)
    requires
        slot_count(fields, pairs, i) > 0,
    ensures
        exists|j: int|
            0 <= j < pairs.len() && spec_key_slot(fields, (#[trigger] pairs[j]).0) == Some(i),
    decreases pairs,
{
    if spec_key_slot(fields, pairs.first().0) == Some(i) {
        assert(pairs[0] == pairs.first());
    } else {
        lemma_slot_count_witness(fields, pairs.drop_first(), i);
        let j = choose|j: int|
            0 <= j < pairs.drop_first().len() && spec_key_slot(
                fields,
                (#[trigger] pairs.drop_first()[j]).0,
            ) == Some(i);
        assert(pairs[j + 1] == pairs.drop_first()[j]);
    }
}

proof fn lemma_dc_elems(elem: Type, ds: Seq<Document>, ws: Seq<Value>)
    requires
        wf_type(elem),
        spec_elems_err(elem, ds) is None,
        ws.len() == ds.len(),
        forall|i: int| 0 <= i < ds.len() ==> de_val_rel(elem, #[trigger] ds[i], ws[i]),
    ensures
        conforms_elems(ws, elem),
    decreases ds, elem, 0nat,
{
    if ds.len() > 0 {
        assert(ds.first() == ds[0]);
        lemma_de_conforms(elem, ds[0], ws[0]);
        assert forall|i: int| 0 <= i < ds.drop_first().len() implies de_val_rel(
            elem,
            #[trigger] ds.drop_first()[i],
            ws.drop_first()[i],
        ) by {
            assert(ds.drop_first()[i] == ds[i + 1]);
            assert(ws.drop_first()[i] == ws[i + 1]);
        }
        lemma_dc_elems(elem, ds.drop_first(), ws.drop_first());
        assert forall|i: int| 0 <= i < ws.len() implies conforms(#[trigger] ws[i], elem) by {
            if i > 0 {
                assert(ws.drop_first()[i - 1] == ws[i]);
            }
        }
    }
}

proof fn lemma_dc_fields(tys: Seq<Type>, ds: Seq<Document>, wvals: Seq<Value>)
    requires
        forall|i: int| 0 <= i < tys.len() ==> wf_type(#[trigger] tys[i]),
        spec_fields_err(tys, ds) is None,
        fields_val_rel(tys, ds, wvals),
    ensures
        conforms_fields(wvals, tys),
    decreases ds, tys, 0nat,
{
    if tys.len() > 0 {
        assert(tys.first() == tys[0] && ds.first() == ds[0]);
        lemma_de_conforms(tys[0], ds[0], wvals[0]);
        let tys2 = tys.drop_first();
        let ds2 = ds.drop_first();
        let wvals2 = wvals.drop_first();
        assert forall|i: int| 0 <= i < tys2.len() implies wf_type(#[trigger] tys2[i]) && de_val_rel(
            tys2[i],
            ds2[i],
            wvals2[i],
        ) by {
            assert(tys2[i] == tys[i + 1]);
            assert(ds2[i] == ds[i + 1]);
            assert(wvals2[i] == wvals[i + 1]);
        }
        assert(fields_val_rel(tys2, ds2, wvals2));
        lemma_dc_fields(tys2, ds2, wvals2);
        assert forall|i: int| 0 <= i < wvals.len() implies conforms(#[trigger] wvals[i], tys[i]) by {
            if i > 0 {
                assert(wvals2[i - 1] == wvals[i]);
                assert(tys2[i - 1] == tys[i]);
            }
        }
    }
}

proof fn lemma_dc_named_pos(fields: Seq<NamedField>, ds: Seq<Document>, wvals: Seq<Value>)
    requires
        forall|i: int| 0 <= i < fields.len() ==> wf_type(#[trigger] fields[i].ty),
        spec_named_pos_err(fields, ds) is None,
        named_pos_val_rel(fields, ds, wvals),
    ensures
        conforms_named(wvals, fields),
    decreases ds, fields, 0nat,
{
    if fields.len() > 0 {
        assert(fields.first() == fields[0] && ds.first() == ds[0]);
        lemma_de_conforms(fields[0].ty, ds[0], wvals[0]);
        let fs2 = fields.drop_first();
        let ds2 = ds.drop_first();
        let wvals2 = wvals.drop_first();
        assert forall|i: int| 0 <= i < fs2.len() implies wf_type(#[trigger] fs2[i].ty)
            && de_val_rel(fs2[i].ty, ds2[i], wvals2[i]) by {
            assert(fs2[i] == fields[i + 1]);
            assert(ds2[i] == ds[i + 1]);
            assert(wvals2[i] == wvals[i + 1]);
        }
        assert(named_pos_val_rel(fs2, ds2, wvals2));
        lemma_dc_named_pos(fs2, ds2, wvals2);
        assert forall|i: int| 0 <= i < wvals.len() implies conforms(
            #[trigger] wvals[i],
            fields[i].ty,
        ) by {
            if i > 0 {
                assert(wvals2[i - 1] == wvals[i]);
                assert(fs2[i - 1] == fields[i]);
            }
        }
    }
}

proof fn lemma_dc_map(fields: Seq<NamedField>, pairs: Seq<(Ident, Document)>, wvals: Seq<Value>)
    requires
        forall|i: int| 0 <= i < fields.len() ==> wf_type(#[trigger] fields[i].ty),
        spec_map_err(fields, pairs, Seq::new(fields.len(), |i: int| false)) is None,
        map_val_rel(fields, pairs, wvals),
    ensures
        conforms_named(wvals, fields),
    decreases pairs, fields, 0nat,
{
    let init = Seq::new(fields.len(), |i: int| false);
    lemma_map_err_none_iff(fields, pairs, init);
    assert forall|i: int| 0 <= i < wvals.len() implies conforms(
        #[trigger] wvals[i],
        fields[i].ty,
    ) by {
        assert(slot_count(fields, pairs, i) == 1);
        lemma_slot_count_witness(fields, pairs, i);
        let j = choose|j: int|
            0 <= j < pairs.len() && spec_key_slot(fields, (#[trigger] pairs[j]).0) == Some(i);
        assert(spec_de_err(fields[i].ty, pairs[j].1) is None);
        assert(de_val_rel(fields[i].ty, pairs[j].1, wvals[i]));
        lemma_de_conforms(fields[i].ty, pairs[j].1, wvals[i]);
    }
}

proof fn lemma_dc_record(shape: Shape, d: Document, wvals: Seq<Value>)
    requires
        wf_shape(shape),
        spec_record_err(shape, d) is None,
        rec_val_rel(shape, d, wvals),
    ensures
        conforms_record(wvals, shape),
    decreases d, shape, 1nat,
{
    match shape {
        Shape::Unit(_) => {},
        Shape::Tuple(ts) => {
            if ts.fields@.len() == 1 {
                match d {
                    Document::NewtypeStruct(_, inner) => {
                        lemma_de_conforms(ts.fields@[0], *inner, wvals[0]);
                    },
                    Document::TupleStruct(_, ds) => {
                        lemma_dc_fields(ts.fields@, ds@, wvals);
                    },
                    Document::Sequence(ds) => {
                        lemma_dc_fields(ts.fields@, ds@, wvals);
                    },
                    _ => {},
                }
            } else {
                match d {
                    Document::TupleStruct(_, ds) => {
                        lemma_dc_fields(ts.fields@, ds@, wvals);
                    },
                    Document::Sequence(ds) => {
                        lemma_dc_fields(ts.fields@, ds@, wvals);
                    },
                    _ => {},
                }
            }
        },
        Shape::Named(ns) => {
            match d {
                Document::NamedStruct(_, pairs) => {
                    lemma_dc_map(ns.fields@, pairs@, wvals);
                },
                Document::TupleStruct(_, ds) => {
                    lemma_dc_named_pos(ns.fields@, ds@, wvals);
                },
                Document::Sequence(ds) => {
                    lemma_dc_named_pos(ns.fields@, ds@, wvals);
                },
                _ => {},
            }
        },
    }
}

/// The reconstruction invariant: a value that a successful read yields
/// conforms to the type read at — every field of the chosen shape was
/// supplied exactly once, and a sum value holds a variant in range.
pub proof fn lemma_de_conforms(t: Type, d: Document, w: Value)
    requires
        wf_type(t),
        spec_de_err(t, d) is None,
        de_val_rel(t, d, w),
    ensures
        conforms(w, t),
    decreases d, t, 2nat,
{
    match t {
        Type::Prim(_) => {},
        Type::Ref(inner) => {
            lemma_de_conforms(*inner, d, w);
        },
        Type::Sequence(elem) => {
            match (d, w) {
                (Document::Sequence(ds), Value::Sequence(ws)) => {
                    lemma_dc_elems(*elem, ds@, ws@);
                },
                _ => {},
            }
        },
        Type::Boxed(inner) => {
            match w {
                Value::Boxed(wb) => {
                    lemma_de_conforms(*inner, d, *wb);
                },
                _ => {},
            }
        },
        Type::Array(elem, _) => {
            match (d, w) {
                (Document::Sequence(ds), Value::Array(ws)) => {
                    lemma_dc_elems(*elem, ds@, ws@);
                },
                _ => {},
            }
        },
        Type::Desc(desc) => {
            assert(wf_descriptor(*desc));
            match desc.kind {
                Kind::Struct(sk) => {
                    match w {
                        Value::Record(wvals) => {
                            lemma_dc_record(sk.shape, d, wvals@);
                            assert(conforms_desc(w, *desc));
                        },
                        _ => {},
                    }
                },
                Kind::Enum(ek) => {
                    lemma_dc_enum(ek.variants@, d, w);
                    assert(conforms_desc(w, *desc));
                },
            }
        },
    }
}

proof fn lemma_resolve_bound(
    variants: Seq<crate::descriptor::VariantDescriptor>,
    disc: Ident,
    k: int,
)
    requires
        spec_resolve_variant(variants, disc) == Ok::<int, crate::de::Error>(k),
    ensures
        0 <= k < variants.len(),
{
    match disc {
        Ident::Index(_) => {},
        Ident::Name(s) => {
            lemma_find_variant_spec(variants, s@);
        },
    }
}

proof fn lemma_dc_enum(
    variants: Seq<crate::descriptor::VariantDescriptor>,
    d: Document,
    w: Value,
)
    requires
        forall|a: int| 0 <= a < variants.len() ==> wf_shape(#[trigger] variants[a].record.shape),
        spec_enum_err(variants, d) is None,
        enum_val_rel(variants, d, w),
    ensures
        w matches Value::Sum(k, wvals) && k < variants.len() && conforms_record(
            wvals@,
            variants[k as int].record.shape,
        ),
    decreases d, variants, 1nat,
{
    match d {
        Document::UnitVariant(_, disc) => {
            match w {
                Value::Sum(k, _) => {
                    lemma_resolve_bound(variants, disc, k as int);
                },
                _ => {},
            }
        },
        Document::NewtypeVariant(_, disc, inner) => {
            match w {
                Value::Sum(k, wvals) => {
                    lemma_resolve_bound(variants, disc, k as int);
                    match variants[k as int].record.shape {
                        Shape::Tuple(ts) => {
                            lemma_de_conforms(ts.fields@[0], *inner, wvals@[0]);
                            assert(conforms_fields(wvals@, ts.fields@));
                        },
                        _ => {},
                    }
                },
                _ => {},
            }
        },
        Document::TupleVariant(_, disc, ds) => {
            match w {
                Value::Sum(k, wvals) => {
                    lemma_resolve_bound(variants, disc, k as int);
                    match variants[k as int].record.shape {
                        Shape::Tuple(ts) => {
                            lemma_dc_fields(ts.fields@, ds@, wvals@);
                        },
                        Shape::Named(ns) => {
                            lemma_dc_named_pos(ns.fields@, ds@, wvals@);
                        },
                        _ => {},
                    }
                },
                _ => {},
            }
        },
        Document::NamedVariant(_, disc, pairs) => {
            match w {
                Value::Sum(k, wvals) => {
                    lemma_resolve_bound(variants, disc, k as int);
                    match variants[k as int].record.shape {
                        Shape::Named(ns) => {
                            lemma_dc_map(ns.fields@, pairs@, wvals@);
                        },
                        _ => {},
                    }
                },
                _ => {},
            }
        },
        _ => {},
    }
}

/// The reconstruction invariant at a whole type descriptor.
pub proof fn lemma_desc_de_conforms(desc: crate::descriptor::Descriptor, d: Document, w: Value)
    requires
        wf_descriptor(desc),
        crate::de::spec_desc_de_err(desc, d) is None,
        crate::de::desc_de_val_rel(desc, d, w),
    ensures
        conforms_desc(w, desc),
{
    match desc.kind {
        Kind::Struct(sk) => {
            match w {
                Value::Record(wvals) => {
                    lemma_dc_record(sk.shape, d, wvals@);
                },
                _ => {},
            }
        },
        Kind::Enum(ek) => {
            lemma_dc_enum(ek.variants@, d, w);
        },
    }
}

/// The round-trip law at a whole type descriptor: what `Reflect`'s
/// serializer writes, its deserializer reads back without error, and only
/// to a value structurally equal to the one written.
pub proof fn lemma_round_trip_descriptor(
    desc: crate::descriptor::Descriptor,
    v: Value,
    d: Document,
)
    requires
        wf_descriptor(desc),
        conforms_desc(v, desc),
        ser_desc_rel(desc, v, d),
    ensures
        crate::de::spec_desc_de_err(desc, d) is None,
        forall|w: Value| crate::de::desc_de_val_rel(desc, d, w) ==> value_eq(w, v),
{
    match desc.kind {
        Kind::Struct(sk) => {
            match v {
                Value::Record(vals) => {
                    lemma_round_trip_record(desc.ident@, sk.shape, vals@, d);
                    assert forall|w: Value| crate::de::desc_de_val_rel(desc, d, w) implies value_eq(
                        w,
                        v,
                    ) by {
                        match w {
                            Value::Record(wvals) => {
                                assert(rec_val_rel(sk.shape, d, wvals@));
                            },
                            _ => {},
                        }
                    }
                },
                _ => {},
            }
        },
        Kind::Enum(ek) => {
            match v {
                Value::Sum(k, vals) => {
                    lemma_round_trip_variant(desc.ident@, ek.variants@, k as int, vals@, d);
                    assert forall|w: Value| crate::de::desc_de_val_rel(desc, d, w) implies value_eq(
                        w,
                        v,
                    ) by {
                        assert(enum_val_rel(ek.variants@, d, w));
                    }
                },
                _ => {},
            }
        },
    }
}

} // verus!
