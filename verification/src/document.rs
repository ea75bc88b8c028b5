//! The self-describing document a value serializes into and deserializes
//! from. Its forms mirror the write operations of a structured-data codec:
//! one per record strategy, and one per variant strategy for sum types.

use vstd::prelude::*;

use crate::value::PrimValue;

verus! {

/// An identifier as a structured-data format carries it: a field key or a
/// variant discriminant, written either as an unsigned index or as a name.
#[derive(Debug, PartialEq, Eq)]
pub enum Ident {
    Index(u64),
    Name(String),
}

/// A node of the self-describing document.
///
/// The `String` carried by the record forms is the declared name of the
/// serialized type, and the first `String` of the variant forms is the sum
/// type's name; readers do not check them, as self-describing formats
/// commonly discard them. The `Ident` of the variant forms is the
/// discriminant that selects the alternative.
#[derive(Debug, PartialEq, Eq)]
pub enum Document {
    Prim(PrimValue),
    Sequence(Vec<Document>),
    UnitStruct(String),
    NewtypeStruct(String, Box<Document>),
    TupleStruct(String, Vec<Document>),
    NamedStruct(String, Vec<(Ident, Document)>),
    UnitVariant(String, Ident),
    NewtypeVariant(String, Ident, Box<Document>),
    TupleVariant(String, Ident, Vec<Document>),
    NamedVariant(String, Ident, Vec<(Ident, Document)>),
}

} // verus!
