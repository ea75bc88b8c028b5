//! Structural reflection: a runtime descriptor model for record and sum
//! types, and three shape-polymorphic traversals built on it — heap-size
//! accounting, serialization into a self-describing document, and
//! reconstruction of a value from such a document.
#![verifier::loop_isolation(false)]

use vstd::prelude::*;

pub mod access;
pub mod de;
pub mod descriptor;
pub mod document;
pub mod heapsize;
pub mod laws;
pub mod reflect;
pub mod ser;
pub mod value;

pub use access::Introspect;
pub use access::SizedStruct;
pub use access::Struct;
pub use access::Variant;
pub use de::Error;
pub use de::Visit;
pub use de::deserialize;
pub use descriptor::Descriptor;
pub use descriptor::EnumKind;
pub use descriptor::Kind;
pub use descriptor::NamedField;
pub use descriptor::NamedShape;
pub use descriptor::PrimType;
pub use descriptor::Shape;
pub use descriptor::Strategy;
pub use descriptor::StructKind;
pub use descriptor::TupleShape;
pub use descriptor::Type;
pub use descriptor::UnitShape;
pub use descriptor::VariantDescriptor;
pub use document::Document;
pub use document::Ident;
pub use heapsize::HeapSize;
pub use heapsize::has_heap;
pub use heapsize::heap_size_of;
pub use heapsize::ty_size;
pub use reflect::Reflect;
pub use ser::serialize;
pub use ser::serialize_descriptor;
pub use value::PrimValue;
pub use value::Value;
