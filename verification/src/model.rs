//! The type-definition model the generator consumes.
//!
//! A build front-end parses source text and hands the generator one of
//! these values; the generator is a pure, read-only consumer of it.
//! A record's fields keep their declaration order; a tagged union's
//! variants each wrap exactly one payload (an invariant of the input,
//! not validated here).

use vstd::prelude::*;

verus! {

/// One entry nested inside a marker group attached to a field.
#[derive(Debug)]
pub enum MarkerItem {
    /// A named, argument-less marker, such as `ignore`.
    Marker(String),
    /// Any other nested form (a literal, a nested group, ...).
    OtherItem,
}

/// One attribute attached to a field.
#[derive(Debug)]
pub enum FieldAttr {
    /// A named marker group with its nested entries, such as `visit(...)`.
    Group(String, Vec<MarkerItem>),
    /// Any other attribute form; the generator does not interpret it.
    OtherAttr,
}

/// A field of a record: an optional name (an unnamed field is addressed
/// by its position) and the markers attached to it.
#[derive(Debug)]
pub struct Field {
    pub name: Option<String>,
    pub attrs: Vec<FieldAttr>,
}

/// A variant of a tagged union; it wraps exactly one payload.
#[derive(Debug)]
pub struct Variant {
    pub name: String,
}

/// The shape of a type definition.
#[derive(Debug)]
pub enum TypeBody {
    /// Named or positional fields, in declaration order.
    Record(Vec<Field>),
    /// Variants in declaration order, each wrapping one payload.
    TaggedUnion(Vec<Variant>),
    /// A record with no fields at all.
    EmptyRecord,
}

/// A complete type definition: the type's identifier and its shape.
#[derive(Debug)]
pub struct TypeDef {
    pub name: String,
    pub body: TypeBody,
}

} // verus!
