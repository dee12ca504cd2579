//! Derivation of tree-traversal ("visitor") boilerplate from declarative
//! type definitions, together with the runtime support the generated code
//! relies on.
//!
//! The generator consumes an already-parsed [`model::TypeDef`] and emits
//! source text implementing the [`runtime::Visit`] capability for that type:
//! an immutable and a mutable walk, each calling an enter hook, descending
//! into the non-ignored children when the hook answers
//! [`runtime::Control::Continue`], and always calling the exit hook.

#![allow(unused_imports)]

pub mod emit;
pub mod model;
pub mod names;
pub mod runtime;
pub mod semantics;

pub use runtime::Control;
pub use runtime::Visit;
