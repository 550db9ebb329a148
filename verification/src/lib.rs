//! Renders the type expressions and function signatures found in a rustdoc
//! JSON document as concise, Rust-like text.
//!
//! The library models a JSON value with its own [`json::Json`] type, decodes
//! such a value into a [`signature_builder::Type`] expression or a
//! [`signature_builder::FunctionSig`] with an explicit, precedence-ordered
//! decoder, and renders the decoded structure to its canonical string form.
use vstd::prelude::*;

pub mod json;
pub mod signature_builder;
pub mod decode;
pub mod rustdoc_json;

verus! {

} // verus!
