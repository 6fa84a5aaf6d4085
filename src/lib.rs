//! Push-based (produce/consume) code generation of small aggregation plans
//! into WebAssembly text.
pub mod ir;
pub mod text;
pub mod context;
pub mod bindings;
pub mod codegen;
pub mod module;
pub mod laws;
