//! A verified core for the CantaLoop language toolchain: entity and node
//! identity, source spans, the concrete and abstract syntax trees, lowering
//! between them, expression precedence climbing and bytecode emission.

pub mod entity_id;
pub mod span;
pub mod cst;
pub mod ast;
pub mod doc;
pub mod lowering;
pub mod pratt;
pub mod text;
pub mod chars;
pub mod modules;
pub mod opcode;
pub mod hir;
pub mod emit_spec;
pub mod emitter;
pub mod emit_laws;
pub mod spans;
pub mod engine;
pub mod split;
pub mod index_spec;
pub mod semantic;
pub mod operator_laws;
