//! Verified core of a TypeScript-declaration to wasm-bindgen binding generator:
//! naming rules, the lexical type scope, the subtyping lattice, JSDoc
//! rendering, the type IR, the conversion of TypeScript types and members
//! into it, and the structural merge of object-type unions.

pub mod text;
pub mod naming;
pub mod context;
pub mod scope;
pub mod ir;
pub mod subtyping;
pub mod docs;
pub mod types;
pub mod literal_union;
pub mod populate;
pub mod members;
pub mod ctx;
