//! A WebAssembly 1.0 interpreter core: binary decoder with one-pass
//! validation, runtime representation, and a fuel-bounded interpreter.

pub mod error;
pub mod leb128;
pub mod byte_iter;
pub mod signature;
pub mod value;
pub mod wasm_memory;
pub mod floats;
pub mod numeric;
pub mod table;
pub mod module;
pub mod validator;
pub mod instructions;
pub mod const_expr;
pub mod body;
pub mod validators;
pub mod func_validator;
pub mod sections;
pub mod segments;
pub mod decoder;
pub mod instance;
pub mod store;
pub mod semantics;
pub mod interpreter;
pub mod execute;
pub mod machine;
pub mod link_spec;
pub mod linker;
pub mod instantiate;
pub mod lifecycle;
pub mod laws;
pub mod nesting;
pub mod code_laws;
