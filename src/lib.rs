//! A compiler from text templates to WebAssembly components.
//!
//! A template is literal text with `{{ name }}` holes and `{% if name %} ... {% endif %}`
//! blocks. It is lexed ([`tokens`]) and parsed ([`parse`]) into a tree ([`ir`]); the
//! generator ([`gen`]) collects its parameters, emits a core function that computes the
//! rendered length, allocates, and copies literal runs and parameter values into place,
//! and wraps it in a component whose export takes a `params` record and returns a string.
//! [`semantics`], [`writes`] and [`whole`] model how that function runs and prove that it
//! returns the rendered text.
use vstd::prelude::*;

pub mod ir;
pub mod order;
pub mod gen;
pub mod tokens;
pub mod parse;
pub mod laws;
pub mod limits;
pub mod compile;
pub mod semantics;
pub mod writes;
pub mod whole;

pub use crate::compile::{compile, CompileError};
pub use crate::gen::code::Instr;
pub use crate::limits::within_limits;
pub use crate::gen::component::{gen_allocator, gen_component, gen_component_with, AllocatorError, ALLOCATOR_WAT};
pub use crate::gen::module::gen_module;
pub use crate::gen::template::{snake_to_kebab, Params, TemplateGenerator};
pub use crate::ir::{FileData, Node, Span, M};
pub use crate::parse::{parse_file, ParseError};
pub use crate::tokens::{Expected, Token, TokenError, Tokenizer};

verus! {

/// Options of one compilation.
pub struct Config {
    /// The name under which the compiled template function is exported.
    pub export_func_name: String,
}

} // verus!
