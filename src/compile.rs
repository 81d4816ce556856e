//! The whole compilation: template source bytes in, component bytes out.
use vstd::prelude::*;
use crate::Config;
use crate::gen::component::{
    gen_component, component_layout, allocator_ok, allocator_binary, AllocatorError, ComponentError, component_fits,
};
use crate::gen::encode::{finish_component, component_parts, component_bytes, NAME_LIMIT};
use crate::gen::template::{Params, TemplateGenerator, collected};
use crate::ir::{FileData, Node};
use crate::parse::{parse_file, parsed_from, ParseError};
use crate::tokens::plain_text;
use wasm_encoder::Component;

verus! {

/// Why a compilation failed.
#[derive(Clone, Copy, Debug, PartialEq, Eq, Structural)]
pub enum CompileError {
    Parse(ParseError),
    Allocator(AllocatorError),
    /// The export name is too long to be encoded.
    NameTooLong,
    /// The template's component is too large to be encoded.
    TooLarge,
}

/// The bytes of the component for template `s` compiled with parameters `p` under `name`.
pub open spec fn compiled(bytes: Seq<u8>, p: Params, s: Seq<Node>, name: Seq<char>) -> bool {
    exists|c: Component|
        component_parts(c) == component_layout(p, s, name, allocator_binary()->0) && #[trigger] component_bytes(c) == bytes
}

/// Compiles a parsed template to the bytes of its component.
pub fn compile_file(config: &Config, file_data: &FileData) -> (r: Result<Vec<u8>, CompileError>)
    requires
        crate::limits::within(file_data.contents@),
    ensures
        (r matches Err(CompileError::NameTooLong)) == (config.export_func_name@.len() > NAME_LIMIT),
        r matches Err(CompileError::TooLarge) ==> exists|p: Params|
            collected(p, file_data.contents@) && !#[trigger] component_fits(p, file_data.contents@, config.export_func_name@),
        (r matches Err(CompileError::Allocator(_))) == (config.export_func_name@.len() <= NAME_LIMIT && !allocator_ok()),
        r matches Err(e) ==> !(e is Parse),
        r is Ok ==> exists|p: Params|
            collected(p, file_data.contents@) && #[trigger] compiled(r->Ok_0@, p, file_data.contents@, config.export_func_name@),
{
    if config.export_func_name.as_str().unicode_len() > 268435455 {
        return Err(CompileError::NameTooLong);
    }
    let params = Params::new(&file_data.contents);
    let template = TemplateGenerator::new(params, &file_data);
    match gen_component(config, &template) {
        Ok(component) => {
            let ghost c = component;
            let bytes = finish_component(component);
            proof {
                assert(component_bytes(c) == bytes@);
                assert(collected(params, file_data.contents@));
                assert(compiled(bytes@, params, file_data.contents@, config.export_func_name@));
                assert(exists|p: Params|
                    collected(p, file_data.contents@) && #[trigger] compiled(bytes@, p, file_data.contents@, config.export_func_name@));
            }
            let r: Result<Vec<u8>, CompileError> = Ok(bytes);
            assert(r->Ok_0@ == bytes@);
            r
        },
        Err(ComponentError::Allocator) => Err(CompileError::Allocator(AllocatorError)),
        Err(ComponentError::TooLarge) => {
            assert(collected(params, file_data.contents@) && !component_fits(
                params,
                file_data.contents@,
                config.export_func_name@,
            ));
            Err(CompileError::TooLarge)
        },
    }
}

/// Compiles a template to the bytes of its component: it fails with the parser's error when
/// the template does not parse, and otherwise as `compile_file` does on the parsed tree.
pub fn compile(config: &Config, source: &[u8]) -> (r: Result<Vec<u8>, CompileError>)
    ensures
        r matches Err(CompileError::Allocator(_)) ==> !allocator_ok(),
        !allocator_ok() ==> r is Err,
        config.export_func_name@.len() > NAME_LIMIT ==> r is Err,
        r is Ok ==> exists|s: Seq<Node>, p: Params|
            parsed_from(source@, s) && collected(p, s) && #[trigger] compiled(r->Ok_0@, p, s, config.export_func_name@),
{
    let file_data = match parse_file(source) {
        Ok(file_data) => file_data,
        Err(e) => {
            return Err(CompileError::Parse(e));
        },
    };
    let r = compile_file(config, &file_data);
    proof {
        if r is Ok {
            let p = choose|p: Params| collected(p, file_data.contents@) && #[trigger] compiled(r->Ok_0@, p, file_data.contents@, config.export_func_name@);
            assert(parsed_from(source@, file_data.contents@) && collected(p, file_data.contents@));
        }
    }
    r
}

} // verus!
