//! The component that wraps the allocator and the core module and lifts the compiled
//! function to a typed `(params) -> string` export.
use vstd::prelude::*;
use wasm_encoder::Component;
use crate::Config;
use crate::gen::module::{gen_module, module_layout, module_fits, TooLarge};
use crate::gen::template::{Params, TemplateGenerator, record_fields_view, record_bytes_fit};
use crate::ir::Node;
use crate::gen::encode::{
    component_parts, ComponentView, TypeDef, instance_entries, alias_entries, canonical_entries,
    component_export_entries, component_type_entries, wat_binary, NAME_LIMIT, new_component, component_add, ComponentPart, new_instance_section,
    instantiate, new_alias_section, alias_core_export, CoreKind, new_component_export_section,
    component_export, ComponentKind, new_component_type_section, define_func_type, Primitive,
    new_canonical_section, lift_utf8, parse_wat, module_len, module_size, sum_of, lemma_sum_push,
    component_part_fits, type_def_bound,
};

verus! {

/// The id of a core module section in a component.
pub const CORE_MODULE_SECTION_ID: u8 = 1;

/// The bump allocator every generated component embeds: `realloc` hands out fresh aligned
/// memory (copying the old contents, if any), growing the memory as needed, and `clear`
/// forgets all allocations.
pub const ALLOCATOR_WAT: &'static str = "(module
  (memory (export \"memory\") 1)
  (global $next (mut i32) (i32.const 8))
  (func (export \"realloc\") (param $old_ptr i32) (param $old_size i32) (param $align i32) (param $new_size i32) (result i32)
    (local $ptr i32) (local $end i32)
    (local.set $ptr
      (i32.and
        (i32.add (global.get $next) (i32.sub (local.get $align) (i32.const 1)))
        (i32.sub (i32.const 0) (local.get $align))))
    (local.set $end (i32.add (local.get $ptr) (local.get $new_size)))
    (if (i32.gt_u (local.get $end) (i32.mul (memory.size) (i32.const 65536)))
      (then
        (if (i32.eq
              (memory.grow
                (i32.sub
                  (i32.shr_u (i32.add (local.get $end) (i32.const 65535)) (i32.const 16))
                  (memory.size)))
              (i32.const -1))
          (then unreachable))))
    (global.set $next (local.get $end))
    (if (local.get $old_size)
      (then
        (memory.copy
          (local.get $ptr)
          (local.get $old_ptr)
          (select (local.get $old_size) (local.get $new_size)
            (i32.lt_u (local.get $old_size) (local.get $new_size))))))
    (local.get $ptr))
  (func (export \"clear\")
    (global.set $next (i32.const 8))))
";

/// The allocator text could not be assembled.
#[derive(Clone, Copy, Debug, PartialEq, Eq, Structural)]
pub struct AllocatorError;

/// The component for template `s` with parameters `p`, exporting its function as `name`
/// and embedding the allocator module `allocator`, section by section: the allocator module
/// (core module 0); the template's core module (core module 1); the allocator's instance and
/// the template module's instance, which imports it as `allocator`; aliases of the
/// allocator's `memory` and `realloc` and of the compiled function; the `params` record
/// (type 0), exported as `params` (type 1); the function type `(params: params) -> string`
/// (type 2); the compiled function lifted to it with UTF-8 strings, memory 0 and realloc 0;
/// and that function exported as `name`.
pub open spec fn component_layout(p: Params, s: Seq<Node>, name: Seq<char>, allocator: Seq<u8>) -> Seq<ComponentView> {
    seq![
        ComponentView::Raw(CORE_MODULE_SECTION_ID, allocator),
        ComponentView::Module(module_layout(p, s, name)),
        ComponentView::Instances(seq![(0u32, seq![]), (1u32, seq![("allocator"@, 0u32)])]),
        ComponentView::Aliases(
            seq![(0u32, CoreKind::Memory, "memory"@), (0u32, CoreKind::Func, "realloc"@), (1u32, CoreKind::Func, name)],
        ),
        ComponentView::Types(seq![TypeDef::Record(record_fields_view(p))]),
        ComponentView::Exports(seq![("params"@, ComponentKind::Type, 0u32)]),
        ComponentView::Types(seq![TypeDef::Func("params"@, 1u32, Primitive::String)]),
        ComponentView::Canonicals(seq![(1u32, 2u32, 0u32, 0u32)]),
        ComponentView::Exports(seq![(name, ComponentKind::Func, 0u32)]),
    ]
}

/// The allocator module, assembled from its text.
pub open spec fn allocator_binary() -> Option<Seq<u8>> {
    wat_binary(ALLOCATOR_WAT@)
}

/// The allocator module assembles, to a binary whose length fits a section.
pub open spec fn allocator_ok() -> bool {
    allocator_binary() is Some && allocator_binary()->0.len() <= u32::MAX
}

/// Assembles the allocator module.
pub fn gen_allocator() -> (r: Result<Vec<u8>, AllocatorError>)
    ensures
        (r is Ok) == (allocator_binary() is Some),
        r is Ok ==> r->Ok_0@ == allocator_binary()->0,
{
    match parse_wat(ALLOCATOR_WAT) {
        Ok(bytes) => Ok(bytes),
        Err(_) => Err(AllocatorError),
    }
}

/// Why a component could not be generated.
#[derive(Clone, Copy, Debug, PartialEq, Eq, Structural)]
pub enum ComponentError {
    /// The allocator text did not assemble to a binary that fits a section.
    Allocator,
    /// The template's module or record is too large to be encoded.
    TooLarge,
}

/// The component of template `s` with parameters `p` and export name `name` is small
/// enough to be encoded: its core module and its `params` record fit their length prefixes.
pub open spec fn component_fits(p: Params, s: Seq<Node>, name: Seq<char>) -> bool {
    &&& module_fits(p, s)
    &&& module_len(module_layout(p, s, name)) <= u32::MAX
    &&& record_bytes_fit(p)
}

/// Generates the component for a template, embedding the allocator module assembled from
/// its text.
pub fn gen_component(config: &Config, template: &TemplateGenerator) -> (r: Result<Component, ComponentError>)
    requires
        template.wf(),
        config.export_func_name@.len() <= NAME_LIMIT,
    ensures
        (r matches Err(ComponentError::Allocator)) == !allocator_ok(),
        (r is Ok) == (allocator_ok() && component_fits(
            template.template_params(),
            template.nodes(),
            config.export_func_name@,
        )),
        r is Ok ==> component_parts(r->Ok_0) == component_layout(
            template.template_params(),
            template.nodes(),
            config.export_func_name@,
            allocator_binary()->0,
        ),
{
    let allocator = match gen_allocator() {
        Ok(bytes) => bytes,
        Err(_) => {
            return Err(ComponentError::Allocator);
        },
    };
    if allocator.len() > 4294967295 {
        return Err(ComponentError::Allocator);
    }
    match gen_component_with(config, template, allocator.as_slice()) {
        Ok(c) => Ok(c),
        Err(_) => Err(ComponentError::TooLarge),
    }
}

/// Generates the component for a template around the given allocator module bytes.
pub fn gen_component_with(config: &Config, template: &TemplateGenerator, allocator: &[u8]) -> (r: Result<
    Component,
    TooLarge,
>)
    requires
        template.wf(),
        config.export_func_name@.len() <= NAME_LIMIT,
        allocator@.len() <= u32::MAX,
    ensures
        (r is Ok) == component_fits(template.template_params(), template.nodes(), config.export_func_name@),
        r is Ok ==> component_parts(r->Ok_0) == component_layout(
            template.template_params(),
            template.nodes(),
            config.export_func_name@,
            allocator@,
        ),
{
    proof {
        reveal_strlit("allocator");
        reveal_strlit("memory");
        reveal_strlit("realloc");
        reveal_strlit("params");
    }
    let module = gen_module(config, template)?;
    if module_size(&module) > 4294967295 {
        return Err(TooLarge);
    }
    if !template.params().record_fits() {
        return Err(TooLarge);
    }
    let mut component = new_component();

    // the allocator module (index 0), then the template's module (index 1)
    component_add(&mut component, ComponentPart::Raw(CORE_MODULE_SECTION_ID, allocator));
    let allocator_module_index: u32 = 0;
    component_add(&mut component, ComponentPart::Module(&module));
    let inner_module_index: u32 = 1;

    // instantiate the allocator, then the template's module against it
    let mut instances = new_instance_section();
    let no_args: Vec<(String, u32)> = Vec::new();
    instantiate(&mut instances, allocator_module_index, &no_args);
    let mut args: Vec<(String, u32)> = Vec::new();
    args.push((String::from_str("allocator"), allocator_module_index));
    instantiate(&mut instances, inner_module_index, &args);
    proof {
        let af = |a: (Seq<char>, u32)| (64 + 4 * a.0.len()) as int;
        let inf = |e: (u32, Seq<(Seq<char>, u32)>)| 64 + sum_of(e.1, |a: (Seq<char>, u32)| (64 + 4 * a.0.len()) as int);
        assert(crate::gen::encode::args_view(no_args@) =~= seq![]);
        assert(crate::gen::encode::args_view(args@) =~= seq![("allocator"@, 0u32)]);
        lemma_sum_push(Seq::<(Seq<char>, u32)>::empty(), ("allocator"@, 0u32), af);
        assert(seq![("allocator"@, 0u32)] == Seq::<(Seq<char>, u32)>::empty().push(("allocator"@, 0u32)));
        let x0 = (0u32, Seq::<(Seq<char>, u32)>::empty());
        let x1 = (1u32, seq![("allocator"@, 0u32)]);
        lemma_sum_push(Seq::<(u32, Seq<(Seq<char>, u32)>)>::empty(), x0, inf);
        lemma_sum_push(seq![x0], x1, inf);
        assert(seq![x0] == Seq::<(u32, Seq<(Seq<char>, u32)>)>::empty().push(x0));
        assert(instance_entries(instances) =~= seq![x0].push(x1));
    }
    component_add(&mut component, ComponentPart::Instances(&instances));

    // the allocator's memory and realloc, and the compiled function
    let mut aliases = new_alias_section();
    alias_core_export(&mut aliases, allocator_module_index, CoreKind::Memory, "memory");
    alias_core_export(&mut aliases, allocator_module_index, CoreKind::Func, "realloc");
    alias_core_export(&mut aliases, inner_module_index, CoreKind::Func, config.export_func_name.as_str());
    proof {
        let alf = |e: (u32, CoreKind, Seq<char>)| (64 + 4 * e.2.len()) as int;
        let a0 = (0u32, CoreKind::Memory, "memory"@);
        let a1 = (0u32, CoreKind::Func, "realloc"@);
        let a2 = (1u32, CoreKind::Func, config.export_func_name@);
        lemma_sum_push(Seq::<(u32, CoreKind, Seq<char>)>::empty(), a0, alf);
        lemma_sum_push(seq![a0], a1, alf);
        lemma_sum_push(seq![a0, a1], a2, alf);
        assert(seq![a0] == Seq::<(u32, CoreKind, Seq<char>)>::empty().push(a0));
        assert(seq![a0, a1] == seq![a0].push(a1));
        assert(alias_entries(aliases) =~= seq![a0, a1].push(a2));
    }
    component_add(&mut component, ComponentPart::Aliases(&aliases));

    // the `params` record (type 0), exported as type 1
    let types = template.params().record_type();
    let params_type_index: u32 = 0;
    component_add(&mut component, ComponentPart::Types(&types));
    let mut exports = new_component_export_section();
    component_export(&mut exports, "params", ComponentKind::Type, params_type_index);
    let params_export_index: u32 = 1;
    proof {
        let exf = |e: (Seq<char>, ComponentKind, u32)| (64 + 4 * e.0.len()) as int;
        lemma_sum_push(Seq::<(Seq<char>, ComponentKind, u32)>::empty(), ("params"@, ComponentKind::Type, 0u32), exf);
    }
    component_add(&mut component, ComponentPart::Exports(&exports));
    assert(component_export_entries(exports) =~= seq![("params"@, ComponentKind::Type, 0u32)]);

    // `(params: params) -> string` (type 2)
    let mut types = new_component_type_section();
    define_func_type(&mut types, "params", params_export_index, Primitive::String);
    let apply_type_index: u32 = 2;
    proof {
        let tf = |t: TypeDef| type_def_bound(t);
        lemma_sum_push(Seq::<TypeDef>::empty(), TypeDef::Func("params"@, 1u32, Primitive::String), tf);
    }
    component_add(&mut component, ComponentPart::Types(&types));
    assert(component_type_entries(types) =~= seq![TypeDef::Func("params"@, 1u32, Primitive::String)]);

    // lift the core function (core function 1 of the component) with UTF-8, memory 0, realloc 0
    let mut functions = new_canonical_section();
    lift_utf8(&mut functions, 1, apply_type_index, 0, 0);
    assert(canonical_entries(functions) =~= seq![(1u32, 2u32, 0u32, 0u32)]);
    component_add(&mut component, ComponentPart::Canonicals(&functions));

    let mut exports = new_component_export_section();
    component_export(&mut exports, config.export_func_name.as_str(), ComponentKind::Func, 0);
    proof {
        let exf = |e: (Seq<char>, ComponentKind, u32)| (64 + 4 * e.0.len()) as int;
        lemma_sum_push(
            Seq::<(Seq<char>, ComponentKind, u32)>::empty(),
            (config.export_func_name@, ComponentKind::Func, 0u32),
            exf,
        );
    }
    component_add(&mut component, ComponentPart::Exports(&exports));
    assert(component_export_entries(exports) =~= seq![(config.export_func_name@, ComponentKind::Func, 0u32)]);

    proof {
        let name = config.export_func_name@;
        assert(crate::gen::encode::args_view(no_args@) =~= seq![]);
        assert(crate::gen::encode::args_view(args@) =~= seq![("allocator"@, 0u32)]);
        assert(instance_entries(instances) =~= seq![(0u32, seq![]), (1u32, seq![("allocator"@, 0u32)])]);
        assert(alias_entries(aliases) =~= seq![
            (0u32, CoreKind::Memory, "memory"@),
            (0u32, CoreKind::Func, "realloc"@),
            (1u32, CoreKind::Func, name),
        ]);
        assert(canonical_entries(functions) =~= seq![(1u32, 2u32, 0u32, 0u32)]);
    }
    assert(component_parts(component) =~= component_layout(
        template.template_params(),
        template.nodes(),
        config.export_func_name@,
        allocator@,
    ));
    Ok(component)
}

} // verus!
