//! The core module that holds the compiled template function.
use vstd::prelude::*;
use wasm_encoder::Module;
use crate::Config;
use crate::gen::template::{Params, TemplateGenerator};
use crate::gen::code::{args_len, core_code, text_runs, Instr};
use crate::ir::Node;
use crate::gen::encode::{
    module_parts, ModuleView, NAME_LIMIT, type_entries, import_entries, function_entries, export_entries,
    code_entries, new_type_section, add_func_type, new_import_section, add_import, ImportType,
    new_function_section, add_function, new_code_section, add_code, new_export_section, add_export,
    CoreKind, new_module, module_add, ModulePart, body_len, sum_of, section_fits, function_size,
    passive_segments, lemma_sum_push, lemma_sum_prefix, module_part_fits,
};
use crate::gen::template::bytes_view;

verus! {

/// The module imports the allocator's functions before defining its own.
pub const REALLOC_TYPE_INDEX: u32 = 0;
pub const CLEAR_TYPE_INDEX: u32 = 1;
pub const TEMPLATE_TYPE_INDEX: u32 = 2;
pub const MEMORY_INDEX: u32 = 0;
pub const CLEAR_FUNC_INDEX: u32 = 1;
pub const TEMPLATE_FUNC_INDEX: u32 = 2;

/// The core module for template `s` with parameters `p`, section by section in the order the
/// binary format demands: the types of `realloc`, `clear` and the compiled function; the
/// imports of the allocator's memory, `realloc` and `clear`; the compiled function; the
/// exports; the data count; the compiled function's body with its four locals; one passive
/// segment per literal run.
pub open spec fn module_layout(p: Params, s: Seq<Node>, name: Seq<char>) -> Seq<ModuleView> {
    seq![
        ModuleView::Types(seq![(4u32, 1u32), (0u32, 0u32), (args_len(p) as u32, 1u32)]),
        ModuleView::Imports(
            seq![
                ("allocator"@, "memory"@, ImportType::Memory { minimum: 1 }),
                ("allocator"@, "realloc"@, ImportType::Func(REALLOC_TYPE_INDEX)),
                ("allocator"@, "clear"@, ImportType::Func(CLEAR_TYPE_INDEX)),
            ],
        ),
        ModuleView::Functions(seq![TEMPLATE_TYPE_INDEX]),
        ModuleView::Exports(
            seq![
                ("memory"@, CoreKind::Memory, MEMORY_INDEX),
                ("realloc"@, CoreKind::Func, crate::gen::code::REALLOC_FUNC_INDEX),
                ("clear"@, CoreKind::Func, CLEAR_FUNC_INDEX),
                (name, CoreKind::Func, TEMPLATE_FUNC_INDEX),
            ],
        ),
        ModuleView::DataCount(text_runs(s).len() as u32),
        ModuleView::Code(seq![(4u32, core_code(p, s))]),
        ModuleView::Data(text_runs(s)),
    ]
}

/// Builds the core module: it imports `memory`, `realloc` and `clear` from `allocator`,
/// defines the compiled function, re-exports the allocator's items and exports the compiled
/// function under the configured name.
pub fn gen_module(config: &Config, template: &TemplateGenerator) -> (r: Result<Module, TooLarge>)
    requires
        template.wf(),
        config.export_func_name@.len() <= NAME_LIMIT,
    ensures
        (r is Ok) == module_fits(template.template_params(), template.nodes()),
        r is Ok ==> module_parts(r->Ok_0) == module_layout(
            template.template_params(),
            template.nodes(),
            config.export_func_name@,
        ),
{
    let args = template.arguments_len();
    if args > 4294967231 {
        return Err(TooLarge);
    }
    let func = template.gen_core_function();
    if function_size(&func) > 4294967285 {
        return Err(TooLarge);
    }
    let segments = template.data_segments();
    if !segments_fit(&segments) {
        return Err(TooLarge);
    }
    proof {
        reveal_strlit("allocator");
        reveal_strlit("memory");
        reveal_strlit("realloc");
        reveal_strlit("clear");
    }
    // realloc: (i32, i32, i32, i32) -> i32, then clear: () -> (), then the template function
    let mut types = new_type_section();
    add_func_type(&mut types, 4, 1);
    add_func_type(&mut types, 0, 0);
    template.gen_core_type(&mut types);

    let mut imports = new_import_section();
    add_import(&mut imports, "allocator", "memory", ImportType::Memory { minimum: 1 });
    add_import(&mut imports, "allocator", "realloc", ImportType::Func(REALLOC_TYPE_INDEX));
    add_import(&mut imports, "allocator", "clear", ImportType::Func(CLEAR_TYPE_INDEX));

    let mut functions = new_function_section();
    add_function(&mut functions, TEMPLATE_TYPE_INDEX);

    let mut codes = new_code_section();
    add_code(&mut codes, &func);

    let (count, data) = template.gen_data();

    let mut exports = new_export_section();
    add_export(&mut exports, "memory", CoreKind::Memory, MEMORY_INDEX);
    add_export(&mut exports, "realloc", CoreKind::Func, crate::gen::code::REALLOC_FUNC_INDEX);
    add_export(&mut exports, "clear", CoreKind::Func, CLEAR_FUNC_INDEX);
    add_export(&mut exports, config.export_func_name.as_str(), CoreKind::Func, TEMPLATE_FUNC_INDEX);

    proof {
        let p = template.template_params();
        let name = config.export_func_name@;
        let tf = |e: (u32, u32)| (11 + e.0 + e.1) as int;
        lemma_sum_push(Seq::<(u32, u32)>::empty(), (4u32, 1u32), tf);
        lemma_sum_push(seq![(4u32, 1u32)], (0u32, 0u32), tf);
        lemma_sum_push(seq![(4u32, 1u32), (0u32, 0u32)], (args_len(p) as u32, 1u32), tf);
        assert(seq![(4u32, 1u32)] == Seq::<(u32, u32)>::empty().push((4u32, 1u32)));
        assert(seq![(4u32, 1u32), (0u32, 0u32)] == seq![(4u32, 1u32)].push((0u32, 0u32)));
        assert(type_entries(types) =~= seq![(4u32, 1u32), (0u32, 0u32)].push((args_len(p) as u32, 1u32)));
        assert(module_part_fits(ModulePart::Types(&types)));
        let imf = |e: (Seq<char>, Seq<char>, ImportType)| (64 + 4 * (e.0.len() + e.1.len())) as int;
        let i0 = ("allocator"@, "memory"@, ImportType::Memory { minimum: 1 });
        let i1 = ("allocator"@, "realloc"@, ImportType::Func(REALLOC_TYPE_INDEX));
        let i2 = ("allocator"@, "clear"@, ImportType::Func(CLEAR_TYPE_INDEX));
        lemma_sum_push(Seq::<(Seq<char>, Seq<char>, ImportType)>::empty(), i0, imf);
        lemma_sum_push(seq![i0], i1, imf);
        lemma_sum_push(seq![i0, i1], i2, imf);
        assert(seq![i0] == Seq::<(Seq<char>, Seq<char>, ImportType)>::empty().push(i0));
        assert(seq![i0, i1] == seq![i0].push(i1));
        assert(import_entries(imports) =~= seq![i0, i1].push(i2));
        assert(module_part_fits(ModulePart::Imports(&imports)));
        assert(module_part_fits(ModulePart::Functions(&functions)));
        let exf = |e: (Seq<char>, CoreKind, u32)| (64 + 4 * e.0.len()) as int;
        let e0 = ("memory"@, CoreKind::Memory, MEMORY_INDEX);
        let e1 = ("realloc"@, CoreKind::Func, crate::gen::code::REALLOC_FUNC_INDEX);
        let e2 = ("clear"@, CoreKind::Func, CLEAR_FUNC_INDEX);
        let e3 = (name, CoreKind::Func, TEMPLATE_FUNC_INDEX);
        lemma_sum_push(Seq::<(Seq<char>, CoreKind, u32)>::empty(), e0, exf);
        lemma_sum_push(seq![e0], e1, exf);
        lemma_sum_push(seq![e0, e1], e2, exf);
        lemma_sum_push(seq![e0, e1, e2], e3, exf);
        assert(seq![e0] == Seq::<(Seq<char>, CoreKind, u32)>::empty().push(e0));
        assert(seq![e0, e1] == seq![e0].push(e1));
        assert(seq![e0, e1, e2] == seq![e0, e1].push(e2));
        assert(export_entries(exports) =~= seq![e0, e1, e2].push(e3));
        assert(module_part_fits(ModulePart::Exports(&exports)));
        let cf = |e: (u32, Seq<Instr>)| 5 + body_len(e.0, e.1) as int;
        lemma_sum_push(Seq::<(u32, Seq<Instr>)>::empty(), (4u32, core_code(p, template.nodes())), cf);
        assert(code_entries(codes) =~= Seq::<(u32, Seq<Instr>)>::empty().push((4u32, core_code(p, template.nodes()))));
        assert(module_part_fits(ModulePart::Code(&codes)));
        assert(passive_segments(data) == bytes_view(segments@));
        assert(module_part_fits(ModulePart::Data(&data)));
    }
    let mut module = new_module();
    module_add(&mut module, ModulePart::Types(&types));
    module_add(&mut module, ModulePart::Imports(&imports));
    module_add(&mut module, ModulePart::Functions(&functions));
    module_add(&mut module, ModulePart::Exports(&exports));
    module_add(&mut module, ModulePart::DataCount(&count));
    module_add(&mut module, ModulePart::Code(&codes));
    module_add(&mut module, ModulePart::Data(&data));
    proof {
        let p = template.template_params();
        let name = config.export_func_name@;
        assert(type_entries(types) =~= seq![(4u32, 1u32), (0u32, 0u32), (args_len(p) as u32, 1u32)]);
        assert(import_entries(imports) =~= seq![
            ("allocator"@, "memory"@, ImportType::Memory { minimum: 1 }),
            ("allocator"@, "realloc"@, ImportType::Func(REALLOC_TYPE_INDEX)),
            ("allocator"@, "clear"@, ImportType::Func(CLEAR_TYPE_INDEX)),
        ]);
        assert(function_entries(functions) =~= seq![TEMPLATE_TYPE_INDEX]);
        assert(export_entries(exports) =~= seq![
            ("memory"@, CoreKind::Memory, MEMORY_INDEX),
            ("realloc"@, CoreKind::Func, crate::gen::code::REALLOC_FUNC_INDEX),
            ("clear"@, CoreKind::Func, CLEAR_FUNC_INDEX),
            (name, CoreKind::Func, TEMPLATE_FUNC_INDEX),
        ]);
        assert(code_entries(codes) =~= seq![(4u32, core_code(p, template.nodes()))]);
    }
    assert(module_parts(module) =~= module_layout(template.template_params(), template.nodes(), config.export_func_name@));
    Ok(module)
}

/// The core module of template `s` with parameters `p` is small enough to be encoded: its
/// function body, its argument list and its data segments fit their 32-bit length prefixes.
pub open spec fn module_fits(p: Params, s: Seq<Node>) -> bool {
    &&& body_len(4, core_code(p, s)) + 10 <= u32::MAX
    &&& args_len(p) + 64 <= u32::MAX
    &&& section_fits(sum_of(text_runs(s), |b: Seq<u8>| (64 + b.len()) as int))
}

/// The module is too large to be encoded.
#[derive(Clone, Copy, Debug, PartialEq, Eq, Structural)]
pub struct TooLarge;

/// Whether the data segments `segs` fit a data section.
fn segments_fit(segs: &Vec<Vec<u8>>) -> (r: bool)
    ensures
        r == section_fits(sum_of(bytes_view(segs@), |b: Seq<u8>| (64 + b.len()) as int)),
{
    let ghost v = bytes_view(segs@);
    let mut acc: u64 = 0;
    let mut i: usize = 0;
    proof {
        assert(v.subrange(0, 0) =~= Seq::<Seq<u8>>::empty());
    }
    while i < segs.len()
        invariant
            0 <= i <= segs@.len(),
            v == bytes_view(segs@),
            acc == sum_of(v.subrange(0, i as int), |b: Seq<u8>| (64 + b.len()) as int),
            acc + 5 <= u32::MAX,
        decreases segs@.len() - i,
    {
        proof {
            assert(v.subrange(0, i + 1) =~= v.subrange(0, i as int).push(v[i as int]));
            lemma_sum_push(v.subrange(0, i as int), v[i as int], |b: Seq<u8>| (64 + b.len()) as int);
            assert(v[i as int] == segs@[i as int]@);
        }
        let len = segs[i].len();
        if len > 4294967290 - acc as usize || 64 > 4294967290 - acc - len as u64 {
            proof {
                assert forall|j: int| 0 <= j < v.len() implies (|b: Seq<u8>| (64 + b.len()) as int)(#[trigger] v[j]) >= 0 by {}
                lemma_sum_prefix(v, i + 1, |b: Seq<u8>| (64 + b.len()) as int);
            }
            return false;
        }
        acc = acc + 64 + len as u64;
        i = i + 1;
    }
    proof {
        assert(v.subrange(0, v.len() as int) =~= v);
    }
    true
}

} // verus!
