//! The calls into `wasm_encoder` (and `wat`) that turn the generated code and tables into
//! binary sections. Each item here is trusted: its contract restates what the outside
//! source does.
use vstd::prelude::*;
use wasm_encoder::{
    BlockType, CanonicalFunctionSection, CanonicalOption, CodeSection, Component,
    ComponentAliasSection, ComponentExportSection, ComponentTypeSection, ComponentValType,
    DataCountSection, DataSection, EntityType, ExportSection, Function, FunctionSection,
    ImportSection, InstanceSection, Instruction, MemArg, MemoryType, Module, ModuleArg,
    ModuleSection, PrimitiveValType, RawSection, TypeSection, ValType,
};
use crate::gen::code::Instr;

verus! {

#[verifier::external_type_specification]
#[verifier::external_body]
pub struct ExFunction(Function);

#[verifier::external_type_specification]
#[verifier::external_body]
pub struct ExDataSection(DataSection);

#[verifier::external_type_specification]
#[verifier::external_body]
pub struct ExDataCountSection(DataCountSection);

#[verifier::external_type_specification]
#[verifier::external_body]
pub struct ExTypeSection(TypeSection);

#[verifier::external_type_specification]
#[verifier::external_body]
pub struct ExImportSection(ImportSection);

#[verifier::external_type_specification]
#[verifier::external_body]
pub struct ExFunctionSection(FunctionSection);

#[verifier::external_type_specification]
#[verifier::external_body]
pub struct ExCodeSection(CodeSection);

#[verifier::external_type_specification]
#[verifier::external_body]
pub struct ExExportSection(ExportSection);

#[verifier::external_type_specification]
#[verifier::external_body]
pub struct ExModule(Module);

#[verifier::external_type_specification]
#[verifier::external_body]
pub struct ExComponent(Component);

#[verifier::external_type_specification]
#[verifier::external_body]
pub struct ExInstanceSection(InstanceSection);

#[verifier::external_type_specification]
#[verifier::external_body]
pub struct ExComponentAliasSection(ComponentAliasSection);

#[verifier::external_type_specification]
#[verifier::external_body]
pub struct ExComponentTypeSection(ComponentTypeSection);

#[verifier::external_type_specification]
#[verifier::external_body]
pub struct ExComponentExportSection(ComponentExportSection);

#[verifier::external_type_specification]
#[verifier::external_body]
pub struct ExCanonicalFunctionSection(CanonicalFunctionSection);

#[verifier::external_type_specification]
#[verifier::external_body]
pub struct ExWatError(wat::Error);

/// The longest name, in characters, whose UTF-8 length surely fits the 32-bit length prefix
/// every name and byte string is encoded with.
pub const NAME_LIMIT: usize = 268435455;

/// The instructions written into a function body so far.
pub uninterp spec fn function_instrs(f: Function) -> Seq<Instr>;

/// The number of i32 locals a function body declares.
pub uninterp spec fn function_locals(f: Function) -> u32;

/// The passive segments written into a data section so far.
pub uninterp spec fn passive_segments(d: DataSection) -> Seq<Seq<u8>>;

/// The number of data segments a data count section declares.
pub uninterp spec fn data_count_of(c: DataCountSection) -> u32;

/// The function types `(number of i32 params, number of i32 results)` of a type section.
pub uninterp spec fn type_entries(t: TypeSection) -> Seq<(u32, u32)>;

/// The imports `(module, name, type)` of an import section.
pub uninterp spec fn import_entries(s: ImportSection) -> Seq<(Seq<char>, Seq<char>, ImportType)>;

/// The type indices of the functions a function section declares.
pub uninterp spec fn function_entries(s: FunctionSection) -> Seq<u32>;

/// The function bodies `(i32 locals, instructions)` of a code section.
pub uninterp spec fn code_entries(s: CodeSection) -> Seq<(u32, Seq<Instr>)>;

/// The exports `(name, kind, index)` of an export section.
pub uninterp spec fn export_entries(s: ExportSection) -> Seq<(Seq<char>, CoreKind, u32)>;

/// The sections written into a module so far.
pub uninterp spec fn module_parts(m: Module) -> Seq<ModuleView>;

/// The sections written into a component so far.
pub uninterp spec fn component_parts(c: Component) -> Seq<ComponentView>;

/// The bytes a component encodes to.
pub uninterp spec fn component_bytes(c: Component) -> Seq<u8>;

/// The instantiations `(core module, [(name, core instance)])` of a core instance section.
pub uninterp spec fn instance_entries(s: InstanceSection) -> Seq<(u32, Seq<(Seq<char>, u32)>)>;

/// The aliases `(core instance, kind, export name)` of an alias section.
pub uninterp spec fn alias_entries(s: ComponentAliasSection) -> Seq<(u32, CoreKind, Seq<char>)>;

/// The types defined in a component type section.
pub uninterp spec fn component_type_entries(s: ComponentTypeSection) -> Seq<TypeDef>;

/// The lifts `(core function, type, memory, realloc)` of a canonical function section.
pub uninterp spec fn canonical_entries(s: CanonicalFunctionSection) -> Seq<(u32, u32, u32, u32)>;

/// The exports `(name, kind, index)` of a component export section.
pub uninterp spec fn component_export_entries(s: ComponentExportSection) -> Seq<(Seq<char>, ComponentKind, u32)>;

/// The number of bytes a function body with `locals` i32 locals and the instructions
/// `instrs` encodes to (its length prefix excluded).
pub uninterp spec fn body_len(locals: u32, instrs: Seq<Instr>) -> nat;

/// The number of bytes a module with the sections `parts` encodes to, header included.
pub uninterp spec fn module_len(parts: Seq<ModuleView>) -> nat;

/// The sum of `f` over `s`.
pub open spec fn sum_of<T>(s: Seq<T>, f: spec_fn(T) -> int) -> int
    decreases s.len(),
{
    if s.len() == 0 {
        0
    } else {
        sum_of(s.drop_last(), f) + f(s.last())
    }
}

pub proof fn lemma_sum_push<T>(s: Seq<T>, x: T, f: spec_fn(T) -> int)
    ensures
        sum_of(s.push(x), f) == sum_of(s, f) + f(x),
{
    assert(s.push(x).drop_last() =~= s);
}

pub proof fn lemma_sum_concat<T>(a: Seq<T>, b: Seq<T>, f: spec_fn(T) -> int)
    ensures
        sum_of(a + b, f) == sum_of(a, f) + sum_of(b, f),
    decreases b.len(),
{
    if b.len() == 0 {
        assert(a + b =~= a);
    } else {
        assert((a + b).drop_last() =~= a + b.drop_last());
        lemma_sum_concat(a, b.drop_last(), f);
    }
}

/// A sum of terms each at most the matching term of another sum is at most that sum.
pub proof fn lemma_sum_le<T, U>(a: Seq<T>, f: spec_fn(T) -> int, b: Seq<U>, g: spec_fn(U) -> int)
    requires
        a.len() == b.len(),
        forall|i: int| 0 <= i < a.len() ==> f(#[trigger] a[i]) <= g(b[i]),
    ensures
        sum_of(a, f) <= sum_of(b, g),
    decreases a.len(),
{
    if a.len() > 0 {
        assert forall|i: int| 0 <= i < a.len() - 1 implies f(#[trigger] a.drop_last()[i]) <= g(b.drop_last()[i]) by {
            assert(a.drop_last()[i] == a[i]);
            assert(b.drop_last()[i] == b[i]);
        }
        lemma_sum_le(a.drop_last(), f, b.drop_last(), g);
        assert(f(a.last()) <= g(b.last())) by {
            assert(a.last() == a[a.len() - 1]);
            assert(b.last() == b[b.len() - 1]);
        }
    }
}

/// A sum of nonnegative terms over a prefix is at most the whole sum.
pub proof fn lemma_sum_prefix<T>(s: Seq<T>, k: int, f: spec_fn(T) -> int)
    requires
        0 <= k <= s.len(),
        forall|i: int| 0 <= i < s.len() ==> f(#[trigger] s[i]) >= 0,
    ensures
        sum_of(s.subrange(0, k), f) <= sum_of(s, f),
    decreases s.len() - k,
{
    if k < s.len() {
        lemma_sum_prefix(s, k + 1, f);
        assert(s.subrange(0, k + 1).drop_last() =~= s.subrange(0, k));
        assert(s.subrange(0, k + 1).last() == s[k]);
    } else {
        assert(s.subrange(0, k) =~= s);
    }
}

/// A section whose entries encode to at most `total` bytes fits the 32-bit length prefix of
/// a section (whose entry count takes at most 5 more bytes).
pub open spec fn section_fits(total: int) -> bool {
    total + 5 <= u32::MAX
}

/// Each core module section is small enough to be written: at most 64 bytes of overhead
/// per entry, 4 bytes per character of a name, one byte per value type, and the bytes of
/// each data segment and function body.
pub open spec fn module_part_fits(part: ModulePart) -> bool {
    match part {
        ModulePart::Types(s) => section_fits(sum_of(type_entries(*s), |e: (u32, u32)| (11 + e.0 + e.1) as int)),
        ModulePart::Imports(s) => section_fits(
            sum_of(import_entries(*s), |e: (Seq<char>, Seq<char>, ImportType)| (64 + 4 * (e.0.len() + e.1.len())) as int),
        ),
        ModulePart::Functions(s) => section_fits((5 * function_entries(*s).len()) as int),
        ModulePart::Exports(s) => section_fits(
            sum_of(export_entries(*s), |e: (Seq<char>, CoreKind, u32)| (64 + 4 * e.0.len()) as int),
        ),
        ModulePart::DataCount(_) => true,
        ModulePart::Code(s) => section_fits(
            sum_of(code_entries(*s), |e: (u32, Seq<Instr>)| 5 + body_len(e.0, e.1) as int),
        ),
        ModulePart::Data(s) => section_fits(sum_of(passive_segments(*s), |b: Seq<u8>| (64 + b.len()) as int)),
    }
}

/// The bytes a component type definition encodes to, at most.
pub open spec fn type_def_bound(t: TypeDef) -> int {
    match t {
        TypeDef::Record(fields) => 64 + sum_of(fields, |f: (Seq<char>, Primitive)| (64 + 4 * f.0.len()) as int),
        TypeDef::Func(name, _, _) => (64 + 4 * name.len()) as int,
    }
}

/// Each component section is small enough to be written, by the same measure.
pub open spec fn component_part_fits(part: ComponentPart) -> bool {
    match part {
        ComponentPart::Raw(_, data) => data@.len() <= u32::MAX,
        ComponentPart::Module(m) => module_len(module_parts(*m)) <= u32::MAX,
        ComponentPart::Instances(s) => section_fits(
            sum_of(
                instance_entries(*s),
                |e: (u32, Seq<(Seq<char>, u32)>)| 64 + sum_of(e.1, |a: (Seq<char>, u32)| (64 + 4 * a.0.len()) as int),
            ),
        ),
        ComponentPart::Aliases(s) => section_fits(
            sum_of(alias_entries(*s), |e: (u32, CoreKind, Seq<char>)| (64 + 4 * e.2.len()) as int),
        ),
        ComponentPart::Types(s) => section_fits(sum_of(component_type_entries(*s), |t: TypeDef| type_def_bound(t))),
        ComponentPart::Canonicals(s) => section_fits((64 * canonical_entries(*s).len()) as int),
        ComponentPart::Exports(s) => section_fits(
            sum_of(component_export_entries(*s), |e: (Seq<char>, ComponentKind, u32)| (64 + 4 * e.0.len()) as int),
        ),
    }
}

/// The binary `wat::parse_str` assembles from a text, if it assembles.
pub uninterp spec fn wat_binary(text: Seq<char>) -> Option<Seq<u8>>;

/// The text `String::from_utf8_lossy` reads from some bytes.
pub uninterp spec fn lossy_text(bytes: Seq<u8>) -> Seq<char>;

/// A core export's kind.
#[derive(Clone, Copy, Debug, PartialEq, Eq, Structural)]
pub enum CoreKind {
    Func,
    Memory,
}

/// A component export's kind.
#[derive(Clone, Copy, Debug, PartialEq, Eq, Structural)]
pub enum ComponentKind {
    Type,
    Func,
}

/// What a core module imports.
#[derive(Clone, Copy, Debug, PartialEq, Eq, Structural)]
pub enum ImportType {
    /// A 32-bit, unshared memory of at least `minimum` pages and no maximum.
    Memory { minimum: u64 },
    /// A function of the given type.
    Func(u32),
}

/// A component-level primitive value type.
#[derive(Clone, Copy, Debug, PartialEq, Eq, Structural)]
pub enum Primitive {
    String,
    Bool,
}

/// A section of a core module, by its contents.
pub enum ModuleView {
    Types(Seq<(u32, u32)>),
    Imports(Seq<(Seq<char>, Seq<char>, ImportType)>),
    Functions(Seq<u32>),
    Exports(Seq<(Seq<char>, CoreKind, u32)>),
    DataCount(u32),
    Code(Seq<(u32, Seq<Instr>)>),
    Data(Seq<Seq<u8>>),
}

/// A component-level type definition.
pub enum TypeDef {
    /// A record of named fields.
    Record(Seq<(Seq<char>, Primitive)>),
    /// A function of one parameter `(name, type index)` returning a primitive.
    Func(Seq<char>, u32, Primitive),
}

/// A section of a component, by its contents.
pub enum ComponentView {
    /// Raw bytes under a section id.
    Raw(u8, Seq<u8>),
    /// An embedded core module.
    Module(Seq<ModuleView>),
    Instances(Seq<(u32, Seq<(Seq<char>, u32)>)>),
    Aliases(Seq<(u32, CoreKind, Seq<char>)>),
    Types(Seq<TypeDef>),
    Canonicals(Seq<(u32, u32, u32, u32)>),
    Exports(Seq<(Seq<char>, ComponentKind, u32)>),
}

/// The instructions `emit_simple` encodes.
pub open spec fn is_simple(i: Instr) -> bool {
    i is LocalGet || i is LocalSet || i is I32Const || i is I32Add || i is I32Mul || i is Call || i is Else
        || i is End
}

/// Relies on `Function::new`: a body with `locals` i32 locals and no instructions yet.
#[verifier::external_body]
pub(crate) fn new_function(locals: u32) -> (r: Function)
    ensures
        function_instrs(r) == Seq::<Instr>::empty(),
        function_locals(r) == locals,
{
    Function::new([(locals, ValType::I32)])
}

/// Relies on `Function::instruction`: appends one instruction without operands in memory.
#[verifier::external_body]
pub(crate) fn emit_simple(f: &mut Function, i: Instr)
    requires
        is_simple(i),
    ensures
        function_instrs(*final(f)) == function_instrs(*old(f)).push(i),
        function_locals(*final(f)) == function_locals(*old(f)),
{
    let ins = match i {
        Instr::LocalGet(x) => Instruction::LocalGet(x),
        Instr::LocalSet(x) => Instruction::LocalSet(x),
        Instr::I32Const(v) => Instruction::I32Const(v),
        Instr::I32Add => Instruction::I32Add,
        Instr::I32Mul => Instruction::I32Mul,
        Instr::Call(x) => Instruction::Call(x),
        Instr::Else => Instruction::Else,
        _ => Instruction::End,
    };
    f.instruction(&ins);
}

/// Relies on `Function::instruction`: appends one block opener or memory instruction
/// (memory 0, offset 0).
#[verifier::external_body]
pub(crate) fn emit_block_or_memory(f: &mut Function, i: Instr)
    requires
        !is_simple(i),
    ensures
        function_instrs(*final(f)) == function_instrs(*old(f)).push(i),
        function_locals(*final(f)) == function_locals(*old(f)),
{
    let ins = match i {
        Instr::IfI32 => Instruction::If(BlockType::Result(ValType::I32)),
        Instr::IfEmpty => Instruction::If(BlockType::Empty),
        Instr::I32Load { align } => Instruction::I32Load(MemArg { offset: 0, align, memory_index: 0 }),
        Instr::I32Load8U { align } => Instruction::I32Load8U(MemArg { offset: 0, align, memory_index: 0 }),
        Instr::I32Store { align } => Instruction::I32Store(MemArg { offset: 0, align, memory_index: 0 }),
        Instr::MemoryInit { data_index } => Instruction::MemoryInit { mem: 0, data_index },
        _ => Instruction::MemoryCopy { src_mem: 0, dst_mem: 0 },
    };
    f.instruction(&ins);
}

/// Relies on `DataSection::new`: an empty data section.
#[verifier::external_body]
pub(crate) fn new_data_section() -> (r: DataSection)
    ensures
        passive_segments(r) == Seq::<Seq<u8>>::empty(),
{
    DataSection::new()
}

/// Relies on `DataSection::passive`: appends a passive segment holding `bytes`, whose length
/// is encoded as a 32-bit number.
#[verifier::external_body]
pub(crate) fn add_passive(d: &mut DataSection, bytes: &Vec<u8>)
    requires
        bytes@.len() <= u32::MAX,
    ensures
        passive_segments(*final(d)) == passive_segments(*old(d)).push(bytes@),
{
    d.passive(bytes.iter().copied());
}

/// Relies on the `DataCountSection` struct: declares `count` data segments.
#[verifier::external_body]
pub(crate) fn data_count_section(count: u32) -> (r: DataCountSection)
    ensures
        data_count_of(r) == count,
{
    DataCountSection { count }
}

/// Relies on `TypeSection::new`.
#[verifier::external_body]
pub(crate) fn new_type_section() -> (r: TypeSection)
    ensures
        type_entries(r) == Seq::<(u32, u32)>::empty(),
{
    TypeSection::new()
}

/// Relies on `CoreTypeEncoder::function`: appends the type `(i32 x params) -> (i32 x results)`.
#[verifier::external_body]
pub(crate) fn add_func_type(t: &mut TypeSection, params: u32, results: u32)
    ensures
        type_entries(*final(t)) == type_entries(*old(t)).push((params, results)),
{
    t.ty().function(vec![ValType::I32; params as usize], vec![ValType::I32; results as usize]);
}

/// Relies on `ImportSection::new`.
#[verifier::external_body]
pub(crate) fn new_import_section() -> (r: ImportSection)
    ensures
        import_entries(r) == Seq::<(Seq<char>, Seq<char>, ImportType)>::empty(),
{
    ImportSection::new()
}

/// Relies on `ImportSection::import`: appends the import `module.name` of type `ty`.
#[verifier::external_body]
pub(crate) fn add_import(s: &mut ImportSection, module: &str, name: &str, ty: ImportType)
    requires
        module@.len() <= NAME_LIMIT,
        name@.len() <= NAME_LIMIT,
    ensures
        import_entries(*final(s)) == import_entries(*old(s)).push((module@, name@, ty)),
{
    let ty = match ty {
        ImportType::Memory { minimum } => EntityType::Memory(
            MemoryType { minimum, maximum: None, memory64: false, shared: false, page_size_log2: None },
        ),
        ImportType::Func(index) => EntityType::Function(index),
    };
    s.import(module, name, ty);
}

/// Relies on `FunctionSection::new`.
#[verifier::external_body]
pub(crate) fn new_function_section() -> (r: FunctionSection)
    ensures
        function_entries(r) == Seq::<u32>::empty(),
{
    FunctionSection::new()
}

/// Relies on `FunctionSection::function`: declares a function of type `type_index`.
#[verifier::external_body]
pub(crate) fn add_function(s: &mut FunctionSection, type_index: u32)
    ensures
        function_entries(*final(s)) == function_entries(*old(s)).push(type_index),
{
    s.function(type_index);
}

/// Relies on `CodeSection::new`.
#[verifier::external_body]
pub(crate) fn new_code_section() -> (r: CodeSection)
    ensures
        code_entries(r) == Seq::<(u32, Seq<Instr>)>::empty(),
{
    CodeSection::new()
}

/// Relies on `Function::byte_len`: the number of bytes of the body, which is written with a
/// 32-bit length prefix.
#[verifier::external_body]
pub(crate) fn function_size(f: &Function) -> (r: usize)
    ensures
        r == body_len(function_locals(*f), function_instrs(*f)),
{
    f.byte_len()
}

/// Relies on `Module::len`: the number of bytes of the module so far.
#[verifier::external_body]
pub(crate) fn module_size(m: &Module) -> (r: usize)
    ensures
        r == module_len(module_parts(*m)),
{
    m.len()
}

/// Relies on `CodeSection::function`: appends a function body.
#[verifier::external_body]
pub(crate) fn add_code(s: &mut CodeSection, f: &Function)
    requires
        body_len(function_locals(*f), function_instrs(*f)) <= u32::MAX,
    ensures
        code_entries(*final(s)) == code_entries(*old(s)).push((function_locals(*f), function_instrs(*f))),
{
    s.function(f);
}

/// Relies on `ExportSection::new`.
#[verifier::external_body]
pub(crate) fn new_export_section() -> (r: ExportSection)
    ensures
        export_entries(r) == Seq::<(Seq<char>, CoreKind, u32)>::empty(),
{
    ExportSection::new()
}

/// Relies on `ExportSection::export`: exports item `index` of `kind` as `name`.
#[verifier::external_body]
pub(crate) fn add_export(s: &mut ExportSection, name: &str, kind: CoreKind, index: u32)
    requires
        name@.len() <= NAME_LIMIT,
    ensures
        export_entries(*final(s)) == export_entries(*old(s)).push((name@, kind, index)),
{
    let kind = match kind {
        CoreKind::Func => wasm_encoder::ExportKind::Func,
        CoreKind::Memory => wasm_encoder::ExportKind::Memory,
    };
    s.export(name, kind, index);
}

/// Relies on `Module::new`: a module with its header and no section.
#[verifier::external_body]
pub(crate) fn new_module() -> (r: Module)
    ensures
        module_parts(r) == Seq::<ModuleView>::empty(),
{
    Module::new()
}

/// A section of a core module.
pub enum ModulePart<'a> {
    Types(&'a TypeSection),
    Imports(&'a ImportSection),
    Functions(&'a FunctionSection),
    Exports(&'a ExportSection),
    DataCount(&'a DataCountSection),
    Code(&'a CodeSection),
    Data(&'a DataSection),
}

/// The contents of a module section.
pub open spec fn module_part_view(part: ModulePart) -> ModuleView {
    match part {
        ModulePart::Types(s) => ModuleView::Types(type_entries(*s)),
        ModulePart::Imports(s) => ModuleView::Imports(import_entries(*s)),
        ModulePart::Functions(s) => ModuleView::Functions(function_entries(*s)),
        ModulePart::Exports(s) => ModuleView::Exports(export_entries(*s)),
        ModulePart::DataCount(s) => ModuleView::DataCount(data_count_of(*s)),
        ModulePart::Code(s) => ModuleView::Code(code_entries(*s)),
        ModulePart::Data(s) => ModuleView::Data(passive_segments(*s)),
    }
}

/// Relies on `Module::section`: writes the section's id, then the section.
#[verifier::external_body]
pub(crate) fn module_add(m: &mut Module, part: ModulePart)
    requires
        module_part_fits(part),
    ensures
        module_parts(*final(m)) == module_parts(*old(m)).push(module_part_view(part)),
{
    match part {
        ModulePart::Types(s) => m.section(s),
        ModulePart::Imports(s) => m.section(s),
        ModulePart::Functions(s) => m.section(s),
        ModulePart::Exports(s) => m.section(s),
        ModulePart::DataCount(s) => m.section(s),
        ModulePart::Code(s) => m.section(s),
        ModulePart::Data(s) => m.section(s),
    };
}

/// Relies on `Component::new`: a component with its header and no section.
#[verifier::external_body]
pub(crate) fn new_component() -> (r: Component)
    ensures
        component_parts(r) == Seq::<ComponentView>::empty(),
{
    Component::new()
}

/// A section of a component.
pub enum ComponentPart<'a> {
    /// Raw bytes under the given section id.
    Raw(u8, &'a [u8]),
    /// An embedded core module.
    Module(&'a Module),
    Instances(&'a InstanceSection),
    Aliases(&'a ComponentAliasSection),
    Types(&'a ComponentTypeSection),
    Canonicals(&'a CanonicalFunctionSection),
    Exports(&'a ComponentExportSection),
}

/// The contents of a component section.
pub open spec fn component_part_view(part: ComponentPart) -> ComponentView {
    match part {
        ComponentPart::Raw(id, data) => ComponentView::Raw(id, data@),
        ComponentPart::Module(m) => ComponentView::Module(module_parts(*m)),
        ComponentPart::Instances(s) => ComponentView::Instances(instance_entries(*s)),
        ComponentPart::Aliases(s) => ComponentView::Aliases(alias_entries(*s)),
        ComponentPart::Types(s) => ComponentView::Types(component_type_entries(*s)),
        ComponentPart::Canonicals(s) => ComponentView::Canonicals(canonical_entries(*s)),
        ComponentPart::Exports(s) => ComponentView::Exports(component_export_entries(*s)),
    }
}

/// Relies on `Component::section`: writes the section's id, then the section; raw bytes are
/// written with a 32-bit length.
#[verifier::external_body]
pub(crate) fn component_add(c: &mut Component, part: ComponentPart)
    requires
        component_part_fits(part),
    ensures
        component_parts(*final(c)) == component_parts(*old(c)).push(component_part_view(part)),
{
    match part {
        ComponentPart::Raw(id, data) => c.section(&RawSection { id, data }),
        ComponentPart::Module(m) => c.section(&ModuleSection(m)),
        ComponentPart::Instances(s) => c.section(s),
        ComponentPart::Aliases(s) => c.section(s),
        ComponentPart::Types(s) => c.section(s),
        ComponentPart::Canonicals(s) => c.section(s),
        ComponentPart::Exports(s) => c.section(s),
    };
}

/// Relies on `Component::finish`: the encoded bytes, which start with the component header
/// (magic `\0asm`, version 0x0d, layer 1).
#[verifier::external_body]
pub(crate) fn finish_component(c: Component) -> (r: Vec<u8>)
    ensures
        r@ == component_bytes(c),
        r@.len() >= 8,
        r@.subrange(0, 8) == seq![0x00u8, 0x61, 0x73, 0x6d, 0x0d, 0x00, 0x01, 0x00],
{
    c.finish()
}

/// Relies on `InstanceSection::new`.
#[verifier::external_body]
pub(crate) fn new_instance_section() -> (r: InstanceSection)
    ensures
        instance_entries(r) == Seq::<(u32, Seq<(Seq<char>, u32)>)>::empty(),
{
    InstanceSection::new()
}

/// The names and instances of instantiation arguments.
pub open spec fn args_view(args: Seq<(String, u32)>) -> Seq<(Seq<char>, u32)> {
    args.map_values(|a: (String, u32)| (a.0@, a.1))
}

/// Relies on `InstanceSection::instantiate`: instantiates core module `module_index`, passing
/// each named core instance of `args`.
#[verifier::external_body]
pub(crate) fn instantiate(s: &mut InstanceSection, module_index: u32, args: &Vec<(String, u32)>)
    requires
        args@.len() <= u32::MAX,
        forall|i: int| 0 <= i < args@.len() ==> (#[trigger] args@[i]).0@.len() <= NAME_LIMIT,
    ensures
        instance_entries(*final(s)) == instance_entries(*old(s)).push((module_index, args_view(args@))),
{
    s.instantiate(module_index, args.iter().map(|a| (a.0.as_str(), ModuleArg::Instance(a.1))));
}

/// Relies on `ComponentAliasSection::new`.
#[verifier::external_body]
pub(crate) fn new_alias_section() -> (r: ComponentAliasSection)
    ensures
        alias_entries(r) == Seq::<(u32, CoreKind, Seq<char>)>::empty(),
{
    ComponentAliasSection::new()
}

/// Relies on `ComponentAliasSection::alias`: aliases export `name` of core instance `instance`.
#[verifier::external_body]
pub(crate) fn alias_core_export(s: &mut ComponentAliasSection, instance: u32, kind: CoreKind, name: &str)
    requires
        name@.len() <= NAME_LIMIT,
    ensures
        alias_entries(*final(s)) == alias_entries(*old(s)).push((instance, kind, name@)),
{
    let kind = match kind {
        CoreKind::Func => wasm_encoder::ExportKind::Func,
        CoreKind::Memory => wasm_encoder::ExportKind::Memory,
    };
    s.alias(wasm_encoder::Alias::CoreInstanceExport { instance, kind, name });
}

/// Relies on `ComponentTypeSection::new`.
#[verifier::external_body]
pub(crate) fn new_component_type_section() -> (r: ComponentTypeSection)
    ensures
        component_type_entries(r) == Seq::<TypeDef>::empty(),
{
    ComponentTypeSection::new()
}

/// The fields of a record: `strings` typed `string`, then `bools` typed `bool`.
pub open spec fn record_view(strings: Seq<String>, bools: Seq<String>) -> Seq<(Seq<char>, Primitive)> {
    strings.map_values(|n: String| (n@, Primitive::String)) + bools.map_values(|n: String| (n@, Primitive::Bool))
}

/// Relies on `ComponentDefinedTypeEncoder::record`: defines a record of the fields `strings`
/// (typed `string`) followed by the fields `bools` (typed `bool`).
#[verifier::external_body]
pub(crate) fn define_record(s: &mut ComponentTypeSection, strings: &Vec<String>, bools: &Vec<String>)
    requires
        strings@.len() + bools@.len() <= u32::MAX,
        forall|i: int| 0 <= i < strings@.len() ==> (#[trigger] strings@[i])@.len() <= NAME_LIMIT,
        forall|i: int| 0 <= i < bools@.len() ==> (#[trigger] bools@[i])@.len() <= NAME_LIMIT,
    ensures
        component_type_entries(*final(s)) == component_type_entries(*old(s)).push(
            TypeDef::Record(record_view(strings@, bools@)),
        ),
{
    let text = strings.iter().map(|n| (n.as_str(), ComponentValType::Primitive(PrimitiveValType::String)));
    let cond = bools.iter().map(|n| (n.as_str(), ComponentValType::Primitive(PrimitiveValType::Bool)));
    let fields: Vec<(&str, ComponentValType)> = text.chain(cond).collect();
    s.defined_type().record(fields);
}

/// Relies on `ComponentFuncTypeEncoder::params` and `result`: defines the function type
/// `(param_name: type param_type) -> result`.
#[verifier::external_body]
pub(crate) fn define_func_type(s: &mut ComponentTypeSection, param_name: &str, param_type: u32, result: Primitive)
    requires
        param_name@.len() <= NAME_LIMIT,
    ensures
        component_type_entries(*final(s)) == component_type_entries(*old(s)).push(
            TypeDef::Func(param_name@, param_type, result),
        ),
{
    let result = match result {
        Primitive::String => PrimitiveValType::String,
        Primitive::Bool => PrimitiveValType::Bool,
    };
    s.function().params([(param_name, ComponentValType::Type(param_type))]).result(
        Some(ComponentValType::Primitive(result)),
    );
}

/// Relies on `ComponentExportSection::new`.
#[verifier::external_body]
pub(crate) fn new_component_export_section() -> (r: ComponentExportSection)
    ensures
        component_export_entries(r) == Seq::<(Seq<char>, ComponentKind, u32)>::empty(),
{
    ComponentExportSection::new()
}

/// Relies on `ComponentExportSection::export`: exports item `index` of `kind` as `name`.
#[verifier::external_body]
pub(crate) fn component_export(s: &mut ComponentExportSection, name: &str, kind: ComponentKind, index: u32)
    requires
        name@.len() <= NAME_LIMIT,
    ensures
        component_export_entries(*final(s)) == component_export_entries(*old(s)).push((name@, kind, index)),
{
    let kind = match kind {
        ComponentKind::Type => wasm_encoder::ComponentExportKind::Type,
        ComponentKind::Func => wasm_encoder::ComponentExportKind::Func,
    };
    s.export(name, kind, index, None);
}

/// Relies on `CanonicalFunctionSection::new`.
#[verifier::external_body]
pub(crate) fn new_canonical_section() -> (r: CanonicalFunctionSection)
    ensures
        canonical_entries(r) == Seq::<(u32, u32, u32, u32)>::empty(),
{
    CanonicalFunctionSection::new()
}

/// Relies on `CanonicalFunctionSection::lift`: lifts core function `core_func` to component
/// type `type_index`, with UTF-8 strings, memory `memory` and reallocation function `realloc`.
#[verifier::external_body]
pub(crate) fn lift_utf8(s: &mut CanonicalFunctionSection, core_func: u32, type_index: u32, memory: u32, realloc: u32)
    ensures
        canonical_entries(*final(s)) == canonical_entries(*old(s)).push((core_func, type_index, memory, realloc)),
{
    s.lift(
        core_func,
        type_index,
        [CanonicalOption::UTF8, CanonicalOption::Memory(memory), CanonicalOption::Realloc(realloc)],
    );
}

/// Relies on `wat::parse_str`: assembles the allocator's text into a binary. That text is a
/// core module, whose assembly reads no environment, so the outcome depends on the text
/// alone.
#[verifier::external_body]
pub(crate) fn parse_wat(text: &str) -> (r: Result<Vec<u8>, wat::Error>)
    requires
        text@ == crate::gen::component::ALLOCATOR_WAT@,
    ensures
        (r is Ok) == (wat_binary(text@) is Some),
        r is Ok ==> r->Ok_0@ == wat_binary(text@)->0,
{
    wat::parse_str(text)
}

/// Relies on `String::from_utf8_lossy`: valid UTF-8 (in particular ASCII) comes back as the
/// same characters, and each character stands for at least one byte.
#[verifier::external_body]
pub(crate) fn string_of(bytes: &[u8]) -> (r: String)
    ensures
        r@ == lossy_text(bytes@),
        r@.len() <= bytes@.len(),
        (forall|i: int| 0 <= i < bytes@.len() ==> #[trigger] bytes@[i] < 128) ==> r@ == bytes@.map_values(
            |b: u8| b as char,
        ),
{
    String::from_utf8_lossy(bytes).into_owned()
}

} // verus!
