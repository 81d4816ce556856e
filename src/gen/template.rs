//! Parameter analysis and generation of the compiled template function.
use vstd::prelude::*;
use vstd::slice::slice_to_vec;
use crate::ir::{Node, FileData, text_names, cond_names, node_count, lemma_names_push};
use crate::gen::code::{
    Instr, has_cond, base_len, count, args_len, push_text_field_code, push_cond_code,
    cond_sum_code, param_terms_code, len_code, sizes_fit, names_within, lemma_pos, lemma_nested_at,
    lemma_base_prefix, lemma_count_le, lemma_names_at, lemma_runs_short, alloc_code, core_code, write_code,
    node_write_code, cursor_local, text_runs, REALLOC_FUNC_INDEX,
};
use crate::gen::encode::{
    function_instrs, passive_segments, is_simple, new_function, emit_simple, emit_block_or_memory,
    new_data_section, add_passive, data_count_section, add_func_type, new_component_type_section,
    define_record, string_of, function_locals, data_count_of, type_entries, component_type_entries,
    lossy_text, TypeDef, Primitive, record_view, NAME_LIMIT, sum_of, section_fits, type_def_bound,
    lemma_sum_push, lemma_sum_concat, lemma_sum_le, lemma_sum_prefix,
};
use crate::limits::names_short;
use wasm_encoder::{ComponentTypeSection, DataCountSection, DataSection, Function, TypeSection};
use crate::tokens::UNDERSCORE;
use crate::order::{lex_lt, strictly_sorted, compare_bytes, lemma_lex_transitive, lemma_lex_irreflexive};

verus! {

/// The canonical ABI passes at most this many flat scalar arguments.
pub const MAX_FLAT_PARAMS: u32 = 16;

/// The byte strings held by a vector of byte vectors.
pub open spec fn bytes_view(v: Seq<Vec<u8>>) -> Seq<Seq<u8>> {
    v.map_values(|x: Vec<u8>| x@)
}

/// The parameters of a template: text parameters (strings) and condition parameters (bools),
/// each list sorted and without duplicates.
pub struct Params {
    text_params: Vec<Vec<u8>>,
    cond_params: Vec<Vec<u8>>,
}

impl Params {
    /// The text parameter names, in order.
    pub closed spec fn texts(&self) -> Seq<Seq<u8>> {
        bytes_view(self.text_params@)
    }

    /// The condition parameter names, in order.
    pub closed spec fn conds(&self) -> Seq<Seq<u8>> {
        bytes_view(self.cond_params@)
    }

    /// Both lists are sorted and duplicate-free, and the spilled record's offsets fit in 32 bits.
    pub open spec fn wf(&self) -> bool {
        &&& strictly_sorted(self.texts())
        &&& strictly_sorted(self.conds())
        &&& 8 * self.texts().len() + self.conds().len() <= u32::MAX
        &&& forall|i: int| 0 <= i < self.texts().len() ==> (#[trigger] self.texts()[i]).len() <= NAME_LIMIT
        &&& forall|i: int| 0 <= i < self.conds().len() ==> (#[trigger] self.conds()[i]).len() <= NAME_LIMIT
    }

    /// Collects the parameters that `contents` uses, nested blocks included.
    pub fn new(contents: &Vec<Node>) -> (r: Params)
        requires
            8 * node_count(contents@) <= u32::MAX,
            names_short(contents@),
        ensures
            r.wf(),
            r.texts().to_set() == text_names(contents@),
            r.conds().to_set() == cond_names(contents@),
            r.texts().len() + r.conds().len() <= node_count(contents@),
    {
        let mut text_params: Vec<Vec<u8>> = Vec::new();
        let mut cond_params: Vec<Vec<u8>> = Vec::new();
        proof {
            assert(bytes_view(text_params@).to_set() =~= Set::empty());
            assert(bytes_view(cond_params@).to_set() =~= Set::empty());
        }
        Self::collect_params(contents, &mut text_params, &mut cond_params);
        proof {
            assert(text_names(contents@) =~= Set::<Seq<u8>>::empty().union(text_names(contents@)));
            assert(cond_names(contents@) =~= Set::<Seq<u8>>::empty().union(cond_names(contents@)));
            let t = bytes_view(text_params@);
            let c = bytes_view(cond_params@);
            assert forall|i: int| 0 <= i < t.len() implies (#[trigger] t[i]).len() <= NAME_LIMIT by {
                assert(t.to_set().contains(t[i]));
            }
            assert forall|i: int| 0 <= i < c.len() implies (#[trigger] c[i]).len() <= NAME_LIMIT by {
                assert(c.to_set().contains(c[i]));
            }
        }
        Params { text_params, cond_params }
    }

    /// Adds the parameters used in `nodes` to the two sorted lists.
    fn collect_params(nodes: &Vec<Node>, text_params: &mut Vec<Vec<u8>>, cond_params: &mut Vec<Vec<u8>>)
        requires
            strictly_sorted(bytes_view(old(text_params)@)),
            strictly_sorted(bytes_view(old(cond_params)@)),
        ensures
            strictly_sorted(bytes_view(final(text_params)@)),
            strictly_sorted(bytes_view(final(cond_params)@)),
            bytes_view(final(text_params)@).to_set() == bytes_view(old(text_params)@).to_set().union(
                text_names(nodes@),
            ),
            bytes_view(final(cond_params)@).to_set() == bytes_view(old(cond_params)@).to_set().union(
                cond_names(nodes@),
            ),
            final(text_params)@.len() + final(cond_params)@.len() <= old(text_params)@.len()
                + old(cond_params)@.len() + node_count(nodes@),
        decreases nodes@,
    {
        let ghost t0 = bytes_view(text_params@).to_set();
        let ghost c0 = bytes_view(cond_params@).to_set();
        let ghost n0 = text_params@.len() + cond_params@.len();
        let mut i: usize = 0;
        proof {
            assert(nodes@.subrange(0, 0) =~= Seq::<Node>::empty());
            assert(t0.union(Set::empty()) =~= t0);
            assert(c0.union(Set::empty()) =~= c0);
        }
        while i < nodes.len()
            invariant
                0 <= i <= nodes@.len(),
                strictly_sorted(bytes_view(text_params@)),
                strictly_sorted(bytes_view(cond_params@)),
                bytes_view(text_params@).to_set() == t0.union(text_names(nodes@.subrange(0, i as int))),
                bytes_view(cond_params@).to_set() == c0.union(cond_names(nodes@.subrange(0, i as int))),
                text_params@.len() + cond_params@.len() <= n0 + node_count(nodes@.subrange(0, i as int)),
            decreases nodes@.len() - i,
        {
            proof {
                lemma_names_push(nodes@, i as int);
                let one = seq![nodes@[i as int]];
                assert(one.drop_first() =~= Seq::<Node>::empty());
                assert(text_names(one.drop_first()) =~= Set::empty());
                assert(cond_names(one.drop_first()) =~= Set::empty());
                assert(node_count(one.drop_first()) == 0);
            }
            match &nodes[i] {
                Node::Text { .. } => {
                    proof {
                        assert(text_names(seq![nodes@[i as int]]) =~= Set::empty());
                        assert(cond_names(seq![nodes@[i as int]]) =~= Set::empty());
                    }
                },
                Node::Parameter { name } => {
                    insert_sorted(text_params, name.value.as_slice());
                    proof {
                        assert(text_names(seq![nodes@[i as int]]) =~= Set::empty().insert(name.value@));
                        assert(cond_names(seq![nodes@[i as int]]) =~= Set::empty());
                    }
                },
                Node::Conditional { cond_ident, contents, .. } => {
                    insert_sorted(cond_params, cond_ident.value.as_slice());
                    Self::collect_params(contents, text_params, cond_params);
                    proof {
                        assert(text_names(seq![nodes@[i as int]]) =~= text_names(contents@).union(
                            Set::empty(),
                        ));
                        assert(cond_names(seq![nodes@[i as int]]) =~= cond_names(contents@).union(
                            Set::empty(),
                        ).insert(cond_ident.value@));
                    }
                },
            }
            proof {
                let sub = nodes@.subrange(0, i as int);
                let one = seq![nodes@[i as int]];
                assert(bytes_view(text_params@).to_set() =~= t0.union(text_names(sub)).union(text_names(one)));
                assert(bytes_view(cond_params@).to_set() =~= c0.union(cond_names(sub)).union(cond_names(one)));
            }
            i = i + 1;
        }
        proof {
            assert(nodes@.subrange(0, nodes@.len() as int) =~= nodes@);
        }
    }

    /// Whether some name is used both as a text parameter and as a condition.
    pub fn shares_name(&self) -> (r: bool)
        ensures
            r == exists|x: Seq<u8>| self.texts().contains(x) && self.conds().contains(x),
    {
        let mut i: usize = 0;
        while i < self.text_params.len()
            invariant
                0 <= i <= self.texts().len(),
                forall|a: int| 0 <= a < i ==> !self.conds().contains(#[trigger] self.texts()[a]),
            decreases self.texts().len() - i,
        {
            let mut j: usize = 0;
            while j < self.cond_params.len()
                invariant
                    0 <= i < self.texts().len(),
                    0 <= j <= self.conds().len(),
                    forall|b: int| 0 <= b < j ==> #[trigger] self.conds()[b] != self.texts()[i as int],
                decreases self.conds().len() - j,
            {
                assert(self.texts()[i as int] == self.text_params@[i as int]@);
                assert(self.conds()[j as int] == self.cond_params@[j as int]@);
                if compare_bytes(self.text_params[i].as_slice(), self.cond_params[j].as_slice()) == 0 {
                    assert(self.texts().contains(self.texts()[i as int]));
                    return true;
                }
                j = j + 1;
            }
            i = i + 1;
        }
        proof {
            assert forall|x: Seq<u8>| !(self.texts().contains(x) && self.conds().contains(x)) by {
                if self.texts().contains(x) {
                    let a = choose|a: int| 0 <= a < self.texts().len() && self.texts()[a] == x;
                    assert(!self.conds().contains(self.texts()[a]));
                }
            }
        }
        false
    }

    /// The number of flat scalars the parameter record takes: two per string, one per bool.
    pub fn stack_len(&self) -> (r: u32)
        requires
            self.wf(),
        ensures
            r == 2 * self.texts().len() + self.conds().len(),
    {
        self.text_stack_len() + (self.cond_params.len() as u32)
    }

    /// The number of flat scalars the text parameters take.
    fn text_stack_len(&self) -> (r: u32)
        requires
            self.wf(),
        ensures
            r == 2 * self.texts().len(),
    {
        2 * (self.text_params.len() as u32)
    }

    /// The number of bytes the text parameters take in a spilled record.
    fn text_mem_len(&self) -> (r: u32)
        requires
            self.wf(),
        ensures
            r == 8 * self.texts().len(),
    {
        8 * (self.text_params.len() as u32)
    }

    /// Whether the record is passed through memory rather than as flat arguments.
    pub fn must_spill(&self) -> (r: bool)
        requires
            self.wf(),
        ensures
            r == self.spills(),
    {
        self.stack_len() > MAX_FLAT_PARAMS
    }

    /// The record exceeds the flat-argument limit.
    pub open spec fn spills(&self) -> bool {
        2 * self.texts().len() + self.conds().len() > MAX_FLAT_PARAMS
    }

    /// The number of text parameters.
    pub fn text_params_len(&self) -> (r: usize)
        ensures
            r == self.texts().len(),
    {
        self.text_params.len()
    }

    /// The position of a text parameter name in the sorted list.
    pub fn text_param_index(&self, param: &[u8]) -> (r: usize)
        requires
            self.wf(),
            self.texts().contains(param@),
        ensures
            r < self.texts().len(),
            self.texts()[r as int] == param@,
    {
        find_sorted(&self.text_params, param)
    }

    /// The position of a condition parameter name in the sorted list.
    pub fn cond_param_index(&self, param: &[u8]) -> (r: usize)
        requires
            self.wf(),
            self.conds().contains(param@),
        ensures
            r < self.conds().len(),
            self.conds()[r as int] == param@,
    {
        find_sorted(&self.cond_params, param)
    }
}

impl Params {
    /// Emits code that leaves the address of text parameter `text_index` on the stack.
    fn gen_push_text_offset(&self, code: &mut Vec<Instr>, text_index: u32)
        requires
            self.wf(),
            text_index < self.texts().len(),
        ensures
            final(code)@ == old(code)@ + push_text_field_code(*self, text_index as int, 0),
    {
        self.gen_push_text_field(code, text_index, 0)
    }

    /// Emits code that leaves the length of text parameter `text_index` on the stack.
    fn gen_push_text_len(&self, code: &mut Vec<Instr>, text_index: u32)
        requires
            self.wf(),
            text_index < self.texts().len(),
        ensures
            final(code)@ == old(code)@ + push_text_field_code(*self, text_index as int, 1),
    {
        self.gen_push_text_field(code, text_index, 1)
    }

    fn gen_push_text_field(&self, code: &mut Vec<Instr>, text_index: u32, field: u32)
        requires
            self.wf(),
            text_index < self.texts().len(),
            field <= 1,
        ensures
            final(code)@ == old(code)@ + push_text_field_code(*self, text_index as int, field as int),
    {
        if self.must_spill() {
            // the record's address, moved to the field
            code.push(Instr::LocalGet(0));
            let shift: u32 = text_index * 8 + field * 4;
            code.push(Instr::I32Const(shift as i32));
            code.push(Instr::I32Add);
            code.push(Instr::I32Load { align: 2 });
        } else {
            code.push(Instr::LocalGet(2 * text_index + field));
        }
        assert(final(code)@ =~= old(code)@ + push_text_field_code(*self, text_index as int, field as int));
    }

    /// Emits code that leaves condition parameter `cond_index` on the stack.
    fn gen_push_cond(&self, code: &mut Vec<Instr>, cond_index: u32)
        requires
            self.wf(),
            cond_index < self.conds().len(),
        ensures
            final(code)@ == old(code)@ + push_cond_code(*self, cond_index as int),
    {
        if self.must_spill() {
            code.push(Instr::LocalGet(0));
            let shift: u32 = self.text_mem_len() + cond_index;
            code.push(Instr::I32Const(shift as i32));
            code.push(Instr::I32Add);
            code.push(Instr::I32Load8U { align: 0 });
        } else {
            let local_index: u32 = self.text_stack_len() + cond_index;
            code.push(Instr::LocalGet(local_index));
        }
        assert(final(code)@ =~= old(code)@ + push_cond_code(*self, cond_index as int));
    }
}

/// The byte `-`.
pub const HYPHEN: u8 = 45;

/// `s` with every `_` turned into `-`.
pub open spec fn kebab(s: Seq<u8>) -> Seq<u8> {
    s.map_values(|b: u8| if b == UNDERSCORE { HYPHEN } else { b })
}

/// Turns a snake_case identifier into kebab-case.
pub fn snake_to_kebab(ident: &[u8]) -> (r: Vec<u8>)
    ensures
        r@ == kebab(ident@),
{
    let mut r: Vec<u8> = Vec::new();
    let mut i: usize = 0;
    while i < ident.len()
        invariant
            0 <= i <= ident@.len(),
            r@ == kebab(ident@.subrange(0, i as int)),
        decreases ident@.len() - i,
    {
        let b = ident[i];
        r.push(if b == UNDERSCORE { HYPHEN } else { b });
        assert(r@ =~= kebab(ident@.subrange(0, i + 1)));
        i = i + 1;
    }
    assert(ident@.subrange(0, ident@.len() as int) =~= ident@);
    r
}

/// The kebab-case forms of `names`, in order.
fn kebab_all(names: &Vec<Vec<u8>>) -> (r: Vec<Vec<u8>>)
    ensures
        bytes_view(r@) == bytes_view(names@).map_values(|n: Seq<u8>| kebab(n)),
{
    let mut r: Vec<Vec<u8>> = Vec::new();
    let mut i: usize = 0;
    while i < names.len()
        invariant
            0 <= i <= names@.len(),
            r@.len() == i,
            forall|j: int| 0 <= j < i ==> (#[trigger] r@[j])@ == kebab(names@[j]@),
        decreases names@.len() - i,
    {
        let k = snake_to_kebab(names[i].as_slice());
        r.push(k);
        i = i + 1;
    }
    assert(bytes_view(r@) =~= bytes_view(names@).map_values(|n: Seq<u8>| kebab(n)));
    r
}

/// The same byte strings as `String`s.
fn strings_of(names: &Vec<Vec<u8>>) -> (r: Vec<String>)
    ensures
        r@.len() == names@.len(),
        forall|i: int| 0 <= i < r@.len() ==> (#[trigger] r@[i])@ == lossy_text(names@[i]@),
        forall|i: int| 0 <= i < r@.len() ==> (#[trigger] r@[i])@.len() <= names@[i]@.len(),
{
    let mut r: Vec<String> = Vec::new();
    let mut i: usize = 0;
    while i < names.len()
        invariant
            0 <= i <= names@.len(),
            r@.len() == i,
            forall|j: int| 0 <= j < i ==> (#[trigger] r@[j])@ == lossy_text(names@[j]@),
            forall|j: int| 0 <= j < i ==> (#[trigger] r@[j])@.len() <= names@[j]@.len(),
        decreases names@.len() - i,
    {
        r.push(string_of(names[i].as_slice()));
        i = i + 1;
    }
    r
}

impl Params {
    /// The record's field names: the text parameters', then the condition parameters', each
    /// in kebab-case.
    pub fn record_fields(&self) -> (r: (Vec<Vec<u8>>, Vec<Vec<u8>>))
        ensures
            bytes_view(r.0@) == self.texts().map_values(|n: Seq<u8>| kebab(n)),
            bytes_view(r.1@) == self.conds().map_values(|n: Seq<u8>| kebab(n)),
    {
        (kebab_all(&self.text_params), kebab_all(&self.cond_params))
    }

    /// The component-level `params` record type: each text parameter as a `string` field,
    /// then each condition parameter as a `bool` field.
    pub fn record_type(&self) -> (r: ComponentTypeSection)
        requires
            self.wf(),
        ensures
            component_type_entries(r) == seq![TypeDef::Record(record_fields_view(*self))],
            record_bytes_fit(*self) ==> section_fits(sum_of(component_type_entries(r), |t: TypeDef| type_def_bound(t))),
    {
        let (text_fields, cond_fields) = self.record_fields();
        let strings = strings_of(&text_fields);
        let bools = strings_of(&cond_fields);
        proof {
            assert(bytes_view(text_fields@).len() == text_fields@.len());
            assert(bytes_view(cond_fields@).len() == cond_fields@.len());
            assert forall|i: int| 0 <= i < strings@.len() implies (#[trigger] strings@[i])@.len() <= NAME_LIMIT by {
                assert(bytes_view(text_fields@)[i] == text_fields@[i]@);
                assert(text_fields@[i]@ == kebab(self.texts()[i]));
                assert(kebab(self.texts()[i]).len() == self.texts()[i].len());
            }
            assert forall|i: int| 0 <= i < bools@.len() implies (#[trigger] bools@[i])@.len() <= NAME_LIMIT by {
                assert(bytes_view(cond_fields@)[i] == cond_fields@[i]@);
                assert(cond_fields@[i]@ == kebab(self.conds()[i]));
                assert(kebab(self.conds()[i]).len() == self.conds()[i].len());
            }
        }
        let mut types = new_component_type_section();
        define_record(&mut types, &strings, &bools);
        proof {
            assert forall|i: int| 0 <= i < strings@.len() implies strings@[i]@ == lossy_text(kebab(self.texts()[i])) by {
                assert(text_fields@[i]@ == bytes_view(text_fields@)[i]);
                assert(strings@[i]@ == lossy_text(text_fields@[i]@));
            }
            assert forall|i: int| 0 <= i < bools@.len() implies bools@[i]@ == lossy_text(kebab(self.conds()[i])) by {
                assert(cond_fields@[i]@ == bytes_view(cond_fields@)[i]);
                assert(bools@[i]@ == lossy_text(cond_fields@[i]@));
            }
            assert(record_view(strings@, bools@) =~= record_fields_view(*self));
            let h = |f: (Seq<char>, Primitive)| (64 + 4 * f.0.len()) as int;
            let g = name_cost();
            let a = self.texts().map_values(|n: Seq<u8>| (lossy_text(kebab(n)), Primitive::String));
            let b = self.conds().map_values(|n: Seq<u8>| (lossy_text(kebab(n)), Primitive::Bool));
            assert(record_fields_view(*self) == a + b);
            lemma_sum_concat(a, b, h);
            assert forall|i: int| 0 <= i < a.len() implies h(#[trigger] a[i]) <= g(self.texts()[i]) by {
                assert(bytes_view(text_fields@)[i] == text_fields@[i]@);
                assert(strings@[i]@ == lossy_text(text_fields@[i]@));
                assert(kebab(self.texts()[i]).len() == self.texts()[i].len());
            }
            assert forall|i: int| 0 <= i < b.len() implies h(#[trigger] b[i]) <= g(self.conds()[i]) by {
                assert(bytes_view(cond_fields@)[i] == cond_fields@[i]@);
                assert(bools@[i]@ == lossy_text(cond_fields@[i]@));
                assert(kebab(self.conds()[i]).len() == self.conds()[i].len());
            }
            lemma_sum_le(a, h, self.texts(), g);
            lemma_sum_le(b, h, self.conds(), g);
            let t = TypeDef::Record(record_fields_view(*self));
            lemma_sum_push(Seq::<TypeDef>::empty(), t, |t: TypeDef| type_def_bound(t));
            assert(seq![t] == Seq::<TypeDef>::empty().push(t));
        }
        types
    }

    /// Whether the `params` record is small enough to be encoded.
    pub fn record_fits(&self) -> (r: bool)
        requires
            self.wf(),
        ensures
            r == record_bytes_fit(*self),
    {
        proof {
            assert forall|i: int| 0 <= i < self.text_params@.len() implies (#[trigger] self.text_params@[i])@.len()
                <= NAME_LIMIT by {
                assert(self.texts()[i] == self.text_params@[i]@);
            }
            assert forall|i: int| 0 <= i < self.cond_params@.len() implies (#[trigger] self.cond_params@[i])@.len()
                <= NAME_LIMIT by {
                assert(self.conds()[i] == self.cond_params@[i]@);
            }
        }
        let a = sum_within(&self.text_params, 4294967295 - 133);
        proof {
            assert(bytes_view(self.text_params@) == self.texts());
            assert(bytes_view(self.cond_params@) == self.conds());
            assert forall|j: int| 0 <= j < self.conds().len() implies name_cost()(#[trigger] self.conds()[j]) >= 0 by {
                assert(name_cost()(self.conds()[j]) == 64 + 4 * self.conds()[j].len());
            }
            lemma_sum_prefix(self.conds(), 0, name_cost());
            assert(self.conds().subrange(0, 0) =~= Seq::<Seq<u8>>::empty());
        }
        if a.is_none() {
            return false;
        }
        let a = a.unwrap();
        let b = sum_within(&self.cond_params, 4294967295 - 133 - a);
        proof {
            let g = name_cost();
            assert(bytes_view(self.text_params@) == self.texts());
            assert(bytes_view(self.cond_params@) == self.conds());
        }
        b.is_some()
    }
}

/// `p` holds the parameters of template `s`, sorted and without duplicates.
pub open spec fn collected(p: Params, s: Seq<Node>) -> bool {
    &&& p.wf()
    &&& p.texts().to_set() == text_names(s)
    &&& p.conds().to_set() == cond_names(s)
}

/// What a name costs in an encoded record: 64 bytes of overhead and 4 per character.
pub open spec fn name_cost() -> spec_fn(Seq<u8>) -> int {
    |n: Seq<u8>| (64 + 4 * n.len()) as int
}

/// The names of the `params` record, at 64 bytes of overhead and 4 bytes per character each
/// (with 128 bytes for the record and the section around it), fit a section.
pub open spec fn record_bytes_fit(p: Params) -> bool {
    section_fits(
        128 + sum_of(p.texts(), name_cost()) + sum_of(p.conds(), name_cost()),
    )
}

/// The sum of `64 + 4 * len` over `names`, if it is at most `limit`.
fn sum_within(names: &Vec<Vec<u8>>, limit: u64) -> (r: Option<u64>)
    requires
        forall|i: int| 0 <= i < names@.len() ==> (#[trigger] names@[i])@.len() <= NAME_LIMIT,
    ensures
        r is Some <==> sum_of(bytes_view(names@), name_cost()) <= limit,
        r is Some ==> r->0 == sum_of(bytes_view(names@), name_cost()),
{
    let ghost v = bytes_view(names@);
    let mut acc: u64 = 0;
    let mut i: usize = 0;
    proof {
        assert(v.subrange(0, 0) =~= Seq::<Seq<u8>>::empty());
    }
    while i < names.len()
        invariant
            0 <= i <= names@.len(),
            v == bytes_view(names@),
            forall|j: int| 0 <= j < names@.len() ==> (#[trigger] names@[j])@.len() <= NAME_LIMIT,
            acc == sum_of(v.subrange(0, i as int), name_cost()),
            acc <= limit,
        decreases names@.len() - i,
    {
        proof {
            assert(v.subrange(0, i + 1) =~= v.subrange(0, i as int).push(v[i as int]));
            lemma_sum_push(v.subrange(0, i as int), v[i as int], name_cost());
            assert(v[i as int] == names@[i as int]@);
        }
        let term: u64 = 64 + 4 * (names[i].len() as u64);
        if term > limit - acc {
            proof {
                assert forall|j: int| 0 <= j < v.len() implies name_cost()(#[trigger] v[j]) >= 0 by {
                    assert(name_cost()(v[j]) == 64 + 4 * v[j].len());
                }
                lemma_sum_prefix(v, i + 1, name_cost());
            }
            return None;
        }
        acc = acc + term;
        i = i + 1;
    }
    proof {
        assert(v.subrange(0, v.len() as int) =~= v);
    }
    Some(acc)
}

/// The fields of the `params` record: each text parameter in kebab-case typed `string`, then
/// each condition parameter in kebab-case typed `bool`.
pub open spec fn record_fields_view(p: Params) -> Seq<(Seq<char>, Primitive)> {
    p.texts().map_values(|n: Seq<u8>| (lossy_text(kebab(n)), Primitive::String)) + p.conds().map_values(
        |n: Seq<u8>| (lossy_text(kebab(n)), Primitive::Bool),
    )
}


/// Generates the compiled template function for a parsed template.
pub struct TemplateGenerator<'a> {
    params: Params,
    file_data: &'a FileData,
}

impl<'a> TemplateGenerator<'a> {
    /// The parameters the code is generated against.
    pub closed spec fn template_params(&self) -> Params {
        self.params
    }

    /// The template's top-level nodes.
    pub closed spec fn nodes(&self) -> Seq<Node> {
        self.file_data.contents@
    }

    /// The parameters are those of the template, and its sizes fit the i32 constants.
    pub open spec fn wf(&self) -> bool {
        &&& self.template_params().wf()
        &&& self.template_params().texts().to_set() == text_names(self.nodes())
        &&& self.template_params().conds().to_set() == cond_names(self.nodes())
        &&& sizes_fit(self.nodes())
    }

    pub fn new(params: Params, file_data: &'a FileData) -> (r: Self)
        ensures
            r.template_params() == params,
            r.nodes() == file_data.contents@,
    {
        Self { params, file_data }
    }

    pub fn params(&self) -> (r: &Params)
        ensures
            *r == self.template_params(),
    {
        &self.params
    }

    /// The number of arguments of the compiled function.
    pub(crate) fn arguments_len(&self) -> (r: u32)
        requires
            self.wf(),
        ensures
            r == args_len(self.template_params()),
    {
        if self.params.must_spill() {
            1
        } else {
            self.params.stack_len()
        }
    }

    fn result_len_local(&self) -> (r: u32)
        requires
            self.wf(),
        ensures
            r == args_len(self.template_params()),
    {
        self.arguments_len() + 0
    }

    fn result_addr_local(&self) -> (r: u32)
        requires
            self.wf(),
        ensures
            r == args_len(self.template_params()) + 1,
    {
        self.arguments_len() + 1
    }

    fn return_area_local(&self) -> (r: u32)
        requires
            self.wf(),
        ensures
            r == args_len(self.template_params()) + 2,
    {
        self.arguments_len() + 2
    }

    fn result_cursor_local(&self) -> (r: u32)
        requires
            self.wf(),
        ensures
            r == cursor_local(self.template_params()),
    {
        self.arguments_len() + 3
    }

    /// The number of locals besides the arguments: length, address, return area, cursor.
    fn locals_len(&self) -> (r: u32)
        ensures
            r == 4,
    {
        4
    }

    /// Appends the compiled function's type: all-i32 arguments, one i32 result.
    pub fn gen_core_type(&self, types: &mut TypeSection)
        requires
            self.wf(),
        ensures
            type_entries(*final(types)) == type_entries(*old(types)).push((args_len(self.template_params()) as u32, 1u32)),
    {
        add_func_type(types, self.arguments_len(), 1);
    }

    /// The data count section and the data section: one passive segment per literal run, in
    /// source order.
    pub fn gen_data(&self) -> (r: (DataCountSection, DataSection))
        requires
            self.wf(),
        ensures
            passive_segments(r.1) == text_runs(self.nodes()),
            data_count_of(r.0) == text_runs(self.nodes()).len() as u32,
    {
        let segments = self.data_segments();
        proof {
            lemma_runs_short(self.nodes());
        }
        let mut data = new_data_section();
        let mut i: usize = 0;
        while i < segments.len()
            invariant
                0 <= i <= segments@.len(),
                bytes_view(segments@) == text_runs(self.nodes()),
                forall|k: int| 0 <= k < text_runs(self.nodes()).len() ==> (#[trigger] text_runs(self.nodes())[k]).len() <= i32::MAX,
                passive_segments(data) == bytes_view(segments@).subrange(0, i as int),
            decreases segments@.len() - i,
        {
            assert(segments@[i as int]@ == bytes_view(segments@)[i as int]);
            add_passive(&mut data, &segments[i]);
            assert(passive_segments(data) =~= bytes_view(segments@).subrange(0, i + 1));
            i = i + 1;
        }
        assert(bytes_view(segments@).subrange(0, segments@.len() as int) =~= bytes_view(segments@));
        let count = data_count_section(segments.len() as u32);
        (count, data)
    }

    /// The compiled function.
    pub fn gen_core_function(&self) -> (r: Function)
        requires
            self.wf(),
        ensures
            function_instrs(r) == core_code(self.template_params(), self.nodes()),
            function_locals(r) == 4,
    {
        let code = self.gen_core_code();
        let mut func = new_function(self.locals_len());
        let mut i: usize = 0;
        while i < code.len()
            invariant
                0 <= i <= code@.len(),
                function_instrs(func) == code@.subrange(0, i as int),
                function_locals(func) == 4,
            decreases code@.len() - i,
        {
            let ins = code[i];
            if is_simple_instr(ins) {
                emit_simple(&mut func, ins);
            } else {
                emit_block_or_memory(&mut func, ins);
            }
            assert(function_instrs(func) =~= code@.subrange(0, i + 1));
            i = i + 1;
        }
        assert(code@.subrange(0, code@.len() as int) =~= code@);
        func
    }

    /// The body of the compiled function.
    pub fn gen_core_code(&self) -> (r: Vec<Instr>)
        requires
            self.wf(),
        ensures
            r@ == core_code(self.template_params(), self.nodes()),
    {
        let mut code: Vec<Instr> = Vec::new();
        self.gen_calculate_len(&mut code);
        self.gen_allocate_results(&mut code);
        self.gen_init_cursor(&mut code);
        self.gen_write_template(&mut code);
        code.push(Instr::LocalGet(self.return_area_local()));
        code.push(Instr::End);
        assert(code@ =~= core_code(self.template_params(), self.nodes()));
        code
    }

    fn gen_calculate_len(&self, code: &mut Vec<Instr>)
        requires
            self.wf(),
        ensures
            final(code)@ == old(code)@ + len_code(self.template_params(), self.nodes()) + seq![
                Instr::LocalSet(args_len(self.template_params()) as u32),
            ],
    {
        proof {
            assert(names_within(self.template_params(), self.file_data.contents@));
        }
        self.gen_calculate_sequence_len(code, self.file_data.contents.as_slice());
        // keep the computed length
        code.push(Instr::LocalSet(self.result_len_local()));
        assert(final(code)@ =~= old(code)@ + len_code(self.template_params(), self.nodes()) + seq![
            Instr::LocalSet(args_len(self.template_params()) as u32),
        ]);
    }

    fn gen_allocate_results(&self, code: &mut Vec<Instr>)
        requires
            self.wf(),
        ensures
            final(code)@ == old(code)@ + alloc_code(self.template_params()),
    {
        // allocate the result string: byte aligned, of the computed length
        code.push(Instr::I32Const(0));
        code.push(Instr::I32Const(0));
        code.push(Instr::I32Const(1));
        code.push(Instr::LocalGet(self.result_len_local()));
        code.push(Instr::Call(REALLOC_FUNC_INDEX));
        code.push(Instr::LocalSet(self.result_addr_local()));
        // allocate the return area: two 32-bit words
        code.push(Instr::I32Const(0));
        code.push(Instr::I32Const(0));
        code.push(Instr::I32Const(4));
        code.push(Instr::I32Const(8));
        code.push(Instr::Call(REALLOC_FUNC_INDEX));
        code.push(Instr::LocalSet(self.return_area_local()));
        // the return area holds the result's address, then its length
        code.push(Instr::LocalGet(self.return_area_local()));
        code.push(Instr::LocalGet(self.result_addr_local()));
        code.push(Instr::I32Store { align: 2 });
        code.push(Instr::LocalGet(self.return_area_local()));
        code.push(Instr::I32Const(4));
        code.push(Instr::I32Add);
        code.push(Instr::LocalGet(self.result_len_local()));
        code.push(Instr::I32Store { align: 2 });
        assert(final(code)@ =~= old(code)@ + alloc_code(self.template_params()));
    }

    fn gen_init_cursor(&self, code: &mut Vec<Instr>)
        requires
            self.wf(),
        ensures
            final(code)@ == old(code)@ + seq![
                Instr::LocalGet((args_len(self.template_params()) + 1) as u32),
                Instr::LocalSet((args_len(self.template_params()) + 3) as u32),
            ],
    {
        // the cursor starts at the result's address
        code.push(Instr::LocalGet(self.result_addr_local()));
        code.push(Instr::LocalSet(self.result_cursor_local()));
        assert(final(code)@ =~= old(code)@ + seq![
            Instr::LocalGet((args_len(self.template_params()) + 1) as u32),
            Instr::LocalSet((args_len(self.template_params()) + 3) as u32),
        ]);
    }

    fn gen_write_template(&self, code: &mut Vec<Instr>)
        requires
            self.wf(),
        ensures
            final(code)@ == old(code)@ + write_code(self.template_params(), self.nodes()),
    {
        self.gen_write_sequence_template(code, self.file_data.contents.as_slice());
    }

    /// Emits code that writes `sequence` at the cursor, node by node.
    fn gen_write_sequence_template(&self, code: &mut Vec<Instr>, sequence: &[Node])
        requires
            self.wf(),
            names_within(self.template_params(), sequence@),
        ensures
            final(code)@ == old(code)@ + write_code(self.template_params(), sequence@),
        decreases sequence@,
    {
        let ghost p = self.params;
        let ghost s = sequence@;
        let ghost c0 = code@;
        let mut k: usize = 0;
        proof {
            assert(s.subrange(0, 0) =~= Seq::<Node>::empty());
            assert(code@ =~= c0 + write_code(p, s.subrange(0, 0)));
        }
        while k < sequence.len()
            invariant
                self.wf(),
                p == self.template_params(),
                s == sequence@,
                names_within(p, s),
                0 <= k <= s.len(),
                code@ == c0 + write_code(p, s.subrange(0, k as int)),
            decreases s.len() - k,
        {
            let ghost before = code@;
            proof {
                let pre1 = s.subrange(0, k + 1);
                assert(pre1.drop_last() =~= s.subrange(0, k as int));
                assert(pre1.last() == s[k as int]);
                lemma_names_at(s, k as int);
            }
            match &sequence[k] {
                Node::Text { index, text } => {
                    self.gen_write_segment(code, *index as u32, text.value.len() as i32);
                },
                Node::Parameter { name } => {
                    let index = self.params.text_param_index(name.value.as_slice());
                    proof {
                        lemma_pos(p.texts(), index as int);
                    }
                    self.gen_write_param(code, index as u32);
                },
                Node::Conditional { if_kwd: _, cond_ident, contents, endif_kwd: _ } => {
                    let cond_index = self.params.cond_param_index(cond_ident.value.as_slice()) as u32;
                    proof {
                        lemma_pos(p.conds(), cond_index as int);
                    }
                    self.params.gen_push_cond(code, cond_index);
                    code.push(Instr::IfEmpty);
                    self.gen_write_sequence_template(code, contents.as_slice());
                    code.push(Instr::Else);
                    code.push(Instr::End);
                },
            }
            // text and parameters leave their length: move the cursor past them
            if !matches!(&sequence[k], Node::Conditional { .. }) {
                code.push(Instr::LocalGet(self.result_cursor_local()));
                code.push(Instr::I32Add);
                code.push(Instr::LocalSet(self.result_cursor_local()));
            }
            proof {
                assert(code@ =~= before + node_write_code(p, s[k as int]));
                assert(code@ =~= c0 + write_code(p, s.subrange(0, k + 1)));
            }
            k = k + 1;
        }
        proof {
            assert(s.subrange(0, s.len() as int) =~= s);
        }
    }

    /// Emits code that copies passive segment `data_index` to the cursor and leaves its length.
    fn gen_write_segment(&self, code: &mut Vec<Instr>, data_index: u32, length: i32)
        requires
            self.wf(),
        ensures
            final(code)@ == old(code)@ + seq![
                Instr::LocalGet(cursor_local(self.template_params())),
                Instr::I32Const(0),
                Instr::I32Const(length),
                Instr::MemoryInit { data_index },
                Instr::I32Const(length),
            ],
    {
        // destination
        code.push(Instr::LocalGet(self.result_cursor_local()));
        // offset in the segment
        code.push(Instr::I32Const(0));
        code.push(Instr::I32Const(length));
        code.push(Instr::MemoryInit { data_index });
        code.push(Instr::I32Const(length));
        assert(final(code)@ =~= old(code)@ + seq![
            Instr::LocalGet(cursor_local(self.template_params())),
            Instr::I32Const(0),
            Instr::I32Const(length),
            Instr::MemoryInit { data_index },
            Instr::I32Const(length),
        ]);
    }

    /// Emits code that copies text parameter `param_index` to the cursor and leaves its length.
    fn gen_write_param(&self, code: &mut Vec<Instr>, param_index: u32)
        requires
            self.wf(),
            param_index < self.template_params().texts().len(),
        ensures
            final(code)@ == old(code)@ + seq![Instr::LocalGet(cursor_local(self.template_params()))]
                + push_text_field_code(self.template_params(), param_index as int, 0)
                + push_text_field_code(self.template_params(), param_index as int, 1) + seq![Instr::MemoryCopy]
                + push_text_field_code(self.template_params(), param_index as int, 1),
    {
        // destination, source, length
        code.push(Instr::LocalGet(self.result_cursor_local()));
        self.params.gen_push_text_offset(code, param_index);
        self.params.gen_push_text_len(code, param_index);
        code.push(Instr::MemoryCopy);
        self.params.gen_push_text_len(code, param_index);
        assert(final(code)@ =~= old(code)@ + seq![Instr::LocalGet(cursor_local(self.template_params()))]
            + push_text_field_code(self.template_params(), param_index as int, 0)
            + push_text_field_code(self.template_params(), param_index as int, 1) + seq![Instr::MemoryCopy]
            + push_text_field_code(self.template_params(), param_index as int, 1));
    }

    /// The bytes of each passive data segment, one per literal run, in source order.
    pub fn data_segments(&self) -> (r: Vec<Vec<u8>>)
        ensures
            bytes_view(r@) == text_runs(self.nodes()),
    {
        let mut segments: Vec<Vec<u8>> = Vec::new();
        Self::collect_data(self.file_data.contents.as_slice(), &mut segments);
        assert(bytes_view(segments@) =~= text_runs(self.nodes()));
        segments
    }

    fn collect_data(sequence: &[Node], segments: &mut Vec<Vec<u8>>)
        ensures
            bytes_view(final(segments)@) == bytes_view(old(segments)@) + text_runs(sequence@),
        decreases sequence@,
    {
        let ghost s = sequence@;
        let ghost d0 = bytes_view(segments@);
        let mut k: usize = 0;
        proof {
            assert(s.subrange(0, 0) =~= Seq::<Node>::empty());
            assert(bytes_view(segments@) =~= d0 + text_runs(s.subrange(0, 0)));
        }
        while k < sequence.len()
            invariant
                s == sequence@,
                0 <= k <= s.len(),
                bytes_view(segments@) == d0 + text_runs(s.subrange(0, k as int)),
            decreases s.len() - k,
        {
            proof {
                let pre1 = s.subrange(0, k + 1);
                assert(pre1.drop_last() =~= s.subrange(0, k as int));
                assert(pre1.last() == s[k as int]);
            }
            match &sequence[k] {
                Node::Text { index: _, text } => {
                    let ghost before = segments@;
                    segments.push(slice_to_vec(text.value.as_slice()));
                    assert(bytes_view(segments@) =~= bytes_view(before).push(text.value@));
                },
                Node::Parameter { .. } => {},
                Node::Conditional { if_kwd: _, cond_ident: _, contents, endif_kwd: _ } => {
                    Self::collect_data(contents.as_slice(), segments);
                },
            }
            assert(bytes_view(segments@) =~= d0 + text_runs(s.subrange(0, k + 1)));
            k = k + 1;
        }
        proof {
            assert(s.subrange(0, s.len() as int) =~= s);
        }
    }

    /// Emits code that leaves the rendered length of `sequence` on the stack.
    fn gen_calculate_sequence_len(&self, code: &mut Vec<Instr>, sequence: &[Node])
        requires
            self.wf(),
            names_within(self.template_params(), sequence@),
            sizes_fit(sequence@),
        ensures
            final(code)@ == old(code)@ + len_code(self.template_params(), sequence@),
        decreases sequence@,
    {
        let ghost p = self.params;
        let ghost s = sequence@;
        let ghost c0 = code@;
        let mut base_length: i32 = 0;
        let mut param_counts: Vec<i32> = Vec::new();
        let n = self.params.text_params_len();
        while param_counts.len() < n
            invariant
                param_counts@.len() <= n,
                n == p.texts().len(),
                forall|i: int| 0 <= i < param_counts@.len() ==> param_counts@[i] == 0,
            decreases n - param_counts@.len(),
        {
            param_counts.push(0);
        }
        proof {
            assert(s.subrange(0, 0) =~= Seq::<Node>::empty());
            assert(code@ =~= c0 + cond_sum_code(p, s.subrange(0, 0)));
            assert(!has_cond(s.subrange(0, 0)));
        }
        let mut prior_exists = false;
        let mut k: usize = 0;
        while k < sequence.len()
            invariant
                self.wf(),
                p == self.template_params(),
                s == sequence@,
                names_within(p, s),
                sizes_fit(s),
                0 <= k <= s.len(),
                code@ == c0 + cond_sum_code(p, s.subrange(0, k as int)),
                base_length == base_len(s.subrange(0, k as int)),
                param_counts@.len() == p.texts().len(),
                forall|i: int|
                    0 <= i < p.texts().len() ==> #[trigger] param_counts@[i] == count(
                        s.subrange(0, k as int),
                        p.texts()[i],
                    ),
                prior_exists == has_cond(s.subrange(0, k as int)),
            decreases s.len() - k,
        {
            let ghost pre = s.subrange(0, k as int);
            let ghost pre1 = s.subrange(0, k + 1);
            proof {
                assert(pre1.drop_last() =~= pre);
                assert(pre1.last() == s[k as int]);
                lemma_names_at(s, k as int);
                lemma_base_prefix(s, k + 1);
                lemma_base_prefix(s, k as int);
                assert(has_cond(pre1) == (has_cond(pre) || s[k as int] is Conditional)) by {
                    if has_cond(pre) {
                        let w = choose|w: int| 0 <= w < pre.len() && (#[trigger] pre[w]) is Conditional;
                        assert(pre1[w] == pre[w]);
                    }
                    if s[k as int] is Conditional {
                        assert(pre1[k as int] == s[k as int]);
                    }
                    if has_cond(pre1) {
                        let w = choose|w: int| 0 <= w < pre1.len() && (#[trigger] pre1[w]) is Conditional;
                        if w < k {
                            assert(pre[w] == pre1[w]);
                        }
                    }
                }
            }
            match &sequence[k] {
                Node::Text { index: _, text } => {
                    proof {
                        assert(s[k as int] == sequence@[k as int]);
                        assert(base_len(pre1) == base_len(pre) + text.value@.len());
                    }
                    base_length = base_length + text.value.len() as i32;
                    proof {
                        assert forall|i: int| 0 <= i < p.texts().len() implies #[trigger] param_counts@[i]
                            == count(pre1, p.texts()[i]) by {}
                        assert(code@ =~= c0 + cond_sum_code(p, pre1));
                    }
                },
                Node::Parameter { name } => {
                    let index = self.params.text_param_index(name.value.as_slice());
                    proof {
                        lemma_count_le(pre1, name.value@);
                        lemma_count_le(pre, name.value@);
                    }
                    param_counts.set(index, param_counts[index] + 1);
                    proof {
                        assert forall|i: int| 0 <= i < p.texts().len() implies #[trigger] param_counts@[i]
                            == count(pre1, p.texts()[i]) by {
                            if i != index {
                                if p.texts()[i] == name.value@ {
                                    lemma_pos(p.texts(), i);
                                    lemma_pos(p.texts(), index as int);
                                }
                            }
                        }
                        assert(code@ =~= c0 + cond_sum_code(p, pre1));
                    }
                },
                Node::Conditional { if_kwd: _, cond_ident, contents, endif_kwd: _ } => {
                    let cond_index = self.params.cond_param_index(cond_ident.value.as_slice()) as u32;
                    proof {
                        lemma_pos(p.conds(), cond_index as int);
                        lemma_nested_at(s, k as int);
                    }
                    self.params.gen_push_cond(code, cond_index);
                    code.push(Instr::IfI32);
                    self.gen_calculate_sequence_len(code, contents.as_slice());
                    code.push(Instr::Else);
                    code.push(Instr::I32Const(0));
                    code.push(Instr::End);
                    if prior_exists {
                        code.push(Instr::I32Add);
                    }
                    prior_exists = true;
                    proof {
                        assert forall|i: int| 0 <= i < p.texts().len() implies #[trigger] param_counts@[i]
                            == count(pre1, p.texts()[i]) by {}
                        assert(code@ =~= c0 + cond_sum_code(p, pre1));
                    }
                },
            }
            k = k + 1;
        }
        proof {
            assert(s.subrange(0, s.len() as int) =~= s);
        }
        let ghost head = c0 + cond_sum_code(p, s) + seq![Instr::I32Const(base_len(s) as i32)] + (if has_cond(s) {
            seq![Instr::I32Add]
        } else {
            seq![]
        });
        // the literal bytes of this sequence
        code.push(Instr::I32Const(base_length));
        if prior_exists {
            code.push(Instr::I32Add);
        }
        proof {
            assert(code@ =~= head + param_terms_code(p, s, 0));
        }
        // the parameters' lengths, each times its number of occurrences
        let mut index: usize = 0;
        while index < param_counts.len()
            invariant
                self.wf(),
                p == self.template_params(),
                param_counts@.len() == p.texts().len(),
                forall|i: int| 0 <= i < p.texts().len() ==> #[trigger] param_counts@[i] == count(s, p.texts()[i]),
                0 <= index <= param_counts@.len(),
                code@ == head + param_terms_code(p, s, index as int),
            decreases param_counts@.len() - index,
        {
            let c = param_counts[index];
            if c > 0 {
                self.params.gen_push_text_len(code, index as u32);
                code.push(Instr::I32Const(c));
                code.push(Instr::I32Mul);
                code.push(Instr::I32Add);
            }
            proof {
                assert(code@ =~= head + param_terms_code(p, s, index + 1));
            }
            index = index + 1;
        }
    }
}

fn is_simple_instr(i: Instr) -> (r: bool)
    ensures
        r == is_simple(i),
{
    match i {
        Instr::LocalGet(_) | Instr::LocalSet(_) | Instr::I32Const(_) | Instr::I32Add | Instr::I32Mul
        | Instr::Call(_) | Instr::Else | Instr::End => true,
        _ => false,
    }
}

/// Inserts `x` into a strictly sorted list unless it is already there.
fn insert_sorted(v: &mut Vec<Vec<u8>>, x: &[u8])
    requires
        strictly_sorted(bytes_view(old(v)@)),
    ensures
        strictly_sorted(bytes_view(final(v)@)),
        bytes_view(final(v)@).to_set() == bytes_view(old(v)@).to_set().insert(x@),
        final(v)@.len() <= old(v)@.len() + 1,
{
    let ghost s0 = bytes_view(v@);
    let mut i: usize = 0;
    let mut stop = false;
    while i < v.len() && !stop
        invariant
            v@ == old(v)@,
            s0 == bytes_view(v@),
            strictly_sorted(s0),
            0 <= i <= v@.len(),
            forall|j: int| 0 <= j < i ==> lex_lt(#[trigger] s0[j], x@),
            stop ==> i < v@.len() && lex_lt(x@, s0[i as int]),
        decreases v@.len() - i, if stop { 0int } else { 1int },
    {
        let c = compare_bytes(v[i].as_slice(), x);
        assert(s0[i as int] == v@[i as int]@);
        if c == 0 {
            proof {
                assert(s0[i as int] == x@);
                assert(s0.to_set().insert(x@) =~= s0.to_set());
            }
            return;
        } else if c == 1 {
            stop = true;
        } else {
            i = i + 1;
        }
    }
    v.insert(i, slice_to_vec(x));
    proof {
        let s1 = bytes_view(v@);
        assert(s1 =~= s0.insert(i as int, x@));
        assert forall|a: int, b: int| 0 <= a < b < s1.len() implies lex_lt(#[trigger] s1[a], #[trigger] s1[b]) by {
            if a < i && b == i {
            } else if a < i && b > i {
                assert(lex_lt(s0[a], x@));
                if stop {
                    assert(lex_lt(x@, s0[i as int]));
                    if b - 1 > i {
                        lemma_lex_transitive(x@, s0[i as int], s0[b - 1]);
                    }
                }
                lemma_lex_transitive(s0[a], x@, s0[b - 1]);
            } else if a == i {
                if b - 1 > i {
                    lemma_lex_transitive(x@, s0[i as int], s0[b - 1]);
                }
            } else if a > i {
                assert(s1[a] == s0[a - 1]);
            }
        }
        assert forall|y: Seq<u8>| s1.to_set().contains(y) <==> s0.to_set().insert(x@).contains(y) by {
            if s0.contains(y) {
                let k = choose|k: int| 0 <= k < s0.len() && s0[k] == y;
                if k < i {
                    assert(s1[k] == y);
                } else {
                    assert(s1[k + 1] == y);
                }
            }
            if s1.contains(y) {
                let k = choose|k: int| 0 <= k < s1.len() && s1[k] == y;
                if k < i {
                    assert(s0[k] == y);
                } else if k > i {
                    assert(s0[k - 1] == y);
                }
            }
            if y == x@ {
                assert(s1[i as int] == y);
            }
        }
        assert(s1.to_set() =~= s0.to_set().insert(x@));
    }
}

/// The position of `x` in a strictly sorted list that holds it, by binary search.
fn find_sorted(v: &Vec<Vec<u8>>, x: &[u8]) -> (r: usize)
    requires
        strictly_sorted(bytes_view(v@)),
        bytes_view(v@).contains(x@),
    ensures
        r < v@.len(),
        bytes_view(v@)[r as int] == x@,
{
    let ghost s = bytes_view(v@);
    let mut lo: usize = 0;
    let mut hi: usize = v.len();
    while lo < hi
        invariant
            s == bytes_view(v@),
            strictly_sorted(s),
            s.contains(x@),
            0 <= lo <= hi <= v@.len(),
            forall|k: int| 0 <= k < lo ==> lex_lt(#[trigger] s[k], x@),
            forall|k: int| hi <= k < s.len() ==> lex_lt(x@, #[trigger] s[k]),
        decreases hi - lo,
    {
        let mid = lo + (hi - lo) / 2;
        let c = compare_bytes(v[mid].as_slice(), x);
        assert(s[mid as int] == v@[mid as int]@);
        if c == 0 {
            return mid;
        } else if c == -1 {
            proof {
                assert forall|k: int| 0 <= k < mid + 1 implies lex_lt(#[trigger] s[k], x@) by {
                    if k < mid {
                        lemma_lex_transitive(s[k], s[mid as int], x@);
                    }
                }
            }
            lo = mid + 1;
        } else {
            proof {
                assert forall|k: int| mid <= k < s.len() implies lex_lt(x@, #[trigger] s[k]) by {
                    if k > mid {
                        lemma_lex_transitive(x@, s[mid as int], s[k]);
                    }
                }
            }
            hi = mid;
        }
    }
    proof {
        let k = choose|k: int| 0 <= k < s.len() && s[k] == x@;
        lemma_lex_irreflexive(x@);
        if k < lo {
            assert(lex_lt(s[k], x@));
        } else {
            assert(lex_lt(x@, s[k]));
        }
    }
    0
}

} // verus!
