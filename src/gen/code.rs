//! The instructions the compiled template function is made of, and the exact code the
//! generator emits for a template.
use vstd::prelude::*;
use crate::ir::Node;
use crate::gen::template::Params;
use crate::ir::{text_names, cond_names, lemma_names_concat};
use crate::order::{strictly_sorted, lemma_lex_irreflexive};

verus! {

/// Index of the allocator's `realloc` among the core module's functions.
pub const REALLOC_FUNC_INDEX: u32 = 0;

/// One core WebAssembly instruction; every memory operand refers to memory 0.
#[derive(Clone, Copy, Debug, PartialEq, Eq, Structural)]
pub enum Instr {
    LocalGet(u32),
    LocalSet(u32),
    I32Const(i32),
    I32Add,
    I32Mul,
    /// `i32.load` with offset 0 and the given log2 alignment.
    I32Load { align: u32 },
    /// `i32.load8_u` with offset 0 and the given log2 alignment.
    I32Load8U { align: u32 },
    /// `i32.store` with offset 0 and the given log2 alignment.
    I32Store { align: u32 },
    Call(u32),
    /// `if` whose block yields one i32.
    IfI32,
    /// `if` whose block yields nothing.
    IfEmpty,
    Else,
    End,
    /// Copies from passive data segment `data_index` into memory 0.
    MemoryInit { data_index: u32 },
    /// Copies within memory 0.
    MemoryCopy,
}

/// The position of `x` in `s`.
pub open spec fn pos(s: Seq<Seq<u8>>, x: Seq<u8>) -> int {
    choose|i: int| 0 <= i < s.len() && s[i] == x
}

/// `s` holds a conditional block at its top level.
pub open spec fn has_cond(s: Seq<Node>) -> bool {
    exists|k: int| 0 <= k < s.len() && (#[trigger] s[k]) is Conditional
}

/// The number of bytes of the literal runs directly in `s`.
pub open spec fn base_len(s: Seq<Node>) -> int
    decreases s.len(),
{
    if s.len() == 0 {
        0
    } else {
        base_len(s.drop_last()) + match s.last() {
            Node::Text { text, .. } => text.value@.len() as int,
            _ => 0,
        }
    }
}

/// How often the text parameter `name` is referenced directly in `s`.
pub open spec fn count(s: Seq<Node>, name: Seq<u8>) -> int
    decreases s.len(),
{
    if s.len() == 0 {
        0
    } else {
        count(s.drop_last(), name) + match s.last() {
            Node::Parameter { name: n } => if n.value@ == name { 1int } else { 0int },
            _ => 0,
        }
    }
}

/// The number of arguments of the compiled function.
pub open spec fn args_len(p: Params) -> int {
    if p.spills() { 1 } else { (2 * p.texts().len() + p.conds().len()) as int }
}

/// Leaves field `field` (0: address, 1: length) of text parameter `i` on the stack.
pub open spec fn push_text_field_code(p: Params, i: int, field: int) -> Seq<Instr> {
    if p.spills() {
        seq![Instr::LocalGet(0), Instr::I32Const((8 * i + 4 * field) as i32), Instr::I32Add, Instr::I32Load { align: 2 }]
    } else {
        seq![Instr::LocalGet((2 * i + field) as u32)]
    }
}

/// Leaves condition parameter `j` on the stack.
pub open spec fn push_cond_code(p: Params, j: int) -> Seq<Instr> {
    if p.spills() {
        seq![
            Instr::LocalGet(0),
            Instr::I32Const((8 * p.texts().len() + j) as i32),
            Instr::I32Add,
            Instr::I32Load8U { align: 0 },
        ]
    } else {
        seq![Instr::LocalGet((2 * p.texts().len() + j) as u32)]
    }
}

/// The length code of the conditional blocks of `s`, summed left to right.
pub open spec fn cond_sum_code(p: Params, s: Seq<Node>) -> Seq<Instr>
    decreases s, 0int,
{
    if s.len() == 0 {
        seq![]
    } else {
        let pre = cond_sum_code(p, s.drop_last());
        match s.last() {
            Node::Conditional { cond_ident, contents, .. } => pre + push_cond_code(
                p,
                pos(p.conds(), cond_ident.value@),
            ) + seq![Instr::IfI32] + len_code(p, contents@) + seq![
                Instr::Else,
                Instr::I32Const(0),
                Instr::End,
            ] + if has_cond(s.drop_last()) {
                seq![Instr::I32Add]
            } else {
                seq![]
            },
            _ => pre,
        }
    }
}

/// The contributions of text parameters `0..n` to the length of `s`.
pub open spec fn param_terms_code(p: Params, s: Seq<Node>, n: int) -> Seq<Instr>
    decreases n,
{
    if n <= 0 {
        seq![]
    } else {
        let c = count(s, p.texts()[n - 1]);
        param_terms_code(p, s, n - 1) + if c > 0 {
            push_text_field_code(p, n - 1, 1) + seq![Instr::I32Const(c as i32), Instr::I32Mul, Instr::I32Add]
        } else {
            seq![]
        }
    }
}

/// Code that leaves the rendered length of `s` on the stack.
pub open spec fn len_code(p: Params, s: Seq<Node>) -> Seq<Instr>
    decreases s, 1int,
{
    cond_sum_code(p, s) + seq![Instr::I32Const(base_len(s) as i32)] + (if has_cond(s) {
        seq![Instr::I32Add]
    } else {
        seq![]
    }) + param_terms_code(p, s, p.texts().len() as int)
}

/// The local that holds the write cursor.
pub open spec fn cursor_local(p: Params) -> u32 {
    (args_len(p) + 3) as u32
}

/// Adds the length on the stack to the cursor.
pub open spec fn advance_code(p: Params) -> Seq<Instr> {
    seq![Instr::LocalGet(cursor_local(p)), Instr::I32Add, Instr::LocalSet(cursor_local(p))]
}

/// Code that writes one node at the cursor and moves the cursor past it.
pub open spec fn node_write_code(p: Params, n: Node) -> Seq<Instr>
    decreases n, 0int,
{
    match n {
        Node::Text { index, text } => {
            let l = text.value@.len() as i32;
            seq![
                Instr::LocalGet(cursor_local(p)),
                Instr::I32Const(0),
                Instr::I32Const(l),
                Instr::MemoryInit { data_index: index as u32 },
                Instr::I32Const(l),
            ] + advance_code(p)
        },
        Node::Parameter { name } => {
            let i = pos(p.texts(), name.value@);
            seq![Instr::LocalGet(cursor_local(p))] + push_text_field_code(p, i, 0) + push_text_field_code(
                p,
                i,
                1,
            ) + seq![Instr::MemoryCopy] + push_text_field_code(p, i, 1) + advance_code(p)
        },
        Node::Conditional { cond_ident, contents, .. } => push_cond_code(
            p,
            pos(p.conds(), cond_ident.value@),
        ) + seq![Instr::IfEmpty] + write_code(p, contents@) + seq![Instr::Else, Instr::End],
    }
}

/// Code that writes the nodes of `s` in order at the cursor.
pub open spec fn write_code(p: Params, s: Seq<Node>) -> Seq<Instr>
    decreases s, 1int,
{
    if s.len() == 0 {
        seq![]
    } else {
        write_code(p, s.drop_last()) + node_write_code(p, s.last())
    }
}

/// Allocates the result buffer and the return area and fills the return area.
pub open spec fn alloc_code(p: Params) -> Seq<Instr> {
    let len = args_len(p) as u32;
    let addr = (args_len(p) + 1) as u32;
    let area = (args_len(p) + 2) as u32;
    seq![
        Instr::I32Const(0),
        Instr::I32Const(0),
        Instr::I32Const(1),
        Instr::LocalGet(len),
        Instr::Call(REALLOC_FUNC_INDEX),
        Instr::LocalSet(addr),
        Instr::I32Const(0),
        Instr::I32Const(0),
        Instr::I32Const(4),
        Instr::I32Const(8),
        Instr::Call(REALLOC_FUNC_INDEX),
        Instr::LocalSet(area),
        Instr::LocalGet(area),
        Instr::LocalGet(addr),
        Instr::I32Store { align: 2 },
        Instr::LocalGet(area),
        Instr::I32Const(4),
        Instr::I32Add,
        Instr::LocalGet(len),
        Instr::I32Store { align: 2 },
    ]
}

/// The whole body of the compiled function for the template `s`: length, allocation,
/// cursor, writes, and the return area as the result.
pub open spec fn core_code(p: Params, s: Seq<Node>) -> Seq<Instr> {
    let a = args_len(p);
    len_code(p, s) + seq![Instr::LocalSet(a as u32)] + alloc_code(p) + seq![
        Instr::LocalGet((a + 1) as u32),
        Instr::LocalSet((a + 3) as u32),
    ] + write_code(p, s) + seq![Instr::LocalGet((a + 2) as u32), Instr::End]
}

/// The literal runs of `s` in source order, blocks included.
pub open spec fn text_runs(s: Seq<Node>) -> Seq<Seq<u8>>
    decreases s,
{
    if s.len() == 0 {
        seq![]
    } else {
        text_runs(s.drop_last()) + match s.last() {
            Node::Text { text, .. } => seq![text.value@],
            Node::Conditional { contents, .. } => text_runs(contents@),
            _ => seq![],
        }
    }
}

/// The numbers the lexer gave the literal runs of `s`, in source order.
pub open spec fn text_indices(s: Seq<Node>) -> Seq<int>
    decreases s,
{
    if s.len() == 0 {
        seq![]
    } else {
        text_indices(s.drop_last()) + match s.last() {
            Node::Text { index, .. } => seq![index as int],
            Node::Conditional { contents, .. } => text_indices(contents@),
            _ => seq![],
        }
    }
}

/// Every literal-length sum and node count in `s` and its blocks fits in an i32.
pub open spec fn sizes_fit(s: Seq<Node>) -> bool
    decreases s, 1int,
{
    &&& base_len(s) <= i32::MAX
    &&& s.len() <= i32::MAX
    &&& nested_fit(s)
}

/// The blocks among the nodes of `s` satisfy `sizes_fit`.
pub open spec fn nested_fit(s: Seq<Node>) -> bool
    decreases s, 0int,
{
    s.len() == 0 || (nested_fit(s.drop_last()) && match s.last() {
        Node::Conditional { contents, .. } => sizes_fit(contents@),
        _ => true,
    })
}

/// Every parameter that `s` references is among the collected ones.
pub open spec fn names_within(p: Params, s: Seq<Node>) -> bool {
    &&& text_names(s).subset_of(p.texts().to_set())
    &&& cond_names(s).subset_of(p.conds().to_set())
}

pub proof fn lemma_pos(s: Seq<Seq<u8>>, r: int)
    requires
        strictly_sorted(s),
        0 <= r < s.len(),
    ensures
        pos(s, s[r]) == r,
{
    let k = pos(s, s[r]);
    assert(0 <= k < s.len() && s[k] == s[r]);
    lemma_lex_irreflexive(s[r]);
}

pub proof fn lemma_nested_at(s: Seq<Node>, k: int)
    requires
        nested_fit(s),
        0 <= k < s.len(),
    ensures
        s[k] is Conditional ==> sizes_fit(s[k]->contents@),
    decreases s.len(),
{
    if k < s.len() - 1 {
        assert(s.drop_last()[k] == s[k]);
        lemma_nested_at(s.drop_last(), k);
    }
}

pub proof fn lemma_base_prefix(s: Seq<Node>, k: int)
    requires
        0 <= k <= s.len(),
    ensures
        0 <= base_len(s.subrange(0, k)) <= base_len(s),
    decreases s.len() - k,
{
    if k < s.len() {
        lemma_base_prefix(s, k + 1);
        assert(s.subrange(0, k + 1).drop_last() =~= s.subrange(0, k));
        assert(s.subrange(0, k + 1).last() == s[k]);
        lemma_base_nonneg(s.subrange(0, k));
    } else {
        assert(s.subrange(0, k) =~= s);
        lemma_base_nonneg(s);
    }
}

pub proof fn lemma_base_nonneg(s: Seq<Node>)
    ensures
        base_len(s) >= 0,
    decreases s.len(),
{
    if s.len() > 0 {
        lemma_base_nonneg(s.drop_last());
    }
}

pub proof fn lemma_count_le(s: Seq<Node>, name: Seq<u8>)
    ensures
        0 <= count(s, name) <= s.len(),
    decreases s.len(),
{
    if s.len() > 0 {
        lemma_count_le(s.drop_last(), name);
    }
}

/// The parameters referenced by the node at `k`, and those of its block, are among those of `s`.
pub proof fn lemma_names_at(s: Seq<Node>, k: int)
    requires
        0 <= k < s.len(),
    ensures
        text_names(seq![s[k]]).subset_of(text_names(s)),
        cond_names(seq![s[k]]).subset_of(cond_names(s)),
        s[k] is Parameter ==> text_names(s).contains(s[k]->Parameter_name.value@),
        s[k] is Conditional ==> cond_names(s).contains(s[k]->cond_ident.value@),
        s[k] is Conditional ==> text_names(s[k]->contents@).subset_of(text_names(s)),
        s[k] is Conditional ==> cond_names(s[k]->contents@).subset_of(cond_names(s)),
{
    let a = s.subrange(0, k);
    let b = s.subrange(k + 1, s.len() as int);
    let one = seq![s[k]];
    assert(s =~= a + (one + b));
    lemma_names_concat(a, one + b);
    lemma_names_concat(one, b);
    assert(one.drop_first() =~= Seq::<Node>::empty());
    assert(text_names(one.drop_first()) =~= Set::empty());
    assert(cond_names(one.drop_first()) =~= Set::empty());
}

/// Every literal run of a template whose sizes fit is at most `i32::MAX` bytes long.
pub proof fn lemma_runs_short(s: Seq<Node>)
    requires
        sizes_fit(s),
    ensures
        forall|k: int| 0 <= k < text_runs(s).len() ==> (#[trigger] text_runs(s)[k]).len() <= i32::MAX,
    decreases s,
{
    if s.len() > 0 {
        let pre = s.drop_last();
        lemma_base_prefix(s, s.len() - 1);
        assert(pre =~= s.subrange(0, s.len() - 1));
        lemma_runs_short(pre);
        lemma_base_nonneg(pre);
        lemma_nested_at(s, s.len() - 1);
        assert(s[s.len() - 1] == s.last());
        match s.last() {
            Node::Conditional { contents, .. } => {
                lemma_runs_short(contents@);
            },
            _ => {},
        }
        let r = text_runs(s);
        let n0 = text_runs(pre).len();
        assert forall|k: int| 0 <= k < r.len() implies (#[trigger] r[k]).len() <= i32::MAX by {
            if k < n0 {
                assert(r[k] == text_runs(pre)[k]);
            } else {
                match s.last() {
                    Node::Text { text, .. } => {
                        assert(r[k] == text.value@);
                        assert(base_len(s) == base_len(pre) + text.value@.len());
                    },
                    Node::Conditional { contents, .. } => {
                        assert(r[k] == text_runs(contents@)[k - n0]);
                    },
                    _ => {},
                }
            }
        }
    }
}

} // verus!
