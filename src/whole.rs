//! The whole compiled function: it computes the rendered length, allocates the result and
//! the return area, writes the rendered text, and returns the return area.
use vstd::prelude::*;
use crate::ir::Node;
use crate::gen::code::{
    Instr, len_code, cond_sum_code, param_terms_code, push_text_field_code, push_cond_code,
    alloc_code, core_code, write_code, args_len, names_within, sizes_fit, has_cond,
    base_len, count, pos, text_runs, text_indices, REALLOC_FUNC_INDEX,
};
use crate::gen::template::Params;
use crate::laws::render;
use crate::semantics::{Machine, Env, run, step, active, env_matches, lemma_length_code_correct};
use crate::tokens::is_numbering;
use crate::ir::{text_names, cond_names, node_count, lemma_names_concat};
use crate::limits::within;
use crate::gen::component::component_layout;
use crate::gen::module::module_layout;
use crate::gen::encode::{ComponentView, ModuleView};
use crate::writes::{
    WMachine, WEnv, wrun, wstep, wactive, lemma_wrun_concat, lemma_wrun_one, lemma_wrun_two,
    lemma_wrun_three, args_match, field_at, flag_at, lemma_write_code_correct, write_bytes,
};

verus! {

/// Instructions that only read locals and memory and compute on the stack.
pub open spec fn pure_code(code: Seq<Instr>) -> bool {
    forall|k: int|
        0 <= k < code.len() ==> match #[trigger] code[k] {
            Instr::LocalGet(_) | Instr::I32Const(_) | Instr::I32Add | Instr::I32Mul | Instr::I32Load { .. }
            | Instr::I32Load8U { .. } | Instr::IfI32 | Instr::IfEmpty | Instr::Else | Instr::End => true,
            _ => false,
        }
}

proof fn lemma_pure_concat(a: Seq<Instr>, b: Seq<Instr>)
    requires
        pure_code(a),
        pure_code(b),
    ensures
        pure_code(a + b),
{
    assert forall|k: int| 0 <= k < (a + b).len() implies match #[trigger] (a + b)[k] {
        Instr::LocalGet(_) | Instr::I32Const(_) | Instr::I32Add | Instr::I32Mul | Instr::I32Load { .. }
        | Instr::I32Load8U { .. } | Instr::IfI32 | Instr::IfEmpty | Instr::Else | Instr::End => true,
        _ => false,
    } by {
        if k < a.len() {
            assert((a + b)[k] == a[k]);
        } else {
            assert((a + b)[k] == b[k - a.len()]);
        }
    }
}

proof fn lemma_param_terms_pure(p: Params, s: Seq<Node>, n: int)
    ensures
        pure_code(param_terms_code(p, s, n)),
    decreases n,
{
    if n > 0 {
        lemma_param_terms_pure(p, s, n - 1);
        let c = count(s, p.texts()[n - 1]);
        if c > 0 {
            let t = push_text_field_code(p, n - 1, 1) + seq![Instr::I32Const(c as i32), Instr::I32Mul, Instr::I32Add];
            lemma_pure_concat(push_text_field_code(p, n - 1, 1), seq![Instr::I32Const(c as i32), Instr::I32Mul, Instr::I32Add]);
            lemma_pure_concat(param_terms_code(p, s, n - 1), t);
        } else {
            assert(param_terms_code(p, s, n) =~= param_terms_code(p, s, n - 1));
        }
    }
}

proof fn lemma_len_code_pure(p: Params, s: Seq<Node>)
    ensures
        pure_code(len_code(p, s)),
    decreases s, 1int,
{
    lemma_cond_sum_pure(p, s);
    let b = seq![Instr::I32Const(base_len(s) as i32)] + (if has_cond(s) { seq![Instr::I32Add] } else { seq![] });
    assert(pure_code(b));
    lemma_param_terms_pure(p, s, p.texts().len() as int);
    lemma_pure_concat(cond_sum_code(p, s), b);
    lemma_pure_concat(cond_sum_code(p, s) + b, param_terms_code(p, s, p.texts().len() as int));
}

proof fn lemma_cond_sum_pure(p: Params, s: Seq<Node>)
    ensures
        pure_code(cond_sum_code(p, s)),
    decreases s, 0int,
{
    if s.len() > 0 {
        lemma_cond_sum_pure(p, s.drop_last());
        match s.last() {
            Node::Conditional { cond_ident, contents, .. } => {
                let c = push_cond_code(p, pos(p.conds(), cond_ident.value@));
                assert(pure_code(c));
                lemma_len_code_pure(p, contents@);
                let add = if has_cond(s.drop_last()) { seq![Instr::I32Add] } else { seq![] };
                let tail = seq![Instr::Else, Instr::I32Const(0), Instr::End];
                lemma_pure_concat(cond_sum_code(p, s.drop_last()), c);
                lemma_pure_concat(cond_sum_code(p, s.drop_last()) + c, seq![Instr::IfI32]);
                lemma_pure_concat(cond_sum_code(p, s.drop_last()) + c + seq![Instr::IfI32], len_code(p, contents@));
                lemma_pure_concat(cond_sum_code(p, s.drop_last()) + c + seq![Instr::IfI32] + len_code(p, contents@), tail);
                lemma_pure_concat(
                    cond_sum_code(p, s.drop_last()) + c + seq![Instr::IfI32] + len_code(p, contents@) + tail,
                    add,
                );
            },
            _ => {},
        }
    }
}

/// The length machine that `m` runs pure code as.
pub open spec fn reading(env: WEnv, m: WMachine) -> Env {
    Env { local: |x: u32| m.locals[x], load32: env.load32, load8: env.load8 }
}

/// Pure code runs on the full machine as on the length machine, leaving locals, memory and
/// stored words alone.
proof fn lemma_simulate(env: WEnv, code: Seq<Instr>, m: WMachine)
    requires
        pure_code(code),
    ensures
        wrun(env, code, m) == (WMachine {
            stack: run(reading(env, m), code, Machine { stack: m.stack, frames: m.frames }).stack,
            frames: run(reading(env, m), code, Machine { stack: m.stack, frames: m.frames }).frames,
            ..m
        }),
    decreases code.len(),
{
    if code.len() > 0 {
        let pre = code.drop_last();
        assert(pure_code(pre)) by {
            assert forall|k: int| 0 <= k < pre.len() implies match #[trigger] pre[k] {
                Instr::LocalGet(_) | Instr::I32Const(_) | Instr::I32Add | Instr::I32Mul | Instr::I32Load { .. }
                | Instr::I32Load8U { .. } | Instr::IfI32 | Instr::IfEmpty | Instr::Else | Instr::End => true,
                _ => false,
            } by {
                assert(pre[k] == code[k]);
            }
        }
        lemma_simulate(env, pre, m);
        let i = code.last();
        assert(i == code[code.len() - 1]);
        let mm = run(reading(env, m), pre, Machine { stack: m.stack, frames: m.frames });
        let wm = wrun(env, pre, m);
        assert(wm.frames == mm.frames);
        assert(wactive(wm) == active(mm)) by {
            if wactive(wm) {
                assert forall|k: int| 0 <= k < mm.frames.len() implies crate::semantics::frame_active(#[trigger] mm.frames[k]) by {
                    assert(mm.frames[k] == wm.frames[k]);
                }
            }
            if active(mm) {
                assert forall|k: int| 0 <= k < wm.frames.len() implies crate::semantics::frame_active(#[trigger] wm.frames[k]) by {
                    assert(mm.frames[k] == wm.frames[k]);
                }
            }
        }
        assert(wstep(env, wm, i).stack =~= step(reading(env, m), mm, i).stack);
        assert(wstep(env, wm, i).frames =~= step(reading(env, m), mm, i).frames);
    }
}

pub proof fn lemma_wrun_five(env: WEnv, a: Instr, b: Instr, c: Instr, d: Instr, e: Instr, m: WMachine)
    ensures
        wrun(env, seq![a, b, c, d, e], m) == wstep(env, wstep(env, wrun(env, seq![a, b, c], m), d), e),
{
    let abc = seq![a, b, c];
    let de = seq![d, e];
    assert(seq![a, b, c, d, e] =~= abc + de);
    lemma_wrun_concat(env, abc, de, m);
    lemma_wrun_two(env, d, e, wrun(env, abc, m));
}

/// Setting a local at or past the arguments keeps the arguments.
proof fn lemma_args_keep_at(
    p: Params,
    env: WEnv,
    locals: Map<u32, int>,
    x: u32,
    v: int,
    texts: spec_fn(Seq<u8>) -> Seq<u8>,
    conds: spec_fn(Seq<u8>) -> bool,
)
    requires
        p.wf(),
        args_len(p) <= x,
        args_match(p, env, locals, texts, conds),
    ensures
        args_match(p, env, locals.insert(x, v), texts, conds),
{
    let l2 = locals.insert(x, v);
    assert forall|i: int, f: int| 0 <= i < p.texts().len() && 0 <= f <= 1 implies field_at(p, env, l2, i, f)
        == field_at(p, env, locals, i, f) by {
        if !p.spills() {
            assert((2 * i + f) as u32 != x);
        }
    }
    assert forall|j: int| 0 <= j < p.conds().len() implies flag_at(p, env, l2, j) == flag_at(p, env, locals, j) by {
        if !p.spills() {
            assert((2 * p.texts().len() + j) as u32 != x);
        }
    }
    assert forall|i: int| 0 <= i < p.texts().len() implies (env.read)(#[trigger] field_at(p, env, l2, i, 0), field_at(p, env, l2, i, 1))
        == texts(p.texts()[i]) && field_at(p, env, l2, i, 1) == texts(p.texts()[i]).len() by {
        assert(field_at(p, env, l2, i, 0) == field_at(p, env, locals, i, 0));
        assert(field_at(p, env, l2, i, 1) == field_at(p, env, locals, i, 1));
    }
    assert forall|j: int| 0 <= j < p.conds().len() implies (#[trigger] flag_at(p, env, l2, j) != 0) == conds(p.conds()[j]) by {
        assert(flag_at(p, env, l2, j) == flag_at(p, env, locals, j));
    }
}

proof fn lemma_reading_matches(
    p: Params,
    env: WEnv,
    m: WMachine,
    texts: spec_fn(Seq<u8>) -> Seq<u8>,
    conds: spec_fn(Seq<u8>) -> bool,
)
    requires
        args_match(p, env, m.locals, texts, conds),
    ensures
        env_matches(p, reading(env, m), texts, conds),
{
    assert forall|i: int| 0 <= i < p.texts().len() implies #[trigger] crate::semantics::text_len_at(p, reading(env, m), i)
        == texts(p.texts()[i]).len() by {
        let ptr = field_at(p, env, m.locals, i, 0);
        assert((env.read)(ptr, field_at(p, env, m.locals, i, 1)) == texts(p.texts()[i]));
        assert(crate::semantics::text_len_at(p, reading(env, m), i) == field_at(p, env, m.locals, i, 1));
    }
    assert forall|j: int| 0 <= j < p.conds().len() implies (#[trigger] crate::semantics::cond_at(p, reading(env, m), j) != 0)
        == conds(p.conds()[j]) by {
        assert(crate::semantics::cond_at(p, reading(env, m), j) == flag_at(p, env, m.locals, j));
        assert((flag_at(p, env, m.locals, j) != 0) == conds(p.conds()[j]));
    }
}

/// The allocation code asks for the result buffer and the return area and stores the
/// buffer's address and the length in the return area.
proof fn lemma_alloc_runs(env: WEnv, p: Params, m: WMachine)
    requires
        wactive(m),
        args_len(p) + 3 <= u32::MAX,
    ensures
        ({
            let la = args_len(p) as u32;
            let l1 = (args_len(p) + 1) as u32;
            let l2 = (args_len(p) + 2) as u32;
            let len = m.locals[la];
            let addr = (env.call)(0, 0, 1, len);
            let area = (env.call)(0, 0, 4, 8);
            wrun(env, alloc_code(p), m) == (WMachine {
                locals: m.locals.insert(l1, addr).insert(l2, area),
                words: m.words.insert(area, addr).insert(area + 4, len),
                ..m
            })
        }),
{
    let a = args_len(p);
    let la = a as u32;
    let l1 = (a + 1) as u32;
    let l2 = (a + 2) as u32;
    let len = m.locals[la];
    let addr = (env.call)(0, 0, 1, len);
    let area = (env.call)(0, 0, 4, 8);
    let c1 = seq![Instr::I32Const(0), Instr::I32Const(0), Instr::I32Const(1), Instr::LocalGet(la), Instr::Call(REALLOC_FUNC_INDEX)];
    let c2 = seq![Instr::LocalSet(l1), Instr::I32Const(0), Instr::I32Const(0), Instr::I32Const(4), Instr::I32Const(8)];
    let c3 = seq![Instr::Call(REALLOC_FUNC_INDEX), Instr::LocalSet(l2), Instr::LocalGet(l2), Instr::LocalGet(l1), Instr::I32Store { align: 2 }];
    let c4 = seq![Instr::LocalGet(l2), Instr::I32Const(4), Instr::I32Add, Instr::LocalGet(la), Instr::I32Store { align: 2 }];
    assert(alloc_code(p) =~= c1 + c2 + c3 + c4);
    lemma_wrun_concat(env, c1 + c2 + c3, c4, m);
    lemma_wrun_concat(env, c1 + c2, c3, m);
    lemma_wrun_concat(env, c1, c2, m);

    lemma_wrun_five(env, Instr::I32Const(0), Instr::I32Const(0), Instr::I32Const(1), Instr::LocalGet(la), Instr::Call(REALLOC_FUNC_INDEX), m);
    lemma_wrun_three(env, Instr::I32Const(0), Instr::I32Const(0), Instr::I32Const(1), m);
    let a1 = wrun(env, c1, m);
    assert(a1.stack =~= m.stack.push(addr));
    assert(a1 == WMachine { stack: m.stack.push(addr), ..m });

    lemma_wrun_five(env, Instr::LocalSet(l1), Instr::I32Const(0), Instr::I32Const(0), Instr::I32Const(4), Instr::I32Const(8), a1);
    lemma_wrun_three(env, Instr::LocalSet(l1), Instr::I32Const(0), Instr::I32Const(0), a1);
    let a2 = wrun(env, c2, a1);
    let locals2 = m.locals.insert(l1, addr);
    assert(a2.stack =~= m.stack.push(0).push(0).push(4).push(8));
    assert(a2 == WMachine { stack: m.stack.push(0).push(0).push(4).push(8), locals: locals2, ..m });

    lemma_wrun_five(env, Instr::Call(REALLOC_FUNC_INDEX), Instr::LocalSet(l2), Instr::LocalGet(l2), Instr::LocalGet(l1), Instr::I32Store { align: 2 }, a2);
    lemma_wrun_three(env, Instr::Call(REALLOC_FUNC_INDEX), Instr::LocalSet(l2), Instr::LocalGet(l2), a2);
    let a3 = wrun(env, c3, a2);
    let locals3 = locals2.insert(l2, area);
    let b1 = wstep(env, a2, Instr::Call(REALLOC_FUNC_INDEX));
    assert(b1.stack =~= m.stack.push(area));
    let b2 = wstep(env, b1, Instr::LocalSet(l2));
    assert(b2.stack =~= m.stack);
    assert(a3.stack =~= m.stack);
    assert(a3 == WMachine { locals: locals3, words: m.words.insert(area, addr), ..m });

    lemma_wrun_five(env, Instr::LocalGet(l2), Instr::I32Const(4), Instr::I32Add, Instr::LocalGet(la), Instr::I32Store { align: 2 }, a3);
    lemma_wrun_three(env, Instr::LocalGet(l2), Instr::I32Const(4), Instr::I32Add, a3);
    let d3 = wrun(env, seq![Instr::LocalGet(l2), Instr::I32Const(4), Instr::I32Add], a3);
    assert(d3.stack =~= m.stack.push(area + 4));
    let a4 = wrun(env, c4, a3);
    assert(a4.stack =~= m.stack);
}

/// The model computes on unbounded integers; with the rendered text at most `i32::MAX` bytes
/// long, every length the function adds up stays within what its 32-bit arithmetic holds.
///
/// The whole compiled function, run from its entry with a parameter record that carries the
/// values `texts` and the flags `conds`, the data segments the generator emits and an
/// allocator `env.call`: it asks the allocator for a byte-aligned result buffer of exactly
/// the rendered length and for a 4-aligned 8-byte return area, stores the buffer's address
/// and that length in the return area, writes the rendered text into the buffer, and
/// returns the return area. So the length word of the return area is the byte length of
/// the string it points to, and that string is the rendered template.
#[verifier::rlimit(50)]
pub proof fn lemma_compiled_function(
    env: WEnv,
    p: Params,
    s: Seq<Node>,
    texts: spec_fn(Seq<u8>) -> Seq<u8>,
    conds: spec_fn(Seq<u8>) -> bool,
    m: WMachine,
)
    requires
        m.frames.len() == 0,
        p.wf(),
        args_len(p) + 3 <= u32::MAX,
        names_within(p, s),
        sizes_fit(s),
        is_numbering(text_indices(s)),
        text_runs(s).len() <= u32::MAX,
        env.segments == text_runs(s),
        args_match(p, env, m.locals, texts, conds),
        render(s, texts, conds).len() <= i32::MAX,
    ensures
        ({
            let r = render(s, texts, conds);
            let addr = (env.call)(0, 0, 1, r.len() as int);
            let area = (env.call)(0, 0, 4, 8);
            let f = wrun(env, core_code(p, s), m);
            &&& f.stack == m.stack.push(area)
            &&& f.words[area] == addr
            &&& f.words[area + 4] == r.len()
            &&& f.mem == write_bytes(m.mem, addr, r)
        }),
{
    let r = render(s, texts, conds);
    let len = r.len() as int;
    let a = args_len(p);
    let la = a as u32;
    let l1 = (a + 1) as u32;
    let l2 = (a + 2) as u32;
    let l3 = (a + 3) as u32;
    let addr = (env.call)(0, 0, 1, len);
    let area = (env.call)(0, 0, 4, 8);

    let x1 = len_code(p, s);
    let x2 = seq![Instr::LocalSet(la)];
    let x3 = alloc_code(p);
    let x4 = seq![Instr::LocalGet(l1), Instr::LocalSet(l3)];
    let x5 = write_code(p, s);
    let x6 = seq![Instr::LocalGet(l2), Instr::End];
    assert(core_code(p, s) == x1 + x2 + x3 + x4 + x5 + x6);
    lemma_wrun_concat(env, x1 + x2 + x3 + x4 + x5, x6, m);
    lemma_wrun_concat(env, x1 + x2 + x3 + x4, x5, m);
    lemma_wrun_concat(env, x1 + x2 + x3, x4, m);
    lemma_wrun_concat(env, x1 + x2, x3, m);
    lemma_wrun_concat(env, x1, x2, m);

    // the length
    let lm = Machine { stack: m.stack, frames: m.frames };
    lemma_reading_matches(p, env, m, texts, conds);
    lemma_len_code_pure(p, s);
    lemma_simulate(env, x1, m);
    lemma_length_code_correct(reading(env, m), p, s, texts, conds, lm);
    let m1 = wrun(env, x1, m);
    assert(m1 == WMachine { stack: m.stack.push(len), ..m });

    // kept in its local
    lemma_wrun_one(env, Instr::LocalSet(la), m1);
    let m2 = wrun(env, x1 + x2, m);
    assert(m2.stack =~= m.stack);
    assert(m2 == WMachine { locals: m.locals.insert(la, len), ..m });

    // the buffer and the return area
    lemma_alloc_runs(env, p, m2);
    let m3 = wrun(env, x1 + x2 + x3, m);
    let locals3 = m.locals.insert(la, len).insert(l1, addr).insert(l2, area);
    let words4 = m.words.insert(area, addr).insert(area + 4, len);
    assert(m3 == WMachine { locals: locals3, words: words4, ..m });

    // the cursor starts at the buffer
    lemma_wrun_two(env, Instr::LocalGet(l1), Instr::LocalSet(l3), m3);
    let m4 = wrun(env, x1 + x2 + x3 + x4, m);
    let locals4 = locals3.insert(l3, addr);
    assert(m4.stack =~= m.stack);
    assert(m4 == WMachine { locals: locals4, words: words4, ..m });

    // the writes
    lemma_args_keep_at(p, env, m.locals, la, len, texts, conds);
    lemma_args_keep_at(p, env, m.locals.insert(la, len), l1, addr, texts, conds);
    lemma_args_keep_at(p, env, m.locals.insert(la, len).insert(l1, addr), l2, area, texts, conds);
    lemma_args_keep_at(p, env, locals3, l3, addr, texts, conds);
    lemma_write_code_correct(env, p, s, texts, conds, m4);
    let m5 = wrun(env, x1 + x2 + x3 + x4 + x5, m);
    assert(m5.locals[l2] == area);

    // the result is the return area
    lemma_wrun_two(env, Instr::LocalGet(l2), Instr::End, m5);
    let f = wrun(env, core_code(p, s), m);
    assert(f.stack =~= m.stack.push(area));
}

proof fn lemma_runs_le_count(s: Seq<Node>)
    ensures
        text_runs(s).len() <= node_count(s),
    decreases s,
{
    if s.len() > 0 {
        let pre = s.drop_last();
        let one = seq![s.last()];
        assert(s =~= pre + one);
        lemma_names_concat(pre, one);
        lemma_runs_le_count(pre);
        assert(one.drop_first() =~= Seq::<Node>::empty());
        assert(node_count(one.drop_first()) == 0);
        match s.last() {
            Node::Conditional { contents, .. } => {
                assert(s[s.len() - 1] == s.last());
                lemma_runs_le_count(contents@);
            },
            _ => {},
        }
    }
}

/// Every template the parser accepts (its literal runs numbered in source order, within the
/// size limits), compiled against the parameters collected from it, is rendered by its
/// compiled function: run with the data segments the generator emits and with any parameter
/// record, the function returns a return area whose length word is the length of the
/// rendered text and whose address word points at that text.
pub proof fn lemma_parsed_template_renders(
    env: WEnv,
    p: Params,
    s: Seq<Node>,
    texts: spec_fn(Seq<u8>) -> Seq<u8>,
    conds: spec_fn(Seq<u8>) -> bool,
    m: WMachine,
)
    requires
        is_numbering(text_indices(s)),
        within(s),
        p.wf(),
        p.texts().to_set() == text_names(s),
        p.conds().to_set() == cond_names(s),
        p.texts().len() + p.conds().len() <= node_count(s),
        env.segments == text_runs(s),
        m.frames.len() == 0,
        args_match(p, env, m.locals, texts, conds),
        render(s, texts, conds).len() <= i32::MAX,
    ensures
        ({
            let r = render(s, texts, conds);
            let addr = (env.call)(0, 0, 1, r.len() as int);
            let area = (env.call)(0, 0, 4, 8);
            let f = wrun(env, core_code(p, s), m);
            &&& f.stack == m.stack.push(area)
            &&& f.words[area] == addr
            &&& f.words[area + 4] == r.len()
            &&& f.mem == write_bytes(m.mem, addr, r)
        }),
{
    lemma_runs_le_count(s);
    assert(args_len(p) + 3 <= u32::MAX);
    assert(names_within(p, s));
    lemma_compiled_function(env, p, s, texts, conds, m);
}

/// The component generated for a parsed template, section by section as `gen_component`
/// states it, embeds a core module whose one function body, with its four locals, is the
/// compiled function that is exported, aliased and lifted as the component's export; and
/// that function, run with any parameter record, returns the rendered template as
/// `lemma_parsed_template_renders` says.
pub proof fn lemma_component_renders(
    p: Params,
    s: Seq<Node>,
    name: Seq<char>,
    allocator: Seq<u8>,
    env: WEnv,
    texts: spec_fn(Seq<u8>) -> Seq<u8>,
    conds: spec_fn(Seq<u8>) -> bool,
    m: WMachine,
)
    requires
        is_numbering(text_indices(s)),
        within(s),
        p.wf(),
        p.texts().to_set() == text_names(s),
        p.conds().to_set() == cond_names(s),
        p.texts().len() + p.conds().len() <= node_count(s),
        env.segments == text_runs(s),
        m.frames.len() == 0,
        args_match(p, env, m.locals, texts, conds),
        render(s, texts, conds).len() <= i32::MAX,
    ensures
        component_layout(p, s, name, allocator)[1] == ComponentView::Module(module_layout(p, s, name)),
        module_layout(p, s, name)[5] == ModuleView::Code(seq![(4u32, core_code(p, s))]),
        module_layout(p, s, name)[6] == ModuleView::Data(env.segments),
        ({
            let r = render(s, texts, conds);
            let addr = (env.call)(0, 0, 1, r.len() as int);
            let area = (env.call)(0, 0, 4, 8);
            let f = wrun(env, core_code(p, s), m);
            &&& f.stack == m.stack.push(area)
            &&& f.words[area] == addr
            &&& f.words[area + 4] == r.len()
            &&& f.mem == write_bytes(m.mem, addr, r)
        }),
{
    lemma_parsed_template_renders(env, p, s, texts, conds, m);
}

} // verus!
