//! A model of how the compiled function's length code runs, and the proof that it leaves
//! the rendered length on the stack. Arithmetic is on unbounded integers.
use vstd::prelude::*;
use crate::ir::{Node, cond_names};
use crate::gen::code::{
    Instr, pos, has_cond, base_len, count, push_text_field_code, push_cond_code, cond_sum_code,
    param_terms_code, len_code, sizes_fit, names_within, lemma_names_at, lemma_nested_at,
    lemma_count_le, lemma_base_prefix,
};
use crate::gen::template::Params;
use crate::laws::{cond_sum_value, param_terms_value, len_value, render, lemma_length_precomputation};
use crate::ir::lemma_names_push;
use crate::gen::code::lemma_base_nonneg;

verus! {

/// One open `if` block: whether each branch runs, and which branch is current.
pub struct Frame {
    pub then_active: bool,
    pub else_active: bool,
    pub in_else: bool,
}

/// The operand stack and the open blocks.
pub struct Machine {
    pub stack: Seq<int>,
    pub frames: Seq<Frame>,
}

/// What the function reads: its locals, and 32-bit and 8-bit loads from memory.
pub struct Env {
    pub local: spec_fn(u32) -> int,
    pub load32: spec_fn(int) -> int,
    pub load8: spec_fn(int) -> int,
}

pub open spec fn frame_active(f: Frame) -> bool {
    if f.in_else { f.else_active } else { f.then_active }
}

/// Every open block is in a branch that runs.
pub open spec fn active(m: Machine) -> bool {
    forall|k: int| 0 <= k < m.frames.len() ==> frame_active(#[trigger] m.frames[k])
}

/// The effect of an instruction that neither opens nor closes a block.
pub open spec fn exec_plain(env: Env, s: Seq<int>, i: Instr) -> Seq<int> {
    match i {
        Instr::LocalGet(x) => s.push((env.local)(x)),
        Instr::I32Const(v) => s.push(v as int),
        Instr::I32Add => s.drop_last().drop_last().push(s[s.len() - 2] + s[s.len() - 1]),
        Instr::I32Mul => s.drop_last().drop_last().push(s[s.len() - 2] * s[s.len() - 1]),
        Instr::I32Load { .. } => s.drop_last().push((env.load32)(s.last())),
        Instr::I32Load8U { .. } => s.drop_last().push((env.load8)(s.last())),
        _ => s,
    }
}

/// The effect of one instruction.
pub open spec fn step(env: Env, m: Machine, i: Instr) -> Machine {
    match i {
        Instr::IfI32 | Instr::IfEmpty => if active(m) {
            let c = m.stack.last();
            Machine {
                stack: m.stack.drop_last(),
                frames: m.frames.push(Frame { then_active: c != 0, else_active: c == 0, in_else: false }),
            }
        } else {
            Machine { stack: m.stack, frames: m.frames.push(Frame { then_active: false, else_active: false, in_else: false }) }
        },
        Instr::Else => if m.frames.len() > 0 {
            let f = m.frames.last();
            Machine {
                stack: m.stack,
                frames: m.frames.update(
                    m.frames.len() - 1,
                    Frame { then_active: f.then_active, else_active: f.else_active, in_else: true },
                ),
            }
        } else {
            m
        },
        Instr::End => Machine { stack: m.stack, frames: if m.frames.len() > 0 { m.frames.drop_last() } else { m.frames } },
        _ => if active(m) { Machine { stack: exec_plain(env, m.stack, i), frames: m.frames } } else { m },
    }
}

/// The effect of running `code` from `m`.
pub open spec fn run(env: Env, code: Seq<Instr>, m: Machine) -> Machine
    decreases code.len(),
{
    if code.len() == 0 {
        m
    } else {
        step(env, run(env, code.drop_last(), m), code.last())
    }
}

/// The value the function reads for the length of text parameter `i`.
pub open spec fn text_len_at(p: Params, env: Env, i: int) -> int {
    if p.spills() {
        (env.load32)((env.local)(0) + ((8 * i + 4) as i32) as int)
    } else {
        (env.local)((2 * i + 1) as u32)
    }
}

/// The value the function reads for condition parameter `j`.
pub open spec fn cond_at(p: Params, env: Env, j: int) -> int {
    if p.spills() {
        (env.load8)((env.local)(0) + ((8 * p.texts().len() + j) as i32) as int)
    } else {
        (env.local)((2 * p.texts().len() + j) as u32)
    }
}

/// The function's arguments carry, for each parameter by name, a string of the length of
/// `texts` of it and a flag that is set exactly when `conds` of it holds.
pub open spec fn env_matches(
    p: Params,
    env: Env,
    texts: spec_fn(Seq<u8>) -> Seq<u8>,
    conds: spec_fn(Seq<u8>) -> bool,
) -> bool {
    &&& forall|i: int| 0 <= i < p.texts().len() ==> #[trigger] text_len_at(p, env, i) == texts(p.texts()[i]).len()
    &&& forall|j: int| 0 <= j < p.conds().len() ==> (#[trigger] cond_at(p, env, j) != 0) == conds(p.conds()[j])
}

pub proof fn lemma_run_concat(env: Env, a: Seq<Instr>, b: Seq<Instr>, m: Machine)
    ensures
        run(env, a + b, m) == run(env, b, run(env, a, m)),
    decreases b.len(),
{
    if b.len() == 0 {
        assert(a + b =~= a);
    } else {
        assert((a + b).drop_last() =~= a + b.drop_last());
        lemma_run_concat(env, a, b.drop_last(), m);
    }
}

pub proof fn lemma_run_one(env: Env, i: Instr, m: Machine)
    ensures
        run(env, seq![i], m) == step(env, m, i),
{
    assert(seq![i].drop_last() =~= Seq::<Instr>::empty());
    assert(run(env, Seq::<Instr>::empty(), m) == m);
}

pub proof fn lemma_run_three(env: Env, a: Instr, b: Instr, c: Instr, m: Machine)
    ensures
        run(env, seq![a, b, c], m) == step(env, step(env, step(env, m, a), b), c),
{
    lemma_run_one(env, a, m);
    let ab = seq![a, b];
    let abc = seq![a, b, c];
    assert(ab.drop_last() =~= seq![a]);
    assert(abc.drop_last() =~= ab);
    assert(ab.last() == b);
    assert(abc.last() == c);
    assert(run(env, ab, m) == step(env, run(env, seq![a], m), b));
    assert(run(env, abc, m) == step(env, run(env, ab, m), c));
}

/// Code without block instructions.
pub open spec fn plain(code: Seq<Instr>) -> bool {
    forall|k: int| 0 <= k < code.len() ==> !((#[trigger] code[k]) is IfI32 || code[k] is IfEmpty || code[k] is Else || code[k] is End)
}

proof fn lemma_plain_skips(env: Env, code: Seq<Instr>, m: Machine)
    requires
        plain(code),
        !active(m),
    ensures
        run(env, code, m) == m,
    decreases code.len(),
{
    if code.len() > 0 {
        assert(plain(code.drop_last())) by {
            assert forall|k: int| 0 <= k < code.drop_last().len() implies !((#[trigger] code.drop_last()[k]) is IfI32
                || code.drop_last()[k] is IfEmpty || code.drop_last()[k] is Else || code.drop_last()[k] is End) by {
                assert(code.drop_last()[k] == code[k]);
            }
        }
        lemma_plain_skips(env, code.drop_last(), m);
        assert(code.last() == code[code.len() - 1]);
    }
}

proof fn lemma_param_terms_plain(p: Params, s: Seq<Node>, n: int)
    ensures
        plain(param_terms_code(p, s, n)),
    decreases n,
{
    if n > 0 {
        lemma_param_terms_plain(p, s, n - 1);
        let c = count(s, p.texts()[n - 1]);
        let prev = param_terms_code(p, s, n - 1);
        if c > 0 {
            let t = push_text_field_code(p, n - 1, 1) + seq![Instr::I32Const(c as i32), Instr::I32Mul, Instr::I32Add];
            assert(param_terms_code(p, s, n) == prev + t);
            assert forall|k: int| 0 <= k < (prev + t).len() implies !((#[trigger] (prev + t)[k]) is IfI32 || (prev + t)[k] is IfEmpty
                || (prev + t)[k] is Else || (prev + t)[k] is End) by {
                if k < prev.len() {
                    assert((prev + t)[k] == prev[k]);
                }
            }
        } else {
            assert(param_terms_code(p, s, n) =~= prev);
        }
    }
}

proof fn lemma_push_plain(p: Params, i: int, field: int, j: int)
    ensures
        plain(push_text_field_code(p, i, field)),
        plain(push_cond_code(p, j)),
{
}

/// A machine with one more open block.
pub open spec fn with_frame(m: Machine, stack: Seq<int>, f: Frame) -> Machine {
    Machine { stack, frames: m.frames.push(f) }
}

proof fn lemma_active_push(m: Machine, stack: Seq<int>, f: Frame)
    ensures
        active(with_frame(m, stack, f)) == (active(m) && frame_active(f)),
{
    let m2 = with_frame(m, stack, f);
    if active(m) && frame_active(f) {
        assert forall|k: int| 0 <= k < m2.frames.len() implies frame_active(#[trigger] m2.frames[k]) by {
            if k < m.frames.len() {
                assert(m2.frames[k] == m.frames[k]);
            }
        }
    }
    if active(m2) {
        assert(frame_active(m2.frames[m.frames.len() as int]));
        assert forall|k: int| 0 <= k < m.frames.len() implies frame_active(#[trigger] m.frames[k]) by {
            assert(m2.frames[k] == m.frames[k]);
        }
    }
}

/// Running an `if` block whose body leaves `m2` unchanged apart from what `body_effect` says.
proof fn lemma_block_shape(env: Env, m: Machine, c: Seq<Instr>, body: Seq<Instr>)
    requires
        plain(c),
    ensures
        run(env, c + seq![Instr::IfI32] + body + seq![Instr::Else, Instr::I32Const(0), Instr::End], m) == run(
            env,
            seq![Instr::Else, Instr::I32Const(0), Instr::End],
            run(env, body, step(env, run(env, c, m), Instr::IfI32)),
        ),
{
    let tail = seq![Instr::Else, Instr::I32Const(0), Instr::End];
    lemma_run_concat(env, c + seq![Instr::IfI32] + body, tail, m);
    lemma_run_concat(env, c + seq![Instr::IfI32], body, m);
    let ci = c + seq![Instr::IfI32];
    assert(ci.drop_last() =~= c);
}

/// Skipped (not running) length code changes nothing.
pub proof fn lemma_len_code_skips(env: Env, p: Params, s: Seq<Node>, m: Machine)
    requires
        !active(m),
    ensures
        run(env, len_code(p, s), m) == m,
    decreases s, 1int,
{
    lemma_cond_sum_skips(env, p, s, m);
    let a = cond_sum_code(p, s);
    let b = seq![Instr::I32Const(base_len(s) as i32)] + (if has_cond(s) { seq![Instr::I32Add] } else { seq![] });
    let t = param_terms_code(p, s, p.texts().len() as int);
    assert(len_code(p, s) == a + b + t);
    lemma_run_concat(env, a + b, t, m);
    lemma_run_concat(env, a, b, m);
    lemma_param_terms_plain(p, s, p.texts().len() as int);
    assert(plain(b));
    lemma_plain_skips(env, b, m);
    lemma_plain_skips(env, t, m);
}

pub proof fn lemma_cond_sum_skips(env: Env, p: Params, s: Seq<Node>, m: Machine)
    requires
        !active(m),
    ensures
        run(env, cond_sum_code(p, s), m) == m,
    decreases s, 0int,
{
    if s.len() > 0 {
        let pre = cond_sum_code(p, s.drop_last());
        lemma_cond_sum_skips(env, p, s.drop_last(), m);
        match s.last() {
            Node::Conditional { cond_ident, contents, .. } => {
                let j = pos(p.conds(), cond_ident.value@);
                let c = push_cond_code(p, j);
                let body = len_code(p, contents@);
                let blk = c + seq![Instr::IfI32] + body + seq![Instr::Else, Instr::I32Const(0), Instr::End];
                let add = if has_cond(s.drop_last()) { seq![Instr::I32Add] } else { seq![] };
                assert(cond_sum_code(p, s) == pre + blk + add);
                lemma_run_concat(env, pre + blk, add, m);
                lemma_run_concat(env, pre, blk, m);
                lemma_push_plain(p, 0, 0, j);
                lemma_plain_skips(env, c, m);
                lemma_block_shape(env, m, c, body);
                let dead = Frame { then_active: false, else_active: false, in_else: false };
                let m1 = step(env, m, Instr::IfI32);
                assert(m1 == with_frame(m, m.stack, dead));
                lemma_active_push(m, m.stack, dead);
                assert(s[s.len() - 1] == s.last());
                lemma_len_code_skips(env, p, contents@, m1);
                let m2 = step(env, m1, Instr::Else);
                let dead_else = Frame { then_active: false, else_active: false, in_else: true };
                assert(m2.frames =~= m.frames.push(dead_else));
                assert(m2 == with_frame(m, m.stack, dead_else));
                lemma_active_push(m, m.stack, dead_else);
                let m3 = step(env, m2, Instr::I32Const(0));
                assert(m3 == m2);
                let m4 = step(env, m3, Instr::End);
                assert(m4.frames =~= m.frames);
                assert(m4 == m);
                lemma_run_three(env, Instr::Else, Instr::I32Const(0), Instr::End, m1);
                if add.len() > 0 {
                    lemma_run_one(env, Instr::I32Add, m);
                } else {
                    assert(run(env, add, m) == m);
                }
            },
            _ => {},
        }
    }
}

/// `m` with `v` pushed.
pub open spec fn pushed(m: Machine, v: int) -> Machine {
    Machine { stack: m.stack.push(v), frames: m.frames }
}

proof fn lemma_push_text_len_runs(env: Env, p: Params, i: int, m: Machine)
    requires
        active(m),
    ensures
        run(env, push_text_field_code(p, i, 1), m) == pushed(m, text_len_at(p, env, i)),
{
    if p.spills() {
        let k = (8 * i + 4) as i32;
        let a = seq![Instr::LocalGet(0)];
        let b = seq![Instr::I32Const(k), Instr::I32Add, Instr::I32Load { align: 2 }];
        assert(push_text_field_code(p, i, 1) =~= a + b);
        lemma_run_concat(env, a, b, m);
        lemma_run_one(env, Instr::LocalGet(0), m);
        let m1 = run(env, a, m);
        assert(m1 == pushed(m, (env.local)(0)));
        lemma_run_three(env, Instr::I32Const(k), Instr::I32Add, Instr::I32Load { align: 2 }, m1);
        let m2 = step(env, m1, Instr::I32Const(k));
        assert(m2 == pushed(m1, k as int));
        let m3 = step(env, m2, Instr::I32Add);
        assert(m3.stack =~= m.stack.push((env.local)(0) + k as int));
        let m4 = step(env, m3, Instr::I32Load { align: 2 });
        assert(m4.stack =~= m.stack.push(text_len_at(p, env, i)));
    } else {
        lemma_run_one(env, Instr::LocalGet((2 * i + 1) as u32), m);
    }
}

proof fn lemma_push_cond_runs(env: Env, p: Params, j: int, m: Machine)
    requires
        active(m),
    ensures
        run(env, push_cond_code(p, j), m) == pushed(m, cond_at(p, env, j)),
{
    if p.spills() {
        let k = (8 * p.texts().len() + j) as i32;
        let a = seq![Instr::LocalGet(0)];
        let b = seq![Instr::I32Const(k), Instr::I32Add, Instr::I32Load8U { align: 0 }];
        assert(push_cond_code(p, j) =~= a + b);
        lemma_run_concat(env, a, b, m);
        lemma_run_one(env, Instr::LocalGet(0), m);
        let m1 = run(env, a, m);
        assert(m1 == pushed(m, (env.local)(0)));
        lemma_run_three(env, Instr::I32Const(k), Instr::I32Add, Instr::I32Load8U { align: 0 }, m1);
        let m2 = step(env, m1, Instr::I32Const(k));
        assert(m2 == pushed(m1, k as int));
        let m3 = step(env, m2, Instr::I32Add);
        assert(m3.stack =~= m.stack.push((env.local)(0) + k as int));
        let m4 = step(env, m3, Instr::I32Load8U { align: 0 });
        assert(m4.stack =~= m.stack.push(cond_at(p, env, j)));
    } else {
        lemma_run_one(env, Instr::LocalGet((2 * p.texts().len() + j) as u32), m);
    }
}

/// The parameter terms add each parameter's length times its count to the top of the stack.
proof fn lemma_param_terms_runs(
    env: Env,
    p: Params,
    s: Seq<Node>,
    texts: spec_fn(Seq<u8>) -> Seq<u8>,
    conds: spec_fn(Seq<u8>) -> bool,
    n: int,
    m: Machine,
)
    requires
        active(m),
        m.stack.len() >= 1,
        0 <= n <= p.texts().len(),
        s.len() <= i32::MAX,
        env_matches(p, env, texts, conds),
    ensures
        run(env, param_terms_code(p, s, n), m) == (Machine {
            stack: m.stack.drop_last().push(m.stack.last() + param_terms_value(p, s, texts, n)),
            frames: m.frames,
        }),
    decreases n,
{
    if n <= 0 {
        assert(m.stack.drop_last().push(m.stack.last() + 0) =~= m.stack);
    } else {
        lemma_param_terms_runs(env, p, s, texts, conds, n - 1, m);
        let prev = param_terms_code(p, s, n - 1);
        let m1 = run(env, prev, m);
        let x = m.stack.last() + param_terms_value(p, s, texts, n - 1);
        let t = p.texts()[n - 1];
        let c = count(s, t);
        let l = text_len_at(p, env, n - 1);
        assert(l == texts(t).len());
        lemma_count_le(s, t);
        if c > 0 {
            let pl = push_text_field_code(p, n - 1, 1);
            let tail = seq![Instr::I32Const(c as i32), Instr::I32Mul, Instr::I32Add];
            assert(param_terms_code(p, s, n) == prev + (pl + tail));
            lemma_run_concat(env, prev, pl + tail, m);
            lemma_run_concat(env, pl, tail, m1);
            assert(active(m1)) by {
                assert(m1.frames == m.frames);
            }
            lemma_push_text_len_runs(env, p, n - 1, m1);
            let m2 = run(env, pl, m1);
            lemma_run_three(env, Instr::I32Const(c as i32), Instr::I32Mul, Instr::I32Add, m2);
            let m3 = step(env, m2, Instr::I32Const(c as i32));
            assert(m3 == pushed(m2, c));
            let m4 = step(env, m3, Instr::I32Mul);
            assert(m4.stack =~= m.stack.drop_last().push(x).push(l * c));
            let m5 = step(env, m4, Instr::I32Add);
            assert(l * c == c * l) by (nonlinear_arith);
            assert(m5.stack =~= m.stack.drop_last().push(x + c * l));
        } else {
            assert(param_terms_code(p, s, n) =~= prev);
            assert(c == 0);
            assert(c * l == 0) by (nonlinear_arith)
                requires
                    c == 0,
            ;
        }
    }
}

proof fn lemma_has_cond_last(s: Seq<Node>)
    requires
        s.len() > 0,
    ensures
        has_cond(s) == (has_cond(s.drop_last()) || s.last() is Conditional),
{
    let pre = s.drop_last();
    if has_cond(pre) {
        let w = choose|w: int| 0 <= w < pre.len() && (#[trigger] pre[w]) is Conditional;
        assert(s[w] == pre[w]);
    }
    if s.last() is Conditional {
        assert(s[s.len() - 1] == s.last());
    }
    if has_cond(s) {
        let w = choose|w: int| 0 <= w < s.len() && (#[trigger] s[w]) is Conditional;
        if w < s.len() - 1 {
            assert(pre[w] == s[w]);
        }
    }
}

proof fn lemma_no_cond_sum(p: Params, s: Seq<Node>, texts: spec_fn(Seq<u8>) -> Seq<u8>, conds: spec_fn(Seq<u8>) -> bool)
    requires
        !has_cond(s),
    ensures
        cond_sum_value(p, s, texts, conds) == 0,
    decreases s.len(),
{
    if s.len() > 0 {
        lemma_has_cond_last(s);
        lemma_no_cond_sum(p, s.drop_last(), texts, conds);
    }
}

/// What a prefix inherits from the whole.
pub proof fn lemma_prefix_facts(p: Params, s: Seq<Node>)
    requires
        s.len() > 0,
        names_within(p, s),
        sizes_fit(s),
    ensures
        names_within(p, s.drop_last()),
        sizes_fit(s.drop_last()),
        s.last() is Conditional ==> names_within(p, s.last()->contents@) && sizes_fit(s.last()->contents@),
        s.last() is Conditional ==> cond_names(s).contains(s.last()->cond_ident.value@),
{
    let k = s.len() - 1;
    assert(s[k] == s.last());
    lemma_names_at(s, k);
    assert(s.drop_last() =~= s.subrange(0, k));
    lemma_names_push(s, k);
    assert(s.subrange(0, k + 1) =~= s);
    lemma_base_prefix(s, k);
    lemma_nested_at(s, k);
}

/// The conditional blocks' length code pushes their summed lengths, if there are any.
proof fn lemma_cond_sum_runs(
    env: Env,
    p: Params,
    s: Seq<Node>,
    texts: spec_fn(Seq<u8>) -> Seq<u8>,
    conds: spec_fn(Seq<u8>) -> bool,
    m: Machine,
)
    requires
        active(m),
        p.wf(),
        names_within(p, s),
        sizes_fit(s),
        env_matches(p, env, texts, conds),
    ensures
        run(env, cond_sum_code(p, s), m) == if has_cond(s) {
            pushed(m, cond_sum_value(p, s, texts, conds))
        } else {
            m
        },
    decreases s, 0int,
{
    if s.len() > 0 {
        let pre_s = s.drop_last();
        lemma_prefix_facts(p, s);
        lemma_has_cond_last(s);
        lemma_cond_sum_runs(env, p, pre_s, texts, conds, m);
        let pre = cond_sum_code(p, pre_s);
        let mp = run(env, pre, m);
        assert(active(mp)) by {
            assert(mp.frames == m.frames);
        }
        match s.last() {
            Node::Conditional { cond_ident, contents, .. } => {
                let name = cond_ident.value@;
                let j = pos(p.conds(), name);
                assert(p.conds().to_set().contains(name));
                assert(0 <= j < p.conds().len() && p.conds()[j] == name);
                let c = push_cond_code(p, j);
                let body = len_code(p, contents@);
                let tail = seq![Instr::Else, Instr::I32Const(0), Instr::End];
                let blk = c + seq![Instr::IfI32] + body + tail;
                let add = if has_cond(pre_s) { seq![Instr::I32Add] } else { seq![] };
                assert(cond_sum_code(p, s) == pre + blk + add);
                lemma_run_concat(env, pre + blk, add, m);
                lemma_run_concat(env, pre, blk, m);
                lemma_push_plain(p, 0, 0, j);
                lemma_block_shape(env, mp, c, body);
                lemma_push_cond_runs(env, p, j, mp);
                let x = cond_at(p, env, j);
                assert((x != 0) == conds(name));
                let mc = run(env, c, mp);
                assert(mc == pushed(mp, x));
                let f = Frame { then_active: x != 0, else_active: x == 0, in_else: false };
                let m1 = step(env, mc, Instr::IfI32);
                assert(mc.stack.drop_last() =~= mp.stack);
                assert(m1 == with_frame(mp, mp.stack, f));
                lemma_active_push(mp, mp.stack, f);
                let fe = Frame { then_active: x != 0, else_active: x == 0, in_else: true };
                lemma_active_push(mp, mp.stack, fe);
                let v = if conds(name) { len_value(p, contents@, texts, conds) } else { 0 };
                if x != 0 {
                    lemma_len_code_runs(env, p, contents@, texts, conds, m1);
                    let mb = run(env, body, m1);
                    assert(mb == with_frame(mp, mp.stack.push(v), f));
                    lemma_active_push(mp, mp.stack.push(v), fe);
                    lemma_run_three(env, Instr::Else, Instr::I32Const(0), Instr::End, mb);
                    let m2 = step(env, mb, Instr::Else);
                    assert(m2.frames =~= mp.frames.push(fe));
                    assert(m2 == with_frame(mp, mp.stack.push(v), fe));
                    let m3 = step(env, m2, Instr::I32Const(0));
                    assert(m3 == m2);
                    let m4 = step(env, m3, Instr::End);
                    assert(m4.frames =~= mp.frames);
                    assert(m4 == pushed(mp, v));
                } else {
                    lemma_len_code_skips(env, p, contents@, m1);
                    lemma_run_three(env, Instr::Else, Instr::I32Const(0), Instr::End, m1);
                    let m2 = step(env, m1, Instr::Else);
                    assert(m2.frames =~= mp.frames.push(fe));
                    assert(m2 == with_frame(mp, mp.stack, fe));
                    let m3 = step(env, m2, Instr::I32Const(0));
                    assert(m3 == with_frame(mp, mp.stack.push(0), fe));
                    let m4 = step(env, m3, Instr::End);
                    assert(m4.frames =~= mp.frames);
                    assert(m4 == pushed(mp, v));
                }
                let mv = pushed(mp, v);
                assert(run(env, pre + blk, m) == mv);
                if has_cond(pre_s) {
                    lemma_run_one(env, Instr::I32Add, mv);
                    let csv = cond_sum_value(p, pre_s, texts, conds);
                    assert(mp == pushed(m, csv));
                    assert(step(env, mv, Instr::I32Add).stack =~= m.stack.push(csv + v));
                } else {
                    lemma_no_cond_sum(p, pre_s, texts, conds);
                    assert(mp == m);
                    assert(run(env, add, mv) == mv);
                }
            },
            _ => {
                assert(cond_sum_code(p, s) == pre);
            },
        }
    }
}

/// The length code of `s` pushes the value `len_value` describes.
proof fn lemma_len_code_runs(
    env: Env,
    p: Params,
    s: Seq<Node>,
    texts: spec_fn(Seq<u8>) -> Seq<u8>,
    conds: spec_fn(Seq<u8>) -> bool,
    m: Machine,
)
    requires
        active(m),
        p.wf(),
        names_within(p, s),
        sizes_fit(s),
        env_matches(p, env, texts, conds),
    ensures
        run(env, len_code(p, s), m) == pushed(m, len_value(p, s, texts, conds)),
    decreases s, 1int,
{
    lemma_cond_sum_runs(env, p, s, texts, conds, m);
    let a = cond_sum_code(p, s);
    let base = base_len(s);
    lemma_base_nonneg(s);
    let b = seq![Instr::I32Const(base as i32)] + (if has_cond(s) { seq![Instr::I32Add] } else { seq![] });
    let t = param_terms_code(p, s, p.texts().len() as int);
    assert(len_code(p, s) == a + b + t);
    lemma_run_concat(env, a + b, t, m);
    lemma_run_concat(env, a, b, m);
    let ma = run(env, a, m);
    assert(active(ma)) by {
        assert(ma.frames == m.frames);
    }
    let csv = cond_sum_value(p, s, texts, conds);
    if has_cond(s) {
        assert(b =~= seq![Instr::I32Const(base as i32), Instr::I32Add]);
        lemma_run_one(env, Instr::I32Const(base as i32), ma);
        let m1 = step(env, ma, Instr::I32Const(base as i32));
        assert(b.drop_last() =~= seq![Instr::I32Const(base as i32)]);
        let m2 = step(env, m1, Instr::I32Add);
        assert(run(env, b, ma) == m2);
        assert(m2.stack =~= m.stack.push(csv + base));
    } else {
        lemma_no_cond_sum(p, s, texts, conds);
        assert(b =~= seq![Instr::I32Const(base as i32)]);
        lemma_run_one(env, Instr::I32Const(base as i32), ma);
        assert(run(env, b, ma).stack =~= m.stack.push(csv + base));
    }
    let mb = run(env, a + b, m);
    assert(mb == pushed(m, csv + base));
    assert(active(mb)) by {
        assert(mb.frames == m.frames);
    }
    lemma_param_terms_runs(env, p, s, texts, conds, p.texts().len() as int, mb);
    assert(run(env, t, mb).stack =~= m.stack.push(len_value(p, s, texts, conds)));
}

/// For every parameter record that carries strings of the lengths of `texts` and flags set
/// as `conds` says, the compiled function's length code leaves on the stack exactly the
/// length of the text the template renders to.
pub proof fn lemma_length_code_correct(
    env: Env,
    p: Params,
    s: Seq<Node>,
    texts: spec_fn(Seq<u8>) -> Seq<u8>,
    conds: spec_fn(Seq<u8>) -> bool,
    m: Machine,
)
    requires
        active(m),
        p.wf(),
        names_within(p, s),
        sizes_fit(s),
        env_matches(p, env, texts, conds),
    ensures
        run(env, len_code(p, s), m) == pushed(m, render(s, texts, conds).len() as int),
{
    lemma_len_code_runs(env, p, s, texts, conds, m);
    lemma_length_precomputation(p, s, texts, conds);
}

} // verus!
