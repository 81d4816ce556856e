//! A model of how the compiled function's write code runs, and the proof that it writes the
//! rendered text at the cursor. Parameter strings are read from the caller's memory, which
//! the writes do not touch; arithmetic is on unbounded integers.
use vstd::prelude::*;
use crate::ir::Node;
use crate::gen::code::{
    Instr, pos, push_text_field_code, push_cond_code, write_code, node_write_code, advance_code,
    cursor_local, args_len, names_within, sizes_fit, lemma_base_nonneg, lemma_names_at,
};
use crate::gen::template::Params;
use crate::laws::{render, text_entries, lemma_text_entries};
use crate::gen::code::{text_runs, text_indices};
use crate::tokens::is_numbering;
use crate::semantics::{Frame, frame_active, lemma_prefix_facts};


verus! {

/// The operand stack, the open blocks, the locals and the memory being written.
pub struct WMachine {
    pub stack: Seq<int>,
    pub frames: Seq<Frame>,
    pub locals: Map<u32, int>,
    pub mem: Map<int, u8>,
    /// The 32-bit words stored, by address.
    pub words: Map<int, int>,
}

/// What the function reads besides its locals: the passive data segments, the caller's
/// memory (a range by address and length, and 32-bit and 8-bit loads), and the allocator.
pub struct WEnv {
    pub segments: Seq<Seq<u8>>,
    pub read: spec_fn(int, int) -> Seq<u8>,
    pub load32: spec_fn(int) -> int,
    pub load8: spec_fn(int) -> int,
    /// What the imported allocator's `realloc` returns for its four arguments.
    pub call: spec_fn(int, int, int, int) -> int,
}

pub open spec fn wactive(m: WMachine) -> bool {
    forall|k: int| 0 <= k < m.frames.len() ==> frame_active(#[trigger] m.frames[k])
}

/// `mem` with `bytes` written from address `at` on.
pub open spec fn write_bytes(mem: Map<int, u8>, at: int, bytes: Seq<u8>) -> Map<int, u8> {
    Map::new(
        |k: int| mem.dom().contains(k) || (at <= k < at + bytes.len()),
        |k: int| if at <= k < at + bytes.len() { bytes[k - at] } else { mem[k] },
    )
}

/// The effect of an instruction that neither opens nor closes a block, on a running machine.
pub open spec fn wexec(env: WEnv, m: WMachine, i: Instr) -> WMachine {
    let s = m.stack;
    let n = s.len() as int;
    match i {
        Instr::LocalGet(x) => WMachine { stack: s.push(m.locals[x]), ..m },
        Instr::LocalSet(x) => WMachine { stack: s.drop_last(), locals: m.locals.insert(x, s.last()), ..m },
        Instr::I32Const(v) => WMachine { stack: s.push(v as int), ..m },
        Instr::I32Add => WMachine { stack: s.drop_last().drop_last().push(s[n - 2] + s[n - 1]), ..m },
        Instr::I32Mul => WMachine { stack: s.drop_last().drop_last().push(s[n - 2] * s[n - 1]), ..m },
        Instr::Call(_) => WMachine {
            stack: s.subrange(0, n - 4).push((env.call)(s[n - 4], s[n - 3], s[n - 2], s[n - 1])),
            ..m
        },
        Instr::I32Store { .. } => WMachine { stack: s.subrange(0, n - 2), words: m.words.insert(s[n - 2], s[n - 1]), ..m },
        Instr::I32Load { .. } => WMachine { stack: s.drop_last().push((env.load32)(s.last())), ..m },
        Instr::I32Load8U { .. } => WMachine { stack: s.drop_last().push((env.load8)(s.last())), ..m },
        Instr::MemoryInit { data_index } => WMachine {
            stack: s.subrange(0, n - 3),
            mem: write_bytes(m.mem, s[n - 3], env.segments[data_index as int].subrange(s[n - 2], s[n - 2] + s[n - 1])),
            ..m
        },
        Instr::MemoryCopy => WMachine {
            stack: s.subrange(0, n - 3),
            mem: write_bytes(m.mem, s[n - 3], (env.read)(s[n - 2], s[n - 1])),
            ..m
        },
        _ => m,
    }
}

pub open spec fn wstep(env: WEnv, m: WMachine, i: Instr) -> WMachine {
    match i {
        Instr::IfI32 | Instr::IfEmpty => if wactive(m) {
            let c = m.stack.last();
            WMachine {
                stack: m.stack.drop_last(),
                frames: m.frames.push(Frame { then_active: c != 0, else_active: c == 0, in_else: false }),
                ..m
            }
        } else {
            WMachine { frames: m.frames.push(Frame { then_active: false, else_active: false, in_else: false }), ..m }
        },
        Instr::Else => if m.frames.len() > 0 {
            let f = m.frames.last();
            WMachine {
                frames: m.frames.update(
                    m.frames.len() - 1,
                    Frame { then_active: f.then_active, else_active: f.else_active, in_else: true },
                ),
                ..m
            }
        } else {
            m
        },
        Instr::End => WMachine { frames: if m.frames.len() > 0 { m.frames.drop_last() } else { m.frames }, ..m },
        _ => if wactive(m) { wexec(env, m, i) } else { m },
    }
}

pub open spec fn wrun(env: WEnv, code: Seq<Instr>, m: WMachine) -> WMachine
    decreases code.len(),
{
    if code.len() == 0 {
        m
    } else {
        wstep(env, wrun(env, code.drop_last(), m), code.last())
    }
}

pub proof fn lemma_wrun_concat(env: WEnv, a: Seq<Instr>, b: Seq<Instr>, m: WMachine)
    ensures
        wrun(env, a + b, m) == wrun(env, b, wrun(env, a, m)),
    decreases b.len(),
{
    if b.len() == 0 {
        assert(a + b =~= a);
    } else {
        assert((a + b).drop_last() =~= a + b.drop_last());
        lemma_wrun_concat(env, a, b.drop_last(), m);
    }
}

pub proof fn lemma_wrun_one(env: WEnv, i: Instr, m: WMachine)
    ensures
        wrun(env, seq![i], m) == wstep(env, m, i),
{
    assert(seq![i].drop_last() =~= Seq::<Instr>::empty());
    assert(wrun(env, Seq::<Instr>::empty(), m) == m);
}

pub proof fn lemma_wrun_two(env: WEnv, a: Instr, b: Instr, m: WMachine)
    ensures
        wrun(env, seq![a, b], m) == wstep(env, wstep(env, m, a), b),
{
    lemma_wrun_one(env, a, m);
    let ab = seq![a, b];
    assert(ab.drop_last() =~= seq![a]);
    assert(ab.last() == b);
}

pub proof fn lemma_wrun_three(env: WEnv, a: Instr, b: Instr, c: Instr, m: WMachine)
    ensures
        wrun(env, seq![a, b, c], m) == wstep(env, wstep(env, wstep(env, m, a), b), c),
{
    lemma_wrun_two(env, a, b, m);
    let abc = seq![a, b, c];
    assert(abc.drop_last() =~= seq![a, b]);
    assert(abc.last() == c);
}

/// Code without block instructions.
pub open spec fn wplain(code: Seq<Instr>) -> bool {
    forall|k: int| 0 <= k < code.len() ==> !((#[trigger] code[k]) is IfI32 || code[k] is IfEmpty || code[k] is Else || code[k] is End)
}

proof fn lemma_wplain_skips(env: WEnv, code: Seq<Instr>, m: WMachine)
    requires
        wplain(code),
        !wactive(m),
    ensures
        wrun(env, code, m) == m,
    decreases code.len(),
{
    if code.len() > 0 {
        assert(wplain(code.drop_last())) by {
            assert forall|k: int| 0 <= k < code.drop_last().len() implies !((#[trigger] code.drop_last()[k]) is IfI32
                || code.drop_last()[k] is IfEmpty || code.drop_last()[k] is Else || code.drop_last()[k] is End) by {
                assert(code.drop_last()[k] == code[k]);
            }
        }
        lemma_wplain_skips(env, code.drop_last(), m);
        assert(code.last() == code[code.len() - 1]);
    }
}

proof fn lemma_wactive_push(m: WMachine, f: Frame)
    ensures
        wactive(WMachine { frames: m.frames.push(f), ..m }) == (wactive(m) && frame_active(f)),
{
    let m2 = WMachine { frames: m.frames.push(f), ..m };
    if wactive(m) && frame_active(f) {
        assert forall|k: int| 0 <= k < m2.frames.len() implies frame_active(#[trigger] m2.frames[k]) by {
            if k < m.frames.len() {
                assert(m2.frames[k] == m.frames[k]);
            }
        }
    }
    if wactive(m2) {
        assert(frame_active(m2.frames[m.frames.len() as int]));
        assert forall|k: int| 0 <= k < m.frames.len() implies frame_active(#[trigger] m.frames[k]) by {
            assert(m2.frames[k] == m.frames[k]);
        }
    }
}

proof fn lemma_node_code_plain(p: Params, n: Node)
    requires
        !(n is Conditional),
    ensures
        wplain(node_write_code(p, n)),
{
    let code = node_write_code(p, n);
    assert forall|k: int| 0 <= k < code.len() implies !((#[trigger] code[k]) is IfI32 || code[k] is IfEmpty || code[k] is Else
        || code[k] is End) by {
        match n {
            Node::Text { index, text } => {},
            Node::Parameter { name } => {
                let i = pos(p.texts(), name.value@);
                let a = seq![Instr::LocalGet(cursor_local(p))] + push_text_field_code(p, i, 0);
                let b = a + push_text_field_code(p, i, 1) + seq![Instr::MemoryCopy];
                let c = b + push_text_field_code(p, i, 1);
                assert(code == c + advance_code(p));
            },
            _ => {},
        }
    }
}

/// Write code that does not run changes nothing.
pub proof fn lemma_write_skips(env: WEnv, p: Params, s: Seq<Node>, m: WMachine)
    requires
        !wactive(m),
    ensures
        wrun(env, write_code(p, s), m) == m,
    decreases s, 1int,
{
    if s.len() > 0 {
        lemma_write_skips(env, p, s.drop_last(), m);
        lemma_wrun_concat(env, write_code(p, s.drop_last()), node_write_code(p, s.last()), m);
        lemma_node_write_skips(env, p, s.last(), m);
    }
}

pub proof fn lemma_node_write_skips(env: WEnv, p: Params, n: Node, m: WMachine)
    requires
        !wactive(m),
    ensures
        wrun(env, node_write_code(p, n), m) == m,
    decreases n, 0int,
{
    match n {
        Node::Conditional { cond_ident, contents, .. } => {
            let c = push_cond_code(p, pos(p.conds(), cond_ident.value@));
            let body = write_code(p, contents@);
            let tail = seq![Instr::Else, Instr::End];
            assert(node_write_code(p, n) == c + seq![Instr::IfEmpty] + body + tail);
            lemma_wrun_concat(env, c + seq![Instr::IfEmpty] + body, tail, m);
            lemma_wrun_concat(env, c + seq![Instr::IfEmpty], body, m);
            lemma_wrun_concat(env, c, seq![Instr::IfEmpty], m);
            lemma_wplain_skips(env, c, m);
            lemma_wrun_one(env, Instr::IfEmpty, m);
            let dead = Frame { then_active: false, else_active: false, in_else: false };
            let m1 = wstep(env, m, Instr::IfEmpty);
            assert(m1 == WMachine { frames: m.frames.push(dead), ..m });
            lemma_wactive_push(m, dead);
            lemma_write_skips(env, p, contents@, m1);
            lemma_wrun_two(env, Instr::Else, Instr::End, m1);
            let m2 = wstep(env, m1, Instr::Else);
            assert(m2.frames =~= m.frames.push(Frame { then_active: false, else_active: false, in_else: true }));
            let m3 = wstep(env, m2, Instr::End);
            assert(m3.frames =~= m.frames);
            assert(m3 == m);
        },
        _ => {
            lemma_node_code_plain(p, n);
            lemma_wplain_skips(env, node_write_code(p, n), m);
        },
    }
}

/// The value the function reads for field `f` (0: address, 1: length) of text parameter `i`.
pub open spec fn field_at(p: Params, env: WEnv, locals: Map<u32, int>, i: int, f: int) -> int {
    if p.spills() {
        (env.load32)(locals[0] + ((8 * i + 4 * f) as i32) as int)
    } else {
        locals[(2 * i + f) as u32]
    }
}

/// The value the function reads for condition parameter `j`.
pub open spec fn flag_at(p: Params, env: WEnv, locals: Map<u32, int>, j: int) -> int {
    if p.spills() {
        (env.load8)(locals[0] + ((8 * p.texts().len() + j) as i32) as int)
    } else {
        locals[(2 * p.texts().len() + j) as u32]
    }
}

/// The arguments in `locals` carry, for each text parameter, the address and length of its
/// value `texts` in the caller's memory, and for each condition a flag set exactly when
/// `conds` holds.
pub open spec fn args_match(
    p: Params,
    env: WEnv,
    locals: Map<u32, int>,
    texts: spec_fn(Seq<u8>) -> Seq<u8>,
    conds: spec_fn(Seq<u8>) -> bool,
) -> bool {
    &&& forall|i: int|
        0 <= i < p.texts().len() ==> (env.read)(#[trigger] field_at(p, env, locals, i, 0), field_at(p, env, locals, i, 1))
            == texts(p.texts()[i]) && field_at(p, env, locals, i, 1) == texts(p.texts()[i]).len()
    &&& forall|j: int| 0 <= j < p.conds().len() ==> (#[trigger] flag_at(p, env, locals, j) != 0) == conds(p.conds()[j])
}

/// Every literal run of `s`, blocks included, is held by the data segment of its number.
pub open spec fn segments_hold(segs: Seq<Seq<u8>>, s: Seq<Node>) -> bool
    decreases s,
{
    s.len() == 0 || (segments_hold(segs, s.drop_last()) && match s.last() {
        Node::Text { index, text } => (index as u32) < segs.len() && segs[(index as u32) as int] == text.value@,
        Node::Conditional { contents, .. } => segments_hold(segs, contents@),
        _ => true,
    })
}

/// `m` after writing `bytes` at the cursor `c` and moving the cursor past them.
pub open spec fn after_write(p: Params, m: WMachine, c: int, bytes: Seq<u8>) -> WMachine {
    WMachine {
        stack: m.stack,
        frames: m.frames,
        locals: m.locals.insert(cursor_local(p), c + bytes.len()),
        mem: write_bytes(m.mem, c, bytes),
        words: m.words,
    }
}

proof fn lemma_write_bytes_concat(mem: Map<int, u8>, c: int, x: Seq<u8>, y: Seq<u8>)
    ensures
        write_bytes(write_bytes(mem, c, x), c + x.len(), y) == write_bytes(mem, c, x + y),
{
    assert(write_bytes(write_bytes(mem, c, x), c + x.len(), y) =~= write_bytes(mem, c, x + y));
}

proof fn lemma_write_bytes_empty(mem: Map<int, u8>, c: int)
    ensures
        write_bytes(mem, c, Seq::<u8>::empty()) == mem,
{
    assert(write_bytes(mem, c, Seq::<u8>::empty()) =~= mem);
}

/// Moving the cursor keeps the arguments: the cursor is past every argument local.
proof fn lemma_args_keep(
    p: Params,
    env: WEnv,
    locals: Map<u32, int>,
    v: int,
    texts: spec_fn(Seq<u8>) -> Seq<u8>,
    conds: spec_fn(Seq<u8>) -> bool,
)
    requires
        p.wf(),
        args_len(p) + 3 <= u32::MAX,
        args_match(p, env, locals, texts, conds),
    ensures
        args_match(p, env, locals.insert(cursor_local(p), v), texts, conds),
{
    let l2 = locals.insert(cursor_local(p), v);
    assert forall|i: int, f: int| 0 <= i < p.texts().len() && 0 <= f <= 1 implies field_at(p, env, l2, i, f)
        == field_at(p, env, locals, i, f) by {
        if p.spills() {
            assert(cursor_local(p) == 4);
        } else {
            assert((2 * i + f) as u32 != cursor_local(p));
        }
    }
    assert forall|j: int| 0 <= j < p.conds().len() implies flag_at(p, env, l2, j) == flag_at(p, env, locals, j) by {
        if !p.spills() {
            assert((2 * p.texts().len() + j) as u32 != cursor_local(p));
        }
    }
    assert forall|i: int| 0 <= i < p.texts().len() implies (env.read)(#[trigger] field_at(p, env, l2, i, 0), field_at(p, env, l2, i, 1))
        == texts(p.texts()[i]) && field_at(p, env, l2, i, 1) == texts(p.texts()[i]).len() by {
        assert(field_at(p, env, l2, i, 0) == field_at(p, env, locals, i, 0));
        assert(field_at(p, env, l2, i, 1) == field_at(p, env, locals, i, 1));
    }
    assert forall|j: int| 0 <= j < p.conds().len() implies (#[trigger] flag_at(p, env, l2, j) != 0) == conds(p.conds()[j]) by {
        assert(flag_at(p, env, l2, j) == flag_at(p, env, locals, j));
    }
}

proof fn lemma_wpush_field(env: WEnv, p: Params, i: int, f: int, m: WMachine)
    requires
        wactive(m),
    ensures
        wrun(env, push_text_field_code(p, i, f), m) == (WMachine {
            stack: m.stack.push(field_at(p, env, m.locals, i, f)),
            ..m
        }),
{
    if p.spills() {
        let k = (8 * i + 4 * f) as i32;
        let a = seq![Instr::LocalGet(0)];
        let b = seq![Instr::I32Const(k), Instr::I32Add, Instr::I32Load { align: 2 }];
        assert(push_text_field_code(p, i, f) =~= a + b);
        lemma_wrun_concat(env, a, b, m);
        lemma_wrun_one(env, Instr::LocalGet(0), m);
        let m1 = wrun(env, a, m);
        lemma_wrun_three(env, Instr::I32Const(k), Instr::I32Add, Instr::I32Load { align: 2 }, m1);
        let m3 = wstep(env, wstep(env, m1, Instr::I32Const(k)), Instr::I32Add);
        assert(m3.stack =~= m.stack.push(m.locals[0] + k as int));
        let m4 = wstep(env, m3, Instr::I32Load { align: 2 });
        assert(m4.stack =~= m.stack.push(field_at(p, env, m.locals, i, f)));
    } else {
        lemma_wrun_one(env, Instr::LocalGet((2 * i + f) as u32), m);
    }
}

proof fn lemma_wpush_flag(env: WEnv, p: Params, j: int, m: WMachine)
    requires
        wactive(m),
    ensures
        wrun(env, push_cond_code(p, j), m) == (WMachine { stack: m.stack.push(flag_at(p, env, m.locals, j)), ..m }),
{
    if p.spills() {
        let k = (8 * p.texts().len() + j) as i32;
        let a = seq![Instr::LocalGet(0)];
        let b = seq![Instr::I32Const(k), Instr::I32Add, Instr::I32Load8U { align: 0 }];
        assert(push_cond_code(p, j) =~= a + b);
        lemma_wrun_concat(env, a, b, m);
        lemma_wrun_one(env, Instr::LocalGet(0), m);
        let m1 = wrun(env, a, m);
        lemma_wrun_three(env, Instr::I32Const(k), Instr::I32Add, Instr::I32Load8U { align: 0 }, m1);
        let m3 = wstep(env, wstep(env, m1, Instr::I32Const(k)), Instr::I32Add);
        assert(m3.stack =~= m.stack.push(m.locals[0] + k as int));
        let m4 = wstep(env, m3, Instr::I32Load8U { align: 0 });
        assert(m4.stack =~= m.stack.push(flag_at(p, env, m.locals, j)));
    } else {
        lemma_wrun_one(env, Instr::LocalGet((2 * p.texts().len() + j) as u32), m);
    }
}

/// The cursor advance adds the length on the stack to the cursor.
proof fn lemma_advance(env: WEnv, p: Params, m: WMachine, len: int)
    requires
        wactive(m),
        m.locals.dom().contains(cursor_local(p)),
    ensures
        wrun(env, advance_code(p), WMachine { stack: m.stack.push(len), ..m }) == (WMachine {
            locals: m.locals.insert(cursor_local(p), len + m.locals[cursor_local(p)]),
            ..m
        }),
{
    let cur = cursor_local(p);
    let m0 = WMachine { stack: m.stack.push(len), ..m };
    lemma_wrun_three(env, Instr::LocalGet(cur), Instr::I32Add, Instr::LocalSet(cur), m0);
    let m1 = wstep(env, m0, Instr::LocalGet(cur));
    let m2 = wstep(env, m1, Instr::I32Add);
    assert(m2.stack =~= m.stack.push(len + m.locals[cur]));
    let m3 = wstep(env, m2, Instr::LocalSet(cur));
    assert(m3.stack =~= m.stack);
}

/// What the write lemmas assume of the machine and the template.
pub open spec fn write_ready(
    env: WEnv,
    p: Params,
    s: Seq<Node>,
    texts: spec_fn(Seq<u8>) -> Seq<u8>,
    conds: spec_fn(Seq<u8>) -> bool,
    m: WMachine,
) -> bool {
    &&& wactive(m)
    &&& p.wf()
    &&& args_len(p) + 3 <= u32::MAX
    &&& names_within(p, s)
    &&& sizes_fit(s)
    &&& segments_hold(env.segments, s)
    &&& m.locals.dom().contains(cursor_local(p))
    &&& args_match(p, env, m.locals, texts, conds)
}

/// Writing a literal run or a parameter writes its text at the cursor.
proof fn lemma_leaf_writes(
    env: WEnv,
    p: Params,
    s: Seq<Node>,
    texts: spec_fn(Seq<u8>) -> Seq<u8>,
    conds: spec_fn(Seq<u8>) -> bool,
    m: WMachine,
)
    requires
        s.len() > 0,
        !(s.last() is Conditional),
        write_ready(env, p, s, texts, conds, m),
    ensures
        wrun(env, node_write_code(p, s.last()), m) == after_write(
            p,
            m,
            m.locals[cursor_local(p)],
            render(s, texts, conds).subrange(render(s.drop_last(), texts, conds).len() as int, render(s, texts, conds).len() as int),
        ),
{
    let cur = cursor_local(p);
    let c = m.locals[cur];
    let r0 = render(s.drop_last(), texts, conds);
    let r = render(s, texts, conds);
    lemma_prefix_facts(p, s);
    match s.last() {
        Node::Text { index, text } => {
            let bytes = text.value@;
            assert(r.subrange(r0.len() as int, r.len() as int) =~= bytes);
            lemma_base_nonneg(s.drop_last());
            let len = bytes.len() as int;
            let l = len as i32;
            assert(l as int == len);
            let a = seq![Instr::LocalGet(cur), Instr::I32Const(0), Instr::I32Const(l)];
            let b = seq![Instr::MemoryInit { data_index: index as u32 }, Instr::I32Const(l)];
            assert(node_write_code(p, s.last()) =~= a + b + advance_code(p));
            lemma_wrun_concat(env, a + b, advance_code(p), m);
            lemma_wrun_concat(env, a, b, m);
            lemma_wrun_three(env, Instr::LocalGet(cur), Instr::I32Const(0), Instr::I32Const(l), m);
            let m1 = wrun(env, a, m);
            assert(m1.stack =~= m.stack.push(c).push(0).push(len));
            lemma_wrun_two(env, Instr::MemoryInit { data_index: index as u32 }, Instr::I32Const(l), m1);
            let m2 = wstep(env, m1, Instr::MemoryInit { data_index: index as u32 });
            assert(m2.stack =~= m.stack);
            assert(env.segments[(index as u32) as int].subrange(0, len) =~= bytes);
            let mw = WMachine { mem: write_bytes(m.mem, c, bytes), ..m };
            assert(m2 == mw);
            lemma_advance(env, p, mw, len);
            assert(m.locals.insert(cur, len + c) == m.locals.insert(cur, c + bytes.len()));
        },
        Node::Parameter { name } => {
            let i = pos(p.texts(), name.value@);
            assert(s[s.len() - 1] == s.last());
            lemma_names_at(s, s.len() - 1);
            assert(p.texts().to_set().contains(name.value@));
            assert(0 <= i < p.texts().len() && p.texts()[i] == name.value@);
            let bytes = texts(name.value@);
            assert(r.subrange(r0.len() as int, r.len() as int) =~= bytes);
            let ptr = field_at(p, env, m.locals, i, 0);
            let len = field_at(p, env, m.locals, i, 1);
            assert((env.read)(ptr, len) == bytes && len == bytes.len());
            let pc = push_text_field_code(p, i, 0);
            let lc = push_text_field_code(p, i, 1);
            let a = seq![Instr::LocalGet(cur)];
            let code = a + pc + lc + seq![Instr::MemoryCopy] + lc;
            assert(node_write_code(p, s.last()) == code + advance_code(p));
            lemma_wrun_concat(env, code, advance_code(p), m);
            lemma_wrun_concat(env, a + pc + lc + seq![Instr::MemoryCopy], lc, m);
            lemma_wrun_concat(env, a + pc + lc, seq![Instr::MemoryCopy], m);
            lemma_wrun_concat(env, a + pc, lc, m);
            lemma_wrun_concat(env, a, pc, m);
            lemma_wrun_one(env, Instr::LocalGet(cur), m);
            let m1 = wrun(env, a, m);
            assert(m1 == WMachine { stack: m.stack.push(c), ..m });
            lemma_wpush_field(env, p, i, 0, m1);
            let m2 = wrun(env, pc, m1);
            lemma_wpush_field(env, p, i, 1, m2);
            let m3 = wrun(env, lc, m2);
            assert(m3.stack =~= m.stack.push(c).push(ptr).push(len));
            lemma_wrun_one(env, Instr::MemoryCopy, m3);
            let m4 = wstep(env, m3, Instr::MemoryCopy);
            assert(m4.stack =~= m.stack);
            let mw = WMachine { mem: write_bytes(m.mem, c, bytes), ..m };
            assert(m4 == mw);
            lemma_wpush_field(env, p, i, 1, mw);
            lemma_advance(env, p, mw, len);
        },
        _ => {},
    }
}

/// The write code of `s` writes the rendered text at the cursor and moves the cursor past it.
proof fn lemma_write_runs(
    env: WEnv,
    p: Params,
    s: Seq<Node>,
    texts: spec_fn(Seq<u8>) -> Seq<u8>,
    conds: spec_fn(Seq<u8>) -> bool,
    m: WMachine,
)
    requires
        write_ready(env, p, s, texts, conds, m),
    ensures
        wrun(env, write_code(p, s), m) == after_write(p, m, m.locals[cursor_local(p)], render(s, texts, conds)),
    decreases s,
{
    let cur = cursor_local(p);
    let c = m.locals[cur];
    if s.len() == 0 {
        lemma_write_bytes_empty(m.mem, c);
        assert(m.locals.insert(cur, c + 0) =~= m.locals);
        assert(render(s, texts, conds) =~= Seq::<u8>::empty());
    } else {
        let pre = s.drop_last();
        lemma_prefix_facts(p, s);
        let r0 = render(pre, texts, conds);
        let r = render(s, texts, conds);
        let part = r.subrange(r0.len() as int, r.len() as int);
        assert(r =~= r0 + part);
        lemma_write_runs(env, p, pre, texts, conds, m);
        lemma_wrun_concat(env, write_code(p, pre), node_write_code(p, s.last()), m);
        let m1 = wrun(env, write_code(p, pre), m);
        assert(m1 == after_write(p, m, c, r0));
        lemma_args_keep(p, env, m.locals, c + r0.len(), texts, conds);
        assert(wactive(m1)) by {
            assert(m1.frames == m.frames);
        }
        let c1 = c + r0.len();
        assert(m1.locals[cur] == c1);
        if s.last() is Conditional {
            lemma_cond_writes(env, p, s, texts, conds, m1);
        } else {
            lemma_leaf_writes(env, p, s, texts, conds, m1);
        }
        lemma_write_bytes_concat(m.mem, c, r0, part);
        assert(m.locals.insert(cur, c1).insert(cur, c1 + part.len()) =~= m.locals.insert(cur, c + r.len()));
    }
}

/// A conditional block writes its contents' rendering when its flag is set, and nothing
/// otherwise.
proof fn lemma_cond_writes(
    env: WEnv,
    p: Params,
    s: Seq<Node>,
    texts: spec_fn(Seq<u8>) -> Seq<u8>,
    conds: spec_fn(Seq<u8>) -> bool,
    m: WMachine,
)
    requires
        s.len() > 0,
        s.last() is Conditional,
        write_ready(env, p, s, texts, conds, m),
    ensures
        wrun(env, node_write_code(p, s.last()), m) == after_write(
            p,
            m,
            m.locals[cursor_local(p)],
            render(s, texts, conds).subrange(render(s.drop_last(), texts, conds).len() as int, render(s, texts, conds).len() as int),
        ),
    decreases s, 0int,
{
    let cur = cursor_local(p);
    let c = m.locals[cur];
    let r0 = render(s.drop_last(), texts, conds);
    let r = render(s, texts, conds);
    lemma_prefix_facts(p, s);
    match s.last() {
        Node::Conditional { cond_ident, contents, .. } => {
            let name = cond_ident.value@;
            let j = pos(p.conds(), name);
            assert(p.conds().to_set().contains(name));
            assert(0 <= j < p.conds().len() && p.conds()[j] == name);
            let x = flag_at(p, env, m.locals, j);
            assert((x != 0) == conds(name));
            let part = r.subrange(r0.len() as int, r.len() as int);
            let cc = push_cond_code(p, j);
            let body = write_code(p, contents@);
            let tail = seq![Instr::Else, Instr::End];
            assert(node_write_code(p, s.last()) == cc + seq![Instr::IfEmpty] + body + tail);
            lemma_wrun_concat(env, cc + seq![Instr::IfEmpty] + body, tail, m);
            lemma_wrun_concat(env, cc + seq![Instr::IfEmpty], body, m);
            lemma_wrun_concat(env, cc, seq![Instr::IfEmpty], m);
            lemma_wpush_flag(env, p, j, m);
            let m0 = wrun(env, cc, m);
            lemma_wrun_one(env, Instr::IfEmpty, m0);
            let f = Frame { then_active: x != 0, else_active: x == 0, in_else: false };
            let fe = Frame { then_active: x != 0, else_active: x == 0, in_else: true };
            let m1 = wstep(env, m0, Instr::IfEmpty);
            assert(m0.stack.drop_last() =~= m.stack);
            assert(m1 == WMachine { frames: m.frames.push(f), ..m });
            lemma_wactive_push(m, f);
            if x != 0 {
                let rc = render(contents@, texts, conds);
                assert(part =~= rc);
                lemma_write_runs(env, p, contents@, texts, conds, m1);
                let mb = wrun(env, body, m1);
                lemma_wrun_two(env, Instr::Else, Instr::End, mb);
                let m2 = wstep(env, mb, Instr::Else);
                assert(m2.frames =~= m.frames.push(fe));
                let m3 = wstep(env, m2, Instr::End);
                assert(m3.frames =~= m.frames);
                assert(m3 == after_write(p, m, c, part));
            } else {
                assert(part =~= Seq::<u8>::empty());
                lemma_write_skips(env, p, contents@, m1);
                lemma_wrun_two(env, Instr::Else, Instr::End, m1);
                let m2 = wstep(env, m1, Instr::Else);
                assert(m2.frames =~= m.frames.push(fe));
                let m3 = wstep(env, m2, Instr::End);
                assert(m3.frames =~= m.frames);
                lemma_write_bytes_empty(m.mem, c);
                assert(m.locals.insert(cur, c + 0) =~= m.locals);
                assert(m3 == after_write(p, m, c, part));
            }
        },
        _ => {},
    }
}

proof fn lemma_segments_hold_at(segs: Seq<Seq<u8>>, s: Seq<Node>, off: int)
    requires
        0 <= off,
        off + text_entries(s).len() <= segs.len() <= u32::MAX + 1,
        forall|k: int| 0 <= k < text_entries(s).len() ==> #[trigger] text_entries(s)[k] == (off + k, segs[off + k]),
    ensures
        segments_hold(segs, s),
    decreases s,
{
    if s.len() > 0 {
        let pre = s.drop_last();
        let ep = text_entries(pre);
        let es = text_entries(s);
        assert forall|k: int| 0 <= k < ep.len() implies #[trigger] ep[k] == (off + k, segs[off + k]) by {
            assert(es[k] == ep[k]);
        }
        lemma_segments_hold_at(segs, pre, off);
        match s.last() {
            Node::Text { index, text } => {
                assert(es[ep.len() as int] == (index as int, text.value@));
            },
            Node::Conditional { contents, .. } => {
                assert(s[s.len() - 1] == s.last());
                let ec = text_entries(contents@);
                assert forall|k: int| 0 <= k < ec.len() implies #[trigger] ec[k] == (off + ep.len() + k, segs[off + ep.len() + k]) by {
                    assert(es[ep.len() + k] == ec[k]);
                }
                lemma_segments_hold_at(segs, contents@, off + ep.len());
            },
            _ => {},
        }
    }
}

/// In a template whose literal runs are numbered in source order, every literal run is held
/// by the data segment of its number, when the segments are the template's literal runs in
/// order (as the generator's data section holds them).
pub proof fn lemma_parsed_segments_hold(s: Seq<Node>)
    requires
        is_numbering(text_indices(s)),
        text_runs(s).len() <= u32::MAX,
    ensures
        segments_hold(text_runs(s), s),
{
    lemma_text_entries(s);
    let es = text_entries(s);
    assert forall|k: int| 0 <= k < es.len() implies #[trigger] es[k] == (0 + k, text_runs(s)[0 + k]) by {
        assert(text_indices(s)[k] == k);
    }
    lemma_segments_hold_at(text_runs(s), s, 0);
}

/// For a template whose literal runs are numbered in source order, run with the data
/// segments the generator emits and with a parameter record that carries the values
/// `texts` and the flags `conds`: the compiled function's write code writes exactly the
/// rendered text at the cursor, and leaves the cursor just past it. Literal text is copied
/// unchanged, each parameter reference is replaced by its value, and each conditional block
/// contributes its contents when its flag is set and nothing otherwise.
pub proof fn lemma_write_code_correct(
    env: WEnv,
    p: Params,
    s: Seq<Node>,
    texts: spec_fn(Seq<u8>) -> Seq<u8>,
    conds: spec_fn(Seq<u8>) -> bool,
    m: WMachine,
)
    requires
        wactive(m),
        p.wf(),
        args_len(p) + 3 <= u32::MAX,
        names_within(p, s),
        sizes_fit(s),
        is_numbering(text_indices(s)),
        text_runs(s).len() <= u32::MAX,
        env.segments == text_runs(s),
        m.locals.dom().contains(cursor_local(p)),
        args_match(p, env, m.locals, texts, conds),
    ensures
        wrun(env, write_code(p, s), m) == after_write(p, m, m.locals[cursor_local(p)], render(s, texts, conds)),
{
    lemma_parsed_segments_hold(s);
    lemma_write_runs(env, p, s, texts, conds, m);
}

} // verus!
