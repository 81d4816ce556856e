//! What the generated code means, and the laws it obeys.
use vstd::prelude::*;
use crate::ir::{Node, text_names};
use crate::gen::code::{pos, base_len, count, names_within, lemma_pos, lemma_names_at, text_runs, text_indices};
use crate::tokens::is_numbering;
use crate::gen::template::Params;
use crate::order::strictly_sorted;

verus! {

/// The text a template renders to, given the value of each text parameter and each condition
/// by name.
pub open spec fn render(
    s: Seq<Node>,
    texts: spec_fn(Seq<u8>) -> Seq<u8>,
    conds: spec_fn(Seq<u8>) -> bool,
) -> Seq<u8>
    decreases s,
{
    if s.len() == 0 {
        seq![]
    } else {
        render(s.drop_last(), texts, conds) + match s.last() {
            Node::Text { text, .. } => text.value@,
            Node::Parameter { name } => texts(name.value@),
            Node::Conditional { cond_ident, contents, .. } => if conds(cond_ident.value@) {
                render(contents@, texts, conds)
            } else {
                seq![]
            },
        }
    }
}

/// The value the length code of the conditional blocks of `s` adds up.
pub open spec fn cond_sum_value(
    p: Params,
    s: Seq<Node>,
    texts: spec_fn(Seq<u8>) -> Seq<u8>,
    conds: spec_fn(Seq<u8>) -> bool,
) -> int
    decreases s, 0int,
{
    if s.len() == 0 {
        0
    } else {
        cond_sum_value(p, s.drop_last(), texts, conds) + match s.last() {
            Node::Conditional { cond_ident, contents, .. } => if conds(cond_ident.value@) {
                len_value(p, contents@, texts, conds)
            } else {
                0
            },
            _ => 0,
        }
    }
}

/// The value the parameter terms `0..n` of the length code of `s` add up: each parameter's
/// length times its number of occurrences.
pub open spec fn param_terms_value(p: Params, s: Seq<Node>, texts: spec_fn(Seq<u8>) -> Seq<u8>, n: int) -> int
    decreases n,
{
    if n <= 0 {
        0
    } else {
        param_terms_value(p, s, texts, n - 1) + count(s, p.texts()[n - 1]) * texts(p.texts()[n - 1]).len()
    }
}

/// The value the length code of `s` computes: the conditional blocks' lengths, the literal
/// bytes, and the parameters' contributions.
pub open spec fn len_value(
    p: Params,
    s: Seq<Node>,
    texts: spec_fn(Seq<u8>) -> Seq<u8>,
    conds: spec_fn(Seq<u8>) -> bool,
) -> int
    decreases s, 1int,
{
    cond_sum_value(p, s, texts, conds) + base_len(s) + param_terms_value(p, s, texts, p.texts().len() as int)
}

proof fn lemma_param_terms_empty(p: Params, s: Seq<Node>, texts: spec_fn(Seq<u8>) -> Seq<u8>, n: int)
    requires
        s.len() == 0,
    ensures
        param_terms_value(p, s, texts, n) == 0,
    decreases n,
{
    if n > 0 {
        lemma_param_terms_empty(p, s, texts, n - 1);
    }
}

/// Adding one node to `s` adds its parameter's length to the parameter terms, if it is a
/// parameter.
proof fn lemma_param_terms_step(p: Params, s: Seq<Node>, texts: spec_fn(Seq<u8>) -> Seq<u8>, n: int)
    requires
        strictly_sorted(p.texts()),
        s.len() > 0,
        0 <= n <= p.texts().len(),
        s.last() is Parameter ==> p.texts().contains(s.last()->Parameter_name.value@),
    ensures
        param_terms_value(p, s, texts, n) == param_terms_value(p, s.drop_last(), texts, n) + match s.last() {
            Node::Parameter { name } => if pos(p.texts(), name.value@) < n {
                texts(name.value@).len() as int
            } else {
                0
            },
            _ => 0,
        },
    decreases n,
{
    if n > 0 {
        lemma_param_terms_step(p, s, texts, n - 1);
        let pre = s.drop_last();
        let t = p.texts()[n - 1];
        let l = texts(t).len() as int;
        let a = count(pre, t);
        let c = count(s, t);
        assert(param_terms_value(p, s, texts, n) == param_terms_value(p, s, texts, n - 1) + c * l);
        assert(param_terms_value(p, pre, texts, n) == param_terms_value(p, pre, texts, n - 1) + a * l);
        lemma_pos(p.texts(), n - 1);
        match s.last() {
            Node::Parameter { name } => {
                let k = pos(p.texts(), name.value@);
                assert(0 <= k < p.texts().len() && p.texts()[k] == name.value@);
                if t == name.value@ {
                    assert(k == n - 1);
                    assert(c == a + 1);
                    assert(c * l == a * l + l) by (nonlinear_arith)
                        requires
                            c == a + 1,
                    ;
                } else {
                    assert(c == a);
                    assert(k != n - 1);
                }
            },
            _ => {
                assert(c == a);
            },
        }
    }
}

/// The length the compiled function computes before it allocates the result (its length
/// code evaluated on the parameter values) is the length of the rendered text.
pub proof fn lemma_length_precomputation(
    p: Params,
    s: Seq<Node>,
    texts: spec_fn(Seq<u8>) -> Seq<u8>,
    conds: spec_fn(Seq<u8>) -> bool,
)
    requires
        p.wf(),
        names_within(p, s),
    ensures
        len_value(p, s, texts, conds) == render(s, texts, conds).len(),
    decreases s,
{
    if s.len() == 0 {
        lemma_param_terms_empty(p, s, texts, p.texts().len() as int);
    } else {
        let pre = s.drop_last();
        let k = s.len() - 1;
        assert(s[k] == s.last());
        lemma_names_at(s, k);
        assert(pre =~= s.subrange(0, k));
        crate::ir::lemma_names_push(s, k);
        assert(s.subrange(0, k + 1) =~= s);
        assert(names_within(p, pre));
        lemma_length_precomputation(p, pre, texts, conds);
        lemma_param_terms_step(p, s, texts, p.texts().len() as int);
        match s.last() {
            Node::Parameter { name } => {
                let i = pos(p.texts(), name.value@);
                assert(text_names(s).contains(name.value@));
                assert(p.texts().to_set().contains(name.value@));
                assert(0 <= i < p.texts().len());
            },
            Node::Conditional { cond_ident, contents, .. } => {
                assert(names_within(p, contents@));
                lemma_length_precomputation(p, contents@, texts, conds);
            },
            _ => {},
        }
    }
}

/// The literal runs of `s` in source order, each with the number the lexer gave it.
pub open spec fn text_entries(s: Seq<Node>) -> Seq<(int, Seq<u8>)>
    decreases s,
{
    if s.len() == 0 {
        seq![]
    } else {
        text_entries(s.drop_last()) + match s.last() {
            Node::Text { index, text } => seq![(index as int, text.value@)],
            Node::Conditional { contents, .. } => text_entries(contents@),
            _ => seq![],
        }
    }
}

pub proof fn lemma_text_entries(s: Seq<Node>)
    ensures
        text_runs(s) == text_entries(s).map_values(|e: (int, Seq<u8>)| e.1),
        text_indices(s) == text_entries(s).map_values(|e: (int, Seq<u8>)| e.0),
    decreases s,
{
    if s.len() > 0 {
        lemma_text_entries(s.drop_last());
        match s.last() {
            Node::Conditional { contents, .. } => {
                assert(s[s.len() - 1] == s.last());
                lemma_text_entries(contents@);
            },
            _ => {},
        }
        assert(text_runs(s) =~= text_entries(s).map_values(|e: (int, Seq<u8>)| e.1));
        assert(text_indices(s) =~= text_entries(s).map_values(|e: (int, Seq<u8>)| e.0));
    }
}

/// In a template whose literal runs are numbered in source order (as the parser numbers
/// them), the `k`-th passive data segment holds exactly the bytes of the literal run
/// numbered `k`.
pub proof fn lemma_segment_indexing(s: Seq<Node>, k: int)
    requires
        is_numbering(text_indices(s)),
        0 <= k < text_runs(s).len(),
    ensures
        text_entries(s)[k] == (k, text_runs(s)[k]),
{
    lemma_text_entries(s);
    assert(text_indices(s)[k] == k);
}

} // verus!
