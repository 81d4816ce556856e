//! The size limits the generator works within: literal lengths and node counts become i32
//! constants, and the spilled record's offsets are 32-bit.
use vstd::prelude::*;
use crate::ir::{Node, node_count, lemma_names_concat, lemma_names_push, text_names, cond_names};
use crate::gen::encode::NAME_LIMIT;
use crate::gen::code::lemma_names_at;
use crate::gen::code::{sizes_fit, nested_fit, base_len, lemma_base_prefix, lemma_nested_at};

verus! {

/// The most nodes a template may have: eight bytes of record per node must fit in 32 bits.
pub const NODE_CAP: usize = 536870911;

/// Every parameter name of `s` is short enough to be encoded.
pub open spec fn names_short(s: Seq<Node>) -> bool {
    forall|x: Seq<u8>| (text_names(s).contains(x) || cond_names(s).contains(x)) ==> x.len() <= NAME_LIMIT
}

/// `s` is within the generator's limits.
pub open spec fn within(s: Seq<Node>) -> bool {
    sizes_fit(s) && node_count(s) <= NODE_CAP && names_short(s)
}

proof fn lemma_nested_prefix(s: Seq<Node>, k: int)
    requires
        nested_fit(s),
        0 <= k <= s.len(),
    ensures
        nested_fit(s.subrange(0, k)),
    decreases s.len() - k,
{
    if k < s.len() {
        lemma_nested_prefix(s, k + 1);
        assert(s.subrange(0, k + 1).drop_last() =~= s.subrange(0, k));
    } else {
        assert(s.subrange(0, k) =~= s);
    }
}

proof fn lemma_count_prefix(s: Seq<Node>, k: int)
    requires
        0 <= k <= s.len(),
    ensures
        node_count(s.subrange(0, k)) <= node_count(s),
{
    assert(s =~= s.subrange(0, k) + s.subrange(k, s.len() as int));
    lemma_names_concat(s.subrange(0, k), s.subrange(k, s.len() as int));
}

/// Whether the template `contents` is within the generator's limits.
pub fn within_limits(contents: &Vec<Node>) -> (r: bool)
    ensures
        r == within(contents@),
{
    count_within(contents.as_slice()).is_some()
}

/// The number of nodes of `seq`, if `seq` is within the limits.
fn count_within(seq: &[Node]) -> (r: Option<usize>)
    ensures
        r is Some <==> within(seq@),
        r is Some ==> r->0 == node_count(seq@),
    decreases seq@,
{
    let ghost s = seq@;
    if seq.len() > 2147483647 {
        return None;
    }
    let mut base: usize = 0;
    let mut count: usize = 0;
    let mut k: usize = 0;
    proof {
        assert(s.subrange(0, 0) =~= Seq::<Node>::empty());
    }
    while k < seq.len()
        invariant
            s == seq@,
            s.len() <= i32::MAX,
            0 <= k <= s.len(),
            base == base_len(s.subrange(0, k as int)),
            base <= i32::MAX,
            count == node_count(s.subrange(0, k as int)),
            count <= NODE_CAP,
            nested_fit(s.subrange(0, k as int)),
            names_short(s.subrange(0, k as int)),
        decreases s.len() - k,
    {
        let ghost pre = s.subrange(0, k as int);
        let ghost pre1 = s.subrange(0, k + 1);
        proof {
            assert(pre1.drop_last() =~= pre);
            assert(pre1.last() == s[k as int]);
            lemma_names_push(s, k as int);
            lemma_names_at(s, k as int);
            let one = seq![s[k as int]];
            assert(one.drop_first() =~= Seq::<Node>::empty());
            assert(node_count(one.drop_first()) == 0);
            assert(text_names(one.drop_first()) =~= Set::empty());
            assert(cond_names(one.drop_first()) =~= Set::empty());
            lemma_count_prefix(s, k + 1);
            lemma_base_prefix(s, k + 1);
        }
        match &seq[k] {
            Node::Text { index: _, text } => {
                if text.value.len() > 2147483647 - base {
                    return None;
                }
                base = base + text.value.len();
                if count >= NODE_CAP {
                    return None;
                }
                count = count + 1;
            },
            Node::Parameter { name } => {
                if count >= NODE_CAP || name.value.len() > 268435455 {
                    return None;
                }
                count = count + 1;
            },
            Node::Conditional { if_kwd: _, cond_ident, contents, endif_kwd: _ } => {
                if cond_ident.value.len() > 268435455 {
                    return None;
                }
                match count_within(contents.as_slice()) {
                    None => {
                        proof {
                            if within(s) {
                                lemma_nested_at(s, k as int);
                            }
                        }
                        return None;
                    },
                    Some(inner) => {
                        if inner >= NODE_CAP - count {
                            return None;
                        }
                        count = count + 1 + inner;
                    },
                }
            },
        }
        proof {
            assert forall|x: Seq<u8>| (text_names(pre1).contains(x) || cond_names(pre1).contains(x)) implies x.len()
                <= NAME_LIMIT by {
                if text_names(pre).contains(x) || cond_names(pre).contains(x) {
                } else if text_names(s).contains(x) || cond_names(s).contains(x) {
                }
            }
        }
        k = k + 1;
    }
    proof {
        assert(s.subrange(0, s.len() as int) =~= s);
    }
    Some(count)
}

} // verus!
