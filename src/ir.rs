//! The template tree produced by the parser and consumed by the generator.
use vstd::prelude::*;

verus! {

/// A region of the source text, as a byte offset and a byte length.
#[derive(Clone, Copy, Debug, PartialEq, Eq, Structural)]
pub struct Span {
    pub offset: usize,
    pub len: usize,
}

impl Span {
    pub fn new(offset: usize, len: usize) -> (r: Span)
        ensures
            r.offset == offset,
            r.len == len,
    {
        Span { offset, len }
    }
}

/// A value together with the source region it was read from.
#[derive(Debug)]
pub struct M<T> {
    pub span: Span,
    pub value: T,
}

impl<T> M<T> {
    pub fn new(value: T, span: Span) -> (r: Self)
        ensures
            r.value == value,
            r.span == span,
    {
        M { span, value }
    }
}

/// One node of the template tree.
#[derive(Debug)]
pub enum Node {
    /// A literal run; `index` numbers the literal runs of the file in source order.
    Text { index: usize, text: M<Vec<u8>> },
    /// A `{{ name }}` hole.
    Parameter { name: M<Vec<u8>> },
    /// An `{% if name %} ... {% endif %}` block.
    Conditional { if_kwd: Span, cond_ident: M<Vec<u8>>, contents: Vec<Node>, endif_kwd: Span },
}

/// A parsed template.
#[derive(Debug)]
pub struct FileData {
    pub contents: Vec<Node>,
}

/// The names used as text parameters anywhere in `s`, nested blocks included.
pub open spec fn text_names(s: Seq<Node>) -> Set<Seq<u8>>
    decreases s,
{
    if s.len() == 0 {
        Set::empty()
    } else {
        let rest = text_names(s.drop_first());
        match s[0] {
            Node::Parameter { name } => rest.insert(name.value@),
            Node::Conditional { contents, .. } => text_names(contents@).union(rest),
            Node::Text { .. } => rest,
        }
    }
}

/// The names used as condition parameters anywhere in `s`, nested blocks included.
pub open spec fn cond_names(s: Seq<Node>) -> Set<Seq<u8>>
    decreases s,
{
    if s.len() == 0 {
        Set::empty()
    } else {
        let rest = cond_names(s.drop_first());
        match s[0] {
            Node::Conditional { cond_ident, contents, .. } => cond_names(contents@).union(rest).insert(
                cond_ident.value@,
            ),
            _ => rest,
        }
    }
}

/// The number of nodes in `s`, nested blocks included.
pub open spec fn node_count(s: Seq<Node>) -> nat
    decreases s,
{
    if s.len() == 0 {
        0
    } else {
        let rest = node_count(s.drop_first());
        match s[0] {
            Node::Conditional { contents, .. } => 1 + node_count(contents@) + rest,
            _ => 1 + rest,
        }
    }
}

pub proof fn lemma_names_concat(a: Seq<Node>, b: Seq<Node>)
    ensures
        text_names(a + b) == text_names(a).union(text_names(b)),
        cond_names(a + b) == cond_names(a).union(cond_names(b)),
        node_count(a + b) == node_count(a) + node_count(b),
    decreases a.len(),
{
    if a.len() == 0 {
        assert(a + b =~= b);
        assert(text_names(a).union(text_names(b)) =~= text_names(b));
        assert(cond_names(a).union(cond_names(b)) =~= cond_names(b));
    } else {
        assert((a + b).drop_first() =~= a.drop_first() + b);
        assert((a + b)[0] == a[0]);
        lemma_names_concat(a.drop_first(), b);
        assert(text_names(a + b) =~= text_names(a).union(text_names(b)));
        assert(cond_names(a + b) =~= cond_names(a).union(cond_names(b)));
    }
}

/// Splits off the last node of `s`, the step a left-to-right walk takes.
pub proof fn lemma_names_push(s: Seq<Node>, i: int)
    requires
        0 <= i < s.len(),
    ensures
        text_names(s.subrange(0, i + 1)) == text_names(s.subrange(0, i)).union(
            text_names(seq![s[i]]),
        ),
        cond_names(s.subrange(0, i + 1)) == cond_names(s.subrange(0, i)).union(
            cond_names(seq![s[i]]),
        ),
        node_count(s.subrange(0, i + 1)) == node_count(s.subrange(0, i)) + node_count(seq![s[i]]),
{
    assert(s.subrange(0, i + 1) =~= s.subrange(0, i) + seq![s[i]]);
    lemma_names_concat(s.subrange(0, i), seq![s[i]]);
}

} // verus!
