//! The parser: builds the template tree from the lexer's tokens.
use vstd::prelude::*;
use vstd::slice::slice_to_vec;
use crate::ir::{Span, M, Node, FileData};
use crate::tokens::{
    Token, TokenError, Tokenizer, text_numbers, is_numbering, tokens_ok, tokens_cover, plain_text, cover_upto,
    gap_ok, prev_end,
};
use crate::gen::code::{base_len, sizes_fit, nested_fit};
use crate::limits::names_short;
use crate::ir::node_count;
use crate::gen::code::text_indices;
use crate::gen::template::Params;
use crate::ir::{text_names, cond_names};
use crate::limits::{within, within_limits};

verus! {

/// Why a template could not be parsed.
#[derive(Clone, Copy, Debug, PartialEq, Eq, Structural)]
pub enum ParseError {
    /// The lexer stopped.
    Token(TokenError),
    /// A token that does not fit where it stands.
    Unexpected { span: Span },
    /// The tokens ended inside a construct.
    UnexpectedEnd,
    /// The template is beyond the generator's size limits.
    TooLarge,
    /// A name is used both as a text parameter and as a condition.
    SharedName,
}

/// The token is a delimiter or keyword, not an identifier or literal run.
pub open spec fn is_unit(t: Token) -> bool {
    !(t is Identifier) && !(t is Text)
}

/// A token with its contents as plain values.
pub enum TokenView {
    ParamStart,
    ParamEnd,
    CommandStart,
    CommandEnd,
    If,
    EndIf,
    Identifier(Seq<u8>),
    Text(int, Seq<u8>),
}

pub open spec fn token_view(t: Token) -> TokenView {
    match t {
        Token::ParamStart => TokenView::ParamStart,
        Token::ParamEnd => TokenView::ParamEnd,
        Token::CommandStart => TokenView::CommandStart,
        Token::CommandEnd => TokenView::CommandEnd,
        Token::If => TokenView::If,
        Token::EndIf => TokenView::EndIf,
        Token::Identifier { name } => TokenView::Identifier(name@),
        Token::Text { index, text } => TokenView::Text(index as int, text@),
    }
}

/// The tokens of a lexed source, without their spans.
pub open spec fn tokens_view(toks: Seq<(Span, Token)>) -> Seq<TokenView> {
    toks.map_values(|t: (Span, Token)| token_view(t.1))
}

/// The tokens that spell the nodes of `s`: a literal run is itself, a parameter is
/// `{{ name }}`, a block is `{% if name %} ... {% endif %}`.
pub open spec fn flatten(s: Seq<Node>) -> Seq<TokenView>
    decreases s,
{
    if s.len() == 0 {
        seq![]
    } else {
        flatten(s.drop_last()) + match s.last() {
            Node::Text { index, text } => seq![TokenView::Text(index as int, text.value@)],
            Node::Parameter { name } => seq![TokenView::ParamStart, TokenView::Identifier(name.value@), TokenView::ParamEnd],
            Node::Conditional { cond_ident, contents, .. } => seq![
                TokenView::CommandStart,
                TokenView::If,
                TokenView::Identifier(cond_ident.value@),
                TokenView::CommandEnd,
            ] + flatten(contents@) + seq![TokenView::CommandStart, TokenView::EndIf, TokenView::CommandEnd],
        }
    }
}

pub proof fn lemma_text_numbers_concat(a: Seq<(Span, Token)>, b: Seq<(Span, Token)>)
    ensures
        text_numbers(a + b) == text_numbers(a) + text_numbers(b),
    decreases b.len(),
{
    if b.len() == 0 {
        assert(a + b =~= a);
        assert(text_numbers(a) + text_numbers(b) =~= text_numbers(a));
    } else {
        assert((a + b).drop_last() =~= a + b.drop_last());
        lemma_text_numbers_concat(a, b.drop_last());
        assert(text_numbers(a + b) =~= text_numbers(a) + text_numbers(b));
    }
}

/// The literal-run numbers of `toks[i..j]`, extended by one token.
proof fn lemma_numbers_step(toks: Seq<(Span, Token)>, i: int, j: int)
    requires
        0 <= i <= j < toks.len(),
    ensures
        text_numbers(toks.subrange(i, j + 1)) == text_numbers(toks.subrange(i, j)) + match toks[j].1 {
            Token::Text { index, .. } => seq![index as int],
            _ => seq![],
        },
{
    assert(toks.subrange(i, j + 1).drop_last() =~= toks.subrange(i, j));
}

/// A stretch of tokens without literal runs contributes no numbers.
proof fn lemma_no_text(toks: Seq<(Span, Token)>, i: int, j: int)
    requires
        0 <= i <= j <= toks.len(),
        forall|k: int| i <= k < j ==> !((#[trigger] toks[k]).1 is Text),
    ensures
        text_numbers(toks.subrange(i, j)) == Seq::<int>::empty(),
    decreases j - i,
{
    if j > i {
        lemma_no_text(toks, i, j - 1);
        lemma_numbers_step(toks, i, j - 1);
        assert(text_numbers(toks.subrange(i, j)) =~= Seq::<int>::empty());
    } else {
        assert(toks.subrange(i, j) =~= Seq::<(Span, Token)>::empty());
    }
}

/// Splits `toks[i..k]` at `j`.
proof fn lemma_numbers_split(toks: Seq<(Span, Token)>, i: int, j: int, k: int)
    requires
        0 <= i <= j <= k <= toks.len(),
    ensures
        text_numbers(toks.subrange(i, k)) == text_numbers(toks.subrange(i, j)) + text_numbers(toks.subrange(j, k)),
{
    assert(toks.subrange(i, k) =~= toks.subrange(i, j) + toks.subrange(j, k));
    lemma_text_numbers_concat(toks.subrange(i, j), toks.subrange(j, k));
}

proof fn lemma_flatten_len(s: Seq<Node>)
    ensures
        flatten(s).len() >= s.len(),
    decreases s.len(),
{
    if s.len() > 0 {
        lemma_flatten_len(s.drop_last());
    }
}

/// A tree that spells a single literal run is that one node.
proof fn lemma_flatten_text(s: Seq<Node>)
    requires
        flatten(s).len() == 1,
        flatten(s)[0] is Text,
    ensures
        s.len() == 1,
        s[0] is Text,
        s[0]->Text_index as int == flatten(s)[0]->Text_0,
        s[0]->Text_text.value@ == flatten(s)[0]->Text_1,
{
    lemma_flatten_len(s);
    lemma_flatten_len(s.drop_last());
    if s.len() == 1 {
        assert(s.drop_last() =~= Seq::<Node>::empty());
        assert(s.last() == s[0]);
    }
}

/// `s` is a template tree read from `text`: spelled back as tokens, it is a token sequence
/// that accounts for the whole text; its literal runs are numbered in source order; it is
/// within the generator's limits; and no name is both a text parameter and a condition.
pub open spec fn parsed_from(text: Seq<u8>, s: Seq<Node>) -> bool {
    &&& exists|toks: Seq<(Span, Token)>|
        tokens_ok(text, toks, text.len() as int) && tokens_cover(text, toks) && #[trigger] tokens_view(toks) == flatten(s)
    &&& is_numbering(text_indices(s))
    &&& within(s)
    &&& text_names(s).disjoint(cond_names(s))
}

/// Parses a whole template. The tree, spelled back as tokens, is a token sequence that
/// accounts for the whole source; it numbers its literal runs in source order, is within the
/// generator's limits, and uses no name both as a text parameter and as a condition.
#[verifier::loop_isolation(false)]
pub fn parse_file(text: &[u8]) -> (r: Result<FileData, ParseError>)
    ensures
        r is Ok ==> parsed_from(text@, r->Ok_0.contents@),
        plain_text(text@) && text@.len() <= i32::MAX ==> r is Ok && flatten(r->Ok_0.contents@) == if text@.len() == 0 {
            Seq::<TokenView>::empty()
        } else {
            seq![TokenView::Text(0, text@)]
        },
{
    let tokens = match Tokenizer::new(text).tokenize() {
        Ok(tokens) => tokens,
        Err(e) => {
            return Err(ParseError::Token(e));
        },
    };
    let ghost plain = plain_text(text@) && text@.len() <= i32::MAX;
    proof {
        if plain && tokens@.len() > 0 {
            reveal(cover_upto);
            let t = tokens@[0];
            assert(gap_ok(text@, tokens@, 0, t.0.offset as int));
            assert(prev_end(tokens@, 1) == text@.len());
            assert(t.1 is Text);
            assert(tokens@.drop_last() =~= Seq::<(Span, Token)>::empty());
            assert(text_numbers(tokens@.drop_last()) =~= Seq::<int>::empty());
            assert(tokens@.last() == t);
            assert(text_numbers(tokens@) =~= seq![t.1->Text_index as int]);
            assert(text_numbers(tokens@)[0] == 0);
            assert(t.1->Text_text@ =~= text@);
            assert(tokens_view(tokens@) =~= seq![TokenView::Text(0, text@)]);
        }
        if plain && tokens@.len() == 0 {
            assert(tokens_view(tokens@) =~= Seq::<TokenView>::empty());
        }
    }
    let mut pos: usize = 0;
    let contents = parse_tokens(&tokens, &mut pos)?;
    if pos < tokens.len() {
        // an `endif` without its `if`
        return Err(ParseError::Unexpected { span: tokens[pos].0 });
    }
    proof {
        assert(tokens@.subrange(0, tokens@.len() as int) =~= tokens@);
        assert(tokens_view(tokens@).subrange(0, tokens@.len() as int) =~= tokens_view(tokens@));
    }
    proof {
        if plain {
            lemma_flatten_len(contents@);
            if tokens@.len() > 0 {
                assert(flatten(contents@) == tokens_view(tokens@));
                assert(flatten(contents@)[0] == TokenView::Text(0, text@));
                lemma_flatten_text(contents@);
                let n = contents@[0];
                assert(contents@.last() == n);
                assert(base_len(Seq::<Node>::empty()) == 0);
                assert(n->Text_text.value@ == text@);
                assert(contents@.drop_last() =~= Seq::<Node>::empty());
                assert(contents@.drop_first() =~= Seq::<Node>::empty());
                assert(base_len(contents@) == text@.len());
                assert(node_count(Seq::<Node>::empty()) == 0);
                assert(text_names(Seq::<Node>::empty()) =~= Set::empty());
                assert(cond_names(Seq::<Node>::empty()) =~= Set::empty());
                assert(node_count(contents@) == 1);
                assert(text_names(contents@) =~= Set::empty());
                assert(cond_names(contents@) =~= Set::empty());
                assert(nested_fit(contents@.drop_last()));
                assert(nested_fit(contents@));
            } else {
                assert(contents@ =~= Seq::<Node>::empty());
                assert(base_len(contents@) == 0);
                assert(node_count(contents@) == 0);
                assert(text_names(contents@) =~= Set::empty());
                assert(cond_names(contents@) =~= Set::empty());
            }
            assert(sizes_fit(contents@));
            assert(names_short(contents@));
            assert(within(contents@));
        }
    }
    if !within_limits(&contents) {
        return Err(ParseError::TooLarge);
    }
    let params = Params::new(&contents);
    proof {
        if plain {
            assert forall|x: Seq<u8>| !params.texts().contains(x) by {
                if params.texts().contains(x) {
                    assert(params.texts().to_set().contains(x));
                }
            }
        }
    }
    if params.shares_name() {
        return Err(ParseError::SharedName);
    }
    proof {
        assert forall|x: Seq<u8>| !(text_names(contents@).contains(x) && cond_names(contents@).contains(x)) by {
            if text_names(contents@).contains(x) && cond_names(contents@).contains(x) {
                assert(params.texts().to_set().contains(x));
                assert(params.conds().to_set().contains(x));
            }
        }
    }
    Ok(FileData { contents })
}

/// Parses nodes from `*pos` up to the end of the tokens or up to an `{% endif`, whose
/// `{%` it consumes.
#[verifier::loop_isolation(false)]
fn parse_tokens(tokens: &Vec<(Span, Token)>, pos: &mut usize) -> (r: Result<Vec<Node>, ParseError>)
    requires
        *old(pos) <= tokens@.len(),
    ensures
        *old(pos) <= *final(pos) <= tokens@.len(),
        r is Ok ==> text_indices(r->Ok_0@) == text_numbers(tokens@.subrange(*old(pos) as int, *final(pos) as int)),
        (forall|k: int| *old(pos) <= k < tokens@.len() ==> (#[trigger] tokens@[k]).1 is Text) ==> r is Ok && *final(pos)
            == tokens@.len(),
        r is Ok ==> {
            ||| *final(pos) == tokens@.len() && flatten(r->Ok_0@) == tokens_view(tokens@).subrange(
                *old(pos) as int,
                *final(pos) as int,
            )
            ||| *old(pos) < *final(pos) < tokens@.len() && tokens@[*final(pos) - 1].1 is CommandStart
                && tokens@[*final(pos) as int].1 is EndIf && flatten(r->Ok_0@) == tokens_view(tokens@).subrange(
                *old(pos) as int,
                *final(pos) - 1,
            )
        },
    decreases tokens@.len() - *old(pos),
{
    let ghost start = *pos;
    let mut contents: Vec<Node> = Vec::new();
    proof {
        assert(tokens@.subrange(start as int, start as int) =~= Seq::<(Span, Token)>::empty());
        assert(text_indices(contents@) =~= Seq::<int>::empty());
        assert(flatten(contents@) =~= tokens_view(tokens@).subrange(start as int, start as int));
    }
    let ghost tv = tokens_view(tokens@);
    while *pos < tokens.len()
        invariant
            start == *old(pos),
            start <= *pos <= tokens@.len(),
            tv == tokens_view(tokens@),
            text_indices(contents@) == text_numbers(tokens@.subrange(start as int, *pos as int)),
            flatten(contents@) == tv.subrange(start as int, *pos as int),
        decreases tokens@.len() - *pos,
    {
        let ghost before = contents@;
        let ghost q = *pos;
        let at = *pos;
        let span = tokens[at].0;
        *pos = *pos + 1;
        proof {
            lemma_numbers_step(tokens@, start as int, q as int);
        }
        match &tokens[at].1 {
            Token::CommandStart => {
                assert(!(tokens@[at as int].1 is Text));
                if *pos >= tokens.len() {
                    return Err(ParseError::UnexpectedEnd);
                }
                if matches!(tokens[*pos].1, Token::EndIf) {
                    assert(text_numbers(tokens@.subrange(start as int, q + 1)) =~= text_numbers(
                        tokens@.subrange(start as int, q as int),
                    ));
                    return Ok(contents);
                }
                let ghost q1 = *pos;
                let ghost cs_at = tokens@[q as int].1;
                let if_kwd = match_token(tokens, pos, Token::If)?;
                let cond_ident = match_ident(tokens, pos)?;
                match_token(tokens, pos, Token::CommandEnd)?;
                let ghost q2 = *pos;
                let if_contents = parse_tokens(tokens, pos)?;
                let ghost q3 = *pos;
                let endif_kwd = match_token(tokens, pos, Token::EndIf)?;
                match_token(tokens, pos, Token::CommandEnd)?;
                contents.push(Node::Conditional { if_kwd, cond_ident, contents: if_contents, endif_kwd });
                proof {
                    let t = tokens@;
                    lemma_numbers_split(t, start as int, q + 1, q2 as int);
                    lemma_numbers_split(t, start as int, q2 as int, q3 as int);
                    lemma_numbers_split(t, start as int, q3 as int, *pos as int);
                    assert(!(t[q1 as int].1 is Text) && !(t[q1 + 1].1 is Text) && !(t[q1 + 2].1 is Text));
                    lemma_no_text(t, q + 1, q2 as int);
                    assert(!(t[q3 as int].1 is Text) && !(t[q3 + 1].1 is Text));
                    lemma_no_text(t, q3 as int, *pos as int);
                    assert(contents@.drop_last() =~= before);
                    assert(text_indices(contents@) =~= text_numbers(t.subrange(start as int, *pos as int)));
                    assert(q3 < tokens@.len());
                    assert(tv[q as int] == TokenView::CommandStart);
                    assert(tv[q1 as int] == TokenView::If);
                    assert(tv[q1 + 1] == TokenView::Identifier(cond_ident.value@));
                    assert(tv[q1 + 2] == TokenView::CommandEnd);
                    assert(tv[q3 - 1] == TokenView::CommandStart);
                    assert(tv[q3 as int] == TokenView::EndIf);
                    assert(tv[q3 + 1] == TokenView::CommandEnd);
                    assert(flatten(contents@) =~= tv.subrange(start as int, *pos as int));
                }
            },
            Token::ParamStart => {
                assert(!(tokens@[at as int].1 is Text));
                let ghost q1 = *pos;
                let name = match_ident(tokens, pos)?;
                let ghost name_v = name.value@;
                contents.push(Node::Parameter { name });
                match_token(tokens, pos, Token::ParamEnd)?;
                proof {
                    let t = tokens@;
                    lemma_numbers_split(t, start as int, q + 1, *pos as int);
                    assert(!(t[q1 as int].1 is Text) && !(t[q1 + 1].1 is Text));
                    lemma_no_text(t, q + 1, *pos as int);
                    assert(contents@.drop_last() =~= before);
                    assert(text_indices(contents@) =~= text_numbers(t.subrange(start as int, *pos as int)));
                    assert(tv[q as int] == TokenView::ParamStart);
                    assert(tv[q1 as int] == TokenView::Identifier(name_v));
                    assert(tv[q1 + 1] == TokenView::ParamEnd);
                    assert(flatten(contents@) =~= tv.subrange(start as int, *pos as int));
                }
            },
            Token::Text { index, text } => {
                contents.push(Node::Text { index: *index, text: M::new(slice_to_vec(text.as_slice()), span) });
                proof {
                    assert(contents@.drop_last() =~= before);
                    assert(text_indices(contents@) =~= text_numbers(tokens@.subrange(start as int, *pos as int)));
                    assert(tv[q as int] == TokenView::Text(*index as int, text@));
                    assert(flatten(contents@) =~= tv.subrange(start as int, *pos as int));
                }
            },
            _ => {
                assert(!(tokens@[at as int].1 is Text));
                return Err(ParseError::Unexpected { span });
            },
        }
    }
    Ok(contents)
}

/// Consumes the next token, which must be the delimiter or keyword `token`.
fn match_token(tokens: &Vec<(Span, Token)>, pos: &mut usize, token: Token) -> (r: Result<Span, ParseError>)
    requires
        *old(pos) <= tokens@.len(),
        is_unit(token),
    ensures
        *old(pos) <= *final(pos) <= tokens@.len(),
        r is Ok ==> *final(pos) == *old(pos) + 1 && is_unit(tokens@[*old(pos) as int].1) && token_view(
            tokens@[*old(pos) as int].1,
        ) == token_view(token),
{
    if *pos >= tokens.len() {
        return Err(ParseError::UnexpectedEnd);
    }
    let (span, t) = (tokens[*pos].0, &tokens[*pos].1);
    if same_unit(t, &token) {
        *pos = *pos + 1;
        Ok(span)
    } else {
        Err(ParseError::Unexpected { span })
    }
}

/// Consumes the next token, which must be an identifier.
fn match_ident(tokens: &Vec<(Span, Token)>, pos: &mut usize) -> (r: Result<M<Vec<u8>>, ParseError>)
    requires
        *old(pos) <= tokens@.len(),
    ensures
        *old(pos) <= *final(pos) <= tokens@.len(),
        r is Ok ==> *final(pos) == *old(pos) + 1 && tokens@[*old(pos) as int].1 is Identifier
            && r->Ok_0.value@ == tokens@[*old(pos) as int].1->Identifier_name@,
{
    if *pos >= tokens.len() {
        return Err(ParseError::UnexpectedEnd);
    }
    let span = tokens[*pos].0;
    match &tokens[*pos].1 {
        Token::Identifier { name } => {
            *pos = *pos + 1;
            Ok(M::new(slice_to_vec(name.as_slice()), span))
        },
        _ => Err(ParseError::Unexpected { span }),
    }
}

/// Both are the same delimiter or keyword.
fn same_unit(a: &Token, b: &Token) -> (r: bool)
    requires
        is_unit(*b),
    ensures
        r == (token_view(*a) == token_view(*b)),
        r ==> is_unit(*a),
{
    match (a, b) {
        (Token::ParamStart, Token::ParamStart) => true,
        (Token::ParamEnd, Token::ParamEnd) => true,
        (Token::CommandStart, Token::CommandStart) => true,
        (Token::CommandEnd, Token::CommandEnd) => true,
        (Token::If, Token::If) => true,
        (Token::EndIf, Token::EndIf) => true,
        _ => false,
    }
}

} // verus!
