//! The lexer: splits template source bytes into delimiters, keywords, identifiers and
//! numbered literal runs.
use vstd::prelude::*;
use crate::ir::Span;

verus! {

pub const OPEN_BRACE: u8 = 123;
pub const CLOSE_BRACE: u8 = 125;
pub const PERCENT: u8 = 37;
pub const LOWER_I: u8 = 105;
pub const LOWER_F: u8 = 102;
pub const LOWER_E: u8 = 101;
pub const LOWER_N: u8 = 110;
pub const LOWER_D: u8 = 100;
pub const SPACE: u8 = 32;
pub const TAB: u8 = 9;
pub const LINE_FEED: u8 = 10;
pub const CARRIAGE_RETURN: u8 = 13;
pub const LOWER_A: u8 = 97;
pub const LOWER_Z: u8 = 122;
pub const UPPER_A: u8 = 65;
pub const UPPER_Z: u8 = 90;
pub const UNDERSCORE: u8 = 95;
pub const DIGIT_0: u8 = 48;
pub const DIGIT_9: u8 = 57;
pub const FORM_FEED: u8 = 12;

/// One lexical token.
#[derive(Debug, PartialEq, Eq)]
pub enum Token {
    /// `{{`
    ParamStart,
    /// `}}`
    ParamEnd,
    /// `{%`
    CommandStart,
    /// `%}`
    CommandEnd,
    If,
    EndIf,
    Identifier { name: Vec<u8> },
    /// A literal run; `index` counts the literal runs before it.
    Text { index: usize, text: Vec<u8> },
}

/// What the lexer expected where it stopped.
#[derive(Clone, Copy, Debug, PartialEq, Eq, Structural)]
pub enum Expected {
    /// `%}` closing a command.
    CommandEnd,
    /// `}}` closing a parameter.
    ParamEnd,
    /// `if` or `endif` opening a command.
    Keyword,
    /// An identifier of the form `[A-Za-z_][A-Za-z0-9_]*`.
    Identifier,
}

/// A lexical error: what was expected, and where.
#[derive(Clone, Copy, Debug, PartialEq, Eq, Structural)]
pub struct TokenError {
    pub span: Span,
    pub expected: Expected,
}

pub open spec fn is_ident_start(c: u8) -> bool {
    (LOWER_A <= c <= LOWER_Z) || (UPPER_A <= c <= UPPER_Z) || c == UNDERSCORE
}

pub open spec fn is_ident_continue(c: u8) -> bool {
    is_ident_start(c) || (DIGIT_0 <= c <= DIGIT_9)
}

/// `s` matches `[A-Za-z_][A-Za-z0-9_]*`.
pub open spec fn is_ident(s: Seq<u8>) -> bool {
    s.len() > 0 && is_ident_start(s[0]) && forall|i: int| 1 <= i < s.len() ==> is_ident_continue(#[trigger] s[i])
}

pub open spec fn is_space(c: u8) -> bool {
    c == SPACE || c == TAB || c == LINE_FEED || c == CARRIAGE_RETURN || c == FORM_FEED
}

/// The source bytes a span covers.
pub open spec fn span_bytes(src: Seq<u8>, span: Span) -> Seq<u8> {
    src.subrange(span.offset as int, span.offset + span.len)
}

/// The token was read from its span of `src`.
pub open spec fn token_ok(src: Seq<u8>, span: Span, tok: Token) -> bool {
    &&& span.offset + span.len <= src.len()
    &&& match tok {
        Token::ParamStart => span_bytes(src, span) == seq![OPEN_BRACE, OPEN_BRACE],
        Token::ParamEnd => span_bytes(src, span) == seq![CLOSE_BRACE, CLOSE_BRACE],
        Token::CommandStart => span_bytes(src, span) == seq![OPEN_BRACE, PERCENT],
        Token::CommandEnd => span_bytes(src, span) == seq![PERCENT, CLOSE_BRACE],
        Token::If => span_bytes(src, span) == seq![LOWER_I, LOWER_F],
        Token::EndIf => span_bytes(src, span) == seq![LOWER_E, LOWER_N, LOWER_D, LOWER_I, LOWER_F],
        Token::Identifier { name } => name@ == span_bytes(src, span) && is_ident(name@),
        Token::Text { text, .. } => text@ == span_bytes(src, span) && text@.len() > 0,
    }
}

/// The numbers of the literal runs among `toks`, in order.
pub open spec fn text_numbers(toks: Seq<(Span, Token)>) -> Seq<int>
    decreases toks.len(),
{
    if toks.len() == 0 {
        seq![]
    } else {
        text_numbers(toks.drop_last()) + match toks.last().1 {
            Token::Text { index, .. } => seq![index as int],
            _ => seq![],
        }
    }
}

/// `s` is `0, 1, 2, ...`.
pub open spec fn is_numbering(s: Seq<int>) -> bool {
    forall|i: int| 0 <= i < s.len() ==> #[trigger] s[i] == i
}

/// Every token was read from its span of `src`, the spans follow one another and end by
/// `upto`, and the literal runs are numbered from 0 in order.
pub open spec fn tokens_ok(src: Seq<u8>, toks: Seq<(Span, Token)>, upto: int) -> bool {
    &&& forall|i: int| 0 <= i < toks.len() ==> token_ok(src, (#[trigger] toks[i]).0, toks[i].1)
    &&& forall|i: int| 0 <= i < toks.len() ==> (#[trigger] toks[i]).0.offset + toks[i].0.len <= upto
    &&& forall|i: int, j: int|
        0 <= i < j < toks.len() ==> (#[trigger] toks[i]).0.offset + toks[i].0.len <= (#[trigger] toks[j]).0.offset
    &&& is_numbering(text_numbers(toks))
}

/// Where the span of a token ends.
pub open spec fn end_of(t: (Span, Token)) -> int {
    t.0.offset + t.0.len
}

/// Where the token before the `i`-th ends (0 for the first).
pub open spec fn prev_end(toks: Seq<(Span, Token)>, i: int) -> int {
    if i == 0 { 0 } else { end_of(toks[i - 1]) }
}

/// `src[a..b]` is whitespace.
pub open spec fn spaces(src: Seq<u8>, a: int, b: int) -> bool {
    forall|k: int| a <= k < b ==> is_space(#[trigger] src[k])
}

/// No `{{` or `{%` starts at `k`.
pub open spec fn no_open_at(src: Seq<u8>, k: int) -> bool {
    !(k + 1 < src.len() && src[k] == OPEN_BRACE && (src[k + 1] == OPEN_BRACE || src[k + 1] == PERCENT))
}

/// Whitespace may follow this token, inside `{{ }}` or `{% %}`.
pub open spec fn opens_inner(t: Token) -> bool {
    t is ParamStart || t is CommandStart || t is If || t is EndIf || t is Identifier
}

/// Whitespace may precede this token, inside `{{ }}` or `{% %}`.
pub open spec fn closes_inner(t: Token) -> bool {
    t is Identifier || t is ParamEnd || t is CommandEnd || t is If || t is EndIf
}

/// What lies between the end of the token before the `i`-th (0 for the first) and `b`:
/// nothing, or whitespace after a token that whitespace may follow.
pub open spec fn gap_ok(src: Seq<u8>, toks: Seq<(Span, Token)>, i: int, b: int) -> bool {
    prev_end(toks, i) == b || (i > 0 && opens_inner(toks[i - 1].1) && prev_end(toks, i) < b && spaces(
        src,
        prev_end(toks, i),
        b,
    ))
}

/// The tokens account for `src[0..at]`: the first starts at 0, whitespace lies between two
/// tokens only inside `{{ }}` or `{% %}`, and no `{{` or `{%` starts inside a literal run.
#[verifier::opaque]
pub open spec fn cover_upto(src: Seq<u8>, toks: Seq<(Span, Token)>, at: int) -> bool {
    &&& forall|i: int| 0 <= i < toks.len() ==> gap_ok(src, toks, i, (#[trigger] toks[i]).0.offset as int)
    &&& forall|i: int|
        0 <= i < toks.len() && prev_end(toks, i) != (#[trigger] toks[i]).0.offset ==> closes_inner(toks[i].1)
    &&& prev_end(toks, toks.len() as int) <= at
    &&& gap_ok(src, toks, toks.len() as int, at)
    &&& forall|i: int| 0 <= i < toks.len() ==> clean_text(src, #[trigger] toks[i])
}

/// If the token is a literal run, no `{{` or `{%` starts inside it.
pub open spec fn clean_text(src: Seq<u8>, t: (Span, Token)) -> bool {
    t.1 is Text ==> forall|k: int| t.0.offset <= k < end_of(t) ==> no_open_at(src, k)
}

/// The tokens account for all of `src` and the last one ends where `src` does.
pub open spec fn tokens_cover(src: Seq<u8>, toks: Seq<(Span, Token)>) -> bool {
    cover_upto(src, toks, src.len() as int) && prev_end(toks, toks.len() as int) == src.len()
}

/// `toks` ends, from position `n` on, with `{{`, an identifier and `}}`.
pub open spec fn param_unit(toks: Seq<(Span, Token)>, n: int) -> bool {
    &&& toks.len() == n + 3
    &&& toks[n].1 is ParamStart
    &&& toks[n + 1].1 is Identifier
    &&& toks[n + 2].1 is ParamEnd
}

/// `toks` ends, from position `n` on, with `{%`, `if`, an identifier and `%}`, or with `{%`,
/// `endif` and `%}`.
pub open spec fn command_unit(toks: Seq<(Span, Token)>, n: int) -> bool {
    ||| toks.len() == n + 4 && toks[n].1 is CommandStart && toks[n + 1].1 is If && toks[n + 2].1 is Identifier
        && toks[n + 3].1 is CommandEnd
    ||| toks.len() == n + 3 && toks[n].1 is CommandStart && toks[n + 1].1 is EndIf && toks[n + 2].1 is CommandEnd
}

/// The tokens are a sequence of units: a literal run, `{{ name }}`, `{% if name %}` or
/// `{% endif %}`, with never two literal runs next to each other.
pub open spec fn units_ok(toks: Seq<(Span, Token)>) -> bool
    decreases toks.len(),
{
    if toks.len() == 0 {
        true
    } else {
        let n = toks.len() as int;
        if toks[n - 1].1 is Text {
            units_ok(toks.drop_last()) && (n < 2 || !(toks[n - 2].1 is Text))
        } else if n >= 3 && param_unit(toks, n - 3) {
            units_ok(toks.subrange(0, n - 3))
        } else if n >= 4 && command_unit(toks, n - 4) {
            units_ok(toks.subrange(0, n - 4))
        } else if n >= 3 && command_unit(toks, n - 3) {
            units_ok(toks.subrange(0, n - 3))
        } else {
            false
        }
    }
}

/// No `{{` or `{%` starts anywhere in `src`.
pub open spec fn plain_text(src: Seq<u8>) -> bool {
    forall|k: int| 0 <= k < src.len() ==> no_open_at(src, k)
}

/// Reads tokens from template source bytes.
pub struct Tokenizer<'a> {
    text: &'a [u8],
    pos: usize,
    tokens: Vec<(Span, Token)>,
    text_count: usize,
}

impl<'a> Tokenizer<'a> {
    /// The source being read.
    pub closed spec fn source(&self) -> Seq<u8> {
        self.text@
    }

    /// Nothing has been read yet.
    pub closed spec fn is_fresh(&self) -> bool {
        self.pos == 0 && self.tokens@.len() == 0 && self.text_count == 0 && self.text@.len() <= usize::MAX
    }

    spec fn inv(&self) -> bool {
        &&& self.text@.len() <= usize::MAX
        &&& self.pos <= self.text@.len()
        &&& tokens_ok(self.text@, self.tokens@, self.pos as int)
        &&& text_numbers(self.tokens@).len() == self.text_count
        &&& self.text_count <= self.pos
        &&& cover_upto(self.text@, self.tokens@, self.pos as int)
    }

    pub fn new(text: &'a [u8]) -> (r: Self)
        ensures
            r.source() == text@,
            r.is_fresh(),
    {
        // reading the length tells the proofs that it fits in a usize
        let _len: usize = text.len();
        Self { text, pos: 0, tokens: Vec::new(), text_count: 0 }
    }

    /// Splits the whole source into tokens.
    #[verifier::loop_isolation(false)]
    pub fn tokenize(self) -> (r: Result<Vec<(Span, Token)>, TokenError>)
        requires
            self.is_fresh(),
        ensures
            r is Ok ==> tokens_ok(self.source(), r->Ok_0@, self.source().len() as int),
            r is Ok ==> tokens_cover(self.source(), r->Ok_0@),
            r is Ok ==> units_ok(r->Ok_0@),
            plain_text(self.source()) ==> r is Ok && r->Ok_0@.len() == (if self.source().len() == 0 {
                0int
            } else {
                1int
            }),
            plain_text(self.source()) && r is Ok && r->Ok_0@.len() > 0 ==> r->Ok_0@[0].1 is Text,
    {
        let ghost src = self.text@;
        assert(src == self.source());
        let mut lexer = self;
        proof {
            assert(text_numbers(lexer.tokens@) =~= Seq::<int>::empty());
            reveal(cover_upto);
        }
        while !lexer.peek_eof()
            invariant
                lexer.inv(),
                lexer.text@ == src,
                prev_end(lexer.tokens@, lexer.tokens@.len() as int) == lexer.pos,
                plain_text(src) ==> lexer.tokens@.len() == (if lexer.pos == 0 { 0int } else { 1int }),
                plain_text(src) ==> lexer.pos == 0 || lexer.pos == src.len(),
                plain_text(src) && lexer.tokens@.len() > 0 ==> lexer.tokens@[0].1 is Text,
                units_ok(lexer.tokens@),
                lexer.tokens@.len() > 0 && lexer.tokens@.last().1 is Text ==> lexer.pos == src.len() || !no_open_at(
                    src,
                    lexer.pos as int,
                ),
            decreases lexer.text@.len() - lexer.pos,
        {
            proof {
                if plain_text(src) {
                    assert(no_open_at(src, lexer.pos as int));
                    assert(forall|k: int| lexer.pos <= k < src.len() ==> no_open_at(src, k));
                }
            }
            if lexer.peek_param_start() {
                assert(!plain_text(src));
                lexer.try_tokenize_param()?;
            } else if lexer.peek_command_start() {
                assert(!plain_text(src));
                lexer.try_tokenize_command()?;
            } else {
                lexer.tokenize_text();
            }
        }
        Ok(lexer.tokens)
    }

    fn peek_eof(&self) -> (r: bool)
        requires
            self.inv(),
        ensures
            r == (self.pos == self.text@.len()),
    {
        self.pos >= self.text.len()
    }

    fn try_tokenize_command(&mut self) -> (r: Result<(), TokenError>)
        requires
            old(self).inv(),
            old(self).pos + 2 <= old(self).text@.len(),
            old(self).text@[old(self).pos as int] == OPEN_BRACE,
            old(self).text@[old(self).pos + 1] == PERCENT,
            prev_end(old(self).tokens@, old(self).tokens@.len() as int) == old(self).pos,
        ensures
            final(self).inv(),
            final(self).text@ == old(self).text@,
            final(self).pos > old(self).pos,
            r is Ok ==> prev_end(final(self).tokens@, final(self).tokens@.len() as int) == final(self).pos,
            r is Ok ==> command_unit(final(self).tokens@, old(self).tokens@.len() as int),
            r is Ok ==> final(self).tokens@.subrange(0, old(self).tokens@.len() as int) == old(self).tokens@,
    {
        let ghost t0 = self.tokens@;
        self.tokenize_command_start();
        self.skip_whitespace();
        if !self.peek_eof() {
            match self.try_tokenize_keyword()? {
                Token::If => {
                    self.skip_whitespace();
                    if !self.peek_eof() {
                        self.try_tokenize_ident()?;
                    }
                },
                _ => {},
            }
        }
        self.skip_whitespace();
        if self.peek_command_end() {
            self.tokenize_command_end();
            Ok(())
        } else {
            Err(TokenError { span: Span { offset: self.pos, len: 0 }, expected: Expected::CommandEnd })
        }
    }

    fn try_tokenize_param(&mut self) -> (r: Result<(), TokenError>)
        requires
            old(self).inv(),
            old(self).pos + 2 <= old(self).text@.len(),
            old(self).text@[old(self).pos as int] == OPEN_BRACE,
            old(self).text@[old(self).pos + 1] == OPEN_BRACE,
            prev_end(old(self).tokens@, old(self).tokens@.len() as int) == old(self).pos,
        ensures
            final(self).inv(),
            final(self).text@ == old(self).text@,
            final(self).pos > old(self).pos,
            r is Ok ==> prev_end(final(self).tokens@, final(self).tokens@.len() as int) == final(self).pos,
            r is Ok ==> param_unit(final(self).tokens@, old(self).tokens@.len() as int),
            r is Ok ==> final(self).tokens@.subrange(0, old(self).tokens@.len() as int) == old(self).tokens@,
    {
        let ghost t0 = self.tokens@;
        self.tokenize_param_start();
        self.skip_whitespace();
        if !self.peek_eof() {
            self.try_tokenize_ident()?;
        }
        self.skip_whitespace();
        if self.peek_param_end() {
            self.tokenize_param_end();
            Ok(())
        } else {
            Err(TokenError { span: Span { offset: self.pos, len: 0 }, expected: Expected::ParamEnd })
        }
    }

    fn skip_whitespace(&mut self)
        requires
            old(self).inv(),
            old(self).tokens@.len() > 0,
            opens_inner(old(self).tokens@.last().1),
        ensures
            final(self).inv(),
            final(self).text@ == old(self).text@,
            final(self).pos >= old(self).pos,
            final(self).tokens@ == old(self).tokens@,
    {
        while self.pos < self.text.len() && is_space_byte(self.text[self.pos])
            invariant
                self.inv(),
                self.text@ == old(self).text@,
                self.pos >= old(self).pos,
                self.tokens@ == old(self).tokens@,
                self.tokens@.len() > 0,
                opens_inner(self.tokens@.last().1),
            decreases self.text@.len() - self.pos,
        {
            proof {
                reveal(cover_upto);
                let src = self.text@;
                let toks = self.tokens@;
                let e = prev_end(toks, toks.len() as int);
                assert(toks[toks.len() - 1] == toks.last());
                assert(gap_ok(src, toks, toks.len() as int, self.pos as int));
                assert forall|k: int| e <= k < self.pos + 1 implies is_space(#[trigger] src[k]) by {
                    if k < self.pos {
                        assert(spaces(src, e, self.pos as int));
                    }
                }
            }
            self.pos = self.pos + 1;
        }
    }

    fn peek_param_start(&self) -> (r: bool)
        requires
            self.inv(),
        ensures
            r == (self.pos + 2 <= self.text@.len() && self.text@[self.pos as int] == OPEN_BRACE && self.text@[self.pos + 1] == OPEN_BRACE),
    {
        self.peek_check(OPEN_BRACE, OPEN_BRACE)
    }

    fn tokenize_param_start(&mut self)
        requires
            old(self).inv(),
            old(self).pos + 2 <= old(self).text@.len(),
            old(self).text@[old(self).pos as int] == OPEN_BRACE,
            old(self).text@[old(self).pos + 1] == OPEN_BRACE,
            prev_end(old(self).tokens@, old(self).tokens@.len() as int) == old(self).pos,
        ensures
            final(self).inv(),
            final(self).text@ == old(self).text@,
            final(self).pos == old(self).pos + 2,
            final(self).tokens@.len() > 0,
            final(self).tokens@.last().1 == Token::ParamStart,
            final(self).tokens@.drop_last() == old(self).tokens@,
            final(self).tokens@.len() == old(self).tokens@.len() + 1,
            final(self).tokens@.last().1 == Token::ParamStart,
    {
        assert(span_bytes(self.text@, Span { offset: self.pos, len: 2 }) =~= seq![OPEN_BRACE, OPEN_BRACE]);
        self.consume_as(Token::ParamStart, 2);
    }

    fn peek_param_end(&self) -> (r: bool)
        requires
            self.inv(),
        ensures
            r == (self.pos + 2 <= self.text@.len() && self.text@[self.pos as int] == CLOSE_BRACE && self.text@[self.pos + 1] == CLOSE_BRACE),
    {
        self.peek_check(CLOSE_BRACE, CLOSE_BRACE)
    }

    fn tokenize_param_end(&mut self)
        requires
            old(self).inv(),
            old(self).pos + 2 <= old(self).text@.len(),
            old(self).text@[old(self).pos as int] == CLOSE_BRACE,
            old(self).text@[old(self).pos + 1] == CLOSE_BRACE,
        ensures
            final(self).inv(),
            final(self).text@ == old(self).text@,
            final(self).pos == old(self).pos + 2,
            prev_end(final(self).tokens@, final(self).tokens@.len() as int) == final(self).pos,
            final(self).tokens@.drop_last() == old(self).tokens@,
            final(self).tokens@.len() == old(self).tokens@.len() + 1,
            final(self).tokens@.last().1 == Token::ParamEnd,
    {
        assert(span_bytes(self.text@, Span { offset: self.pos, len: 2 }) =~= seq![CLOSE_BRACE, CLOSE_BRACE]);
        self.consume_as(Token::ParamEnd, 2);
    }

    fn peek_command_start(&self) -> (r: bool)
        requires
            self.inv(),
        ensures
            r == (self.pos + 2 <= self.text@.len() && self.text@[self.pos as int] == OPEN_BRACE && self.text@[self.pos + 1] == PERCENT),
    {
        self.peek_check(OPEN_BRACE, PERCENT)
    }

    fn tokenize_command_start(&mut self)
        requires
            old(self).inv(),
            old(self).pos + 2 <= old(self).text@.len(),
            old(self).text@[old(self).pos as int] == OPEN_BRACE,
            old(self).text@[old(self).pos + 1] == PERCENT,
            prev_end(old(self).tokens@, old(self).tokens@.len() as int) == old(self).pos,
        ensures
            final(self).inv(),
            final(self).text@ == old(self).text@,
            final(self).pos == old(self).pos + 2,
            final(self).tokens@.len() > 0,
            final(self).tokens@.last().1 == Token::CommandStart,
            final(self).tokens@.drop_last() == old(self).tokens@,
            final(self).tokens@.len() == old(self).tokens@.len() + 1,
            final(self).tokens@.last().1 == Token::CommandStart,
    {
        assert(span_bytes(self.text@, Span { offset: self.pos, len: 2 }) =~= seq![OPEN_BRACE, PERCENT]);
        self.consume_as(Token::CommandStart, 2);
    }

    fn peek_command_end(&self) -> (r: bool)
        requires
            self.inv(),
        ensures
            r == (self.pos + 2 <= self.text@.len() && self.text@[self.pos as int] == PERCENT && self.text@[self.pos + 1] == CLOSE_BRACE),
    {
        self.peek_check(PERCENT, CLOSE_BRACE)
    }

    fn tokenize_command_end(&mut self)
        requires
            old(self).inv(),
            old(self).pos + 2 <= old(self).text@.len(),
            old(self).text@[old(self).pos as int] == PERCENT,
            old(self).text@[old(self).pos + 1] == CLOSE_BRACE,
        ensures
            final(self).inv(),
            final(self).text@ == old(self).text@,
            final(self).pos == old(self).pos + 2,
            prev_end(final(self).tokens@, final(self).tokens@.len() as int) == final(self).pos,
            final(self).tokens@.drop_last() == old(self).tokens@,
            final(self).tokens@.len() == old(self).tokens@.len() + 1,
            final(self).tokens@.last().1 == Token::CommandEnd,
    {
        assert(span_bytes(self.text@, Span { offset: self.pos, len: 2 }) =~= seq![PERCENT, CLOSE_BRACE]);
        self.consume_as(Token::CommandEnd, 2);
    }

    /// The next two bytes are `a` and `b`.
    fn peek_check(&self, a: u8, b: u8) -> (r: bool)
        requires
            self.inv(),
        ensures
            r == (self.pos + 2 <= self.text@.len() && self.text@[self.pos as int] == a && self.text@[self.pos + 1] == b),
    {
        self.text.len() >= 2 && self.pos <= self.text.len() - 2 && self.text[self.pos] == a && self.text[self.pos + 1] == b
    }

    /// Records the next `len` bytes as `token`.
    fn consume_as(&mut self, token: Token, len: usize)
        requires
            old(self).inv(),
            old(self).pos + len <= old(self).text@.len(),
            token_ok(old(self).text@, Span { offset: old(self).pos, len }, token),
            !(token is Text),
            prev_end(old(self).tokens@, old(self).tokens@.len() as int) == old(self).pos || closes_inner(token),
        ensures
            final(self).inv(),
            final(self).text@ == old(self).text@,
            final(self).pos == old(self).pos + len,
            prev_end(final(self).tokens@, final(self).tokens@.len() as int) == final(self).pos,
            final(self).tokens@.len() > 0,
            final(self).tokens@.last().1 == token,
            final(self).tokens@ == old(self).tokens@.push((Span { offset: old(self).pos, len }, token)),
    {
        proof {
            reveal(cover_upto);
        }
        let start = self.pos;
        self.pos = self.pos + len;
        self.push_token(token, start, len);
    }

    fn try_tokenize_keyword(&mut self) -> (r: Result<Token, TokenError>)
        requires
            old(self).inv(),
        ensures
            final(self).inv(),
            final(self).text@ == old(self).text@,
            final(self).pos >= old(self).pos,
            r is Ok ==> r->Ok_0 is If || r->Ok_0 is EndIf,
            r is Ok ==> final(self).tokens@.len() > 0 && final(self).tokens@.last().1 == r->Ok_0,
            r is Ok ==> final(self).tokens@.drop_last() == old(self).tokens@,
            r is Err ==> final(self).tokens@ == old(self).tokens@,
    {
        if self.peek_check(LOWER_I, LOWER_F) {
            proof {
                assert(span_bytes(self.text@, Span { offset: self.pos, len: 2 }) =~= seq![LOWER_I, LOWER_F]);
            }
            self.consume_as(Token::If, 2);
            Ok(Token::If)
        } else if self.peek_endif() {
            proof {
                assert(span_bytes(self.text@, Span { offset: self.pos, len: 5 }) =~= seq![
                    LOWER_E,
                    LOWER_N,
                    LOWER_D,
                    LOWER_I,
                    LOWER_F,
                ]);
            }
            self.consume_as(Token::EndIf, 5);
            Ok(Token::EndIf)
        } else {
            Err(TokenError { span: Span { offset: self.pos, len: 0 }, expected: Expected::Keyword })
        }
    }

    /// The next five bytes are `endif`.
    fn peek_endif(&self) -> (r: bool)
        requires
            self.inv(),
        ensures
            r == (self.pos + 5 <= self.text@.len() && self.text@.subrange(self.pos as int, self.pos + 5) == seq![
                LOWER_E,
                LOWER_N,
                LOWER_D,
                LOWER_I,
                LOWER_F,
            ]),
    {
        let p = self.pos;
        let r = self.text.len() >= 5 && p <= self.text.len() - 5 && self.text[p] == LOWER_E && self.text[p + 1] == LOWER_N
            && self.text[p + 2] == LOWER_D && self.text[p + 3] == LOWER_I && self.text[p + 4] == LOWER_F;
        proof {
            if p + 5 <= self.text@.len() {
                let w = self.text@.subrange(p as int, p + 5);
                let e = seq![LOWER_E, LOWER_N, LOWER_D, LOWER_I, LOWER_F];
                if r {
                    assert(w =~= e);
                }
                if w == e {
                    assert(w[0] == e[0] && w[1] == e[1] && w[2] == e[2] && w[3] == e[3] && w[4] == e[4]);
                }
            }
        }
        r
    }

    fn try_tokenize_ident(&mut self) -> (r: Result<(), TokenError>)
        requires
            old(self).inv(),
            old(self).pos < old(self).text@.len(),
        ensures
            final(self).inv(),
            final(self).text@ == old(self).text@,
            final(self).pos >= old(self).pos,
            r is Ok ==> final(self).tokens@.len() > 0 && final(self).tokens@.last().1 is Identifier,
            r is Ok ==> final(self).tokens@.drop_last() == old(self).tokens@,
    {
        let start = self.pos;
        if !is_ident_start_byte(self.text[start]) {
            return Err(TokenError { span: Span { offset: start, len: 1 }, expected: Expected::Identifier });
        }
        let mut end = start + 1;
        while end < self.text.len() && is_ident_continue_byte(self.text[end])
            invariant
                self.inv(),
                self.text@ == old(self).text@,
                self.pos == start,
                start < end <= self.text@.len(),
                is_ident(self.text@.subrange(start as int, end as int)),
            decreases self.text@.len() - end,
        {
            proof {
                let w = self.text@.subrange(start as int, end + 1);
                assert forall|i: int| 1 <= i < w.len() implies is_ident_continue(#[trigger] w[i]) by {
                    if i < w.len() - 1 {
                        assert(w[i] == self.text@.subrange(start as int, end as int)[i]);
                    }
                }
            }
            end = end + 1;
        }
        let name = copy_range(self.text, start, end);
        self.pos = end;
        self.push_token(Token::Identifier { name }, start, end - start);
        Ok(())
    }

    fn tokenize_text(&mut self)
        requires
            old(self).inv(),
            old(self).pos < old(self).text@.len(),
            no_open_at(old(self).text@, old(self).pos as int),
            prev_end(old(self).tokens@, old(self).tokens@.len() as int) == old(self).pos,
        ensures
            final(self).inv(),
            final(self).text@ == old(self).text@,
            final(self).pos > old(self).pos,
            prev_end(final(self).tokens@, final(self).tokens@.len() as int) == final(self).pos,
            final(self).tokens@.len() == old(self).tokens@.len() + 1,
            final(self).tokens@.subrange(0, old(self).tokens@.len() as int) == old(self).tokens@,
            final(self).tokens@.last().1 is Text,
            (forall|k: int| old(self).pos <= k < old(self).text@.len() ==> no_open_at(old(self).text@, k))
                ==> final(self).pos == old(self).text@.len(),
            final(self).pos == old(self).text@.len() || !no_open_at(old(self).text@, final(self).pos as int),
    {
        let start = self.pos;
        let mut end = start + 1;
        while end < self.text.len() && !self.opens_at(end)
            invariant
                self.inv(),
                self.pos == start,
                start < end <= self.text@.len(),
                forall|k: int| start <= k < end ==> no_open_at(self.text@, k),
            decreases self.text@.len() - end,
        {
            end = end + 1;
        }
        let text = copy_range(self.text, start, end);
        let token = Token::Text { index: self.text_count, text };
        self.pos = end;
        self.push_text_token(token, start, end - start);
    }

    /// Whether `{{` or `{%` starts at `k`.
    fn opens_at(&self, k: usize) -> (r: bool)
        requires
            self.inv(),
            k < self.text@.len(),
        ensures
            r == !no_open_at(self.text@, k as int),
    {
        k + 1 < self.text.len() && self.text[k] == OPEN_BRACE && (self.text[k + 1] == OPEN_BRACE || self.text[k + 1] == PERCENT)
    }

    /// Records a token other than a literal run.
    fn push_token(&mut self, token: Token, start: usize, len: usize)
        requires
            old(self).text@.len() <= usize::MAX,
            old(self).pos <= old(self).text@.len(),
            tokens_ok(old(self).text@, old(self).tokens@, start as int),
            text_numbers(old(self).tokens@).len() == old(self).text_count,
            old(self).text_count <= old(self).pos,
            start + len == old(self).pos,
            cover_upto(old(self).text@, old(self).tokens@, start as int),
            prev_end(old(self).tokens@, old(self).tokens@.len() as int) == start || closes_inner(token),
            token_ok(old(self).text@, Span { offset: start, len }, token),
            !(token is Text),
        ensures
            final(self).inv(),
            final(self).text@ == old(self).text@,
            final(self).pos == old(self).pos,
            prev_end(final(self).tokens@, final(self).tokens@.len() as int) == final(self).pos,
            final(self).tokens@.len() > 0,
            final(self).tokens@.last().1 == token,
            final(self).tokens@ == old(self).tokens@.push((Span { offset: start, len }, token)),
    {
        let ghost toks = self.tokens@;
        let span = Span { offset: start, len };
        self.tokens.push((span, token));
        proof {
            assert(self.tokens@.drop_last() =~= toks);
            assert(text_numbers(self.tokens@) =~= text_numbers(toks));
            lemma_cover_push(self.text@, toks, (span, token), start as int);
        }
    }

    /// Records a literal run numbered after those before it.
    fn push_text_token(&mut self, token: Token, start: usize, len: usize)
        requires
            old(self).text@.len() <= usize::MAX,
            old(self).pos <= old(self).text@.len(),
            tokens_ok(old(self).text@, old(self).tokens@, start as int),
            text_numbers(old(self).tokens@).len() == old(self).text_count,
            start + len == old(self).pos,
            token_ok(old(self).text@, Span { offset: start, len }, token),
            token is Text,
            token->Text_index == old(self).text_count,
            old(self).text_count <= start,
            len > 0,
            cover_upto(old(self).text@, old(self).tokens@, start as int),
            prev_end(old(self).tokens@, old(self).tokens@.len() as int) == start,
            forall|k: int| start <= k < start + len ==> no_open_at(old(self).text@, k),
        ensures
            final(self).inv(),
            final(self).text@ == old(self).text@,
            final(self).pos == old(self).pos,
            final(self).tokens@.len() == old(self).tokens@.len() + 1,
            final(self).tokens@.subrange(0, old(self).tokens@.len() as int) == old(self).tokens@,
            final(self).tokens@.last().1 is Text,
            prev_end(final(self).tokens@, final(self).tokens@.len() as int) == final(self).pos,
    {
        let ghost toks = self.tokens@;
        let span = Span { offset: start, len };
        self.tokens.push((span, token));
        self.text_count = self.text_count + 1;
        proof {
            lemma_cover_push(self.text@, toks, (span, token), start as int);
            assert(self.tokens@.drop_last() =~= toks);
            assert(text_numbers(self.tokens@) =~= text_numbers(toks).push(old(self).text_count as int));
        }
    }
}

/// Recording a token that starts where the whitespace after the last one ends keeps the
/// tokens accounting for the source up to its end.
proof fn lemma_cover_push(src: Seq<u8>, toks: Seq<(Span, Token)>, t: (Span, Token), start: int)
    requires
        cover_upto(src, toks, start),
        t.0.offset == start,
        prev_end(toks, toks.len() as int) == start || closes_inner(t.1),
        t.1 is Text ==> forall|k: int| start <= k < end_of(t) ==> no_open_at(src, k),
    ensures
        cover_upto(src, toks.push(t), end_of(t)),
        prev_end(toks.push(t), toks.len() + 1 as int) == end_of(t),
{
    reveal(cover_upto);
    let t2 = toks.push(t);
    assert forall|i: int| 0 <= i < t2.len() implies gap_ok(src, t2, i, (#[trigger] t2[i]).0.offset as int) by {
        if i > 0 {
            assert(t2[i - 1] == toks[i - 1]);
        }
        if i < toks.len() {
            assert(t2[i] == toks[i]);
            assert(gap_ok(src, toks, i, toks[i].0.offset as int));
        } else {
            assert(gap_ok(src, toks, toks.len() as int, start));
        }
    }
    assert forall|i: int| 0 <= i < t2.len() && prev_end(t2, i) != (#[trigger] t2[i]).0.offset implies closes_inner(
        t2[i].1,
    ) by {
        if i > 0 {
            assert(t2[i - 1] == toks[i - 1]);
        }
        if i < toks.len() {
            assert(t2[i] == toks[i]);
        }
    }
    assert forall|i: int| 0 <= i < t2.len() implies clean_text(src, #[trigger] t2[i]) by {
        if i < toks.len() {
            assert(t2[i] == toks[i]);
        }
    }
    assert(t2[t2.len() - 1] == t);
}

fn is_space_byte(c: u8) -> (r: bool)
    ensures
        r == is_space(c),
{
    c == SPACE || c == TAB || c == LINE_FEED || c == CARRIAGE_RETURN || c == FORM_FEED
}

fn is_ident_start_byte(c: u8) -> (r: bool)
    ensures
        r == is_ident_start(c),
{
    (LOWER_A <= c && c <= LOWER_Z) || (UPPER_A <= c && c <= UPPER_Z) || c == UNDERSCORE
}

fn is_ident_continue_byte(c: u8) -> (r: bool)
    ensures
        r == is_ident_continue(c),
{
    is_ident_start_byte(c) || (DIGIT_0 <= c && c <= DIGIT_9)
}

/// A copy of `text[start..end]`.
fn copy_range(text: &[u8], start: usize, end: usize) -> (r: Vec<u8>)
    requires
        start <= end <= text@.len(),
    ensures
        r@ == text@.subrange(start as int, end as int),
{
    let mut r: Vec<u8> = Vec::new();
    let mut i = start;
    while i < end
        invariant
            start <= i <= end <= text@.len(),
            r@ == text@.subrange(start as int, i as int),
        decreases end - i,
    {
        r.push(text[i]);
        assert(r@ =~= text@.subrange(start as int, i + 1));
        i = i + 1;
    }
    r
}

} // verus!
