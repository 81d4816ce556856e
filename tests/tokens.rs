use template_compiler::{Expected, Span, Token, TokenError, Tokenizer};

fn text(index: usize, s: &str) -> Token {
    Token::Text { index, text: s.as_bytes().to_vec() }
}

fn ident(s: &str) -> Token {
    Token::Identifier { name: s.as_bytes().to_vec() }
}

fn lex(s: &str) -> Result<Vec<(Span, Token)>, TokenError> {
    Tokenizer::new(s.as_bytes()).tokenize()
}

#[test]
fn basic_test() {
    let tokens = lex("A{{p0}}B{{p1}}C").expect("test failed");
    assert_eq!(
        tokens,
        vec![
            (Span::new(0, 1), text(0, "A")),
            (Span::new(1, 2), Token::ParamStart),
            (Span::new(3, 2), ident("p0")),
            (Span::new(5, 2), Token::ParamEnd),
            (Span::new(7, 1), text(1, "B")),
            (Span::new(8, 2), Token::ParamStart),
            (Span::new(10, 2), ident("p1")),
            (Span::new(12, 2), Token::ParamEnd),
            (Span::new(14, 1), text(2, "C")),
        ]
    )
}

#[test]
fn command_test() {
    let tokens = lex("A {% if foo %}Bar{% endif %} C").expect("test failed");
    assert_eq!(
        tokens,
        vec![
            (Span::new(0, 2), text(0, "A ")),
            (Span::new(2, 2), Token::CommandStart),
            (Span::new(5, 2), Token::If),
            (Span::new(8, 3), ident("foo")),
            (Span::new(12, 2), Token::CommandEnd),
            (Span::new(14, 3), text(1, "Bar")),
            (Span::new(17, 2), Token::CommandStart),
            (Span::new(20, 5), Token::EndIf),
            (Span::new(26, 2), Token::CommandEnd),
            (Span::new(28, 2), text(2, " C")),
        ]
    )
}

#[test]
fn whitespace_inside_braces_is_skipped() {
    let tokens = lex("{{  name\n}}").unwrap();
    assert_eq!(
        tokens,
        vec![
            (Span::new(0, 2), Token::ParamStart),
            (Span::new(4, 4), ident("name")),
            (Span::new(9, 2), Token::ParamEnd),
        ]
    );
}

#[test]
fn empty_source_has_no_tokens() {
    assert_eq!(lex("").unwrap(), vec![]);
}

#[test]
fn unterminated_parameter_is_an_error() {
    let err = lex("a {{ x").unwrap_err();
    assert_eq!(err.expected, Expected::ParamEnd);
    assert_eq!(err.span, Span::new(6, 0));
}

#[test]
fn unterminated_command_is_an_error() {
    let err = lex("{% if x").unwrap_err();
    assert_eq!(err.expected, Expected::CommandEnd);
}

#[test]
fn unknown_keyword_is_an_error() {
    let err = lex("{% for x %}").unwrap_err();
    assert_eq!(err.expected, Expected::Keyword);
    assert_eq!(err.span, Span::new(3, 0));
}

#[test]
fn malformed_identifier_is_an_error() {
    let err = lex("{{ 1x }}").unwrap_err();
    assert_eq!(err.expected, Expected::Identifier);
    assert_eq!(err.span, Span::new(3, 1));
}

#[test]
fn if_at_end_of_text_is_an_error() {
    let err = lex("{% if").unwrap_err();
    assert_eq!(err.expected, Expected::CommandEnd);
    assert_eq!(err.span, Span::new(5, 0));
}

#[test]
fn literal_runs_are_never_adjacent() {
    let tokens = lex("a}}b%}c{").unwrap();
    assert_eq!(tokens, vec![(Span::new(0, 8), text(0, "a}}b%}c{"))]);
}
