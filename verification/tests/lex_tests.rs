//! The lexer's token stream: delimiters at several colon depths, rocket
//! markers, and indentation tracking around blank lines.

use rocket::lex::{lex, Token};

#[test]
fn lex_empty_input() {
    assert_eq!(lex(""), vec![]);
}

#[test]
fn lex_expression_tokens() {
    assert_eq!(
        lex("(:foo bar:)"),
        vec![
            Token::StartBlock(0, 0),
            Token::Text(0, "foo"),
            Token::Text(0, " "),
            Token::Text(0, "bar"),
            Token::RightParen(0),
        ]
    );
}

#[test]
fn lex_colon_depths() {
    assert_eq!(
        lex("(::x::)"),
        vec![
            Token::StartBlock(0, 1),
            Token::Text(0, "x"),
            Token::RightParen(1),
        ]
    );
    // Bare parentheses are group delimiters; a lone colon is text.
    assert_eq!(
        lex("(x:y)"),
        vec![
            Token::GroupOpen(0),
            Token::Text(0, "x"),
            Token::Text(0, ":"),
            Token::Text(0, "y"),
            Token::GroupClose,
        ]
    );
}

#[test]
fn lex_quotes_and_rocket() {
    assert_eq!(
        lex("(:a \"b\" =>\n  c:)"),
        vec![
            Token::StartBlock(0, 0),
            Token::Text(0, "a"),
            Token::Text(0, " "),
            Token::Quote(0),
            Token::Text(0, "b"),
            Token::Quote(0),
            Token::Text(0, " "),
            Token::Rocket(0),
            Token::Text(1, "c"),
            Token::RightParen(0),
            Token::Dedent,
        ]
    );
}

#[test]
fn lex_dedent_skips_trailing_blank_lines() {
    // The rocket body ends after its last content line; the blank lines
    // that follow belong to the enclosing level.
    let tokens = lex("(:n =>\n  a\n\n  \n\nb");
    assert_eq!(
        tokens,
        vec![
            Token::StartBlock(0, 0),
            Token::Text(0, "n"),
            Token::Text(0, " "),
            Token::Rocket(0),
            Token::Text(1, "a"),
            Token::Text(1, "\n"),
            Token::Text(2, "\n"),
            Token::Dedent,
            Token::Text(3, "\n"),
            Token::Text(4, "\n"),
            Token::Text(5, "b"),
        ]
    );
}

#[test]
fn test_expression() {
    assert_eq!(
        lex(r#"(:foo bar (:a "b c") "baz" )"#),
        vec![
            Token::StartBlock(0, 0),
            Token::Text(0, "foo"),
            Token::Text(0, " "),
            Token::Text(0, "bar"),
            Token::Text(0, " "),
            Token::StartBlock(0, 0),
            Token::Text(0, "a"),
            Token::Text(0, " "),
            Token::Quote(0),
            Token::Text(0, "b"),
            Token::Text(0, " "),
            Token::Text(0, "c"),
            Token::Quote(0),
            Token::GroupClose,
            Token::Text(0, " "),
            Token::Quote(0),
            Token::Text(0, "baz"),
            Token::Quote(0),
            Token::Text(0, " "),
            Token::GroupClose,
        ]
    );
}

#[test]
fn test_rocket() {
    assert_eq!(
        lex(
            r#"
(:note "a title" =>
  stuff 1

  stuff 2

  (:note =>
    more stuff

    second =>paragraph

  closing nested
"#
        ),
        vec![
            Token::Text(0, "\n"),
            Token::StartBlock(1, 0),
            Token::Text(1, "note"),
            Token::Text(1, " "),
            Token::Quote(1),
            Token::Text(1, "a"),
            Token::Text(1, " "),
            Token::Text(1, "title"),
            Token::Quote(1),
            Token::Text(1, " "),
            Token::Rocket(1),
            Token::Text(2, "stuff"),
            Token::Text(2, " "),
            Token::Text(2, "1"),
            Token::Text(2, "\n"),
            Token::Text(3, "\n"),
            Token::Text(4, "stuff"),
            Token::Text(4, " "),
            Token::Text(4, "2"),
            Token::Text(4, "\n"),
            Token::Text(5, "\n"),
            Token::StartBlock(6, 0),
            Token::Text(6, "note"),
            Token::Text(6, " "),
            Token::Rocket(6),
            Token::Text(7, "more"),
            Token::Text(7, " "),
            Token::Text(7, "stuff"),
            Token::Text(7, "\n"),
            Token::Text(8, "\n"),
            Token::Text(9, "second"),
            Token::Text(9, " "),
            Token::Text(9, "=>"),
            Token::Text(9, "paragraph"),
            Token::Dedent,
            Token::Text(9, "\n"),
            Token::Text(10, "\n"),
            Token::Text(11, "closing"),
            Token::Text(11, " "),
            Token::Text(11, "nested"),
            Token::Text(11, "\n"),
            Token::Dedent,
        ]
    );
}

#[test]
fn test_rocket_indentation() {
    assert_eq!(
        lex("(:note =>\n  stuff\n    stuff"),
        vec![
            Token::StartBlock(0, 0),
            Token::Text(0, "note"),
            Token::Text(0, " "),
            Token::Rocket(0),
            Token::Text(1, "stuff"),
            Token::Text(1, "\n"),
            Token::Text(2, "  "),
            Token::Text(2, "stuff"),
            Token::Dedent,
        ]
    );
}
