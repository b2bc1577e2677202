use antsi::ast::Token;
use antsi::error::{Error, Reason, Span};
use antsi::lexer::SyntaxKind;
use antsi::parser::Parser;
use antsi::styles::{Color, Style};

fn content(text: &str) -> Token {
    Token::Content(String::from(text))
}

fn red(content: Vec<Token>) -> Token {
    Token::Styled {
        content,
        style: Style {
            foreground: Some(Color::Red),
            background: None,
            decoration: None,
        },
    }
}

fn error(start: usize, end: usize, at: SyntaxKind, reason: Reason) -> Error {
    Error {
        span: Some(Span { start, end }),
        at,
        reason,
    }
}

fn tags() -> Vec<SyntaxKind> {
    vec![
        SyntaxKind::ForegroundSpecifier,
        SyntaxKind::BackgroundSpecifier,
        SyntaxKind::DecorationSpecifier,
    ]
}

#[test]
fn parse_empty() {
    let (result, errors) = Parser::new("").parse();
    assert_eq!(result, vec![]);
    assert_eq!(errors, vec![]);
}

#[test]
fn parse_text() {
    let (result, errors) =
        Parser::new("this some text with wh ite\nspa\tce and numb3r5 and $ymb@l$ and CAPITALS")
            .parse();
    assert_eq!(errors, vec![]);
    assert_eq!(
        result,
        vec![content(
            "this some text with wh ite\nspa\tce and numb3r5 and $ymb@l$ and CAPITALS"
        )]
    );
}

#[test]
fn parse_unescaped_open_parenthesis_in_plaintext() {
    let (result, errors) = Parser::new("before ( after").parse();
    assert_eq!(result, vec![content("before "), content(" after")]);
    assert_eq!(
        errors,
        vec![error(
            7,
            8,
            SyntaxKind::ParenthesisOpen,
            Reason::UnescapedControlCharacter('(')
        )]
    );
}

#[test]
fn parse_unescaped_close_parenthesis_in_plaintext() {
    let (result, errors) = Parser::new("before ) after").parse();
    assert_eq!(result, vec![content("before "), content(" after")]);
    assert_eq!(
        errors,
        vec![error(
            7,
            8,
            SyntaxKind::ParenthesisClose,
            Reason::UnescapedControlCharacter(')')
        )]
    );
}

#[test]
fn parse_unescaped_open_square_bracket_in_plaintext() {
    let (result, errors) = Parser::new("before [ after").parse();
    assert_eq!(result, vec![]);
    assert_eq!(
        errors,
        vec![
            error(8, 14, SyntaxKind::Text, Reason::Expected(tags())),
            error(
                8,
                14,
                SyntaxKind::Text,
                Reason::Expected(vec![SyntaxKind::Eof])
            ),
        ]
    );
}

#[test]
fn parse_unescaped_close_square_bracket_in_plaintext() {
    let (result, errors) = Parser::new("before ] after").parse();
    assert_eq!(result, vec![content("before "), content(" after")]);
    assert_eq!(
        errors,
        vec![error(
            7,
            8,
            SyntaxKind::SquareBracketClose,
            Reason::UnescapedControlCharacter(']')
        )]
    );
}

#[test]
fn parse_unescaped_open_parenthesis_in_token() {
    let (result, errors) = Parser::new("[fg:red](before ( after)").parse();
    assert_eq!(result, vec![content(" after")]);
    assert_eq!(
        errors,
        vec![
            error(
                16,
                17,
                SyntaxKind::ParenthesisOpen,
                Reason::Expected(vec![SyntaxKind::ParenthesisClose])
            ),
            error(
                16,
                17,
                SyntaxKind::ParenthesisOpen,
                Reason::UnescapedControlCharacter('(')
            ),
            error(
                23,
                24,
                SyntaxKind::ParenthesisClose,
                Reason::UnescapedControlCharacter(')')
            ),
        ]
    );
}

#[test]
fn parse_unescaped_close_parenthesis_in_token() {
    let (result, errors) = Parser::new("[fg:red](before ) after)").parse();
    assert_eq!(
        result,
        vec![red(vec![content("before ")]), content(" after")]
    );
    assert_eq!(
        errors,
        vec![error(
            23,
            24,
            SyntaxKind::ParenthesisClose,
            Reason::UnescapedControlCharacter(')')
        )]
    );
}

#[test]
fn parse_unescaped_open_square_bracket_in_token() {
    let (result, errors) = Parser::new("[fg:red](before [ after)").parse();
    assert_eq!(result, vec![]);
    assert_eq!(
        errors,
        vec![
            error(17, 23, SyntaxKind::Text, Reason::Expected(tags())),
            error(
                17,
                23,
                SyntaxKind::Text,
                Reason::Expected(vec![SyntaxKind::Eof])
            ),
            error(
                23,
                24,
                SyntaxKind::ParenthesisClose,
                Reason::UnescapedControlCharacter(')')
            ),
        ]
    );
}

#[test]
fn parse_unescaped_close_square_bracket_in_token() {
    let (result, errors) = Parser::new("[fg:red](before ] after)").parse();
    assert_eq!(result, vec![content(" after")]);
    assert_eq!(
        errors,
        vec![
            error(
                16,
                17,
                SyntaxKind::SquareBracketClose,
                Reason::Expected(vec![SyntaxKind::ParenthesisClose])
            ),
            error(
                16,
                17,
                SyntaxKind::SquareBracketClose,
                Reason::UnescapedControlCharacter(']')
            ),
            error(
                23,
                24,
                SyntaxKind::ParenthesisClose,
                Reason::UnescapedControlCharacter(')')
            ),
        ]
    );
}

#[test]
fn parse_bad_escape_character() {
    let (result, errors) = Parser::new("before \\a after").parse();
    assert_eq!(result, vec![content("before "), content("a after")]);
    assert_eq!(
        errors,
        vec![error(
            7,
            8,
            SyntaxKind::EscapeCharacter('a'),
            Reason::UnknownEscapeSequence('a')
        )]
    );
}

#[test]
fn parse_bad_escape_character_in_token() {
    let (result, errors) = Parser::new("[fg:red](before \\a after)").parse();
    assert_eq!(result, vec![content("a after")]);
    assert_eq!(
        errors,
        vec![
            error(
                16,
                17,
                SyntaxKind::EscapeCharacter('a'),
                Reason::Expected(vec![SyntaxKind::ParenthesisClose])
            ),
            error(
                16,
                17,
                SyntaxKind::EscapeCharacter('a'),
                Reason::UnknownEscapeSequence('a')
            ),
            error(
                24,
                25,
                SyntaxKind::ParenthesisClose,
                Reason::UnescapedControlCharacter(')')
            ),
        ]
    );
}

#[test]
fn parse_backslash_at_the_end() {
    let (result, errors) = Parser::new("trailing \\").parse();
    assert_eq!(result, vec![content("trailing ")]);
    assert_eq!(
        errors,
        vec![error(
            9,
            10,
            SyntaxKind::EscapeCharacter('\\'),
            Reason::UnknownEscapeSequence('\\')
        )]
    );
}

#[test]
fn parse_reports_the_end_of_input_without_span() {
    let (result, errors) = Parser::new("[fg:red](test").parse();
    assert_eq!(result, vec![]);
    assert_eq!(
        errors,
        vec![Error {
            span: None,
            at: SyntaxKind::Eof,
            reason: Reason::Expected(vec![SyntaxKind::ParenthesisClose]),
        }]
    );
}

#[test]
fn parse_spans_count_bytes() {
    let (result, errors) = Parser::new("h\u{e9}llo \u{1f600} ( x").parse();
    assert_eq!(result, vec![content("h\u{e9}llo \u{1f600} "), content(" x")]);
    assert_eq!(
        errors,
        vec![error(
            12,
            13,
            SyntaxKind::ParenthesisOpen,
            Reason::UnescapedControlCharacter('(')
        )]
    );
}

#[test]
fn parser_peeks_without_consuming() {
    let mut parser = Parser::new("fg:red");
    assert_eq!(parser.peek(), Some(Ok(SyntaxKind::ForegroundSpecifier)));
    assert_eq!(parser.peek(), Some(Ok(SyntaxKind::ForegroundSpecifier)));
    let lexeme = parser.peek_lexeme().unwrap().unwrap();
    assert_eq!(lexeme.text, "fg");
    assert_eq!(lexeme.span, Span { start: 0, end: 2 });
    assert!(parser.at(SyntaxKind::ForegroundSpecifier));
    assert!(!parser.at(SyntaxKind::BackgroundSpecifier));
    assert!(parser.at_one_of(&[SyntaxKind::Colon, SyntaxKind::ForegroundSpecifier]));
    assert!(!parser.at_one_of(&[SyntaxKind::Colon, SyntaxKind::Comma]));
    assert!(!parser.at_end());

    assert_eq!(parser.bump().unwrap().text, "fg");
    assert!(parser.at(SyntaxKind::Colon));
    assert_eq!(parser.bump().unwrap().kind, SyntaxKind::Colon);
    assert!(parser.at(SyntaxKind::Color(Color::Default)));
    assert_eq!(
        parser.bump().unwrap().kind,
        SyntaxKind::Color(Color::Red)
    );
    assert!(parser.at_end());
    assert_eq!(parser.peek(), None);
}

#[test]
fn parser_expect_consumes_or_reports() {
    let mut parser = Parser::new("(x");
    let lexeme = parser.expect(SyntaxKind::ParenthesisOpen).unwrap();
    assert_eq!(lexeme.text, "(");
    assert_eq!(parser.expect(SyntaxKind::ParenthesisClose), None);
    assert!(parser.at(SyntaxKind::Text));
    parser.error(Reason::UnescapedControlCharacter('x'));
    let (result, errors) = parser.parse();
    assert_eq!(result, vec![content("x")]);
    assert_eq!(
        errors,
        vec![
            error(
                1,
                2,
                SyntaxKind::Text,
                Reason::Expected(vec![SyntaxKind::ParenthesisClose])
            ),
            error(
                1,
                2,
                SyntaxKind::Text,
                Reason::UnescapedControlCharacter('x')
            ),
        ]
    );
}

#[test]
fn parser_peeks_a_bad_escape_as_a_failure() {
    let mut parser = Parser::new("\\a");
    assert_eq!(parser.peek(), Some(Err('a')));
    assert!(!parser.at(SyntaxKind::EscapeCharacter('a')));
    let failure = parser.bump().unwrap_err();
    assert_eq!(failure.character, 'a');
    assert_eq!(failure.span, Span { start: 0, end: 1 });
    assert!(parser.at(SyntaxKind::Text));
}

#[test]
fn parse_without_errors_never_leaves_two_text_tokens_side_by_side() {
    let (result, errors) =
        Parser::new("ab\\(cd: fg, [deco:bold](x\\  y;[fg:red](z)\\)w) tail").parse();
    assert_eq!(errors, vec![]);
    assert_eq!(
        result,
        vec![
            content("ab(cd: fg, "),
            Token::Styled {
                content: vec![content("xy;"), red(vec![content("z")]), content(")w")],
                style: Style {
                    foreground: None,
                    background: None,
                    decoration: Some([antsi::styles::Decoration::Bold].into_iter().collect()),
                },
            },
            content(" tail"),
        ]
    );
}
