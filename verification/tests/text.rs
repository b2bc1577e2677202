use antsi::ast::{Token, Tokens};
use antsi::lexer::SyntaxKind;
use antsi::parser::text::text;
use antsi::parser::Parser;
use antsi::styles::{Color, Decoration, Style};
use indexmap::IndexSet;

fn set(items: &[Decoration]) -> IndexSet<Decoration> {
    items.iter().copied().collect()
}

fn styled(
    foreground: Option<Color>,
    background: Option<Color>,
    decoration: Option<&[Decoration]>,
) -> Style {
    Style {
        foreground,
        background,
        decoration: decoration.map(set),
    }
}

fn content(text: &str) -> Token {
    Token::Content(String::from(text))
}

fn span(style: Style, content: Vec<Token>) -> Token {
    Token::Styled { content, style }
}

#[test]
fn text_empty() {
    let mut parser = Parser::new("");
    assert_eq!(text(&mut parser), Some(Tokens::from(vec![])));
}

#[test]
fn stops_consuming_at_open_parenthesis() {
    let mut parser = Parser::new("before(after");
    assert_eq!(
        text(&mut parser),
        Some(Tokens::from(vec![Token::Content(String::from("before"))]))
    );
    assert!(parser.at(SyntaxKind::ParenthesisOpen));
}

#[test]
fn stops_consuming_at_close_parenthesis() {
    let mut parser = Parser::new("before)after");
    assert_eq!(
        text(&mut parser),
        Some(Tokens::from(vec![Token::Content(String::from("before"))]))
    );
    assert!(parser.at(SyntaxKind::ParenthesisClose));
}

#[test]
fn stops_consuming_at_close_square_bracket() {
    let mut parser = Parser::new("before]after");
    assert_eq!(
        text(&mut parser),
        Some(Tokens::from(vec![Token::Content(String::from("before"))]))
    );
    assert!(parser.at(SyntaxKind::SquareBracketClose));
}

#[test]
fn lowercase_alphabetic() {
    let mut parser = Parser::new("abcdefghijklmnopqrstuvwxyz");
    assert_eq!(
        text(&mut parser),
        Some(Tokens::from(vec![Token::Content(String::from(
            "abcdefghijklmnopqrstuvwxyz"
        ))]))
    )
}

#[test]
fn uppercase_alphabetic() {
    let mut parser = Parser::new("ABCDEFGHIJKLMNOPQRSTUVWXYZ");
    assert_eq!(
        text(&mut parser),
        Some(Tokens::from(vec![Token::Content(String::from(
            "ABCDEFGHIJKLMNOPQRSTUVWXYZ"
        ))]))
    )
}

#[test]
fn mixed_case_alphabetic() {
    let mut parser = Parser::new("AaBbCcDdEeFfGgHhIiJjKkLlMmNnOoPpQqRrSsTtUuVvWwXxYuZz");
    assert_eq!(
        text(&mut parser),
        Some(Tokens::from(vec![Token::Content(String::from(
            "AaBbCcDdEeFfGgHhIiJjKkLlMmNnOoPpQqRrSsTtUuVvWwXxYuZz"
        ))]))
    )
}

#[test]
fn special_characters() {
    let mut parser = Parser::new("~!@#$%^&*-=_+~");
    assert_eq!(
        text(&mut parser),
        Some(Tokens::from(vec![Token::Content(String::from(
            "~!@#$%^&*-=_+~"
        ))]))
    )
}

#[test]
fn whitespace() {
    let mut parser = Parser::new(" \n\t\r");
    assert_eq!(
        text(&mut parser),
        Some(Tokens::from(vec![Token::Content(String::from(" \n\t\r"))]))
    )
}

#[test]
fn matching_color() {
    let mut parser = Parser::new("black");
    assert_eq!(
        text(&mut parser),
        Some(Tokens::from(vec![Token::Content(String::from("black"))]))
    );
}

#[test]
fn matching_bright_color() {
    let mut parser = Parser::new("bright-blue");
    assert_eq!(
        text(&mut parser),
        Some(Tokens::from(vec![Token::Content(String::from(
            "bright-blue"
        ))]))
    );
}

#[test]
fn matching_default_color() {
    let mut parser = Parser::new("default");
    assert_eq!(
        text(&mut parser),
        Some(Tokens::from(vec![Token::Content(String::from("default"))]))
    );
}

#[test]
fn matching_decoration() {
    let mut parser = Parser::new("fast-blink");
    assert_eq!(
        text(&mut parser),
        Some(Tokens::from(vec![Token::Content(String::from(
            "fast-blink"
        ))]))
    )
}

#[test]
fn containing_colon() {
    let mut parser = Parser::new(":");
    assert_eq!(
        text(&mut parser),
        Some(Tokens::from(vec![Token::Content(String::from(":"))]))
    )
}

#[test]
fn containing_semicolon() {
    let mut parser = Parser::new(";");
    assert_eq!(
        text(&mut parser),
        Some(Tokens::from(vec![Token::Content(String::from(";"))]))
    )
}

#[test]
fn containing_comma() {
    let mut parser = Parser::new(",");
    assert_eq!(
        text(&mut parser),
        Some(Tokens::from(vec![Token::Content(String::from(","))]))
    )
}

#[test]
fn containing_foreground_specifier() {
    let mut parser = Parser::new("fg");
    assert_eq!(
        text(&mut parser),
        Some(Tokens::from(vec![Token::Content(String::from("fg"))]))
    );
}

#[test]
fn containing_background_specifier() {
    let mut parser = Parser::new("bg");
    assert_eq!(
        text(&mut parser),
        Some(Tokens::from(vec![Token::Content(String::from("bg"))]))
    );
}

#[test]
fn containing_decoration_specifier() {
    let mut parser = Parser::new("deco");
    assert_eq!(
        text(&mut parser),
        Some(Tokens::from(vec![Token::Content(String::from("deco"))]))
    );
}

#[test]
fn escaped_backslash() {
    let mut parser = Parser::new("\\\\");
    assert_eq!(
        text(&mut parser),
        Some(Tokens::from(vec![Token::Content(String::from("\\"))]))
    )
}

#[test]
fn escaped_open_square_bracket() {
    let mut parser = Parser::new("\\[");
    assert_eq!(
        text(&mut parser),
        Some(Tokens::from(vec![Token::Content(String::from("["))]))
    )
}

#[test]
fn escaped_close_square_bracket() {
    let mut parser = Parser::new("\\]");
    assert_eq!(
        text(&mut parser),
        Some(Tokens::from(vec![Token::Content(String::from("]"))]))
    )
}

#[test]
fn escaped_open_parenthesis() {
    let mut parser = Parser::new("\\(");
    assert_eq!(
        text(&mut parser),
        Some(Tokens::from(vec![Token::Content(String::from("("))]))
    )
}

#[test]
fn escaped_close_parenthesis() {
    let mut parser = Parser::new("\\)");
    assert_eq!(
        text(&mut parser),
        Some(Tokens::from(vec![Token::Content(String::from(")"))]))
    )
}

#[test]
fn escaped_whitespace() {
    let mut parser = Parser::new("\\ \n\t\r");
    assert_eq!(text(&mut parser), Some(Tokens::from(vec![])));
}

#[test]
fn multiple_distinct_tokens() {
    let mut parser = Parser::new("some plaintext \\(ascii\\] \\\n\n :+1:");
    assert_eq!(
        text(&mut parser),
        Some(Tokens::from(vec![Token::Content(String::from(
            "some plaintext (ascii] :+1:"
        ))]))
    );
}

#[test]
fn mixed_characters_and_escape_characters() {
    let mut parser = Parser::new("abc\\(DEF\\)12\\   34\\[!@#$\\]");
    assert_eq!(
        text(&mut parser),
        Some(Tokens::from(vec![Token::Content(String::from(
            "abc(DEF)1234[!@#$]"
        ))]))
    );
}

#[test]
fn empty_token() {
    let mut parser = Parser::new("[fg:red]()");
    assert_eq!(
        text(&mut parser),
        Some(Tokens::from(vec![span(styled(Some(Color::Red), None, None), vec![])]))
    );
    assert!(parser.at_end());
}

#[test]
fn token_with_foreground() {
    let mut parser = Parser::new("[fg:red](inner)");
    assert_eq!(
        text(&mut parser),
        Some(Tokens::from(vec![span(styled(Some(Color::Red), None, None), vec![content("inner")])]))
    );
    assert!(parser.at_end());
}

#[test]
fn token_with_background() {
    let mut parser = Parser::new("[bg:blue](inner)");
    assert_eq!(
        text(&mut parser),
        Some(Tokens::from(vec![span(styled(None, Some(Color::Blue), None), vec![content("inner")])]))
    );
    assert!(parser.at_end());
}

#[test]
fn token_with_single_decoration() {
    let mut parser = Parser::new("[deco:dim](inner)");
    assert_eq!(
        text(&mut parser),
        Some(Tokens::from(vec![span(styled(None, None, Some(&[Decoration::Dim])), vec![content("inner")])]))
    );
    assert!(parser.at_end());
}

#[test]
fn token_with_multiple_decorations() {
    let mut parser = Parser::new("[deco:dim,italic](inner)");
    assert_eq!(
        text(&mut parser),
        Some(Tokens::from(vec![span(
            styled(None, None, Some(&[Decoration::Dim, Decoration::Italic])),
            vec![content("inner")]
        )]))
    );
    assert!(parser.at_end());
}

#[test]
fn token_with_multiple_styles() {
    let mut parser = Parser::new("[deco:dim,italic;fg:red;bg:blue](inner)");
    assert_eq!(
        text(&mut parser),
        Some(Tokens::from(vec![span(
            styled(
                Some(Color::Red),
                Some(Color::Blue),
                Some(&[Decoration::Dim, Decoration::Italic])
            ),
            vec![content("inner")]
        )]))
    );
    assert!(parser.at_end());
}

#[test]
fn token_with_leading_content() {
    let mut parser = Parser::new("leading [fg:red](content)");
    assert_eq!(
        text(&mut parser),
        Some(Tokens::from(vec![
            content("leading "),
            span(styled(Some(Color::Red), None, None), vec![content("content")]),
        ]))
    );
    assert!(parser.at_end());
}

#[test]
fn token_with_trailing_content() {
    let mut parser = Parser::new("[fg:red](content) trailing");
    assert_eq!(
        text(&mut parser),
        Some(Tokens::from(vec![
            span(styled(Some(Color::Red), None, None), vec![content("content")]),
            content(" trailing"),
        ]))
    );
    assert!(parser.at_end());
}

#[test]
fn token_with_leading_and_trailing_content() {
    let mut parser = Parser::new("leading [fg:red](content) trailing");
    assert_eq!(
        text(&mut parser),
        Some(Tokens::from(vec![
            content("leading "),
            span(styled(Some(Color::Red), None, None), vec![content("content")]),
            content(" trailing"),
        ]))
    );
    assert!(parser.at_end());
}

#[test]
fn text_nested_token() {
    let mut parser = Parser::new("[fg:red]([bg:blue](inner))");
    assert_eq!(
        text(&mut parser),
        Some(Tokens::from(vec![span(
            styled(Some(Color::Red), None, None),
            vec![span(styled(None, Some(Color::Blue), None), vec![content("inner")])]
        )]))
    );
    assert!(parser.at_end());
}

#[test]
fn kitchen_sink() {
    let mut parser = Parser::new("leading [fg:red](one [bg:blue](two [deco:dim](three) two) one) trailing");
    assert_eq!(
        text(&mut parser),
        Some(Tokens::from(vec![
            content("leading "),
            span(
                styled(Some(Color::Red), None, None),
                vec![
                    content("one "),
                    span(
                        styled(None, Some(Color::Blue), None),
                        vec![
                            content("two "),
                            span(
                                styled(None, None, Some(&[Decoration::Dim])),
                                vec![content("three")]
                            ),
                            content(" two"),
                        ]
                    ),
                    content(" one"),
                ]
            ),
            content(" trailing"),
        ]))
    );
    assert!(parser.at_end());
}

