use antsi::lexer::SyntaxKind;
use antsi::parser::style::{color_specifier, decorations_specifier, style};
use antsi::parser::Parser;
use antsi::styles::{Color, Decoration, Style};
use indexmap::IndexSet;

fn set(items: &[Decoration]) -> IndexSet<Decoration> {
    items.iter().copied().collect()
}

fn styled(
    foreground: Option<Color>,
    background: Option<Color>,
    decoration: Option<&[Decoration]>,
) -> Style {
    Style {
        foreground,
        background,
        decoration: decoration.map(set),
    }
}

#[test]
fn foreground_color_specifier() {
    let mut parser = Parser::new("fg:red");
    let result = color_specifier(&mut parser, SyntaxKind::ForegroundSpecifier);
    assert_eq!(result, Some(Color::Red));
}

#[test]
fn foreground_color_specifier_uppercase_tag() {
    let mut parser = Parser::new("FG:blue");
    let result = color_specifier(&mut parser, SyntaxKind::ForegroundSpecifier);
    assert_eq!(result, Some(Color::Blue));
}

#[test]
fn foreground_color_specifier_uppercase_value() {
    let mut parser = Parser::new("fg:BLUE");
    let result = color_specifier(&mut parser, SyntaxKind::ForegroundSpecifier);
    assert_eq!(result, Some(Color::Blue));
}

#[test]
fn foreground_color_specifier_all_uppercase() {
    let mut parser = Parser::new("FG:BLUE");
    let result = color_specifier(&mut parser, SyntaxKind::ForegroundSpecifier);
    assert_eq!(result, Some(Color::Blue));
}

#[test]
fn background_color_specifier() {
    let mut parser = Parser::new("bg:red");
    let result = color_specifier(&mut parser, SyntaxKind::BackgroundSpecifier);
    assert_eq!(result, Some(Color::Red));
}

#[test]
fn background_color_specifier_uppercase_tag() {
    let mut parser = Parser::new("BG:blue");
    let result = color_specifier(&mut parser, SyntaxKind::BackgroundSpecifier);
    assert_eq!(result, Some(Color::Blue));
}

#[test]
fn background_color_specifier_uppercase_value() {
    let mut parser = Parser::new("bg:BLUE");
    let result = color_specifier(&mut parser, SyntaxKind::BackgroundSpecifier);
    assert_eq!(result, Some(Color::Blue));
}

#[test]
fn background_color_specifier_all_uppercase() {
    let mut parser = Parser::new("BG:BLUE");
    let result = color_specifier(&mut parser, SyntaxKind::BackgroundSpecifier);
    assert_eq!(result, Some(Color::Blue));
}

#[test]
fn decoration_specifier_single_decoration() {
    let mut parser = Parser::new("deco:bold");
    let result = decorations_specifier(&mut parser, SyntaxKind::DecorationSpecifier);
    assert_eq!(result, Some(set(&[Decoration::Bold])));
}

#[test]
fn decoration_specifier_two_decorations() {
    let mut parser = Parser::new("deco:bold,italic");
    let result = decorations_specifier(&mut parser, SyntaxKind::DecorationSpecifier);
    assert_eq!(result, Some(set(&[Decoration::Bold, Decoration::Italic])));
}

#[test]
fn decoration_specifier_many_decorations() {
    let mut parser = Parser::new("deco:bold,italic,hide,strike-through,fast-blink");
    let result = decorations_specifier(&mut parser, SyntaxKind::DecorationSpecifier);
    assert_eq!(
        result,
        Some(
            set(&[Decoration::Bold, Decoration::Italic, Decoration::Hide, Decoration::StrikeThrough, Decoration::FastBlink])
        )
    );
}

#[test]
fn decoration_specifier_duplicates_are_ignored() {
    let mut parser = Parser::new("deco:bold,bold");
    let result = decorations_specifier(&mut parser, SyntaxKind::DecorationSpecifier);
    assert_eq!(result, Some(set(&[Decoration::Bold])));
}

#[test]
fn decoration_specifier_interleaved_duplicates_are_ignored() {
    let mut parser = Parser::new("deco:bold,italic,bold,italic");
    let result = decorations_specifier(&mut parser, SyntaxKind::DecorationSpecifier);
    assert_eq!(result, Some(set(&[Decoration::Bold, Decoration::Italic])));
}

#[test]
fn decoration_specifier_uppercase_tag() {
    let mut parser = Parser::new("DECO:bold");
    let result = decorations_specifier(&mut parser, SyntaxKind::DecorationSpecifier);
    assert_eq!(result, Some(set(&[Decoration::Bold])));
}

#[test]
fn decoration_specifier_uppercase_value() {
    let mut parser = Parser::new("deco:BOLD");
    let result = decorations_specifier(&mut parser, SyntaxKind::DecorationSpecifier);
    assert_eq!(result, Some(set(&[Decoration::Bold])));
}

#[test]
fn decoration_specifier_all_uppercase() {
    let mut parser = Parser::new("DECO:BOLD");
    let result = decorations_specifier(&mut parser, SyntaxKind::DecorationSpecifier);
    assert_eq!(result, Some(set(&[Decoration::Bold])));
}

#[test]
fn style_foreground() {
    let mut parser = Parser::new("[fg:red]");
    let result = style(&mut parser);
    assert_eq!(result, Some(styled(Some(Color::Red), None, None)));
}

#[test]
fn style_background() {
    let mut parser = Parser::new("[bg:red]");
    let result = style(&mut parser);
    assert_eq!(result, Some(styled(None, Some(Color::Red), None)));
}

#[test]
fn style_single_decoration() {
    let mut parser = Parser::new("[deco:bold]");
    let result = style(&mut parser);
    assert_eq!(result, Some(styled(None, None, Some(&[Decoration::Bold]))));
}

#[test]
fn style_multiple_decorations() {
    let mut parser = Parser::new("[deco:bold,italic]");
    let result = style(&mut parser);
    assert_eq!(result, Some(styled(None, None, Some(&[Decoration::Bold, Decoration::Italic]))));
}

#[test]
fn style_foreground_and_background() {
    let mut parser = Parser::new("[fg:red;bg:blue]");
    let result = style(&mut parser);
    assert_eq!(result, Some(styled(Some(Color::Red), Some(Color::Blue), None)));
}

#[test]
fn style_foreground_and_single_decoration() {
    let mut parser = Parser::new("[fg:red;deco:bold]");
    let result = style(&mut parser);
    assert_eq!(result, Some(styled(Some(Color::Red), None, Some(&[Decoration::Bold]))));
}

#[test]
fn style_foreground_and_multiple_decorations() {
    let mut parser = Parser::new("[fg:red;deco:bold,italic]");
    let result = style(&mut parser);
    assert_eq!(result, Some(styled(Some(Color::Red), None, Some(&[Decoration::Bold, Decoration::Italic]))));
}

#[test]
fn style_background_and_foreground() {
    let mut parser = Parser::new("[bg:blue;fg:red]");
    let result = style(&mut parser);
    assert_eq!(result, Some(styled(Some(Color::Red), Some(Color::Blue), None)));
}

#[test]
fn style_background_and_single_decoration() {
    let mut parser = Parser::new("[bg:blue;deco:bold]");
    let result = style(&mut parser);
    assert_eq!(result, Some(styled(None, Some(Color::Blue), Some(&[Decoration::Bold]))));
}

#[test]
fn style_background_and_multiple_decorations() {
    let mut parser = Parser::new("[bg:blue;deco:bold,italic]");
    let result = style(&mut parser);
    assert_eq!(result, Some(styled(None, Some(Color::Blue), Some(&[Decoration::Bold, Decoration::Italic]))));
}

#[test]
fn style_single_decoration_and_foreground() {
    let mut parser = Parser::new("[deco:bold;fg:red]");
    let result = style(&mut parser);
    assert_eq!(result, Some(styled(Some(Color::Red), None, Some(&[Decoration::Bold]))));
}

#[test]
fn style_multiple_decorations_and_foreground() {
    let mut parser = Parser::new("[deco:bold,italic;fg:red]");
    let result = style(&mut parser);
    assert_eq!(result, Some(styled(Some(Color::Red), None, Some(&[Decoration::Bold, Decoration::Italic]))));
}

#[test]
fn style_single_decoration_and_background() {
    let mut parser = Parser::new("[deco:bold;bg:blue]");
    let result = style(&mut parser);
    assert_eq!(result, Some(styled(None, Some(Color::Blue), Some(&[Decoration::Bold]))));
}

#[test]
fn style_multiple_decorations_and_background() {
    let mut parser = Parser::new("[deco:bold,italic;bg:blue]");
    let result = style(&mut parser);
    assert_eq!(result, Some(styled(None, Some(Color::Blue), Some(&[Decoration::Bold, Decoration::Italic]))));
}

#[test]
fn style_foreground_background_and_single_decoration() {
    let mut parser = Parser::new("[fg:red;bg:blue;deco:bold]");
    let result = style(&mut parser);
    assert_eq!(result, Some(styled(Some(Color::Red), Some(Color::Blue), Some(&[Decoration::Bold]))));
}

#[test]
fn style_foreground_background_and_multiple_decorations() {
    let mut parser = Parser::new("[fg:red;bg:blue;deco:bold,italic]");
    let result = style(&mut parser);
    assert_eq!(result, Some(styled(Some(Color::Red), Some(Color::Blue), Some(&[Decoration::Bold, Decoration::Italic]))));
}

#[test]
fn style_foreground_single_decoration_and_background() {
    let mut parser = Parser::new("[fg:red;deco:bold;bg:blue]");
    let result = style(&mut parser);
    assert_eq!(result, Some(styled(Some(Color::Red), Some(Color::Blue), Some(&[Decoration::Bold]))));
}

#[test]
fn style_foreground_multiple_decorations_and_background() {
    let mut parser = Parser::new("[fg:red;deco:bold,italic;bg:blue]");
    let result = style(&mut parser);
    assert_eq!(result, Some(styled(Some(Color::Red), Some(Color::Blue), Some(&[Decoration::Bold, Decoration::Italic]))));
}

#[test]
fn style_background_foreground_and_single_decoration() {
    let mut parser = Parser::new("[bg:blue;fg:red;deco:bold]");
    let result = style(&mut parser);
    assert_eq!(result, Some(styled(Some(Color::Red), Some(Color::Blue), Some(&[Decoration::Bold]))));
}

#[test]
fn style_background_foreground_and_multiple_decorations() {
    let mut parser = Parser::new("[bg:blue;fg:red;deco:bold,italic]");
    let result = style(&mut parser);
    assert_eq!(result, Some(styled(Some(Color::Red), Some(Color::Blue), Some(&[Decoration::Bold, Decoration::Italic]))));
}

#[test]
fn style_background_single_decoration_and_foreground() {
    let mut parser = Parser::new("[bg:blue;deco:bold;fg:red]");
    let result = style(&mut parser);
    assert_eq!(result, Some(styled(Some(Color::Red), Some(Color::Blue), Some(&[Decoration::Bold]))));
}

#[test]
fn style_background_multiple_decorations_and_foreground() {
    let mut parser = Parser::new("[bg:blue;deco:bold,italic;fg:red]");
    let result = style(&mut parser);
    assert_eq!(result, Some(styled(Some(Color::Red), Some(Color::Blue), Some(&[Decoration::Bold, Decoration::Italic]))));
}

#[test]
fn style_single_decoration_foreground_and_background() {
    let mut parser = Parser::new("[deco:bold;fg:red;bg:blue]");
    let result = style(&mut parser);
    assert_eq!(result, Some(styled(Some(Color::Red), Some(Color::Blue), Some(&[Decoration::Bold]))));
}

#[test]
fn style_single_decoration_background_and_foreground() {
    let mut parser = Parser::new("[deco:bold;bg:blue;fg:red]");
    let result = style(&mut parser);
    assert_eq!(result, Some(styled(Some(Color::Red), Some(Color::Blue), Some(&[Decoration::Bold]))));
}

#[test]
fn style_multiple_decorations_foreground_and_background() {
    let mut parser = Parser::new("[deco:bold,italic;fg:red;bg:blue]");
    let result = style(&mut parser);
    assert_eq!(result, Some(styled(Some(Color::Red), Some(Color::Blue), Some(&[Decoration::Bold, Decoration::Italic]))));
}

#[test]
fn style_multiple_decorations_background_and_foreground() {
    let mut parser = Parser::new("[deco:bold,italic;bg:blue;fg:red]");
    let result = style(&mut parser);
    assert_eq!(result, Some(styled(Some(Color::Red), Some(Color::Blue), Some(&[Decoration::Bold, Decoration::Italic]))));
}

#[test]
fn style_last_foreground_specifier_takes_precedence() {
    let mut parser = Parser::new("[fg:blue;fg:red]");
    let result = style(&mut parser);
    assert_eq!(result, Some(styled(Some(Color::Red), None, None)));
}

#[test]
fn style_last_background_specifier_takes_precedence() {
    let mut parser = Parser::new("[bg:red;bg:blue]");
    let result = style(&mut parser);
    assert_eq!(result, Some(styled(None, Some(Color::Blue), None)));
}

#[test]
fn style_last_decoration_specifier_takes_precedence() {
    let mut parser = Parser::new("[deco:italic;deco:bold]");
    let result = style(&mut parser);
    assert_eq!(result, Some(styled(None, None, Some(&[Decoration::Bold]))));
}

#[test]
fn decorations_keep_the_order_of_their_first_mention() {
    let mut parser = Parser::new("deco:hide,bold,conceal,italic,bold,dim,faint");
    let result = decorations_specifier(&mut parser, SyntaxKind::DecorationSpecifier).unwrap();
    assert_eq!(
        result.into_iter().collect::<Vec<_>>(),
        vec![
            Decoration::Hide,
            Decoration::Bold,
            Decoration::Italic,
            Decoration::Dim
        ]
    );
}

#[test]
fn style_stops_behind_the_block() {
    let mut parser = Parser::new("[fg:red;bg:blue](x)");
    let result = style(&mut parser);
    assert_eq!(result, Some(styled(Some(Color::Red), Some(Color::Blue), None)));
    assert!(parser.at(SyntaxKind::ParenthesisOpen));
}

#[test]
fn style_with_trailing_semicolon_fails() {
    let mut parser = Parser::new("[fg:red;]");
    assert_eq!(style(&mut parser), None);
    assert!(parser.at(SyntaxKind::SquareBracketClose));
}

#[test]
fn style_without_closing_bracket_stands() {
    let mut parser = Parser::new("[fg:red(");
    assert_eq!(style(&mut parser), Some(styled(Some(Color::Red), None, None)));
    assert!(parser.at(SyntaxKind::ParenthesisOpen));
}
