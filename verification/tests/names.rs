//! Tests for component names, wider sequences, and multi-byte text.
use textparse::components::AnyChar;
use textparse::components::Empty;
use textparse::components::While;
use textparse::components::Char;
use textparse::components::Digit;
use textparse::components::Either;
use textparse::components::Named;
use textparse::components::Not;
use textparse::components::OneOfFour;
use textparse::components::OneOfThree;
use textparse::parse::Parse;
use textparse::parse::Parser;
use textparse::span::Span;

type StrAb = textparse::components::Str<97, 98, 0, 0, 0, 0, 0, 0, 0, 0>;
type Word = Named<StrAb, 119, 111, 114, 100, 0, 0, 0, 0, 0, 0, 0, 0, 0, 0, 0, 0>;

#[test]
fn names_of_components() {
    assert_eq!(<Char<97, true> as Parse>::name(), Some("'a'".to_string()));
    assert_eq!(<Char<97, false> as Parse>::name(), None);
    assert_eq!(<StrAb as Parse>::name(), Some("ab".to_string()));
    assert_eq!(<Word as Parse>::name(), Some("word".to_string()));
    assert_eq!(<Not<Char<97, true>> as Parse>::name(), Some("not 'a'".to_string()));
    assert_eq!(<Not<AnyChar> as Parse>::name(), None);
    assert_eq!(<textparse::components::Eos as Parse>::name(), Some("EOS".to_string()));
    assert_eq!(<AnyChar as Parse>::name(), None);
}

#[test]
fn named_component_parses_like_its_inner_component() {
    let mut parser = Parser::new("abc");
    let w = parser.parse::<Word>().expect("should parse");
    assert_eq!(w.start_position().get(), 0);
    assert_eq!(w.end_position().get(), 2);
    assert!(parser.parse::<Word>().is_none());
    assert_eq!(parser.expected().items(), vec!["word".to_string()]);
}

#[test]
fn one_of_three_and_four_take_the_earliest_branch() {
    let mut parser = Parser::new("c");
    let r = parser
        .parse::<OneOfThree<Char<97, true>, Char<99, true>, AnyChar>>()
        .expect("should parse");
    assert!(matches!(r, OneOfThree::B(_)));
    let mut parser = Parser::new("z");
    let r = parser
        .parse::<OneOfFour<Char<97, true>, Char<98, true>, Char<99, true>, AnyChar>>()
        .expect("should parse");
    assert!(matches!(r, OneOfFour::D(_)));
    let mut parser = Parser::new("");
    assert!(
        parser.parse::<OneOfFour<Char<97, true>, Char<98, true>, Char<99, true>, AnyChar>>()
            .is_none()
    );
}

#[test]
fn wider_sequences_parse_in_order() {
    let mut parser = Parser::new("abcd");
    let r = parser
        .parse::<(Char<97, false>, Char<98, false>, Char<99, false>, Char<100, false>)>()
        .expect("should parse");
    assert_eq!(r.0.start_position().get(), 0);
    assert_eq!(r.3.end_position().get(), 4);
    let mut parser = Parser::new("abcde");
    let r = parser
        .parse::<(AnyChar, AnyChar, AnyChar, AnyChar, AnyChar)>()
        .expect("should parse");
    assert_eq!(r.4.get(), 'e');
    let mut parser = Parser::new("abcdef");
    let r = parser
        .parse::<(AnyChar, AnyChar, AnyChar, AnyChar, AnyChar, AnyChar)>()
        .expect("should parse");
    assert_eq!(r.5.get(), 'f');
    assert_eq!(parser.current_position().get(), 6);
}

#[test]
fn peek_restores_the_cursor_but_memoizes() {
    let mut parser = Parser::new("42");
    let d = parser.peek::<Digit<10>>().expect("should parse");
    assert_eq!(d.get(), 4);
    assert_eq!(parser.current_position().get(), 0);
    // the memoized outcome is visible to parsed_items already
    assert_eq!(parser.parsed_items::<Digit<10>>().len(), 1);
    let d = parser.parse::<Digit<10>>().expect("replayed");
    assert_eq!(d.get(), 4);
    assert_eq!(parser.current_position().get(), 1);
}

#[test]
fn multibyte_text_keeps_byte_positions() {
    // 'é' is two bytes, '語' is three
    let mut parser = Parser::new("é語x");
    let c = parser.parse::<AnyChar>().expect("should parse");
    assert_eq!(c.get(), 'é');
    assert_eq!(c.end_position().get(), 2);
    let c = parser.parse::<AnyChar>().expect("should parse");
    assert_eq!(c.get(), '語');
    assert_eq!(c.end_position().get(), 5);
    let c = parser.parse::<AnyChar>().expect("should parse");
    assert_eq!(c.get(), 'x');
    assert!(parser.is_eos());
}

#[test]
fn multibyte_line_and_column_counts_characters() {
    let text = "é語\nab";
    let p = textparse::span::Position::new(5);
    assert_eq!(p.line_and_column(text), (1, 3));
    let p = textparse::span::Position::new(7);
    assert_eq!(p.line_and_column(text), (2, 2));
}

#[test]
fn alternatives_fail_only_when_all_branches_fail() {
    let mut parser = Parser::new("z");
    assert!(parser.parse::<Either<Char<97, true>, Char<98, true>>>().is_none());
    assert_eq!(parser.current_position().get(), 0);
    let names = parser.expected().items();
    assert_eq!(names.len(), 2);
}

#[test]
fn repetition_of_an_empty_item_stops_at_once() {
    // a zero-width success ends the run instead of spinning forever
    let mut parser = Parser::new("abc");
    let run = parser.parse::<While<Empty>>().expect("always parses");
    assert!(run.is_empty());
    assert_eq!(parser.current_position().get(), 0);
}

#[test]
fn span_text_slices_multibyte_input() {
    let text = "é語x";
    let mut parser = Parser::new(text);
    let c = parser.parse::<AnyChar>().expect("should parse");
    assert_eq!(c.text(text), "é");
    let c = parser.parse::<AnyChar>().expect("should parse");
    assert_eq!(c.text(text), "語");
    assert_eq!(c.len(), 3);
}
