//! Tests for the parser state, the dispatch, and the basic combinators.
use textparse::components::AnyChar;
use textparse::components::Char;
use textparse::components::Digit;
use textparse::components::Either;
use textparse::components::Empty;
use textparse::components::Eos;
use textparse::components::Items;
use textparse::components::Maybe;
use textparse::components::NonEmpty;
use textparse::components::Not;
use textparse::components::While;
use textparse::components::Whitespace;
use textparse::parse::Parser;
use textparse::span::Position;
use textparse::span::Span;

type StrIf = textparse::components::Str<105, 102, 0, 0, 0, 0, 0, 0, 0, 0>;
type StrIfdef = textparse::components::Str<105, 102, 100, 101, 102, 0, 0, 0, 0, 0>;

#[test]
fn position_accessors() {
    let p = Position::new(7);
    assert_eq!(p.get(), 7);
    assert_eq!(p.offset, 7);
}

#[test]
fn line_and_column_counts_lines_and_chars() {
    let text = "ab\ncd";
    assert_eq!(Position::new(0).line_and_column(text), (1, 1));
    assert_eq!(Position::new(2).line_and_column(text), (1, 3));
    assert_eq!(Position::new(3).line_and_column(text), (2, 1));
    assert_eq!(Position::new(5).line_and_column(text), (2, 3));
}

#[test]
fn reading_characters() {
    let mut parser = Parser::new("héllo");
    assert!(!parser.is_eos());
    assert_eq!(parser.text(), "héllo");
    assert_eq!(parser.peek_char(), Some('h'));
    assert_eq!(parser.read_char(), Some('h'));
    assert_eq!(parser.read_char(), Some('é'));
    // 'é' takes two bytes
    assert_eq!(parser.current_position().get(), 3);
    assert_eq!(parser.remaining_text(), "llo");
    assert_eq!(parser.read_char(), Some('l'));
    assert_eq!(parser.read_char(), Some('l'));
    assert_eq!(parser.read_char(), Some('o'));
    assert!(parser.is_eos());
    assert_eq!(parser.read_char(), None);
    assert_eq!(parser.peek_char(), None);
}

#[test]
fn consuming_bytes_and_chars() {
    let mut parser = Parser::new("abcdef");
    let (before, after) = parser.consume_bytes(2);
    assert_eq!(before.get(), 0);
    assert_eq!(after.get(), 2);
    let (before, after) = parser.consume_chars(3);
    assert_eq!(before.get(), 2);
    assert_eq!(after.get(), 5);
    // clamped at the end of the input
    let (_, after) = parser.consume_bytes(100);
    assert_eq!(after.get(), 6);
    let (_, after) = parser.consume_chars(4);
    assert_eq!(after.get(), 6);
}

#[test]
fn any_char_consumes_one() {
    let mut parser = Parser::new("ab");
    let c = parser.parse::<AnyChar>().expect("should parse");
    assert_eq!(c.get(), 'a');
    assert_eq!(c.start_position().get(), 0);
    assert_eq!(c.end_position().get(), 1);
    assert_eq!(parser.current_position().get(), 1);
}

#[test]
fn any_char_fails_at_eos() {
    let mut parser = Parser::new("");
    assert!(parser.parse::<AnyChar>().is_none());
    assert_eq!(parser.current_position().get(), 0);
}

#[test]
fn specific_char_matches_exactly() {
    let mut parser = Parser::new("ab");
    // 'b' is 98: wrong character, cursor stays
    assert!(parser.parse::<Char<98, true>>().is_none());
    assert_eq!(parser.current_position().get(), 0);
    // 'a' is 97
    let c = parser.parse::<Char<97, true>>().expect("should parse");
    assert_eq!(c.start_position().get(), 0);
    assert_eq!(c.end_position().get(), 1);
}

#[test]
fn empty_and_eos_spans_collapse_to_cursor() {
    let mut parser = Parser::new("a");
    let e = parser.parse::<Empty>().expect("always parses");
    assert_eq!(e.start_position().get(), 0);
    assert_eq!(e.end_position().get(), 0);
    assert!(e.is_empty());
    assert!(parser.parse::<Eos>().is_none());
    parser.read_char();
    let eos = parser.parse::<Eos>().expect("at the end");
    assert_eq!(eos.start_position().get(), 1);
    assert_eq!(eos.end_position().get(), 1);
    assert!(eos.is_empty());
}

#[test]
fn digits_give_their_value() {
    let mut parser = Parser::new("7f");
    let d = parser.parse::<Digit<10>>().expect("should parse");
    assert_eq!(d.get(), 7);
    assert!(parser.parse::<Digit<10>>().is_none());
    let h = parser.parse::<Digit<16>>().expect("hex digit");
    assert_eq!(h.get(), 15);
}

#[test]
fn whitespace_run() {
    let mut parser = Parser::new("  \t x");
    let run = parser.parse::<While<Whitespace>>().expect("always parses");
    assert_eq!(run.start_position().get(), 0);
    assert_eq!(run.end_position().get(), 4);
    assert_eq!(parser.current_position().get(), 4);
    // an empty run still parses
    let run = parser.parse::<While<Whitespace>>().expect("always parses");
    assert!(run.is_empty());
    assert_eq!(parser.current_position().get(), 4);
}

#[test]
fn maybe_is_present_iff_the_item_parses() {
    let mut parser = Parser::new("ab");
    let m = parser.parse::<Maybe<Char<97, true>>>().expect("always parses");
    assert!(m.get().is_some());
    assert_eq!(parser.current_position().get(), 1);
    let m = parser.parse::<Maybe<Char<97, true>>>().expect("always parses");
    assert!(m.get().is_none());
    assert!(m.is_empty());
    assert_eq!(parser.current_position().get(), 1);
}

#[test]
fn non_empty_rejects_empty_spans() {
    let mut parser = Parser::new("x");
    assert!(parser.parse::<NonEmpty<While<Whitespace>>>().is_none());
    assert_eq!(parser.current_position().get(), 0);
    let mut parser = Parser::new(" x");
    let run = parser.parse::<NonEmpty<While<Whitespace>>>().expect("one space");
    assert_eq!(run.get().end_position().get(), 1);
}

#[test]
fn alternative_takes_the_earliest_branch() {
    // PEG ordered choice: `if` wins over `ifdef` even on input `ifdef`
    let mut parser = Parser::new("ifdef");
    let r = parser.parse::<Either<StrIf, StrIfdef>>().expect("should parse");
    assert!(matches!(r, Either::A(_)));
    assert_eq!(parser.current_position().get(), 2);
}

#[test]
fn alternative_falls_back_to_later_branches() {
    let mut parser = Parser::new("ifdef");
    let r = parser.parse::<Either<StrIfdef, StrIf>>().expect("should parse");
    assert!(matches!(r, Either::A(_)));
    assert_eq!(parser.current_position().get(), 5);
    let mut parser = Parser::new("if");
    let r = parser.parse::<Either<StrIfdef, StrIf>>().expect("should parse");
    assert!(matches!(r, Either::B(_)));
    assert_eq!(parser.current_position().get(), 2);
}

#[test]
fn not_looks_ahead_without_consuming() {
    // grammar (Not<Char<'x'>>, AnyChar) on input "y": succeeds, consumes "y"
    let mut parser = Parser::new("y");
    let r = parser.parse::<(Not<Char<120, true>>, AnyChar)>().expect("should parse");
    assert_eq!(r.1.get(), 'y');
    assert_eq!(parser.current_position().get(), 1);
    // on input "x": fails, cursor at 0
    let mut parser = Parser::new("x");
    assert!(parser.parse::<(Not<Char<120, true>>, AnyChar)>().is_none());
    assert_eq!(parser.current_position().get(), 0);
}

#[test]
fn sequence_failure_rewinds_to_its_start() {
    let mut parser = Parser::new("ab");
    parser.read_char();
    // at position 1: 'b' then 'c' — the second element fails
    assert!(parser.parse::<(Char<98, true>, Char<99, true>)>().is_none());
    assert_eq!(parser.current_position().get(), 1);
}

#[test]
fn items_split_by_delimiters() {
    let mut parser = Parser::new("1,2,3");
    let items = parser.parse::<Items<Digit<10>, Char<44, true>>>().expect("always parses");
    assert_eq!(items.items().len(), 3);
    assert_eq!(items.delimiters().len(), 2);
    assert_eq!(items.items()[0].get(), 1);
    assert_eq!(items.items()[2].get(), 3);
    assert_eq!(parser.current_position().get(), 5);
}

#[test]
fn items_do_not_consume_a_trailing_delimiter() {
    // `1,2,` fails as a non-empty run (delimiter without an item), so the
    // optional form parses nothing and rewinds to the start
    let mut parser = Parser::new("1,2,");
    let items = parser.parse::<Items<Digit<10>, Char<44, true>>>().expect("always parses");
    assert_eq!(items.items().len(), 0);
    assert_eq!(parser.current_position().get(), 0);
}

#[test]
fn memoized_outcome_is_replayed() {
    let mut parser = Parser::new("ifdef");
    let first = parser.peek::<StrIf>().expect("should parse");
    assert_eq!(parser.current_position().get(), 0);
    // the same parse at the same cursor replays the recorded outcome
    let second = parser.parse::<StrIf>().expect("should parse");
    assert_eq!(first.start_position().get(), second.start_position().get());
    assert_eq!(first.end_position().get(), second.end_position().get());
    assert_eq!(parser.current_position().get(), 2);
    // a failure is replayed too
    let mut parser = Parser::new("no");
    assert!(parser.peek::<StrIf>().is_none());
    assert!(parser.parse::<StrIf>().is_none());
    assert_eq!(parser.current_position().get(), 0);
}

#[test]
fn parsed_items_come_back_in_position_order() {
    let mut parser = Parser::new("12x");
    parser.parse::<Digit<10>>().expect("first digit");
    parser.parse::<Digit<10>>().expect("second digit");
    assert!(parser.parse::<Digit<10>>().is_none());
    let found = parser.parsed_items::<Digit<10>>();
    assert_eq!(found.len(), 2);
    assert_eq!(found[0].0.get(), 0);
    assert_eq!(found[0].1.get(), 1);
    assert_eq!(found[1].0.get(), 1);
    assert_eq!(found[1].1.get(), 2);
}

#[test]
fn span_text_slices_the_input() {
    let text = "hello world";
    let mut parser = Parser::new(text);
    let mut word = String::new();
    loop {
        match parser.peek_char() {
            Some(c) if c != ' ' => {
                parser.read_char();
                word.push(c);
            }
            _ => break,
        }
    }
    assert_eq!(word, "hello");
    let c = parser.parse::<AnyChar>().expect("the space");
    assert_eq!(c.text(text), " ");
    assert_eq!(c.len(), 1);
}

#[test]
fn expected_record_points_at_the_deepest_named_attempt() {
    let mut parser = Parser::new("ab");
    parser.read_char();
    assert!(parser.parse::<Char<120, true>>().is_none());
    let expected = parser.expected();
    assert_eq!(expected.position().get(), 1);
    let names = expected.items();
    assert_eq!(names, vec!["'x'".to_string()]);
}

#[test]
fn error_reason_phrases() {
    // one name
    let mut parser = Parser::new("z");
    assert!(parser.parse::<Char<97, true>>().is_none());
    let error = parser.into_parse_error();
    assert_eq!(error.error_reason(), "expected 'a'");
    // several names, sorted, with an Oxford comma
    let mut parser = Parser::new("z");
    assert!(parser.parse::<Either<Char<98, true>, Either<Char<97, true>, Char<99, true>>>>().is_none());
    let error = parser.into_parse_error();
    assert_eq!(error.error_reason(), "expected one of 'a', 'b', or 'c'");
}

#[test]
fn message_renders_location_and_caret() {
    let mut parser = Parser::new("z");
    assert!(parser.parse::<Char<97, true>>().is_none());
    let error = parser.into_parse_error().file_path("input.txt");
    let message = error.message();
    assert_eq!(
        message,
        "expected 'a'\n  --> input.txt:1:1\n  |\n1 | z\n  | ^ expected 'a'\n"
    );
}

#[test]
fn message_marks_eos() {
    let mut parser = Parser::new("a");
    parser.parse::<Char<97, true>>().expect("consume it");
    assert!(parser.parse::<Char<97, true>>().is_none());
    let error = parser.into_parse_error();
    let message = error.message();
    assert!(message.starts_with("expected 'a', reached EOS\n"));
    assert!(message.contains("  --> <UNKNOWN>:1:2\n"));
}
