//! A small JSON grammar built purely out of the library's combinators:
//! values are `null`, digit runs, or arrays of values, with whitespace
//! allowed around array punctuation.
use textparse::components::Char;
use textparse::components::Digit;
use textparse::components::Either;
use textparse::components::Eos;
use textparse::components::Items;
use textparse::components::Named;
use textparse::components::NonEmpty;
use textparse::components::While;
use textparse::components::Whitespace;
use textparse::parse::Parser;
use textparse::span::Span;

type Ws = While<Whitespace>;
type JsonNull = textparse::components::Str<110, 117, 108, 108, 0, 0, 0, 0, 0, 0>;
type JsonNumber = NonEmpty<While<Digit<10>>>;
type JsonLeaf = Either<JsonNull, JsonNumber>;
type Comma = (Ws, Char<44, false>, Ws);
type ArrayOf<V> = ((Char<91, false>, Ws), Items<V, Comma>, (Ws, Char<93, false>));

// the name "a JSON value", as character codes
type WithValueName<T> = Named<
    T,
    97,
    32,
    74,
    83,
    79,
    78,
    32,
    118,
    97,
    108,
    117,
    101,
    0,
    0,
    0,
    0,
>;

type JsonItem = WithValueName<JsonLeaf>;
type JsonValue = WithValueName<Either<JsonLeaf, ArrayOf<JsonItem>>>;

#[test]
fn json_primitive_null() {
    let mut parser = Parser::new("null");
    let value = parser.parse::<JsonValue>().expect("should parse");
    assert_eq!(value.start_position().get(), 0);
    assert_eq!(value.end_position().get(), 4);
    assert!(parser.is_eos());
}

#[test]
fn json_whitespace_tolerance() {
    // leading and trailing whitespace is consumed around the value, and the
    // value's own span covers exactly the array
    let mut parser = Parser::new("  [ 1 , 2 ]  ");
    let (_, value, _) = parser.parse::<(Ws, JsonValue, Ws)>().expect("should parse");
    assert_eq!(value.start_position().get(), 2);
    assert_eq!(value.end_position().get(), 11);
    let array = match &value.0 {
        Either::B(a) => a,
        Either::A(_) => panic!("expected an array"),
    };
    let items = array.1.items();
    assert_eq!(items.len(), 2);
    assert_eq!(items[0].start_position().get(), 4);
    assert_eq!(items[0].end_position().get(), 5);
    assert_eq!(items[1].start_position().get(), 8);
    assert_eq!(items[1].end_position().get(), 9);
    assert!(parser.is_eos());
}

#[test]
fn json_failure_diagnostic() {
    let mut parser = Parser::new("[1, 2,]");
    assert!(parser.parse::<(JsonValue, Eos)>().is_none());
    assert_eq!(parser.current_position().get(), 0);
    // the diagnostic points at the `]`, where another value was expected
    assert_eq!(parser.expected().position().get(), 6);
    let names = parser.expected().items();
    assert!(names.contains(&"a JSON value".to_string()));
    let error = parser.into_parse_error();
    assert_eq!(error.position().line_and_column("[1, 2,]"), (1, 7));
    let reason = error.error_reason();
    assert!(reason.contains("a JSON value"));
}

#[test]
fn json_array_of_leaves() {
    let mut parser = Parser::new("[null,12,null]");
    let value = parser.parse::<JsonValue>().expect("should parse");
    assert!(parser.is_eos());
    let array = match &value.0 {
        Either::B(a) => a,
        Either::A(_) => panic!("expected an array"),
    };
    assert_eq!(array.1.items().len(), 3);
    assert_eq!(array.1.delimiters().len(), 2);
}

#[test]
fn json_empty_array() {
    let mut parser = Parser::new("[ ]");
    let value = parser.parse::<JsonValue>().expect("should parse");
    assert!(parser.is_eos());
    assert_eq!(value.start_position().get(), 0);
    assert_eq!(value.end_position().get(), 3);
}
