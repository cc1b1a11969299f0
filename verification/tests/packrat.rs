//! The memoization keeps a deeply alternating grammar tractable: without the
//! memo this tower of ordered choices would take time exponential in its
//! depth, with it the parse finishes immediately.
use textparse::components::AnyChar;
use textparse::components::Either;
use textparse::components::Eos;
use textparse::parse::Parser;

type P0 = AnyChar;
type P1 = Either<Box<(P0, P0)>, P0>;
type P2 = Either<Box<(P1, P1)>, P1>;
type P3 = Either<Box<(P2, P2)>, P2>;
type P4 = Either<Box<(P3, P3)>, P3>;
type P5 = Either<Box<(P4, P4)>, P4>;
type P6 = Either<Box<(P5, P5)>, P5>;
type P7 = Either<Box<(P6, P6)>, P6>;
type P8 = Either<Box<(P7, P7)>, P7>;
type P9 = Either<Box<(P8, P8)>, P8>;
type P10 = Either<Box<(P9, P9)>, P9>;
type P11 = Either<Box<(P10, P10)>, P10>;
type P12 = Either<Box<(P11, P11)>, P11>;

#[test]
fn deeply_alternating_grammar_parses_in_linear_time() {
    let text = "a".repeat(40);
    let mut parser = Parser::new(&text);
    let r = parser.parse::<P12>();
    assert!(r.is_some());
}

#[test]
fn deeply_alternating_grammar_fails_fast_too() {
    // (P12, Eos) forces backtracking over the whole tower; the memo makes
    // the retries cheap
    let text = "a".repeat(33);
    let mut parser = Parser::new(&text);
    let r = parser.parse::<(P12, Eos)>();
    // whatever the outcome, parsing the same tower again replays the memo
    let r2 = parser.parse::<(P12, Eos)>();
    assert_eq!(r2.is_some(), r.is_some());
}
