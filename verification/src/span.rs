//! Positions and spans: half-open byte ranges into the parsed text.
use vstd::prelude::*;
use vstd::string::StringSliceAdditionalSpecFns;
use vstd::utf8::is_char_boundary;

verus! {

/// Position (byte offset) in a text.
#[derive(Debug, Clone, Copy, PartialEq, Eq, Structural, Hash, PartialOrd, Ord)]
pub struct Position {
    /// The byte offset from the start of the text.
    pub offset: usize,
}

impl Position {
    /// Makes a new [`Position`] instance.
    pub fn new(offset: usize) -> (r: Self)
        ensures
            r.offset == offset,
    {
        Position { offset }
    }

    /// Gets the offset.
    pub fn get(self) -> (r: usize)
        ensures
            r == self.offset,
    {
        self.offset
    }

    /// Returns the line and column numbers at where this position is located
    /// in the given text, both 1-based.
    pub fn line_and_column(self, text: &str) -> (r: (usize, usize))
        requires
            self.offset <= text.spec_bytes().len(),
            self.offset < usize::MAX,
        ensures
            (r.0 as int, r.1 as int) == spec_line_col(text.spec_bytes(), self.offset as int),
    {
        let bytes = text.as_bytes();
        let mut line: usize = 1;
        let mut column: usize = 1;
        let mut i: usize = 0;
        while i < self.offset
            invariant
                i <= self.offset <= bytes@.len(),
                self.offset < usize::MAX,
                bytes@ == text.spec_bytes(),
                1 <= line as int <= i + 1,
                1 <= column as int <= i + 1,
                (line as int, column as int) == spec_line_col(text.spec_bytes(), i as int),
            decreases self.offset - i,
        {
            let b = bytes[i];
            if b == 10 {
                line = line + 1;
                column = 1;
            } else if b < 0x80 || b >= 0xc0 {
                column = column + 1;
            }
            i = i + 1;
        }
        (line, column)
    }
}

impl Default for Position {
    /// The default position is the start of the text.
    fn default() -> (r: Self)
        ensures
            r.offset == 0,
    {
        Position { offset: 0 }
    }
}

/// The 1-based line and column at byte offset `end` of the text: a newline
/// byte advances the line and resets the column; every other character
/// advances the column.
pub open spec fn spec_line_col(tb: Seq<u8>, end: int) -> (int, int)
    decreases end,
{
    if end <= 0 {
        (1, 1)
    } else {
        let lc = spec_line_col(tb, end - 1);
        if tb[end - 1] == 10 {
            (lc.0 + 1, 1)
        } else if vstd::utf8::is_continuation_byte(tb[end - 1]) {
            lc
        } else {
            (lc.0, lc.1 + 1)
        }
    }
}

/// The length of the half-open range `[start, end)`, zero when the range is empty.
pub open spec fn spec_span_len(start: int, end: int) -> int {
    if start >= end {
        0
    } else {
        end - start
    }
}

/// This trait allows for representing a parsed item that has start and end positions in a text.
pub trait Span {
    /// The start offset, as a mathematical integer.
    spec fn spec_start(&self) -> int;

    /// The end offset, as a mathematical integer.
    spec fn spec_end(&self) -> int;

    /// Returns the start position of this item.
    fn start_position(&self) -> (r: Position)
        ensures
            r.offset as int == self.spec_start(),
    ;

    /// Returns the end position of this item.
    fn end_position(&self) -> (r: Position)
        ensures
            r.offset as int == self.spec_end(),
    ;

    /// Returns `true` if the span is empty, otherwise `false`.
    fn is_empty(&self) -> (r: bool)
        ensures
            r == (self.spec_start() >= self.spec_end()),
    {
        self.start_position().get() >= self.end_position().get()
    }

    /// Returns the length of this span.
    fn len(&self) -> (r: usize)
        ensures
            r as int == spec_span_len(self.spec_start(), self.spec_end()),
    {
        let start = self.start_position().get();
        let end = self.end_position().get();
        if start >= end {
            0
        } else {
            end - start
        }
    }

    /// Returns the text representation of this item, sliced out of the full input text.
    fn text<'t>(&self, text: &'t str) -> (r: &'t str)
        requires
            0 <= self.spec_start() <= self.spec_end() <= text.spec_bytes().len(),
            is_char_boundary(text.spec_bytes(), self.spec_start()),
            is_char_boundary(text.spec_bytes(), self.spec_end()),
            vstd::utf8::valid_utf8(text.spec_bytes()),
        ensures
            r.spec_bytes() == text.spec_bytes().subrange(self.spec_start(), self.spec_end()),
    {
        let start = self.start_position().get();
        let end = self.end_position().get();
        let (_, suffix) = text.split_at(start);
        proof {
            vstd::utf8::valid_utf8_split(text.spec_bytes(), start as int);
            lemma_char_boundary_shift(text.spec_bytes(), start as int, end as int);
        }
        let (middle, _) = suffix.split_at(end - start);
        proof {
            assert(middle.spec_bytes() =~= text.spec_bytes().subrange(
                self.spec_start(),
                self.spec_end(),
            ));
        }
        middle
    }
}

/// A boundary of the whole text that lies at or after `start` is also a boundary
/// of the suffix that begins at `start`.
pub proof fn lemma_char_boundary_shift(bytes: Seq<u8>, start: int, end: int)
    requires
        vstd::utf8::valid_utf8(bytes),
        0 <= start <= end <= bytes.len(),
        is_char_boundary(bytes, start),
        is_char_boundary(bytes, end),
    ensures
        is_char_boundary(bytes.subrange(start, bytes.len() as int), end - start),
{
    let suffix = bytes.subrange(start, bytes.len() as int);
    vstd::utf8::valid_utf8_split(bytes, start);
    if end == bytes.len() {
        vstd::utf8::is_char_boundary_start_end_of_seq(suffix);
    } else if end == start {
        vstd::utf8::is_char_boundary_start_end_of_seq(suffix);
    } else {
        vstd::utf8::is_char_boundary_iff_not_is_continuation_byte(bytes, end);
        vstd::utf8::is_char_boundary_iff_not_is_continuation_byte(suffix, end - start);
        assert(suffix[end - start] == bytes[end]);
    }
}

impl Span for Position {
    open spec fn spec_start(&self) -> int {
        self.offset as int
    }

    open spec fn spec_end(&self) -> int {
        self.offset as int
    }

    fn start_position(&self) -> Position {
        *self
    }

    fn end_position(&self) -> Position {
        *self
    }
}

impl Span for core::ops::Range<Position> {
    open spec fn spec_start(&self) -> int {
        self.start.offset as int
    }

    open spec fn spec_end(&self) -> int {
        self.end.offset as int
    }

    fn start_position(&self) -> Position {
        self.start
    }

    fn end_position(&self) -> Position {
        self.end
    }
}

impl<T: Span> Span for &T {
    open spec fn spec_start(&self) -> int {
        (**self).spec_start()
    }

    open spec fn spec_end(&self) -> int {
        (**self).spec_end()
    }

    fn start_position(&self) -> Position {
        (**self).start_position()
    }

    fn end_position(&self) -> Position {
        (**self).end_position()
    }
}

impl<T: Span> Span for Box<T> {
    open spec fn spec_start(&self) -> int {
        (**self).spec_start()
    }

    open spec fn spec_end(&self) -> int {
        (**self).spec_end()
    }

    fn start_position(&self) -> Position {
        (**self).start_position()
    }

    fn end_position(&self) -> Position {
        (**self).end_position()
    }
}

impl<T0: Span, T1: Span> Span for (T0, T1) {
    open spec fn spec_start(&self) -> int {
        self.0.spec_start()
    }

    open spec fn spec_end(&self) -> int {
        self.1.spec_end()
    }

    fn start_position(&self) -> Position {
        self.0.start_position()
    }

    fn end_position(&self) -> Position {
        self.1.end_position()
    }
}

impl<T0: Span, T1: Span, T2: Span> Span for (T0, T1, T2) {
    open spec fn spec_start(&self) -> int {
        self.0.spec_start()
    }

    open spec fn spec_end(&self) -> int {
        self.2.spec_end()
    }

    fn start_position(&self) -> Position {
        self.0.start_position()
    }

    fn end_position(&self) -> Position {
        self.2.end_position()
    }
}

impl<T0: Span, T1: Span, T2: Span, T3: Span> Span for (T0, T1, T2, T3) {
    open spec fn spec_start(&self) -> int {
        self.0.spec_start()
    }

    open spec fn spec_end(&self) -> int {
        self.3.spec_end()
    }

    fn start_position(&self) -> Position {
        self.0.start_position()
    }

    fn end_position(&self) -> Position {
        self.3.end_position()
    }
}

impl<T0: Span, T1: Span, T2: Span, T3: Span, T4: Span> Span for (T0, T1, T2, T3, T4) {
    open spec fn spec_start(&self) -> int {
        self.0.spec_start()
    }

    open spec fn spec_end(&self) -> int {
        self.4.spec_end()
    }

    fn start_position(&self) -> Position {
        self.0.start_position()
    }

    fn end_position(&self) -> Position {
        self.4.end_position()
    }
}

impl<T0: Span, T1: Span, T2: Span, T3: Span, T4: Span, T5: Span> Span for (
    T0,
    T1,
    T2,
    T3,
    T4,
    T5,
) {
    open spec fn spec_start(&self) -> int {
        self.0.spec_start()
    }

    open spec fn spec_end(&self) -> int {
        self.5.spec_end()
    }

    fn start_position(&self) -> Position {
        self.0.start_position()
    }

    fn end_position(&self) -> Position {
        self.5.end_position()
    }
}

} // verus!
