//! Basic components.
use crate::memo::Packed;
use crate::memo::PackedData;
use crate::parse::failed_at;
use crate::parse::succeeded_at;
use crate::parse::Parse;
use crate::parse::Parser;
use crate::parse::miss_entry_state;
use crate::parse::ParserView;
use crate::span::Position;
use crate::span::Span;
use crate::text::char_at;
use crate::text::char_width_at;
use vstd::prelude::*;

verus! {

/// The multiplier that folds a component's parts into its identity.
pub open spec fn spec_mix_id(tag: int, part: int) -> u64 {
    (((tag * 0x100000001b3) + part) % 0x10000000000000000) as u64
}

/// Folds one part into a component identity.
pub fn mix_id(tag: u64, part: u64) -> (r: u64)
    ensures
        r == spec_mix_id(tag as int, part as int),
{
    let wide: u128 = (tag as u128) * 0x100000001b3u128 + (part as u128);
    (wide % 0x10000000000000000u128) as u64
}

/// Empty item: always parses, consumes nothing.
#[derive(Debug, Clone, Copy)]
pub struct Empty {
    /// The cursor at which the item parsed.
    pub position: Position,
}

impl Span for Empty {
    open spec fn spec_start(&self) -> int {
        self.position.offset as int
    }

    open spec fn spec_end(&self) -> int {
        self.position.offset as int
    }

    fn start_position(&self) -> Position {
        self.position
    }

    fn end_position(&self) -> Position {
        self.position
    }
}

impl Parse for Empty {
    open spec fn spec_id() -> u64 {
        1
    }

    fn id() -> u64 {
        1
    }

    open spec fn spec_name() -> Option<Seq<char>> {
        None
    }

    fn name() -> Option<String> {
        None
    }

    open spec fn spec_packed(self) -> Packed {
        Packed { start: self.position.offset, end: self.position.offset, data: PackedData::Unit }
    }

    fn pack(&self) -> Packed {
        Packed { start: self.position.get(), end: self.position.get(), data: PackedData::Unit }
    }

    fn unpack(packed: &Packed) -> (r: Option<Self>) {
        match &packed.data {
            PackedData::Unit => {
                if packed.start == packed.end {
                    Some(Empty { position: Position::new(packed.start) })
                } else {
                    None
                }
            },
            _ => None,
        }
    }

    proof fn lemma_packed_span(self) {
    }

    open spec fn spec_behaves(pre: ParserView, post: ParserView, r: Option<Self>) -> bool {
        &&& post == pre
        &&& (r matches Some(v) && v.spec_start() == pre.pos && v.spec_end() == pre.pos)
    }

    /// Always succeeds with an empty span at the cursor, changing nothing.
    fn parse(parser: &mut Parser) -> (r: Option<Self>)
        ensures
            *final(parser) == *old(parser),
            r matches Some(v) && v.spec_start() == old(parser).spec_pos() && v.spec_end() == old(
                parser,
            ).spec_pos(),
    {
        Some(Empty { position: parser.current_position() })
    }
}

/// A character: consumes exactly one character, fails only at EOS.
#[derive(Debug, Clone, Copy)]
pub struct AnyChar {
    /// Where the span starts.
    pub start_position: Position,
    /// The character that parsed.
    pub value: char,
    /// Where the span ends.
    pub end_position: Position,
}

impl AnyChar {
    /// Returns the character value.
    pub fn get(&self) -> (r: char)
        ensures
            r == self.spec_value(),
    {
        self.value
    }

    /// The character value.
    pub open spec fn spec_value(&self) -> char {
        self.value
    }
}

impl Span for AnyChar {
    open spec fn spec_start(&self) -> int {
        self.start_position.offset as int
    }

    open spec fn spec_end(&self) -> int {
        self.end_position.offset as int
    }

    fn start_position(&self) -> Position {
        self.start_position
    }

    fn end_position(&self) -> Position {
        self.end_position
    }
}

impl Parse for AnyChar {
    open spec fn spec_id() -> u64 {
        2
    }

    fn id() -> u64 {
        2
    }

    open spec fn spec_name() -> Option<Seq<char>> {
        None
    }

    fn name() -> Option<String> {
        None
    }

    open spec fn spec_packed(self) -> Packed {
        Packed {
            start: self.start_position.offset,
            end: self.end_position.offset,
            data: PackedData::Ch(self.value),
        }
    }

    fn pack(&self) -> Packed {
        Packed {
            start: self.start_position.get(),
            end: self.end_position.get(),
            data: PackedData::Ch(self.value),
        }
    }

    fn unpack(packed: &Packed) -> (r: Option<Self>) {
        match &packed.data {
            PackedData::Ch(c) => Some(
                AnyChar {
                    start_position: Position::new(packed.start),
                    value: *c,
                    end_position: Position::new(packed.end),
                },
            ),
            _ => None,
        }
    }

    proof fn lemma_packed_span(self) {
    }

    open spec fn spec_behaves(pre: ParserView, post: ParserView, r: Option<Self>) -> bool {
        &&& (r is Some <==> pre.pos < pre.text.len())
        &&& (r matches Some(v) ==> v.spec_value() == char_at(pre.text, pre.pos) && v.spec_end()
            == pre.pos + char_width_at(pre.text, pre.pos))
        &&& (r is None ==> post.pos == pre.pos)
        &&& post.memo == pre.memo
        &&& post.expected_pos == pre.expected_pos
        &&& post.expected_level == pre.expected_level
        &&& post.expected_items == pre.expected_items
    }

    /// Succeeds exactly when the cursor is not at EOS; the value is the
    /// character at the cursor and the span covers its bytes.
    fn parse(parser: &mut Parser) -> (r: Option<Self>)
        ensures
            r is Some <==> old(parser).spec_pos() < old(parser).spec_text().len(),
            r matches Some(v) ==> {
                &&& v.spec_value() == char_at(old(parser).spec_text(), old(parser).spec_pos())
                &&& v.spec_end() == old(parser).spec_pos() + char_width_at(
                    old(parser).spec_text(),
                    old(parser).spec_pos(),
                )
            },
            final(parser).spec_memo() == old(parser).spec_memo(),
            final(parser).spec_expected_pos() == old(parser).spec_expected_pos(),
            final(parser).spec_expected_level() == old(parser).spec_expected_level(),
            final(parser).spec_expected_items() == old(parser).spec_expected_items(),
            r is None ==> final(parser).spec_pos() == old(parser).spec_pos(),
    {
        let start_position = parser.current_position();
        match parser.read_char() {
            Some(value) => Some(
                AnyChar { start_position, value, end_position: parser.current_position() },
            ),
            None => None,
        }
    }
}

/// End-Of-String: succeeds exactly at the end of the input, with an empty span.
#[derive(Debug, Clone, Copy)]
pub struct Eos {
    /// The cursor at which the item parsed.
    pub position: Position,
}

impl Span for Eos {
    open spec fn spec_start(&self) -> int {
        self.position.offset as int
    }

    open spec fn spec_end(&self) -> int {
        self.position.offset as int
    }

    fn start_position(&self) -> Position {
        self.position
    }

    fn end_position(&self) -> Position {
        self.position
    }
}

impl Parse for Eos {
    open spec fn spec_id() -> u64 {
        4
    }

    fn id() -> u64 {
        4
    }

    open spec fn spec_name() -> Option<Seq<char>> {
        Some("EOS"@)
    }

    fn name() -> Option<String> {
        Some(String::from_str("EOS"))
    }

    open spec fn spec_packed(self) -> Packed {
        Packed { start: self.position.offset, end: self.position.offset, data: PackedData::Unit }
    }

    fn pack(&self) -> Packed {
        Packed { start: self.position.get(), end: self.position.get(), data: PackedData::Unit }
    }

    fn unpack(packed: &Packed) -> (r: Option<Self>) {
        match &packed.data {
            PackedData::Unit => {
                if packed.start == packed.end {
                    Some(Eos { position: Position::new(packed.start) })
                } else {
                    None
                }
            },
            _ => None,
        }
    }

    proof fn lemma_packed_span(self) {
    }

    open spec fn spec_behaves(pre: ParserView, post: ParserView, r: Option<Self>) -> bool {
        &&& post == pre
        &&& (r is Some <==> pre.pos == pre.text.len())
        &&& (r matches Some(v) ==> v.spec_start() == pre.pos && v.spec_end() == pre.pos)
    }

    /// Succeeds exactly at EOS, with an empty span at the cursor, changing
    /// nothing.
    fn parse(parser: &mut Parser) -> (r: Option<Self>)
        ensures
            *final(parser) == *old(parser),
            r is Some <==> old(parser).spec_pos() == old(parser).spec_text().len(),
            r matches Some(v) ==> v.spec_start() == old(parser).spec_pos() && v.spec_end() == old(
                parser,
            ).spec_pos(),
    {
        if parser.is_eos() {
            Some(Eos { position: parser.current_position() })
        } else {
            None
        }
    }
}

/// True when the character is an ASCII whitespace character.
pub open spec fn is_ascii_whitespace_char(c: char) -> bool {
    c == ' ' || c == '\t' || c == '\n' || c == '\u{c}' || c == '\r'
}

/// A whitespace character (cf. `char::is_ascii_whitespace`).
#[derive(Debug, Clone, Copy)]
pub struct Whitespace {
    /// Where the span starts.
    pub start_position: Position,
    /// Where the span ends.
    pub end_position: Position,
}

impl Span for Whitespace {
    open spec fn spec_start(&self) -> int {
        self.start_position.offset as int
    }

    open spec fn spec_end(&self) -> int {
        self.end_position.offset as int
    }

    fn start_position(&self) -> Position {
        self.start_position
    }

    fn end_position(&self) -> Position {
        self.end_position
    }
}

impl Parse for Whitespace {
    open spec fn spec_id() -> u64 {
        3
    }

    fn id() -> u64 {
        3
    }

    open spec fn spec_name() -> Option<Seq<char>> {
        None
    }

    fn name() -> Option<String> {
        None
    }

    open spec fn spec_packed(self) -> Packed {
        Packed {
            start: self.start_position.offset,
            end: self.end_position.offset,
            data: PackedData::Unit,
        }
    }

    fn pack(&self) -> Packed {
        Packed {
            start: self.start_position.get(),
            end: self.end_position.get(),
            data: PackedData::Unit,
        }
    }

    fn unpack(packed: &Packed) -> (r: Option<Self>) {
        match &packed.data {
            PackedData::Unit => Some(
                Whitespace {
                    start_position: Position::new(packed.start),
                    end_position: Position::new(packed.end),
                },
            ),
            _ => None,
        }
    }

    proof fn lemma_packed_span(self) {
    }

    open spec fn spec_behaves(pre: ParserView, post: ParserView, r: Option<Self>) -> bool {
        &&& (r is Some <==> (pre.pos < pre.text.len() && is_ascii_whitespace_char(
            char_at(pre.text, pre.pos),
        )))
        &&& (r matches Some(v) ==> v.spec_end() == pre.pos + char_width_at(pre.text, pre.pos))
        &&& post.memo == pre.memo
        &&& post.expected_pos == pre.expected_pos
        &&& post.expected_level == pre.expected_level
        &&& post.expected_items == pre.expected_items
    }

    /// Succeeds exactly when the character at the cursor is an ASCII
    /// whitespace character, consuming it.
    fn parse(parser: &mut Parser) -> (r: Option<Self>)
        ensures
            r is Some <==> (old(parser).spec_pos() < old(parser).spec_text().len()
                && is_ascii_whitespace_char(
                char_at(old(parser).spec_text(), old(parser).spec_pos()),
            )),
            r matches Some(v) ==> v.spec_end() == old(parser).spec_pos() + char_width_at(
                old(parser).spec_text(),
                old(parser).spec_pos(),
            ),
            final(parser).spec_memo() == old(parser).spec_memo(),
            final(parser).spec_expected_pos() == old(parser).spec_expected_pos(),
            final(parser).spec_expected_level() == old(parser).spec_expected_level(),
            final(parser).spec_expected_items() == old(parser).spec_expected_items(),
    {
        let start_position = parser.current_position();
        match parser.read_char() {
            Some(c) => {
                if c == ' ' || c == '\t' || c == '\n' || c == '\u{c}' || c == '\r' {
                    Some(Whitespace { start_position, end_position: parser.current_position() })
                } else {
                    None
                }
            },
            None => None,
        }
    }
}

/// The value of a character as a digit, if it is one for the given radix.
pub open spec fn spec_digit_value(c: char, radix: u8) -> Option<u8> {
    let code = c as u32;
    if '0' <= c && c <= '9' && (code - 48) < radix as u32 {
        Some(((code - 48) % 256) as u8)
    } else if 'a' <= c && c <= 'z' && (code - 97 + 10) < radix as u32 {
        Some(((code - 97 + 10) % 256) as u8)
    } else if 'A' <= c && c <= 'Z' && (code - 65 + 10) < radix as u32 {
        Some(((code - 65 + 10) % 256) as u8)
    } else {
        None
    }
}

/// A digit.
#[derive(Debug, Clone, Copy)]
pub struct Digit<const RADIX: u8> {
    /// Where the span starts.
    pub start_position: Position,
    /// The digit value.
    pub value: u8,
    /// Where the span ends.
    pub end_position: Position,
}

impl<const RADIX: u8> Digit<RADIX> {
    /// Returns the digit value.
    pub fn get(self) -> (r: u8)
        ensures
            r == self.spec_value(),
    {
        self.value
    }

    /// The digit value.
    pub open spec fn spec_value(&self) -> u8 {
        self.value
    }
}

impl<const RADIX: u8> Span for Digit<RADIX> {
    open spec fn spec_start(&self) -> int {
        self.start_position.offset as int
    }

    open spec fn spec_end(&self) -> int {
        self.end_position.offset as int
    }

    fn start_position(&self) -> Position {
        self.start_position
    }

    fn end_position(&self) -> Position {
        self.end_position
    }
}

impl<const RADIX: u8> Parse for Digit<RADIX> {
    open spec fn spec_id() -> u64 {
        spec_mix_id(7, RADIX as int)
    }

    fn id() -> u64 {
        mix_id(7, RADIX as u64)
    }

    open spec fn spec_name() -> Option<Seq<char>> {
        None
    }

    fn name() -> Option<String> {
        None
    }

    open spec fn spec_packed(self) -> Packed {
        Packed {
            start: self.start_position.offset,
            end: self.end_position.offset,
            data: PackedData::Byte(self.value),
        }
    }

    fn pack(&self) -> Packed {
        Packed {
            start: self.start_position.get(),
            end: self.end_position.get(),
            data: PackedData::Byte(self.value),
        }
    }

    fn unpack(packed: &Packed) -> (r: Option<Self>) {
        match &packed.data {
            PackedData::Byte(b) => Some(
                Digit {
                    start_position: Position::new(packed.start),
                    value: *b,
                    end_position: Position::new(packed.end),
                },
            ),
            _ => None,
        }
    }

    proof fn lemma_packed_span(self) {
    }

    open spec fn spec_behaves(pre: ParserView, post: ParserView, r: Option<Self>) -> bool {
        &&& (r is Some <==> (pre.pos < pre.text.len() && spec_digit_value(
            char_at(pre.text, pre.pos),
            RADIX,
        ) is Some))
        &&& (r matches Some(v) ==> Some(v.spec_value()) == spec_digit_value(
            char_at(pre.text, pre.pos),
            RADIX,
        ))
        &&& (r matches Some(v) ==> v.spec_end() == pre.pos + char_width_at(pre.text, pre.pos))
        &&& post.memo == pre.memo
        &&& post.expected_pos == pre.expected_pos
        &&& post.expected_level == pre.expected_level
        &&& post.expected_items == pre.expected_items
    }

    /// Succeeds exactly when the character at the cursor is a digit of the
    /// radix, consuming it; the value is the digit's numeric value.
    fn parse(parser: &mut Parser) -> (r: Option<Self>)
        ensures
            r is Some <==> (old(parser).spec_pos() < old(parser).spec_text().len()
                && spec_digit_value(
                char_at(old(parser).spec_text(), old(parser).spec_pos()),
                RADIX,
            ) is Some),
            r matches Some(v) ==> Some(v.spec_value()) == spec_digit_value(
                char_at(old(parser).spec_text(), old(parser).spec_pos()),
                RADIX,
            ),
            r matches Some(v) ==> v.spec_end() == old(parser).spec_pos() + char_width_at(
                old(parser).spec_text(),
                old(parser).spec_pos(),
            ),
            final(parser).spec_memo() == old(parser).spec_memo(),
            final(parser).spec_expected_pos() == old(parser).spec_expected_pos(),
            final(parser).spec_expected_level() == old(parser).spec_expected_level(),
            final(parser).spec_expected_items() == old(parser).spec_expected_items(),
    {
        let start_position = parser.current_position();
        match parser.read_char() {
            Some(c) => {
                let code = c as u32;
                let value: u8 = if c >= '0' && c <= '9' && (code - 48) < RADIX as u32 {
                    (code - 48) as u8
                } else if c >= 'a' && c <= 'z' && (code - 97 + 10) < RADIX as u32 {
                    (code - 97 + 10) as u8
                } else if c >= 'A' && c <= 'Z' && (code - 65 + 10) < RADIX as u32 {
                    (code - 65 + 10) as u8
                } else {
                    return None;
                };
                Some(Digit { start_position, value, end_position: parser.current_position() })
            },
            None => None,
        }
    }
}


/// The diagnostic name of a specific character: the character between single
/// quotes, or bare quotes for a code that is no character.
pub open spec fn char_name_spec(code: u32) -> Seq<char> {
    if vstd::utf8::is_scalar(code) {
        seq!['\'', code as char, '\'']
    } else {
        seq!['\'', '\'']
    }
}

/// A specific character, given by its code. `NAMED` keeps it in or out of
/// the expected set of diagnostics.
#[derive(Debug, Clone, Copy)]
pub struct Char<const C: u32, const NAMED: bool> {
    /// Where the span starts.
    pub start_position: Position,
    /// Where the span ends.
    pub end_position: Position,
}

impl<const C: u32, const NAMED: bool> Span for Char<C, NAMED> {
    open spec fn spec_start(&self) -> int {
        self.start_position.offset as int
    }

    open spec fn spec_end(&self) -> int {
        self.end_position.offset as int
    }

    fn start_position(&self) -> Position {
        self.start_position
    }

    fn end_position(&self) -> Position {
        self.end_position
    }
}

impl<const C: u32, const NAMED: bool> Parse for Char<C, NAMED> {
    open spec fn spec_id() -> u64 {
        spec_mix_id(spec_mix_id(5, C as int) as int, if NAMED { 1int } else { 0int })
    }

    fn id() -> u64 {
        mix_id(mix_id(5, C as u64), if NAMED { 1 } else { 0 })
    }

    open spec fn spec_name() -> Option<Seq<char>> {
        if NAMED {
            Some(char_name_spec(C))
        } else {
            None
        }
    }

    fn name() -> (r: Option<String>) {
        if NAMED {
            let mut s = String::from_str("'");
            proof {
                reveal_strlit("'");
            }
            match char::from_u32(C) {
                Some(c) => {
                    crate::text::push_char(&mut s, c);
                    proof {
                        vstd::utf8::char_u32_cast(c, C);
                    }
                },
                None => {},
            }
            s.append("'");
            proof {
                assert(s@ =~= char_name_spec(C));
            }
            Some(s)
        } else {
            None
        }
    }

    open spec fn spec_packed(self) -> Packed {
        Packed {
            start: self.start_position.offset,
            end: self.end_position.offset,
            data: PackedData::Unit,
        }
    }

    fn pack(&self) -> Packed {
        Packed {
            start: self.start_position.get(),
            end: self.end_position.get(),
            data: PackedData::Unit,
        }
    }

    fn unpack(packed: &Packed) -> (r: Option<Self>) {
        match &packed.data {
            PackedData::Unit => Some(
                Char {
                    start_position: Position::new(packed.start),
                    end_position: Position::new(packed.end),
                },
            ),
            _ => None,
        }
    }

    proof fn lemma_packed_span(self) {
    }

    open spec fn spec_behaves(pre: ParserView, post: ParserView, r: Option<Self>) -> bool {
        &&& (r is Some <==> (pre.pos < pre.text.len() && char_at(pre.text, pre.pos) as u32 == C))
        &&& (r matches Some(v) ==> v.spec_end() == pre.pos + char_width_at(pre.text, pre.pos))
        &&& post.memo == pre.memo
        &&& post.expected_pos == pre.expected_pos
        &&& post.expected_level == pre.expected_level
        &&& post.expected_items == pre.expected_items
    }

    /// Succeeds exactly when the character at the cursor has code `C`,
    /// consuming it.
    fn parse(parser: &mut Parser) -> (r: Option<Self>)
        ensures
            r is Some <==> (old(parser).spec_pos() < old(parser).spec_text().len() && char_at(
                old(parser).spec_text(),
                old(parser).spec_pos(),
            ) as u32 == C),
            r matches Some(v) ==> v.spec_end() == old(parser).spec_pos() + char_width_at(
                old(parser).spec_text(),
                old(parser).spec_pos(),
            ),
            final(parser).spec_memo() == old(parser).spec_memo(),
            final(parser).spec_expected_pos() == old(parser).spec_expected_pos(),
            final(parser).spec_expected_level() == old(parser).spec_expected_level(),
            final(parser).spec_expected_items() == old(parser).spec_expected_items(),
    {
        let start_position = parser.current_position();
        match parser.read_char() {
            Some(c) => {
                if c as u32 == C {
                    Some(Char { start_position, end_position: parser.current_position() })
                } else {
                    None
                }
            },
            None => None,
        }
    }
}

/// Either `A` or `B`: ordered choice, `A` first.
#[derive(Debug, Clone, Copy)]
#[allow(missing_docs)]
pub enum Either<A, B> {
    A(A),
    B(B),
}

impl<A: Span, B: Span> Span for Either<A, B> {
    open spec fn spec_start(&self) -> int {
        match self {
            Either::A(a) => a.spec_start(),
            Either::B(b) => b.spec_start(),
        }
    }

    open spec fn spec_end(&self) -> int {
        match self {
            Either::A(a) => a.spec_end(),
            Either::B(b) => b.spec_end(),
        }
    }

    fn start_position(&self) -> Position {
        match self {
            Either::A(a) => a.start_position(),
            Either::B(b) => b.start_position(),
        }
    }

    fn end_position(&self) -> Position {
        match self {
            Either::A(a) => a.end_position(),
            Either::B(b) => b.end_position(),
        }
    }
}

impl<A: Parse, B: Parse> Parse for Either<A, B> {
    open spec fn spec_id() -> u64 {
        spec_mix_id(spec_mix_id(12, A::spec_id() as int) as int, B::spec_id() as int)
    }

    fn id() -> u64 {
        mix_id(mix_id(12, A::id()), B::id())
    }

    open spec fn spec_name() -> Option<Seq<char>> {
        None
    }

    fn name() -> Option<String> {
        None
    }

    open spec fn spec_packed(self) -> Packed {
        match self {
            Either::A(a) => Packed {
                start: a.spec_packed().start,
                end: a.spec_packed().end,
                data: PackedData::Tag(0, Box::new(a.spec_packed())),
            },
            Either::B(b) => Packed {
                start: b.spec_packed().start,
                end: b.spec_packed().end,
                data: PackedData::Tag(1, Box::new(b.spec_packed())),
            },
        }
    }

    fn pack(&self) -> Packed {
        match self {
            Either::A(a) => {
                let inner = a.pack();
                let start = inner.start;
                let end = inner.end;
                Packed { start, end, data: PackedData::Tag(0, Box::new(inner)) }
            },
            Either::B(b) => {
                let inner = b.pack();
                let start = inner.start;
                let end = inner.end;
                Packed { start, end, data: PackedData::Tag(1, Box::new(inner)) }
            },
        }
    }

    fn unpack(packed: &Packed) -> (r: Option<Self>) {
        match &packed.data {
            PackedData::Tag(tag, inner) => {
                if packed.start != inner.start || packed.end != inner.end {
                    return None;
                }
                if *tag == 0 {
                    match A::unpack(inner) {
                        Some(a) => Some(Either::A(a)),
                        None => None,
                    }
                } else if *tag == 1 {
                    match B::unpack(inner) {
                        Some(b) => Some(Either::B(b)),
                        None => None,
                    }
                } else {
                    None
                }
            },
            _ => None,
        }
    }

    proof fn lemma_packed_span(self) {
        match self {
            Either::A(a) => a.lemma_packed_span(),
            Either::B(b) => b.lemma_packed_span(),
        }
    }

    open spec fn spec_behaves(pre: ParserView, post: ParserView, r: Option<Self>) -> bool {
        &&& (r matches Some(v) ==> match v {
            Either::A(a) => succeeded_at::<A>(post.memo, pre.pos, a),
            Either::B(b) => failed_at::<A>(post.memo, pre.pos) && succeeded_at::<B>(
                post.memo,
                pre.pos,
                b,
            ),
        })
        &&& (r is None ==> failed_at::<A>(post.memo, pre.pos) && failed_at::<B>(
            post.memo,
            pre.pos,
        ))
        &&& (!pre.memo.contains_key((A::spec_id(), pre.pos)) ==> exists|
            finA: ParserView,
            rA: Option<A>,
        |
            {
                &&& #[trigger] A::spec_behaves(
                    miss_entry_state(pre, A::spec_id(), A::spec_name()),
                    finA,
                    rA,
                )
                &&& finA.text == pre.text
                &&& (rA matches Some(a) ==> r == Some(Either::<A, B>::A(a)) && post.pos == finA.pos)
                &&& (rA is None ==> !(r matches Some(v) && v is A))
            })
    }

    /// Ordered choice: the value comes from the earliest branch that parses,
    /// and a later branch is tried only after an earlier one has failed at
    /// the cursor.
    fn parse(parser: &mut Parser) -> (r: Option<Self>)
        ensures
            r matches Some(v) ==> match v {
                Either::A(a) => succeeded_at::<A>(
                    final(parser).spec_memo(),
                    old(parser).spec_pos(),
                    a,
                ),
                Either::B(b) => failed_at::<A>(final(parser).spec_memo(), old(parser).spec_pos())
                    && succeeded_at::<B>(final(parser).spec_memo(), old(parser).spec_pos(), b),
            },
            r is None ==> failed_at::<A>(final(parser).spec_memo(), old(parser).spec_pos())
                && failed_at::<B>(final(parser).spec_memo(), old(parser).spec_pos()),
    {
        let ghost pre = old(parser).snapshot();
        let first = parser.parse::<A>();
        match first {
            Some(a) => {
                let r = Some(Either::A(a));
                proof {
                    if !pre.memo.contains_key((A::spec_id(), pre.pos)) {
                        let chosen = choose|fin: ParserView|
                            #[trigger] A::spec_behaves(
                                miss_entry_state(pre, A::spec_id(), A::spec_name()),
                                fin,
                                first,
                            ) && fin.text == pre.text && pre.pos <= fin.pos <= fin.text.len()
                                && parser.spec_memo() == fin.memo.insert(
                                (A::spec_id(), pre.pos),
                                Some(a.spec_packed()),
                            ) && parser.spec_pos() == fin.pos;
                        assert(A::spec_behaves(
                            miss_entry_state(pre, A::spec_id(), A::spec_name()),
                            chosen,
                            first,
                        ));
                    }
                }
                r
            },
            None => {
                let second = parser.parse::<B>();
                let r = match second {
                    Some(b) => Some(Either::B(b)),
                    None => None,
                };
                proof {
                    if !pre.memo.contains_key((A::spec_id(), pre.pos)) {
                        let chosen = choose|fin: ParserView|
                            #[trigger] A::spec_behaves(
                                miss_entry_state(pre, A::spec_id(), A::spec_name()),
                                fin,
                                first,
                            ) && fin.text == pre.text;
                        assert(A::spec_behaves(
                            miss_entry_state(pre, A::spec_id(), A::spec_name()),
                            chosen,
                            first,
                        ));
                    }
                }
                r
            },
        }
    }
}


/// One of `A`, `B`, or `C`: ordered choice.
#[derive(Debug, Clone, Copy)]
#[allow(missing_docs)]
pub enum OneOfThree<A, B, C> {
    A(A),
    B(B),
    C(C),
}

impl<A: Span, B: Span, C: Span> Span for OneOfThree<A, B, C> {
    open spec fn spec_start(&self) -> int {
        match self {
            OneOfThree::A(a) => a.spec_start(),
            OneOfThree::B(b) => b.spec_start(),
            OneOfThree::C(c) => c.spec_start(),
        }
    }

    open spec fn spec_end(&self) -> int {
        match self {
            OneOfThree::A(a) => a.spec_end(),
            OneOfThree::B(b) => b.spec_end(),
            OneOfThree::C(c) => c.spec_end(),
        }
    }

    fn start_position(&self) -> Position {
        match self {
            OneOfThree::A(a) => a.start_position(),
            OneOfThree::B(b) => b.start_position(),
            OneOfThree::C(c) => c.start_position(),
        }
    }

    fn end_position(&self) -> Position {
        match self {
            OneOfThree::A(a) => a.end_position(),
            OneOfThree::B(b) => b.end_position(),
            OneOfThree::C(c) => c.end_position(),
        }
    }
}

impl<A: Parse, B: Parse, C: Parse> Parse for OneOfThree<A, B, C> {
    open spec fn spec_id() -> u64 {
        spec_mix_id(
            spec_mix_id(
                spec_mix_id(13, A::spec_id() as int) as int,
                B::spec_id() as int,
            ) as int,
            C::spec_id() as int,
        )
    }

    fn id() -> u64 {
        mix_id(mix_id(mix_id(13, A::id()), B::id()), C::id())
    }

    open spec fn spec_name() -> Option<Seq<char>> {
        None
    }

    fn name() -> Option<String> {
        None
    }

    open spec fn spec_packed(self) -> Packed {
        match self {
            OneOfThree::A(a) => Packed {
                start: a.spec_packed().start,
                end: a.spec_packed().end,
                data: PackedData::Tag(0, Box::new(a.spec_packed())),
            },
            OneOfThree::B(b) => Packed {
                start: b.spec_packed().start,
                end: b.spec_packed().end,
                data: PackedData::Tag(1, Box::new(b.spec_packed())),
            },
            OneOfThree::C(c) => Packed {
                start: c.spec_packed().start,
                end: c.spec_packed().end,
                data: PackedData::Tag(2, Box::new(c.spec_packed())),
            },
        }
    }

    fn pack(&self) -> Packed {
        match self {
            OneOfThree::A(a) => {
                let inner = a.pack();
                let start = inner.start;
                let end = inner.end;
                Packed { start, end, data: PackedData::Tag(0, Box::new(inner)) }
            },
            OneOfThree::B(b) => {
                let inner = b.pack();
                let start = inner.start;
                let end = inner.end;
                Packed { start, end, data: PackedData::Tag(1, Box::new(inner)) }
            },
            OneOfThree::C(c) => {
                let inner = c.pack();
                let start = inner.start;
                let end = inner.end;
                Packed { start, end, data: PackedData::Tag(2, Box::new(inner)) }
            },
        }
    }

    fn unpack(packed: &Packed) -> (r: Option<Self>) {
        match &packed.data {
            PackedData::Tag(tag, inner) => {
                if packed.start != inner.start || packed.end != inner.end {
                    return None;
                }
                if *tag == 0 {
                    match A::unpack(inner) {
                        Some(a) => Some(OneOfThree::A(a)),
                        None => None,
                    }
                } else if *tag == 1 {
                    match B::unpack(inner) {
                        Some(b) => Some(OneOfThree::B(b)),
                        None => None,
                    }
                } else if *tag == 2 {
                    match C::unpack(inner) {
                        Some(c) => Some(OneOfThree::C(c)),
                        None => None,
                    }
                } else {
                    None
                }
            },
            _ => None,
        }
    }

    proof fn lemma_packed_span(self) {
        match self {
            OneOfThree::A(a) => a.lemma_packed_span(),
            OneOfThree::B(b) => b.lemma_packed_span(),
            OneOfThree::C(c) => c.lemma_packed_span(),
        }
    }

    open spec fn spec_behaves(pre: ParserView, post: ParserView, r: Option<Self>) -> bool {
        &&& (r matches Some(v) ==> match v {
            OneOfThree::A(a) => succeeded_at::<A>(post.memo, pre.pos, a),
            OneOfThree::B(b) => failed_at::<A>(post.memo, pre.pos) && succeeded_at::<B>(
                post.memo,
                pre.pos,
                b,
            ),
            OneOfThree::C(c) => failed_at::<A>(post.memo, pre.pos) && failed_at::<B>(
                post.memo,
                pre.pos,
            ) && succeeded_at::<C>(post.memo, pre.pos, c),
        })
        &&& (r is None ==> failed_at::<A>(post.memo, pre.pos) && failed_at::<B>(
            post.memo,
            pre.pos,
        ) && failed_at::<C>(post.memo, pre.pos))
        &&& (!pre.memo.contains_key((A::spec_id(), pre.pos)) ==> exists|
            finA: ParserView,
            rA: Option<A>,
        |
            {
                &&& #[trigger] A::spec_behaves(
                    miss_entry_state(pre, A::spec_id(), A::spec_name()),
                    finA,
                    rA,
                )
                &&& finA.text == pre.text
                &&& (rA matches Some(a) ==> r == Some(OneOfThree::<A, B, C>::A(a)) && post.pos
                    == finA.pos)
                &&& (rA is None ==> !(r matches Some(v) && v is A))
            })
    }

    /// Ordered choice over three branches: the value comes from the earliest
    /// branch that parses.
    fn parse(parser: &mut Parser) -> (r: Option<Self>)
        ensures
            r matches Some(v) ==> match v {
                OneOfThree::A(a) => succeeded_at::<A>(
                    final(parser).spec_memo(),
                    old(parser).spec_pos(),
                    a,
                ),
                OneOfThree::B(b) => failed_at::<A>(
                    final(parser).spec_memo(),
                    old(parser).spec_pos(),
                ) && succeeded_at::<B>(final(parser).spec_memo(), old(parser).spec_pos(), b),
                OneOfThree::C(c) => failed_at::<A>(
                    final(parser).spec_memo(),
                    old(parser).spec_pos(),
                ) && failed_at::<B>(final(parser).spec_memo(), old(parser).spec_pos())
                    && succeeded_at::<C>(final(parser).spec_memo(), old(parser).spec_pos(), c),
            },
            r is None ==> failed_at::<A>(final(parser).spec_memo(), old(parser).spec_pos())
                && failed_at::<B>(final(parser).spec_memo(), old(parser).spec_pos())
                && failed_at::<C>(final(parser).spec_memo(), old(parser).spec_pos()),
    {
        let ghost pre = old(parser).snapshot();
        let first = parser.parse::<A>();
        proof {
            if !pre.memo.contains_key((A::spec_id(), pre.pos)) {
                let chosen = choose|fin: ParserView|
                    #[trigger] A::spec_behaves(
                        miss_entry_state(pre, A::spec_id(), A::spec_name()),
                        fin,
                        first,
                    ) && fin.text == pre.text && (first matches Some(a) ==> parser.spec_pos()
                        == fin.pos);
                assert(A::spec_behaves(
                    miss_entry_state(pre, A::spec_id(), A::spec_name()),
                    chosen,
                    first,
                ));
            }
        }
        match first {
            Some(a) => Some(OneOfThree::A(a)),
            None => {
                match parser.parse::<B>() {
                    Some(b) => Some(OneOfThree::B(b)),
                    None => {
                        match parser.parse::<C>() {
                            Some(c) => Some(OneOfThree::C(c)),
                            None => None,
                        }
                    },
                }
            },
        }
    }
}

/// One of `A`, `B`, `C`, or `D`: ordered choice.
#[derive(Debug, Clone, Copy)]
#[allow(missing_docs)]
pub enum OneOfFour<A, B, C, D> {
    A(A),
    B(B),
    C(C),
    D(D),
}

impl<A: Span, B: Span, C: Span, D: Span> Span for OneOfFour<A, B, C, D> {
    open spec fn spec_start(&self) -> int {
        match self {
            OneOfFour::A(a) => a.spec_start(),
            OneOfFour::B(b) => b.spec_start(),
            OneOfFour::C(c) => c.spec_start(),
            OneOfFour::D(d) => d.spec_start(),
        }
    }

    open spec fn spec_end(&self) -> int {
        match self {
            OneOfFour::A(a) => a.spec_end(),
            OneOfFour::B(b) => b.spec_end(),
            OneOfFour::C(c) => c.spec_end(),
            OneOfFour::D(d) => d.spec_end(),
        }
    }

    fn start_position(&self) -> Position {
        match self {
            OneOfFour::A(a) => a.start_position(),
            OneOfFour::B(b) => b.start_position(),
            OneOfFour::C(c) => c.start_position(),
            OneOfFour::D(d) => d.start_position(),
        }
    }

    fn end_position(&self) -> Position {
        match self {
            OneOfFour::A(a) => a.end_position(),
            OneOfFour::B(b) => b.end_position(),
            OneOfFour::C(c) => c.end_position(),
            OneOfFour::D(d) => d.end_position(),
        }
    }
}

impl<A: Parse, B: Parse, C: Parse, D: Parse> Parse for OneOfFour<A, B, C, D> {
    open spec fn spec_id() -> u64 {
        spec_mix_id(
            spec_mix_id(
                spec_mix_id(
                    spec_mix_id(14, A::spec_id() as int) as int,
                    B::spec_id() as int,
                ) as int,
                C::spec_id() as int,
            ) as int,
            D::spec_id() as int,
        )
    }

    fn id() -> u64 {
        mix_id(mix_id(mix_id(mix_id(14, A::id()), B::id()), C::id()), D::id())
    }

    open spec fn spec_name() -> Option<Seq<char>> {
        None
    }

    fn name() -> Option<String> {
        None
    }

    open spec fn spec_packed(self) -> Packed {
        match self {
            OneOfFour::A(a) => Packed {
                start: a.spec_packed().start,
                end: a.spec_packed().end,
                data: PackedData::Tag(0, Box::new(a.spec_packed())),
            },
            OneOfFour::B(b) => Packed {
                start: b.spec_packed().start,
                end: b.spec_packed().end,
                data: PackedData::Tag(1, Box::new(b.spec_packed())),
            },
            OneOfFour::C(c) => Packed {
                start: c.spec_packed().start,
                end: c.spec_packed().end,
                data: PackedData::Tag(2, Box::new(c.spec_packed())),
            },
            OneOfFour::D(d) => Packed {
                start: d.spec_packed().start,
                end: d.spec_packed().end,
                data: PackedData::Tag(3, Box::new(d.spec_packed())),
            },
        }
    }

    fn pack(&self) -> Packed {
        match self {
            OneOfFour::A(a) => {
                let inner = a.pack();
                let start = inner.start;
                let end = inner.end;
                Packed { start, end, data: PackedData::Tag(0, Box::new(inner)) }
            },
            OneOfFour::B(b) => {
                let inner = b.pack();
                let start = inner.start;
                let end = inner.end;
                Packed { start, end, data: PackedData::Tag(1, Box::new(inner)) }
            },
            OneOfFour::C(c) => {
                let inner = c.pack();
                let start = inner.start;
                let end = inner.end;
                Packed { start, end, data: PackedData::Tag(2, Box::new(inner)) }
            },
            OneOfFour::D(d) => {
                let inner = d.pack();
                let start = inner.start;
                let end = inner.end;
                Packed { start, end, data: PackedData::Tag(3, Box::new(inner)) }
            },
        }
    }

    fn unpack(packed: &Packed) -> (r: Option<Self>) {
        match &packed.data {
            PackedData::Tag(tag, inner) => {
                if packed.start != inner.start || packed.end != inner.end {
                    return None;
                }
                if *tag == 0 {
                    match A::unpack(inner) {
                        Some(a) => Some(OneOfFour::A(a)),
                        None => None,
                    }
                } else if *tag == 1 {
                    match B::unpack(inner) {
                        Some(b) => Some(OneOfFour::B(b)),
                        None => None,
                    }
                } else if *tag == 2 {
                    match C::unpack(inner) {
                        Some(c) => Some(OneOfFour::C(c)),
                        None => None,
                    }
                } else if *tag == 3 {
                    match D::unpack(inner) {
                        Some(d) => Some(OneOfFour::D(d)),
                        None => None,
                    }
                } else {
                    None
                }
            },
            _ => None,
        }
    }

    proof fn lemma_packed_span(self) {
        match self {
            OneOfFour::A(a) => a.lemma_packed_span(),
            OneOfFour::B(b) => b.lemma_packed_span(),
            OneOfFour::C(c) => c.lemma_packed_span(),
            OneOfFour::D(d) => d.lemma_packed_span(),
        }
    }

    open spec fn spec_behaves(pre: ParserView, post: ParserView, r: Option<Self>) -> bool {
        &&& (r matches Some(v) ==> match v {
            OneOfFour::A(a) => succeeded_at::<A>(post.memo, pre.pos, a),
            OneOfFour::B(b) => failed_at::<A>(post.memo, pre.pos) && succeeded_at::<B>(
                post.memo,
                pre.pos,
                b,
            ),
            OneOfFour::C(c) => failed_at::<A>(post.memo, pre.pos) && failed_at::<B>(
                post.memo,
                pre.pos,
            ) && succeeded_at::<C>(post.memo, pre.pos, c),
            OneOfFour::D(d) => failed_at::<A>(post.memo, pre.pos) && failed_at::<B>(
                post.memo,
                pre.pos,
            ) && failed_at::<C>(post.memo, pre.pos) && succeeded_at::<D>(post.memo, pre.pos, d),
        })
        &&& (r is None ==> failed_at::<A>(post.memo, pre.pos) && failed_at::<B>(
            post.memo,
            pre.pos,
        ) && failed_at::<C>(post.memo, pre.pos) && failed_at::<D>(post.memo, pre.pos))
        &&& (!pre.memo.contains_key((A::spec_id(), pre.pos)) ==> exists|
            finA: ParserView,
            rA: Option<A>,
        |
            {
                &&& #[trigger] A::spec_behaves(
                    miss_entry_state(pre, A::spec_id(), A::spec_name()),
                    finA,
                    rA,
                )
                &&& finA.text == pre.text
                &&& (rA matches Some(a) ==> r == Some(OneOfFour::<A, B, C, D>::A(a)) && post.pos
                    == finA.pos)
                &&& (rA is None ==> !(r matches Some(v) && v is A))
            })
    }

    /// Ordered choice over four branches: the value comes from the earliest
    /// branch that parses.
    fn parse(parser: &mut Parser) -> (r: Option<Self>)
        ensures
            r matches Some(v) ==> match v {
                OneOfFour::A(a) => succeeded_at::<A>(
                    final(parser).spec_memo(),
                    old(parser).spec_pos(),
                    a,
                ),
                OneOfFour::B(b) => failed_at::<A>(
                    final(parser).spec_memo(),
                    old(parser).spec_pos(),
                ) && succeeded_at::<B>(final(parser).spec_memo(), old(parser).spec_pos(), b),
                OneOfFour::C(c) => failed_at::<A>(
                    final(parser).spec_memo(),
                    old(parser).spec_pos(),
                ) && failed_at::<B>(final(parser).spec_memo(), old(parser).spec_pos())
                    && succeeded_at::<C>(final(parser).spec_memo(), old(parser).spec_pos(), c),
                OneOfFour::D(d) => failed_at::<A>(
                    final(parser).spec_memo(),
                    old(parser).spec_pos(),
                ) && failed_at::<B>(final(parser).spec_memo(), old(parser).spec_pos())
                    && failed_at::<C>(final(parser).spec_memo(), old(parser).spec_pos())
                    && succeeded_at::<D>(final(parser).spec_memo(), old(parser).spec_pos(), d),
            },
            r is None ==> failed_at::<A>(final(parser).spec_memo(), old(parser).spec_pos())
                && failed_at::<B>(final(parser).spec_memo(), old(parser).spec_pos())
                && failed_at::<C>(final(parser).spec_memo(), old(parser).spec_pos())
                && failed_at::<D>(final(parser).spec_memo(), old(parser).spec_pos()),
    {
        let ghost pre = old(parser).snapshot();
        let first = parser.parse::<A>();
        proof {
            if !pre.memo.contains_key((A::spec_id(), pre.pos)) {
                let chosen = choose|fin: ParserView|
                    #[trigger] A::spec_behaves(
                        miss_entry_state(pre, A::spec_id(), A::spec_name()),
                        fin,
                        first,
                    ) && fin.text == pre.text && (first matches Some(a) ==> parser.spec_pos()
                        == fin.pos);
                assert(A::spec_behaves(
                    miss_entry_state(pre, A::spec_id(), A::spec_name()),
                    chosen,
                    first,
                ));
            }
        }
        match first {
            Some(a) => Some(OneOfFour::A(a)),
            None => {
                match parser.parse::<B>() {
                    Some(b) => Some(OneOfFour::B(b)),
                    None => {
                        match parser.parse::<C>() {
                            Some(c) => Some(OneOfFour::C(c)),
                            None => {
                                match parser.parse::<D>() {
                                    Some(d) => Some(OneOfFour::D(d)),
                                    None => None,
                                }
                            },
                        }
                    },
                }
            },
        }
    }
}


/// Optional item: always succeeds, with `T`'s value when `T` parses and an
/// empty marker at the cursor otherwise.
#[derive(Debug, Clone, Copy)]
pub struct Maybe<T>(pub Either<T, Empty>);

impl<T> Maybe<T> {
    /// The item, if it parsed.
    pub open spec fn spec_get(self) -> Option<T> {
        match self.0 {
            Either::A(t) => Some(t),
            Either::B(_) => None,
        }
    }

    /// Returns `Some(T)` if the item exists, otherwise `None`.
    pub fn get(&self) -> (r: Option<&T>)
        ensures
            match r {
                Some(t) => self.spec_get() == Some(*t),
                None => self.spec_get() is None,
            },
    {
        if let Either::A(t) = &self.0 {
            Some(t)
        } else {
            None
        }
    }
}

impl<T: Span> Span for Maybe<T> {
    open spec fn spec_start(&self) -> int {
        self.0.spec_start()
    }

    open spec fn spec_end(&self) -> int {
        self.0.spec_end()
    }

    fn start_position(&self) -> Position {
        self.0.start_position()
    }

    fn end_position(&self) -> Position {
        self.0.end_position()
    }
}

impl<T: Parse> Parse for Maybe<T> {
    open spec fn spec_id() -> u64 {
        spec_mix_id(9, T::spec_id() as int)
    }

    fn id() -> u64 {
        mix_id(9, T::id())
    }

    open spec fn spec_name() -> Option<Seq<char>> {
        None
    }

    fn name() -> Option<String> {
        None
    }

    open spec fn spec_packed(self) -> Packed {
        self.0.spec_packed()
    }

    fn pack(&self) -> Packed {
        self.0.pack()
    }

    fn unpack(packed: &Packed) -> (r: Option<Self>) {
        match <Either<T, Empty> as Parse>::unpack(packed) {
            Some(e) => Some(Maybe(e)),
            None => None,
        }
    }

    proof fn lemma_packed_span(self) {
        self.0.lemma_packed_span();
    }

    open spec fn spec_behaves(pre: ParserView, post: ParserView, r: Option<Self>) -> bool {
        &&& r is Some
        &&& (r matches Some(m) ==> match m.spec_get() {
            Some(t) => succeeded_at::<T>(post.memo, pre.pos, t),
            None => {
                &&& failed_at::<T>(post.memo, pre.pos)
                &&& post.pos == pre.pos
                &&& m.spec_start() == pre.pos
                &&& m.spec_end() == pre.pos
            },
        })
        &&& (!pre.memo.contains_key((T::spec_id(), pre.pos)) ==> exists|
            finc: ParserView,
            rc: Option<T>,
        |
            {
                &&& #[trigger] T::spec_behaves(
                    miss_entry_state(pre, T::spec_id(), T::spec_name()),
                    finc,
                    rc,
                )
                &&& finc.text == pre.text
                &&& (rc matches Some(t) ==> (r matches Some(m) && m.spec_get() == Some(t))
                    && post.pos == finc.pos)
                &&& (rc is None ==> (r matches Some(m) && m.spec_get() is None))
            })
    }

    /// Always succeeds. The item is present exactly when `T` parses at the
    /// cursor; otherwise nothing is consumed and the span is empty.
    fn parse(parser: &mut Parser) -> (r: Option<Self>)
        ensures
            r is Some,
            r matches Some(m) ==> match m.spec_get() {
                Some(t) => succeeded_at::<T>(final(parser).spec_memo(), old(parser).spec_pos(), t),
                None => {
                    &&& failed_at::<T>(final(parser).spec_memo(), old(parser).spec_pos())
                    &&& final(parser).spec_pos() == old(parser).spec_pos()
                    &&& m.spec_start() == old(parser).spec_pos()
                    &&& m.spec_end() == old(parser).spec_pos()
                },
            },
    {
        let ghost pre = old(parser).snapshot();
        let position = parser.current_position();
        let inner = parser.parse::<T>();
        proof {
            if !pre.memo.contains_key((T::spec_id(), pre.pos)) {
                let chosen = choose|fin: ParserView|
                    #[trigger] T::spec_behaves(
                        miss_entry_state(pre, T::spec_id(), T::spec_name()),
                        fin,
                        inner,
                    ) && fin.text == pre.text && (inner matches Some(t) ==> parser.spec_pos()
                        == fin.pos);
                assert(T::spec_behaves(
                    miss_entry_state(pre, T::spec_id(), T::spec_name()),
                    chosen,
                    inner,
                ));
            }
        }
        match inner {
            Some(t) => Some(Maybe(Either::A(t))),
            None => Some(Maybe(Either::B(Empty { position }))),
        }
    }
}

/// Not a specified item: a negative lookahead that never consumes input.
#[derive(Debug)]
pub struct Not<T> {
    /// The cursor at which the lookahead was made.
    pub position: Position,
    /// The item that must not parse here.
    pub _item: core::marker::PhantomData<T>,
}

impl<T> Clone for Not<T> {
    fn clone(&self) -> (res: Self)
        ensures
            res == *self,
    {
        Not { position: self.position, _item: core::marker::PhantomData }
    }
}

impl<T> Copy for Not<T> {

}

impl<T> Span for Not<T> {
    open spec fn spec_start(&self) -> int {
        self.position.offset as int
    }

    open spec fn spec_end(&self) -> int {
        self.position.offset as int
    }

    fn start_position(&self) -> Position {
        self.position
    }

    fn end_position(&self) -> Position {
        self.position
    }
}

impl<T: Parse> Parse for Not<T> {
    open spec fn spec_id() -> u64 {
        spec_mix_id(11, T::spec_id() as int)
    }

    fn id() -> u64 {
        mix_id(11, T::id())
    }

    open spec fn spec_name() -> Option<Seq<char>> {
        match T::spec_name() {
            Some(n) => Some("not "@ + n),
            None => None,
        }
    }

    fn name() -> (r: Option<String>) {
        match T::name() {
            Some(n) => {
                let mut s = String::from_str("not ");
                s.append(n.as_str());
                Some(s)
            },
            None => None,
        }
    }

    open spec fn spec_packed(self) -> Packed {
        Packed { start: self.position.offset, end: self.position.offset, data: PackedData::Nil }
    }

    fn pack(&self) -> Packed {
        Packed { start: self.position.get(), end: self.position.get(), data: PackedData::Nil }
    }

    fn unpack(packed: &Packed) -> (r: Option<Self>) {
        match &packed.data {
            PackedData::Nil => {
                if packed.start == packed.end {
                    Some(
                        Not {
                            position: Position::new(packed.start),
                            _item: core::marker::PhantomData,
                        },
                    )
                } else {
                    None
                }
            },
            _ => None,
        }
    }

    proof fn lemma_packed_span(self) {
    }

    open spec fn spec_behaves(pre: ParserView, post: ParserView, r: Option<Self>) -> bool {
        &&& (r matches Some(v) ==> {
            &&& failed_at::<T>(post.memo, pre.pos)
            &&& post.pos == pre.pos
            &&& v.spec_start() == pre.pos
            &&& v.spec_end() == pre.pos
        })
        &&& (r is None ==> exists|t: T| succeeded_at::<T>(post.memo, pre.pos, t))
        &&& (!pre.memo.contains_key((T::spec_id(), pre.pos)) ==> exists|
            finT: ParserView,
            rT: Option<T>,
        |
            {
                &&& #[trigger] T::spec_behaves(
                    miss_entry_state(pre, T::spec_id(), T::spec_name()),
                    finT,
                    rT,
                )
                &&& finT.text == pre.text
                &&& (rT is None <==> r is Some)
            })
    }

    /// Succeeds, with an empty span and nothing consumed, exactly when `T`
    /// fails at the cursor.
    fn parse(parser: &mut Parser) -> (r: Option<Self>)
        ensures
            r matches Some(v) ==> {
                &&& failed_at::<T>(final(parser).spec_memo(), old(parser).spec_pos())
                &&& final(parser).spec_pos() == old(parser).spec_pos()
                &&& v.spec_start() == old(parser).spec_pos()
                &&& v.spec_end() == old(parser).spec_pos()
            },
            r is None ==> exists|t: T|
                succeeded_at::<T>(final(parser).spec_memo(), old(parser).spec_pos(), t),
    {
        let ghost pre = old(parser).snapshot();
        let inner = parser.parse::<T>();
        proof {
            if !pre.memo.contains_key((T::spec_id(), pre.pos)) {
                let chosen = choose|fin: ParserView|
                    #[trigger] T::spec_behaves(
                        miss_entry_state(pre, T::spec_id(), T::spec_name()),
                        fin,
                        inner,
                    ) && fin.text == pre.text;
                assert(T::spec_behaves(
                    miss_entry_state(pre, T::spec_id(), T::spec_name()),
                    chosen,
                    inner,
                ));
            }
        }
        match inner {
            None => {
                let r = Some(
                    Not { position: parser.current_position(), _item: core::marker::PhantomData },
                );
                proof {
                    assert(Self::spec_behaves(old(parser).snapshot(), parser.snapshot(), r));
                }
                r
            },
            Some(v) => {
                proof {
                    assert(succeeded_at::<T>(
                        parser.snapshot().memo,
                        old(parser).snapshot().pos,
                        v,
                    ));
                }
                None
            },
        }
    }
}

/// Non-empty item: `T`'s value, except that a `T` whose span is empty is
/// rejected.
#[derive(Debug, Clone, Copy)]
pub struct NonEmpty<T>(pub T);

impl<T> NonEmpty<T> {
    /// Returns the item.
    pub fn get(&self) -> (r: &T)
        ensures
            *r == self.0,
    {
        &self.0
    }
}

impl<T: Span> Span for NonEmpty<T> {
    open spec fn spec_start(&self) -> int {
        self.0.spec_start()
    }

    open spec fn spec_end(&self) -> int {
        self.0.spec_end()
    }

    fn start_position(&self) -> Position {
        self.0.start_position()
    }

    fn end_position(&self) -> Position {
        self.0.end_position()
    }
}

impl<T: Parse> Parse for NonEmpty<T> {
    open spec fn spec_id() -> u64 {
        spec_mix_id(10, T::spec_id() as int)
    }

    fn id() -> u64 {
        mix_id(10, T::id())
    }

    open spec fn spec_name() -> Option<Seq<char>> {
        None
    }

    fn name() -> Option<String> {
        None
    }

    open spec fn spec_packed(self) -> Packed {
        Packed {
            start: self.0.spec_packed().start,
            end: self.0.spec_packed().end,
            data: PackedData::One(Box::new(self.0.spec_packed())),
        }
    }

    fn pack(&self) -> Packed {
        let inner = self.0.pack();
        let start = inner.start;
        let end = inner.end;
        Packed { start, end, data: PackedData::One(Box::new(inner)) }
    }

    fn unpack(packed: &Packed) -> (r: Option<Self>) {
        match &packed.data {
            PackedData::One(inner) => {
                if packed.start != inner.start || packed.end != inner.end {
                    return None;
                }
                match T::unpack(inner) {
                    Some(t) => Some(NonEmpty(t)),
                    None => None,
                }
            },
            _ => None,
        }
    }

    proof fn lemma_packed_span(self) {
        self.0.lemma_packed_span();
    }

    open spec fn spec_behaves(pre: ParserView, post: ParserView, r: Option<Self>) -> bool {
        &&& (r matches Some(v) ==> succeeded_at::<T>(post.memo, pre.pos, v.0) && v.spec_start()
            < v.spec_end())
        &&& (r is None ==> failed_at::<T>(post.memo, pre.pos) || (exists|t: T|
            succeeded_at::<T>(post.memo, pre.pos, t) && t.spec_start() >= t.spec_end()))
        &&& (!pre.memo.contains_key((T::spec_id(), pre.pos)) ==> exists|
            finc: ParserView,
            rc: Option<T>,
        |
            {
                &&& #[trigger] T::spec_behaves(
                    miss_entry_state(pre, T::spec_id(), T::spec_name()),
                    finc,
                    rc,
                )
                &&& finc.text == pre.text
                &&& (rc matches Some(t) ==> (if t.spec_start() < t.spec_end() {
                    r == Some(NonEmpty(t)) && post.pos == finc.pos
                } else {
                    r is None
                }))
                &&& (rc is None ==> r is None)
            })
    }

    /// Fails exactly when `T` fails or succeeds with an empty span; otherwise
    /// returns `T`'s value.
    fn parse(parser: &mut Parser) -> (r: Option<Self>)
        ensures
            r matches Some(v) ==> succeeded_at::<T>(
                final(parser).spec_memo(),
                old(parser).spec_pos(),
                v.0,
            ) && v.spec_start() < v.spec_end(),
            r is None ==> failed_at::<T>(final(parser).spec_memo(), old(parser).spec_pos()) || (
            exists|t: T|
                succeeded_at::<T>(final(parser).spec_memo(), old(parser).spec_pos(), t)
                    && t.spec_start() >= t.spec_end()),
    {
        let ghost pre = old(parser).snapshot();
        let inner = parser.parse::<T>();
        proof {
            if !pre.memo.contains_key((T::spec_id(), pre.pos)) {
                let chosen = choose|fin: ParserView|
                    #[trigger] T::spec_behaves(
                        miss_entry_state(pre, T::spec_id(), T::spec_name()),
                        fin,
                        inner,
                    ) && fin.text == pre.text && (inner matches Some(t) ==> parser.spec_pos()
                        == fin.pos);
                assert(T::spec_behaves(
                    miss_entry_state(pre, T::spec_id(), T::spec_name()),
                    chosen,
                    inner,
                ));
            }
        }
        match inner {
            Some(item) => {
                if item.is_empty() {
                    None
                } else {
                    Some(NonEmpty(item))
                }
            },
            None => None,
        }
    }
}

impl<T: Parse> Parse for Box<T> {
    /// A boxed component shares the identity of the component it wraps, so
    /// the two share memo records; their packed shapes agree.
    open spec fn spec_id() -> u64 {
        T::spec_id()
    }

    fn id() -> u64 {
        T::id()
    }

    open spec fn spec_name() -> Option<Seq<char>> {
        T::spec_name()
    }

    fn name() -> Option<String> {
        T::name()
    }

    open spec fn spec_packed(self) -> Packed {
        (*self).spec_packed()
    }

    fn pack(&self) -> Packed {
        (**self).pack()
    }

    fn unpack(packed: &Packed) -> (r: Option<Self>) {
        match T::unpack(packed) {
            Some(t) => Some(Box::new(t)),
            None => None,
        }
    }

    proof fn lemma_packed_span(self) {
        (*self).lemma_packed_span();
    }

    open spec fn spec_behaves(pre: ParserView, post: ParserView, r: Option<Self>) -> bool {
        &&& (r matches Some(v) ==> succeeded_at::<T>(post.memo, pre.pos, *v))
        &&& (r is None ==> failed_at::<T>(post.memo, pre.pos))
        &&& (!pre.memo.contains_key((T::spec_id(), pre.pos)) ==> exists|
            finc: ParserView,
            rc: Option<T>,
        |
            {
                &&& #[trigger] T::spec_behaves(
                    miss_entry_state(pre, T::spec_id(), T::spec_name()),
                    finc,
                    rc,
                )
                &&& finc.text == pre.text
                &&& (rc matches Some(t) ==> (r matches Some(b) && *b == t) && post.pos
                    == finc.pos)
                &&& (rc is None ==> r is None)
            })
    }

    /// Transparent: parses exactly as `T` does.
    fn parse(parser: &mut Parser) -> (r: Option<Self>)
        ensures
            r matches Some(v) ==> succeeded_at::<T>(
                final(parser).spec_memo(),
                old(parser).spec_pos(),
                *v,
            ),
            r is None ==> failed_at::<T>(final(parser).spec_memo(), old(parser).spec_pos()),
    {
        let ghost pre = old(parser).snapshot();
        let inner = parser.parse::<T>();
        proof {
            if !pre.memo.contains_key((T::spec_id(), pre.pos)) {
                let chosen = choose|fin: ParserView|
                    #[trigger] T::spec_behaves(
                        miss_entry_state(pre, T::spec_id(), T::spec_name()),
                        fin,
                        inner,
                    ) && fin.text == pre.text && (inner matches Some(t) ==> parser.spec_pos()
                        == fin.pos);
                assert(T::spec_behaves(
                    miss_entry_state(pre, T::spec_id(), T::spec_name()),
                    chosen,
                    inner,
                ));
            }
        }
        match inner {
            Some(t) => Some(Box::new(t)),
            None => None,
        }
    }
}


/// A run of `T`s: `steps` are the cursor positions after each consecutive
/// success of `T` recorded in the memo, from `start` to `stop`, each one
/// strictly advancing.
pub open spec fn while_chain<T: Parse>(
    m: Map<(u64, int), Option<Packed>>,
    steps: Seq<int>,
    start: int,
    stop: int,
) -> bool {
    &&& steps.len() >= 1
    &&& steps[0] == start
    &&& steps.last() == stop
    &&& forall|i: int|
        0 <= i < steps.len() - 1 ==> (#[trigger] steps[i]) < steps[i + 1] && (exists|t: T|
            succeeded_at::<T>(m, steps[i], t) && t.spec_end() == steps[i + 1])
}

/// A run recorded in a memo still stands in any extension of that memo.
proof fn lemma_while_chain_extends<T: Parse>(
    m1: Map<(u64, int), Option<Packed>>,
    m2: Map<(u64, int), Option<Packed>>,
    steps: Seq<int>,
    start: int,
    stop: int,
)
    requires
        while_chain::<T>(m1, steps, start, stop),
        crate::parse::memo_extends(m1, m2),
    ensures
        while_chain::<T>(m2, steps, start, stop),
{
    assert forall|i: int|
        0 <= i < steps.len() - 1 implies (#[trigger] steps[i]) < steps[i + 1] && (exists|t: T|
        succeeded_at::<T>(m2, steps[i], t) && t.spec_end() == steps[i + 1]) by {
        let t = choose|t: T| succeeded_at::<T>(m1, steps[i], t) && t.spec_end() == steps[i + 1];
        assert(succeeded_at::<T>(m2, steps[i], t));
    }
}

/// Indicating to continue parsing while `T::parse()` succeeds and advances
/// the cursor.
#[derive(Debug)]
pub struct While<T> {
    /// Where the run starts.
    pub start_position: Position,
    /// The repeated item.
    pub _phantom: core::marker::PhantomData<T>,
    /// Where the run ends.
    pub end_position: Position,
}

impl<T> Clone for While<T> {
    fn clone(&self) -> (res: Self)
        ensures
            res == *self,
    {
        While {
            start_position: self.start_position,
            _phantom: core::marker::PhantomData,
            end_position: self.end_position,
        }
    }
}

impl<T> Copy for While<T> {

}

impl<T> Span for While<T> {
    open spec fn spec_start(&self) -> int {
        self.start_position.offset as int
    }

    open spec fn spec_end(&self) -> int {
        self.end_position.offset as int
    }

    fn start_position(&self) -> Position {
        self.start_position
    }

    fn end_position(&self) -> Position {
        self.end_position
    }
}

impl<T: Parse> Parse for While<T> {
    open spec fn spec_id() -> u64 {
        spec_mix_id(8, T::spec_id() as int)
    }

    fn id() -> u64 {
        mix_id(8, T::id())
    }

    open spec fn spec_name() -> Option<Seq<char>> {
        None
    }

    fn name() -> Option<String> {
        None
    }

    open spec fn spec_packed(self) -> Packed {
        Packed {
            start: self.start_position.offset,
            end: self.end_position.offset,
            data: PackedData::Unit,
        }
    }

    fn pack(&self) -> Packed {
        Packed {
            start: self.start_position.get(),
            end: self.end_position.get(),
            data: PackedData::Unit,
        }
    }

    fn unpack(packed: &Packed) -> (r: Option<Self>) {
        match &packed.data {
            PackedData::Unit => Some(
                While {
                    start_position: Position::new(packed.start),
                    _phantom: core::marker::PhantomData,
                    end_position: Position::new(packed.end),
                },
            ),
            _ => None,
        }
    }

    proof fn lemma_packed_span(self) {
    }

    open spec fn spec_behaves(pre: ParserView, post: ParserView, r: Option<Self>) -> bool {
        &&& r is Some
        &&& (r matches Some(v) ==> exists|steps: Seq<int>|
            while_chain::<T>(post.memo, steps, pre.pos, post.pos))
        &&& (failed_at::<T>(post.memo, post.pos) || (exists|t: T|
            succeeded_at::<T>(post.memo, post.pos, t) && t.spec_end() == post.pos))
    }

    /// Always succeeds: the span covers the greatest run of consecutive `T`
    /// successes that advance the cursor, and at the end of the run `T`
    /// either fails or can only succeed without advancing.
    fn parse(parser: &mut Parser) -> (r: Option<Self>)
        ensures
            r is Some,
            r matches Some(v) ==> exists|steps: Seq<int>|
                while_chain::<T>(
                    final(parser).spec_memo(),
                    steps,
                    old(parser).spec_pos(),
                    final(parser).spec_pos(),
                ),
            failed_at::<T>(final(parser).spec_memo(), final(parser).spec_pos()) || (exists|t: T|
                succeeded_at::<T>(final(parser).spec_memo(), final(parser).spec_pos(), t)
                    && t.spec_end() == final(parser).spec_pos()),
    {
        let start_position = parser.current_position();
        let ghost mut steps: Seq<int> = seq![start_position.offset as int];
        loop
            invariant
                parser.wf(),
                parser.spec_text() == old(parser).spec_text(),
                parser.spec_level() == old(parser).spec_level(),
                crate::parse::memo_extends(old(parser).spec_memo(), parser.spec_memo()),
                parser.spec_expected_pos() >= old(parser).spec_expected_pos(),
                old(parser).spec_pos() <= parser.spec_pos() <= parser.spec_text().len(),
                start_position.offset as int == old(parser).spec_pos(),
                while_chain::<T>(
                    parser.spec_memo(),
                    steps,
                    old(parser).spec_pos(),
                    parser.spec_pos(),
                ),
            ensures
                parser.wf(),
                parser.spec_text() == old(parser).spec_text(),
                parser.spec_level() == old(parser).spec_level(),
                crate::parse::memo_extends(old(parser).spec_memo(), parser.spec_memo()),
                parser.spec_expected_pos() >= old(parser).spec_expected_pos(),
                old(parser).spec_pos() <= parser.spec_pos() <= parser.spec_text().len(),
                start_position.offset as int == old(parser).spec_pos(),
                while_chain::<T>(
                    parser.spec_memo(),
                    steps,
                    old(parser).spec_pos(),
                    parser.spec_pos(),
                ),
                failed_at::<T>(parser.spec_memo(), parser.spec_pos()) || (exists|t: T|
                    succeeded_at::<T>(parser.spec_memo(), parser.spec_pos(), t) && t.spec_end()
                        == parser.spec_pos()),
            decreases parser.spec_text().len() - parser.spec_pos(),
        {
            let ghost memo_before = parser.spec_memo();
            let before = parser.current_position();
            match parser.parse::<T>() {
                Some(t) => {
                    proof {
                        crate::parse::lemma_memo_extends_trans(
                            old(parser).spec_memo(),
                            memo_before,
                            parser.spec_memo(),
                        );
                        lemma_while_chain_extends::<T>(
                            memo_before,
                            parser.spec_memo(),
                            steps,
                            old(parser).spec_pos(),
                            before.offset as int,
                        );
                    }
                    if parser.current_position().get() == before.get() {
                        proof {
                            assert(succeeded_at::<T>(parser.spec_memo(), parser.spec_pos(), t));
                        }
                        break;
                    }
                    proof {
                        steps = steps.push(parser.spec_pos());
                        assert(while_chain::<T>(
                            parser.spec_memo(),
                            steps,
                            old(parser).spec_pos(),
                            parser.spec_pos(),
                        )) by {
                            assert(forall|i: int|
                                0 <= i < steps.len() - 1 ==> steps[i] == steps.drop_last()[i]);
                            assert(succeeded_at::<T>(parser.spec_memo(), before.offset as int, t)
                                && t.spec_end() == parser.spec_pos());
                        }
                    }
                },
                None => {
                    proof {
                        crate::parse::lemma_memo_extends_trans(
                            old(parser).spec_memo(),
                            memo_before,
                            parser.spec_memo(),
                        );
                        lemma_while_chain_extends::<T>(
                            memo_before,
                            parser.spec_memo(),
                            steps,
                            old(parser).spec_pos(),
                            parser.spec_pos(),
                        );
                    }
                    break;
                },
            }
        }
        proof {
            assert(while_chain::<T>(
                parser.snapshot().memo,
                steps,
                old(parser).snapshot().pos,
                parser.snapshot().pos,
            ));
            assert(parser.snapshot().memo == parser.spec_memo());
            assert(parser.snapshot().pos == parser.spec_pos());
        }
        Some(
            While {
                start_position,
                _phantom: core::marker::PhantomData,
                end_position: parser.current_position(),
            },
        )
    }
}


impl<T0: Parse, T1: Parse> Parse for (T0, T1) {
    open spec fn spec_id() -> u64 {
        spec_mix_id(spec_mix_id(17, T0::spec_id() as int) as int, T1::spec_id() as int)
    }

    fn id() -> u64 {
        mix_id(mix_id(17, T0::id()), T1::id())
    }

    open spec fn spec_name() -> Option<Seq<char>> {
        None
    }

    fn name() -> Option<String> {
        None
    }

    open spec fn spec_packed(self) -> Packed {
        Packed {
            start: self.0.spec_packed().start,
            end: self.1.spec_packed().end,
            data: PackedData::Two(Box::new(self.0.spec_packed()), Box::new(self.1.spec_packed())),
        }
    }

    fn pack(&self) -> Packed {
        let p0 = self.0.pack();
        let p1 = self.1.pack();
        let start = p0.start;
        let end = p1.end;
        Packed { start, end, data: PackedData::Two(Box::new(p0), Box::new(p1)) }
    }

    fn unpack(packed: &Packed) -> (r: Option<Self>) {
        match &packed.data {
            PackedData::Two(p0, p1) => {
                if packed.start != p0.start || packed.end != p1.end {
                    return None;
                }
                let v0 = match T0::unpack(p0) {
                    Some(v) => v,
                    None => return None,
                };
                let v1 = match T1::unpack(p1) {
                    Some(v) => v,
                    None => return None,
                };
                Some((v0, v1))
            },
            _ => None,
        }
    }

    proof fn lemma_packed_span(self) {
        self.0.lemma_packed_span();
        self.1.lemma_packed_span();
    }

    open spec fn spec_behaves(pre: ParserView, post: ParserView, r: Option<Self>) -> bool {
        &&& (r matches Some(v) ==> {
            &&& succeeded_at::<T0>(post.memo, pre.pos, v.0)
            &&& succeeded_at::<T1>(post.memo, v.0.spec_end(), v.1)
            &&& v.0.spec_start() == pre.pos
            &&& v.1.spec_start() == v.0.spec_end()
        })
        &&& (r is None ==> failed_at::<T0>(post.memo, pre.pos) || (exists|a: T0|
            succeeded_at::<T0>(post.memo, pre.pos, a) && failed_at::<T1>(
                post.memo,
                a.spec_end(),
            )))
        &&& (!pre.memo.contains_key((T0::spec_id(), pre.pos)) ==> exists|
            fin0: ParserView,
            r0: Option<T0>,
        |
            {
                &&& #[trigger] T0::spec_behaves(
                    miss_entry_state(pre, T0::spec_id(), T0::spec_name()),
                    fin0,
                    r0,
                )
                &&& fin0.text == pre.text
                &&& (r0 is None ==> r is None)
                &&& (r0 matches Some(a) ==> {
                    let after0 = ParserView {
                        text: pre.text,
                        pos: a.spec_end(),
                        level: pre.level,
                        memo: fin0.memo.insert(
                            (T0::spec_id(), pre.pos),
                            Some(a.spec_packed()),
                        ),
                        expected_pos: fin0.expected_pos,
                        expected_level: fin0.expected_level,
                        expected_items: fin0.expected_items,
                    };
                    &&& (r matches Some(v) ==> v.0 == a)
                    &&& (!after0.memo.contains_key((T1::spec_id(), a.spec_end())) ==> exists|
                        fin1: ParserView,
                        r1: Option<T1>,
                    |
                        {
                            &&& #[trigger] T1::spec_behaves(
                                miss_entry_state(after0, T1::spec_id(), T1::spec_name()),
                                fin1,
                                r1,
                            )
                            &&& fin1.text == pre.text
                            &&& (r1 is None ==> r is None)
                            &&& (r1 matches Some(b) ==> r == Some((a, b)) && post.pos == fin1.pos)
                        })
                })
            })
    }

    /// A sequence: both parts must parse in order, the second starting where
    /// the first ended. Any failure makes the whole sequence fail, and the
    /// dispatch then rewinds the cursor to the sequence's start.
    fn parse(parser: &mut Parser) -> (r: Option<Self>)
        ensures
            r matches Some(v) ==> {
                &&& succeeded_at::<T0>(final(parser).spec_memo(), old(parser).spec_pos(), v.0)
                &&& succeeded_at::<T1>(final(parser).spec_memo(), v.0.spec_end(), v.1)
                &&& v.0.spec_start() == old(parser).spec_pos()
                &&& v.1.spec_start() == v.0.spec_end()
            },
            r is None ==> failed_at::<T0>(final(parser).spec_memo(), old(parser).spec_pos()) || (
            exists|a: T0|
                succeeded_at::<T0>(final(parser).spec_memo(), old(parser).spec_pos(), a)
                    && failed_at::<T1>(final(parser).spec_memo(), a.spec_end())),
    {
        let ghost pre = old(parser).snapshot();
        let ghost k0 = (T0::spec_id(), pre.pos);
        let first = parser.parse::<T0>();
        let v0 = match first {
            Some(v) => v,
            None => {
                proof {
                    if !pre.memo.contains_key(k0) {
                        let fin0 = choose|fin: ParserView|
                            #[trigger] T0::spec_behaves(
                                miss_entry_state(pre, T0::spec_id(), T0::spec_name()),
                                fin,
                                first,
                            ) && fin.text == pre.text;
                        assert(T0::spec_behaves(
                            miss_entry_state(pre, T0::spec_id(), T0::spec_name()),
                            fin0,
                            first,
                        ));
                    }
                }
                return None;
            },
        };
        let ghost mid = parser.snapshot();
        let second = parser.parse::<T1>();
        let ghost fin_actual = parser.snapshot();
        let r = match second {
            Some(v1) => Some((v0, v1)),
            None => None,
        };
        proof {
            if second is None {
                assert(succeeded_at::<T0>(parser.spec_memo(), old(parser).spec_pos(), v0));
                assert(failed_at::<T1>(parser.spec_memo(), v0.spec_end()));
            }
            if !pre.memo.contains_key(k0) {
                let fin0 = choose|fin: ParserView|
                    #[trigger] T0::spec_behaves(
                        miss_entry_state(pre, T0::spec_id(), T0::spec_name()),
                        fin,
                        first,
                    ) && fin.text == pre.text && mid.memo == fin.memo.insert(
                        k0,
                        Some(v0.spec_packed()),
                    ) && mid.pos == fin.pos && mid.expected_pos == fin.expected_pos
                        && mid.expected_level == fin.expected_level && mid.expected_items
                        == fin.expected_items;
                assert(T0::spec_behaves(
                    miss_entry_state(pre, T0::spec_id(), T0::spec_name()),
                    fin0,
                    first,
                ));
                let after0 = ParserView {
                    text: pre.text,
                    pos: v0.spec_end(),
                    level: pre.level,
                    memo: fin0.memo.insert(k0, Some(v0.spec_packed())),
                    expected_pos: fin0.expected_pos,
                    expected_level: fin0.expected_level,
                    expected_items: fin0.expected_items,
                };
                assert(mid == after0);
                if !after0.memo.contains_key((T1::spec_id(), v0.spec_end())) {
                    let fin1 = choose|fin: ParserView|
                        #[trigger] T1::spec_behaves(
                            miss_entry_state(mid, T1::spec_id(), T1::spec_name()),
                            fin,
                            second,
                        ) && fin.text == mid.text && (second matches Some(b) ==> fin_actual.pos
                            == fin.pos);
                    assert(T1::spec_behaves(
                        miss_entry_state(after0, T1::spec_id(), T1::spec_name()),
                        fin1,
                        second,
                    ));
                }
            }
        }
        r
    }
}

impl<T0: Parse, T1: Parse, T2: Parse> Parse for (T0, T1, T2) {
    open spec fn spec_id() -> u64 {
        spec_mix_id(
            spec_mix_id(
                spec_mix_id(18, T0::spec_id() as int) as int,
                T1::spec_id() as int,
            ) as int,
            T2::spec_id() as int,
        )
    }

    fn id() -> u64 {
        mix_id(mix_id(mix_id(18, T0::id()), T1::id()), T2::id())
    }

    open spec fn spec_name() -> Option<Seq<char>> {
        None
    }

    fn name() -> Option<String> {
        None
    }

    open spec fn spec_packed(self) -> Packed {
        Packed {
            start: self.0.spec_packed().start,
            end: self.2.spec_packed().end,
            data: PackedData::Two(
                Box::new(self.0.spec_packed()),
                Box::new(
                    Packed {
                        start: self.1.spec_packed().start,
                        end: self.2.spec_packed().end,
                        data: PackedData::Two(
                            Box::new(self.1.spec_packed()),
                            Box::new(self.2.spec_packed()),
                        ),
                    },
                ),
            ),
        }
    }

    fn pack(&self) -> Packed {
        let p0 = self.0.pack();
        let p1 = self.1.pack();
        let p2 = self.2.pack();
        let start = p0.start;
        let end = p2.end;
        let mid_start = p1.start;
        let mid_end = p2.end;
        Packed {
            start,
            end,
            data: PackedData::Two(
                Box::new(p0),
                Box::new(
                    Packed {
                        start: mid_start,
                        end: mid_end,
                        data: PackedData::Two(Box::new(p1), Box::new(p2)),
                    },
                ),
            ),
        }
    }

    fn unpack(packed: &Packed) -> (r: Option<Self>) {
        match &packed.data {
            PackedData::Two(p0, rest) => {
                match &rest.data {
                    PackedData::Two(p1, p2) => {
                        if packed.start != p0.start || packed.end != p2.end || rest.start
                            != p1.start || rest.end != p2.end {
                            return None;
                        }
                        let v0 = match T0::unpack(p0) {
                            Some(v) => v,
                            None => return None,
                        };
                        let v1 = match T1::unpack(p1) {
                            Some(v) => v,
                            None => return None,
                        };
                        let v2 = match T2::unpack(p2) {
                            Some(v) => v,
                            None => return None,
                        };
                        Some((v0, v1, v2))
                    },
                    _ => None,
                }
            },
            _ => None,
        }
    }

    proof fn lemma_packed_span(self) {
        self.0.lemma_packed_span();
        self.2.lemma_packed_span();
    }

    open spec fn spec_behaves(pre: ParserView, post: ParserView, r: Option<Self>) -> bool {
        &&& (r matches Some(v) ==> {
            &&& succeeded_at::<T0>(post.memo, pre.pos, v.0)
            &&& succeeded_at::<T1>(post.memo, v.0.spec_end(), v.1)
            &&& succeeded_at::<T2>(post.memo, v.1.spec_end(), v.2)
            &&& v.0.spec_start() == pre.pos
            &&& v.1.spec_start() == v.0.spec_end()
            &&& v.2.spec_start() == v.1.spec_end()
        })
    }

    /// A sequence of three parts, each starting where the one before ended.
    fn parse(parser: &mut Parser) -> (r: Option<Self>)
        ensures
            r matches Some(v) ==> {
                &&& succeeded_at::<T0>(final(parser).spec_memo(), old(parser).spec_pos(), v.0)
                &&& succeeded_at::<T1>(final(parser).spec_memo(), v.0.spec_end(), v.1)
                &&& succeeded_at::<T2>(final(parser).spec_memo(), v.1.spec_end(), v.2)
                &&& v.0.spec_start() == old(parser).spec_pos()
                &&& v.1.spec_start() == v.0.spec_end()
                &&& v.2.spec_start() == v.1.spec_end()
            },
    {
        let v0 = match parser.parse::<T0>() {
            Some(v) => v,
            None => {
                return None;
            },
        };
        let v1 = match parser.parse::<T1>() {
            Some(v) => v,
            None => {
                return None;
            },
        };
        let v2 = match parser.parse::<T2>() {
            Some(v) => v,
            None => {
                return None;
            },
        };
        Some((v0, v1, v2))
    }
}


/// The packed shape of a list of components: a chain of pairs ending in `Nil`.
pub open spec fn spec_pack_list<T: Parse>(s: Seq<T>) -> Packed
    decreases s.len(),
{
    if s.len() == 0 {
        Packed { start: 0, end: 0, data: PackedData::Nil }
    } else {
        Packed {
            start: 0,
            end: 0,
            data: PackedData::Two(
                Box::new(s[0].spec_packed()),
                Box::new(spec_pack_list(s.drop_first())),
            ),
        }
    }
}

/// Packs a list of components for the memo table.
fn pack_list<T: Parse>(v: &Vec<T>) -> (r: Packed)
    ensures
        r == spec_pack_list(v@),
{
    let mut acc = Packed { start: 0, end: 0, data: PackedData::Nil };
    let mut i = v.len();
    proof {
        assert(v@.skip(i as int) =~= Seq::<T>::empty());
    }
    while i > 0
        invariant
            i <= v@.len(),
            acc == spec_pack_list(v@.skip(i as int)),
        decreases i,
    {
        i = i - 1;
        acc = Packed {
            start: 0,
            end: 0,
            data: PackedData::Two(Box::new(v[i].pack()), Box::new(acc)),
        };
        proof {
            assert(v@.skip(i as int).drop_first() =~= v@.skip(i as int + 1));
            assert(v@.skip(i as int)[0] == v@[i as int]);
        }
    }
    proof {
        assert(v@.skip(0) =~= v@);
    }
    acc
}

/// Recovers a list of components out of its packed shape.
fn unpack_list<T: Parse>(packed: &Packed) -> (r: Option<Vec<T>>)
    ensures
        r matches Some(v) ==> spec_pack_list(v@) == *packed,
        (exists|s: Seq<T>| spec_pack_list(s) == *packed) ==> r is Some,
    decreases *packed,
{
    if packed.start != 0 || packed.end != 0 {
        proof {
            assert forall|s: Seq<T>| spec_pack_list(s) != *packed by {
                if s.len() == 0 {
                    assert(spec_pack_list(s).start == 0);
                } else {
                    assert(spec_pack_list(s).start == 0);
                }
            }
        }
        return None;
    }
    match &packed.data {
        PackedData::Nil => {
            let v: Vec<T> = Vec::new();
            proof {
                assert(spec_pack_list(v@) == *packed);
            }
            Some(v)
        },
        PackedData::Two(head, tail) => {
            let h = match T::unpack(head) {
                Some(h) => h,
                None => {
                    proof {
                        assert forall|s: Seq<T>| spec_pack_list(s) != *packed by {
                            if s.len() > 0 && spec_pack_list(s) == *packed {
                                assert(s[0].spec_packed() == *head);
                                assert(exists|v: T| v.spec_packed() == *head);
                            }
                        }
                    }
                    return None;
                },
            };
            let rest = match unpack_list::<T>(tail) {
                Some(rest) => rest,
                None => {
                    proof {
                        assert forall|s: Seq<T>| spec_pack_list(s) != *packed by {
                            if s.len() > 0 && spec_pack_list(s) == *packed {
                                assert(spec_pack_list(s.drop_first()) == *tail);
                                assert(exists|s2: Seq<T>| spec_pack_list(s2) == *tail);
                            }
                        }
                    }
                    return None;
                },
            };
            let mut out = rest;
            let ghost rest_view = out@;
            out.insert(0, h);
            proof {
                assert(out@[0] == h);
                assert(out@.drop_first() =~= rest_view);
                assert(spec_pack_list(out@) == *packed);
            }
            Some(out)
        },
        _ => {
            proof {
                assert forall|s: Seq<T>| spec_pack_list(s) != *packed by {
                    if spec_pack_list(s) == *packed {
                        if s.len() == 0 {
                            assert(spec_pack_list(s).data is Nil);
                        } else {
                            assert(spec_pack_list(s).data is Two);
                        }
                    }
                }
            }
            None
        },
    }
}



/// Two lists with the same packed shape have the same length and elementwise
/// equal packed shapes.
proof fn lemma_pack_list_same<T: Parse>(s1: Seq<T>, s2: Seq<T>)
    requires
        spec_pack_list(s1) == spec_pack_list(s2),
    ensures
        s1.len() == s2.len(),
        forall|i: int| 0 <= i < s1.len() ==> (#[trigger] s1[i]).spec_packed() == s2[i].spec_packed(),
    decreases s1.len(),
{
    if s1.len() == 0 {
        if s2.len() > 0 {
            assert(spec_pack_list(s2).data is Two);
        }
    } else {
        if s2.len() == 0 {
            assert(spec_pack_list(s1).data is Two);
        } else {
            lemma_pack_list_same::<T>(s1.drop_first(), s2.drop_first());
            assert forall|i: int|
                0 <= i < s1.len() implies (#[trigger] s1[i]).spec_packed()
                == s2[i].spec_packed() by {
                if i > 0 {
                    assert(s1.drop_first()[i - 1] == s1[i]);
                    assert(s2.drop_first()[i - 1] == s2[i]);
                }
            }
        }
    }
}

/// The run of delimiter-item pairs can go no further at `stop`: either the
/// delimiter's record there is a failure, or only a zero-width delimiter-item
/// pair parses there.
pub open spec fn items_run_stops<Item: Parse, Delimiter: Parse>(
    m: Map<(u64, int), Option<Packed>>,
    stop: int,
) -> bool {
    failed_at::<Delimiter>(m, stop) || (exists|d: Delimiter, it: Item|
        succeeded_at::<Delimiter>(m, stop, d) && d.spec_end() == stop && succeeded_at::<Item>(
            m,
            stop,
            it,
        ) && it.spec_end() == stop)
}

/// One or more items separated by delimiters: `Item (Delimiter Item)*`.
#[derive(Debug)]
pub struct NonEmptyItems<Item, Delimiter> {
    /// The items, in order.
    pub items: Vec<Item>,
    /// The delimiters between them, in order: one fewer than the items.
    pub delimiters: Vec<Delimiter>,
}

impl<Item, Delimiter> NonEmptyItems<Item, Delimiter> {
    /// Returns the items.
    pub fn items(&self) -> (r: &[Item])
        ensures
            r@ == self.items@,
    {
        self.items.as_slice()
    }

    /// Returns the delimiters.
    pub fn delimiters(&self) -> (r: &[Delimiter])
        ensures
            r@ == self.delimiters@,
    {
        self.delimiters.as_slice()
    }
}

impl<Item: Span, Delimiter: Span> Span for NonEmptyItems<Item, Delimiter> {
    open spec fn spec_start(&self) -> int {
        if self.items@.len() == 0 {
            0
        } else {
            self.items@[0].spec_start()
        }
    }

    open spec fn spec_end(&self) -> int {
        if self.items@.len() == 0 {
            0
        } else {
            self.items@.last().spec_end()
        }
    }

    fn start_position(&self) -> Position {
        if self.items.len() == 0 {
            Position::new(0)
        } else {
            self.items[0].start_position()
        }
    }

    fn end_position(&self) -> Position {
        if self.items.len() == 0 {
            Position::new(0)
        } else {
            self.items[self.items.len() - 1].end_position()
        }
    }
}

impl<Item: Parse, Delimiter: Parse> Parse for NonEmptyItems<Item, Delimiter> {
    open spec fn spec_id() -> u64 {
        spec_mix_id(spec_mix_id(15, Item::spec_id() as int) as int, Delimiter::spec_id() as int)
    }

    fn id() -> u64 {
        mix_id(mix_id(15, Item::id()), Delimiter::id())
    }

    open spec fn spec_name() -> Option<Seq<char>> {
        None
    }

    fn name() -> Option<String> {
        None
    }

    open spec fn spec_packed(self) -> Packed {
        Packed {
            start: if self.items@.len() == 0 {
                0
            } else {
                self.items@[0].spec_packed().start
            },
            end: if self.items@.len() == 0 {
                0
            } else {
                self.items@.last().spec_packed().end
            },
            data: PackedData::Two(
                Box::new(spec_pack_list(self.items@)),
                Box::new(spec_pack_list(self.delimiters@)),
            ),
        }
    }

    fn pack(&self) -> Packed {
        let start = if self.items.len() == 0 {
            0
        } else {
            self.items[0].pack().start
        };
        let end = if self.items.len() == 0 {
            0
        } else {
            self.items[self.items.len() - 1].pack().end
        };
        Packed {
            start,
            end,
            data: PackedData::Two(
                Box::new(pack_list(&self.items)),
                Box::new(pack_list(&self.delimiters)),
            ),
        }
    }

    fn unpack(packed: &Packed) -> (r: Option<Self>) {
        match &packed.data {
            PackedData::Two(l1, l2) => {
                let items = match unpack_list::<Item>(l1) {
                    Some(v) => v,
                    None => return None,
                };
                let delimiters = match unpack_list::<Delimiter>(l2) {
                    Some(v) => v,
                    None => return None,
                };
                let start = if items.len() == 0 {
                    0
                } else {
                    items[0].pack().start
                };
                let end = if items.len() == 0 {
                    0
                } else {
                    items[items.len() - 1].pack().end
                };
                if packed.start != start || packed.end != end {
                    proof {
                        assert forall|w: Self| w.spec_packed() != *packed by {
                            if w.spec_packed() == *packed {
                                assert(spec_pack_list(w.items@) == *l1);
                                lemma_pack_list_same::<Item>(items@, w.items@);
                                if items@.len() > 0 {
                                    assert(items@[0].spec_packed() == w.items@[0].spec_packed());
                                    assert(items@[items@.len() - 1].spec_packed()
                                        == w.items@[w.items@.len() - 1].spec_packed());
                                }
                            }
                        }
                    }
                    return None;
                }
                Some(NonEmptyItems { items, delimiters })
            },
            _ => None,
        }
    }

    proof fn lemma_packed_span(self) {
        if self.items@.len() > 0 {
            self.items@[0].lemma_packed_span();
            self.items@.last().lemma_packed_span();
        }
    }

    open spec fn spec_behaves(pre: ParserView, post: ParserView, r: Option<Self>) -> bool {
        &&& (r matches Some(v) ==> {
            &&& v.items@.len() == v.delimiters@.len() + 1
            &&& succeeded_at::<Item>(post.memo, pre.pos, v.items@[0])
            &&& v.items@[0].spec_start() == pre.pos
            &&& v.items@.last().spec_end() == post.pos
            &&& (forall|i: int|
                0 <= i < v.delimiters@.len() ==> succeeded_at::<Delimiter>(
                    post.memo,
                    (#[trigger] v.items@[i]).spec_end(),
                    v.delimiters@[i],
                ) && v.delimiters@[i].spec_start() == v.items@[i].spec_end()
                    && succeeded_at::<Item>(
                    post.memo,
                    v.delimiters@[i].spec_end(),
                    v.items@[i + 1],
                ) && v.items@[i + 1].spec_start() == v.delimiters@[i].spec_end())
            &&& items_run_stops::<Item, Delimiter>(post.memo, post.pos)
        })
        &&& (r is None ==> failed_at::<Item>(post.memo, pre.pos) || (exists|p: int, d: Delimiter|
            succeeded_at::<Delimiter>(post.memo, p, d) && failed_at::<Item>(
                post.memo,
                d.spec_end(),
            )))
    }

    /// One item, then as many delimiter-item pairs as parse: each delimiter
    /// starts where the item before it ends, and each item where the
    /// delimiter before it ends. A delimiter whose following item fails makes
    /// the whole construct fail (nothing is consumed then); a failing
    /// delimiter ends the run without being consumed.
    fn parse(parser: &mut Parser) -> (r: Option<Self>)
        ensures
            r matches Some(v) ==> {
                &&& v.items@.len() == v.delimiters@.len() + 1
                &&& succeeded_at::<Item>(final(parser).spec_memo(), old(parser).spec_pos(), v.items@[0])
                &&& v.items@[0].spec_start() == old(parser).spec_pos()
                &&& v.items@.last().spec_end() == final(parser).spec_pos()
                &&& forall|i: int|
                    0 <= i < v.delimiters@.len() ==> {
                        &&& succeeded_at::<Delimiter>(
                            final(parser).spec_memo(),
                            (#[trigger] v.items@[i]).spec_end(),
                            v.delimiters@[i],
                        )
                        &&& v.delimiters@[i].spec_start() == v.items@[i].spec_end()
                        &&& succeeded_at::<Item>(
                            final(parser).spec_memo(),
                            v.delimiters@[i].spec_end(),
                            v.items@[i + 1],
                        )
                        &&& v.items@[i + 1].spec_start() == v.delimiters@[i].spec_end()
                    }
            },
            r matches Some(v) ==> items_run_stops::<Item, Delimiter>(
                final(parser).spec_memo(),
                final(parser).spec_pos(),
            ),
            r is None ==> failed_at::<Item>(final(parser).spec_memo(), old(parser).spec_pos())
                || (exists|p: int, d: Delimiter|
                succeeded_at::<Delimiter>(final(parser).spec_memo(), p, d) && failed_at::<Item>(
                    final(parser).spec_memo(),
                    d.spec_end(),
                )),
    {
        let first = match parser.parse::<Item>() {
            Some(v) => v,
            None => {
                return None;
            },
        };
        let mut items: Vec<Item> = Vec::new();
        items.push(first);
        let mut delimiters: Vec<Delimiter> = Vec::new();
        loop
            invariant
                parser.wf(),
                parser.spec_text() == old(parser).spec_text(),
                parser.spec_level() == old(parser).spec_level(),
                crate::parse::memo_extends(old(parser).spec_memo(), parser.spec_memo()),
                parser.spec_expected_pos() >= old(parser).spec_expected_pos(),
                old(parser).spec_pos() <= parser.spec_pos() <= parser.spec_text().len(),
                items@.len() == delimiters@.len() + 1,
                succeeded_at::<Item>(parser.spec_memo(), old(parser).spec_pos(), items@[0]),
                items@[0].spec_start() == old(parser).spec_pos(),
                items@.last().spec_end() == parser.spec_pos(),
                forall|i: int|
                    0 <= i < delimiters@.len() ==> {
                        &&& succeeded_at::<Delimiter>(
                            parser.spec_memo(),
                            (#[trigger] items@[i]).spec_end(),
                            delimiters@[i],
                        )
                        &&& delimiters@[i].spec_start() == items@[i].spec_end()
                        &&& succeeded_at::<Item>(
                            parser.spec_memo(),
                            delimiters@[i].spec_end(),
                            items@[i + 1],
                        )
                        &&& items@[i + 1].spec_start() == delimiters@[i].spec_end()
                    },
            ensures
                parser.wf(),
                parser.spec_text() == old(parser).spec_text(),
                parser.spec_level() == old(parser).spec_level(),
                crate::parse::memo_extends(old(parser).spec_memo(), parser.spec_memo()),
                parser.spec_expected_pos() >= old(parser).spec_expected_pos(),
                old(parser).spec_pos() <= parser.spec_pos() <= parser.spec_text().len(),
                items@.len() == delimiters@.len() + 1,
                succeeded_at::<Item>(parser.spec_memo(), old(parser).spec_pos(), items@[0]),
                items@[0].spec_start() == old(parser).spec_pos(),
                items@.last().spec_end() == parser.spec_pos(),
                forall|i: int|
                    0 <= i < delimiters@.len() ==> {
                        &&& succeeded_at::<Delimiter>(
                            parser.spec_memo(),
                            (#[trigger] items@[i]).spec_end(),
                            delimiters@[i],
                        )
                        &&& delimiters@[i].spec_start() == items@[i].spec_end()
                        &&& succeeded_at::<Item>(
                            parser.spec_memo(),
                            delimiters@[i].spec_end(),
                            items@[i + 1],
                        )
                        &&& items@[i + 1].spec_start() == delimiters@[i].spec_end()
                    },
                items_run_stops::<Item, Delimiter>(parser.spec_memo(), parser.spec_pos()),
            decreases parser.spec_text().len() - parser.spec_pos(),
        {
            let ghost memo_before = parser.spec_memo();
            let before = parser.current_position();
            let d = match parser.parse::<Delimiter>() {
                Some(d) => d,
                None => {
                    proof {
                        crate::parse::lemma_memo_extends_trans(
                            old(parser).spec_memo(),
                            memo_before,
                            parser.spec_memo(),
                        );
                        lemma_items_chain_extends::<Item, Delimiter>(
                            memo_before,
                            parser.spec_memo(),
                            items@,
                            delimiters@,
                        );
                        assert(failed_at::<Delimiter>(parser.spec_memo(), parser.spec_pos()));
                        assert(items_run_stops::<Item, Delimiter>(
                            parser.spec_memo(),
                            parser.spec_pos(),
                        ));
                    }
                    break;
                },
            };
            let ghost memo_mid = parser.spec_memo();
            match parser.parse::<Item>() {
                Some(it) => {
                    proof {
                        crate::parse::lemma_memo_extends_trans(
                            old(parser).spec_memo(),
                            memo_before,
                            memo_mid,
                        );
                        crate::parse::lemma_memo_extends_trans(
                            old(parser).spec_memo(),
                            memo_mid,
                            parser.spec_memo(),
                        );
                        crate::parse::lemma_memo_extends_trans(
                            memo_before,
                            memo_mid,
                            parser.spec_memo(),
                        );
                        lemma_items_chain_extends::<Item, Delimiter>(
                            memo_before,
                            parser.spec_memo(),
                            items@,
                            delimiters@,
                        );
                    }
                    let ghost old_items = items@;
                    let ghost old_delims = delimiters@;
                    delimiters.push(d);
                    items.push(it);
                    proof {
                        assert(items@.last() == it);
                        assert(forall|i: int|
                            0 <= i < old_items.len() ==> #[trigger] items@[i] == old_items[i]);
                        assert(forall|i: int|
                            0 <= i < old_delims.len() ==> #[trigger] delimiters@[i]
                                == old_delims[i]);
                        assert(items@[old_delims.len() as int] == old_items.last());
                        assert(succeeded_at::<Delimiter>(
                            parser.spec_memo(),
                            old_items.last().spec_end(),
                            d,
                        ));
                    }
                    if parser.current_position().get() == before.get() {
                        proof {
                            assert(succeeded_at::<Delimiter>(
                                parser.spec_memo(),
                                before.offset as int,
                                d,
                            ));
                            assert(d.spec_end() == before.offset as int);
                            assert(succeeded_at::<Item>(
                                parser.spec_memo(),
                                before.offset as int,
                                it,
                            ));
                            assert(it.spec_end() == before.offset as int);
                            assert(items_run_stops::<Item, Delimiter>(
                                parser.spec_memo(),
                                parser.spec_pos(),
                            ));
                        }
                        break;
                    }
                },
                None => {
                    proof {
                        assert(failed_at::<Item>(parser.spec_memo(), d.spec_end()));
                        assert(succeeded_at::<Delimiter>(memo_mid, before.offset as int, d));
                        assert(succeeded_at::<Delimiter>(
                            parser.spec_memo(),
                            before.offset as int,
                            d,
                        ));
                    }
                    return None;
                },
            }
        }
        Some(NonEmptyItems { items, delimiters })
    }
}

/// A delimiter-item chain recorded in a memo still stands in any extension of
/// that memo.
proof fn lemma_items_chain_extends<Item: Parse, Delimiter: Parse>(
    m1: Map<(u64, int), Option<Packed>>,
    m2: Map<(u64, int), Option<Packed>>,
    items: Seq<Item>,
    delimiters: Seq<Delimiter>,
)
    requires
        crate::parse::memo_extends(m1, m2),
        items.len() == delimiters.len() + 1,
        forall|i: int|
            0 <= i < delimiters.len() ==> {
                &&& succeeded_at::<Delimiter>(m1, (#[trigger] items[i]).spec_end(), delimiters[i])
                &&& succeeded_at::<Item>(m1, delimiters[i].spec_end(), items[i + 1])
            },
    ensures
        forall|i: int|
            0 <= i < delimiters.len() ==> succeeded_at::<Delimiter>(
                m2,
                (#[trigger] items[i]).spec_end(),
                delimiters[i],
            ) && succeeded_at::<Item>(m2, delimiters[i].spec_end(), items[i + 1]),
{
    assert forall|i: int| 0 <= i < delimiters.len() implies (succeeded_at::<Delimiter>(
        m2,
        (#[trigger] items[i]).spec_end(),
        delimiters[i],
    ) && succeeded_at::<Item>(m2, delimiters[i].spec_end(), items[i + 1])) by {
        assert(succeeded_at::<Delimiter>(m1, items[i].spec_end(), delimiters[i]));
        assert(succeeded_at::<Item>(m1, delimiters[i].spec_end(), items[i + 1]));
    }
    assert(forall|i: int|
        0 <= i < delimiters.len() ==> succeeded_at::<Delimiter>(
            m2,
            (#[trigger] items[i]).spec_end(),
            delimiters[i],
        ) && succeeded_at::<Item>(m2, delimiters[i].spec_end(), items[i + 1]));
}

/// Variable length items split by delimiters; possibly none at all.
#[derive(Debug)]
pub struct Items<Item, Delimiter>(pub Maybe<NonEmptyItems<Item, Delimiter>>);

/// How many leading items belong to a consistent run: all of them when there
/// is one more item than there are delimiters, else the longest consistent
/// prefix.
pub open spec fn items_keep(n_items: int, n_delimiters: int) -> int {
    if n_items == 0 {
        0
    } else if n_items <= n_delimiters + 1 {
        n_items
    } else {
        n_delimiters + 1
    }
}

impl<Item, Delimiter> Items<Item, Delimiter> {
    /// The items, in order; empty when nothing parsed. A run always holds one
    /// more item than it holds delimiters, so the accessors observe the
    /// longest consistent prefix.
    pub open spec fn spec_items(&self) -> Seq<Item> {
        match self.0.spec_get() {
            Some(t) => t.items@.take(items_keep(t.items@.len() as int, t.delimiters@.len() as int)),
            None => Seq::empty(),
        }
    }

    /// The delimiters, in order; empty when nothing parsed.
    pub open spec fn spec_delimiters(&self) -> Seq<Delimiter> {
        match self.0.spec_get() {
            Some(t) => {
                let k = items_keep(t.items@.len() as int, t.delimiters@.len() as int);
                if k == 0 {
                    Seq::empty()
                } else {
                    t.delimiters@.take(k - 1)
                }
            },
            None => Seq::empty(),
        }
    }

    /// Returns items.
    pub fn items(&self) -> (r: &[Item])
        ensures
            r@ == self.spec_items(),
    {
        match self.0.get() {
            Some(t) => {
                let n_items = t.items.len();
                let n_delimiters = t.delimiters.len();
                let k = if n_items == 0 {
                    0
                } else if n_items - 1 <= n_delimiters {
                    n_items
                } else {
                    n_delimiters + 1
                };
                vstd::slice::slice_subrange(t.items.as_slice(), 0, k)
            },
            None => &[],
        }
    }

    /// Returns delimiters.
    pub fn delimiters(&self) -> (r: &[Delimiter])
        ensures
            r@ == self.spec_delimiters(),
    {
        match self.0.get() {
            Some(t) => {
                let n_items = t.items.len();
                let n_delimiters = t.delimiters.len();
                let k = if n_items == 0 {
                    0
                } else if n_items - 1 <= n_delimiters {
                    n_items
                } else {
                    n_delimiters + 1
                };
                if k == 0 {
                    &[]
                } else {
                    vstd::slice::slice_subrange(t.delimiters.as_slice(), 0, k - 1)
                }
            },
            None => &[],
        }
    }
}

impl<Item: Span, Delimiter: Span> Span for Items<Item, Delimiter> {
    open spec fn spec_start(&self) -> int {
        self.0.spec_start()
    }

    open spec fn spec_end(&self) -> int {
        self.0.spec_end()
    }

    fn start_position(&self) -> Position {
        self.0.start_position()
    }

    fn end_position(&self) -> Position {
        self.0.end_position()
    }
}

impl<Item: Parse, Delimiter: Parse> Parse for Items<Item, Delimiter> {
    open spec fn spec_id() -> u64 {
        spec_mix_id(spec_mix_id(16, Item::spec_id() as int) as int, Delimiter::spec_id() as int)
    }

    fn id() -> u64 {
        mix_id(mix_id(16, Item::id()), Delimiter::id())
    }

    open spec fn spec_name() -> Option<Seq<char>> {
        None
    }

    fn name() -> Option<String> {
        None
    }

    open spec fn spec_packed(self) -> Packed {
        self.0.spec_packed()
    }

    fn pack(&self) -> Packed {
        self.0.pack()
    }

    fn unpack(packed: &Packed) -> (r: Option<Self>) {
        match <Maybe<NonEmptyItems<Item, Delimiter>> as Parse>::unpack(packed) {
            Some(m) => Some(Items(m)),
            None => None,
        }
    }

    proof fn lemma_packed_span(self) {
        self.0.lemma_packed_span();
    }

    open spec fn spec_behaves(pre: ParserView, post: ParserView, r: Option<Self>) -> bool {
        &&& (r matches Some(v) ==> succeeded_at::<Maybe<NonEmptyItems<Item, Delimiter>>>(
            post.memo,
            pre.pos,
            v.0,
        ))
        &&& (r is None ==> failed_at::<Maybe<NonEmptyItems<Item, Delimiter>>>(
            post.memo,
            pre.pos,
        ))
        &&& (r matches Some(v) ==> (v.spec_items().len() == v.spec_delimiters().len() + 1 || (
        v.spec_items().len() == 0 && v.spec_delimiters().len() == 0)))
        &&& ({
            let ct = Maybe::<NonEmptyItems<Item, Delimiter>>::spec_id();
            !pre.memo.contains_key((ct, pre.pos)) ==> exists|
                finc: ParserView,
                rc: Option<Maybe<NonEmptyItems<Item, Delimiter>>>,
            |
                {
                    &&& #[trigger] Maybe::<NonEmptyItems<Item, Delimiter>>::spec_behaves(
                        miss_entry_state(
                            pre,
                            ct,
                            Maybe::<NonEmptyItems<Item, Delimiter>>::spec_name(),
                        ),
                        finc,
                        rc,
                    )
                    &&& finc.text == pre.text
                    &&& (rc matches Some(m) ==> (r matches Some(v) && v.0 == m) && post.pos
                        == finc.pos)
                    &&& (rc is None ==> r is None)
                }
        })
    }

    /// Zero or more items split by delimiters: the optional form of
    /// [`NonEmptyItems`].
    fn parse(parser: &mut Parser) -> (r: Option<Self>)
        ensures
            r matches Some(v) ==> succeeded_at::<Maybe<NonEmptyItems<Item, Delimiter>>>(
                final(parser).spec_memo(),
                old(parser).spec_pos(),
                v.0,
            ),
            r is None ==> failed_at::<Maybe<NonEmptyItems<Item, Delimiter>>>(
                final(parser).spec_memo(),
                old(parser).spec_pos(),
            ),
            r matches Some(v) ==> (v.spec_items().len() == v.spec_delimiters().len() + 1 || (
            v.spec_items().len() == 0 && v.spec_delimiters().len() == 0)),
    {
        let ghost pre = old(parser).snapshot();
        let inner = parser.parse::<Maybe<NonEmptyItems<Item, Delimiter>>>();
        proof {
            let ghost ct = Maybe::<NonEmptyItems<Item, Delimiter>>::spec_id();
            if !pre.memo.contains_key((ct, pre.pos)) {
                let chosen = choose|fin: ParserView|
                    #[trigger] Maybe::<NonEmptyItems<Item, Delimiter>>::spec_behaves(
                        miss_entry_state(
                            pre,
                            ct,
                            Maybe::<NonEmptyItems<Item, Delimiter>>::spec_name(),
                        ),
                        fin,
                        inner,
                    ) && fin.text == pre.text && (inner matches Some(m) ==> parser.spec_pos()
                        == fin.pos);
                assert(Maybe::<NonEmptyItems<Item, Delimiter>>::spec_behaves(
                    miss_entry_state(
                        pre,
                        ct,
                        Maybe::<NonEmptyItems<Item, Delimiter>>::spec_name(),
                    ),
                    chosen,
                    inner,
                ));
            }
        }
        match inner {
            Some(m) => Some(Items(m)),
            None => None,
        }
    }
}


/// The characters of a literal: the leading character codes before the first
/// zero, which terminates the literal.
pub open spec fn lit_of(cs: Seq<u32>) -> Seq<u32>
    decreases cs.len(),
{
    if cs.len() == 0 || cs[0] == 0 {
        Seq::empty()
    } else {
        seq![cs[0]] + lit_of(cs.drop_first())
    }
}

/// Where a match of the given literal characters, started at `pos`, ends:
/// `None` when some character of the literal does not match the text.
pub open spec fn lit_match_end(tb: Seq<u8>, pos: int, lit: Seq<u32>) -> Option<int>
    decreases lit.len(),
{
    if lit.len() == 0 {
        Some(pos)
    } else if pos < tb.len() && char_at(tb, pos) as u32 == lit[0] {
        lit_match_end(tb, pos + char_width_at(tb, pos), lit.drop_first())
    } else {
        None
    }
}

/// The literal as characters, for its diagnostic name; a code that is no
/// character shows as `?`.
pub open spec fn lit_name_spec(lit: Seq<u32>) -> Seq<char> {
    lit.map_values(
        |c: u32|
            if vstd::utf8::is_scalar(c) {
                c as char
            } else {
                '?'
            },
    )
}

/// A specified string: up to ten character codes, the tail filled with zero.
#[derive(Debug, Clone, Copy)]
pub struct Str<
    const C0: u32,
    const C1: u32,
    const C2: u32,
    const C3: u32,
    const C4: u32,
    const C5: u32,
    const C6: u32,
    const C7: u32,
    const C8: u32,
    const C9: u32,
> {
    /// Where the span starts.
    pub start_position: Position,
    /// Where the span ends.
    pub end_position: Position,
}

impl<
    const C0: u32,
    const C1: u32,
    const C2: u32,
    const C3: u32,
    const C4: u32,
    const C5: u32,
    const C6: u32,
    const C7: u32,
    const C8: u32,
    const C9: u32,
> Span for Str<C0, C1, C2, C3, C4, C5, C6, C7, C8, C9> {
    open spec fn spec_start(&self) -> int {
        self.start_position.offset as int
    }

    open spec fn spec_end(&self) -> int {
        self.end_position.offset as int
    }

    fn start_position(&self) -> Position {
        self.start_position
    }

    fn end_position(&self) -> Position {
        self.end_position
    }
}

impl<
    const C0: u32,
    const C1: u32,
    const C2: u32,
    const C3: u32,
    const C4: u32,
    const C5: u32,
    const C6: u32,
    const C7: u32,
    const C8: u32,
    const C9: u32,
> Parse for Str<C0, C1, C2, C3, C4, C5, C6, C7, C8, C9> {
    open spec fn spec_id() -> u64 {
        spec_mix_id(
            spec_mix_id(
                spec_mix_id(
                    spec_mix_id(
                        spec_mix_id(
                            spec_mix_id(
                                spec_mix_id(
                                    spec_mix_id(
                                        spec_mix_id(
                                            spec_mix_id(6, C0 as int) as int,
                                            C1 as int,
                                        ) as int,
                                        C2 as int,
                                    ) as int,
                                    C3 as int,
                                ) as int,
                                C4 as int,
                            ) as int,
                            C5 as int,
                        ) as int,
                        C6 as int,
                    ) as int,
                    C7 as int,
                ) as int,
                C8 as int,
            ) as int,
            C9 as int,
        )
    }

    fn id() -> u64 {
        let mut acc = mix_id(6, C0 as u64);
        acc = mix_id(acc, C1 as u64);
        acc = mix_id(acc, C2 as u64);
        acc = mix_id(acc, C3 as u64);
        acc = mix_id(acc, C4 as u64);
        acc = mix_id(acc, C5 as u64);
        acc = mix_id(acc, C6 as u64);
        acc = mix_id(acc, C7 as u64);
        acc = mix_id(acc, C8 as u64);
        acc = mix_id(acc, C9 as u64);
        acc
    }

    open spec fn spec_name() -> Option<Seq<char>> {
        Some(lit_name_spec(lit_of(seq![C0, C1, C2, C3, C4, C5, C6, C7, C8, C9])))
    }

    fn name() -> (r: Option<String>) {
        let cs: [u32; 10] = [C0, C1, C2, C3, C4, C5, C6, C7, C8, C9];
        proof {
            assert(cs@ =~= seq![C0, C1, C2, C3, C4, C5, C6, C7, C8, C9]);
        }
        Some(build_lit_name(cs.as_slice()))
    }

    open spec fn spec_packed(self) -> Packed {
        Packed {
            start: self.start_position.offset,
            end: self.end_position.offset,
            data: PackedData::Byte(1),
        }
    }

    fn pack(&self) -> Packed {
        Packed {
            start: self.start_position.get(),
            end: self.end_position.get(),
            data: PackedData::Byte(1),
        }
    }

    fn unpack(packed: &Packed) -> (r: Option<Self>) {
        match &packed.data {
            PackedData::Byte(b) => {
                if *b == 1 {
                    Some(
                        Str {
                            start_position: Position::new(packed.start),
                            end_position: Position::new(packed.end),
                        },
                    )
                } else {
                    None
                }
            },
            _ => None,
        }
    }

    proof fn lemma_packed_span(self) {
    }

    open spec fn spec_behaves(pre: ParserView, post: ParserView, r: Option<Self>) -> bool {
        &&& (match r {
            Some(v) => lit_match_end(
                pre.text,
                pre.pos,
                lit_of(seq![C0, C1, C2, C3, C4, C5, C6, C7, C8, C9]),
            ) == Some(v.spec_end()),
            None => lit_match_end(
                pre.text,
                pre.pos,
                lit_of(seq![C0, C1, C2, C3, C4, C5, C6, C7, C8, C9]),
            ) is None,
        })
        &&& post.memo == pre.memo
        &&& post.expected_pos == pre.expected_pos
        &&& post.expected_level == pre.expected_level
        &&& post.expected_items == pre.expected_items
    }

    /// Succeeds exactly when the literal's characters stand at the cursor in
    /// order; consumes exactly them.
    fn parse(parser: &mut Parser) -> (r: Option<Self>)
        ensures
            ({
                let lit = lit_of(seq![C0, C1, C2, C3, C4, C5, C6, C7, C8, C9]);
                match r {
                    Some(v) => lit_match_end(
                        old(parser).spec_text(),
                        old(parser).spec_pos(),
                        lit,
                    ) == Some(v.spec_end()),
                    None => lit_match_end(
                        old(parser).spec_text(),
                        old(parser).spec_pos(),
                        lit,
                    ) is None,
                }
            }),
            final(parser).spec_memo() == old(parser).spec_memo(),
            final(parser).spec_expected_pos() == old(parser).spec_expected_pos(),
            final(parser).spec_expected_level() == old(parser).spec_expected_level(),
            final(parser).spec_expected_items() == old(parser).spec_expected_items(),
    {
        let start_position = parser.current_position();
        let cs: [u32; 10] = [C0, C1, C2, C3, C4, C5, C6, C7, C8, C9];
        let ghost whole = seq![C0, C1, C2, C3, C4, C5, C6, C7, C8, C9];
        let ghost tb = parser.spec_text();
        let mut i: usize = 0;
        proof {
            assert(whole.skip(0) =~= whole);
        }
        while i < 10 && cs[i] != 0
            invariant
                i <= 10,
                cs@ == whole,
                whole == seq![C0, C1, C2, C3, C4, C5, C6, C7, C8, C9],
                parser.wf(),
                parser.spec_text() == old(parser).spec_text(),
                tb == old(parser).spec_text(),
                parser.spec_level() == old(parser).spec_level(),
                parser.spec_memo() == old(parser).spec_memo(),
                parser.spec_expected_pos() == old(parser).spec_expected_pos(),
                parser.spec_expected_level() == old(parser).spec_expected_level(),
                parser.spec_expected_items() == old(parser).spec_expected_items(),
                old(parser).spec_pos() <= parser.spec_pos(),
                lit_match_end(tb, old(parser).spec_pos(), lit_of(whole)) == lit_match_end(
                    tb,
                    parser.spec_pos(),
                    lit_of(whole.skip(i as int)),
                ),
            decreases 10 - i,
        {
            let c = cs[i];
            proof {
                let rest = whole.skip(i as int);
                assert(rest[0] == c && c != 0);
                assert(rest.drop_first() =~= whole.skip(i as int + 1));
                assert(lit_of(rest) == seq![c] + lit_of(rest.drop_first()));
                assert(lit_of(rest)[0] == c);
                assert(lit_of(rest).drop_first() =~= lit_of(whole.skip(i as int + 1)));
            }
            let ghost pb = parser.spec_pos();
            match parser.read_char() {
                Some(rc) => {
                    if rc as u32 != c {
                        proof {
                            assert(char_at(tb, pb) as u32 == rc as u32);
                            assert(lit_match_end(tb, pb, lit_of(whole.skip(i as int))) is None);
                        }
                        return None;
                    }
                },
                None => {
                    proof {
                        assert(pb >= tb.len());
                        assert(lit_match_end(tb, pb, lit_of(whole.skip(i as int))) is None);
                    }
                    return None;
                },
            }
            i = i + 1;
        }
        proof {
            if i < 10 {
                assert(lit_of(whole.skip(i as int)) =~= Seq::<u32>::empty());
            } else {
                assert(whole.skip(10) =~= Seq::<u32>::empty());
                assert(lit_of(whole.skip(i as int)) =~= Seq::<u32>::empty());
            }
        }
        Some(Str { start_position, end_position: parser.current_position() })
    }
}


/// Builds the diagnostic name of a literal: its character codes up to the
/// first zero, unknown codes shown as `?`.
fn build_lit_name(cs: &[u32]) -> (r: String)
    ensures
        r@ == lit_name_spec(lit_of(cs@)),
{
    let n = cs.len();
    let mut s = String::new();
    let mut i: usize = 0;
    proof {
        assert(cs@.skip(0) =~= cs@);
        assert(s@ + lit_name_spec(lit_of(cs@)) =~= lit_name_spec(lit_of(cs@)));
    }
    while i < n && cs[i] != 0
        invariant
            i <= n,
            n == cs@.len(),
            lit_name_spec(lit_of(cs@)) == s@ + lit_name_spec(lit_of(cs@.skip(i as int))),
        decreases n - i,
    {
        let c = cs[i];
        let ghost prev = s@;
        match char::from_u32(c) {
            Some(ch) => {
                crate::text::push_char(&mut s, ch);
                proof {
                    vstd::utf8::char_u32_cast(ch, c);
                }
            },
            None => {
                crate::text::push_char(&mut s, '?');
            },
        }
        proof {
            let rest = cs@.skip(i as int);
            assert(rest[0] == c && c != 0);
            assert(rest.drop_first() =~= cs@.skip(i as int + 1));
            assert(lit_of(rest) == seq![c] + lit_of(rest.drop_first()));
            assert(lit_name_spec(lit_of(rest)) =~= seq![
                if vstd::utf8::is_scalar(c) {
                    c as char
                } else {
                    '?'
                },
            ] + lit_name_spec(lit_of(cs@.skip(i as int + 1))));
            assert(s@ =~= prev + seq![
                if vstd::utf8::is_scalar(c) {
                    c as char
                } else {
                    '?'
                },
            ]);
        }
        i = i + 1;
    }
    proof {
        if i < n {
            assert(lit_of(cs@.skip(i as int)) =~= Seq::<u32>::empty());
        } else {
            assert(cs@.skip(n as int) =~= Seq::<u32>::empty());
        }
        assert(lit_name_spec(lit_of(cs@.skip(i as int))) =~= Seq::<char>::empty());
        assert(s@ =~= lit_name_spec(lit_of(cs@)));
    }
    s
}

/// A named component: parses exactly as `T` does, but carries a user-facing
/// name, given as character codes, that diagnostics may surface.
#[derive(Debug, Clone, Copy)]
pub struct Named<
    T,
    const N0: u32,
    const N1: u32,
    const N2: u32,
    const N3: u32,
    const N4: u32,
    const N5: u32,
    const N6: u32,
    const N7: u32,
    const N8: u32,
    const N9: u32,
    const N10: u32,
    const N11: u32,
    const N12: u32,
    const N13: u32,
    const N14: u32,
    const N15: u32,
>(pub T);

impl<
    T: Span,
    const N0: u32,
    const N1: u32,
    const N2: u32,
    const N3: u32,
    const N4: u32,
    const N5: u32,
    const N6: u32,
    const N7: u32,
    const N8: u32,
    const N9: u32,
    const N10: u32,
    const N11: u32,
    const N12: u32,
    const N13: u32,
    const N14: u32,
    const N15: u32,
> Span for Named<T, N0, N1, N2, N3, N4, N5, N6, N7, N8, N9, N10, N11, N12, N13, N14, N15> {
    open spec fn spec_start(&self) -> int {
        self.0.spec_start()
    }

    open spec fn spec_end(&self) -> int {
        self.0.spec_end()
    }

    fn start_position(&self) -> Position {
        self.0.start_position()
    }

    fn end_position(&self) -> Position {
        self.0.end_position()
    }
}

impl<
    T: Parse,
    const N0: u32,
    const N1: u32,
    const N2: u32,
    const N3: u32,
    const N4: u32,
    const N5: u32,
    const N6: u32,
    const N7: u32,
    const N8: u32,
    const N9: u32,
    const N10: u32,
    const N11: u32,
    const N12: u32,
    const N13: u32,
    const N14: u32,
    const N15: u32,
> Parse for Named<T, N0, N1, N2, N3, N4, N5, N6, N7, N8, N9, N10, N11, N12, N13, N14, N15> {
    open spec fn spec_id() -> u64 {
        spec_mix_id(
            spec_mix_id(
                spec_mix_id(
                    spec_mix_id(
                        spec_mix_id(
                            spec_mix_id(
                                spec_mix_id(
                                    spec_mix_id(
                                        spec_mix_id(
                                            spec_mix_id(
                                                spec_mix_id(
                                                    spec_mix_id(
                                                        spec_mix_id(
                                                            spec_mix_id(
                                                                spec_mix_id(
                                                                    spec_mix_id(
                                                                        spec_mix_id(
                                                                            20,
                                                                            T::spec_id() as int,
                                                                        ) as int,
                                                                        N0 as int,
                                                                    ) as int,
                                                                    N1 as int,
                                                                ) as int,
                                                                N2 as int,
                                                            ) as int,
                                                            N3 as int,
                                                        ) as int,
                                                        N4 as int,
                                                    ) as int,
                                                    N5 as int,
                                                ) as int,
                                                N6 as int,
                                            ) as int,
                                            N7 as int,
                                        ) as int,
                                        N8 as int,
                                    ) as int,
                                    N9 as int,
                                ) as int,
                                N10 as int,
                            ) as int,
                            N11 as int,
                        ) as int,
                        N12 as int,
                    ) as int,
                    N13 as int,
                ) as int,
                N14 as int,
            ) as int,
            N15 as int,
        )
    }

    fn id() -> u64 {
        let mut acc = mix_id(20, T::id());
        acc = mix_id(acc, N0 as u64);
        acc = mix_id(acc, N1 as u64);
        acc = mix_id(acc, N2 as u64);
        acc = mix_id(acc, N3 as u64);
        acc = mix_id(acc, N4 as u64);
        acc = mix_id(acc, N5 as u64);
        acc = mix_id(acc, N6 as u64);
        acc = mix_id(acc, N7 as u64);
        acc = mix_id(acc, N8 as u64);
        acc = mix_id(acc, N9 as u64);
        acc = mix_id(acc, N10 as u64);
        acc = mix_id(acc, N11 as u64);
        acc = mix_id(acc, N12 as u64);
        acc = mix_id(acc, N13 as u64);
        acc = mix_id(acc, N14 as u64);
        acc = mix_id(acc, N15 as u64);
        acc
    }

    open spec fn spec_name() -> Option<Seq<char>> {
        Some(
            lit_name_spec(
                lit_of(
                    seq![
                        N0, N1, N2, N3, N4, N5, N6, N7, N8, N9, N10, N11, N12, N13, N14, N15,
                    ],
                ),
            ),
        )
    }

    fn name() -> (r: Option<String>) {
        let cs: [u32; 16] = [
            N0, N1, N2, N3, N4, N5, N6, N7, N8, N9, N10, N11, N12, N13, N14, N15,
        ];
        proof {
            assert(cs@ =~= seq![
                N0, N1, N2, N3, N4, N5, N6, N7, N8, N9, N10, N11, N12, N13, N14, N15,
            ]);
        }
        Some(build_lit_name(cs.as_slice()))
    }

    open spec fn spec_packed(self) -> Packed {
        self.0.spec_packed()
    }

    fn pack(&self) -> Packed {
        self.0.pack()
    }

    fn unpack(packed: &Packed) -> (r: Option<Self>) {
        match T::unpack(packed) {
            Some(t) => Some(Named(t)),
            None => None,
        }
    }

    proof fn lemma_packed_span(self) {
        self.0.lemma_packed_span();
    }

    open spec fn spec_behaves(pre: ParserView, post: ParserView, r: Option<Self>) -> bool {
        &&& (r matches Some(v) ==> succeeded_at::<T>(post.memo, pre.pos, v.0))
        &&& (r is None ==> failed_at::<T>(post.memo, pre.pos))
        &&& (!pre.memo.contains_key((T::spec_id(), pre.pos)) ==> exists|
            finc: ParserView,
            rc: Option<T>,
        |
            {
                &&& #[trigger] T::spec_behaves(
                    miss_entry_state(pre, T::spec_id(), T::spec_name()),
                    finc,
                    rc,
                )
                &&& finc.text == pre.text
                &&& (rc matches Some(t) ==> r == Some(
                    Named::<T, N0, N1, N2, N3, N4, N5, N6, N7, N8, N9, N10, N11, N12, N13, N14, N15>(
                        t,
                    ),
                ) && post.pos == finc.pos)
                &&& (rc is None ==> r is None)
            })
    }

    /// Parses exactly as `T` does; only the name differs.
    fn parse(parser: &mut Parser) -> (r: Option<Self>)
        ensures
            r matches Some(v) ==> succeeded_at::<T>(
                final(parser).spec_memo(),
                old(parser).spec_pos(),
                v.0,
            ),
            r is None ==> failed_at::<T>(final(parser).spec_memo(), old(parser).spec_pos()),
    {
        let ghost pre = old(parser).snapshot();
        let inner = parser.parse::<T>();
        proof {
            if !pre.memo.contains_key((T::spec_id(), pre.pos)) {
                let chosen = choose|fin: ParserView|
                    #[trigger] T::spec_behaves(
                        miss_entry_state(pre, T::spec_id(), T::spec_name()),
                        fin,
                        inner,
                    ) && fin.text == pre.text && (inner matches Some(t) ==> parser.spec_pos()
                        == fin.pos);
                assert(T::spec_behaves(
                    miss_entry_state(pre, T::spec_id(), T::spec_name()),
                    chosen,
                    inner,
                ));
            }
        }
        match inner {
            Some(t) => Some(Named(t)),
            None => None,
        }
    }
}


impl<T0: Parse, T1: Parse, T2: Parse, T3: Parse> Parse for (T0, T1, T2, T3) {
    open spec fn spec_id() -> u64 {
        spec_mix_id(spec_mix_id(spec_mix_id(spec_mix_id(19, T0::spec_id() as int) as int, T1::spec_id() as int) as int, T2::spec_id() as int) as int, T3::spec_id() as int)
    }

    fn id() -> u64 {
        mix_id(mix_id(mix_id(mix_id(19, T0::id()), T1::id()), T2::id()), T3::id())
    }

    open spec fn spec_name() -> Option<Seq<char>> {
        None
    }

    fn name() -> Option<String> {
        None
    }

    open spec fn spec_packed(self) -> Packed {
        Packed { start: self.0.spec_packed().start, end: self.3.spec_packed().end, data: PackedData::Two(Box::new(self.0.spec_packed()), Box::new(Packed { start: self.1.spec_packed().start, end: self.3.spec_packed().end, data: PackedData::Two(Box::new(self.1.spec_packed()), Box::new(Packed { start: self.2.spec_packed().start, end: self.3.spec_packed().end, data: PackedData::Two(Box::new(self.2.spec_packed()), Box::new(self.3.spec_packed())) })) })) }
    }

    fn pack(&self) -> Packed {
        let p0 = self.0.pack();
        let p1 = self.1.pack();
        let p2 = self.2.pack();
        let p3 = self.3.pack();
        let e = p3.end;
        let m2 = Packed { start: p2.start, end: e, data: PackedData::Two(Box::new(p2), Box::new(p3)) };
        let m1 = Packed { start: p1.start, end: e, data: PackedData::Two(Box::new(p1), Box::new(m2)) };
        let m0 = Packed { start: p0.start, end: e, data: PackedData::Two(Box::new(p0), Box::new(m1)) };
        m0
    }

    fn unpack(packed: &Packed) -> (r: Option<Self>) {
        match &packed.data {
            PackedData::Two(p0, r1) => {
                match &r1.data {
                    PackedData::Two(p1, r2) => {
                        match &r2.data {
                            PackedData::Two(p2, r3) => {
                                if packed.start != p0.start || packed.end != r3.end || r1.start != p1.start || r1.end != r3.end || r2.start != p2.start || r2.end != r3.end {
                                    return None;
                                }
                                let v0 = match T0::unpack(p0) { Some(v) => v, None => return None };
                                let v1 = match T1::unpack(p1) { Some(v) => v, None => return None };
                                let v2 = match T2::unpack(p2) { Some(v) => v, None => return None };
                                let v3 = match T3::unpack(r3) { Some(v) => v, None => return None };
                                Some((v0, v1, v2, v3))
                            },
                            _ => None,
                        }
                    },
                    _ => None,
                }
            },
            _ => None,
        }
    }

    proof fn lemma_packed_span(self) {
        self.0.lemma_packed_span();
        self.1.lemma_packed_span();
        self.2.lemma_packed_span();
        self.3.lemma_packed_span();
    }

    open spec fn spec_behaves(pre: ParserView, post: ParserView, r: Option<Self>) -> bool {
        &&& (r matches Some(v) ==> {
            &&& succeeded_at::<T0>(post.memo, pre.pos, v.0)
            &&& succeeded_at::<T1>(post.memo, v.0.spec_end(), v.1)
            &&& succeeded_at::<T2>(post.memo, v.1.spec_end(), v.2)
            &&& succeeded_at::<T3>(post.memo, v.2.spec_end(), v.3)
            &&& v.0.spec_start() == pre.pos
            &&& v.1.spec_start() == v.0.spec_end()
            &&& v.2.spec_start() == v.1.spec_end()
            &&& v.3.spec_start() == v.2.spec_end()
        })
    }

    /// A sequence of 4 parts, each starting where the one before ended.
    fn parse(parser: &mut Parser) -> (r: Option<Self>)
        ensures
            r matches Some(v) ==> {
                &&& succeeded_at::<T0>(final(parser).spec_memo(), old(parser).spec_pos(), v.0)
                &&& succeeded_at::<T1>(final(parser).spec_memo(), v.0.spec_end(), v.1)
                &&& succeeded_at::<T2>(final(parser).spec_memo(), v.1.spec_end(), v.2)
                &&& succeeded_at::<T3>(final(parser).spec_memo(), v.2.spec_end(), v.3)
                &&& v.0.spec_start() == old(parser).spec_pos()
                &&& v.1.spec_start() == v.0.spec_end()
                &&& v.2.spec_start() == v.1.spec_end()
                &&& v.3.spec_start() == v.2.spec_end()
            },
    {
        let v0 = match parser.parse::<T0>() {
            Some(v) => v,
            None => {
                return None;
            },
        };
        let v1 = match parser.parse::<T1>() {
            Some(v) => v,
            None => {
                return None;
            },
        };
        let v2 = match parser.parse::<T2>() {
            Some(v) => v,
            None => {
                return None;
            },
        };
        let v3 = match parser.parse::<T3>() {
            Some(v) => v,
            None => {
                return None;
            },
        };
        Some((v0, v1, v2, v3))
    }
}

impl<T0: Parse, T1: Parse, T2: Parse, T3: Parse, T4: Parse> Parse for (T0, T1, T2, T3, T4) {
    open spec fn spec_id() -> u64 {
        spec_mix_id(spec_mix_id(spec_mix_id(spec_mix_id(spec_mix_id(21, T0::spec_id() as int) as int, T1::spec_id() as int) as int, T2::spec_id() as int) as int, T3::spec_id() as int) as int, T4::spec_id() as int)
    }

    fn id() -> u64 {
        mix_id(mix_id(mix_id(mix_id(mix_id(21, T0::id()), T1::id()), T2::id()), T3::id()), T4::id())
    }

    open spec fn spec_name() -> Option<Seq<char>> {
        None
    }

    fn name() -> Option<String> {
        None
    }

    open spec fn spec_packed(self) -> Packed {
        Packed { start: self.0.spec_packed().start, end: self.4.spec_packed().end, data: PackedData::Two(Box::new(self.0.spec_packed()), Box::new(Packed { start: self.1.spec_packed().start, end: self.4.spec_packed().end, data: PackedData::Two(Box::new(self.1.spec_packed()), Box::new(Packed { start: self.2.spec_packed().start, end: self.4.spec_packed().end, data: PackedData::Two(Box::new(self.2.spec_packed()), Box::new(Packed { start: self.3.spec_packed().start, end: self.4.spec_packed().end, data: PackedData::Two(Box::new(self.3.spec_packed()), Box::new(self.4.spec_packed())) })) })) })) }
    }

    fn pack(&self) -> Packed {
        let p0 = self.0.pack();
        let p1 = self.1.pack();
        let p2 = self.2.pack();
        let p3 = self.3.pack();
        let p4 = self.4.pack();
        let e = p4.end;
        let m3 = Packed { start: p3.start, end: e, data: PackedData::Two(Box::new(p3), Box::new(p4)) };
        let m2 = Packed { start: p2.start, end: e, data: PackedData::Two(Box::new(p2), Box::new(m3)) };
        let m1 = Packed { start: p1.start, end: e, data: PackedData::Two(Box::new(p1), Box::new(m2)) };
        let m0 = Packed { start: p0.start, end: e, data: PackedData::Two(Box::new(p0), Box::new(m1)) };
        m0
    }

    fn unpack(packed: &Packed) -> (r: Option<Self>) {
        match &packed.data {
            PackedData::Two(p0, r1) => {
                match &r1.data {
                    PackedData::Two(p1, r2) => {
                        match &r2.data {
                            PackedData::Two(p2, r3) => {
                                match &r3.data {
                                    PackedData::Two(p3, r4) => {
                                        if packed.start != p0.start || packed.end != r4.end || r1.start != p1.start || r1.end != r4.end || r2.start != p2.start || r2.end != r4.end || r3.start != p3.start || r3.end != r4.end {
                                            return None;
                                        }
                                        let v0 = match T0::unpack(p0) { Some(v) => v, None => return None };
                                        let v1 = match T1::unpack(p1) { Some(v) => v, None => return None };
                                        let v2 = match T2::unpack(p2) { Some(v) => v, None => return None };
                                        let v3 = match T3::unpack(p3) { Some(v) => v, None => return None };
                                        let v4 = match T4::unpack(r4) { Some(v) => v, None => return None };
                                        Some((v0, v1, v2, v3, v4))
                                    },
                                    _ => None,
                                }
                            },
                            _ => None,
                        }
                    },
                    _ => None,
                }
            },
            _ => None,
        }
    }

    proof fn lemma_packed_span(self) {
        self.0.lemma_packed_span();
        self.1.lemma_packed_span();
        self.2.lemma_packed_span();
        self.3.lemma_packed_span();
        self.4.lemma_packed_span();
    }

    open spec fn spec_behaves(pre: ParserView, post: ParserView, r: Option<Self>) -> bool {
        &&& (r matches Some(v) ==> {
            &&& succeeded_at::<T0>(post.memo, pre.pos, v.0)
            &&& succeeded_at::<T1>(post.memo, v.0.spec_end(), v.1)
            &&& succeeded_at::<T2>(post.memo, v.1.spec_end(), v.2)
            &&& succeeded_at::<T3>(post.memo, v.2.spec_end(), v.3)
            &&& succeeded_at::<T4>(post.memo, v.3.spec_end(), v.4)
            &&& v.0.spec_start() == pre.pos
            &&& v.1.spec_start() == v.0.spec_end()
            &&& v.2.spec_start() == v.1.spec_end()
            &&& v.3.spec_start() == v.2.spec_end()
            &&& v.4.spec_start() == v.3.spec_end()
        })
    }

    /// A sequence of 5 parts, each starting where the one before ended.
    fn parse(parser: &mut Parser) -> (r: Option<Self>)
        ensures
            r matches Some(v) ==> {
                &&& succeeded_at::<T0>(final(parser).spec_memo(), old(parser).spec_pos(), v.0)
                &&& succeeded_at::<T1>(final(parser).spec_memo(), v.0.spec_end(), v.1)
                &&& succeeded_at::<T2>(final(parser).spec_memo(), v.1.spec_end(), v.2)
                &&& succeeded_at::<T3>(final(parser).spec_memo(), v.2.spec_end(), v.3)
                &&& succeeded_at::<T4>(final(parser).spec_memo(), v.3.spec_end(), v.4)
                &&& v.0.spec_start() == old(parser).spec_pos()
                &&& v.1.spec_start() == v.0.spec_end()
                &&& v.2.spec_start() == v.1.spec_end()
                &&& v.3.spec_start() == v.2.spec_end()
                &&& v.4.spec_start() == v.3.spec_end()
            },
    {
        let v0 = match parser.parse::<T0>() {
            Some(v) => v,
            None => {
                return None;
            },
        };
        let v1 = match parser.parse::<T1>() {
            Some(v) => v,
            None => {
                return None;
            },
        };
        let v2 = match parser.parse::<T2>() {
            Some(v) => v,
            None => {
                return None;
            },
        };
        let v3 = match parser.parse::<T3>() {
            Some(v) => v,
            None => {
                return None;
            },
        };
        let v4 = match parser.parse::<T4>() {
            Some(v) => v,
            None => {
                return None;
            },
        };
        Some((v0, v1, v2, v3, v4))
    }
}

impl<T0: Parse, T1: Parse, T2: Parse, T3: Parse, T4: Parse, T5: Parse> Parse for (T0, T1, T2, T3, T4, T5) {
    open spec fn spec_id() -> u64 {
        spec_mix_id(spec_mix_id(spec_mix_id(spec_mix_id(spec_mix_id(spec_mix_id(22, T0::spec_id() as int) as int, T1::spec_id() as int) as int, T2::spec_id() as int) as int, T3::spec_id() as int) as int, T4::spec_id() as int) as int, T5::spec_id() as int)
    }

    fn id() -> u64 {
        mix_id(mix_id(mix_id(mix_id(mix_id(mix_id(22, T0::id()), T1::id()), T2::id()), T3::id()), T4::id()), T5::id())
    }

    open spec fn spec_name() -> Option<Seq<char>> {
        None
    }

    fn name() -> Option<String> {
        None
    }

    open spec fn spec_packed(self) -> Packed {
        Packed { start: self.0.spec_packed().start, end: self.5.spec_packed().end, data: PackedData::Two(Box::new(self.0.spec_packed()), Box::new(Packed { start: self.1.spec_packed().start, end: self.5.spec_packed().end, data: PackedData::Two(Box::new(self.1.spec_packed()), Box::new(Packed { start: self.2.spec_packed().start, end: self.5.spec_packed().end, data: PackedData::Two(Box::new(self.2.spec_packed()), Box::new(Packed { start: self.3.spec_packed().start, end: self.5.spec_packed().end, data: PackedData::Two(Box::new(self.3.spec_packed()), Box::new(Packed { start: self.4.spec_packed().start, end: self.5.spec_packed().end, data: PackedData::Two(Box::new(self.4.spec_packed()), Box::new(self.5.spec_packed())) })) })) })) })) }
    }

    fn pack(&self) -> Packed {
        let p0 = self.0.pack();
        let p1 = self.1.pack();
        let p2 = self.2.pack();
        let p3 = self.3.pack();
        let p4 = self.4.pack();
        let p5 = self.5.pack();
        let e = p5.end;
        let m4 = Packed { start: p4.start, end: e, data: PackedData::Two(Box::new(p4), Box::new(p5)) };
        let m3 = Packed { start: p3.start, end: e, data: PackedData::Two(Box::new(p3), Box::new(m4)) };
        let m2 = Packed { start: p2.start, end: e, data: PackedData::Two(Box::new(p2), Box::new(m3)) };
        let m1 = Packed { start: p1.start, end: e, data: PackedData::Two(Box::new(p1), Box::new(m2)) };
        let m0 = Packed { start: p0.start, end: e, data: PackedData::Two(Box::new(p0), Box::new(m1)) };
        m0
    }

    fn unpack(packed: &Packed) -> (r: Option<Self>) {
        match &packed.data {
            PackedData::Two(p0, r1) => {
                match &r1.data {
                    PackedData::Two(p1, r2) => {
                        match &r2.data {
                            PackedData::Two(p2, r3) => {
                                match &r3.data {
                                    PackedData::Two(p3, r4) => {
                                        match &r4.data {
                                            PackedData::Two(p4, r5) => {
                                                if packed.start != p0.start || packed.end != r5.end || r1.start != p1.start || r1.end != r5.end || r2.start != p2.start || r2.end != r5.end || r3.start != p3.start || r3.end != r5.end || r4.start != p4.start || r4.end != r5.end {
                                                    return None;
                                                }
                                                let v0 = match T0::unpack(p0) { Some(v) => v, None => return None };
                                                let v1 = match T1::unpack(p1) { Some(v) => v, None => return None };
                                                let v2 = match T2::unpack(p2) { Some(v) => v, None => return None };
                                                let v3 = match T3::unpack(p3) { Some(v) => v, None => return None };
                                                let v4 = match T4::unpack(p4) { Some(v) => v, None => return None };
                                                let v5 = match T5::unpack(r5) { Some(v) => v, None => return None };
                                                Some((v0, v1, v2, v3, v4, v5))
                                            },
                                            _ => None,
                                        }
                                    },
                                    _ => None,
                                }
                            },
                            _ => None,
                        }
                    },
                    _ => None,
                }
            },
            _ => None,
        }
    }

    proof fn lemma_packed_span(self) {
        self.0.lemma_packed_span();
        self.1.lemma_packed_span();
        self.2.lemma_packed_span();
        self.3.lemma_packed_span();
        self.4.lemma_packed_span();
        self.5.lemma_packed_span();
    }

    open spec fn spec_behaves(pre: ParserView, post: ParserView, r: Option<Self>) -> bool {
        &&& (r matches Some(v) ==> {
            &&& succeeded_at::<T0>(post.memo, pre.pos, v.0)
            &&& succeeded_at::<T1>(post.memo, v.0.spec_end(), v.1)
            &&& succeeded_at::<T2>(post.memo, v.1.spec_end(), v.2)
            &&& succeeded_at::<T3>(post.memo, v.2.spec_end(), v.3)
            &&& succeeded_at::<T4>(post.memo, v.3.spec_end(), v.4)
            &&& succeeded_at::<T5>(post.memo, v.4.spec_end(), v.5)
            &&& v.0.spec_start() == pre.pos
            &&& v.1.spec_start() == v.0.spec_end()
            &&& v.2.spec_start() == v.1.spec_end()
            &&& v.3.spec_start() == v.2.spec_end()
            &&& v.4.spec_start() == v.3.spec_end()
            &&& v.5.spec_start() == v.4.spec_end()
        })
    }

    /// A sequence of 6 parts, each starting where the one before ended.
    fn parse(parser: &mut Parser) -> (r: Option<Self>)
        ensures
            r matches Some(v) ==> {
                &&& succeeded_at::<T0>(final(parser).spec_memo(), old(parser).spec_pos(), v.0)
                &&& succeeded_at::<T1>(final(parser).spec_memo(), v.0.spec_end(), v.1)
                &&& succeeded_at::<T2>(final(parser).spec_memo(), v.1.spec_end(), v.2)
                &&& succeeded_at::<T3>(final(parser).spec_memo(), v.2.spec_end(), v.3)
                &&& succeeded_at::<T4>(final(parser).spec_memo(), v.3.spec_end(), v.4)
                &&& succeeded_at::<T5>(final(parser).spec_memo(), v.4.spec_end(), v.5)
                &&& v.0.spec_start() == old(parser).spec_pos()
                &&& v.1.spec_start() == v.0.spec_end()
                &&& v.2.spec_start() == v.1.spec_end()
                &&& v.3.spec_start() == v.2.spec_end()
                &&& v.4.spec_start() == v.3.spec_end()
                &&& v.5.spec_start() == v.4.spec_end()
            },
    {
        let v0 = match parser.parse::<T0>() {
            Some(v) => v,
            None => {
                return None;
            },
        };
        let v1 = match parser.parse::<T1>() {
            Some(v) => v,
            None => {
                return None;
            },
        };
        let v2 = match parser.parse::<T2>() {
            Some(v) => v,
            None => {
                return None;
            },
        };
        let v3 = match parser.parse::<T3>() {
            Some(v) => v,
            None => {
                return None;
            },
        };
        let v4 = match parser.parse::<T4>() {
            Some(v) => v,
            None => {
                return None;
            },
        };
        let v5 = match parser.parse::<T5>() {
            Some(v) => v,
            None => {
                return None;
            },
        };
        Some((v0, v1, v2, v3, v4, v5))
    }
}

} // verus!
