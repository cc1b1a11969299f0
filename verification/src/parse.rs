//! The parser state and the polymorphic parse dispatch.
use crate::memo::MemoTable;
use crate::memo::Packed;
use crate::span::spec_line_col;
use crate::span::Position;
use crate::span::Span;
use crate::text::char_at;
use crate::text::char_width_at;
use crate::text::decode_char_at;
use crate::text::lemma_str_valid_utf8;
use crate::text::suffix_at;
use vstd::prelude::*;
use vstd::string::StringSliceAdditionalSpecFns;
use vstd::utf8::is_char_boundary;
use vstd::utf8::valid_utf8;

verus! {

/// The deepest point the parser has reached while looking for a named
/// component: the position, the nesting depth of named components there, and
/// the names expected at that point.
pub struct Expected {
    position: Position,
    level: usize,
    items: Vec<(u64, String)>,
}

impl Expected {
    /// The position at which the expectation was last reset.
    pub closed spec fn spec_position(&self) -> int {
        self.position.offset as int
    }

    /// The name-depth at that position.
    pub closed spec fn spec_level(&self) -> int {
        self.level as int
    }

    /// The expected items: component identities paired with their names.
    pub closed spec fn spec_items(&self) -> Seq<(u64, Seq<char>)> {
        self.items@.map_values(|p: (u64, String)| (p.0, p.1@))
    }

    /// True when an item with the given component identity is present.
    pub open spec fn spec_has_item(&self, id: u64) -> bool {
        exists|t: int| 0 <= t < self.spec_items().len() && self.spec_items()[t].0 == id
    }

    /// Makes an empty record: position zero, depth zero, no items.
    pub fn empty() -> (r: Self)
        ensures
            r.spec_position() == 0,
            r.spec_level() == 0,
            r.spec_items() == Seq::<(u64, Seq<char>)>::empty(),
    {
        let r = Expected { position: Position::new(0), level: 0, items: Vec::new() };
        proof {
            assert(r.spec_items() =~= Seq::<(u64, Seq<char>)>::empty());
        }
        r
    }

    /// Makes a record that expects exactly one item at the given position and depth.
    pub fn new(position: Position, level: usize, id: u64, name: String) -> (r: Self)
        ensures
            r.spec_position() == position.offset as int,
            r.spec_level() == level as int,
            r.spec_items() =~= seq![(id, name@)],
    {
        let ghost n = name@;
        let items = vec![(id, name)];
        let r = Expected { position, level, items };
        proof {
            assert(r.spec_items() =~= seq![(id, n)]);
        }
        r
    }

    /// Adds one item, unless an item with the same component identity is
    /// already present.
    pub fn add_item(&mut self, id: u64, name: String)
        ensures
            final(self).spec_position() == old(self).spec_position(),
            final(self).spec_level() == old(self).spec_level(),
            final(self).spec_items() == if old(self).spec_has_item(id) {
                old(self).spec_items()
            } else {
                old(self).spec_items().push((id, name@))
            },
    {
        let n = self.items.len();
        let mut t: usize = 0;
        while t < n
            invariant
                t <= n,
                n == self.items@.len(),
                self == old(self),
                forall|u: int| 0 <= u < t ==> (#[trigger] self.spec_items()[u]).0 != id,
            decreases n - t,
        {
            if self.items[t].0 == id {
                proof {
                    assert(self.spec_items()[t as int].0 == id);
                }
                return ;
            }
            proof {
                assert(self.spec_items()[t as int].0 == self.items@[t as int].0);
            }
            t = t + 1;
        }
        proof {
            assert(!self.spec_has_item(id));
        }
        let ghost nm = name@;
        self.items.push((id, name));
        proof {
            assert(self.spec_items() =~= old(self).spec_items().push((id, nm)));
        }
    }

    /// The expected names, in the order they were recorded.
    pub fn items(&self) -> (r: Vec<String>)
        ensures
            r@.len() == self.spec_items().len(),
            forall|t: int| 0 <= t < r@.len() ==> (#[trigger] r@[t])@ == self.spec_items()[t].1,
    {
        let n = self.items.len();
        let mut out: Vec<String> = Vec::new();
        let mut t: usize = 0;
        while t < n
            invariant
                t <= n,
                n == self.items@.len(),
                out@.len() == t as int,
                forall|u: int| 0 <= u < t ==> (#[trigger] out@[u])@ == self.spec_items()[u].1,
            decreases n - t,
        {
            let name = self.items[t].1.clone();
            proof {
                assert(self.spec_items()[t as int].1 == self.items@[t as int].1@);
            }
            out.push(name);
            t = t + 1;
        }
        out
    }

    /// The position of the expectation.
    pub fn position(&self) -> (r: Position)
        ensures
            r.offset as int == self.spec_position(),
    {
        self.position
    }
}


/// A parser state as contracts see it: the pieces over which a component's
/// behaviour is stated.
pub struct ParserView {
    /// The input bytes.
    pub text: Seq<u8>,
    /// The cursor.
    pub pos: int,
    /// The name-depth.
    pub level: int,
    /// The memo.
    pub memo: Map<(u64, int), Option<Packed>>,
    /// The position of the expected record.
    pub expected_pos: int,
    /// The name-depth of the expected record.
    pub expected_level: int,
    /// The items of the expected record.
    pub expected_items: Seq<(u64, Seq<char>)>,
}

/// True when an item with this identity is among the expected items.
pub open spec fn view_has_expected_item(items: Seq<(u64, Seq<char>)>, id: u64) -> bool {
    exists|t: int| 0 <= t < items.len() && items[t].0 == id
}

/// The expected record after the deepest-position, outermost-name update of a
/// named component reached at the cursor.
pub open spec fn expected_after_update(pre: ParserView, id: u64, name: Seq<char>) -> ParserView {
    if pre.expected_pos == pre.pos && pre.expected_level == pre.level {
        ParserView {
            expected_items: if view_has_expected_item(pre.expected_items, id) {
                pre.expected_items
            } else {
                pre.expected_items.push((id, name))
            },
            ..pre
        }
    } else if pre.expected_pos < pre.pos || (pre.expected_pos == pre.pos && pre.expected_level
        > pre.level) {
        ParserView {
            expected_pos: pre.pos,
            expected_level: pre.level,
            expected_items: seq![(id, name)],
            ..pre
        }
    } else {
        pre
    }
}

/// The state in which the dispatch runs a component's parser after a memo
/// miss: the expected record updated for a named component, the name-depth
/// raised, and a failure recorded under the component's key so that a
/// left-recursive re-entry fails instead of looping.
pub open spec fn miss_entry_state(pre: ParserView, id: u64, name: Option<Seq<char>>) -> ParserView {
    let stepped = match name {
        Some(n) => ParserView {
            level: if pre.level < usize::MAX as int {
                pre.level + 1
            } else {
                pre.level
            },
            ..expected_after_update(pre, id, n)
        },
        None => pre,
    };
    ParserView { memo: stepped.memo.insert((id, pre.pos), None), ..stepped }
}

/// True when every recorded outcome of `m1` is recorded unchanged in `m2`.
pub open spec fn memo_extends(
    m1: Map<(u64, int), Option<Packed>>,
    m2: Map<(u64, int), Option<Packed>>,
) -> bool {
    forall|k: (u64, int)| #[trigger]
        m1.contains_key(k) ==> m2.contains_key(k) && m2[k] == m1[k]
}

/// Extension of the memo is transitive.
pub proof fn lemma_memo_extends_trans(
    m1: Map<(u64, int), Option<Packed>>,
    m2: Map<(u64, int), Option<Packed>>,
    m3: Map<(u64, int), Option<Packed>>,
)
    requires
        memo_extends(m1, m2),
        memo_extends(m2, m3),
    ensures
        memo_extends(m1, m3),
{
    assert forall|k: (u64, int)| m1.contains_key(k) implies m3.contains_key(k) && m3[k] == m1[k] by {
        assert(m2.contains_key(k) && m2[k] == m1[k]);
    }
}

/// Well-formedness of one memo record with respect to the input bytes: the key
/// lies on a character boundary, and a success spans from the key's position to
/// a boundary at or after it.
pub open spec fn entry_wf(k: (u64, int), outcome: Option<Packed>, tb: Seq<u8>) -> bool {
    &&& 0 <= k.1 <= tb.len()
    &&& is_char_boundary(tb, k.1)
    &&& match outcome {
        Some(pk) => {
            &&& pk.start as int == k.1
            &&& k.1 <= pk.end as int <= tb.len()
            &&& is_char_boundary(tb, pk.end as int)
        },
        None => true,
    }
}

/// Well-formedness of the whole memo with respect to the input bytes.
pub open spec fn memo_wf(m: Map<(u64, int), Option<Packed>>, tb: Seq<u8>) -> bool {
    forall|k: (u64, int)| #[trigger] m.contains_key(k) ==> entry_wf(k, m[k], tb)
}

/// Parser.
pub struct Parser<'a> {
    text: &'a str,
    position: Position,
    level: usize,
    expected: Expected,
    memo: MemoTable,
}

impl<'a> Parser<'a> {
    /// The input as bytes.
    pub closed spec fn spec_text(&self) -> Seq<u8> {
        self.text.spec_bytes()
    }

    /// The input as characters.
    pub closed spec fn spec_chars(&self) -> Seq<char> {
        self.text@
    }

    /// The current cursor, as a byte offset.
    pub closed spec fn spec_pos(&self) -> int {
        self.position.offset as int
    }

    /// The current name-depth.
    pub closed spec fn spec_level(&self) -> int {
        self.level as int
    }

    /// The memo: recorded outcomes keyed by component identity and position.
    pub closed spec fn spec_memo(&self) -> Map<(u64, int), Option<Packed>> {
        self.memo@
    }

    /// The position of the expected record.
    pub closed spec fn spec_expected_pos(&self) -> int {
        self.expected.spec_position()
    }

    /// The name-depth of the expected record.
    pub closed spec fn spec_expected_level(&self) -> int {
        self.expected.spec_level()
    }

    /// The items of the expected record.
    pub closed spec fn spec_expected_items(&self) -> Seq<(u64, Seq<char>)> {
        self.expected.spec_items()
    }

    /// This parser's state, as contracts see it.
    pub open spec fn snapshot(&self) -> ParserView {
        ParserView {
            text: self.spec_text(),
            pos: self.spec_pos(),
            level: self.spec_level(),
            memo: self.spec_memo(),
            expected_pos: self.spec_expected_pos(),
            expected_level: self.spec_expected_level(),
            expected_items: self.spec_expected_items(),
        }
    }

    /// Well-formedness: the input is valid UTF-8, the cursor and the expected
    /// position stay inside it on character boundaries, and every memo record
    /// is consistent with it.
    pub open spec fn wf(&self) -> bool {
        &&& valid_utf8(self.spec_text())
        &&& self.spec_text().len() <= usize::MAX
        &&& 0 <= self.spec_pos() <= self.spec_text().len()
        &&& is_char_boundary(self.spec_text(), self.spec_pos())
        &&& memo_wf(self.spec_memo(), self.spec_text())
        &&& 0 <= self.spec_expected_pos() <= self.spec_text().len()
        &&& is_char_boundary(self.spec_text(), self.spec_expected_pos())
    }

    /// Makes a new [`Parser`] instance.
    pub fn new(text: &'a str) -> (r: Self)
        ensures
            r.wf(),
            r.spec_text() == text.spec_bytes(),
            r.spec_chars() == text@,
            r.spec_pos() == 0,
            r.spec_level() == 0,
            r.spec_memo() == Map::<(u64, int), Option<Packed>>::empty(),
            r.spec_expected_pos() == 0,
            r.spec_expected_level() == 0,
            r.spec_expected_items() == Seq::<(u64, Seq<char>)>::empty(),
    {
        let n = crate::text::str_byte_len(text);
        proof {
            assert(text.spec_bytes().len() <= usize::MAX);
        }
        let r = Parser {
            text,
            position: Position::new(0),
            level: 0,
            expected: Expected::empty(),
            memo: MemoTable::new(),
        };
        proof {
            lemma_str_valid_utf8(text);
            vstd::utf8::is_char_boundary_start_end_of_seq(text.spec_bytes());
        }
        r
    }

    /// Returns the current position.
    pub fn current_position(&self) -> (r: Position)
        ensures
            r.offset as int == self.spec_pos(),
    {
        self.position
    }

    /// Returns `true` if the parser has reached EOS, otherwise `false`.
    pub fn is_eos(&self) -> (r: bool)
        requires
            self.wf(),
        ensures
            r == (self.spec_pos() == self.spec_text().len()),
    {
        self.text.len() == self.position.get()
    }

    /// Returns the full text.
    pub fn text(&self) -> (r: &str)
        ensures
            r.spec_bytes() == self.spec_text(),
            r@ == self.spec_chars(),
    {
        self.text
    }

    /// Returns the remaining, un-parsed text.
    pub fn remaining_text(&self) -> (r: &str)
        requires
            self.wf(),
        ensures
            r.spec_bytes() == suffix_at(self.spec_text(), self.spec_pos()),
    {
        let (_, rest) = self.text.split_at(self.position.get());
        rest
    }

    /// Peeks the next character.
    pub fn peek_char(&self) -> (r: Option<char>)
        requires
            self.wf(),
        ensures
            r == if self.spec_pos() < self.spec_text().len() {
                Some(char_at(self.spec_text(), self.spec_pos()))
            } else {
                Option::<char>::None
            },
    {
        if self.position.get() < self.text.len() {
            let (c, _) = decode_char_at(self.text, self.position.get());
            Some(c)
        } else {
            None
        }
    }

    /// Reads the next character.
    pub fn read_char(&mut self) -> (r: Option<char>)
        requires
            old(self).wf(),
        ensures
            final(self).wf(),
            final(self).spec_text() == old(self).spec_text(),
            final(self).spec_level() == old(self).spec_level(),
            final(self).spec_memo() == old(self).spec_memo(),
            final(self).spec_expected_pos() == old(self).spec_expected_pos(),
            final(self).spec_expected_level() == old(self).spec_expected_level(),
            final(self).spec_expected_items() == old(self).spec_expected_items(),
            if old(self).spec_pos() < old(self).spec_text().len() {
                r == Some(char_at(old(self).spec_text(), old(self).spec_pos()))
                    && final(self).spec_pos() == old(self).spec_pos() + char_width_at(
                    old(self).spec_text(),
                    old(self).spec_pos(),
                )
            } else {
                r is None && final(self).spec_pos() == old(self).spec_pos()
            },
    {
        if self.position.get() < self.text.len() {
            let (c, width) = decode_char_at(self.text, self.position.get());
            self.position = Position::new(self.position.get() + width);
            Some(c)
        } else {
            None
        }
    }

    /// Advances the cursor by up to `n` bytes, clamped to the end of the input.
    /// Returns the positions before and after.
    pub fn consume_bytes(&mut self, n: usize) -> (r: (Position, Position))
        requires
            old(self).wf(),
            is_char_boundary(
                old(self).spec_text(),
                if old(self).spec_pos() + n <= old(self).spec_text().len() {
                    old(self).spec_pos() + n
                } else {
                    old(self).spec_text().len() as int
                },
            ),
        ensures
            final(self).wf(),
            final(self).spec_text() == old(self).spec_text(),
            final(self).spec_level() == old(self).spec_level(),
            final(self).spec_memo() == old(self).spec_memo(),
            final(self).spec_expected_pos() == old(self).spec_expected_pos(),
            final(self).spec_expected_level() == old(self).spec_expected_level(),
            final(self).spec_expected_items() == old(self).spec_expected_items(),
            final(self).spec_pos() == if old(self).spec_pos() + n <= old(
                self,
            ).spec_text().len() {
                old(self).spec_pos() + n
            } else {
                old(self).spec_text().len() as int
            },
            r.0.offset as int == old(self).spec_pos(),
            r.1.offset as int == final(self).spec_pos(),
    {
        let before = self.position;
        let len = self.text.len();
        let target = if n <= len - self.position.get() {
            self.position.get() + n
        } else {
            len
        };
        self.position = Position::new(target);
        (before, self.position)
    }

    /// Advances the cursor by up to `n` characters, stopping at the end of the
    /// input. Returns the positions before and after.
    pub fn consume_chars(&mut self, n: usize) -> (r: (Position, Position))
        requires
            old(self).wf(),
        ensures
            final(self).wf(),
            final(self).spec_text() == old(self).spec_text(),
            final(self).spec_level() == old(self).spec_level(),
            final(self).spec_memo() == old(self).spec_memo(),
            final(self).spec_expected_pos() == old(self).spec_expected_pos(),
            final(self).spec_expected_level() == old(self).spec_expected_level(),
            final(self).spec_expected_items() == old(self).spec_expected_items(),
            final(self).spec_pos() == advance_chars(
                old(self).spec_text(),
                old(self).spec_pos(),
                n as nat,
            ),
            r.0.offset as int == old(self).spec_pos(),
            r.1.offset as int == final(self).spec_pos(),
    {
        let before = self.position;
        let mut k: usize = 0;
        while k < n
            invariant
                k <= n,
                self.wf(),
                self.spec_text() == old(self).spec_text(),
                self.spec_level() == old(self).spec_level(),
                self.spec_memo() == old(self).spec_memo(),
                self.spec_expected_pos() == old(self).spec_expected_pos(),
                self.spec_expected_level() == old(self).spec_expected_level(),
                self.spec_expected_items() == old(self).spec_expected_items(),
                before.offset as int == old(self).spec_pos(),
                advance_chars(old(self).spec_text(), old(self).spec_pos(), n as nat)
                    == advance_chars(self.spec_text(), self.spec_pos(), (n - k) as nat),
            decreases n - k,
        {
            if self.read_char().is_none() {
                proof {
                    lemma_advance_chars_at_eos(self.spec_text(), self.spec_pos(), (n - k) as nat);
                }
                return (before, self.position);
            }
            k = k + 1;
        }
        proof {
            assert(advance_chars(self.spec_text(), self.spec_pos(), 0nat) == self.spec_pos());
        }
        (before, self.position)
    }
}

/// The byte offset that lies `n` characters after `pos`, stopping at the end
/// of the input.
pub open spec fn advance_chars(tb: Seq<u8>, pos: int, n: nat) -> int
    decreases n,
{
    if n == 0 || pos >= tb.len() {
        pos
    } else {
        advance_chars(tb, pos + char_width_at(tb, pos), (n - 1) as nat)
    }
}

/// Advancing by characters from the end of the input stays at the end.
proof fn lemma_advance_chars_at_eos(tb: Seq<u8>, pos: int, n: nat)
    requires
        pos >= tb.len(),
    ensures
        advance_chars(tb, pos, n) == pos,
{
}

/// This trait allows for parsing an item from text.
///
/// Beyond `parse` itself, a component carries its identity (the memo key),
/// its optional user-facing name, and an exact packing of its values into the
/// uniform shape that the memo table stores.
pub trait Parse: Span + Sized {
    /// The component's identity, as the memo table keys it.
    spec fn spec_id() -> u64;

    /// Returns the component's identity.
    fn id() -> (r: u64)
        ensures
            r == Self::spec_id(),
    ;

    /// The component's user-facing name, if it has one.
    spec fn spec_name() -> Option<Seq<char>>;

    /// Name of the item to be parsed; `None` keeps the component out of
    /// diagnostics.
    fn name() -> (r: Option<String>)
        ensures
            match r {
                Some(s) => Self::spec_name() == Some(s@),
                None => Self::spec_name() is None,
            },
    ;

    /// The packed shape of a value, as the memo table holds it.
    spec fn spec_packed(self) -> Packed;

    /// Packs a value for the memo table.
    fn pack(&self) -> (r: Packed)
        ensures
            r == self.spec_packed(),
    ;

    /// Recovers a value out of its packed shape: unpacking succeeds exactly
    /// when some value packs to this shape, and the recovered value packs
    /// back to it.
    fn unpack(packed: &Packed) -> (r: Option<Self>)
        ensures
            r matches Some(v) ==> v.spec_packed() == *packed,
            (exists|v: Self| v.spec_packed() == *packed) ==> r is Some,
    ;

    /// The packed shape of a value records the value's own span.
    proof fn lemma_packed_span(self)
        ensures
            self.spec_packed().start as int == self.spec_start(),
            self.spec_packed().end as int == self.spec_end(),
    ;

    /// How one run of this component's parser relates the parser state before
    /// it to the state and the outcome after it. Every run of `parse` obeys
    /// this relation, and the dispatch guarantees that each memo miss is such
    /// a run.
    spec fn spec_behaves(pre: ParserView, post: ParserView, r: Option<Self>) -> bool;

    /// Parses an item at the parser's cursor.
    ///
    /// `None` means parse failure; the caller (the dispatch in
    /// [`Parser::parse`]) then rewinds the cursor. On success the returned
    /// value spans from the cursor at entry to the cursor at exit.
    fn parse(parser: &mut Parser) -> (r: Option<Self>)
        requires
            old(parser).wf(),
        ensures
            final(parser).wf(),
            final(parser).spec_text() == old(parser).spec_text(),
            final(parser).spec_level() == old(parser).spec_level(),
            memo_extends(old(parser).spec_memo(), final(parser).spec_memo()),
            old(parser).spec_pos() <= final(parser).spec_pos() <= old(
                parser,
            ).spec_text().len(),
            final(parser).spec_expected_pos() >= old(parser).spec_expected_pos(),
            r matches Some(v) ==> v.spec_start() == old(parser).spec_pos() && v.spec_end()
                == final(parser).spec_pos(),
            Self::spec_behaves(old(parser).snapshot(), final(parser).snapshot(), r),
    ;
}

/// The memo records a success of `T` at position `p` whose value is `v`.
pub open spec fn succeeded_at<T: Parse>(
    m: Map<(u64, int), Option<Packed>>,
    p: int,
    v: T,
) -> bool {
    m.contains_key((T::spec_id(), p)) && m[(T::spec_id(), p)] == Some(v.spec_packed())
}

/// The memo records at position `p` an outcome of `T` that is not a success:
/// a recorded failure, an attempt still in progress, or a record that no value
/// of `T` packs to.
pub open spec fn failed_at<T: Parse>(m: Map<(u64, int), Option<Packed>>, p: int) -> bool {
    m.contains_key((T::spec_id(), p)) && match m[(T::spec_id(), p)] {
        None => true,
        Some(pk) => forall|w: T| w.spec_packed() != pk,
    }
}

impl<'a> Parser<'a> {
    /// Looks up the memoized outcome for `T` at the given position: `None`
    /// when nothing is recorded, `Some(None)` for a recorded failure (or a
    /// record that does not unpack as a `T`), and `Some(Some(v))` for a
    /// recorded success.
    fn get_parse_result<T: Parse>(&self, position: Position) -> (r: Option<Option<T>>)
        ensures
            ({
                let k = (T::spec_id(), position.offset as int);
                match r {
                    None => !self.spec_memo().contains_key(k),
                    Some(inner) => {
                        &&& self.spec_memo().contains_key(k)
                        &&& (match inner {
                            Some(v) => self.spec_memo()[k] == Some(v.spec_packed()),
                            None => true,
                        })
                        &&& (self.spec_memo()[k] is None ==> inner is None)
                        &&& (match self.spec_memo()[k] {
                            Some(pk) => (exists|w: T| w.spec_packed() == pk) ==> inner is Some,
                            None => true,
                        })
                    },
                }
            }),
            self.spec_memo().contains_key((T::spec_id(), position.offset as int)) <==> r is Some,
    {
        match self.memo.get(T::id(), position.get()) {
            None => None,
            Some(outcome) => match outcome {
                None => Some(None),
                Some(pk) => match T::unpack(pk) {
                    Some(v) => Some(Some(v)),
                    None => Some(None),
                },
            },
        }
    }

    /// Records the outcome of parsing `T` at the given position.
    fn set_parse_result<T: Parse>(&mut self, position: Position, result: &Option<T>)
        requires
            old(self).wf(),
            position.offset as int <= old(self).spec_text().len(),
            is_char_boundary(old(self).spec_text(), position.offset as int),
            match result {
                Some(v) => v.spec_start() == position.offset as int && position.offset as int
                    <= v.spec_end() <= old(self).spec_text().len() && is_char_boundary(
                    old(self).spec_text(),
                    v.spec_end(),
                ),
                None => true,
            },
        ensures
            final(self).wf(),
            final(self).spec_text() == old(self).spec_text(),
            final(self).spec_pos() == old(self).spec_pos(),
            final(self).spec_level() == old(self).spec_level(),
            final(self).spec_expected_pos() == old(self).spec_expected_pos(),
            final(self).spec_expected_level() == old(self).spec_expected_level(),
            final(self).spec_expected_items() == old(self).spec_expected_items(),
            final(self).spec_memo() == old(self).spec_memo().insert(
                (T::spec_id(), position.offset as int),
                match result {
                    Some(v) => Some(v.spec_packed()),
                    None => None,
                },
            ),
    {
        let ghost k = (T::spec_id(), position.offset as int);
        let outcome = match result {
            Some(v) => {
                proof {
                    v.lemma_packed_span();
                }
                Some(v.pack())
            },
            None => None,
        };
        self.memo.set(T::id(), position.get(), outcome);
        proof {
            assert forall|k2: (u64, int)| #[trigger]
                self.spec_memo().contains_key(k2) implies entry_wf(
                k2,
                self.spec_memo()[k2],
                self.spec_text(),
            ) by {
                if k2 != k {
                    assert(old(self).spec_memo().contains_key(k2));
                }
            }
        }
    }

    /// Records the outcome of parsing `T` at the given position, unless an
    /// outcome is already recorded there.
    fn set_parse_result_if_absent<T: Parse>(&mut self, position: Position, result: &Option<T>)
        requires
            old(self).wf(),
            position.offset as int <= old(self).spec_text().len(),
            is_char_boundary(old(self).spec_text(), position.offset as int),
            match result {
                Some(v) => v.spec_start() == position.offset as int && position.offset as int
                    <= v.spec_end() <= old(self).spec_text().len() && is_char_boundary(
                    old(self).spec_text(),
                    v.spec_end(),
                ),
                None => true,
            },
        ensures
            final(self).wf(),
            final(self).spec_text() == old(self).spec_text(),
            final(self).spec_pos() == old(self).spec_pos(),
            final(self).spec_level() == old(self).spec_level(),
            final(self).spec_expected_pos() == old(self).spec_expected_pos(),
            final(self).spec_expected_level() == old(self).spec_expected_level(),
            final(self).spec_expected_items() == old(self).spec_expected_items(),
            final(self).spec_memo() == if old(self).spec_memo().contains_key(
                (T::spec_id(), position.offset as int),
            ) {
                old(self).spec_memo()
            } else {
                old(self).spec_memo().insert(
                    (T::spec_id(), position.offset as int),
                    match result {
                        Some(v) => Some(v.spec_packed()),
                        None => None,
                    },
                )
            },
    {
        if self.memo.get(T::id(), position.get()).is_none() {
            self.set_parse_result::<T>(position, result);
        }
    }

    /// Updates the expected record for a named component reached at the
    /// current cursor, following the deepest-position, outermost-name rule.
    fn update_expected(&mut self, id: u64, name: String)
        requires
            old(self).wf(),
        ensures
            final(self).wf(),
            final(self).spec_text() == old(self).spec_text(),
            final(self).spec_pos() == old(self).spec_pos(),
            final(self).spec_level() == old(self).spec_level(),
            final(self).spec_memo() == old(self).spec_memo(),
            ({
                let p = old(self).spec_pos();
                let d = old(self).spec_level();
                let ep = old(self).spec_expected_pos();
                let ed = old(self).spec_expected_level();
                if ep == p && ed == d {
                    &&& final(self).spec_expected_pos() == ep
                    &&& final(self).spec_expected_level() == ed
                    &&& final(self).spec_expected_items() == if old(
                        self,
                    ).expected_has_item(id) {
                        old(self).spec_expected_items()
                    } else {
                        old(self).spec_expected_items().push((id, name@))
                    }
                } else if ep < p || (ep == p && ed > d) {
                    &&& final(self).spec_expected_pos() == p
                    &&& final(self).spec_expected_level() == d
                    &&& final(self).spec_expected_items() =~= seq![(id, name@)]
                } else {
                    &&& final(self).spec_expected_pos() == ep
                    &&& final(self).spec_expected_level() == ed
                    &&& final(self).spec_expected_items() == old(self).spec_expected_items()
                }
            }),
            final(self).spec_expected_pos() >= old(self).spec_pos(),
            final(self).spec_expected_pos() >= old(self).spec_expected_pos(),
    {
        let p = self.position.get();
        let ep = self.expected.position().get();
        if ep == p && self.expected.level == self.level {
            self.expected.add_item(id, name);
        } else if ep < p || (ep == p && self.expected.level > self.level) {
            self.expected = Expected::new(self.position, self.level, id, name);
        }
    }

    /// True when the expected record holds an item with this identity.
    pub open spec fn expected_has_item(&self, id: u64) -> bool {
        exists|t: int|
            0 <= t < self.spec_expected_items().len() && self.spec_expected_items()[t].0 == id
    }

    /// Parses an item.
    ///
    /// This is the packrat dispatch: a recorded outcome for `T` at the cursor
    /// is replayed without running `T`'s parser again; otherwise a failure is
    /// recorded (so that a left-recursive re-entry fails instead of looping),
    /// `T`'s parser runs, and its outcome overwrites the record. Running the
    /// same parse twice therefore returns equal outcomes and leaves the
    /// cursor in the same place, and the cursor never moves on failure.
    pub fn parse<T: Parse>(&mut self) -> (r: Option<T>)
        requires
            old(self).wf(),
        ensures
            final(self).wf(),
            final(self).spec_text() == old(self).spec_text(),
            final(self).spec_level() == old(self).spec_level(),
            memo_extends(old(self).spec_memo(), final(self).spec_memo()),
            final(self).spec_memo().contains_key((T::spec_id(), old(self).spec_pos())),
            old(self).spec_pos() <= final(self).spec_pos() <= old(self).spec_text().len(),
            final(self).spec_expected_pos() >= old(self).spec_expected_pos(),
            match r {
                Some(v) => {
                    &&& v.spec_start() == old(self).spec_pos()
                    &&& v.spec_end() == final(self).spec_pos()
                    &&& final(self).spec_memo()[(T::spec_id(), old(self).spec_pos())] == Some(
                        v.spec_packed(),
                    )
                },
                None => final(self).spec_pos() == old(self).spec_pos(),
            },
            !old(self).spec_memo().contains_key((T::spec_id(), old(self).spec_pos())) && r is None
                ==> final(self).spec_memo()[(T::spec_id(), old(self).spec_pos())] is None,
            r matches Some(v) ==> succeeded_at::<T>(
                final(self).spec_memo(),
                old(self).spec_pos(),
                v,
            ),
            r is None ==> failed_at::<T>(final(self).spec_memo(), old(self).spec_pos()),
            !old(self).spec_memo().contains_key((T::spec_id(), old(self).spec_pos()))
                && T::spec_name() is Some ==> final(self).spec_expected_pos() >= old(
                self,
            ).spec_pos(),
            !old(self).spec_memo().contains_key((T::spec_id(), old(self).spec_pos()))
                ==> exists|fin: ParserView|
                {
                    &&& #[trigger] T::spec_behaves(
                        miss_entry_state(old(self).snapshot(), T::spec_id(), T::spec_name()),
                        fin,
                        r,
                    )
                    &&& fin.text == old(self).spec_text()
                    &&& old(self).spec_pos() <= fin.pos <= fin.text.len()
                    &&& final(self).spec_memo() == fin.memo.insert(
                        (T::spec_id(), old(self).spec_pos()),
                        match r {
                            Some(v) => Some(v.spec_packed()),
                            None => None,
                        },
                    )
                    &&& final(self).spec_expected_pos() == fin.expected_pos
                    &&& final(self).spec_expected_level() == fin.expected_level
                    &&& final(self).spec_expected_items() == fin.expected_items
                    &&& (r matches Some(v) ==> final(self).spec_pos() == fin.pos)
                },
            old(self).spec_memo().contains_key((T::spec_id(), old(self).spec_pos())) ==> {
                &&& final(self).spec_memo() == old(self).spec_memo()
                &&& final(self).spec_expected_pos() == old(self).spec_expected_pos()
                &&& final(self).spec_expected_level() == old(self).spec_expected_level()
                &&& final(self).spec_expected_items() == old(self).spec_expected_items()
                &&& match old(self).spec_memo()[(T::spec_id(), old(self).spec_pos())] {
                    Some(pk) => ((exists|w: T| w.spec_packed() == pk) ==> r is Some) && (
                    match r {
                        Some(v) => v.spec_packed() == pk,
                        None => final(self).spec_pos() == old(self).spec_pos(),
                    }),
                    None => r is None,
                }
            },
    {
        let start = self.position;
        let ghost k = (T::spec_id(), start.offset as int);
        if let Some(found) = self.get_parse_result::<T>(start) {
            match found {
                Some(v) => {
                    proof {
                        assert(self.spec_memo().contains_key(k));
                        assert(entry_wf(k, self.spec_memo()[k], self.spec_text()));
                        v.lemma_packed_span();
                    }
                    let e = v.end_position();
                    self.position = e;
                    return Some(v);
                },
                None => {
                    proof {
                        let ghost entry = self.spec_memo()[k];
                        match entry {
                            Some(pk) => {
                                assert forall|w: T| w.spec_packed() != pk by {
                                    if w.spec_packed() == pk {
                                        assert(exists|w2: T| w2.spec_packed() == pk);
                                    }
                                }
                            },
                            None => {},
                        }
                    }
                    return None;
                },
            }
        }
        let has_name = match T::name() {
            Some(n) => {
                self.update_expected(T::id(), n);
                true
            },
            None => false,
        };
        self.set_parse_result_if_absent::<T>(start, &None);
        let ghost with_sentinel = self.spec_memo();
        let saved_level = self.level;
        if has_name {
            if self.level < usize::MAX {
                self.level = self.level + 1;
            }
        }
        let ghost mid_view = self.snapshot();
        proof {
            let target = miss_entry_state(old(self).snapshot(), T::spec_id(), T::spec_name());
            assert(mid_view.memo =~= target.memo);
            assert(mid_view.expected_items =~= target.expected_items);
            assert(mid_view == target);
        }
        let result = T::parse(self);
        let ghost fin_view = self.snapshot();
        let ghost after_sub = self.spec_memo();
        self.level = saved_level;
        self.set_parse_result::<T>(start, &result);
        if result.is_none() {
            self.position = start;
        }
        proof {
            assert forall|k2: (u64, int)|
                old(self).spec_memo().contains_key(k2) implies self.spec_memo().contains_key(k2)
                && self.spec_memo()[k2] == old(self).spec_memo()[k2] by {
                assert(k2 != k);
                assert(with_sentinel.contains_key(k2) && with_sentinel[k2] == old(
                    self,
                ).spec_memo()[k2]);
                assert(after_sub.contains_key(k2) && after_sub[k2] == with_sentinel[k2]);
            }
            if result is None {
                assert(self.spec_memo()[k] is None);
                assert(failed_at::<T>(self.spec_memo(), old(self).spec_pos()));
            }
            assert(T::spec_behaves(
                miss_entry_state(old(self).snapshot(), T::spec_id(), T::spec_name()),
                fin_view,
                result,
            ));
            assert(fin_view.text == old(self).spec_text());
            assert(self.spec_memo() == fin_view.memo.insert(
                k,
                match result {
                    Some(v) => Some(v.spec_packed()),
                    None => None,
                },
            ));
            assert(self.spec_expected_pos() == fin_view.expected_pos);
            assert(self.spec_expected_level() == fin_view.expected_level);
            assert(self.spec_expected_items() == fin_view.expected_items);
        }
        result
    }
}

impl<'a> Parser<'a> {
    /// Parses an item, then restores the cursor whatever the outcome.
    /// Memoization still occurs, so a later `parse` of the same component at
    /// this position replays the recorded outcome.
    pub fn peek<T: Parse>(&mut self) -> (r: Option<T>)
        requires
            old(self).wf(),
        ensures
            final(self).wf(),
            final(self).spec_text() == old(self).spec_text(),
            final(self).spec_level() == old(self).spec_level(),
            final(self).spec_pos() == old(self).spec_pos(),
            memo_extends(old(self).spec_memo(), final(self).spec_memo()),
            final(self).spec_memo().contains_key((T::spec_id(), old(self).spec_pos())),
            final(self).spec_expected_pos() >= old(self).spec_expected_pos(),
            match r {
                Some(v) => {
                    &&& v.spec_start() == old(self).spec_pos()
                    &&& final(self).spec_memo()[(T::spec_id(), old(self).spec_pos())] == Some(
                        v.spec_packed(),
                    )
                },
                None => !old(self).spec_memo().contains_key(
                    (T::spec_id(), old(self).spec_pos()),
                ) ==> final(self).spec_memo()[(T::spec_id(), old(self).spec_pos())] is None,
            },
            r matches Some(v) ==> succeeded_at::<T>(
                final(self).spec_memo(),
                old(self).spec_pos(),
                v,
            ),
            r is None ==> failed_at::<T>(final(self).spec_memo(), old(self).spec_pos()),
            !old(self).spec_memo().contains_key((T::spec_id(), old(self).spec_pos()))
                ==> exists|fin: ParserView|
                {
                    &&& #[trigger] T::spec_behaves(
                        miss_entry_state(old(self).snapshot(), T::spec_id(), T::spec_name()),
                        fin,
                        r,
                    )
                    &&& fin.text == old(self).spec_text()
                    &&& old(self).spec_pos() <= fin.pos <= fin.text.len()
                    &&& final(self).spec_memo() == fin.memo.insert(
                        (T::spec_id(), old(self).spec_pos()),
                        match r {
                            Some(v) => Some(v.spec_packed()),
                            None => None,
                        },
                    )
                    &&& final(self).spec_expected_pos() == fin.expected_pos
                    &&& final(self).spec_expected_level() == fin.expected_level
                    &&& final(self).spec_expected_items() == fin.expected_items
                },
            old(self).spec_memo().contains_key((T::spec_id(), old(self).spec_pos())) ==> {
                &&& final(self).spec_memo() == old(self).spec_memo()
                &&& final(self).spec_expected_pos() == old(self).spec_expected_pos()
                &&& final(self).spec_expected_level() == old(self).spec_expected_level()
                &&& final(self).spec_expected_items() == old(self).spec_expected_items()
                &&& match old(self).spec_memo()[(T::spec_id(), old(self).spec_pos())] {
                    Some(pk) => ((exists|w: T| w.spec_packed() == pk) ==> r is Some) && (
                    match r {
                        Some(v) => v.spec_packed() == pk,
                        None => true,
                    }),
                    None => r is None,
                }
            },
    {
        let start = self.position;
        let result = self.parse::<T>();
        self.position = start;
        result
    }

    /// Returns all successfully parsed items of type `T`, in ascending start
    /// position, as recorded in the memo.
    pub fn parsed_items<T: Parse>(&self) -> (r: Vec<(Position, T)>)
        requires
            self.wf(),
        ensures
            forall|i: int|
                #![trigger r@[i]]
                0 <= i < r@.len() ==> {
                    &&& self.spec_memo().contains_key((T::spec_id(), r@[i].0.offset as int))
                    &&& self.spec_memo()[(T::spec_id(), r@[i].0.offset as int)] == Some(
                        r@[i].1.spec_packed(),
                    )
                },
            forall|p: int|
                #![trigger self.spec_memo()[(T::spec_id(), p)]]
                self.spec_memo().contains_key((T::spec_id(), p)) ==> match self.spec_memo()[(
                    T::spec_id(),
                    p,
                )] {
                    Some(pk) => (exists|w: T| w.spec_packed() == pk) ==> exists|i: int|
                        0 <= i < r@.len() && r@[i].0.offset as int == p,
                    None => true,
                },
            forall|i: int, j: int| 0 <= i < j < r@.len() ==> r@[i].0.offset < r@[j].0.offset,
    {
        let found = self.memo.successes(T::id());
        let n = found.len();
        let mut out: Vec<(Position, T)> = Vec::new();
        let mut i: usize = 0;
        while i < n
            invariant
                i <= n,
                n == found@.len(),
                self.wf(),
                forall|t: int|
                    0 <= t < found@.len() ==> self.spec_memo().contains_key(
                        (T::spec_id(), (#[trigger] found@[t]).0 as int),
                    ) && self.spec_memo()[(T::spec_id(), found@[t].0 as int)] == Some(
                        *found@[t].1,
                    ),
                forall|p: int|
                    #![trigger self.spec_memo()[(T::spec_id(), p)]]
                    self.spec_memo().contains_key((T::spec_id(), p)) && self.spec_memo()[(
                        T::spec_id(),
                        p,
                    )] is Some ==> exists|t: int| 0 <= t < found@.len() && found@[t].0 == p,
                forall|a: int, b: int| 0 <= a < b < found@.len() ==> found@[a].0 < found@[b].0,
                forall|u: int|
                    #![trigger out@[u]]
                    0 <= u < out@.len() ==> {
                        &&& self.spec_memo().contains_key((T::spec_id(), out@[u].0.offset as int))
                        &&& self.spec_memo()[(T::spec_id(), out@[u].0.offset as int)] == Some(
                            out@[u].1.spec_packed(),
                        )
                    },
                forall|t: int|
                    #![trigger found@[t]]
                    0 <= t < i ==> match self.spec_memo()[(T::spec_id(), found@[t].0 as int)] {
                        Some(pk) => (exists|w: T| w.spec_packed() == pk) ==> exists|u: int|
                            0 <= u < out@.len() && out@[u].0.offset == found@[t].0,
                        None => true,
                    },
                forall|a: int, b: int|
                    0 <= a < b < out@.len() ==> out@[a].0.offset < out@[b].0.offset,
                forall|u: int, t: int|
                    0 <= u < out@.len() && i <= t < n ==> (#[trigger] out@[u].0.offset) < (
                    #[trigger] found@[t].0),
            decreases n - i,
        {
            let (pos, pk) = found[i];
            match T::unpack(pk) {
                Some(v) => {
                    let ghost prev = out@;
                    out.push((Position::new(pos), v));
                    proof {
                        assert(out@ == prev.push((Position { offset: pos }, v)));
                        assert(forall|u: int|
                            0 <= u < prev.len() ==> #[trigger] out@[u] == prev[u]);
                        assert(out@[prev.len() as int].0.offset == pos);
                        assert forall|t: int| #![trigger found@[t]]
                            0 <= t < i + 1 implies match self.spec_memo()[(
                            T::spec_id(),
                            found@[t].0 as int,
                        )] {
                            Some(pk) => (exists|w: T| w.spec_packed() == pk) ==> exists|u: int|
                                0 <= u < out@.len() && out@[u].0.offset == found@[t].0,
                            None => true,
                        } by {
                            if t == i as int {
                                assert(out@[prev.len() as int].0.offset == found@[t].0);
                            } else if match self.spec_memo()[(T::spec_id(), found@[t].0 as int)] {
                                Some(pk) => exists|w: T| w.spec_packed() == pk,
                                None => false,
                            } {
                                let u = choose|u: int|
                                    0 <= u < prev.len() && prev[u].0.offset == found@[t].0;
                                assert(out@[u] == prev[u]);
                            }
                        }
                    }
                },
                None => {
                    proof {
                        assert(!(exists|w: T| w.spec_packed() == *found@[i as int].1));
                    }
                },
            }
            i = i + 1;
        }
        proof {
            assert forall|p: int|
                #![trigger self.spec_memo()[(T::spec_id(), p)]]
                self.spec_memo().contains_key((T::spec_id(), p)) implies match self.spec_memo()[(
                T::spec_id(),
                p,
            )] {
                Some(pk) => (exists|w: T| w.spec_packed() == pk) ==> exists|i2: int|
                    0 <= i2 < out@.len() && out@[i2].0.offset as int == p,
                None => true,
            } by {
                if self.spec_memo()[(T::spec_id(), p)] is Some {
                    let t = choose|t: int| 0 <= t < found@.len() && found@[t].0 == p;
                    assert(found@[t].0 == p);
                }
            }
        }
        out
    }
}


/// The diagnostic phrase for a sorted list of expected names: `expected X`
/// for one name, `expected one of X, Y, or Z` for several.
pub open spec fn reason_spec(ns: Seq<Seq<char>>) -> Seq<char> {
    if ns.len() == 0 {
        Seq::empty()
    } else if ns.len() == 1 {
        "expected "@ + ns[0]
    } else {
        "expected one of "@ + ns[0] + reason_tail(ns, 1)
    }
}

/// The names after the first, each with its separator, the last with `, or`.
pub open spec fn reason_tail(ns: Seq<Seq<char>>, i: int) -> Seq<char>
    decreases ns.len() - i,
{
    if i < 0 || i >= ns.len() {
        Seq::empty()
    } else {
        (if i + 1 == ns.len() {
            ", or "@
        } else {
            ", "@
        }) + ns[i] + reason_tail(ns, i + 1)
    }
}

/// The names are in byte-wise lexicographic order of their UTF-8 encodings.
pub open spec fn sorted_by_lex(ns: Seq<Seq<char>>) -> bool {
    forall|i: int, j: int|
        0 <= i < j < ns.len() ==> crate::render::lex_le(
            vstd::utf8::encode_utf8(#[trigger] ns[i]),
            vstd::utf8::encode_utf8(#[trigger] ns[j]),
        )
}

/// `ns` is the expected names of `items`, sorted, and `out` is their phrase.
pub open spec fn reason_ok(
    items: Seq<(u64, Seq<char>)>,
    ns: Seq<Seq<char>>,
    out: Seq<char>,
) -> bool {
    &&& ns.to_multiset() == items.map_values(|p: (u64, Seq<char>)| p.1).to_multiset()
    &&& sorted_by_lex(ns)
    &&& out == reason_spec(ns)
}

/// The byte offset at which the line holding offset `pos` starts.
pub open spec fn line_start_of(tb: Seq<u8>, pos: int) -> int
    decreases pos,
{
    if pos <= 0 {
        0
    } else if tb[pos - 1] == 10 {
        pos
    } else {
        line_start_of(tb, pos - 1)
    }
}

/// The byte offset at which the line holding offset `pos` ends: the next
/// newline, or the end of the text.
pub open spec fn line_end_of(tb: Seq<u8>, pos: int) -> int
    decreases tb.len() - pos,
{
    if pos < 0 || pos >= tb.len() {
        tb.len() as int
    } else if tb[pos] == 10 {
        pos
    } else {
        line_end_of(tb, pos + 1)
    }
}

/// The rendered diagnostic: the phrase, the location line, and an excerpt of
/// the offending line with a caret under the failure column.
pub open spec fn message_spec(
    reason: Seq<char>,
    tb: Seq<u8>,
    pos: int,
    path: Seq<char>,
    excerpt: Seq<char>,
    line: int,
    col: int,
) -> Seq<char> {
    reason + (if pos == tb.len() {
        ", reached EOS"@
    } else {
        Seq::<char>::empty()
    }) + "\n"@ + "  --> "@ + path + ":"@ + crate::render::dec_spec(line as nat) + ":"@
        + crate::render::dec_spec(col as nat) + "\n"@ + crate::render::spaces_spec(
        crate::render::dec_spec(line as nat).len(),
    ) + " |\n"@ + crate::render::dec_spec(line as nat) + " | "@ + excerpt + "\n"@
        + crate::render::spaces_spec(crate::render::dec_spec(line as nat).len()) + " | "@
        + crate::render::spaces_spec((col - 1) as nat) + "^ "@ + reason + "\n"@
}

/// Parse error.
pub struct ParseError {
    text: String,
    expected: Expected,
    file_path: String,
}

impl<'a> Parser<'a> {
    /// Borrows the expected record for diagnostics.
    pub fn expected(&self) -> (r: &Expected)
        ensures
            r.spec_position() == self.spec_expected_pos(),
            r.spec_level() == self.spec_expected_level(),
            r.spec_items() == self.spec_expected_items(),
    {
        &self.expected
    }

    /// Converts [`Parser`] into [`ParseError`].
    ///
    /// You should call this method only when [`Parser::parse`] returned `None`.
    pub fn into_parse_error(self) -> (r: ParseError)
        requires
            self.wf(),
        ensures
            r.wf(),
            r.spec_text_chars() == self.spec_chars(),
            r.spec_expected_pos() == self.spec_expected_pos(),
            r.spec_expected_items() == self.spec_expected_items(),
            r.spec_file_path() == "<UNKNOWN>"@,
    {
        proof {
            assert(self.text.spec_bytes() == vstd::utf8::encode_utf8(self.text@));
        }
        let owned = self.text.to_owned();
        let r = ParseError {
            text: owned,
            expected: self.expected,
            file_path: String::from_str("<UNKNOWN>"),
        };
        proof {
            assert(r.spec_text_chars() == self.spec_chars());
            assert(r.spec_text_bytes() == self.spec_text());
            assert(valid_utf8(r.spec_text_bytes()));
            assert(0 <= r.spec_expected_pos() <= r.spec_text_bytes().len());
            assert(r.spec_text_bytes().len() <= usize::MAX);
            assert(is_char_boundary(r.spec_text_bytes(), r.spec_expected_pos()));
        }
        r
    }
}

impl ParseError {
    /// The parsed text, as characters.
    pub closed spec fn spec_text_chars(&self) -> Seq<char> {
        self.text@
    }

    /// The parsed text, as UTF-8 bytes.
    pub open spec fn spec_text_bytes(&self) -> Seq<u8> {
        vstd::utf8::encode_utf8(self.spec_text_chars())
    }

    /// The failure position the diagnostic points at.
    pub closed spec fn spec_expected_pos(&self) -> int {
        self.expected.spec_position()
    }

    /// The expected items at that position.
    pub closed spec fn spec_expected_items(&self) -> Seq<(u64, Seq<char>)> {
        self.expected.spec_items()
    }

    /// The source identifier used in the diagnostic.
    pub closed spec fn spec_file_path(&self) -> Seq<char> {
        self.file_path@
    }

    /// Well-formedness: the failure position lies in the text, on a character
    /// boundary.
    pub open spec fn wf(&self) -> bool {
        &&& valid_utf8(self.spec_text_bytes())
        &&& 0 <= self.spec_expected_pos() <= self.spec_text_bytes().len()
        &&& self.spec_text_bytes().len() <= usize::MAX
        &&& is_char_boundary(self.spec_text_bytes(), self.spec_expected_pos())
    }

    /// Sets the file path of the parse target text.
    ///
    /// The default value is `<UNKNOWN>`.
    pub fn file_path(self, file_path: &str) -> (r: Self)
        ensures
            r.wf() == self.wf(),
            r.spec_text_chars() == self.spec_text_chars(),
            r.spec_expected_pos() == self.spec_expected_pos(),
            r.spec_expected_items() == self.spec_expected_items(),
            r.spec_file_path() == file_path@,
    {
        ParseError { text: self.text, expected: self.expected, file_path: file_path.to_owned() }
    }

    /// The position the diagnostic points at.
    pub fn position(&self) -> (r: Position)
        ensures
            r.offset as int == self.spec_expected_pos(),
    {
        self.expected.position()
    }

    /// The phrase naming what was expected at the failure position, its names
    /// sorted.
    pub fn error_reason(&self) -> (r: String)
        ensures
            exists|ns: Seq<Seq<char>>| reason_ok(self.spec_expected_items(), ns, r@),
    {
        let names = self.expected.items();
        let ghost raw = names@;
        let sorted = crate::render::sort_names(names);
        let ghost ns = sorted@.map_values(|x: String| x@);
        proof {
            assert(raw.map_values(|x: String| x@) =~= self.spec_expected_items().map_values(
                |p: (u64, Seq<char>)| p.1,
            ));
            assert(ns.to_multiset() == self.spec_expected_items().map_values(
                |p: (u64, Seq<char>)| p.1,
            ).to_multiset());
            assert forall|i: int, j: int|
                0 <= i < j < ns.len() implies crate::render::lex_le(
                vstd::utf8::encode_utf8(#[trigger] ns[i]),
                vstd::utf8::encode_utf8(#[trigger] ns[j]),
            ) by {
                assert(crate::render::lex_le(
                    crate::render::string_bytes(sorted@[i]),
                    crate::render::string_bytes(sorted@[j]),
                ));
            }
        }
        let n = sorted.len();
        let mut s = String::new();
        if n == 0 {
            proof {
                assert(s@ =~= reason_spec(ns));
            }
        } else if n == 1 {
            s.append("expected ");
            s.append(sorted[0].as_str());
            proof {
                assert(s@ =~= reason_spec(ns));
            }
        } else {
            s.append("expected one of ");
            s.append(sorted[0].as_str());
            let mut i: usize = 1;
            proof {
                assert(s@ + reason_tail(ns, 1) =~= reason_spec(ns));
            }
            while i < n
                invariant
                    1 <= i <= n,
                    n == sorted@.len(),
                    n == ns.len(),
                    n >= 2,
                    ns == sorted@.map_values(|x: String| x@),
                    reason_spec(ns) == s@ + reason_tail(ns, i as int),
                decreases n - i,
            {
                if i + 1 == n {
                    s.append(", or ");
                } else {
                    s.append(", ");
                }
                s.append(sorted[i].as_str());
                proof {
                    assert(ns[i as int] == sorted@[i as int]@);
                    assert(s@ + reason_tail(ns, i as int + 1) =~= reason_spec(ns));
                }
                i = i + 1;
            }
            proof {
                assert(reason_tail(ns, n as int) =~= Seq::<char>::empty());
                assert(s@ =~= reason_spec(ns));
            }
        }
        proof {
            assert(reason_ok(self.spec_expected_items(), ns, s@));
        }
        s
    }

    /// Renders the whole diagnostic: the expected phrase (with `, reached
    /// EOS` at the end of the input), the `--> path:line:column` location,
    /// and the offending line with a caret under the failure column.
    pub fn message(&self) -> (r: String)
        requires
            self.wf(),
            self.spec_expected_pos() < usize::MAX,
        ensures
            exists|ns: Seq<Seq<char>>|
                #![trigger reason_spec(ns)]
                {
                    let tb = self.spec_text_bytes();
                    let pos = self.spec_expected_pos();
                    &&& reason_ok(self.spec_expected_items(), ns, reason_spec(ns))
                    &&& r@ == message_spec(
                        reason_spec(ns),
                        tb,
                        pos,
                        self.spec_file_path(),
                        vstd::utf8::decode_utf8(
                            tb.subrange(line_start_of(tb, pos), line_end_of(tb, pos)),
                        ),
                        spec_line_col(tb, pos).0,
                        spec_line_col(tb, pos).1,
                    )
                },
    {
        let ghost tb = self.spec_text_bytes();
        let ghost pos_g = self.spec_expected_pos();
        let reason = self.error_reason();
        let ghost ns = choose|ns: Seq<Seq<char>>|
            reason_ok(self.spec_expected_items(), ns, reason@);
        let pos = self.expected.position().get();
        let text = self.text.as_str();
        let tlen = crate::text::str_byte_len(text);
        let (line, col) = self.expected.position().line_and_column(text);
        proof {
            lemma_line_col_positive(tb, pos as int);
            lemma_line_bounds(tb, pos as int);
        }
        let mut s = String::new();
        s.append(reason.as_str());
        if pos == tlen {
            s.append(", reached EOS");
        }
        s.append("\n");
        s.append("  --> ");
        s.append(self.file_path.as_str());
        s.append(":");
        let line_str = crate::render::dec_u64(line as u64);
        s.append(line_str.as_str());
        s.append(":");
        let col_str = crate::render::dec_u64(col as u64);
        s.append(col_str.as_str());
        s.append("\n");
        let pad = crate::render::spaces(line_str.as_str().unicode_len());
        s.append(pad.as_str());
        s.append(" |\n");
        s.append(line_str.as_str());
        s.append(" | ");
        let bytes = text.as_bytes();
        let mut ls: usize = pos;
        while ls > 0 && bytes[ls - 1] != 10
            invariant
                ls <= pos,
                pos <= bytes@.len(),
                bytes@ == tb,
                tb == self.spec_text_bytes(),
                pos == pos_g,
                line_start_of(tb, pos as int) == line_start_of(tb, ls as int),
            decreases ls,
        {
            ls = ls - 1;
        }
        let mut le: usize = pos;
        while le < tlen && bytes[le] != 10
            invariant
                pos <= le <= tlen,
                tlen == bytes@.len(),
                bytes@ == tb,
                tb == self.spec_text_bytes(),
                pos == pos_g,
                line_end_of(tb, pos as int) == line_end_of(tb, le as int),
            decreases tlen - le,
        {
            le = le + 1;
        }
        proof {
            assert(line_start_of(tb, pos as int) == ls as int);
            assert(line_end_of(tb, pos as int) == le as int);
            vstd::utf8::valid_utf8_split(tb, ls as int);
            crate::span::lemma_char_boundary_shift(tb, ls as int, le as int);
        }
        let (_, suffix) = text.split_at(ls);
        let (excerpt, _) = suffix.split_at(le - ls);
        proof {
            assert(excerpt.spec_bytes() =~= tb.subrange(ls as int, le as int));
            vstd::utf8::encode_utf8_decode_utf8(excerpt@);
            assert(excerpt@ == vstd::utf8::decode_utf8(tb.subrange(ls as int, le as int)));
        }
        s.append(excerpt);
        s.append("\n");
        s.append(pad.as_str());
        s.append(" | ");
        let caret_pad = crate::render::spaces(col - 1);
        s.append(caret_pad.as_str());
        s.append("^ ");
        s.append(reason.as_str());
        s.append("\n");
        proof {
            assert(s@ =~= message_spec(
                reason_spec(ns),
                tb,
                pos as int,
                self.spec_file_path(),
                vstd::utf8::decode_utf8(
                    tb.subrange(line_start_of(tb, pos as int), line_end_of(tb, pos as int)),
                ),
                spec_line_col(tb, pos as int).0,
                spec_line_col(tb, pos as int).1,
            ));
        }
        s
    }
}


/// The line and column of a position are both at least one.
proof fn lemma_line_col_positive(tb: Seq<u8>, end: int)
    ensures
        spec_line_col(tb, end).0 >= 1,
        spec_line_col(tb, end).1 >= 1,
    decreases end,
{
    if end > 0 {
        lemma_line_col_positive(tb, end - 1);
    }
}

/// The line around a boundary position starts and ends at boundaries that
/// enclose it.
proof fn lemma_line_bounds(tb: Seq<u8>, pos: int)
    requires
        valid_utf8(tb),
        0 <= pos <= tb.len(),
        is_char_boundary(tb, pos),
    ensures
        0 <= line_start_of(tb, pos) <= pos <= line_end_of(tb, pos) <= tb.len(),
        is_char_boundary(tb, line_start_of(tb, pos)),
        is_char_boundary(tb, line_end_of(tb, pos)),
{
    lemma_line_start_shape(tb, pos);
    lemma_line_end_shape(tb, pos);
    let ls = line_start_of(tb, pos);
    let le = line_end_of(tb, pos);
    if ls > 0 {
        assert(tb[ls - 1] == 10);
        vstd::utf8::is_char_boundary_iff_not_is_continuation_byte(tb, ls - 1);
        crate::text::lemma_boundary_after_char(tb, ls - 1);
        assert(vstd::utf8::is_leading_byte_width_1(tb[ls - 1]));
        assert(crate::text::char_width_at(tb, ls - 1) == 1);
    }
    if le < tb.len() {
        assert(tb[le] == 10);
        vstd::utf8::is_char_boundary_iff_not_is_continuation_byte(tb, le);
    } else {
        vstd::utf8::is_char_boundary_start_end_of_seq(tb);
    }
}

/// The start of a line is the text's start or is preceded by a newline, and
/// lies at or before the position.
proof fn lemma_line_start_shape(tb: Seq<u8>, pos: int)
    requires
        0 <= pos,
    ensures
        0 <= line_start_of(tb, pos) <= pos,
        line_start_of(tb, pos) > 0 ==> tb[line_start_of(tb, pos) - 1] == 10,
    decreases pos,
{
    if pos > 0 && tb[pos - 1] != 10 {
        lemma_line_start_shape(tb, pos - 1);
    }
}

/// The end of a line is the text's end or holds a newline, and lies at or
/// after the position.
proof fn lemma_line_end_shape(tb: Seq<u8>, pos: int)
    requires
        0 <= pos <= tb.len(),
    ensures
        pos <= line_end_of(tb, pos) <= tb.len(),
        line_end_of(tb, pos) < tb.len() ==> tb[line_end_of(tb, pos)] == 10,
    decreases tb.len() - pos,
{
    if pos < tb.len() && tb[pos] != 10 {
        lemma_line_end_shape(tb, pos + 1);
    }
}

} // verus!
