//! The memo table: one recorded outcome per component identity and start position.
use vstd::prelude::*;

verus! {

/// A parse outcome in a single shape that the memo table can hold for every
/// component type. A component packs its value into this tree when the outcome
/// is recorded and recovers it exactly on a later memo hit.
pub struct Packed {
    /// The start offset of the packed value's span.
    pub start: usize,
    /// The end offset of the packed value's span.
    pub end: usize,
    /// The payload beyond the span.
    pub data: PackedData,
}

/// The payload of a [`Packed`] outcome.
pub enum PackedData {
    /// No payload beyond the span.
    Unit,
    /// A single character.
    Ch(char),
    /// A small number, such as a digit value.
    Byte(u8),
    /// A tagged alternative: which branch was taken, and its value.
    Tag(u8, Box<Packed>),
    /// A single wrapped value.
    One(Box<Packed>),
    /// Two values side by side.
    Two(Box<Packed>, Box<Packed>),
    /// The empty list.
    Nil,
}

/// One recorded outcome: `None` marks a failure or an attempt still in
/// progress, `Some` holds the packed success value.
struct MemoEntry {
    id: u64,
    pos: usize,
    outcome: Option<Packed>,
}

/// The key of an entry: component identity and start position.
spec fn entry_key(e: MemoEntry) -> (u64, int) {
    (e.id, e.pos as int)
}

/// True when no later entry shadows the entry at index `j`.
spec fn live_at(s: Seq<MemoEntry>, j: int) -> bool {
    forall|l: int| j < l < s.len() ==> entry_key(s[l]) != entry_key(s[j])
}

/// The mapping that a sequence of entries stands for; a later entry for the
/// same key shadows an earlier one.
spec fn map_of(s: Seq<MemoEntry>) -> Map<(u64, int), Option<Packed>>
    decreases s.len(),
{
    if s.len() == 0 {
        Map::empty()
    } else {
        map_of(s.drop_last()).insert(entry_key(s.last()), s.last().outcome)
    }
}

/// The memo table itself: a record of every attempted `(component, position)`
/// pair and its outcome.
pub struct MemoTable {
    entries: Vec<MemoEntry>,
}

impl View for MemoTable {
    type V = Map<(u64, int), Option<Packed>>;

    closed spec fn view(&self) -> Map<(u64, int), Option<Packed>> {
        map_of(self.entries@)
    }
}

/// An entry that no later entry shadows gives the mapping's value at its key.
proof fn lemma_live_entry(s: Seq<MemoEntry>, i: int)
    requires
        0 <= i < s.len(),
        forall|j: int| i < j < s.len() ==> entry_key(s[j]) != entry_key(s[i]),
    ensures
        map_of(s).contains_key(entry_key(s[i])),
        map_of(s)[entry_key(s[i])] == s[i].outcome,
    decreases s.len(),
{
    if i == s.len() - 1 {
    } else {
        lemma_live_entry(s.drop_last(), i);
    }
}

/// A key under which no entry stands is not in the mapping.
proof fn lemma_absent_key(s: Seq<MemoEntry>, k: (u64, int))
    requires
        forall|j: int| 0 <= j < s.len() ==> entry_key(s[j]) != k,
    ensures
        !map_of(s).contains_key(k),
    decreases s.len(),
{
    if s.len() > 0 {
        lemma_absent_key(s.drop_last(), k);
    }
}

impl MemoTable {
    /// Makes an empty memo table.
    pub fn new() -> (r: Self)
        ensures
            r@ == Map::<(u64, int), Option<Packed>>::empty(),
    {
        MemoTable { entries: Vec::new() }
    }

    /// Looks up the recorded outcome for the given component identity and position.
    pub fn get(&self, id: u64, pos: usize) -> (r: Option<&Option<Packed>>)
        ensures
            match r {
                Some(o) => self@.contains_key((id, pos as int)) && *o == self@[(id, pos as int)],
                None => !self@.contains_key((id, pos as int)),
            },
    {
        let ghost k = (id, pos as int);
        let n = self.entries.len();
        let mut i = n;
        while i > 0
            invariant
                i <= n,
                n == self.entries@.len(),
                k == (id, pos as int),
                forall|j: int| i <= j < n ==> entry_key(self.entries@[j]) != k,
            decreases i,
        {
            i = i - 1;
            let e = &self.entries[i];
            if e.id == id && e.pos == pos {
                proof {
                    lemma_live_entry(self.entries@, i as int);
                }
                return Some(&e.outcome);
            } else {
                proof {
                    assert(entry_key(self.entries@[i as int]) != k);
                }
            }
        }
        proof {
            lemma_absent_key(self.entries@, k);
        }
        None
    }

    /// Records an outcome, shadowing any earlier record for the same key.
    pub fn set(&mut self, id: u64, pos: usize, outcome: Option<Packed>)
        ensures
            final(self)@ == old(self)@.insert((id, pos as int), outcome),
    {
        let entry = MemoEntry { id, pos, outcome };
        self.entries.push(entry);
        proof {
            assert(self.entries@.drop_last() =~= old(self).entries@);
        }
    }

    /// The recorded positions, in ascending order, of every success recorded
    /// under the given component identity, with the packed values.
    #[verifier::rlimit(100)]
    #[verifier::spinoff_prover]
    pub fn successes(&self, id: u64) -> (r: Vec<(usize, &Packed)>)
        ensures
            forall|i: int|
                0 <= i < r@.len() ==> self@.contains_key((id, r@[i].0 as int)) && self@[(
                    id,
                    r@[i].0 as int,
                )] == Some(*r@[i].1),
            forall|p: int|
                #![trigger self@[(id, p)]]
                self@.contains_key((id, p)) && self@[(id, p)] is Some ==> exists|i: int|
                    0 <= i < r@.len() && r@[i].0 == p,
            forall|i: int, j: int| 0 <= i < j < r@.len() ==> r@[i].0 < r@[j].0,
    {
        let n = self.entries.len();
        let mut out: Vec<(usize, &Packed)> = Vec::new();
        let mut i: usize = 0;
        while i < n
            invariant
                i <= n,
                n == self.entries@.len(),
                forall|t: int|
                    0 <= t < out@.len() ==> self@.contains_key((id, out@[t].0 as int)) && self@[(
                        id,
                        out@[t].0 as int,
                    )] == Some(*out@[t].1),
                forall|j: int|
                    #![trigger self.entries@[j]]
                    0 <= j < i && self.entries@[j].id == id && live_at(self.entries@, j)
                        && self.entries@[j].outcome is Some ==> exists|t: int|
                        0 <= t < out@.len() && out@[t].0 == self.entries@[j].pos,
                forall|a: int, b: int| 0 <= a < b < out@.len() ==> out@[a].0 < out@[b].0,
            decreases n - i,
        {
            let e = &self.entries[i];
            if e.id == id && e.outcome.is_some() {
                // keep this entry only when no later record shadows it
                let mut live = true;
                let mut j = i + 1;
                while j < n
                    invariant
                        i < j <= n,
                        n == self.entries@.len(),
                        e == &self.entries@[i as int],
                        live ==> forall|l: int|
                            i < l < j ==> entry_key(self.entries@[l]) != entry_key(
                                self.entries@[i as int],
                            ),
                        !live ==> exists|l: int|
                            i < l < n && entry_key(self.entries@[l]) == entry_key(
                                self.entries@[i as int],
                            ),
                    decreases n - j,
                {
                    let f = &self.entries[j];
                    if f.id == e.id && f.pos == e.pos {
                        live = false;
                    }
                    j = j + 1;
                }
                if live {
                    proof {
                        lemma_live_entry(self.entries@, i as int);
                    }
                    match &e.outcome {
                        Some(pk) => {
                            let ghost prev = out@;
                            out = insert_by_position(out, e.pos, pk);
                            proof {
                                assert forall|t: int|
                                    0 <= t < out@.len() implies self@.contains_key(
                                    (id, out@[t].0 as int),
                                ) && self@[(id, out@[t].0 as int)] == Some(*out@[t].1) by {
                                    if out@[t] != (e.pos, pk) {
                                        let j0 = choose|j0: int|
                                            0 <= j0 < prev.len() && out@[t] == prev[j0];
                                        assert(self@.contains_key((id, prev[j0].0 as int)));
                                    }
                                }
                                assert forall|j: int|
                                    #![trigger self.entries@[j]]
                                    0 <= j < i + 1 && self.entries@[j].id == id && live_at(
                                        self.entries@,
                                        j,
                                    ) && self.entries@[j].outcome is Some implies exists|t: int|
                                    0 <= t < out@.len() && out@[t].0 == self.entries@[j].pos by {
                                    if j == i as int {
                                        assert(exists|t: int|
                                            0 <= t < out@.len() && out@[t] == (e.pos, pk));
                                    } else {
                                        let t0 = choose|t0: int|
                                            0 <= t0 < prev.len() && prev[t0].0
                                                == self.entries@[j].pos;
                                        assert(exists|t: int|
                                            0 <= t < out@.len() && out@[t].0 == prev[t0].0);
                                    }
                                }
                            }
                        },
                        None => {
                            proof {
                                assert(false);
                            }
                        },
                    }
                }
            }
            i = i + 1;
        }
        proof {
            assert forall|p: int|
                #![trigger self@[(id, p)]]
                self@.contains_key((id, p)) && self@[(id, p)] is Some implies exists|t: int|
                0 <= t < out@.len() && out@[t].0 == p by {
                lemma_some_entry_for_key(self.entries@, (id, p));
            }
        }
        out
    }
}

/// Every key of the mapping has a live entry in the record.
proof fn lemma_some_entry_for_key(s: Seq<MemoEntry>, k: (u64, int))
    requires
        map_of(s).contains_key(k),
    ensures
        exists|j: int|
            0 <= j < s.len() && entry_key(s[j]) == k && s[j].outcome == map_of(s)[k] && (forall|
                l: int,
            |
                j < l < s.len() ==> entry_key(s[l]) != k),
    decreases s.len(),
{
    if s.len() > 0 {
        if entry_key(s.last()) == k {
            assert(entry_key(s[s.len() - 1]) == k);
        } else {
            lemma_some_entry_for_key(s.drop_last(), k);
            let j = choose|j: int|
                0 <= j < s.drop_last().len() && entry_key(s.drop_last()[j]) == k && s.drop_last()[j].outcome
                    == map_of(s.drop_last())[k] && (forall|l: int|
                    j < l < s.drop_last().len() ==> entry_key(s.drop_last()[l]) != k);
            assert(s.drop_last()[j] == s[j]);
            assert forall|l: int| j < l < s.len() implies entry_key(s[l]) != k by {
                if l < s.len() - 1 {
                    assert(s.drop_last()[l] == s[l]);
                }
            }
            assert(entry_key(s[j]) == k && s[j].outcome == map_of(s)[k] && (forall|l: int|
                j < l < s.len() ==> entry_key(s[l]) != k));
        }
    }
}

/// Puts a pair into a vector kept in ascending order of position, replacing
/// the pair with the same position if one is there.
#[verifier::rlimit(100)]
#[verifier::spinoff_prover]
fn insert_by_position<'e>(out: Vec<(usize, &'e Packed)>, pos: usize, pk: &'e Packed) -> (r: Vec<
    (usize, &'e Packed),
>)
    requires
        forall|i: int, j: int| 0 <= i < j < out@.len() ==> out@[i].0 < out@[j].0,
    ensures
        forall|i: int, j: int| 0 <= i < j < r@.len() ==> r@[i].0 < r@[j].0,
        forall|i: int|
            0 <= i < r@.len() ==> (r@[i] == (pos, pk) || exists|j: int|
                0 <= j < out@.len() && r@[i] == out@[j]),
        exists|i: int| 0 <= i < r@.len() && r@[i] == (pos, pk),
        forall|j: int|
            0 <= j < out@.len() ==> exists|i: int|
                0 <= i < r@.len() && r@[i].0 == (#[trigger] out@[j]).0,
{
    let n = out.len();
    let mut res: Vec<(usize, &'e Packed)> = Vec::new();
    let mut i: usize = 0;
    while i < n && out[i].0 < pos
        invariant
            i <= n,
            n == out@.len(),
            res@.len() == i as int,
            forall|t: int| 0 <= t < i ==> #[trigger] res@[t] == out@[t],
            forall|t: int| 0 <= t < i ==> #[trigger] out@[t].0 < pos,
        decreases n - i,
    {
        let item = out[i];
        let ghost prev = res@;
        res.push(item);
        proof {
            assert(res@ == prev.push(item));
            assert(forall|t: int| 0 <= t < prev.len() ==> #[trigger] res@[t] == prev[t]);
        }
        i = i + 1;
    }
    let ghost split = i as int;
    let ghost replaced = (i < n && out@[i as int].0 == pos);
    if i < n && out[i].0 == pos {
        i = i + 1;
    }
    proof {
        assert forall|t: int| split + if replaced { 1int } else { 0int } <= t < n implies (
        #[trigger] out@[t].0) > pos by {
            if replaced {
                assert(out@[split].0 == pos);
            } else if split < n {
                assert(out@[split].0 >= pos);
                assert(out@[split].0 != pos);
            }
        }
    }
    let ghost before_mid = res@;
    res.push((pos, pk));
    proof {
        assert(res@ == before_mid.push((pos, pk)));
        assert(forall|t: int| 0 <= t < before_mid.len() ==> #[trigger] res@[t] == before_mid[t]);
        assert(res@[split] == (pos, pk));
    }
    let ghost skip = i as int - split;
    while i < n
        invariant
            0 <= split <= split + skip <= i <= n,
            skip == if replaced { 1int } else { 0int },
            n == out@.len(),
            res@.len() == i + 1 - skip,
            forall|t: int| 0 <= t < split ==> #[trigger] res@[t] == out@[t],
            res@[split] == (pos, pk),
            forall|t: int| split < t < res@.len() ==> #[trigger] res@[t] == out@[t - 1 + skip],
            forall|t: int| 0 <= t < split ==> #[trigger] out@[t].0 < pos,
            forall|t: int| split + skip <= t < n ==> #[trigger] out@[t].0 > pos,
            replaced ==> out@[split].0 == pos,
            forall|a: int, b: int| 0 <= a < b < n ==> out@[a].0 < out@[b].0,
        decreases n - i,
    {
        let item = out[i];
        let ghost prev = res@;
        res.push(item);
        proof {
            assert(res@ == prev.push(item));
            assert(forall|t: int| 0 <= t < prev.len() ==> #[trigger] res@[t] == prev[t]);
            assert(res@[split] == (pos, pk));
            assert(res@[i - skip + 1] == out@[i as int]);
        }
        i = i + 1;
    }
    proof {
        assert forall|j: int| 0 <= j < out@.len() implies exists|t: int|
            0 <= t < res@.len() && res@[t].0 == (#[trigger] out@[j]).0 by {
            if j < split {
                assert(res@[j] == out@[j]);
            } else if j == split && replaced {
                assert(res@[split].0 == pos);
            } else {
                assert(res@[j + 1 - skip] == out@[j]);
            }
        }
        assert forall|a: int|
            0 <= a < res@.len() implies (res@[a] == (pos, pk) || exists|j: int|
                0 <= j < out@.len() && res@[a] == out@[j]) by {
            if a < split {
                assert(res@[a] == out@[a]);
            } else if a > split {
                assert(res@[a] == out@[a - 1 + skip]);
            }
        }
        assert forall|a: int, b: int| 0 <= a < b < res@.len() implies res@[a].0 < res@[b].0 by {
            if a < split {
                assert(res@[a] == out@[a]);
            } else if a > split {
                assert(res@[a] == out@[a - 1 + skip]);
            }
            if b < split {
                assert(res@[b] == out@[b]);
            } else if b > split {
                assert(res@[b] == out@[b - 1 + skip]);
            }
        }
    }
    res
}

} // verus!
