//! Small text-building helpers for diagnostics: ordering names, rendering
//! numbers, and padding.
use vstd::prelude::*;
use vstd::multiset::Multiset;
use vstd::string::StringSliceAdditionalSpecFns;
use vstd::utf8::is_scalar;

verus! {

/// Byte-wise lexicographic order; for UTF-8 encoded text this is the
/// character-wise lexicographic order as well.
pub open spec fn lex_le(a: Seq<u8>, b: Seq<u8>) -> bool
    decreases a.len(),
{
    if a.len() == 0 {
        true
    } else if b.len() == 0 {
        false
    } else if a[0] < b[0] {
        true
    } else if a[0] > b[0] {
        false
    } else {
        lex_le(a.drop_first(), b.drop_first())
    }
}

/// Compares two strings in byte-wise lexicographic order.
pub fn str_le(a: &str, b: &str) -> (r: bool)
    ensures
        r == lex_le(a.spec_bytes(), b.spec_bytes()),
{
    let ab = a.as_bytes();
    let bb = b.as_bytes();
    let an = ab.len();
    let bn = bb.len();
    let mut i: usize = 0;
    proof {
        assert(ab@.skip(0) =~= ab@);
        assert(bb@.skip(0) =~= bb@);
    }
    loop
        invariant
            i <= an,
            i <= bn,
            an == ab@.len(),
            bn == bb@.len(),
            ab@ == a.spec_bytes(),
            bb@ == b.spec_bytes(),
            lex_le(a.spec_bytes(), b.spec_bytes()) == lex_le(
                ab@.skip(i as int),
                bb@.skip(i as int),
            ),
        ensures
            i <= an,
            i <= bn,
            lex_le(a.spec_bytes(), b.spec_bytes()) == lex_le(
                ab@.skip(i as int),
                bb@.skip(i as int),
            ),
            (i == an) || (i == bn) || ab@[i as int] != bb@[i as int],
        decreases an - i,
    {
        if i == an || i == bn {
            break;
        }
        if ab[i] != bb[i] {
            break;
        }
        proof {
            assert(ab@.skip(i as int)[0] == ab@[i as int]);
            assert(bb@.skip(i as int)[0] == bb@[i as int]);
            assert(ab@.skip(i as int).drop_first() =~= ab@.skip(i as int + 1));
            assert(bb@.skip(i as int).drop_first() =~= bb@.skip(i as int + 1));
        }
        i = i + 1;
    }
    proof {
        if i < an {
            assert(ab@.skip(i as int)[0] == ab@[i as int]);
        }
        if i < bn {
            assert(bb@.skip(i as int)[0] == bb@[i as int]);
        }
        if i == an {
            assert(ab@.skip(i as int) =~= Seq::<u8>::empty());
        }
        if i == bn {
            assert(bb@.skip(i as int) =~= Seq::<u8>::empty());
        }
    }
    if i == an {
        true
    } else if i == bn {
        false
    } else {
        ab[i] < bb[i]
    }
}

/// The UTF-8 bytes of a string's text.
pub open spec fn string_bytes(s: String) -> Seq<u8> {
    vstd::utf8::encode_utf8(s@)
}

/// The multiset of the texts of a list of names.
pub open spec fn name_multiset(names: Seq<String>) -> Multiset<Seq<char>> {
    names.map_values(|s: String| s@).to_multiset()
}

/// Sorts names in byte-wise lexicographic order, keeping exactly the same
/// texts.
pub fn sort_names(names: Vec<String>) -> (r: Vec<String>)
    ensures
        name_multiset(r@) == name_multiset(names@),
        forall|i: int, j: int|
            0 <= i < j < r@.len() ==> lex_le(
                string_bytes(#[trigger] r@[i]),
                string_bytes(#[trigger] r@[j]),
            ),
{
    let mut rest = names;
    let mut out: Vec<String> = Vec::new();
    proof {
        let f = |s: String| s@;
        let e = out@.map_values(f);
        e.to_multiset_ensures();
        assert(e.to_multiset().len() == 0);
        assert forall|a: Seq<char>| #[trigger] name_multiset(out@).count(a) == 0 by {
            assert(!e.contains(a));
        }
        assert(name_multiset(out@).add(name_multiset(rest@)) =~= name_multiset(names@));
    }
    loop
        invariant
            name_multiset(out@).add(name_multiset(rest@)) == name_multiset(names@),
            forall|i: int, j: int|
                0 <= i < j < out@.len() ==> lex_le(
                    string_bytes(#[trigger] out@[i]),
                    string_bytes(#[trigger] out@[j]),
                ),
            forall|i: int, j: int|
                0 <= i < out@.len() && 0 <= j < rest@.len() ==> lex_le(
                    string_bytes(#[trigger] out@[i]),
                    string_bytes(#[trigger] rest@[j]),
                ),
        ensures
            rest@.len() == 0,
        decreases rest@.len(),
    {
        if rest.len() == 0 {
            break;
        }
        // find the least remaining name
        let mut min: usize = 0;
        let mut k: usize = 1;
        proof {
            lemma_lex_le_refl(string_bytes(rest@[0]));
        }
        while k < rest.len()
            invariant
                min < k <= rest@.len(),
                forall|j: int|
                    0 <= j < k ==> lex_le(
                        string_bytes(rest@[min as int]),
                        string_bytes(#[trigger] rest@[j]),
                    ),
            decreases rest@.len() - k,
        {
            if !str_le(rest[min].as_str(), rest[k].as_str()) {
                proof {
                    lemma_lex_le_total(
                        string_bytes(rest@[min as int]),
                        string_bytes(rest@[k as int]),
                    );
                    assert forall|j: int|
                        0 <= j < k + 1 implies lex_le(
                        string_bytes(rest@[k as int]),
                        string_bytes(#[trigger] rest@[j]),
                    ) by {
                        if j < k {
                            lemma_lex_le_trans(
                                string_bytes(rest@[k as int]),
                                string_bytes(rest@[min as int]),
                                string_bytes(rest@[j]),
                            );
                        } else {
                            lemma_lex_le_refl(string_bytes(rest@[k as int]));
                        }
                    }
                }
                min = k;
            } else {
                proof {
                    assert forall|j: int|
                        0 <= j < k + 1 implies lex_le(
                        string_bytes(rest@[min as int]),
                        string_bytes(#[trigger] rest@[j]),
                    ) by {
                        if j == k as int {
                        }
                    }
                }
            }
            k = k + 1;
        }
        let ghost old_rest = rest@;
        let ghost old_out = out@;
        let picked = rest.remove(min);
        out.push(picked);
        proof {
            assert(out@ == old_out.push(picked));
            assert(forall|i: int| 0 <= i < old_out.len() ==> #[trigger] out@[i] == old_out[i]);
            assert(out@[old_out.len() as int] == picked);
            assert(forall|j: int|
                0 <= j < min ==> #[trigger] rest@[j] == old_rest[j]);
            assert(forall|j: int|
                min <= j < rest@.len() ==> #[trigger] rest@[j] == old_rest[j + 1]);
            lemma_remove_push_multiset(old_out, old_rest, out@, rest@, min as int);
        }
    }
    proof {
        let f = |s: String| s@;
        let e = rest@.map_values(f);
        e.to_multiset_ensures();
        assert(e.to_multiset().len() == 0);
        assert forall|a: Seq<char>| #[trigger] name_multiset(rest@).count(a) == 0 by {
            assert(!e.contains(a));
        }
        assert(name_multiset(out@) =~= name_multiset(names@));
    }
    out
}

/// The order is total: of two byte sequences, one is less-or-equal the other.
proof fn lemma_lex_le_total(a: Seq<u8>, b: Seq<u8>)
    ensures
        lex_le(a, b) || lex_le(b, a),
    decreases a.len(),
{
    if a.len() > 0 && b.len() > 0 && a[0] == b[0] {
        lemma_lex_le_total(a.drop_first(), b.drop_first());
    }
}

/// The order is reflexive.
proof fn lemma_lex_le_refl(a: Seq<u8>)
    ensures
        lex_le(a, a),
    decreases a.len(),
{
    if a.len() > 0 {
        lemma_lex_le_refl(a.drop_first());
    }
}

/// The order is transitive.
proof fn lemma_lex_le_trans(a: Seq<u8>, b: Seq<u8>, c: Seq<u8>)
    requires
        lex_le(a, b),
        lex_le(b, c),
    ensures
        lex_le(a, c),
    decreases a.len(),
{
    if a.len() > 0 && b.len() > 0 && c.len() > 0 && a[0] == b[0] && b[0] == c[0] {
        lemma_lex_le_trans(a.drop_first(), b.drop_first(), c.drop_first());
    }
}

/// Moving one element out of `rest` into `out` keeps the combined multiset.
proof fn lemma_remove_push_multiset(
    old_out: Seq<String>,
    old_rest: Seq<String>,
    new_out: Seq<String>,
    new_rest: Seq<String>,
    at: int,
)
    requires
        0 <= at < old_rest.len(),
        new_out == old_out.push(old_rest[at]),
        new_rest == old_rest.remove(at),
    ensures
        name_multiset(new_out).add(name_multiset(new_rest)) == name_multiset(old_out).add(
            name_multiset(old_rest),
        ),
{
    let f = |s: String| s@;
    let x = old_rest[at]@;
    let oo = old_out.map_values(f);
    let or0 = old_rest.map_values(f);
    assert(new_out.map_values(f) =~= oo.push(x));
    assert(new_rest.map_values(f) =~= or0.remove(at));
    oo.to_multiset_ensures();
    or0.to_multiset_ensures();
    assert(new_out.map_values(f).to_multiset() =~= oo.to_multiset().insert(x));
    assert(or0[at] == x);
    assert(new_rest.map_values(f).to_multiset() =~= or0.to_multiset().remove(x));
    assert(or0.contains(x)) by {
        assert(or0[at] == x);
    }
    assert(or0.to_multiset().count(x) > 0);
    assert(name_multiset(new_out).add(name_multiset(new_rest)) =~= name_multiset(old_out).add(
        name_multiset(old_rest),
    ));
}

/// The decimal digits of a number, most significant first.
pub open spec fn dec_spec(n: nat) -> Seq<char>
    decreases n,
{
    if n < 10 {
        seq![((48 + n) as u32) as char]
    } else {
        dec_spec(n / 10).push(((48 + n % 10) as u32) as char)
    }
}

/// Renders a number in decimal.
pub fn dec_u64(n: u64) -> (r: String)
    ensures
        r@ == dec_spec(n as nat),
    decreases n,
{
    let digit: u32 = 48 + (n % 10) as u32;
    proof {
        assert(is_scalar(digit));
    }
    let c = match char::from_u32(digit) {
        Some(c) => c,
        None => vstd::pervasive::unreached(),
    };
    proof {
        vstd::utf8::char_u32_cast(c, digit);
    }
    if n < 10 {
        let mut s = String::new();
        crate::text::push_char(&mut s, c);
        proof {
            assert(s@ =~= dec_spec(n as nat));
        }
        s
    } else {
        let mut s = dec_u64(n / 10);
        crate::text::push_char(&mut s, c);
        proof {
            assert(s@ =~= dec_spec(n as nat));
        }
        s
    }
}

/// A run of spaces.
pub open spec fn spaces_spec(n: nat) -> Seq<char> {
    Seq::new(n, |i: int| ' ')
}

/// Builds a run of `n` spaces.
pub fn spaces(n: usize) -> (r: String)
    ensures
        r@ == spaces_spec(n as nat),
{
    let mut s = String::new();
    let mut i: usize = 0;
    while i < n
        invariant
            i <= n,
            s@ =~= spaces_spec(i as nat),
        decreases n - i,
    {
        crate::text::push_char(&mut s, ' ');
        proof {
            assert(s@ =~= spaces_spec(i as nat + 1));
        }
        i = i + 1;
    }
    s
}

} // verus!
