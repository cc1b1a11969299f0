//! Reading single characters out of the input text at byte offsets.
use vstd::prelude::*;
use vstd::string::StringSliceAdditionalSpecFns;
use vstd::utf8::decode_first_scalar;
use vstd::utf8::is_char_boundary;
use vstd::utf8::is_scalar;
use vstd::utf8::length_of_first_scalar;
use vstd::utf8::valid_first_scalar;
use vstd::utf8::valid_utf8;

verus! {

/// Relies on char::from_u32: it returns the character with the given code,
/// and `None` exactly when the code is a surrogate or exceeds `char::MAX`.
pub assume_specification[ char::from_u32 ](code: u32) -> (r: Option<char>)
    ensures
        r is Some <==> is_scalar(code),
        r matches Some(c) ==> c as u32 == code,
;

/// Relies on str::len: it returns the byte length of the string, which, being
/// the size of a value in memory, always fits in `usize`.
#[verifier::external_body]
pub fn str_byte_len(s: &str) -> (r: usize)
    ensures
        r as nat == s.spec_bytes().len(),
{
    s.len()
}

/// Relies on String::push: it appends exactly the one character.
#[verifier::external_body]
pub fn push_char(s: &mut String, c: char)
    ensures
        final(s)@ == old(s)@ + seq![c],
{
    s.push(c)
}

/// The suffix of `bytes` that starts at `pos`.
pub open spec fn suffix_at(bytes: Seq<u8>, pos: int) -> Seq<u8> {
    bytes.subrange(pos, bytes.len() as int)
}

/// The character encoded at byte offset `pos` of `bytes`.
pub open spec fn char_at(bytes: Seq<u8>, pos: int) -> char {
    decode_first_scalar(suffix_at(bytes, pos)) as char
}

/// The width in bytes of the character encoded at byte offset `pos` of `bytes`.
pub open spec fn char_width_at(bytes: Seq<u8>, pos: int) -> int {
    length_of_first_scalar(suffix_at(bytes, pos))
}

/// The bytes of a `&str` are always a valid UTF-8 encoding.
pub proof fn lemma_str_valid_utf8(text: &str)
    ensures
        valid_utf8(text.spec_bytes()),
{
    vstd::utf8::encode_utf8_valid_utf8(text@);
}

/// A scalar decoded out of a valid UTF-8 encoding is a valid character code.
proof fn lemma_first_scalar_is_scalar(bytes: Seq<u8>)
    requires
        valid_first_scalar(bytes),
    ensures
        is_scalar(decode_first_scalar(bytes)),
        1 <= length_of_first_scalar(bytes) <= bytes.len(),
{
    let b0 = bytes[0];
    if vstd::utf8::is_leading_byte_width_1(b0) {
        assert(vstd::utf8::codepoint_width_1(b0) < 0xd800u32) by (bit_vector)
            requires
                0x00 <= b0 <= 0x7f,
        ;
    } else if vstd::utf8::is_leading_byte_width_2(b0) {
        let b1 = bytes[1];
        assert(vstd::utf8::codepoint_width_2(b0, b1) < 0xd800u32) by (bit_vector)
            requires
                0xc0 <= b0 <= 0xdf,
        ;
    } else if vstd::utf8::is_leading_byte_width_3(b0) {
        let b1 = bytes[1];
        let b2 = bytes[2];
        assert(vstd::utf8::codepoint_width_3(b0, b1, b2) <= 0xffffu32) by (bit_vector)
            requires
                0xe0 <= b0 <= 0xef,
        ;
    } else {
        let b1 = bytes[1];
        let b2 = bytes[2];
        let b3 = bytes[3];
        assert(vstd::utf8::codepoint_width_4(b0, b1, b2, b3) >= 0) by (bit_vector);
    }
}

/// The end of the character that starts at boundary `pos` is itself a boundary.
proof fn lemma_next_boundary(bytes: Seq<u8>, pos: int)
    requires
        valid_utf8(bytes),
        0 <= pos < bytes.len(),
        is_char_boundary(bytes, pos),
    ensures
        valid_first_scalar(suffix_at(bytes, pos)),
        pos + char_width_at(bytes, pos) <= bytes.len(),
        is_char_boundary(bytes, pos + char_width_at(bytes, pos)),
{
    let suffix = suffix_at(bytes, pos);
    vstd::utf8::valid_utf8_split(bytes, pos);
    assert(valid_first_scalar(suffix));
    lemma_first_scalar_is_scalar(suffix);
    let w = length_of_first_scalar(suffix);
    if pos + w == bytes.len() {
        vstd::utf8::is_char_boundary_start_end_of_seq(bytes);
    } else {
        assert(is_char_boundary(suffix, w)) by {
            reveal_with_fuel(vstd::utf8::is_char_boundary, 2);
            vstd::utf8::is_char_boundary_start_end_of_seq(vstd::utf8::pop_first_scalar(suffix));
        }
        vstd::utf8::is_char_boundary_iff_not_is_continuation_byte(suffix, w);
        vstd::utf8::is_char_boundary_iff_not_is_continuation_byte(bytes, pos + w);
        assert(suffix[w] == bytes[pos + w]);
    }
}

/// The position one character after a boundary is itself a boundary.
pub proof fn lemma_boundary_after_char(bytes: Seq<u8>, pos: int)
    requires
        valid_utf8(bytes),
        0 <= pos < bytes.len(),
        is_char_boundary(bytes, pos),
    ensures
        pos + char_width_at(bytes, pos) <= bytes.len(),
        is_char_boundary(bytes, pos + char_width_at(bytes, pos)),
        bytes[pos] < 0x80 ==> char_width_at(bytes, pos) == 1,
{
    lemma_next_boundary(bytes, pos);
    if bytes[pos] < 0x80 {
        let suffix = suffix_at(bytes, pos);
        assert(suffix[0] == bytes[pos]);
    }
}

/// Reads the character that starts at byte offset `pos` of `text`, together
/// with its width in bytes.
pub fn decode_char_at(text: &str, pos: usize) -> (r: (char, usize))
    requires
        pos < text.spec_bytes().len(),
        is_char_boundary(text.spec_bytes(), pos as int),
    ensures
        r.0 as u32 == decode_first_scalar(suffix_at(text.spec_bytes(), pos as int)),
        r.0 == char_at(text.spec_bytes(), pos as int),
        r.1 as int == char_width_at(text.spec_bytes(), pos as int),
        1 <= r.1,
        pos + r.1 <= text.spec_bytes().len(),
        is_char_boundary(text.spec_bytes(), pos as int + r.1 as int),
{
    let ghost tb = text.spec_bytes();
    let ghost suffix = suffix_at(tb, pos as int);
    proof {
        lemma_str_valid_utf8(text);
        lemma_next_boundary(tb, pos as int);
        lemma_first_scalar_is_scalar(suffix);
    }
    let bytes = text.as_bytes();
    let b0 = bytes[pos];
    let (code, width): (u32, usize) = if b0 < 0x80 {
        proof {
            assert((b0 & 0x7f) == b0) by (bit_vector)
                requires
                    b0 < 0x80,
            ;
        }
        (b0 as u32, 1)
    } else if b0 < 0xe0 {
        proof {
            assert(suffix[0] == tb[pos as int]);
            assert(suffix[1] == tb[pos as int + 1]);
        }
        let b1 = bytes[pos + 1];
        ((((b0 & 0x1f) as u32) << 6u32) | ((b1 & 0x3f) as u32), 2)
    } else if b0 < 0xf0 {
        proof {
            assert(suffix[0] == tb[pos as int]);
            assert(suffix[1] == tb[pos as int + 1]);
            assert(suffix[2] == tb[pos as int + 2]);
        }
        let b1 = bytes[pos + 1];
        let b2 = bytes[pos + 2];
        (
            ((((b0 & 0x0f) as u32) << 12u32) | (((b1 & 0x3f) as u32) << 6u32) | ((b2
                & 0x3f) as u32)),
            3,
        )
    } else {
        proof {
            assert(suffix[0] == tb[pos as int]);
            assert(suffix[1] == tb[pos as int + 1]);
            assert(suffix[2] == tb[pos as int + 2]);
            assert(suffix[3] == tb[pos as int + 3]);
        }
        let b1 = bytes[pos + 1];
        let b2 = bytes[pos + 2];
        let b3 = bytes[pos + 3];
        (
            ((((b0 & 0x07) as u32) << 18u32) | (((b1 & 0x3f) as u32) << 12u32) | (((b2
                & 0x3f) as u32) << 6u32) | ((b3 & 0x3f) as u32)),
            4,
        )
    };
    proof {
        assert(code == decode_first_scalar(suffix));
        assert(width as int == length_of_first_scalar(suffix));
    }
    match char::from_u32(code) {
        Some(c) => {
            proof {
                vstd::utf8::char_u32_cast(c, code);
            }
            (c, width)
        },
        None => vstd::pervasive::unreached(),
    }
}

} // verus!
