//! Cutting a string slice at byte offsets, with the proof that the offsets
//! used by the path parser always fall on character boundaries.

use vstd::prelude::*;
use vstd::string::*;
use vstd::utf8::*;

verus! {

/// A byte below `0x80` encodes a whole character by itself.
pub open spec fn is_ascii_byte(b: u8) -> bool {
    b < 0x80
}

/// The position just behind an ASCII byte is a character boundary.
pub proof fn lemma_boundary_after_ascii(bytes: Seq<u8>, i: int)
    requires
        valid_utf8(bytes),
        0 <= i < bytes.len(),
        is_ascii_byte(bytes[i]),
    ensures
        is_char_boundary(bytes, i + 1),
    decreases bytes.len(),
{
    let n = length_of_first_scalar(bytes);
    if i < n {
        assert(i == 0);
        assert(n == 1);
        reveal_with_fuel(is_char_boundary, 2);
    } else {
        lemma_boundary_after_ascii(pop_first_scalar(bytes), i - n);
    }
}

/// The position of an ASCII byte is a character boundary.
pub proof fn lemma_boundary_at_ascii(bytes: Seq<u8>, i: int)
    requires
        valid_utf8(bytes),
        0 <= i < bytes.len(),
        is_ascii_byte(bytes[i]),
    ensures
        is_char_boundary(bytes, i),
{
    is_char_boundary_iff_not_is_continuation_byte(bytes, i);
}

/// Whether `at` may bound a slice of `bytes`: it is an end of the text or
/// touches an ASCII byte on one side.
pub open spec fn is_cut(bytes: Seq<u8>, at: int) -> bool {
    &&& 0 <= at <= bytes.len()
    &&& (at == 0 || at == bytes.len() || is_ascii_byte(bytes[at - 1]) || is_ascii_byte(bytes[at]))
}

/// Every cut of valid UTF-8 is a character boundary.
pub proof fn lemma_cut_is_boundary(bytes: Seq<u8>, at: int)
    requires
        valid_utf8(bytes),
        is_cut(bytes, at),
    ensures
        is_char_boundary(bytes, at),
{
    if at == 0 || at == bytes.len() {
        is_char_boundary_start_end_of_seq(bytes);
    } else if is_ascii_byte(bytes[at - 1]) {
        lemma_boundary_after_ascii(bytes, at - 1);
    } else {
        lemma_boundary_at_ascii(bytes, at);
    }
}

/// The part of `text` between the byte offsets `from` and `to`.
pub fn slice_between<'a>(text: &'a str, from: usize, to: usize) -> (part: &'a str)
    requires
        from <= to,
        is_cut(text.spec_bytes(), from as int),
        is_cut(text.spec_bytes(), to as int),
    ensures
        part.spec_bytes() == text.spec_bytes().subrange(from as int, to as int),
{
    let ghost bytes = text.spec_bytes();
    proof {
        encode_utf8_valid_utf8(text@);
        lemma_cut_is_boundary(bytes, to as int);
    }
    let (head, _) = text.split_at(to);
    proof {
        let h = head.spec_bytes();
        assert(h == bytes.subrange(0, to as int));
        encode_utf8_valid_utf8(head@);
        if from == to {
            is_char_boundary_start_end_of_seq(h);
        } else {
            assert(is_cut(h, from as int));
            lemma_cut_is_boundary(h, from as int);
        }
    }
    let (_, part) = head.split_at(from);
    proof {
        assert(part.spec_bytes() =~= bytes.subrange(from as int, to as int));
    }
    part
}

} // verus!
