//! Where the characters of a text stand among its bytes in UTF-8.

use vstd::prelude::*;
use vstd::utf8::{char_is_scalar, encode_scalar, encode_utf8};

verus! {

/// The number of bytes that `c` takes in UTF-8.
pub open spec fn width_of(c: char) -> nat {
    encode_scalar(c as u32).len()
}

/// The offset of the first byte of the character at `k`, counted in the
/// bytes of `text`; the number of all bytes for `k` at the end of the text.
pub open spec fn offset_of(text: Seq<char>, k: int) -> int {
    encode_utf8(text.take(k)).len() as int
}

/// The bytes of two texts, one after the other, are the bytes of the one
/// followed by the bytes of the other.
pub proof fn lemma_encode_add(a: Seq<char>, b: Seq<char>)
    ensures
        encode_utf8(a + b) == encode_utf8(a) + encode_utf8(b),
    decreases a.len(),
{
    if a.len() > 0 {
        lemma_encode_add(a.drop_first(), b);
        assert((a + b).drop_first() =~= a.drop_first() + b);
    }
}

/// Every character takes from one to four bytes.
pub proof fn lemma_width_bounds(c: char)
    ensures
        1 <= width_of(c) <= 4,
{
    char_is_scalar(c);
}

/// The offsets of the characters go up by their widths, from 0 to the number
/// of bytes of the text.
pub proof fn lemma_offset_step(text: Seq<char>, k: int)
    requires
        0 <= k < text.len(),
    ensures
        offset_of(text, 0) == 0,
        offset_of(text, text.len() as int) == encode_utf8(text).len(),
        offset_of(text, k + 1) == offset_of(text, k) + width_of(text[k]),
        0 <= offset_of(text, k) < offset_of(text, k + 1) <= encode_utf8(text).len(),
{
    lemma_width_bounds(text[k]);
    assert(text.take(text.len() as int) =~= text);
    assert(text.take(k + 1) =~= text.take(k) + seq![text[k]]);
    lemma_encode_add(text.take(k), seq![text[k]]);
    assert(encode_utf8(seq![text[k]]) =~= encode_scalar(text[k] as u32)) by {
        reveal_with_fuel(encode_utf8, 2);
    }
    assert(text =~= text.take(k + 1) + text.skip(k + 1));
    lemma_encode_add(text.take(k + 1), text.skip(k + 1));
}

/// The number of bytes that `c` takes in UTF-8.
pub fn utf8_width(c: char) -> (n: usize)
    ensures
        n == width_of(c),
{
    proof {
        char_is_scalar(c);
    }
    let code: u32 = c as u32;
    if code < 0x80 {
        1
    } else if code < 0x800 {
        2
    } else if code < 0x10000 {
        3
    } else {
        4
    }
}

} // verus!
