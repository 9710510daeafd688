//! Strings with a human-readable part: `HRP`, the separator `1`, `DATA`.
//!
//! The separator is the last `1` of the string; without one the whole string
//! is data and the human-readable part is empty.

use crate::alphabet::decode;
use vstd::prelude::*;
use vstd::utf8::{encode_scalar, encode_utf8};

verus! {

/// The human-readable part of `s`: what stands before the last `1`.
pub open spec fn hrp_part(s: Seq<char>) -> Seq<char> {
    match s.index_of_last('1') {
        Some(i) => s.subrange(0, i),
        None => Seq::empty(),
    }
}

/// The data part of `s`: what stands after the last `1`.
pub open spec fn data_part(s: Seq<char>) -> Seq<char> {
    match s.index_of_last('1') {
        Some(i) => s.subrange(i + 1, s.len() as int),
        None => s,
    }
}

/// The upper three bits of each byte.
pub open spec fn high_bits(bytes: Seq<u8>) -> Seq<u8> {
    bytes.map_values(|b: u8| b >> 5)
}

/// The lower five bits of each byte.
pub open spec fn low_bits(bytes: Seq<u8>) -> Seq<u8> {
    bytes.map_values(|b: u8| b & 0x1f)
}

/// The elements that stand for a human-readable part: the upper bits of its
/// bytes, a zero, the lower bits of its bytes.
pub open spec fn expand_hrp(hrp: Seq<char>) -> Seq<u8> {
    let bytes = encode_utf8(hrp);
    high_bits(bytes) + seq![0u8] + low_bits(bytes)
}

/// What reading `s` in HRP form gives: the expansion of the human-readable
/// part followed by the elements of the data part, or the first character of
/// the data part that names no element.
pub open spec fn parse_hrp(s: Seq<char>) -> Result<Seq<u8>, char> {
    match decode(data_part(s)) {
        Ok(d) => Ok(expand_hrp(hrp_part(s)) + d),
        Err(c) => Err(c),
    }
}

/// The upper bits of a prefix of `bytes` that is one byte longer.
pub proof fn lemma_high_bits_take_next(bytes: Seq<u8>, i: int)
    requires
        0 <= i < bytes.len(),
    ensures
        high_bits(bytes.take(i + 1)) == high_bits(bytes.take(i)).push(bytes[i] >> 5),
{
}

/// The lower bits of a prefix of `bytes` that is one byte longer.
pub proof fn lemma_low_bits_take_next(bytes: Seq<u8>, i: int)
    requires
        0 <= i < bytes.len(),
    ensures
        low_bits(bytes.take(i + 1)) == low_bits(bytes.take(i)).push(bytes[i] & 0x1f),
{
}

/// The encoding of a concatenation is the concatenation of the encodings.
pub proof fn lemma_encode_utf8_concat(a: Seq<char>, b: Seq<char>)
    ensures
        encode_utf8(a + b) == encode_utf8(a) + encode_utf8(b),
    decreases a.len(),
{
    if a.len() == 0 {
        assert(a + b == b);
    } else {
        lemma_encode_utf8_concat(a.drop_first(), b);
        assert((a + b).drop_first() == a.drop_first() + b);
    }
}

/// The encoding of a sequence with one more character at its end.
pub proof fn lemma_encode_utf8_push(a: Seq<char>, c: char)
    ensures
        encode_utf8(a.push(c)) == encode_utf8(a) + encode_scalar(c as u32),
{
    lemma_encode_utf8_concat(a, seq![c]);
    assert(a.push(c) == a + seq![c]);
    assert(seq![c].drop_first() == Seq::<char>::empty());
    assert(encode_utf8(seq![c]) == encode_scalar(c as u32) + encode_utf8(Seq::<char>::empty()));
}

/// An ASCII character is encoded as the one byte that is its code.
pub proof fn lemma_encode_ascii(c: char)
    requires
        (c as u32) < 128,
    ensures
        encode_scalar(c as u32) == seq![c as u8],
{
    let v = c as u32;
    assert((v & 0x7F) as u8 == v as u8) by (bit_vector)
        requires
            v < 128,
    ;
}

/// Replacing an ASCII character by another changes one byte of the
/// encoding: the byte at the place where the character's encoding stands.
pub proof fn lemma_encode_utf8_update_ascii(s: Seq<char>, i: int, c: char)
    requires
        0 <= i < s.len(),
        (s[i] as u32) < 128,
        (c as u32) < 128,
    ensures
        encode_utf8(s.take(i)).len() < encode_utf8(s).len(),
        encode_utf8(s)[encode_utf8(s.take(i)).len() as int] == s[i] as u8,
        encode_utf8(s.update(i, c)) == encode_utf8(s).update(
            encode_utf8(s.take(i)).len() as int,
            c as u8,
        ),
{
    let front = s.take(i);
    let back = s.skip(i + 1);
    assert(s =~= front.push(s[i]) + back);
    assert(s.update(i, c) =~= front.push(c) + back);
    lemma_encode_utf8_concat(front.push(s[i]), back);
    lemma_encode_utf8_concat(front.push(c), back);
    lemma_encode_utf8_push(front, s[i]);
    lemma_encode_utf8_push(front, c);
    lemma_encode_ascii(s[i]);
    lemma_encode_ascii(c);
    let ef = encode_utf8(front);
    let eb = encode_utf8(back);
    assert(encode_utf8(s) == ef + seq![s[i] as u8] + eb);
    assert(encode_utf8(s.update(i, c)) == ef + seq![c as u8] + eb);
    assert(ef + seq![c as u8] + eb =~= (ef + seq![s[i] as u8] + eb).update(
        ef.len() as int,
        c as u8,
    ));
}

/// Changing one byte of a human-readable part changes at most two elements
/// of its expansion, one among the upper bits and one among the lower bits,
/// and at least one of the two.
pub proof fn lemma_expansion_of_updated_bytes(bytes: Seq<u8>, p: int, b: u8)
    requires
        0 <= p < bytes.len(),
        b != bytes[p],
    ensures
        high_bits(bytes.update(p, b)) + seq![0u8] + low_bits(bytes.update(p, b)) == (high_bits(
            bytes,
        ) + seq![0u8] + low_bits(bytes)).update(p, b >> 5).update(
            bytes.len() + 1 + p,
            b & 0x1f,
        ),
        b >> 5 != bytes[p] >> 5 || b & 0x1f != bytes[p] & 0x1f,
{
    let prev = bytes[p];
    assert(b >> 5 != prev >> 5 || b & 0x1f != prev & 0x1f) by (bit_vector)
        requires
            b != prev,
    ;
    assert(high_bits(bytes.update(p, b)) =~= high_bits(bytes).update(p, b >> 5));
    assert(low_bits(bytes.update(p, b)) =~= low_bits(bytes).update(p, b & 0x1f));
    assert(high_bits(bytes.update(p, b)) + seq![0u8] + low_bits(bytes.update(p, b)) =~= (
    high_bits(bytes) + seq![0u8] + low_bits(bytes)).update(p, b >> 5).update(
        bytes.len() + 1 + p,
        b & 0x1f,
    ));
}

} // verus!
