//! The bits of a string of field elements, packed into bytes.
//!
//! Each element gives five bits, most significant first; the bits of all
//! elements in order are cut into bytes. Where the bits do not fill the last
//! byte, its low end is padded with zeros.

use vstd::prelude::*;

verus! {

/// Bit `r` of the five bits of `e`, counted from the most significant.
pub open spec fn elem_bit(e: u8, r: u8) -> bool {
    (e >> (4 - r) as u8) & 1 == 1
}

/// Bit `k` of the bits of all elements in order, and zero behind them.
pub open spec fn bit_at(elems: Seq<u8>, k: int) -> bool {
    k < 5 * elems.len() && elem_bit(elems[k / 5], (k % 5) as u8)
}

/// The byte whose bits, most significant first, are the eight given.
pub open spec fn byte_of_bits(
    b0: bool,
    b1: bool,
    b2: bool,
    b3: bool,
    b4: bool,
    b5: bool,
    b6: bool,
    b7: bool,
) -> u8 {
    (if b0 { 0x80u8 } else { 0 }) | (if b1 { 0x40u8 } else { 0 }) | (if b2 { 0x20u8 } else { 0 })
        | (if b3 { 0x10u8 } else { 0 }) | (if b4 { 0x08u8 } else { 0 }) | (if b5 {
        0x04u8
    } else {
        0
    }) | (if b6 { 0x02u8 } else { 0 }) | (if b7 { 0x01u8 } else { 0 })
}

/// Byte `j` of the packed bits.
pub open spec fn packed_byte(elems: Seq<u8>, j: int) -> u8 {
    byte_of_bits(
        bit_at(elems, 8 * j),
        bit_at(elems, 8 * j + 1),
        bit_at(elems, 8 * j + 2),
        bit_at(elems, 8 * j + 3),
        bit_at(elems, 8 * j + 4),
        bit_at(elems, 8 * j + 5),
        bit_at(elems, 8 * j + 6),
        bit_at(elems, 8 * j + 7),
    )
}

/// The number of bytes that hold the bits of `n` elements.
pub open spec fn packed_len(n: nat) -> nat {
    ((5 * n + 7) / 8) as nat
}

/// The number of bytes that the bits of `n` elements fill completely.
pub open spec fn whole_len(n: nat) -> nat {
    ((5 * n) / 8) as nat
}

/// The bytes that hold the bits of the elements, the last one padded with
/// zeros where the bits do not fill it.
pub open spec fn packed(elems: Seq<u8>) -> Seq<u8> {
    Seq::new(packed_len(elems.len()), |j: int| packed_byte(elems, j))
}

/// The bytes that the bits of the elements fill completely.
pub open spec fn packed_whole(elems: Seq<u8>) -> Seq<u8> {
    packed(elems).take(whole_len(elems.len()) as int)
}

/// Bit `k` of the fifteen bits of three elements in a row.
pub open spec fn window_bit(e0: u8, e1: u8, e2: u8, k: u8) -> bool {
    if k < 5 {
        elem_bit(e0, k)
    } else if k < 10 {
        elem_bit(e1, (k - 5) as u8)
    } else {
        elem_bit(e2, (k - 10) as u8)
    }
}

/// The eight bits that start at bit `o` of three elements in a row.
pub open spec fn window_byte(e0: u8, e1: u8, e2: u8, o: u8) -> u8 {
    (((((e0 as u16) << 10) | ((e1 as u16) << 5) | (e2 as u16)) >> (7 - o) as u16) & 0xff) as u8
}

/// Cutting eight bits out of a window of three elements gives those bits.
pub proof fn lemma_window_byte(e0: u8, e1: u8, e2: u8, o: u8)
    requires
        e0 < 32,
        e1 < 32,
        e2 < 32,
        o < 5,
    ensures
        window_byte(e0, e1, e2, o) == byte_of_bits(
            window_bit(e0, e1, e2, o),
            window_bit(e0, e1, e2, (o + 1) as u8),
            window_bit(e0, e1, e2, (o + 2) as u8),
            window_bit(e0, e1, e2, (o + 3) as u8),
            window_bit(e0, e1, e2, (o + 4) as u8),
            window_bit(e0, e1, e2, (o + 5) as u8),
            window_bit(e0, e1, e2, (o + 6) as u8),
            window_bit(e0, e1, e2, (o + 7) as u8),
        ),
{
    assert(window_byte(e0, e1, e2, o) == byte_of_bits(
        window_bit(e0, e1, e2, o),
        window_bit(e0, e1, e2, (o + 1) as u8),
        window_bit(e0, e1, e2, (o + 2) as u8),
        window_bit(e0, e1, e2, (o + 3) as u8),
        window_bit(e0, e1, e2, (o + 4) as u8),
        window_bit(e0, e1, e2, (o + 5) as u8),
        window_bit(e0, e1, e2, (o + 6) as u8),
        window_bit(e0, e1, e2, (o + 7) as u8),
    )) by (bit_vector)
        requires
            e0 < 32,
            e1 < 32,
            e2 < 32,
            o < 5,
    ;
}

/// The element at position `i`, or zero behind the end of the string.
pub open spec fn elem_or_zero(elems: Seq<u8>, i: int) -> u8 {
    if i < elems.len() {
        elems[i]
    } else {
        0
    }
}

/// Bit `b` of byte `j` is a bit of the window that starts at the element
/// which holds the byte's first bit.
proof fn lemma_window_bit(elems: Seq<u8>, j: int, b: int)
    requires
        0 <= j,
        8 * j < 5 * elems.len(),
        0 <= b < 8,
    ensures
        bit_at(elems, 8 * j + b) == window_bit(
            elems[(8 * j) / 5],
            elem_or_zero(elems, (8 * j) / 5 + 1),
            elem_or_zero(elems, (8 * j) / 5 + 2),
            ((8 * j) % 5 + b) as u8,
        ),
{
    let idx = (8 * j) / 5;
    let k = (8 * j) % 5 + b;
    let r = (k % 5) as u8;
    assert((8 * j + b) / 5 == idx + k / 5);
    assert((8 * j + b) % 5 == k % 5);
    assert(!elem_bit(0, r)) by (bit_vector)
        requires
            r < 5,
    ;
}

/// Byte `j` of the packed bits is cut out of the window of three elements
/// that starts at the element which holds the byte's first bit, with zeros
/// behind the end of the string.
pub proof fn lemma_packed_byte_window(elems: Seq<u8>, j: int)
    requires
        0 <= j,
        8 * j < 5 * elems.len(),
        elems[(8 * j) / 5] < 32,
        elem_or_zero(elems, (8 * j) / 5 + 1) < 32,
        elem_or_zero(elems, (8 * j) / 5 + 2) < 32,
    ensures
        packed_byte(elems, j) == window_byte(
            elems[(8 * j) / 5],
            elem_or_zero(elems, (8 * j) / 5 + 1),
            elem_or_zero(elems, (8 * j) / 5 + 2),
            ((8 * j) % 5) as u8,
        ),
{
    let idx = (8 * j) / 5;
    let o = ((8 * j) % 5) as u8;
    lemma_window_byte(
        elems[idx],
        elem_or_zero(elems, idx + 1),
        elem_or_zero(elems, idx + 2),
        o,
    );
    lemma_window_bit(elems, j, 0);
    lemma_window_bit(elems, j, 1);
    lemma_window_bit(elems, j, 2);
    lemma_window_bit(elems, j, 3);
    lemma_window_bit(elems, j, 4);
    lemma_window_bit(elems, j, 5);
    lemma_window_bit(elems, j, 6);
    lemma_window_bit(elems, j, 7);
}

} // verus!
