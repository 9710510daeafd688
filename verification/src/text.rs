//! Plain text: comparing strings, folding case, writing bytes in hex.

use vstd::prelude::*;
use vstd::utf8::{encode_utf8, encode_utf8_decode_utf8};

verus! {

/// The lower-case form of an ASCII capital, and every other character as it
/// is.
pub open spec fn lower(c: char) -> char {
    if 'A' <= c && c <= 'Z' {
        ((c as u8) + 32) as char
    } else {
        c
    }
}

/// The string with its ASCII capitals in lower case.
pub open spec fn to_lower(s: Seq<char>) -> Seq<char> {
    s.map_values(|c: char| lower(c))
}

/// The hexadecimal digit for a value below 16.
pub open spec fn hex_digit(v: u8) -> char
    recommends
        v < 16,
{
    "0123456789abcdef"@[v as int]
}

/// The two hexadecimal digits of a byte.
pub open spec fn hex_of_byte(b: u8) -> Seq<char> {
    seq![hex_digit(b / 16), hex_digit(b % 16)]
}

/// The hexadecimal digits of the bytes, two for each, with nothing between.
pub open spec fn hex_of(bytes: Seq<u8>) -> Seq<char>
    decreases bytes.len(),
{
    if bytes.len() == 0 {
        Seq::empty()
    } else {
        hex_of(bytes.drop_last()) + hex_of_byte(bytes.last())
    }
}

/// The members of a list of bytes as they stand between its brackets: each
/// as `0x` and two digits, followed by a comma and a space.
pub open spec fn hex_items(bytes: Seq<u8>) -> Seq<char>
    decreases bytes.len(),
{
    if bytes.len() == 0 {
        Seq::empty()
    } else {
        hex_items(bytes.drop_last()) + "0x"@ + hex_of_byte(bytes.last()) + ", "@
    }
}

/// A list of bytes in brackets.
pub open spec fn hex_list(bytes: Seq<u8>) -> Seq<char> {
    "["@ + hex_items(bytes) + "]"@
}

/// Whether two strings hold the same characters.
pub fn str_eq(a: &str, b: &str) -> (r: bool)
    ensures
        r == (a@ == b@),
{
    let x = a.as_bytes();
    let y = b.as_bytes();
    proof {
        encode_utf8_decode_utf8(a@);
        encode_utf8_decode_utf8(b@);
    }
    if x.len() != y.len() {
        return false;
    }
    let n: usize = x.len();
    let mut i: usize = 0;
    while i < n
        invariant
            n == x@.len(),
            n == y@.len(),
            x@ == encode_utf8(a@),
            y@ == encode_utf8(b@),
            0 <= i <= n,
            forall|j: int| 0 <= j < i ==> x@[j] == y@[j],
        decreases n - i,
    {
        if x[i] != y[i] {
            return false;
        }
        i += 1;
    }
    assert(x@ =~= y@);
    true
}

/// The string with its ASCII capitals in lower case.
pub fn to_lowercase(s: &str) -> (r: String)
    ensures
        r@ == to_lower(s@),
{
    let mut ret = String::new();
    for c in it: s.chars()
        invariant
            it.seq() == s@,
            ret@ == to_lower(it.seq().take(it.index())),
    {
        let ghost before = it.seq().take(it.index());
        let l: char = if 'A' <= c && c <= 'Z' {
            ((c as u8) + 32) as char
        } else {
            c
        };
        assert(to_lower(before.push(c)) == to_lower(before).push(l));
        assert(before.push(c) == it.seq().take(it.index() + 1));
        ret.push(l);
    }
    assert(s@.take(s@.len() as int) == s@);
    ret
}

/// Appends the two hexadecimal digits of `b`.
fn push_hex_byte(out: &mut String, b: u8)
    ensures
        final(out)@ == old(out)@ + hex_of_byte(b),
{
    proof {
        reveal_strlit("0123456789abcdef");
    }
    let hi: u8 = b / 16;
    let lo: u8 = b % 16;
    // The digits start at `0`, which is 48; the letters at `a`, which is 97.
    let h: char = if hi < 10 {
        (hi + 48) as char
    } else {
        (hi - 10 + 97) as char
    };
    let l: char = if lo < 10 {
        (lo + 48) as char
    } else {
        (lo - 10 + 97) as char
    };
    assert(h == hex_digit(hi));
    assert(l == hex_digit(lo));
    out.push(h);
    out.push(l);
    assert(out@ == old(out)@ + hex_of_byte(b));
}

/// The bytes in hexadecimal, two digits for each.
pub fn to_hex(bytes: &Vec<u8>) -> (r: String)
    ensures
        r@ == hex_of(bytes@),
{
    let n: usize = bytes.len();
    let mut ret = String::new();
    let mut i: usize = 0;
    while i < n
        invariant
            n == bytes@.len(),
            0 <= i <= n,
            ret@ == hex_of(bytes@.take(i as int)),
        decreases n - i,
    {
        assert(bytes@.take(i + 1).drop_last() == bytes@.take(i as int));
        push_hex_byte(&mut ret, bytes[i]);
        i += 1;
    }
    assert(bytes@.take(n as int) == bytes@);
    ret
}

/// The bytes as a list in brackets, each written as `0x` and two digits and
/// followed by a comma and a space.
pub fn to_hex_list(bytes: &Vec<u8>) -> (r: String)
    ensures
        r@ == hex_list(bytes@),
{
    let n: usize = bytes.len();
    let mut ret = String::from_str("[");
    let mut i: usize = 0;
    while i < n
        invariant
            n == bytes@.len(),
            0 <= i <= n,
            ret@ == "["@ + hex_items(bytes@.take(i as int)),
        decreases n - i,
    {
        let ghost front = hex_items(bytes@.take(i as int));
        assert(bytes@.take(i + 1).drop_last() == bytes@.take(i as int));
        ret.append("0x");
        push_hex_byte(&mut ret, bytes[i]);
        ret.append(", ");
        assert(ret@ == "["@ + (front + "0x"@ + hex_of_byte(bytes@[i as int]) + ", "@));
        i += 1;
    }
    assert(bytes@.take(n as int) == bytes@);
    ret.append("]");
    ret
}

} // verus!
