//! Field elements as values, and strings of them.

use crate::alphabet::{
    alphabet, char_of, chars_of, decode, in_alphabet, lemma_chars_of_take_next,
    lemma_decode_invalid, lemma_values_of_take_next, value_of, values_of,
};
use crate::gf32::{gf_add, gf_mul, gf_mul_alpha, is_elem, lemma_mul_by_shifts, mul_by_shifts};
use crate::hrp::{
    data_part, expand_hrp, high_bits, hrp_part, lemma_encode_utf8_concat,
    lemma_encode_utf8_push, lemma_high_bits_take_next, lemma_low_bits_take_next, low_bits,
    parse_hrp,
};
use crate::packing::{lemma_packed_byte_window, packed, packed_byte};
use vstd::prelude::*;
use vstd::utf8::{char_is_scalar, encode_scalar, encode_utf8};

verus! {

/// An element of GF(32), written with the bech32 alphabet.
#[allow(non_camel_case_types)]
#[derive(Copy, Clone, Debug, PartialEq, Eq, Structural, Hash)]
pub struct u5(u8);

impl View for u5 {
    type V = u8;

    closed spec fn view(&self) -> u8 {
        self.0
    }
}

/// The text of the error for a character outside the alphabet.
pub open spec fn invalid_char_message(c: char) -> Seq<char> {
    "invalid bech32 character "@.push(c)
}

impl u5 {
    /// Every element has a representation below 32.
    #[verifier::type_invariant]
    pub open spec fn inv(self) -> bool {
        is_elem(self@)
    }

    /// The element with representation `v`.
    pub closed spec fn of(v: u8) -> u5 {
        u5(v)
    }

    /// The view of `of(v)` is `v`.
    pub proof fn lemma_of_view(v: u8)
        ensures
            u5::of(v)@ == v,
    {
    }

    /// Two elements with the same representation are the same element.
    pub proof fn lemma_view_injective(a: u5, b: u5)
        requires
            a@ == b@,
        ensures
            a == b,
    {
    }

    /// The element with the given representation.
    pub fn from_u8(u: u8) -> (r: u5)
        requires
            u < 32,
        ensures
            r@ == u,
    {
        u5(u)
    }

    /// The representation of the element.
    pub fn to_u8(self) -> (r: u8)
        ensures
            r == self@,
            is_elem(r),
    {
        proof {
            use_type_invariant(self);
        }
        self.0
    }

    /// Multiplies the element by the primitive element, in place.
    pub fn mul_alpha(&mut self)
        ensures
            final(self)@ == gf_mul_alpha(old(self)@),
    {
        proof {
            use_type_invariant(*self);
        }
        let b: u8 = self.0;
        let mut d: u8 = b << 1;
        if d & 0x20 == 0x20 {
            d = d ^ 0x29;
        }
        assert(d == gf_mul_alpha(b) && d < 32) by (bit_vector)
            requires
                b < 32,
                d == if (b << 1) & 0x20 == 0x20 { (b << 1) ^ 0x29 } else { b << 1 },
        ;
        self.0 = d;
    }

    /// The element that the character names, or an error that names the
    /// character.
    pub fn from_char(c: char) -> (r: Result<u5, String>)
        ensures
            match r {
                Ok(x) => in_alphabet(c) && x@ == value_of(c),
                Err(e) => !in_alphabet(c) && e@ == invalid_char_message(c),
            },
    {
        let v: u8 = match c {
            'q' => 0x00,
            'p' => 0x01,
            'z' => 0x02,
            'r' => 0x03,
            'y' => 0x04,
            '9' => 0x05,
            'x' => 0x06,
            '8' => 0x07,
            'g' => 0x08,
            'f' => 0x09,
            '2' => 0x0a,
            't' => 0x0b,
            'v' => 0x0c,
            'd' => 0x0d,
            'w' => 0x0e,
            '0' => 0x0f,
            's' => 0x10,
            '3' => 0x11,
            'j' => 0x12,
            'n' => 0x13,
            '5' => 0x14,
            '4' => 0x15,
            'k' => 0x16,
            'h' => 0x17,
            'c' => 0x18,
            'e' => 0x19,
            '6' => 0x1a,
            'm' => 0x1b,
            'u' => 0x1c,
            'a' => 0x1d,
            '7' => 0x1e,
            'l' => 0x1f,
            _ => 0x20,
        };
        proof {
            reveal(alphabet);
        }
        if v < 32 {
            assert(alphabet()[v as int] == c);
            Ok(u5(v))
        } else {
            let mut e = String::from_str("invalid bech32 character ");
            e.push(c);
            Err(e)
        }
    }

    /// The character that names the element.
    pub fn to_char(self) -> (c: char)
        ensures
            c == char_of(self@),
    {
        proof {
            use_type_invariant(self);
            reveal(alphabet);
        }
        let c: char = match self.0 {
            0x00 => 'q',
            0x01 => 'p',
            0x02 => 'z',
            0x03 => 'r',
            0x04 => 'y',
            0x05 => '9',
            0x06 => 'x',
            0x07 => '8',
            0x08 => 'g',
            0x09 => 'f',
            0x0a => '2',
            0x0b => 't',
            0x0c => 'v',
            0x0d => 'd',
            0x0e => 'w',
            0x0f => '0',
            0x10 => 's',
            0x11 => '3',
            0x12 => 'j',
            0x13 => 'n',
            0x14 => '5',
            0x15 => '4',
            0x16 => 'k',
            0x17 => 'h',
            0x18 => 'c',
            0x19 => 'e',
            0x1a => '6',
            0x1b => 'm',
            0x1c => 'u',
            0x1d => 'a',
            0x1e => '7',
            _ => 'l',
        };
        c
    }

    /// The one-character string that names the element.
    pub fn to_string(&self) -> (r: String)
        ensures
            r@ == seq![char_of(self@)],
    {
        let mut r = String::new();
        r.push(self.to_char());
        r
    }
}

/// What `String::push` of the standard library does, as its documentation
/// says and without proof: afterwards the string is what it was before with
/// `ch` appended at its end.
pub assume_specification[ String::push ](s: &mut String, ch: char)
    ensures
        final(s)@ == old(s)@.push(ch),
;

impl Default for u5 {
    fn default() -> (r: u5)
        ensures
            r@ == 0,
    {
        u5(0)
    }
}

impl core::ops::Add<u5> for u5 {
    type Output = u5;

    /// The sum of the two elements.
    fn add(self, other: u5) -> (r: u5)
        ensures
            r@ == gf_add(self@, other@),
    {
        proof {
            use_type_invariant(self);
            use_type_invariant(other);
        }
        let a: u8 = self.0;
        let b: u8 = other.0;
        assert(a ^ b < 32) by (bit_vector)
            requires
                a < 32,
                b < 32,
        ;
        u5(a ^ b)
    }
}

impl vstd::std_specs::ops::AddSpecImpl<u5> for u5 {
    open spec fn obeys_add_spec() -> bool {
        true
    }

    open spec fn add_req(self, other: u5) -> bool {
        true
    }

    open spec fn add_spec(self, other: u5) -> u5 {
        u5::of(gf_add(self@, other@))
    }
}

impl core::ops::Mul<u5> for u5 {
    type Output = u5;

    /// The product of the two elements.
    fn mul(self, other: u5) -> (r: u5)
        ensures
            r@ == gf_mul(self@, other@),
    {
        proof {
            use_type_invariant(self);
            use_type_invariant(other);
        }
        let a: u8 = self.0;
        let ghost b0 = other@;
        let mut shifted = other;
        let mut res: u5 = u5(0);
        if a & 0x01 != 0 {
            res = res + shifted;
        }
        let ghost r1 = res@;
        shifted.mul_alpha();
        let ghost b1 = shifted@;
        if a & 0x02 != 0 {
            res = res + shifted;
        }
        let ghost r2 = res@;
        shifted.mul_alpha();
        let ghost b2 = shifted@;
        if a & 0x04 != 0 {
            res = res + shifted;
        }
        let ghost r3 = res@;
        shifted.mul_alpha();
        let ghost b3 = shifted@;
        if a & 0x08 != 0 {
            res = res + shifted;
        }
        let ghost r4 = res@;
        shifted.mul_alpha();
        let ghost b4 = shifted@;
        if a & 0x10 != 0 {
            res = res + shifted;
        }
        let ghost r5 = res@;
        proof {
            assert(r5 == (if a & 0x01 != 0 { b0 } else { 0 }) ^ (if a & 0x02 != 0 { b1 } else { 0 })
                ^ (if a & 0x04 != 0 { b2 } else { 0 }) ^ (if a & 0x08 != 0 { b3 } else { 0 }) ^ (
            if a & 0x10 != 0 { b4 } else { 0 })) by (bit_vector)
                requires
                    r1 == if a & 0x01 != 0 { 0 ^ b0 } else { 0 },
                    r2 == if a & 0x02 != 0 { r1 ^ b1 } else { r1 },
                    r3 == if a & 0x04 != 0 { r2 ^ b2 } else { r2 },
                    r4 == if a & 0x08 != 0 { r3 ^ b3 } else { r3 },
                    r5 == if a & 0x10 != 0 { r4 ^ b4 } else { r4 },
            ;
            assert(r5 == mul_by_shifts(a, b0));
            lemma_mul_by_shifts(a, b0);
        }
        res
    }
}

impl vstd::std_specs::ops::MulSpecImpl<u5> for u5 {
    open spec fn obeys_mul_spec() -> bool {
        true
    }

    open spec fn mul_req(self, other: u5) -> bool {
        true
    }

    open spec fn mul_spec(self, other: u5) -> u5 {
        u5::of(gf_mul(self@, other@))
    }
}

impl core::ops::AddAssign<u5> for u5 {
    /// Adds `other` to the element, in place.
    fn add_assign(&mut self, other: u5)
        ensures
            final(self)@ == gf_add(old(self)@, other@),
    {
        *self = *self + other;
    }
}

impl core::ops::MulAssign<u5> for u5 {
    /// Multiplies the element by `other`, in place.
    fn mul_assign(&mut self, other: u5)
        ensures
            final(self)@ == gf_mul(old(self)@, other@),
    {
        *self = *self * other;
    }
}

/// A string of elements of GF(32).
#[allow(non_camel_case_types)]
#[derive(Debug, PartialEq, Eq, Hash)]
pub struct u5String(Vec<u5>);

/// The representations of the elements of `v`, in order.
pub open spec fn views(v: Seq<u5>) -> Seq<u8> {
    v.map_values(|x: u5| x@)
}

/// The representations of a sequence with one more element at its end.
pub proof fn lemma_views_push(v: Seq<u5>, x: u5)
    ensures
        views(v.push(x)) == views(v).push(x@),
{
}

impl View for u5String {
    type V = Seq<u8>;

    closed spec fn view(&self) -> Seq<u8> {
        views(self.0@)
    }
}

/// The characters of `s`, one by one.
fn chars_of_str(s: &str) -> (v: Vec<char>)
    ensures
        v@ == s@,
{
    let mut v: Vec<char> = Vec::new();
    for c in it: s.chars()
        invariant
            it.seq() == s@,
            v@ == it.seq().take(it.index()),
    {
        v.push(c);
    }
    v
}

/// The number of bytes that encode `c`.
fn utf8_len(c: char) -> (n: usize)
    ensures
        n == encode_scalar(c as u32).len(),
        1 <= n <= 4,
{
    proof {
        char_is_scalar(c);
    }
    let v: u32 = c as u32;
    if v <= 0x7f {
        1
    } else if v <= 0x7ff {
        2
    } else if v <= 0xffff {
        3
    } else {
        4
    }
}

/// Appends to `res` the elements that the characters of `chars` name from
/// position `start` on, and stops at the first character that names none.
fn push_decoded(chars: &Vec<char>, start: usize, res: &mut Vec<u5>) -> (r: Result<(), String>)
    requires
        start <= chars@.len(),
    ensures
        match r {
            Ok(_) => decode(chars@.skip(start as int)) == Ok::<Seq<u8>, char>(
                values_of(chars@.skip(start as int)),
            ) && views(final(res)@) == views(old(res)@) + values_of(chars@.skip(start as int)),
            Err(e) => decode(chars@.skip(start as int)) is Err && e@ == invalid_char_message(
                decode(chars@.skip(start as int))->Err_0,
            ),
        },
{
    let ghost data = chars@.skip(start as int);
    let ghost front = views(res@);
    let n: usize = chars.len();
    let mut i: usize = start;
    assert(data.take(0) == Seq::<char>::empty());
    assert(front + values_of(data.take(0)) == front);
    while i < n
        invariant
            n == chars@.len(),
            data == chars@.skip(start as int),
            start <= i <= n,
            forall|j: int| 0 <= j < i - start ==> in_alphabet(#[trigger] data[j]),
            views(res@) == front + values_of(data.take(i - start)),
        decreases n - i,
    {
        assert(chars@[i as int] == data[i - start]);
        match u5::from_char(chars[i]) {
            Ok(x) => {
                proof {
                    lemma_views_push(res@, x);
                    lemma_values_of_take_next(data, i - start);
                    let prev = values_of(data.take(i - start));
                    assert((front + prev).push(x@) == front + prev.push(x@));
                }
                res.push(x);
            },
            Err(e) => {
                proof {
                    lemma_decode_invalid(data, i - start);
                }
                return Err(e);
            },
        }
        i += 1;
    }
    assert(data.take(n - start) == data);
    Ok(())
}

/// The position where the data part starts: just behind the last `1`, or
/// the start of the string where it holds none.
fn data_start_of(chars: &Vec<char>) -> (start: usize)
    ensures
        start <= chars@.len(),
        hrp_part(chars@) == chars@.take(
            if start > 0 {
                start - 1
            } else {
                0
            },
        ),
        data_part(chars@) == chars@.skip(start as int),
{
    let n: usize = chars.len();
    let mut start: usize = n;
    while start > 0 && chars[start - 1] != '1'
        invariant
            n == chars@.len(),
            0 <= start <= n,
            forall|j: int| start <= j < n ==> chars@[j] != '1',
        decreases start,
    {
        start -= 1;
    }
    proof {
        chars@.index_of_last_ensures('1');
        if start > 0 {
            assert(chars@[start - 1] == '1');
            assert(chars@.index_of_last('1') == Some(start - 1));
        } else {
            assert(chars@.index_of_last('1') is None);
            assert(chars@.take(0) == Seq::<char>::empty());
            assert(chars@.skip(0) == chars@);
        }
    }
    start
}

/// The number of bytes that encode the first `count` characters, where the
/// whole string is encoded in `total` bytes.
fn encoded_len(chars: &Vec<char>, count: usize, total: usize) -> (k: usize)
    requires
        count <= chars@.len(),
        total == encode_utf8(chars@).len(),
    ensures
        k == encode_utf8(chars@.take(count as int)).len(),
        k <= total,
{
    let ghost all = chars@;
    let mut k: usize = 0;
    let mut i: usize = 0;
    assert(all.take(0) == Seq::<char>::empty());
    while i < count
        invariant
            all == chars@,
            0 <= i <= count <= all.len(),
            k == encode_utf8(all.take(i as int)).len(),
            total == encode_utf8(all).len(),
        decreases count - i,
    {
        let w = utf8_len(chars[i]);
        proof {
            lemma_encode_utf8_push(all.take(i as int), all[i as int]);
            assert(all.take(i as int).push(all[i as int]) == all.take(i + 1));
            lemma_encode_utf8_concat(all.take(i + 1), all.skip(i + 1));
            assert(all.take(i + 1) + all.skip(i + 1) == all);
        }
        k += w;
        i += 1;
    }
    proof {
        lemma_encode_utf8_concat(all.take(count as int), all.skip(count as int));
        assert(all.take(count as int) + all.skip(count as int) == all);
    }
    k
}

/// Appends to `res` the expansion of the first `k` bytes: their upper bits,
/// a zero, their lower bits.
fn push_expanded(bytes: &[u8], k: usize, res: &mut Vec<u5>)
    requires
        k <= bytes@.len(),
    ensures
        views(final(res)@) == views(old(res)@) + (high_bits(bytes@.take(k as int)) + seq![0u8]
            + low_bits(bytes@.take(k as int))),
{
    let ghost front = views(res@);
    let ghost hb = bytes@.take(k as int);
    let mut j: usize = 0;
    assert(hb.take(0) == Seq::<u8>::empty());
    assert(front + high_bits(hb.take(0)) == front);
    while j < k
        invariant
            0 <= j <= k <= bytes@.len(),
            hb == bytes@.take(k as int),
            views(res@) == front + high_bits(hb.take(j as int)),
        decreases k - j,
    {
        let b: u8 = bytes[j];
        assert(b >> 5 < 32) by (bit_vector);
        let x = u5(b >> 5);
        proof {
            lemma_views_push(res@, x);
            lemma_high_bits_take_next(hb, j as int);
            let prev = high_bits(hb.take(j as int));
            assert((front + prev).push(x@) == front + prev.push(x@));
        }
        res.push(x);
        j += 1;
    }
    assert(hb.take(k as int) == hb);
    let zero = u5(0);
    proof {
        lemma_views_push(res@, zero);
    }
    res.push(zero);
    let ghost upper = front + high_bits(hb) + seq![0u8];
    assert(views(res@) == upper + low_bits(hb.take(0)));
    j = 0;
    while j < k
        invariant
            0 <= j <= k <= bytes@.len(),
            hb == bytes@.take(k as int),
            views(res@) == upper + low_bits(hb.take(j as int)),
        decreases k - j,
    {
        let b: u8 = bytes[j];
        assert(b & 0x1f < 32) by (bit_vector);
        let x = u5(b & 0x1f);
        proof {
            lemma_views_push(res@, x);
            lemma_low_bits_take_next(hb, j as int);
            let prev = low_bits(hb.take(j as int));
            assert((upper + prev).push(x@) == upper + prev.push(x@));
        }
        res.push(x);
        j += 1;
    }
    assert(upper + low_bits(hb) == front + (high_bits(hb) + seq![0u8] + low_bits(hb)));
}

impl u5String {
    /// Reads a string of alphabet characters.
    pub fn from_str(s: &str) -> (r: Result<u5String, String>)
        ensures
            match r {
                Ok(x) => decode(s@) == Ok::<Seq<u8>, char>(x@),
                Err(e) => decode(s@) is Err && e@ == invalid_char_message(decode(s@)->Err_0),
            },
    {
        let chars = chars_of_str(s);
        let mut ret: Vec<u5> = Vec::new();
        assert(chars@.skip(0) == s@);
        match push_decoded(&chars, 0, &mut ret) {
            Ok(_) => {
                assert(Seq::<u8>::empty() + values_of(s@) == values_of(s@));
                Ok(u5String(ret))
            },
            Err(e) => Err(e),
        }
    }

    /// Reads a string in HRP form: the expansion of what stands before the
    /// last `1`, then the elements that the characters after it name.
    pub fn from_hrpstring(s: &str) -> (r: Result<u5String, String>)
        ensures
            match r {
                Ok(x) => parse_hrp(s@) == Ok::<Seq<u8>, char>(x@),
                Err(e) => parse_hrp(s@) is Err && e@ == invalid_char_message(
                    parse_hrp(s@)->Err_0,
                ),
            },
    {
        let chars = chars_of_str(s);
        let data_start = data_start_of(&chars);
        let hrp_len: usize = if data_start > 0 {
            data_start - 1
        } else {
            0
        };
        // The bytes of the human-readable part lead the bytes of the string.
        let bytes = s.as_bytes();
        let k = encoded_len(&chars, hrp_len, bytes.len());
        proof {
            lemma_encode_utf8_concat(s@.take(hrp_len as int), s@.skip(hrp_len as int));
            assert(s@.take(hrp_len as int) + s@.skip(hrp_len as int) == s@);
            assert(bytes@.take(k as int) == encode_utf8(hrp_part(s@)));
        }
        let mut res: Vec<u5> = Vec::new();
        push_expanded(bytes, k, &mut res);
        assert(views(res@) == expand_hrp(hrp_part(s@)));
        match push_decoded(&chars, data_start, &mut res) {
            Ok(_) => Ok(u5String(res)),
            Err(e) => Err(e),
        }
    }

    /// Appends an element to the end of the string.
    pub fn push(&mut self, x: u5)
        ensures
            final(self)@ == old(self)@.push(x@),
    {
        self.0.push(x);
        assert(views(self.0@) == views(old(self).0@).push(x@));
    }

    /// The number of elements in the string.
    pub fn len(&self) -> (n: usize)
        ensures
            n == self@.len(),
    {
        self.0.len()
    }

    /// Whether the string has no element.
    pub fn is_empty(&self) -> (b: bool)
        ensures
            b == (self@.len() == 0),
    {
        self.0.len() == 0
    }

    /// Whether every element of the string is zero.
    pub fn is_all_zero(&self) -> (b: bool)
        ensures
            b == (forall|i: int| 0 <= i < self@.len() ==> self@[i] == 0),
    {
        let n: usize = self.0.len();
        let mut i: usize = 0;
        while i < n
            invariant
                n == self@.len(),
                n == self.0@.len(),
                0 <= i <= n,
                forall|j: int| 0 <= j < i ==> self@[j] == 0,
            decreases n - i,
        {
            if self.0[i].0 != 0 {
                assert(self@[i as int] != 0);
                return false;
            }
            i += 1;
        }
        true
    }
}

impl u5String {
    /// The string that holds exactly the elements of `v`.
    pub closed spec fn of(v: Vec<u5>) -> u5String {
        u5String(v)
    }

    /// The view of `of(v)` holds the representations of the elements of `v`.
    pub proof fn lemma_of_view(v: Vec<u5>)
        ensures
            u5String::of(v)@ == views(v@),
    {
    }

    /// The string of the elements with the given representations.
    pub fn from_u8s(v: Vec<u8>) -> (r: u5String)
        requires
            forall|i: int| 0 <= i < v@.len() ==> v@[i] < 32,
        ensures
            r@ == v@,
    {
        let n: usize = v.len();
        let mut ret: Vec<u5> = Vec::new();
        let mut i: usize = 0;
        while i < n
            invariant
                n == v@.len(),
                0 <= i <= n,
                forall|j: int| 0 <= j < v@.len() ==> v@[j] < 32,
                views(ret@) == v@.take(i as int),
            decreases n - i,
        {
            let x = u5::from_u8(v[i]);
            proof {
                lemma_views_push(ret@, x);
                assert(v@.take(i as int).push(v@[i as int]) == v@.take(i + 1));
            }
            ret.push(x);
            i += 1;
        }
        assert(v@.take(n as int) == v@);
        u5String(ret)
    }

    /// Replaces the element at position `idx`.
    pub fn set(&mut self, idx: usize, x: u5)
        requires
            idx < old(self)@.len(),
        ensures
            final(self)@ == old(self)@.update(idx as int, x@),
    {
        self.0[idx] = x;
        assert(views(self.0@) == views(old(self).0@).update(idx as int, x@));
    }

    /// The bits of the elements, five from each and most significant first,
    /// packed into bytes; the low end of the last byte is padded with zeros
    /// where the bits do not fill it.
    pub fn to_bytes(&self) -> (r: Vec<u8>)
        ensures
            r@ == packed(self@),
    {
        let n: usize = self.0.len();
        // Five bytes for every eight elements, and the bytes of the rest.
        let count: usize = n / 8 * 5 + ((n % 8) * 5 + 7) / 8;
        assert(count == (5 * n + 7) / 8);
        let mut ret: Vec<u8> = Vec::new();
        let mut j: usize = 0;
        while j < count
            invariant
                n == self.0@.len(),
                n == self@.len(),
                count == (5 * n + 7) / 8,
                0 <= j <= count,
                ret@.len() == j,
                forall|t: int| 0 <= t < j ==> #[trigger] ret@[t] == packed_byte(self@, t),
            decreases count - j,
        {
            // The byte starts at bit `o` of element `idx`.
            let idx: usize = j / 5 * 8 + (j % 5) * 8 / 5;
            let o: u8 = (((j % 5) * 8) % 5) as u8;
            assert(idx == (8 * j) / 5 && o == (8 * j) % 5);
            assert(idx < n);
            let e0: u8 = self.0[idx].to_u8();
            let e1: u8 = if n - idx > 1 {
                self.0[idx + 1].to_u8()
            } else {
                0
            };
            let e2: u8 = if n - idx > 2 {
                self.0[idx + 2].to_u8()
            } else {
                0
            };
            let w: u16 = ((e0 as u16) << 10) | ((e1 as u16) << 5) | (e2 as u16);
            let byte: u8 = ((w >> ((7 - o) as u16)) & 0xff) as u8;
            proof {
                lemma_packed_byte_window(self@, j as int);
            }
            ret.push(byte);
            j += 1;
        }
        assert(ret@ =~= packed(self@));
        ret
    }

    /// The string as it is shown when debugging: its characters between
    /// `u5(` and `)`.
    pub fn to_debug_string(&self) -> (r: String)
        ensures
            r@ == "u5("@ + chars_of(self@) + ")"@,
    {
        let mut ret = String::from_str("u5(");
        let body = self.to_string();
        ret.append(body.as_str());
        ret.append(")");
        ret
    }

    /// The characters that name the elements, in order.
    pub fn to_string(&self) -> (r: String)
        ensures
            r@ == chars_of(self@),
    {
        let n: usize = self.0.len();
        let mut ret = String::new();
        let mut i: usize = 0;
        while i < n
            invariant
                n == self.0@.len(),
                0 <= i <= n,
                ret@ == chars_of(self@.take(i as int)),
            decreases n - i,
        {
            let c = self.0[i].to_char();
            proof {
                lemma_chars_of_take_next(self@, i as int);
            }
            ret.push(c);
            i += 1;
        }
        assert(self@.take(n as int) == self@);
        ret
    }
}

impl Clone for u5String {
    fn clone(&self) -> (r: u5String)
        ensures
            r@ == self@,
    {
        let n: usize = self.0.len();
        let mut ret: Vec<u5> = Vec::new();
        let mut i: usize = 0;
        while i < n
            invariant
                n == self.0@.len(),
                0 <= i <= n,
                ret@ == self.0@.take(i as int),
            decreases n - i,
        {
            ret.push(self.0[i]);
            assert(self.0@.take(i as int).push(self.0@[i as int]) == self.0@.take(i + 1));
            i += 1;
        }
        assert(self.0@.take(n as int) == self.0@);
        u5String(ret)
    }
}

impl Default for u5String {
    fn default() -> (r: u5String)
        ensures
            r@ == Seq::<u8>::empty(),
    {
        u5String(Vec::new())
    }
}

impl From<Vec<u5>> for u5String {
    fn from(v: Vec<u5>) -> (r: u5String)
        ensures
            r@ == views(v@),
    {
        u5String(v)
    }
}

impl vstd::std_specs::convert::FromSpecImpl<Vec<u5>> for u5String {
    open spec fn obeys_from_spec() -> bool {
        true
    }

    open spec fn from_spec(v: Vec<u5>) -> u5String {
        u5String::of(v)
    }
}

impl core::ops::Index<usize> for u5String {
    type Output = u5;

    fn index(&self, idx: usize) -> (r: &u5)
        ensures
            r@ == self@[idx as int],
    {
        &self.0[idx]
    }
}

impl vstd::std_specs::core::IndexSpecImpl<usize> for u5String {
    open spec fn index_req(&self, index: &usize) -> bool {
        *index < self@.len()
    }
}

} // verus!
