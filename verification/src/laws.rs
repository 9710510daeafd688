//! What holds of the checksums of whole strings: a string with its checksum
//! appended is valid, and a valid string with one character changed is not,
//! where the change touches one element of what the string parses to.

use crate::alphabet::{
    chars_of, in_alphabet, is_base32, lemma_alphabet_members, lemma_char_of_value_of,
    lemma_value_of_char_of, lemma_value_of_p, lemma_value_of_q, lemma_values_of_elems,
    value_of, values_of,
};
use crate::checksum32::{registry, Code};
use crate::gf32::{gf_add, lemma_add_associative};
use crate::hrp::{
    data_part, expand_hrp, hrp_part, lemma_encode_utf8_update_ascii,
    lemma_expansion_of_updated_bytes, parse_hrp,
};
use crate::polymod::{
    add_seq, all_elems, lemma_add_seq_elems, lemma_add_seq_zeros, lemma_feed_all_elems,
    lemma_burst_changes_residue, lemma_residue_len, lemma_residue_of_suffix,
    lemma_single_error_changes_residue, residue, unit_register, zeros,
};
use vstd::prelude::*;
use vstd::utf8::encode_utf8;

verus! {

/// The characters written for field elements are in the alphabet and name
/// the same elements: reading is the inverse of writing.
pub proof fn lemma_values_of_chars_of(v: Seq<u8>)
    requires
        all_elems(v),
    ensures
        is_base32(chars_of(v)),
        values_of(chars_of(v)) == v,
{
    assert forall|i: int| 0 <= i < v.len() implies in_alphabet(#[trigger] chars_of(v)[i])
        && value_of(chars_of(v)[i]) == v[i] by {
        lemma_value_of_char_of(v[i]);
    }
    assert(values_of(chars_of(v)) =~= v);
}

/// The elements read from alphabet characters are written as the same
/// characters: writing is the inverse of reading.
pub proof fn lemma_chars_of_values_of(s: Seq<char>)
    requires
        is_base32(s),
    ensures
        all_elems(values_of(s)),
        chars_of(values_of(s)) == s,
{
    lemma_values_of_elems(s);
    assert forall|i: int| 0 <= i < s.len() implies #[trigger] chars_of(values_of(s))[i]
        == s[i] by {
        assert(in_alphabet(s[i]));
        lemma_char_of_value_of(s[i]);
    }
    assert(chars_of(values_of(s)) =~= s);
}

/// The expansion of a human-readable part consists of field elements.
pub proof fn lemma_expand_hrp_elems(hrp: Seq<char>)
    ensures
        all_elems(expand_hrp(hrp)),
{
    let bytes = encode_utf8(hrp);
    let e = expand_hrp(hrp);
    assert forall|i: int| 0 <= i < e.len() implies #[trigger] e[i] < 32 by {
        if i < bytes.len() {
            let b = bytes[i];
            assert(b >> 5 < 32) by (bit_vector);
        } else if i > bytes.len() {
            let b = bytes[i - bytes.len() - 1];
            assert(b & 0x1f < 32) by (bit_vector);
        }
    }
}

/// What a string in HRP form parses to consists of field elements.
pub proof fn lemma_parse_hrp_elems(s: Seq<char>)
    requires
        parse_hrp(s) is Ok,
    ensures
        all_elems(parse_hrp(s)->Ok_0),
{
    lemma_expand_hrp_elems(hrp_part(s));
    lemma_values_of_elems(data_part(s));
}

/// Alphabet characters behind a string leave its last separator where it
/// is: they lengthen the data part only.
pub proof fn lemma_parts_of_append(s: Seq<char>, t: Seq<char>)
    requires
        is_base32(t),
    ensures
        hrp_part(s + t) == hrp_part(s),
        data_part(s + t) == data_part(s) + t,
{
    lemma_alphabet_members();
    let st = s + t;
    s.index_of_last_ensures('1');
    st.index_of_last_ensures('1');
    assert forall|j: int| s.len() <= j < st.len() implies st[j] != '1' by {
        assert(in_alphabet(t[j - s.len()]));
    }
    match s.index_of_last('1') {
        Some(i) => {
            assert(st[i] == '1');
            let k = st.index_of_last('1').unwrap();
            assert(k < s.len());
            assert(s[k] == '1');
            assert(k == i);
            assert(st.subrange(0, i) =~= s.subrange(0, i));
            assert(st.subrange(i + 1, st.len() as int) =~= s.subrange(i + 1, s.len() as int)
                + t);
        },
        None => {
            if st.index_of_last('1') is Some {
                let k = st.index_of_last('1').unwrap();
                assert(s[k] == '1');
            }
        },
    }
}

/// A parseable string followed by alphabet characters parses to what it
/// parsed to before, followed by the elements that the characters name.
pub proof fn lemma_parse_hrp_append(s: Seq<char>, t: Seq<char>)
    requires
        parse_hrp(s) is Ok,
        is_base32(t),
    ensures
        parse_hrp(s + t) == Ok::<Seq<u8>, char>(parse_hrp(s)->Ok_0 + values_of(t)),
{
    lemma_parts_of_append(s, t);
    let d = data_part(s);
    assert(is_base32(d));
    assert(is_base32(d + t)) by {
        assert forall|i: int| 0 <= i < (d + t).len() implies in_alphabet(#[trigger] (d + t)[i]) by {
            if i < d.len() {
                assert(in_alphabet(d[i]));
            } else {
                assert(in_alphabet(t[i - d.len()]));
            }
        }
    }
    assert(values_of(d + t) =~= values_of(d) + values_of(t));
    assert(expand_hrp(hrp_part(s)) + (values_of(d) + values_of(t)) =~= (expand_hrp(hrp_part(s))
        + values_of(d)) + values_of(t));
}

/// A string with its checksum appended is valid: for every code and every
/// string `s` that parses, `validate_checksum` accepts what `checksum`
/// returns for `s`.
pub proof fn lemma_checksum_validates(code: Code, s: Seq<char>)
    requires
        code.wf(),
        parse_hrp(s) is Ok,
    ensures
        parse_hrp(s + code.checksum_chars(s)) is Ok,
        code.validates(s + code.checksum_chars(s)),
{
    let message = parse_hrp(s)->Ok_0;
    let k = code.degree();
    let padded = residue(code.modulus, message + zeros(k));
    let sum = code.checksum_of(message);
    lemma_parse_hrp_elems(s);
    assert(all_elems(message + zeros(k)));
    lemma_residue_len(code.modulus, message + zeros(k));
    lemma_feed_all_elems(code.modulus, unit_register(k), message + zeros(k));
    lemma_add_seq_elems(padded, code.residue);
    lemma_values_of_chars_of(sum);
    lemma_parse_hrp_append(s, code.checksum_chars(s));
    lemma_residue_of_suffix(code.modulus, message, sum);
    // The padded residue cancels against itself, and the target is left.
    lemma_add_seq_zeros(padded);
    lemma_add_seq_zeros(code.residue);
    assert(add_seq(padded, add_seq(padded, code.residue)) =~= add_seq(
        add_seq(padded, padded),
        code.residue,
    )) by {
        assert forall|i: int| 0 <= i < k implies gf_add(
            padded[i],
            gf_add(padded[i], code.residue[i]),
        ) == gf_add(gf_add(padded[i], padded[i]), code.residue[i]) by {
            lemma_add_associative(padded[i], padded[i], code.residue[i]);
        }
    }
}

/// A valid string with one character of its data part replaced by another
/// alphabet character is not valid, for every code whose generator has a
/// constant term other than zero. The data part is all that follows the last
/// separator; the checksum is its end.
pub proof fn lemma_tamper_detected(code: Code, s: Seq<char>, i: int, c: char)
    requires
        code.wf(),
        code.modulus[0] != 0,
        parse_hrp(s) is Ok,
        code.validates(s),
        0 <= i < s.len(),
        s.len() - data_part(s).len() <= i,
        in_alphabet(c),
        c != s[i],
    ensures
        parse_hrp(s.update(i, c)) is Ok,
        !code.validates(s.update(i, c)),
{
    lemma_alphabet_members();
    let t = s.update(i, c);
    let d = data_part(s);
    let off = s.len() - d.len();
    let p = i - off;
    s.index_of_last_ensures('1');
    t.index_of_last_ensures('1');
    assert(is_base32(d));
    // The last separator stays where it is.
    match s.index_of_last('1') {
        Some(q) => {
            assert(off == q + 1);
            assert(t[q] == '1');
            let r = t.index_of_last('1').unwrap();
            if r != q {
                assert(r > q);
                assert(r != i);
                assert(s[r] == '1');
            }
            assert(t.subrange(0, q) =~= s.subrange(0, q));
            assert(t.subrange(q + 1, t.len() as int) =~= d.update(p, c));
        },
        None => {
            assert(off == 0);
            if t.index_of_last('1') is Some {
                let r = t.index_of_last('1').unwrap();
                assert(r != i);
                assert(s[r] == '1');
            }
            assert(t =~= d.update(p, c));
        },
    }
    let e = d.update(p, c);
    assert(hrp_part(t) == hrp_part(s));
    assert(data_part(t) == e);
    assert(is_base32(e)) by {
        assert forall|j: int| 0 <= j < e.len() implies in_alphabet(#[trigger] e[j]) by {
            if j != p {
                assert(in_alphabet(d[j]));
            }
        }
    }
    // The two strings parse to messages that differ in one element.
    let front = expand_hrp(hrp_part(s));
    let a = parse_hrp(s)->Ok_0;
    let b = parse_hrp(t)->Ok_0;
    assert(a == front + values_of(d));
    assert(b == front + values_of(e));
    let pos = front.len() + p;
    assert(in_alphabet(d[p]));
    lemma_char_of_value_of(d[p]);
    lemma_char_of_value_of(c);
    assert(a[pos] == value_of(d[p]));
    assert(b[pos] == value_of(c));
    assert(a[pos] != b[pos]);
    assert forall|j: int| 0 <= j < a.len() && j != pos implies a[j] == b[j] by {
        if j >= front.len() {
            assert(e[j - front.len()] == d[j - front.len()]);
        }
    }
    lemma_parse_hrp_elems(s);
    lemma_parse_hrp_elems(t);
    lemma_single_error_changes_residue(code.modulus, a, b, pos);
}

/// A valid string with one ASCII character of its human-readable part
/// replaced by an alphabet character is not valid, for every code whose
/// generator has a constant term other than zero, in each of these cases: the
/// two characters have the same upper three bits, or the same lower five
/// bits, or the human-readable part is so short that its expansion is no
/// longer than a checksum.
pub proof fn lemma_tamper_detected_in_hrp(code: Code, s: Seq<char>, i: int, c: char)
    requires
        code.wf(),
        code.modulus[0] != 0,
        parse_hrp(s) is Ok,
        code.validates(s),
        0 <= i < s.len(),
        i < hrp_part(s).len(),
        in_alphabet(c),
        c != s[i],
        (s[i] as u32) < 128,
        (s[i] as u8) >> 5 == (c as u8) >> 5 || (s[i] as u8) & 0x1f == (c as u8) & 0x1f
            || encode_utf8(hrp_part(s)).len() + 2 <= code.degree(),
    ensures
        parse_hrp(s.update(i, c)) is Ok,
        !code.validates(s.update(i, c)),
{
    lemma_alphabet_members();
    let t = s.update(i, c);
    let h = hrp_part(s);
    let d = data_part(s);
    s.index_of_last_ensures('1');
    t.index_of_last_ensures('1');
    let q = s.index_of_last('1').unwrap();
    // The last separator stays where it is.
    assert(t[q] == '1');
    let r = t.index_of_last('1').unwrap();
    if r != q {
        assert(r > q);
        assert(s[r] == '1');
    }
    assert(t.subrange(0, q) =~= h.update(i, c));
    assert(t.subrange(q + 1, t.len() as int) =~= d);
    assert(hrp_part(t) == h.update(i, c));
    assert(data_part(t) == d);
    // One byte of the human-readable part changes.
    let bytes = encode_utf8(h);
    let p = encode_utf8(h.take(i)).len() as int;
    let new_byte = c as u8;
    assert(h[i] == s[i]);
    assert((c as u32) < 128);
    lemma_encode_utf8_update_ascii(h, i, c);
    assert(new_byte != s[i] as u8) by {
        vstd::utf8::char_u32_cast(c, c as u32);
        vstd::utf8::char_u32_cast(s[i], s[i] as u32);
        assert(c as u8 == c as u32);
        assert(s[i] as u8 == s[i] as u32);
    }
    lemma_expansion_of_updated_bytes(bytes, p, new_byte);
    // The two strings parse to messages that differ in one or two elements,
    // which stand one more than the length of the prefix apart.
    let a = parse_hrp(s)->Ok_0;
    let b = parse_hrp(t)->Ok_0;
    let upper = p;
    let lower = bytes.len() + 1 + p;
    assert(b =~= a.update(upper, new_byte >> 5).update(lower, new_byte & 0x1f));
    assert(a[upper] == bytes[p] >> 5);
    assert(a[lower] == bytes[p] & 0x1f);
    lemma_parse_hrp_elems(s);
    lemma_parse_hrp_elems(t);
    if a[upper] == b[upper] {
        assert(a[lower] != b[lower]);
        lemma_burst_changes_residue(code.modulus, a, b, lower, 1);
    } else if a[lower] == b[lower] {
        lemma_burst_changes_residue(code.modulus, a, b, upper, 1);
    } else {
        assert(a[upper] != b[upper]);
        lemma_burst_changes_residue(code.modulus, a, b, upper, (bytes.len() + 2) as int);
    }
}

/// Every code of the table is well formed, and its generator has a constant
/// term other than zero.
pub proof fn lemma_registry_codes()
    ensures
        forall|i: int|
            0 <= i < registry().len() ==> (#[trigger] registry()[i]).1.wf()
                && registry()[i].1.modulus[0] != 0,
{
    lemma_alphabet_members();
    reveal_strlit("ja45kap");
    reveal_strlit("qqqqqp");
    reveal_strlit("sscmleeeqg3mep");
    reveal_strlit("secretshare32");
    reveal_strlit("hyk9x4hx4ef6e20p");
    reveal_strlit("secretshare32ex");
    lemma_value_of_p();
    lemma_values_of_elems("ja45kap"@);
    lemma_values_of_elems("qqqqqp"@);
    lemma_values_of_elems("sscmleeeqg3mep"@);
    lemma_values_of_elems("secretshare32"@);
    lemma_values_of_elems("hyk9x4hx4ef6e20p"@);
    lemma_values_of_elems("secretshare32ex"@);
    lemma_value_of_q();
    lemma_char_of_value_of('j');
    lemma_char_of_value_of('s');
    lemma_char_of_value_of('h');
}

} // verus!
