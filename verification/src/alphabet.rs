//! The 32-character alphabet that names the field elements.

use vstd::prelude::*;

verus! {

/// The alphabet: the character at position `i` names the element `i`.
#[verifier::opaque]
pub open spec fn alphabet() -> Seq<char> {
    seq![
        'q', 'p', 'z', 'r', 'y', '9', 'x', '8', 'g', 'f', '2', 't', 'v', 'd', 'w', '0',
        's', '3', 'j', 'n', '5', '4', 'k', 'h', 'c', 'e', '6', 'm', 'u', 'a', '7', 'l',
    ]
}

/// Whether `c` is one of the 32 characters.
pub open spec fn in_alphabet(c: char) -> bool {
    alphabet().contains(c)
}

/// The character that names the element `v`.
pub open spec fn char_of(v: u8) -> char
    recommends
        v < 32,
{
    alphabet()[v as int]
}

/// The element that the character `c` names.
pub open spec fn value_of(c: char) -> u8
    recommends
        in_alphabet(c),
{
    alphabet().index_of(c) as u8
}

/// No character stands at two positions of the alphabet.
pub proof fn lemma_alphabet_distinct()
    ensures
        alphabet().len() == 32,
        forall|i: int, j: int|
            0 <= i < 32 && 0 <= j < 32 && alphabet()[i] == alphabet()[j] ==> i == j,
{
    reveal(alphabet);
}

/// The alphabet holds the 32 characters and no other.
pub proof fn lemma_alphabet_members()
    ensures
        forall|c: char|
            #![trigger in_alphabet(c)]
            in_alphabet(c) <==> (
                c == 'q' || c == 'p' || c == 'z' || c == 'r' || c == 'y' || c == '9'
                || c == 'x' || c == '8' || c == 'g' || c == 'f' || c == '2' || c == 't'
                || c == 'v' || c == 'd' || c == 'w' || c == '0' || c == 's' || c == '3'
                || c == 'j' || c == 'n' || c == '5' || c == '4' || c == 'k' || c == 'h'
                || c == 'c' || c == 'e' || c == '6' || c == 'm' || c == 'u' || c == 'a'
                || c == '7' || c == 'l'
            ),
{
    reveal(alphabet);
    assert(alphabet()[0] == 'q');
    assert(alphabet()[1] == 'p');
    assert(alphabet()[2] == 'z');
    assert(alphabet()[3] == 'r');
    assert(alphabet()[4] == 'y');
    assert(alphabet()[5] == '9');
    assert(alphabet()[6] == 'x');
    assert(alphabet()[7] == '8');
    assert(alphabet()[8] == 'g');
    assert(alphabet()[9] == 'f');
    assert(alphabet()[10] == '2');
    assert(alphabet()[11] == 't');
    assert(alphabet()[12] == 'v');
    assert(alphabet()[13] == 'd');
    assert(alphabet()[14] == 'w');
    assert(alphabet()[15] == '0');
    assert(alphabet()[16] == 's');
    assert(alphabet()[17] == '3');
    assert(alphabet()[18] == 'j');
    assert(alphabet()[19] == 'n');
    assert(alphabet()[20] == '5');
    assert(alphabet()[21] == '4');
    assert(alphabet()[22] == 'k');
    assert(alphabet()[23] == 'h');
    assert(alphabet()[24] == 'c');
    assert(alphabet()[25] == 'e');
    assert(alphabet()[26] == '6');
    assert(alphabet()[27] == 'm');
    assert(alphabet()[28] == 'u');
    assert(alphabet()[29] == 'a');
    assert(alphabet()[30] == '7');
    assert(alphabet()[31] == 'l');
}

/// Reading a character's value and writing it out again gives the
/// character back.
pub proof fn lemma_char_of_value_of(c: char)
    requires
        in_alphabet(c),
    ensures
        value_of(c) < 32,
        char_of(value_of(c)) == c,
{
    lemma_alphabet_distinct();
}

/// Writing a value out and reading the character gives the value back.
pub proof fn lemma_value_of_char_of(v: u8)
    requires
        v < 32,
    ensures
        in_alphabet(char_of(v)),
        value_of(char_of(v)) == v,
{
    lemma_alphabet_distinct();
}

/// Whether every character of `s` is in the alphabet.
pub open spec fn is_base32(s: Seq<char>) -> bool {
    forall|i: int| 0 <= i < s.len() ==> in_alphabet(#[trigger] s[i])
}

/// The elements that the characters of `s` name, in order.
pub open spec fn values_of(s: Seq<char>) -> Seq<u8> {
    s.map_values(|c: char| value_of(c))
}

/// The characters that name the elements of `v`, in order.
pub open spec fn chars_of(v: Seq<u8>) -> Seq<char> {
    v.map_values(|x: u8| char_of(x))
}

/// The elements of a prefix of `s` that is one character longer.
pub proof fn lemma_values_of_take_next(s: Seq<char>, i: int)
    requires
        0 <= i < s.len(),
    ensures
        values_of(s.take(i + 1)) == values_of(s.take(i)).push(value_of(s[i])),
{
}

/// The characters of a prefix of `v` that is one element longer.
pub proof fn lemma_chars_of_take_next(v: Seq<u8>, i: int)
    requires
        0 <= i < v.len(),
    ensures
        chars_of(v.take(i + 1)) == chars_of(v.take(i)).push(char_of(v[i])),
{
}

/// Every character of the alphabet names a field element.
pub proof fn lemma_values_of_elems(s: Seq<char>)
    requires
        is_base32(s),
    ensures
        values_of(s).len() == s.len(),
        forall|i: int| 0 <= i < s.len() ==> #[trigger] values_of(s)[i] < 32,
{
    assert forall|i: int| 0 <= i < s.len() implies #[trigger] values_of(s)[i] < 32 by {
        assert(in_alphabet(s[i]));
        lemma_char_of_value_of(s[i]);
    }
}

/// The character `p` names the element 1.
pub proof fn lemma_value_of_p()
    ensures
        in_alphabet('p'),
        value_of('p') == 1,
{
    reveal(alphabet);
    assert(alphabet()[1] == 'p');
    lemma_alphabet_distinct();
}

/// The character `q` names the element 0, and no other character does.
pub proof fn lemma_value_of_q()
    ensures
        in_alphabet('q'),
        value_of('q') == 0,
        forall|c: char| in_alphabet(c) && value_of(c) == 0 ==> c == 'q',
{
    reveal(alphabet);
    assert(alphabet()[0] == 'q');
    lemma_alphabet_distinct();
}

/// Whether `i` is the position of the first character of `s` that is not in
/// the alphabet.
pub open spec fn is_first_invalid(s: Seq<char>, i: int) -> bool {
    &&& 0 <= i < s.len()
    &&& !in_alphabet(s[i])
    &&& forall|j: int| 0 <= j < i ==> in_alphabet(#[trigger] s[j])
}

/// What reading `s` as base32 gives: its elements, or the first character
/// that names none.
pub open spec fn decode(s: Seq<char>) -> Result<Seq<u8>, char> {
    if is_base32(s) {
        Ok(values_of(s))
    } else {
        Err(s[choose|i: int| is_first_invalid(s, i)])
    }
}

/// A string with a character outside the alphabet decodes to the first such
/// character.
pub proof fn lemma_decode_invalid(s: Seq<char>, i: int)
    requires
        is_first_invalid(s, i),
    ensures
        decode(s) == Err::<Seq<u8>, char>(s[i]),
{
    let j = choose|j: int| is_first_invalid(s, j);
    assert(is_first_invalid(s, j));
    assert(i == j) by {
        if i < j {
            assert(in_alphabet(s[i]));
        } else if j < i {
            assert(in_alphabet(s[j]));
        }
    }
}

} // verus!
