//! The checksum engine: codes, residues, and the table of named codes.

use crate::alphabet::{
    chars_of, is_base32, lemma_alphabet_members, lemma_value_of_p, lemma_values_of_elems,
    values_of,
};
use crate::base32::{u5, u5String, views};
use crate::gf32::{gf_add, gf_mul, lemma_add_zero_iff_equal};
use crate::hrp::parse_hrp;
use crate::polymod::{
    add_seq, all_elems, feed, feed_all, lemma_feed_all_take_next, lemma_residue_len, residue,
    shift_register, unit_register, zeros,
};
use crate::text::str_eq;
use vstd::prelude::*;

verus! {

/// What a code is made of: the coefficients of its generator in ascending
/// order, the leading 1 included, and its target residue.
pub struct Code {
    /// The coefficients of the generator, the constant term first and the
    /// leading 1 last.
    pub modulus: Seq<u8>,
    /// The residue of a valid message, highest coefficient first.
    pub residue: Seq<u8>,
}

impl Code {
    /// The degree of the generator, which is the length of a checksum.
    pub open spec fn degree(self) -> nat {
        self.residue.len()
    }

    /// Whether the two sequences form a code: the generator has positive
    /// degree and leading coefficient 1, the target has one coefficient for
    /// each checksum position, and all of them are field elements.
    pub open spec fn wf(self) -> bool {
        &&& self.residue.len() >= 1
        &&& self.modulus.len() == self.residue.len() + 1
        &&& self.modulus.last() == 1
        &&& all_elems(self.modulus)
        &&& all_elems(self.residue)
    }

    /// The checksum of a message: the residue of the message followed by
    /// one zero for each checksum position, plus the target.
    pub open spec fn checksum_of(self, message: Seq<u8>) -> Seq<u8> {
        add_seq(residue(self.modulus, message + zeros(self.degree())), self.residue)
    }

    /// Whether a message that already ends in its checksum is valid: its
    /// residue is the target.
    pub open spec fn accepts(self, message: Seq<u8>) -> bool {
        residue(self.modulus, message) == self.residue
    }

    /// The characters that `checksum` appends to the string `s`.
    pub open spec fn checksum_chars(self, s: Seq<char>) -> Seq<char>
        recommends
            parse_hrp(s) is Ok,
    {
        chars_of(self.checksum_of(parse_hrp(s)->Ok_0))
    }

    /// Whether the string `s`, read in HRP form, is valid.
    pub open spec fn validates(self, s: Seq<char>) -> bool
        recommends
            parse_hrp(s) is Ok,
    {
        self.accepts(parse_hrp(s)->Ok_0)
    }
}

/// A checksum code.
#[derive(PartialEq, Eq, Debug)]
pub struct Checksum {
    /// The generator, lowest coefficient first, ending in its leading 1.
    modulus: u5String,
    /// The residue of a valid string.
    residue: u5String,
}

impl View for Checksum {
    type V = Code;

    closed spec fn view(&self) -> Code {
        Code { modulus: self.modulus@, residue: self.residue@ }
    }
}

impl Clone for Checksum {
    fn clone(&self) -> (r: Checksum)
        ensures
            r@ == self@,
    {
        proof {
            use_type_invariant(self);
        }
        Checksum { modulus: self.modulus.clone(), residue: self.residue.clone() }
    }
}

impl Checksum {
    /// Every code is well formed.
    #[verifier::type_invariant]
    pub open spec fn inv(self) -> bool {
        self@.wf()
    }

    /// The code with the given generator and target, each written in the
    /// alphabet.
    pub fn new(modulus_str: &str, residue_str: &str) -> (r: Checksum)
        requires
            is_base32(modulus_str@),
            is_base32(residue_str@),
            residue_str@.len() >= 1,
            modulus_str@.len() == residue_str@.len() + 1,
            modulus_str@.last() == 'p',
        ensures
            r@.modulus == values_of(modulus_str@),
            r@.residue == values_of(residue_str@),
            r@.wf(),
    {
        let modulus = u5String::from_str(modulus_str).unwrap();
        let residue = u5String::from_str(residue_str).unwrap();
        proof {
            lemma_values_of_elems(modulus_str@);
            lemma_values_of_elems(residue_str@);
            lemma_value_of_p();
        }
        Checksum { modulus, residue }
    }

    /// Multiplies the register by `x` and reduces it modulo the generator.
    fn shift(&self, result: &mut Vec<u5>)
        requires
            old(result)@.len() == self@.degree(),
        ensures
            final(result)@.len() == self@.degree(),
            views(final(result)@) == shift_register(self@.modulus, views(old(result)@)),
    {
        proof {
            use_type_invariant(self);
        }
        let k: usize = result.len();
        let ghost before = views(result@);
        // The coefficient that leaves at the top.
        let xn: u5 = result[0];
        let mut i: usize = 1;
        while i < k
            invariant
                1 <= i <= k,
                k == result@.len(),
                before.len() == k,
                forall|j: int| 0 <= j < i - 1 ==> (#[trigger] result@[j])@ == before[j + 1],
                forall|j: int| i - 1 <= j < k ==> (#[trigger] result@[j])@ == before[j],
            decreases k - i,
        {
            let x: u5 = result[i];
            result[i - 1] = x;
            i += 1;
        }
        result[k - 1] = u5::from_u8(0);
        let ghost moved = views(result@);
        assert forall|j: int| 0 <= j < k implies #[trigger] moved[j] == if j + 1 < k {
            before[j + 1]
        } else {
            0u8
        } by {
            assert(moved[j] == result@[j]@);
        }
        // The generator is read from its end, without its leading 1.
        let mut i: usize = 0;
        while i < k
            invariant
                0 <= i <= k,
                k == result@.len(),
                k == self@.degree(),
                self@.modulus.len() == k + 1,
                moved.len() == k,
                forall|j: int|
                    0 <= j < i ==> (#[trigger] result@[j])@ == gf_add(
                        moved[j],
                        gf_mul(self@.modulus[k - 1 - j], xn@),
                    ),
                forall|j: int| i <= j < k ==> (#[trigger] result@[j])@ == moved[j],
            decreases k - i,
        {
            let g: u5 = self.modulus[k - 1 - i];
            let x: u5 = result[i] + g * xn;
            result[i] = x;
            i += 1;
        }
        assert(views(result@) =~= shift_register(self@.modulus, before));
    }

    /// The residue of `input` plus the target residue.
    pub fn polymod(&self, input: &u5String) -> (r: u5String)
        ensures
            r@ == add_seq(residue(self@.modulus, input@), self@.residue),
    {
        proof {
            use_type_invariant(self);
        }
        let k: usize = self.residue.len();
        let ghost g = self@.modulus;
        let ghost unit = unit_register(k as nat);
        let mut ret: Vec<u5> = Vec::new();
        let mut i: usize = 0;
        while i < k
            invariant
                0 <= i <= k,
                ret@.len() == i,
                forall|j: int| 0 <= j < i ==> (#[trigger] ret@[j])@ == 0,
            decreases k - i,
        {
            ret.push(u5::from_u8(0));
            i += 1;
        }
        // Start with the polynomial 1.
        ret[k - 1] = u5::from_u8(1);
        assert(views(ret@) =~= unit);
        let n: usize = input.len();
        let mut i: usize = 0;
        assert(input@.take(0) == Seq::<u8>::empty());
        while i < n
            invariant
                0 <= i <= n,
                n == input@.len(),
                k >= 1,
                k == self@.degree(),
                g == self@.modulus,
                ret@.len() == k,
                views(ret@) == feed_all(g, unit, input@.take(i as int)),
            decreases n - i,
        {
            let ghost before = views(ret@);
            self.shift(&mut ret);
            let x: u5 = ret[k - 1] + input[i];
            ret[k - 1] = x;
            proof {
                lemma_feed_all_take_next(g, unit, input@, i as int);
                assert(views(ret@) =~= feed(g, before, input@[i as int]));
            }
            i += 1;
        }
        assert(input@.take(n as int) == input@);
        let ghost raw = views(ret@);
        // Add the target residue.
        let mut i: usize = 0;
        while i < k
            invariant
                0 <= i <= k,
                k == self@.degree(),
                ret@.len() == k,
                raw.len() == k,
                forall|j: int|
                    0 <= j < i ==> (#[trigger] ret@[j])@ == gf_add(raw[j], self@.residue[j]),
                forall|j: int| i <= j < k ==> (#[trigger] ret@[j])@ == raw[j],
            decreases k - i,
        {
            let x: u5 = ret[i] + self.residue[i];
            ret[i] = x;
            i += 1;
        }
        let r = u5String::from(ret);
        assert(r@ =~= add_seq(raw, self@.residue));
        r
    }

    /// The string `s` with its checksum appended.
    pub fn checksum(&self, s: &str) -> (out: String)
        requires
            parse_hrp(s@) is Ok,
        ensures
            out@ == s@ + self@.checksum_chars(s@),
    {
        proof {
            use_type_invariant(self);
        }
        // Parse the string, then put zeros where the checksum will stand.
        let mut input = u5String::from_hrpstring(s).unwrap();
        let ghost message = input@;
        let k: usize = self.residue.len();
        let mut i: usize = 0;
        while i < k
            invariant
                0 <= i <= k,
                input@ == message + zeros(i as nat),
            decreases k - i,
        {
            input.push(u5::from_u8(0));
            assert(input@ == message + zeros((i + 1) as nat));
            i += 1;
        }
        let checksum = self.polymod(&input);
        let mut ret = String::from_str(s);
        let tail = checksum.to_string();
        ret.append(tail.as_str());
        ret
    }

    /// Whether the string `s`, which already ends in its checksum, is valid.
    pub fn validate_checksum(&self, s: &str) -> (ok: bool)
        requires
            parse_hrp(s@) is Ok,
        ensures
            ok == self@.validates(s@),
    {
        proof {
            use_type_invariant(self);
        }
        let input = u5String::from_hrpstring(s).unwrap();
        let sum = self.polymod(&input);
        let ok = sum.is_all_zero();
        proof {
            let raw = residue(self@.modulus, input@);
            let target = self@.residue;
            lemma_residue_len(self@.modulus, input@);
            if ok {
                assert forall|i: int| 0 <= i < raw.len() implies raw[i] == target[i] by {
                    assert(sum@[i] == 0);
                    lemma_add_zero_iff_equal(raw[i], target[i]);
                }
                assert(raw =~= target);
            } else {
                let i = choose|i: int| 0 <= i < sum@.len() && sum@[i] != 0;
                lemma_add_zero_iff_equal(raw[i], target[i]);
            }
        }
        ok
    }
}

/// The code whose generator and target are written as `modulus` and
/// `residue`.
pub open spec fn code_of(modulus: Seq<char>, residue: Seq<char>) -> Code {
    Code { modulus: values_of(modulus), residue: values_of(residue) }
}

/// The table of codes: each name with its code.
pub open spec fn registry() -> Seq<(Seq<char>, Code)> {
    seq![
        ("bech32"@, code_of("ja45kap"@, "qqqqqp"@)),
        ("codex32"@, code_of("sscmleeeqg3mep"@, "secretshare32"@)),
        ("long-codex32"@, code_of("hyk9x4hx4ef6e20p"@, "secretshare32ex"@)),
    ]
}

/// The table of the codes that this library knows, in the order of
/// `registry`.
pub fn get_checksums() -> (r: Vec<(&'static str, Checksum)>)
    ensures
        r@.len() == registry().len(),
        forall|i: int|
            0 <= i < r@.len() ==> (#[trigger] r@[i]).0@ == registry()[i].0 && r@[i].1@
                == registry()[i].1,
{
    proof {
        lemma_alphabet_members();
        reveal_strlit("ja45kap");
        reveal_strlit("qqqqqp");
        reveal_strlit("sscmleeeqg3mep");
        reveal_strlit("secretshare32");
        reveal_strlit("hyk9x4hx4ef6e20p");
        reveal_strlit("secretshare32ex");
    }
    let mut table: Vec<(&'static str, Checksum)> = Vec::new();
    table.push(("bech32", Checksum::new("ja45kap", "qqqqqp")));
    table.push(("codex32", Checksum::new("sscmleeeqg3mep", "secretshare32")));
    table.push(("long-codex32", Checksum::new("hyk9x4hx4ef6e20p", "secretshare32ex")));
    table
}

/// Whether entry `i` of the table has the given name.
pub open spec fn is_entry(name: Seq<char>, i: int) -> bool {
    0 <= i < registry().len() && registry()[i].0 == name
}

/// The code of the table that has the given name, letter for letter.
pub open spec fn lookup(name: Seq<char>) -> Option<Code> {
    if exists|i: int| is_entry(name, i) {
        Some(registry()[choose|i: int| is_entry(name, i)].1)
    } else {
        None
    }
}

/// No name stands twice in the table.
pub proof fn lemma_registry_names_distinct()
    ensures
        forall|i: int, j: int|
            0 <= i < registry().len() && 0 <= j < registry().len() && registry()[i].0
                == registry()[j].0 ==> i == j,
{
    reveal_strlit("bech32");
    reveal_strlit("codex32");
    reveal_strlit("long-codex32");
    assert(registry().len() == 3);
    assert(registry()[0].0.len() == 6);
    assert(registry()[1].0.len() == 7);
    assert(registry()[2].0.len() == 12);
}

/// The code that has the given name, if the table holds one.
pub fn find_checksum(name: &str) -> (r: Option<Checksum>)
    ensures
        match r {
            Some(c) => lookup(name@) == Some(c@),
            None => lookup(name@) is None,
        },
{
    let table = get_checksums();
    let n: usize = table.len();
    let mut i: usize = 0;
    while i < n
        invariant
            n == table@.len(),
            n == registry().len(),
            0 <= i <= n,
            forall|j: int|
                0 <= j < n ==> (#[trigger] table@[j]).0@ == registry()[j].0 && table@[j].1@
                    == registry()[j].1,
            forall|j: int| 0 <= j < i ==> !is_entry(name@, j),
        decreases n - i,
    {
        if str_eq(table[i].0, name) {
            proof {
                lemma_registry_names_distinct();
                assert(is_entry(name@, i as int));
            }
            return Some(table[i].1.clone());
        }
        i += 1;
    }
    None
}

} // verus!
