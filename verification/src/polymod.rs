//! The remainder of a polynomial over GF(32) modulo a generator, as a
//! register that takes the coefficients one by one.
//!
//! A generator of degree `k` is a sequence of `k + 1` coefficients in
//! ascending order whose last one, the leading coefficient, is 1. A register
//! holds `k` coefficients in descending order: position 0 is the coefficient
//! of `x^(k-1)`.

use crate::gf32::{
    gf_add, gf_mul, is_elem, lemma_add_self_inverse, lemma_add_zero_iff_equal, lemma_closed,
    lemma_mul_distributive, lemma_mul_one, lemma_no_zero_divisors,
};
use vstd::prelude::*;

verus! {

/// Whether every member of `s` represents a field element.
pub open spec fn all_elems(s: Seq<u8>) -> bool {
    forall|i: int| 0 <= i < s.len() ==> is_elem(#[trigger] s[i])
}

/// `k` zeros.
pub open spec fn zeros(k: nat) -> Seq<u8> {
    Seq::new(k, |i: int| 0u8)
}

/// The register that holds the polynomial 1.
pub open spec fn unit_register(k: nat) -> Seq<u8> {
    Seq::new(k, |i: int| if i == k - 1 { 1u8 } else { 0u8 })
}

/// The sum of two sequences of equal length, member by member.
pub open spec fn add_seq(a: Seq<u8>, b: Seq<u8>) -> Seq<u8>
    recommends
        a.len() == b.len(),
{
    Seq::new(a.len(), |i: int| gf_add(a[i], b[i]))
}

/// The register times `x`, reduced modulo the generator: every coefficient
/// moves up one place, and the one that leaves at the top comes back in as
/// its multiples of the generator's lower coefficients.
pub open spec fn shift_register(generator: Seq<u8>, reg: Seq<u8>) -> Seq<u8> {
    let k = reg.len() as int;
    Seq::new(
        reg.len(),
        |i: int|
            gf_add(if i + 1 < k { reg[i + 1] } else { 0u8 }, gf_mul(generator[k - 1 - i], reg[0])),
    )
}

/// The register after it has taken the coefficient `c`: the register times
/// `x`, plus `c`.
pub open spec fn feed(generator: Seq<u8>, reg: Seq<u8>, c: u8) -> Seq<u8> {
    let shifted = shift_register(generator, reg);
    let last = reg.len() - 1;
    if reg.len() == 0 {
        reg
    } else {
        shifted.update(last, gf_add(shifted[last], c))
    }
}

/// The register after it has taken the coefficients of `input` in order.
pub open spec fn feed_all(generator: Seq<u8>, reg: Seq<u8>, input: Seq<u8>) -> Seq<u8>
    decreases input.len(),
{
    if input.len() == 0 {
        reg
    } else {
        feed(generator, feed_all(generator, reg, input.drop_last()), input.last())
    }
}

/// The residue of `input` for a generator of degree `k`: what the register
/// holds after it started as the polynomial 1 and took all of `input`.
pub open spec fn residue(generator: Seq<u8>, input: Seq<u8>) -> Seq<u8> {
    feed_all(generator, unit_register((generator.len() - 1) as nat), input)
}

/// Feeding coefficients keeps the length of the register.
pub proof fn lemma_feed_all_len(generator: Seq<u8>, reg: Seq<u8>, input: Seq<u8>)
    ensures
        feed_all(generator, reg, input).len() == reg.len(),
    decreases input.len(),
{
    if input.len() > 0 {
        lemma_feed_all_len(generator, reg, input.drop_last());
    }
}

/// A residue has one coefficient for each checksum position.
pub proof fn lemma_residue_len(generator: Seq<u8>, input: Seq<u8>)
    requires
        generator.len() >= 1,
    ensures
        residue(generator, input).len() == generator.len() - 1,
{
    lemma_feed_all_len(generator, unit_register((generator.len() - 1) as nat), input);
}

/// Feeding a prefix that is one coefficient longer.
pub proof fn lemma_feed_all_take_next(generator: Seq<u8>, reg: Seq<u8>, input: Seq<u8>, i: int)
    requires
        0 <= i < input.len(),
    ensures
        feed_all(generator, reg, input.take(i + 1)) == feed(
            generator,
            feed_all(generator, reg, input.take(i)),
            input[i],
        ),
{
    assert(input.take(i + 1).drop_last() == input.take(i));
}

/// Whether `generator` and `reg` fit together: the generator has one
/// coefficient more than the register, and all of them are field elements.
pub open spec fn fits(generator: Seq<u8>, reg: Seq<u8>) -> bool {
    &&& generator.len() == reg.len() + 1
    &&& all_elems(generator)
    &&& all_elems(reg)
}

/// A sum of two sums, taken the other way round.
proof fn lemma_add_interchange(a: u8, b: u8, c: u8, d: u8)
    ensures
        gf_add(gf_add(a, b), gf_add(c, d)) == gf_add(gf_add(a, c), gf_add(b, d)),
{
    assert((a ^ b) ^ (c ^ d) == (a ^ c) ^ (b ^ d)) by (bit_vector);
}

/// A register that took a coefficient holds field elements again.
pub proof fn lemma_feed_elems(generator: Seq<u8>, reg: Seq<u8>, c: u8)
    requires
        fits(generator, reg),
        is_elem(c),
    ensures
        fits(generator, shift_register(generator, reg)),
        fits(generator, feed(generator, reg, c)),
{
    let k = reg.len() as int;
    let shifted = shift_register(generator, reg);
    assert forall|i: int| 0 <= i < k implies is_elem(#[trigger] shifted[i]) by {
        let up = if i + 1 < k {
            reg[i + 1]
        } else {
            0u8
        };
        lemma_closed(generator[k - 1 - i], reg[0]);
        lemma_closed(up, gf_mul(generator[k - 1 - i], reg[0]));
    }
    if k > 0 {
        lemma_closed(shifted[k - 1], c);
    }
}

/// A register that took a whole input holds field elements.
pub proof fn lemma_feed_all_elems(generator: Seq<u8>, reg: Seq<u8>, input: Seq<u8>)
    requires
        fits(generator, reg),
        all_elems(input),
    ensures
        fits(generator, feed_all(generator, reg, input)),
    decreases input.len(),
{
    if input.len() > 0 {
        lemma_feed_all_elems(generator, reg, input.drop_last());
        lemma_feed_elems(
            generator,
            feed_all(generator, reg, input.drop_last()),
            input.last(),
        );
    }
}

/// The sum of two sequences of field elements is one.
pub proof fn lemma_add_seq_elems(a: Seq<u8>, b: Seq<u8>)
    requires
        a.len() == b.len(),
        all_elems(a),
        all_elems(b),
    ensures
        all_elems(add_seq(a, b)),
        add_seq(a, b).len() == a.len(),
{
    assert forall|i: int| 0 <= i < a.len() implies is_elem(#[trigger] add_seq(a, b)[i]) by {
        lemma_closed(a[i], b[i]);
    }
}

/// Adding zeros changes nothing, and a sequence added to itself gives zeros.
pub proof fn lemma_add_seq_zeros(a: Seq<u8>)
    ensures
        add_seq(a, zeros(a.len())) == a,
        add_seq(zeros(a.len()), a) == a,
        add_seq(a, a) == zeros(a.len()),
{
    assert forall|i: int| 0 <= i < a.len() implies gf_add(a[i], 0) == a[i] && gf_add(0, a[i])
        == a[i] && gf_add(a[i], a[i]) == 0 by {
        lemma_add_self_inverse(a[i]);
    }
    assert(add_seq(a, zeros(a.len())) =~= a);
    assert(add_seq(zeros(a.len()), a) =~= a);
    assert(add_seq(a, a) =~= zeros(a.len()));
}

/// Taking one coefficient is linear: the sum of two registers that takes the
/// sum of two coefficients is the sum of what each register would hold.
pub proof fn lemma_feed_linear(generator: Seq<u8>, a: Seq<u8>, b: Seq<u8>, c: u8, d: u8)
    requires
        fits(generator, a),
        fits(generator, b),
        is_elem(c),
        is_elem(d),
    ensures
        feed(generator, add_seq(a, b), gf_add(c, d)) == add_seq(
            feed(generator, a, c),
            feed(generator, b, d),
        ),
{
    let k = a.len() as int;
    let ab = add_seq(a, b);
    let sa = shift_register(generator, a);
    let sb = shift_register(generator, b);
    let sab = shift_register(generator, ab);
    assert forall|i: int| 0 <= i < k implies #[trigger] sab[i] == gf_add(sa[i], sb[i]) by {
        let g = generator[k - 1 - i];
        lemma_mul_distributive(g, a[0], b[0]);
        if i + 1 < k {
            lemma_add_interchange(a[i + 1], b[i + 1], gf_mul(g, a[0]), gf_mul(g, b[0]));
        } else {
            lemma_add_self_inverse(0);
            lemma_add_interchange(0, 0, gf_mul(g, a[0]), gf_mul(g, b[0]));
        }
    }
    if k > 0 {
        lemma_add_interchange(sa[k - 1], sb[k - 1], c, d);
    }
    assert(feed(generator, ab, gf_add(c, d)) =~= add_seq(
        feed(generator, a, c),
        feed(generator, b, d),
    ));
}

/// Taking a whole input is linear.
pub proof fn lemma_feed_all_linear(
    generator: Seq<u8>,
    a: Seq<u8>,
    b: Seq<u8>,
    x: Seq<u8>,
    y: Seq<u8>,
)
    requires
        fits(generator, a),
        fits(generator, b),
        x.len() == y.len(),
        all_elems(x),
        all_elems(y),
    ensures
        feed_all(generator, add_seq(a, b), add_seq(x, y)) == add_seq(
            feed_all(generator, a, x),
            feed_all(generator, b, y),
        ),
    decreases x.len(),
{
    if x.len() > 0 {
        let xy = add_seq(x, y);
        assert(xy.drop_last() =~= add_seq(x.drop_last(), y.drop_last()));
        lemma_feed_all_linear(generator, a, b, x.drop_last(), y.drop_last());
        lemma_feed_all_elems(generator, a, x.drop_last());
        lemma_feed_all_elems(generator, b, y.drop_last());
        lemma_feed_linear(
            generator,
            feed_all(generator, a, x.drop_last()),
            feed_all(generator, b, y.drop_last()),
            x.last(),
            y.last(),
        );
    }
}

/// Taking a concatenation is taking its first part, then its second.
pub proof fn lemma_feed_all_concat(generator: Seq<u8>, reg: Seq<u8>, x: Seq<u8>, y: Seq<u8>)
    ensures
        feed_all(generator, reg, x + y) == feed_all(generator, feed_all(generator, reg, x), y),
    decreases y.len(),
{
    if y.len() == 0 {
        assert(x + y =~= x);
    } else {
        assert((x + y).drop_last() =~= x + y.drop_last());
        lemma_feed_all_concat(generator, reg, x, y.drop_last());
    }
}

/// A register of zeros that takes at most as many coefficients as it has
/// places holds just those coefficients, at its low end.
pub proof fn lemma_feed_all_into_zeros(generator: Seq<u8>, k: nat, v: Seq<u8>)
    requires
        fits(generator, zeros(k)),
        all_elems(v),
        v.len() <= k,
    ensures
        feed_all(generator, zeros(k), v) == zeros((k - v.len()) as nat) + v,
    decreases v.len(),
{
    if v.len() == 0 {
        assert(zeros(k) + v =~= zeros(k));
    } else {
        let front = v.drop_last();
        lemma_feed_all_into_zeros(generator, k, front);
        let reg = zeros((k - front.len()) as nat) + front;
        let shifted = shift_register(generator, reg);
        assert(reg[0] == 0);
        assert forall|i: int| 0 <= i < k implies #[trigger] shifted[i] == if i + 1 < k {
            reg[i + 1]
        } else {
            0u8
        } by {
            lemma_mul_one(generator[k - 1 - i]);
            let up = if i + 1 < k {
                reg[i + 1]
            } else {
                0u8
            };
            lemma_add_self_inverse(up);
        }
        lemma_add_self_inverse(v.last());
        assert(feed(generator, reg, v.last()) =~= zeros((k - v.len()) as nat) + v);
    }
}

/// The residue of a message followed by `k` more coefficients is the residue
/// of the message followed by `k` zeros, plus those coefficients.
pub proof fn lemma_residue_of_suffix(generator: Seq<u8>, message: Seq<u8>, v: Seq<u8>)
    requires
        generator.len() == v.len() + 1,
        all_elems(generator),
        all_elems(message),
        all_elems(v),
    ensures
        residue(generator, message + v) == add_seq(
            residue(generator, message + zeros(v.len())),
            v,
        ),
{
    let k = v.len();
    let unit = unit_register(k);
    let reg = feed_all(generator, unit, message);
    lemma_feed_all_elems(generator, unit, message);
    lemma_feed_all_concat(generator, unit, message, v);
    lemma_feed_all_concat(generator, unit, message, zeros(k));
    lemma_add_seq_zeros(reg);
    lemma_add_seq_zeros(v);
    lemma_feed_all_linear(generator, reg, zeros(k), zeros(k), v);
    lemma_feed_all_into_zeros(generator, k, v);
    assert(zeros(0) + v =~= v);
}

/// Whether some coefficient of `reg` is not zero.
pub open spec fn is_nonzero(reg: Seq<u8>) -> bool {
    exists|i: int| 0 <= i < reg.len() && #[trigger] reg[i] != 0
}

/// With a generator whose constant term is not zero, a register that is not
/// zero is not zero after a shift: `x` is invertible modulo the generator.
pub proof fn lemma_shift_nonzero(generator: Seq<u8>, reg: Seq<u8>)
    requires
        fits(generator, reg),
        generator[0] != 0,
        is_nonzero(reg),
    ensures
        is_nonzero(shift_register(generator, reg)),
{
    let k = reg.len() as int;
    let shifted = shift_register(generator, reg);
    if reg[0] != 0 {
        let m = gf_mul(generator[0], reg[0]);
        if m == 0 {
            lemma_no_zero_divisors(generator[0], reg[0]);
        }
        lemma_add_self_inverse(m);
        assert(shifted[k - 1] == gf_add(0u8, m));
        assert(shifted[k - 1] != 0);
    } else {
        let i = choose|i: int| 0 <= i < reg.len() && #[trigger] reg[i] != 0;
        lemma_mul_one(generator[k - i]);
        lemma_add_self_inverse(reg[i]);
        assert(shifted[i - 1] == reg[i]);
    }
}

/// Taking a zero is a shift.
pub proof fn lemma_feed_zero(generator: Seq<u8>, reg: Seq<u8>)
    ensures
        feed(generator, reg, 0) == shift_register(generator, reg),
{
    if reg.len() > 0 {
        lemma_add_self_inverse(shift_register(generator, reg)[reg.len() - 1]);
    }
    assert(feed(generator, reg, 0) =~= shift_register(generator, reg));
}

/// With a generator whose constant term is not zero, a register that is not
/// zero is not zero after it took any number of zeros.
pub proof fn lemma_feed_zeros_nonzero(generator: Seq<u8>, reg: Seq<u8>, n: nat)
    requires
        fits(generator, reg),
        generator[0] != 0,
        is_nonzero(reg),
    ensures
        is_nonzero(feed_all(generator, reg, zeros(n))),
    decreases n,
{
    if n > 0 {
        assert(zeros(n).drop_last() =~= zeros((n - 1) as nat));
        lemma_feed_zeros_nonzero(generator, reg, (n - 1) as nat);
        let before = feed_all(generator, reg, zeros((n - 1) as nat));
        lemma_feed_all_elems(generator, reg, zeros((n - 1) as nat));
        lemma_feed_zero(generator, before);
        lemma_shift_nonzero(generator, before);
    }
}

/// A register of zeros that takes zeros stays a register of zeros.
pub proof fn lemma_feed_zeros_into_zeros(generator: Seq<u8>, k: nat, n: nat)
    requires
        fits(generator, zeros(k)),
    ensures
        feed_all(generator, zeros(k), zeros(n)) == zeros(k),
    decreases n,
{
    if n > 0 {
        assert(zeros(n).drop_last() =~= zeros((n - 1) as nat));
        lemma_feed_zeros_into_zeros(generator, k, (n - 1) as nat);
        lemma_feed_zero(generator, zeros(k));
        let shifted = shift_register(generator, zeros(k));
        assert forall|i: int| 0 <= i < k implies #[trigger] shifted[i] == 0 by {
            lemma_mul_one(generator[k - 1 - i]);
            lemma_add_self_inverse(0);
        }
        assert(shifted =~= zeros(k));
    }
}

/// Two messages of one length that differ only within a run of at most as
/// many coefficients as a checksum has, and do differ there, have different
/// residues, if the generator's constant term is not zero.
pub proof fn lemma_burst_changes_residue(
    generator: Seq<u8>,
    a: Seq<u8>,
    b: Seq<u8>,
    p: int,
    w: int,
)
    requires
        generator.len() >= 2,
        all_elems(generator),
        generator[0] != 0,
        all_elems(a),
        all_elems(b),
        a.len() == b.len(),
        0 <= p,
        1 <= w <= generator.len() - 1,
        p + w <= a.len(),
        forall|i: int| 0 <= i < a.len() && !(p <= i < p + w) ==> a[i] == b[i],
        exists|i: int| p <= i < p + w && a[i] != b[i],
    ensures
        residue(generator, a) != residue(generator, b),
{
    let k = (generator.len() - 1) as nat;
    let n = a.len();
    let unit = unit_register(k);
    let diff = add_seq(a, b);
    let run = diff.subrange(p, p + w);
    let before = zeros(p as nat);
    let after = zeros((n - p - w) as nat);
    lemma_add_seq_elems(a, b);
    assert forall|i: int| 0 <= i < n && !(p <= i < p + w) implies diff[i] == 0 by {
        lemma_add_self_inverse(a[i]);
    }
    assert(diff =~= (before + run) + after);
    // The run is not all zero.
    let e = choose|i: int| p <= i < p + w && a[i] != b[i];
    lemma_add_zero_iff_equal(a[e], b[e]);
    assert(run[e - p] == diff[e]);
    // The difference of the residues is what a register of zeros holds after
    // it took the difference of the messages.
    lemma_feed_all_linear(generator, unit, unit, a, b);
    lemma_add_seq_zeros(unit);
    lemma_feed_all_concat(generator, zeros(k), before + run, after);
    lemma_feed_all_concat(generator, zeros(k), before, run);
    lemma_feed_zeros_into_zeros(generator, k, p as nat);
    lemma_feed_all_into_zeros(generator, k, run);
    let hit = feed_all(generator, zeros(k), run);
    assert(hit == zeros((k - w) as nat) + run);
    assert(hit[k - w + (e - p)] == run[e - p]);
    assert(is_nonzero(hit));
    lemma_feed_all_elems(generator, zeros(k), run);
    lemma_feed_zeros_nonzero(generator, hit, (n - p - w) as nat);
    let delta = feed_all(generator, zeros(k), diff);
    assert(is_nonzero(delta));
    if residue(generator, a) == residue(generator, b) {
        lemma_add_seq_zeros(residue(generator, a));
        let i = choose|i: int| 0 <= i < delta.len() && #[trigger] delta[i] != 0;
        lemma_residue_len(generator, a);
        assert(delta[i] == 0);
    }
}

/// Two messages of one length that differ in exactly one coefficient have
/// different residues, if the generator's constant term is not zero.
pub proof fn lemma_single_error_changes_residue(
    generator: Seq<u8>,
    a: Seq<u8>,
    b: Seq<u8>,
    p: int,
)
    requires
        generator.len() >= 2,
        all_elems(generator),
        generator[0] != 0,
        all_elems(a),
        all_elems(b),
        a.len() == b.len(),
        0 <= p < a.len(),
        a[p] != b[p],
        forall|i: int| 0 <= i < a.len() && i != p ==> a[i] == b[i],
    ensures
        residue(generator, a) != residue(generator, b),
{
    lemma_burst_changes_residue(generator, a, b, p, 1);
}

} // verus!
