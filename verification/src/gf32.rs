//! The field GF(32), realised as GF(2)[x] / (x^5 + x^3 + 1).
//!
//! An element is a polynomial of degree below five over GF(2), held as the
//! five low bits of a `u8`: bit `i` is the coefficient of `x^i`.

use vstd::prelude::*;

verus! {

/// Whether `a` is the representation of a field element.
pub open spec fn is_elem(a: u8) -> bool {
    a < 32
}

/// Sum of two elements: coefficient-wise addition over GF(2).
pub open spec fn gf_add(a: u8, b: u8) -> u8 {
    a ^ b
}

/// The product of `b` and the primitive element `x`: one place up, and
/// `x^5` replaced by `x^3 + 1`.
pub open spec fn gf_mul_alpha(b: u8) -> u8 {
    if b & 0x10 == 0x10 {
        ((b << 1) ^ 0x29) & 0x1f
    } else {
        (b << 1) & 0x1f
    }
}

/// The product of the polynomials `a` and `b` over GF(2), before reduction.
pub open spec fn poly_mul(a: u8, b: u8) -> u16 {
    let b = b as u16;
    (if a & 0x01 != 0 { b } else { 0 }) ^ (if a & 0x02 != 0 { b << 1 } else { 0 }) ^ (if a & 0x04
        != 0 { b << 2 } else { 0 }) ^ (if a & 0x08 != 0 { b << 3 } else { 0 }) ^ (if a & 0x10
        != 0 { b << 4 } else { 0 })
}

/// The remainder of `p`, a polynomial of degree at most eight, modulo
/// `x^5 + x^3 + 1`: each power of `x` from the fifth up is replaced by its
/// own remainder.
pub open spec fn poly_reduce(p: u16) -> u8 {
    ((p & 0x1f) ^ (if p & 0x020 != 0 { 0x09u16 } else { 0 }) ^ (if p & 0x040 != 0 {
        0x12u16
    } else {
        0
    }) ^ (if p & 0x080 != 0 { 0x0du16 } else { 0 }) ^ (if p & 0x100 != 0 { 0x1au16 } else { 0 }))
        as u8
}

/// Product of two elements: the product of the polynomials, reduced.
pub open spec fn gf_mul(a: u8, b: u8) -> u8 {
    poly_reduce(poly_mul(a, b))
}

/// The inverse of a nonzero element.
pub open spec fn gf_inv(a: u8) -> u8
    recommends
        0 < a < 32,
{
    if a == 1 {
        1
    } else     if a == 2 {
        20
    } else     if a == 3 {
        24
    } else     if a == 4 {
        10
    } else     if a == 5 {
        8
    } else     if a == 6 {
        12
    } else     if a == 7 {
        29
    } else     if a == 8 {
        5
    } else     if a == 9 {
        11
    } else     if a == 10 {
        4
    } else     if a == 11 {
        9
    } else     if a == 12 {
        6
    } else     if a == 13 {
        28
    } else     if a == 14 {
        26
    } else     if a == 15 {
        31
    } else     if a == 16 {
        22
    } else     if a == 17 {
        18
    } else     if a == 18 {
        17
    } else     if a == 19 {
        23
    } else     if a == 20 {
        2
    } else     if a == 21 {
        25
    } else     if a == 22 {
        16
    } else     if a == 23 {
        19
    } else     if a == 24 {
        3
    } else     if a == 25 {
        21
    } else     if a == 26 {
        14
    } else     if a == 27 {
        30
    } else     if a == 28 {
        13
    } else     if a == 29 {
        7
    } else     if a == 30 {
        27
    } else {
        15
    }
}

/// The sum of those shifted copies of `b` that the bits of `a` select, each
/// copy being the one before it times `x`. This is how a product is computed.
pub open spec fn mul_by_shifts(a: u8, b: u8) -> u8 {
    let b1 = gf_mul_alpha(b);
    let b2 = gf_mul_alpha(b1);
    let b3 = gf_mul_alpha(b2);
    let b4 = gf_mul_alpha(b3);
    (if a & 0x01 != 0 { b } else { 0 }) ^ (if a & 0x02 != 0 { b1 } else { 0 }) ^ (if a & 0x04
        != 0 { b2 } else { 0 }) ^ (if a & 0x08 != 0 { b3 } else { 0 }) ^ (if a & 0x10 != 0 {
        b4
    } else {
        0
    })
}

/// Shifting and adding computes the product.
pub proof fn lemma_mul_by_shifts(a: u8, b: u8)
    requires
        is_elem(a),
        is_elem(b),
    ensures
        mul_by_shifts(a, b) == gf_mul(a, b),
{
    assert(mul_by_shifts(a, b) == gf_mul(a, b)) by (bit_vector)
        requires
            a < 32,
            b < 32,
    ;
}

/// Multiplying by `x` is multiplying by the element 2.
pub proof fn lemma_mul_alpha_is_mul(b: u8)
    requires
        is_elem(b),
    ensures
        gf_mul_alpha(b) == gf_mul(2, b),
{
    assert(gf_mul_alpha(b) == gf_mul(2, b)) by (bit_vector)
        requires
            b < 32,
    ;
}

/// Sums and products of elements are elements.
pub proof fn lemma_closed(a: u8, b: u8)
    requires
        is_elem(a),
        is_elem(b),
    ensures
        is_elem(gf_add(a, b)),
        is_elem(gf_mul(a, b)),
{
    assert(a ^ b < 32 && gf_mul(a, b) < 32) by (bit_vector)
        requires
            a < 32,
            b < 32,
    ;
}

/// Addition is commutative.
pub proof fn lemma_add_commutative(a: u8, b: u8)
    ensures
        gf_add(a, b) == gf_add(b, a),
{
    assert(a ^ b == b ^ a) by (bit_vector);
}

/// Addition is associative.
pub proof fn lemma_add_associative(a: u8, b: u8, c: u8)
    ensures
        gf_add(gf_add(a, b), c) == gf_add(a, gf_add(b, c)),
{
    assert((a ^ b) ^ c == a ^ (b ^ c)) by (bit_vector);
}

/// Every element is its own negative, and zero is neutral.
pub proof fn lemma_add_self_inverse(a: u8)
    ensures
        gf_add(a, a) == 0,
        gf_add(a, 0) == a,
        gf_add(0, a) == a,
{
    assert(a ^ a == 0 && a ^ 0 == a && 0 ^ a == a) by (bit_vector);
}

/// Two elements are equal exactly when their sum is zero.
pub proof fn lemma_add_zero_iff_equal(a: u8, b: u8)
    ensures
        gf_add(a, b) == 0 <==> a == b,
{
    assert((a ^ b == 0) <==> a == b) by (bit_vector);
}

/// Multiplication is commutative.
pub proof fn lemma_mul_commutative(a: u8, b: u8)
    requires
        is_elem(a),
        is_elem(b),
    ensures
        gf_mul(a, b) == gf_mul(b, a),
{
    assert(gf_mul(a, b) == gf_mul(b, a)) by (bit_vector)
        requires
            a < 32,
            b < 32,
    ;
}

/// Multiplication is associative.
pub proof fn lemma_mul_associative(a: u8, b: u8, c: u8)
    requires
        is_elem(a),
        is_elem(b),
        is_elem(c),
    ensures
        gf_mul(gf_mul(a, b), c) == gf_mul(a, gf_mul(b, c)),
{
    assert(gf_mul(gf_mul(a, b), c) == gf_mul(a, gf_mul(b, c))) by (bit_vector)
        requires
            a < 32,
            b < 32,
            c < 32,
    ;
}

/// Multiplication distributes over addition.
pub proof fn lemma_mul_distributive(a: u8, b: u8, c: u8)
    requires
        is_elem(a),
        is_elem(b),
        is_elem(c),
    ensures
        gf_mul(a, gf_add(b, c)) == gf_add(gf_mul(a, b), gf_mul(a, c)),
        gf_mul(gf_add(b, c), a) == gf_add(gf_mul(b, a), gf_mul(c, a)),
{
    assert(gf_mul(a, b ^ c) == gf_mul(a, b) ^ gf_mul(a, c) && gf_mul(b ^ c, a) == gf_mul(b, a)
        ^ gf_mul(c, a)) by (bit_vector)
        requires
            a < 32,
            b < 32,
            c < 32,
    ;
}

/// The element 1 is neutral for multiplication, and a product with zero is
/// zero.
pub proof fn lemma_mul_one(a: u8)
    requires
        is_elem(a),
    ensures
        gf_mul(a, 1) == a,
        gf_mul(1, a) == a,
        gf_mul(a, 0) == 0,
        gf_mul(0, a) == 0,
{
    assert(gf_mul(a, 1) == a && gf_mul(1, a) == a && gf_mul(a, 0) == 0 && gf_mul(0, a) == 0)
        by (bit_vector)
        requires
            a < 32,
    ;
}

/// Every nonzero element has an inverse.
pub proof fn lemma_mul_inverse(a: u8)
    requires
        is_elem(a),
        a != 0,
    ensures
        is_elem(gf_inv(a)),
        gf_mul(a, gf_inv(a)) == 1,
        exists|b: u8| is_elem(b) && #[trigger] gf_mul(a, b) == 1,
{
    assert(gf_inv(a) < 32 && gf_mul(a, gf_inv(a)) == 1) by (bit_vector)
        requires
            0 < a < 32,
    ;
}

/// A product is zero only if one of its factors is.
pub proof fn lemma_no_zero_divisors(a: u8, b: u8)
    requires
        is_elem(a),
        is_elem(b),
        gf_mul(a, b) == 0,
    ensures
        a == 0 || b == 0,
{
    assert(gf_mul(a, b) == 0 ==> a == 0 || b == 0) by (bit_vector)
        requires
            a < 32,
            b < 32,
    ;
}

} // verus!
