//! The four-valued quad logic of SemCode.
//!
//! A quad is carried as two bits: bit 1 says "true evidence", bit 0 says
//! "false evidence". `N` has neither, `F` only the false bit, `T` only the
//! true bit and `S` both. Conjunction and disjunction act bitwise; negation
//! swaps the two bits.
use vstd::prelude::*;

verus! {

/// A quad value.
#[derive(Debug, Clone, Copy, PartialEq, Eq, Structural, Hash)]
pub enum QuadVal {
    N,
    F,
    T,
    S,
}

/// The two-bit code of a quad.
pub open spec fn quad_bits(q: QuadVal) -> u8 {
    match q {
        QuadVal::N => 0,
        QuadVal::F => 1,
        QuadVal::T => 2,
        QuadVal::S => 3,
    }
}

/// The quad whose code is the low two bits of `v`.
pub open spec fn quad_from_bits(v: u8) -> QuadVal {
    let b = v & 3;
    if b == 0 {
        QuadVal::N
    } else if b == 1 {
        QuadVal::F
    } else if b == 2 {
        QuadVal::T
    } else {
        QuadVal::S
    }
}

/// Bitwise conjunction of two quads.
pub open spec fn spec_quad_and(a: QuadVal, b: QuadVal) -> QuadVal {
    quad_from_bits(quad_bits(a) & quad_bits(b))
}

/// Bitwise disjunction of two quads.
pub open spec fn spec_quad_or(a: QuadVal, b: QuadVal) -> QuadVal {
    quad_from_bits(quad_bits(a) | quad_bits(b))
}

/// Negation: the true and false bits trade places.
pub open spec fn spec_quad_not(a: QuadVal) -> QuadVal {
    let v = quad_bits(a);
    quad_from_bits(((v & 2) >> 1) | ((v & 1) << 1))
}

/// Implication `a -> b`, read as `not a or b`.
pub open spec fn spec_quad_impl(a: QuadVal, b: QuadVal) -> QuadVal {
    spec_quad_or(spec_quad_not(a), b)
}

/// The two-bit code of `q`.
pub fn quad_to_u8(q: QuadVal) -> (v: u8)
    ensures
        v == quad_bits(q),
{
    match q {
        QuadVal::N => 0,
        QuadVal::F => 1,
        QuadVal::T => 2,
        QuadVal::S => 3,
    }
}

/// The quad coded by the low two bits of `v`.
pub fn u8_to_quad(v: u8) -> (q: QuadVal)
    ensures
        q == quad_from_bits(v),
{
    let b = v & 3;
    if b == 0 {
        QuadVal::N
    } else if b == 1 {
        QuadVal::F
    } else if b == 2 {
        QuadVal::T
    } else {
        QuadVal::S
    }
}

/// Quad conjunction.
pub fn quad_and(a: QuadVal, b: QuadVal) -> (r: QuadVal)
    ensures
        r == spec_quad_and(a, b),
{
    u8_to_quad(quad_to_u8(a) & quad_to_u8(b))
}

/// Quad disjunction.
pub fn quad_or(a: QuadVal, b: QuadVal) -> (r: QuadVal)
    ensures
        r == spec_quad_or(a, b),
{
    u8_to_quad(quad_to_u8(a) | quad_to_u8(b))
}

/// Quad negation.
pub fn quad_not(a: QuadVal) -> (r: QuadVal)
    ensures
        r == spec_quad_not(a),
{
    let v = quad_to_u8(a);
    u8_to_quad(((v & 2) >> 1) | ((v & 1) << 1))
}

/// Quad implication.
pub fn quad_impl(a: QuadVal, b: QuadVal) -> (r: QuadVal)
    ensures
        r == spec_quad_impl(a, b),
{
    quad_or(quad_not(a), b)
}

proof fn lemma_bits_roundtrip(q: QuadVal)
    ensures
        quad_from_bits(quad_bits(q)) == q,
        quad_bits(q) < 4,
{
    let v = quad_bits(q);
    assert(v < 4 ==> v & 3 == v) by (bit_vector);
}

proof fn lemma_from_bits_small(v: u8)
    requires
        v < 4,
    ensures
        quad_bits(quad_from_bits(v)) == v,
{
    assert(v < 4 ==> v & 3 == v) by (bit_vector);
}

/// Negation is its own inverse.
pub proof fn lemma_quad_not_involutive(a: QuadVal)
    ensures
        spec_quad_not(spec_quad_not(a)) == a,
{
    lemma_bits_roundtrip(a);
    let v = quad_bits(a);
    let w = ((v & 2) >> 1) | ((v & 1) << 1);
    assert(w < 4 && (((w & 2) >> 1) | ((w & 1) << 1)) == v) by (bit_vector)
        requires
            v < 4,
            w == ((v & 2) >> 1) | ((v & 1) << 1),
    ;
    lemma_from_bits_small(w);
}

/// Conjunction and disjunction are commutative and associative.
pub proof fn lemma_quad_and_or_algebra(a: QuadVal, b: QuadVal, c: QuadVal)
    ensures
        spec_quad_and(a, b) == spec_quad_and(b, a),
        spec_quad_or(a, b) == spec_quad_or(b, a),
        spec_quad_and(spec_quad_and(a, b), c) == spec_quad_and(a, spec_quad_and(b, c)),
        spec_quad_or(spec_quad_or(a, b), c) == spec_quad_or(a, spec_quad_or(b, c)),
        spec_quad_and(a, a) == a,
        spec_quad_or(a, a) == a,
{
    lemma_bits_roundtrip(a);
    lemma_bits_roundtrip(b);
    lemma_bits_roundtrip(c);
    let x = quad_bits(a);
    let y = quad_bits(b);
    let z = quad_bits(c);
    assert(x & y == y & x) by (bit_vector);
    assert(x | y == y | x) by (bit_vector);
    assert(x < 4 && y < 4 ==> (x & y) < 4 && (x | y) < 4) by (bit_vector);
    assert(y < 4 && z < 4 ==> (y & z) < 4 && (y | z) < 4) by (bit_vector);
    lemma_from_bits_small(x & y);
    lemma_from_bits_small(x | y);
    lemma_from_bits_small(y & z);
    lemma_from_bits_small(y | z);
    assert((x & y) & z == x & (y & z)) by (bit_vector);
    assert((x | y) | z == x | (y | z)) by (bit_vector);
    assert(x & x == x) by (bit_vector);
    assert(x | x == x) by (bit_vector);
}

/// `S` is the unit of conjunction and `N` absorbs it; `N` is the unit of
/// disjunction and `S` absorbs it.
pub proof fn lemma_quad_units(a: QuadVal)
    ensures
        spec_quad_and(a, QuadVal::S) == a,
        spec_quad_and(QuadVal::S, a) == a,
        spec_quad_and(a, QuadVal::N) == QuadVal::N,
        spec_quad_and(QuadVal::N, a) == QuadVal::N,
        spec_quad_or(a, QuadVal::N) == a,
        spec_quad_or(QuadVal::N, a) == a,
        spec_quad_or(a, QuadVal::S) == QuadVal::S,
        spec_quad_or(QuadVal::S, a) == QuadVal::S,
{
    lemma_bits_roundtrip(a);
    let x = quad_bits(a);
    assert(x < 4 ==> (x & 3) == x && (3 & x) == x) by (bit_vector);
    assert((x & 0) == 0 && (0 & x) == 0) by (bit_vector);
    assert((x | 0) == x && (0 | x) == x) by (bit_vector);
    assert(x < 4 ==> (x | 3) == 3 && (3 | x) == 3) by (bit_vector);
    assert((0u8 & 3) == 0 && (3u8 & 3) == 3) by (bit_vector);
}

/// Negation distributes over conjunction and over disjunction.
pub proof fn lemma_quad_not_distributes(a: QuadVal, b: QuadVal)
    ensures
        spec_quad_not(spec_quad_and(a, b)) == spec_quad_and(spec_quad_not(a), spec_quad_not(b)),
        spec_quad_not(spec_quad_or(a, b)) == spec_quad_or(spec_quad_not(a), spec_quad_not(b)),
{
    lemma_bits_roundtrip(a);
    lemma_bits_roundtrip(b);
    let x = quad_bits(a);
    let y = quad_bits(b);
    let nx = ((x & 2) >> 1) | ((x & 1) << 1);
    let ny = ((y & 2) >> 1) | ((y & 1) << 1);
    let xa = x & y;
    let xo = x | y;
    assert(nx < 4 && ny < 4 && xa < 4 && xo < 4) by (bit_vector)
        requires
            x < 4,
            y < 4,
            nx == ((x & 2) >> 1) | ((x & 1) << 1),
            ny == ((y & 2) >> 1) | ((y & 1) << 1),
            xa == x & y,
            xo == x | y,
    ;
    lemma_from_bits_small(nx);
    lemma_from_bits_small(ny);
    lemma_from_bits_small(xa);
    lemma_from_bits_small(xo);
    assert(x < 4 && y < 4 ==> ((((x & y) & 2) >> 1) | (((x & y) & 1) << 1)) == ((((x & 2) >> 1)
        | ((x & 1) << 1)) & (((y & 2) >> 1) | ((y & 1) << 1)))) by (bit_vector);
    assert(x < 4 && y < 4 ==> ((((x | y) & 2) >> 1) | (((x | y) & 1) << 1)) == ((((x & 2) >> 1)
        | ((x & 1) << 1)) | (((y & 2) >> 1) | ((y & 1) << 1)))) by (bit_vector);
    assert(nx & ny < 4 && (nx | ny) < 4) by (bit_vector)
        requires
            nx < 4,
            ny < 4,
    ;
}

} // verus!
