//! Wrapping 64-bit arithmetic read as arithmetic modulo `2^64`.
use vstd::arithmetic::div_mod::*;
use vstd::prelude::*;
use vstd::wrapping::i64_specs;

verus! {

/// `2^64`, the modulus of wrapping 64-bit arithmetic.
pub open spec fn two64() -> int {
    0x1_0000_0000_0000_0000
}

/// `2^48`, the number of generator states.
pub open spec fn two48() -> int {
    0x1_0000_0000_0000
}

/// A wrapping product agrees with the exact product modulo `2^64`.
pub proof fn lemma_wrapping_mul_mod(x: i64, y: i64)
    ensures
        (i64_specs::wrapping_mul(x, y) as int) % two64() == (x * y) % two64(),
{
    let e = (x * y) % two64();
    assert(0 <= e < two64());
}

/// A wrapping sum agrees with the exact sum modulo `2^64`.
pub proof fn lemma_wrapping_add_mod(x: i64, y: i64)
    ensures
        (i64_specs::wrapping_add(x, y) as int) % two64() == (x + y) % two64(),
{
}

/// A wrapping difference agrees with the exact difference modulo `2^64`.
pub proof fn lemma_wrapping_sub_mod(x: i64, y: i64)
    ensures
        (i64_specs::wrapping_sub(x, y) as int) % two64() == (x - y) % two64(),
{
}

/// Products of congruent factors are congruent.
pub proof fn lemma_mul_congruent(a: int, b: int, c: int, d: int, m: int)
    requires
        m > 0,
        a % m == b % m,
        c % m == d % m,
    ensures
        (a * c) % m == (b * d) % m,
{
    lemma_mul_mod_noop_general(a, c, m);
    lemma_mul_mod_noop_general(b, d, m);
}

/// Sums of congruent terms are congruent.
pub proof fn lemma_add_congruent(a: int, b: int, c: int, d: int, m: int)
    requires
        m > 0,
        a % m == b % m,
        c % m == d % m,
    ensures
        (a + c) % m == (b + d) % m,
{
    lemma_add_mod_noop(a, c, m);
    lemma_add_mod_noop(b, d, m);
}

/// Differences of congruent terms are congruent.
pub proof fn lemma_sub_congruent(a: int, b: int, c: int, d: int, m: int)
    requires
        m > 0,
        a % m == b % m,
        c % m == d % m,
    ensures
        (a - c) % m == (b - d) % m,
{
    lemma_sub_mod_noop(a, c, m);
    lemma_sub_mod_noop(b, d, m);
}

/// Numbers congruent modulo `2^64` are congruent modulo `2^48`.
pub proof fn lemma_congruent_64_to_48(a: int, b: int)
    requires
        a % two64() == b % two64(),
    ensures
        a % two48() == b % two48(),
{
    lemma_mod_mod(a, two48(), 0x1_0000);
    lemma_mod_mod(b, two48(), 0x1_0000);
}

} // verus!
