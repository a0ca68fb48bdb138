//! Solving the congruences: from a congruence modulo `2^16` to the trailing
//! zeros that the search tests and the start of the walk that it takes.
use crate::lcg::{lemma_forward_values, spec_forward, JAVA_MULTIPLIER};
use crate::math::population_reverser_math::{
    lemma_mask_is_mod, lemma_mod_inverse_inverts, lemma_shl_is_pow2,
};
use crate::population_reverser::congruences::lemma_solve_arith;
use crate::population_reverser::model::two16;
use crate::population_reverser::population_seed_utils::{
    lemma_zero_pattern, spec_first_mult, spec_inverse, spec_solve, spec_stride,
    spec_trailing_zeros, spec_zeros,
};
use vstd::arithmetic::div_mod::{lemma_fundamental_div_mod, lemma_mod_multiples_basic};
use vstd::arithmetic::power2::{lemma2_to64, lemma_pow2_adds, lemma_pow2_pos, pow2};
use vstd::bits::lemma_u64_shr_is_div;
use vstd::prelude::*;
use vstd::std_specs::bits::{axiom_u64_trailing_zeros, u64_trailing_zeros};
use vstd::wrapping::i64_specs;

verus! {

/// Shifting a value that is not negative to the right divides it by a power
/// of two.
pub proof fn lemma_shr_is_div(value: i64, shift: u64)
    requires
        0 <= value,
        shift < 64,
    ensures
        value >> shift == (value as int) / (pow2(shift as nat) as int),
{
    let u = value as u64;
    assert(value >> shift == u >> shift) by (bit_vector)
        requires
            0 <= value,
            u == value as u64,
            shift < 64,
    ;
    lemma_u64_shr_is_div(u, shift);
}

/// A value has at least `t` trailing zeros if and only if it is a multiple
/// of `2^t`.
pub proof fn lemma_trailing_zeros_divides(value: i64, t: i32)
    requires
        0 <= t < 63,
    ensures
        spec_trailing_zeros(value) >= t <==> (value as int) % (pow2(t as nat) as int) == 0,
        0 <= spec_trailing_zeros(value) <= 64,
{
    let u = value as u64;
    let zeros = u64_trailing_zeros(u);
    axiom_u64_trailing_zeros(u);
    let gap = (64 - zeros) as u64;
    let shift = t as u64;
    let mask = ((1i64 << shift) - 1) as i64;
    lemma_shl_is_pow2(t);
    lemma_mask_is_mod(value, t);
    vstd::arithmetic::power2::lemma_pow2_strictly_increases(t as nat, 63);
    vstd::arithmetic::power2::lemma2_to64_rest();
    lemma_pow2_pos(t as nat);
    if zeros < 64 {
        assert(zeros >= shift <==> value & mask == 0) by (bit_vector)
            requires
                u == value as u64,
                zeros < 64,
                shift < 63,
                gap == 64 - zeros,
                u << gap == 0,
                (u >> (zeros as u64)) & 1u64 == 1u64,
                mask == (1i64 << shift) - 1,
        ;
    } else {
        assert(value & mask == 0) by (bit_vector)
            requires
                u == value as u64,
                u == 0,
        ;
    }
}

/// A value that is not zero, shifted down by its trailing zeros, is odd.
pub proof fn lemma_odd_part(value: i64)
    requires
        0 < value,
    ensures
        0 <= spec_trailing_zeros(value) < 63,
        ((value >> spec_trailing_zeros(value)) as int) % 2 == 1,
{
    let u = value as u64;
    let zeros = u64_trailing_zeros(u);
    axiom_u64_trailing_zeros(u);
    let gap = (64 - zeros) as u64;
    lemma_zero_pattern(value);
    let shifted = value >> (zeros as u64);
    assert(zeros < 63 && shifted % 2 == 1) by (bit_vector)
        requires
            u == value as u64,
            0 < value,
            zeros < 64,
            (u >> (zeros as u64)) & 1u64 == 1u64,
            shifted == value >> (zeros as u64),
    ;
}

/// The low bits of a quotient by `2^t` are bits of the low 16 bits of the
/// dividend.
proof fn lemma_quotient_bits(value: i64, key: i64, t: u64, n: u64)
    by (bit_vector)
    requires
        t < 16,
        n + t == 16,
    ensures
        ((value >> t) ^ key) & (((1i64 << n) - 1) as i64) == ((((value & 0xFFFF) >> t) & (((1i64
            << n) - 1) as i64)) ^ key) & (((1i64 << n) - 1) as i64),
        0 <= value & 0xFFFF < 0x1_0000,
        0 <= (value & 0xFFFF) >> t,
{
}

/// Mixing the key into the low bits of the scrambled part gives the low bits
/// of the part itself.
proof fn lemma_part_bits(h: i64, part: i64, key: i64, n: u64)
    by (bit_vector)
    requires
        n <= 16,
        0 <= part < 0x1_0000,
        h == (part ^ key) & 0xFFFF,
    ensures
        ((h & (((1i64 << n) - 1) as i64)) ^ key) & (((1i64 << n) - 1) as i64) == part & (((1i64
            << n) - 1) as i64),
        0 <= part & (((1i64 << n) - 1) as i64) <= part,
{
}

/// The factor is `2^zeros` times an odd number, whose inverse modulo `2^16`
/// is the one that the search takes from its table; the stride is
/// `2^(16 - zeros)`.
pub proof fn lemma_factor_parts(x: i32, z: i32)
    requires
        0 <= spec_zeros(x, z) < 16,
    ensures
        ({
            let u = spec_first_mult(x, z) as int;
            let p = pow2(spec_zeros(x, z) as nat) as int;
            let r = pow2((16 - spec_zeros(x, z)) as nat) as int;
            &&& 0 < p
            &&& 0 < r
            &&& p * r == two16()
            &&& spec_stride(x, z) == r
            &&& 0 < u < two16()
            &&& u % p == 0
            &&& 0 <= spec_inverse(x, z) < two16()
            &&& ((u / p) * spec_inverse(x, z)) % two16() == 1
        }),
{
    reveal(spec_zeros);
    reveal(spec_inverse);
    let u = spec_first_mult(x, z);
    let t = spec_zeros(x, z);
    let n = (16 - t) as i32;
    let p = pow2(t as nat) as int;
    lemma2_to64();
    lemma_shl_is_pow2(n);
    lemma_pow2_adds(t as nat, n as nat);
    lemma_pow2_pos(t as nat);
    lemma_pow2_pos(n as nat);
    lemma_first_mult_bounds(x, z);
    axiom_u64_trailing_zeros(u as u64);
    lemma_zero_pattern(u);
    lemma_trailing_zeros_divides(u, t);
    lemma_odd_part(u);
    lemma_shr_is_div(u, t as u64);
    let odd = u >> t;
    let ui = u as int;
    lemma_fundamental_div_mod(ui, p);
    assert(0 <= ui / p <= ui) by (nonlinear_arith)
        requires
            ui >= 0,
            p >= 1,
            ui == p * (ui / p) + ui % p,
            ui % p >= 0,
    ;
    lemma_mod_inverse_inverts(odd, 16);
}

/// The start of the walk is the low bits of `part`, where the quotient and
/// the scrambled part `h` agree modulo the stride.
proof fn lemma_solve_start(
    product: i64,
    t: i32,
    h: i64,
    part: i64,
    key: i64,
)
    requires
        0 <= t < 16,
        0 <= part < 0x1_0000,
        h == (part ^ key) & 0xFFFF,
        (((product as int) % two16()) / (pow2(t as nat) as int)) % (pow2((16 - t) as nat) as int)
            == (h as int) % (pow2((16 - t) as nat) as int),
    ensures
        ({
            let start = ((product >> t) ^ key) & (((1i64 << (16 - t)) - 1) as i64);
            &&& 0 <= start <= part
            &&& (part - start) % (pow2((16 - t) as nat) as int) == 0
        }),
{
    let n = (16 - t) as i32;
    let r = pow2(n as nat) as int;
    lemma2_to64();
    lemma_shl_is_pow2(n);
    lemma_pow2_pos(n as nat);
    lemma_quotient_bits(product, key, t as u64, n as u64);
    let low16 = product & 0xFFFF;
    lemma_mask_is_mod(product, 16);
    lemma_shr_is_div(low16, t as u64);
    lemma_mask_is_mod(low16 >> t, n);
    lemma_mask_is_mod(h, n);
    lemma_part_bits(h, part, key, n as u64);
    lemma_mask_is_mod(part, n);
    let start = ((product >> t) ^ key) & (((1i64 << (16 - t)) - 1) as i64);
    let whole = part as int;
    assert(start == whole % r);
    lemma_fundamental_div_mod(whole, r);
    lemma_mod_multiples_basic(whole / r, r);
    assert(whole - start == (whole / r) * r) by (nonlinear_arith)
        requires
            whole == r * (whole / r) + start,
    ;
}

/// Where 16 bits `part` of a seed, scrambled into `h`, satisfy a congruence
/// with the right side `addend`, the search does not skip `addend`, and its
/// walk starts at the low bits of `part`: not above `part`, and a multiple of
/// the stride away from it.
pub proof fn lemma_solve_finds(addend: i64, shift: u64, h: i64, part: i64, x: i32, z: i32)
    requires
        0 <= spec_zeros(x, z) < 16,
        0 <= part < 0x1_0000,
        h == (part ^ (JAVA_MULTIPLIER >> shift)) & 0xFFFF,
        -0x1_0000 < addend < 0x1_0000,
        (spec_first_mult(x, z) * h - addend) % two16() == 0,
    ensures
        spec_trailing_zeros(addend) >= spec_zeros(x, z),
        0 < spec_stride(x, z) <= 0x1_0000,
        0 <= spec_solve(addend, shift, x, z) <= part,
        (part - spec_solve(addend, shift, x, z)) % (spec_stride(x, z) as int) == 0,
{
    let u = spec_first_mult(x, z);
    let t = spec_zeros(x, z);
    let inv = spec_inverse(x, z);
    let p = pow2(t as nat) as int;
    let r = pow2((16 - t) as nat) as int;
    lemma_factor_parts(x, z);
    assert(0 <= h) by {
        lemma2_to64();
        lemma_mask_is_mod(part ^ (JAVA_MULTIPLIER >> shift), 16);
    }
    lemma_solve_arith(u as int, h as int, addend as int, inv as int, p, r);
    lemma_trailing_zeros_divides(addend, t);
    let product = i64_specs::wrapping_mul(inv, addend);
    assert(-0x1_0000_0000 < inv * addend < 0x1_0000_0000) by (nonlinear_arith)
        requires
            0 <= inv < 0x1_0000,
            -0x1_0000 < addend < 0x1_0000,
    ;
    assert(product == inv * addend);
    lemma_solve_start(product, t, h, part, JAVA_MULTIPLIER >> shift);
    assert(spec_solve(addend, shift, x, z) == ((product >> t) ^ (JAVA_MULTIPLIER >> shift)) & (((
    1i64 << (16 - t)) - 1) as i64)) by {
        reveal(spec_solve);
        lemma_forward_values();
    }
    assert(r <= two16()) by (nonlinear_arith)
        requires
            p * r == two16(),
            p >= 1,
            r >= 1,
    ;
}

/// The factor modulo `2^16` is a 16-bit value.
pub proof fn lemma_first_mult_bounds(x: i32, z: i32)
    ensures
        0 <= spec_first_mult(x, z) < 0x1_0000,
{
    reveal(spec_first_mult);
    let sum = i64_specs::wrapping_add(
        i64_specs::wrapping_mul(spec_forward(2).multiplier, x as i64),
        i64_specs::wrapping_mul(spec_forward(4).multiplier, z as i64),
    );
    lemma2_to64();
    lemma_mask_is_mod(sum, 16);
}

} // verus!
