//! Powers of two, low-bit masks and inverses modulo a power of two.
use vstd::arithmetic::div_mod::*;
use vstd::arithmetic::power2::{lemma2_to64_rest, lemma_pow2_pos};
use vstd::bits::*;
use crate::math::modular::{
    lemma_add_congruent, lemma_mul_congruent, lemma_sub_congruent, lemma_wrapping_add_mod,
    lemma_wrapping_mul_mod, lemma_wrapping_sub_mod, two64,
};
use vstd::prelude::*;
use vstd::wrapping::i64_specs;

verus! {

/// `1 << bits` on 64-bit signed integers is `2^bits`, and the sign bit for 63.
pub proof fn lemma_shl_is_pow2(bits: i32)
    requires
        0 <= bits < 64,
    ensures
        bits < 63 ==> (1i64 << bits) == vstd::arithmetic::power2::pow2(bits as nat),
        bits == 63 ==> (1i64 << bits) == i64::MIN,
{
    let b = bits as u64;
    assert((b < 63 ==> (1i64 << b) == (1u64 << b)) && (b == 63 ==> (1i64 << b)
        == -0x8000_0000_0000_0000i64)) by (bit_vector);
    lemma_u64_pow2_no_overflow(bits as nat);
    lemma_u64_shl_is_mul(1u64, b);
}

/// `2^bits` as a 64-bit signed integer; `bits == 63` gives the sign bit alone.
pub fn pow2(bits: i32) -> (r: i64)
    requires
        0 <= bits < 64,
    ensures
        r == 1i64 << bits,
        bits < 63 ==> r == vstd::arithmetic::power2::pow2(bits as nat),
        bits == 63 ==> r == i64::MIN,
{
    proof {
        lemma_shl_is_pow2(bits);
    }
    1i64 << bits
}

/// The mask that keeps the low `bits` bits of a 64-bit value.
pub open spec fn spec_external_mask(bits: i32) -> int {
    if bits >= 64 {
        -1
    } else {
        vstd::arithmetic::power2::pow2(bits as nat) - 1
    }
}

/// The value of the low `bits` bits of `value`, read as an unsigned number.
pub open spec fn spec_mask_calc(value: i64, bits: i32) -> int {
    if bits >= 64 {
        value as int
    } else {
        (value as int) % (vstd::arithmetic::power2::pow2(bits as nat) as int)
    }
}

/// Masking with `2^bits - 1` is reduction modulo `2^bits`.
pub proof fn lemma_mask_is_mod(value: i64, bits: i32)
    requires
        0 <= bits < 64,
    ensures
        value & (spec_external_mask(bits) as i64) == (value as int) % (
        vstd::arithmetic::power2::pow2(bits as nat) as int),
{
    let n = bits as nat;
    let m = spec_external_mask(bits) as i64;
    let uv = value as u64;
    let um = low_bits_mask(n) as u64;
    lemma2_to64_rest();
    lemma_u64_pow2_no_overflow(n);
    lemma_pow2_pos(n);
    if n < 63 {
        vstd::arithmetic::power2::lemma_pow2_strictly_increases(n, 63);
    }
    assert(m == um);
    assert(value & m == uv & um && uv as int == (value as int) % 0x1_0000_0000_0000_0000)
        by (bit_vector)
        requires
            m == um,
            m >= 0,
            uv == value as u64,
    ;
    lemma_u64_low_bits_mask_is_mod(uv, n);
    vstd::arithmetic::power2::lemma_pow2_adds(n, (64 - n) as nat);
    lemma_pow2_pos((64 - n) as nat);
    lemma_mod_mod(
        value as int,
        vstd::arithmetic::power2::pow2(n) as int,
        vstd::arithmetic::power2::pow2((64 - n) as nat) as int,
    );
}

/// Masking with all ones changes nothing.
proof fn lemma_all_ones(value: i64)
    by (bit_vector)
    ensures
        value & -1i64 == value,
{
}

/// The mask of the low `bits` bits: `2^bits - 1`, and all ones for 64 bits or
/// more.
pub fn external_mask(bits: i32) -> (r: i64)
    requires
        0 <= bits,
    ensures
        r == spec_external_mask(bits),
{
    if bits >= 64 {
        -1
    } else {
        proof {
            lemma2_to64_rest();
        }
        pow2(bits).wrapping_sub(1)
    }
}

/// `value` with its low `bits` bits kept and the others cleared: `value`
/// modulo `2^bits`, and `value` itself for 64 bits or more.
pub fn mask_calc(value: i64, bits: i32) -> (r: i64)
    requires
        0 <= bits,
    ensures
        r == spec_mask_calc(value, bits),
{
    proof {
        if bits < 64 {
            lemma_mask_is_mod(value, bits);
        } else {
            lemma_all_ones(value);
        }
    }
    value & external_mask(bits)
}

/// One step of Newton's iteration for the inverse of `value`: `2x - value * x * x`,
/// in wrapping 64-bit arithmetic.
pub open spec fn newton_step(value: i64, x: i64) -> i64 {
    i64_specs::wrapping_add(
        x,
        i64_specs::wrapping_sub(x, i64_specs::wrapping_mul(i64_specs::wrapping_mul(value, x), x)),
    )
}

/// The first guess of the iteration, an inverse of an odd `value` modulo 16.
pub open spec fn inverse_seed(value: i64) -> i64 {
    ((((value << 1u64) ^ value) & 4) << 1u64) ^ value
}

/// What `mod_inverse` returns: four Newton steps from the first guess, cut to
/// the low `k` bits.
pub open spec fn spec_mod_inverse(value: i64, k: i32) -> i64 {
    let x = newton_step(
        value,
        newton_step(value, newton_step(value, newton_step(value, inverse_seed(value)))),
    );
    x & (spec_external_mask(k) as i64)
}

/// A Newton step squares the modulus to which `x` inverts `value`.
pub proof fn lemma_newton_step(value: i64, x: i64, m: int, c: int)
    requires
        m > 1,
        c > 0,
        m * m * c == two64(),
        (value * x) % m == 1,
    ensures
        (value * newton_step(value, x)) % (m * m) == 1,
{
    let v = value as int;
    let vx = i64_specs::wrapping_mul(value, x);
    let vxx = i64_specs::wrapping_mul(vx, x);
    let d = i64_specs::wrapping_sub(x, vxx);
    let y = newton_step(value, x);
    lemma_wrapping_mul_mod(value, x);
    lemma_wrapping_mul_mod(vx, x);
    lemma_mul_congruent(vx as int, v * x, x as int, x as int, two64());
    lemma_wrapping_sub_mod(x, vxx);
    lemma_sub_congruent(x as int, x as int, vxx as int, v * x * x, two64());
    lemma_wrapping_add_mod(x, d);
    lemma_add_congruent(x as int, x as int, d as int, x - v * x * x, two64());
    let e = x + (x - v * x * x);
    assert((y as int) % two64() == e % two64());
    lemma_mul_congruent(v, v, y as int, e, two64());
    assert(m * m > 0) by (nonlinear_arith)
        requires
            m > 1,
    ;
    lemma_mod_mod(v * y, m * m, c);
    lemma_mod_mod(v * e, m * m, c);
    let q = (v * x) / m;
    lemma_fundamental_div_mod(v * x, m);
    assert(v * e == (m * m) * (-(q * q)) + 1) by (nonlinear_arith)
        requires
            v * x == m * q + 1,
            e == x + (x - v * x * x),
    ;
    lemma_mod_multiples_vanish(-(q * q), 1, m * m);
    assert(m * m > 1) by (nonlinear_arith)
        requires
            m > 1,
    ;
    lemma_small_mod(1, (m * m) as nat);
}

/// The iteration inverts every odd value modulo `2^64`.
pub proof fn lemma_newton_inverts(value: i64)
    requires
        (value as int) % 2 == 1,
    ensures
        (value * newton_step(
            value,
            newton_step(value, newton_step(value, newton_step(value, inverse_seed(value)))),
        )) % two64() == 1,
{
    let x0 = inverse_seed(value);
    assert(value & 1 == (value as int) % 2) by (bit_vector);
    assert((value * x0) % 16 == 1) by (bit_vector)
        requires
            value & 1 == 1,
            x0 == ((((value << 1u64) ^ value) & 4i64) << 1u64) ^ value,
    ;
    let x1 = newton_step(value, x0);
    lemma_newton_step(value, x0, 0x10, 0x100_0000_0000_0000);
    let x2 = newton_step(value, x1);
    lemma_newton_step(value, x1, 0x100, 0x1_0000_0000_0000);
    let x3 = newton_step(value, x2);
    lemma_newton_step(value, x2, 0x1_0000, 0x1_0000_0000);
    lemma_newton_step(value, x3, 0x1_0000_0000, 1);
}

/// The inverse of an odd `value` modulo `2^k`, for `k` up to 64; `k` of 64 or
/// more leaves all 64 bits. For an even `value` there is no inverse, and the
/// result is what the iteration gives.
pub fn mod_inverse(value: i64, k: i32) -> (r: i64)
    requires
        0 <= k,
    ensures
        r == spec_mod_inverse(value, k),
        k < 64 ==> 0 <= r < vstd::arithmetic::power2::pow2(k as nat),
        (value as int) % 2 == 1 && k < 64 ==> (value * r) % (vstd::arithmetic::power2::pow2(
            k as nat,
        ) as int) == 1int % (vstd::arithmetic::power2::pow2(k as nat) as int),
        (value as int) % 2 == 1 && k >= 64 ==> (value * r) % two64() == 1,
{
    let mut x: i64 = ((((value << 1u64) ^ value) & 4) << 1u64) ^ value;

    x = x.wrapping_add(x.wrapping_sub(value.wrapping_mul(x).wrapping_mul(x)));
    x = x.wrapping_add(x.wrapping_sub(value.wrapping_mul(x).wrapping_mul(x)));
    x = x.wrapping_add(x.wrapping_sub(value.wrapping_mul(x).wrapping_mul(x)));
    x = x.wrapping_add(x.wrapping_sub(value.wrapping_mul(x).wrapping_mul(x)));

    let return_masked = x & external_mask(k);
    proof {
        if k < 64 {
            lemma_mask_is_mod(x, k);
            lemma_pow2_pos(k as nat);
            if (value as int) % 2 == 1 {
                lemma_mod_inverse_inverts(value, k);
            }
        } else {
            lemma_all_ones(x);
            if (value as int) % 2 == 1 {
                lemma_newton_inverts(value);
            }
        }
    }
    return_masked
}

/// The inverse of an odd value modulo `2^k`, for `k` below 64, lies in
/// `[0, 2^k)` and gives 1 when multiplied with the value, modulo `2^k`.
pub proof fn lemma_mod_inverse_inverts(value: i64, k: i32)
    requires
        0 <= k < 64,
        (value as int) % 2 == 1,
    ensures
        0 <= spec_mod_inverse(value, k) < vstd::arithmetic::power2::pow2(k as nat),
        (value * spec_mod_inverse(value, k)) % (vstd::arithmetic::power2::pow2(k as nat) as int)
            == 1int % (vstd::arithmetic::power2::pow2(k as nat) as int),
{
    let x = newton_step(
        value,
        newton_step(value, newton_step(value, newton_step(value, inverse_seed(value)))),
    );
    let masked = spec_mod_inverse(value, k);
    let n = k as nat;
    let p = vstd::arithmetic::power2::pow2(n) as int;
    lemma_mask_is_mod(x, k);
    lemma_pow2_pos(n);
    lemma_newton_inverts(value);
    lemma_pow2_pos((64 - n) as nat);
    lemma2_to64_rest();
    vstd::arithmetic::power2::lemma_pow2_adds(n, (64 - n) as nat);
    let c = vstd::arithmetic::power2::pow2((64 - n) as nat) as int;
    lemma_mod_mod(value * x, p, c);
    lemma_mod_mod(1, p, c);
    lemma_mod_twice(x as int, p);
    lemma_mul_congruent(value as int, value as int, masked as int, x as int, p);
}

} // verus!
