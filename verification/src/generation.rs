//! The spatial hash: a bijective 32-bit mixer of grid coordinates and seed.

use vstd::prelude::*;

verus! {

/// Multiplier applied to the horizontal coordinate (a large odd prime).
pub const PRIME_X: u32 = 374761393;

/// Multiplier applied to the vertical coordinate (a large odd prime).
pub const PRIME_Y: u32 = 668265263;

/// Multiplier of the final avalanche step (odd).
pub const AVALANCHE_MULTIPLIER: u32 = 1274126177;

/// Product modulo 2^32, as `u32::wrapping_mul` computes it.
pub open spec fn mul32(a: u32, b: u32) -> u32 {
    ((a as nat * b as nat) % 0x1_0000_0000) as u32
}

/// Left rotation of a 32-bit word by 17 bits.
pub open spec fn rotl17(h: u32) -> u32 {
    (h << 17u32) | (h >> 15u32)
}

/// Absorbs both coordinates into the seed: the horizontal coordinate is
/// folded in, the word is rotated to break the sign symmetry, then the
/// vertical coordinate is folded in.
pub open spec fn absorb(x: i32, y: i32, seed: u32) -> u32 {
    rotl17(seed ^ mul32(x as u32, PRIME_X)) ^ mul32(y as u32, PRIME_Y)
}

/// The avalanche: xor-shift, odd multiplication, xor-shift.
pub open spec fn avalanche(h: u32) -> u32 {
    let a = h ^ (h >> 13u32);
    let b = mul32(a, AVALANCHE_MULTIPLIER);
    b ^ (b >> 16u32)
}

/// The 32-bit spatial hash of the sector `(x, y)` under `seed`.
pub open spec fn spatial_hash(x: i32, y: i32, seed: u32) -> u32 {
    avalanche(absorb(x, y, seed))
}

/// Computes the spatial hash of the sector `(x, y)` under the global seed.
///
/// The result, read as the fraction `hash / u32::MAX`, is the sector's
/// "probability" in `[0, 1]`; that division is left to the caller.
pub fn calculer_hachage_spatial(x: i32, y: i32, graine: u32) -> (hash: u32)
    ensures
        hash == spatial_hash(x, y, graine),
{
    let x_bits = x as u32;
    let y_bits = y as u32;

    let mut hash = graine;
    hash = hash ^ x_bits.wrapping_mul(PRIME_X);
    hash = (hash << 17u32) | (hash >> 15u32);
    hash = hash ^ y_bits.wrapping_mul(PRIME_Y);

    hash = hash ^ (hash >> 13u32);
    hash = hash.wrapping_mul(AVALANCHE_MULTIPLIER);
    hash = hash ^ (hash >> 16u32);
    hash
}

// ---------------------------------------------------------------------------
// Every step of the mixer is a bijection of 32-bit words.
// ---------------------------------------------------------------------------

/// Multiplying by `c` modulo 2^32 is undone by multiplying by `inv` when
/// `c * inv` is 1 modulo 2^32.
proof fn lemma_mul32_undone(a: u32, c: u32, inv: u32)
    requires
        (c as int * inv as int) % 0x1_0000_0000 == 1,
    ensures
        mul32(mul32(a, c), inv) == a,
{
    let m: int = 0x1_0000_0000;
    let ac = a as int * c as int;
    vstd::arithmetic::div_mod::lemma_mul_mod_noop_left(ac, inv as int, m);
    vstd::arithmetic::mul::lemma_mul_is_associative(a as int, c as int, inv as int);
    let q = (c as int * inv as int) / m;
    vstd::arithmetic::div_mod::lemma_fundamental_div_mod(c as int * inv as int, m);
    assert(c as int * inv as int == m * q + 1);
    assert(a as int * (m * q + 1) == m * (a as int * q) + a as int) by (nonlinear_arith);
    vstd::arithmetic::div_mod::lemma_mod_multiples_vanish(a as int * q, a as int, m);
    vstd::arithmetic::div_mod::lemma_small_mod(a as nat, m as nat);
}

proof fn lemma_mul32_injective(a: u32, b: u32, c: u32, inv: u32)
    requires
        (c as int * inv as int) % 0x1_0000_0000 == 1,
        a != b,
    ensures
        mul32(a, c) != mul32(b, c),
{
    lemma_mul32_undone(a, c, inv);
    lemma_mul32_undone(b, c, inv);
}

proof fn lemma_xor_injective(a: u32, b: u32, k: u32)
    requires
        a != b,
    ensures
        a ^ k != b ^ k,
{
    assert(a != b ==> a ^ k != b ^ k) by (bit_vector);
}

proof fn lemma_rotl17_injective(a: u32, b: u32)
    requires
        a != b,
    ensures
        rotl17(a) != rotl17(b),
{
    assert(a != b ==> (a << 17u32) | (a >> 15u32) != (b << 17u32) | (b >> 15u32)) by (bit_vector);
}

proof fn lemma_avalanche_injective(a: u32, b: u32)
    requires
        a != b,
    ensures
        avalanche(a) != avalanche(b),
{
    let a1 = a ^ (a >> 13u32);
    let b1 = b ^ (b >> 13u32);
    assert(a != b ==> a ^ (a >> 13u32) != b ^ (b >> 13u32)) by (bit_vector);
    assert((AVALANCHE_MULTIPLIER as int * 1406485665int) % 0x1_0000_0000 == 1);
    lemma_mul32_injective(a1, b1, AVALANCHE_MULTIPLIER, 1406485665);
    let a2 = mul32(a1, AVALANCHE_MULTIPLIER);
    let b2 = mul32(b1, AVALANCHE_MULTIPLIER);
    assert(a2 != b2 ==> a2 ^ (a2 >> 16u32) != b2 ^ (b2 >> 16u32)) by (bit_vector);
}

proof fn lemma_i32_bits_injective(a: i32, b: i32)
    requires
        a != b,
    ensures
        a as u32 != b as u32,
{
    assert(a != b ==> a as u32 != b as u32) by (bit_vector);
}

/// Two different seeds never give the same hash to one sector.
pub proof fn lemma_seed_changes_hash(x: i32, y: i32, seed1: u32, seed2: u32)
    requires
        seed1 != seed2,
    ensures
        spatial_hash(x, y, seed1) != spatial_hash(x, y, seed2),
{
    let k = mul32(x as u32, PRIME_X);
    lemma_xor_injective(seed1, seed2, k);
    lemma_rotl17_injective(seed1 ^ k, seed2 ^ k);
    lemma_xor_injective(rotl17(seed1 ^ k), rotl17(seed2 ^ k), mul32(y as u32, PRIME_Y));
    lemma_avalanche_injective(absorb(x, y, seed1), absorb(x, y, seed2));
}

/// Under one seed, two sectors of the same row never share a hash.
pub proof fn lemma_column_changes_hash(x1: i32, x2: i32, y: i32, seed: u32)
    requires
        x1 != x2,
    ensures
        spatial_hash(x1, y, seed) != spatial_hash(x2, y, seed),
{
    lemma_i32_bits_injective(x1, x2);
    assert((PRIME_X as int * 2923004241int) % 0x1_0000_0000 == 1);
    lemma_mul32_injective(x1 as u32, x2 as u32, PRIME_X, 2923004241);
    let k1 = mul32(x1 as u32, PRIME_X);
    let k2 = mul32(x2 as u32, PRIME_X);
    assert(k1 != k2 ==> seed ^ k1 != seed ^ k2) by (bit_vector);
    lemma_rotl17_injective(seed ^ k1, seed ^ k2);
    lemma_xor_injective(rotl17(seed ^ k1), rotl17(seed ^ k2), mul32(y as u32, PRIME_Y));
    lemma_avalanche_injective(absorb(x1, y, seed), absorb(x2, y, seed));
}

/// Under one seed, two sectors of the same column never share a hash.
pub proof fn lemma_row_changes_hash(x: i32, y1: i32, y2: i32, seed: u32)
    requires
        y1 != y2,
    ensures
        spatial_hash(x, y1, seed) != spatial_hash(x, y2, seed),
{
    lemma_i32_bits_injective(y1, y2);
    assert((PRIME_Y as int * 2701016015int) % 0x1_0000_0000 == 1);
    lemma_mul32_injective(y1 as u32, y2 as u32, PRIME_Y, 2701016015);
    let r = rotl17(seed ^ mul32(x as u32, PRIME_X));
    let k1 = mul32(y1 as u32, PRIME_Y);
    let k2 = mul32(y2 as u32, PRIME_Y);
    assert(k1 != k2 ==> r ^ k1 != r ^ k2) by (bit_vector);
    lemma_avalanche_injective(absorb(x, y1, seed), absorb(x, y2, seed));
}

/// The hash, written out step by step over the raw bits of its arguments:
/// the two's-complement bits of `x` times `PRIME_X` (mod 2^32) are xored
/// into the seed, the word is rotated left by 17, the bits of `y` times
/// `PRIME_Y` (mod 2^32) are xored in, then the word goes through
/// xor-shift 13, multiplication by `AVALANCHE_MULTIPLIER` (mod 2^32) and
/// xor-shift 16.
#[verifier::rlimit(40)]
pub proof fn lemma_hash_step_by_step(x: i32, y: i32, seed: u32)
    ensures
        spatial_hash(x, y, seed) == ({
            let a: u32 = seed ^ ((((x as u32) as int) * 374761393int) % 0x1_0000_0000int) as u32;
            let b: u32 = ((a << 17u32) | (a >> 15u32)) ^ ((((y as u32) as int) * 668265263int)
                % 0x1_0000_0000int) as u32;
            let c: u32 = b ^ (b >> 13u32);
            let d: u32 = (((c as int) * 1274126177int) % 0x1_0000_0000int) as u32;
            d ^ (d >> 16u32)
        }),
{
}

/// The column enters the hash only through the seed: hashing the sector
/// `(x, y)` under `seed` is hashing the sector `(0, y)` under the seed
/// xored with the bits of `x` times `PRIME_X` (mod 2^32).
pub proof fn lemma_column_folds_into_seed(x: i32, y: i32, seed: u32)
    ensures
        spatial_hash(x, y, seed) == spatial_hash(
            0,
            y,
            seed ^ ((((x as u32) as int) * 374761393int) % 0x1_0000_0000int) as u32,
        ),
{
    let k: u32 = ((((x as u32) as int) * 374761393int) % 0x1_0000_0000int) as u32;
    let s2: u32 = seed ^ k;
    assert(mul32(0i32 as u32, PRIME_X) == 0u32);
    assert(s2 ^ 0u32 == s2) by (bit_vector);
}

} // verus!
