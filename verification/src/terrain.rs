//! The integer core of the terrain noise: a deterministic hash of a lattice
//! point, salted by the seed. The heights, derived from it in floating point,
//! are baked by the application.

use vstd::prelude::*;

verus! {

/// Cells per side of the terrain map (the size of the world grid).
pub const TERRAIN_SIZE: usize = 128;

/// Multiplier of the x coordinate.
pub const HASH_MUL_X: u32 = 374761393;
/// Multiplier of the y coordinate.
pub const HASH_MUL_Y: u32 = 668265263;
/// Multiplier of the scrambling round.
pub const HASH_MUL_MIX: u32 = 1274126177;

/// 2^32.
pub open spec fn two_pow_32() -> nat {
    0x1_0000_0000nat
}

/// The hash of lattice point `(x, y)` with `salt`: `h = x * HASH_MUL_X +
/// y * HASH_MUL_Y + salt`, then `h = (h ^ (h >> 13)) * HASH_MUL_MIX` and
/// the result `h ^ (h >> 16)`, all modulo 2^32.
pub open spec fn lattice_hash(x: u32, y: u32, salt: u32) -> u32 {
    let h0 = ((x as nat * HASH_MUL_X as nat + y as nat * HASH_MUL_Y as nat + salt as nat) % two_pow_32()) as u32;
    let h1 = (((h0 ^ (h0 >> 13u32)) as nat * HASH_MUL_MIX as nat) % two_pow_32()) as u32;
    h1 ^ (h1 >> 16u32)
}

proof fn lemma_mod_sum3(a: nat, b: nat, c: nat, m: nat)
    requires
        m > 0,
    ensures
        (((a % m + b % m) % m + c) % m) == (a + b + c) % m,
{
    let mi = m as int;
    vstd::arithmetic::div_mod::lemma_add_mod_noop(a as int, b as int, mi);
    vstd::arithmetic::div_mod::lemma_add_mod_noop((a + b) as int, c as int, mi);
    let s = ((a + b) % m) as int;
    vstd::arithmetic::div_mod::lemma_add_mod_noop(s, c as int, mi);
    vstd::arithmetic::div_mod::lemma_mod_twice((a + b) as int, mi);
}

/// The lattice hash (see `lattice_hash`); its bits, over 2^32 - 1, give the
/// noise value of the point.
pub fn hash_2d_bits(x: u32, y: u32, salt: u32) -> (h: u32)
    ensures
        h == lattice_hash(x, y, salt),
{
    let a = x.wrapping_mul(HASH_MUL_X);
    let b = y.wrapping_mul(HASH_MUL_Y);
    let h = a.wrapping_add(b).wrapping_add(salt);
    proof {
        let m = two_pow_32();
        let p = x as nat * HASH_MUL_X as nat;
        let q = y as nat * HASH_MUL_Y as nat;
        lemma_mod_sum3(p, q, salt as nat, m);
        vstd::arithmetic::div_mod::lemma_small_mod(salt as nat, m);
        assert(h == ((p + q + salt as nat) % m) as u32);
    }
    let h = (h ^ (h >> 13)).wrapping_mul(HASH_MUL_MIX);
    h ^ (h >> 16)
}

} // verus!
