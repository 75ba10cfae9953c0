//! SplitMix64: the deterministic generator behind the pre-generated pool of
//! random values and the seeds of entities.
//!
//! The generator adds the golden gamma to its state at each step and
//! scrambles the new state into the output with two xor-shift-multiply
//! rounds, all modulo 2^64.

use vstd::prelude::*;

verus! {

/// Values in the pre-generated pool.
pub const RNG_POOL_SIZE: usize = 4096;

/// Increment of the state at each step (2^64 over the golden ratio, odd).
pub const GOLDEN_GAMMA: u64 = 0x9E37_79B9_7F4A_7C15;

/// Multiplier of the first scrambling round.
pub const MIX_MUL_1: u64 = 0xBF58_476D_1CE4_E5B9;

/// Multiplier of the second scrambling round.
pub const MIX_MUL_2: u64 = 0x94D0_49BB_1331_11EB;

/// 2^64.
pub open spec fn two_pow_64() -> nat {
    0x1_0000_0000_0000_0000nat
}

/// The state after `k` steps from `seed`: `seed + k * GOLDEN_GAMMA` modulo 2^64.
pub open spec fn state_after(seed: u64, k: nat) -> u64 {
    ((seed as nat + k * (GOLDEN_GAMMA as nat)) % two_pow_64()) as u64
}

/// The output for a state: `z ^ (z >> 31)` where `z` comes from two rounds
/// of xor-shift (by 30, then 27) and multiplication modulo 2^64.
pub open spec fn mix(state: u64) -> u64 {
    let z1 = (((state ^ (state >> 30u64)) as nat * (MIX_MUL_1 as nat)) % two_pow_64()) as u64;
    let z2 = (((z1 ^ (z1 >> 27u64)) as nat * (MIX_MUL_2 as nat)) % two_pow_64()) as u64;
    z2 ^ (z2 >> 31u64)
}

/// One step of the generator: the state advances by the golden gamma and
/// the result is the scrambled new state.
pub fn splitmix64(state: &mut u64) -> (r: u64)
    ensures
        *final(state) == state_after(*old(state), 1),
        r == mix(*final(state)),
{
    *state = state.wrapping_add(GOLDEN_GAMMA);
    let s = *state;
    let z = (s ^ (s >> 30)).wrapping_mul(MIX_MUL_1);
    let z = (z ^ (z >> 27)).wrapping_mul(MIX_MUL_2);
    z ^ (z >> 31)
}

proof fn lemma_state_step(seed: u64, k: nat)
    ensures
        state_after(seed, k + 1) == ((state_after(seed, k) as nat + GOLDEN_GAMMA as nat) % two_pow_64()) as u64,
{
    let m = two_pow_64() as int;
    let a = seed as int + k * (GOLDEN_GAMMA as int);
    let g = GOLDEN_GAMMA as int;
    assert(a + g == seed as int + (k + 1) * (GOLDEN_GAMMA as int)) by (nonlinear_arith)
        requires
            a == seed as int + k * (GOLDEN_GAMMA as int),
            g == GOLDEN_GAMMA as int,
    ;
    vstd::arithmetic::div_mod::lemma_add_mod_noop(a, g, m);
    vstd::arithmetic::div_mod::lemma_mod_twice(g, m);
    vstd::arithmetic::div_mod::lemma_small_mod(g as nat, m as nat);
}

/// The first `n` outputs of the generator from `seed`, in order: output `i`
/// is the scrambled state after `i + 1` steps.
pub fn splitmix64_block(seed: u64, n: usize) -> (r: Vec<u64>)
    ensures
        r@.len() == n,
        forall|i: int| 0 <= i < n ==> #[trigger] r@[i] == mix(state_after(seed, (i + 1) as nat)),
{
    let mut out: Vec<u64> = Vec::new();
    let mut state = seed;
    let mut i: usize = 0;
    proof {
        vstd::arithmetic::div_mod::lemma_small_mod(seed as nat, two_pow_64());
    }
    while i < n
        invariant
            0 <= i <= n,
            out@.len() == i,
            state == state_after(seed, i as nat),
            forall|k: int| 0 <= k < i ==> #[trigger] out@[k] == mix(state_after(seed, (k + 1) as nat)),
        decreases n - i,
    {
        proof {
            lemma_state_step(seed, i as nat);
        }
        let v = splitmix64(&mut state);
        out.push(v);
        i = i + 1;
    }
    out
}

/// Stepping the generator `a` times and then `b` times is stepping it
/// `a + b` times.
pub proof fn lemma_steps_compose(seed: u64, a: nat, b: nat)
    ensures
        state_after(state_after(seed, a), b) == state_after(seed, a + b),
{
    let m = two_pow_64() as int;
    let g = GOLDEN_GAMMA as int;
    let x = seed as int + a * g;
    let y = b * g;
    assert(x + y == seed as int + (a + b) * g) by (nonlinear_arith)
        requires
            x == seed as int + a * g,
            y == b * g,
    ;
    assert(0 <= y) by (nonlinear_arith)
        requires
            y == b * g,
            b >= 0,
            g >= 0,
    ;
    assert(0 <= x) by (nonlinear_arith)
        requires
            x == seed as int + a * g,
            seed >= 0,
            a >= 0,
            g >= 0,
    ;
    vstd::arithmetic::div_mod::lemma_add_mod_noop(x, y, m);
    vstd::arithmetic::div_mod::lemma_mod_twice(y, m);
    vstd::arithmetic::div_mod::lemma_add_mod_noop(x % m, y, m);
    vstd::arithmetic::div_mod::lemma_mod_twice(x, m);
}

} // verus!
