//! The shuffled address generator: a balanced Feistel network on 32-bit
//! blocks, which is a permutation of the IPv4 address space whatever the seed
//! and the number of rounds.

use vstd::prelude::*;

verus! {

/// The multiplier of the round function.
pub const ROUND_MULTIPLIER: u32 = 0x5bd1e995;

/// The round function: the right half, multiplied, rotated left by 13 bits
/// and mixed with the key.
pub open spec fn round_function(right: u32, key: u32) -> u32 {
    let m = right.wrapping_mul(0x5bd1e995);
    ((m << 13) | (m >> 19)) ^ key
}

/// One round: the right half moves to the left, and the left half, mixed with
/// the low 16 bits of the round function, becomes the right half.
pub open spec fn round_of(x: u32, key: u32) -> u32 {
    let l = x >> 16;
    let r = x & 0xFFFF;
    (r << 16) | (l ^ (round_function(r, key) & 0xFFFF))
}

/// The round undone.
pub open spec fn round_undone(y: u32, key: u32) -> u32 {
    let r = y >> 16;
    let l = (y & 0xFFFF) ^ (round_function(r, key) & 0xFFFF);
    (l << 16) | r
}

/// The key of round `index`: the low 32 bits of `seed + index`.
pub open spec fn round_key(seed: u64, index: nat) -> u32 {
    ((seed + index) % 0x1_0000_0000) as u32
}

/// The image of `x` after the first `rounds` rounds.
pub open spec fn permuted(x: u32, rounds: nat, seed: u64) -> u32
    decreases rounds,
{
    if rounds == 0 {
        x
    } else {
        round_of(permuted(x, (rounds - 1) as nat, seed), round_key(seed, (rounds - 1) as nat))
    }
}

/// The value whose image after `rounds` rounds is `y`.
pub open spec fn unpermuted(y: u32, rounds: nat, seed: u64) -> u32
    decreases rounds,
{
    if rounds == 0 {
        y
    } else {
        unpermuted(
            round_undone(y, round_key(seed, (rounds - 1) as nat)),
            (rounds - 1) as nat,
            seed,
        )
    }
}

/// Applies one Feistel round to `x`.
pub fn feistel_round(x: u32, key: u32) -> (y: u32)
    ensures
        y == round_of(x, key),
{
    let l = x >> 16;
    let r = x & 0xFFFF;
    let m = r.wrapping_mul(ROUND_MULTIPLIER);
    let f = ((m << 13) | (m >> 19)) ^ key;
    let new_l = r;
    let new_r = l ^ (f & 0xFFFF);
    (new_l << 16) | new_r
}

/// Maps the index `x` to its address: `rounds` Feistel rounds, round `i` keyed
/// with the low 32 bits of `seed + i`.
pub fn permute_u32(x: u32, rounds: u8, seed: u64) -> (y: u32)
    ensures
        y == permuted(x, rounds as nat, seed),
{
    let mut y = x;
    let mut i: u8 = 0;
    while i < rounds
        invariant
            i <= rounds,
            y == permuted(x, i as nat, seed),
        decreases rounds - i,
    {
        let sum = seed.wrapping_add(i as u64);
        let key = (sum & 0xFFFF_FFFF) as u32;
        proof {
            let step = i as u64;
            assert((sum & 0xFFFF_FFFF) as u32 == ((seed + step) % 0x1_0000_0000) as u32
                && sum & 0xFFFF_FFFF <= 0xFFFF_FFFF) by (bit_vector)
                requires
                    seed + step > 0xFFFF_FFFF_FFFF_FFFF ==> sum == seed + step
                        - 0x1_0000_0000_0000_0000,
                    seed + step <= 0xFFFF_FFFF_FFFF_FFFF ==> sum == seed + step,
            ;
            assert(key == round_key(seed, i as nat));
        }
        y = feistel_round(y, key);
        i += 1;
    }
    y
}

/// Whatever the round function gives, a round can be undone, and undoing
/// it can be done again.
proof fn lemma_round_inverse(x: u32, key: u32)
    ensures
        round_undone(round_of(x, key), key) == x,
        round_of(round_undone(x, key), key) == x,
{
    let r = x & 0xFFFF;
    let f = round_function(r, key);
    let y = round_of(x, key);
    assert(y >> 16 == r && (((y & 0xFFFF) ^ (f & 0xFFFF)) << 16) | (y >> 16) == x) by (bit_vector)
        requires
            r == x & 0xFFFF,
            y == (r << 16) | ((x >> 16) ^ (f & 0xFFFF)),
    ;
    let r2 = x >> 16;
    let f2 = round_function(r2, key);
    let z = round_undone(x, key);
    assert(z & 0xFFFF == r2 && ((z & 0xFFFF) << 16) | ((z >> 16) ^ (f2 & 0xFFFF)) == x)
        by (bit_vector)
        requires
            r2 == x >> 16,
            z == (((x & 0xFFFF) ^ (f2 & 0xFFFF)) << 16) | r2,
    ;
}

/// The rounds undone in reverse order give the index back, and the other way
/// round.
pub proof fn lemma_permute_inverse(x: u32, rounds: nat, seed: u64)
    ensures
        unpermuted(permuted(x, rounds, seed), rounds, seed) == x,
        permuted(unpermuted(x, rounds, seed), rounds, seed) == x,
    decreases rounds,
{
    if rounds > 0 {
        let last = (rounds - 1) as nat;
        let key = round_key(seed, last);
        lemma_round_inverse(permuted(x, last, seed), key);
        lemma_permute_inverse(x, last, seed);
        lemma_round_inverse(x, key);
        lemma_permute_inverse(round_undone(x, key), last, seed);
    }
}

/// No two indexes share an address.
pub proof fn lemma_permute_injective(a: u32, b: u32, rounds: nat, seed: u64)
    requires
        permuted(a, rounds, seed) == permuted(b, rounds, seed),
    ensures
        a == b,
{
    lemma_permute_inverse(a, rounds, seed);
    lemma_permute_inverse(b, rounds, seed);
}

/// Every address is the image of an index.
pub proof fn lemma_permute_surjective(y: u32, rounds: nat, seed: u64)
    ensures
        exists|x: u32| permuted(x, rounds, seed) == y,
{
    lemma_permute_inverse(y, rounds, seed);
    assert(permuted(unpermuted(y, rounds, seed), rounds, seed) == y);
}

} // verus!
