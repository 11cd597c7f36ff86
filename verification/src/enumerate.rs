//! The enumerator: it walks the indexes of a sweep in order, maps each to
//! its address and hands out the addresses that are not blacklisted.

use vstd::prelude::*;
use crate::blacklist::Blacklist;
use crate::permute::{
    lemma_permute_injective, lemma_permute_surjective, permute_u32, permuted,
};

verus! {

/// The number of indexes of a sweep: one for each IPv4 address.
pub const SWEEP_SIZE: u64 = 0x1_0000_0000;

/// The address of the index `index` of a sweep.
pub open spec fn address_at(index: int, rounds: u8, seed: u64) -> u32 {
    permuted(index as u32, rounds as nat, seed)
}

/// The next address to hand to a worker, from the index `index` on, and the
/// index to go on from: the address of the first index whose address is not
/// blacklisted. With none left the sweep is over.
pub fn next_address(index: u64, rounds: u8, seed: u64, blacklist: &Blacklist) -> (r: Option<
    (u32, u64),
>)
    requires
        blacklist.wf(),
    ensures
        match r {
            Some((addr, next)) => {
                &&& index < next <= SWEEP_SIZE
                &&& addr == address_at(next - 1, rounds, seed)
                &&& !blacklist.covers(addr)
                &&& forall|k: int|
                    index <= k < next - 1 ==> blacklist.covers(
                        #[trigger] address_at(k, rounds, seed),
                    )
            },
            None => forall|k: int|
                index <= k < SWEEP_SIZE ==> blacklist.covers(
                    #[trigger] address_at(k, rounds, seed),
                ),
        },
{
    let mut i = index;
    while i < SWEEP_SIZE
        invariant
            blacklist.wf(),
            index <= i,
            forall|k: int|
                index <= k < i ==> blacklist.covers(#[trigger] address_at(k, rounds, seed)),
        decreases SWEEP_SIZE - i,
    {
        let addr = permute_u32(i as u32, rounds, seed);
        if !blacklist.contains(addr) {
            return Some((addr, i + 1));
        }
        i += 1;
    }
    None
}

/// Every address has exactly one index in a sweep: the enumerator comes by
/// each address once.
pub proof fn lemma_sweep_visits_once(addr: u32, rounds: u8, seed: u64)
    ensures
        exists|i: u32|
            address_at(i as int, rounds, seed) == addr && forall|j: u32|
                address_at(j as int, rounds, seed) == addr ==> j == i,
{
    lemma_permute_surjective(addr, rounds as nat, seed);
    let i = choose|i: u32| permuted(i, rounds as nat, seed) == addr;
    assert forall|j: u32| address_at(j as int, rounds, seed) == addr implies j == i by {
        lemma_permute_injective(j, i, rounds as nat, seed);
    }
    assert(address_at(i as int, rounds, seed) == addr);
}

} // verus!
