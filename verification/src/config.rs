//! The settings of the scanner and what follows from them.

use vstd::prelude::*;

verus! {

/// The prefix length of the fan-out where the configured one is not a prefix
/// length.
pub const DEFAULT_FANOUT_PREFIX: u8 = 24;

/// How many addresses the channel to the workers holds for each worker.
pub const CHANNEL_SLOTS_PER_WORKER: usize = 100;

/// The number of rounds of the address permutation.
pub const DEFAULT_ROUNDS: u8 = 6;

/// The settings, as the configuration file gives them.
#[derive(Debug, Clone)]
pub struct Config {
    /// The path of the blacklist file.
    pub blacklist_file: String,
    /// The number of probe workers; 0 turns scanning off.
    pub worker_count: usize,
    /// The time allowed for one connection, in milliseconds.
    pub timeout_ms: u64,
    /// The connection string of the database.
    pub db_url: String,
    /// Whether a hit makes the scanner probe the neighbours of the address.
    pub enable_isp_scan: bool,
    /// The prefix length of the network that holds the neighbours.
    pub isp_scan_subnet: u8,
    /// Whether the ports from 1024 on are probed on a host that answered.
    pub extended_port_scan: bool,
    /// The number of probes that the rescanner runs at a time; 0 turns it off.
    pub worker_recheck: u64,
}

impl Config {
    /// Whether the scanner runs.
    pub fn scanning_enabled(&self) -> (r: bool)
        ensures
            r == (self.worker_count != 0),
    {
        self.worker_count != 0
    }

    /// Whether the rescanner runs.
    pub fn rescanner_enabled(&self) -> (r: bool)
        ensures
            r == (self.worker_recheck != 0),
    {
        self.worker_recheck != 0
    }

    /// The prefix length of the fan-out: the configured one, or 24 where that
    /// is no prefix length.
    pub fn fanout_prefix(&self) -> (r: u8)
        ensures
            r == fanout_prefix_of(self.isp_scan_subnet),
            r <= 32,
    {
        if self.isp_scan_subnet <= 32 {
            self.isp_scan_subnet
        } else {
            DEFAULT_FANOUT_PREFIX
        }
    }
}

/// The prefix length that a configured value stands for.
pub open spec fn fanout_prefix_of(configured: u8) -> u8 {
    if configured <= 32 {
        configured
    } else {
        24
    }
}

/// The time allowed for a whole probe with what it stores: twice the time
/// of one connection, and no more than a `u64` holds.
pub fn global_timeout_ms(timeout_ms: u64) -> (r: u64)
    ensures
        r == if 2 * timeout_ms <= u64::MAX {
            2 * timeout_ms
        } else {
            u64::MAX as int
        },
{
    if timeout_ms <= u64::MAX / 2 {
        timeout_ms * 2
    } else {
        u64::MAX
    }
}

/// The number of addresses that the channel to the workers holds: a hundred
/// for each worker, and no more than a `usize` holds.
pub fn channel_capacity(worker_count: usize) -> (r: usize)
    ensures
        r == if 100 * worker_count <= usize::MAX {
            100 * worker_count
        } else {
            usize::MAX as int
        },
{
    if worker_count <= usize::MAX / CHANNEL_SLOTS_PER_WORKER {
        worker_count * CHANNEL_SLOTS_PER_WORKER
    } else {
        usize::MAX
    }
}

} // verus!
