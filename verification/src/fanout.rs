//! The subnet fan-out: after a hit, the neighbours of the address are probed
//! too, and so may be the other ports of a host that answered.

use vstd::prelude::*;
use crate::blacklist::Blacklist;
use crate::config::Config;
use crate::net::{host_range, Cidr};

verus! {

/// How many probes of a fan-out run at a time.
pub const FANOUT_WINDOW: usize = 32;

/// The first port of the extended port scan.
pub const FIRST_SCAN_PORT: u16 = 1024;

/// The hosts that a fan-out from `ip` covers, from the first to the last: the
/// hosts of the network of `ip` with the configured prefix length.
pub fn fanout_range(ip: u32, config: &Config) -> (r: Option<(u32, u32)>)
    ensures
        r == host_range(ip, crate::config::fanout_prefix_of(config.isp_scan_subnet)),
{
    let net = Cidr { addr: ip, prefix_len: config.fanout_prefix() };
    net.hosts()
}

/// Whether a host is probed in a fan-out from `origin`: it is not `origin`
/// itself and is not blacklisted.
pub open spec fn fanout_wanted(host: u32, origin: u32, blacklist: Blacklist) -> bool {
    host != origin && !blacklist.covers(host)
}

/// The next host to probe in a fan-out from `origin`: the first from `from`
/// up to `last` that is wanted. With none left the fan-out is over.
pub fn next_fanout_target(from: u32, last: u32, origin: u32, blacklist: &Blacklist) -> (r: Option<
    u32,
>)
    requires
        blacklist.wf(),
    ensures
        match r {
            Some(host) => from <= host <= last && fanout_wanted(host, origin, *blacklist)
                && forall|k: u32| from <= k < host ==> !fanout_wanted(k, origin, *blacklist),
            None => forall|k: u32| from <= k <= last ==> !fanout_wanted(k, origin, *blacklist),
        },
{
    if from > last {
        return None;
    }
    let mut host = from;
    loop
        invariant
            blacklist.wf(),
            from <= host <= last,
            forall|k: u32| from <= k < host ==> !fanout_wanted(k, origin, *blacklist),
        decreases last - host,
    {
        if host != origin && !blacklist.contains(host) {
            return Some(host);
        }
        if host == last {
            return None;
        }
        host += 1;
    }
}

/// The next port of the extended port scan, after `after` or at the start:
/// the ports run from 1024 to 65535.
pub fn next_scan_port(after: Option<u16>) -> (r: Option<u16>)
    ensures
        r == match after {
            None => Some(1024u16),
            Some(p) => if p >= 65535 {
                None
            } else if p < 1023 {
                Some(1024u16)
            } else {
                Some((p + 1) as u16)
            },
        },
{
    match after {
        None => Some(FIRST_SCAN_PORT),
        Some(p) => if p == u16::MAX {
            None
        } else if p < FIRST_SCAN_PORT - 1 {
            Some(FIRST_SCAN_PORT)
        } else {
            Some(p + 1)
        },
    }
}

} // verus!
