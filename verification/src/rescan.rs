//! The rescanner: the servers that are known are probed again, cycle after
//! cycle.

use vstd::prelude::*;
use vstd::string::*;
use vstd::utf8::*;
use crate::blacklist::Blacklist;
use crate::text::{ip_port_value, parse_ip_port};

verus! {

/// The pause between two cycles, in seconds.
pub const RESCAN_INTERVAL_SECS: u64 = 60;

/// How long a cycle waits for a connection to the database, in seconds.
pub const POOL_TIMEOUT_SECS: u64 = 10;

/// The targets of a cycle: each stored address that can be read and is not
/// blacklisted, in the order of the rows.
pub open spec fn targets_of(rows: Seq<Seq<u8>>, blacklist: Blacklist) -> Seq<(u32, u16)>
    decreases rows.len(),
{
    if rows.len() == 0 {
        Seq::empty()
    } else {
        let front = targets_of(rows.drop_last(), blacklist);
        match ip_port_value(rows.last()) {
            Some(target) => if blacklist.covers(target.0) {
                front
            } else {
                front.push(target)
            },
            None => front,
        }
    }
}

/// The UTF-8 bytes of each row.
pub open spec fn row_bytes(rows: Seq<String>) -> Seq<Seq<u8>> {
    rows.map_values(|row: String| encode_utf8(row@))
}

/// Picks the targets of a cycle from the stored addresses.
pub fn rescan_targets(rows: &Vec<String>, blacklist: &Blacklist) -> (r: Vec<(u32, u16)>)
    requires
        blacklist.wf(),
    ensures
        r@ == targets_of(row_bytes(rows@), *blacklist),
{
    let mut targets: Vec<(u32, u16)> = Vec::new();
    let mut i: usize = 0;
    proof {
        assert(row_bytes(rows@).take(0) =~= Seq::<Seq<u8>>::empty());
    }
    while i < rows.len()
        invariant
            blacklist.wf(),
            i <= rows@.len(),
            targets@ == targets_of(row_bytes(rows@).take(i as int), *blacklist),
        decreases rows.len() - i,
    {
        proof {
            let upto = row_bytes(rows@).take(i + 1);
            assert(upto.drop_last() =~= row_bytes(rows@).take(i as int));
            assert(upto.last() == encode_utf8(rows@[i as int]@));
        }
        match parse_ip_port(rows[i].as_str()) {
            Some((ip, port)) => {
                if !blacklist.contains(ip) {
                    targets.push((ip, port));
                }
            },
            None => {},
        }
        i += 1;
    }
    proof {
        assert(row_bytes(rows@).take(rows@.len() as int) =~= row_bytes(rows@));
    }
    targets
}

} // verus!
