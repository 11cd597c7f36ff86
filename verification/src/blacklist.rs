//! The blacklist: the addresses that are never probed, given as single
//! addresses, networks and inclusive ranges.

use vstd::prelude::*;
use vstd::std_specs::bits::*;
use vstd::string::*;
use vstd::utf8::*;
use crate::net::{
    broadcast_of, cidr_of, cidr_text_value, hostmask, netmask, network_of, parse_cidr, Cidr,
};
use crate::text::{
    ip_range_value, ipv4_value, parse_ip_range, parse_ipv4, trim_text, trimmed_text,
};

verus! {

/// The number of low bits that the block at `cur` spans: the trailing zeros
/// of `-cur`, which are 32 for 0, or those of the number of addresses from
/// `cur` to `end`, whichever are fewer.
pub open spec fn block_bits(cur: u32, end: u32) -> u32 {
    let aligned = u32_trailing_zeros((!cur).wrapping_add(1));
    let fitting = u64_trailing_zeros((end - cur + 1) as u64);
    if aligned <= fitting {
        aligned
    } else {
        fitting
    }
}

/// The number of addresses in a block of `bits` low bits.
pub open spec fn block_size(bits: u32) -> u64 {
    1u64 << bits
}

/// The networks that the range from `cur` to `end` is cut into: at each step
/// the network of `cur` whose prefix leaves `block_bits` bits to the hosts.
pub open spec fn range_cidrs(cur: int, end: u32) -> Seq<Cidr>
    decreases end - cur + 1,
    via range_cidrs_decreases
{
    if cur < 0 || cur > end {
        Seq::empty()
    } else {
        let bits = block_bits(cur as u32, end);
        seq![Cidr { addr: cur as u32, prefix_len: (32 - bits) as u8 }] + range_cidrs(
            cur + block_size(bits),
            end,
        )
    }
}

#[via_fn]
proof fn range_cidrs_decreases(cur: int, end: u32) {
    if 0 <= cur <= end {
        lemma_block(cur as u32, end);
    }
}

/// The block at `cur` is a network that starts at `cur` and ends at or
/// before `end`.
proof fn lemma_block(cur: u32, end: u32)
    requires
        cur <= end,
    ensures
        block_bits(cur, end) <= 32,
        1 <= block_size(block_bits(cur, end)) <= end - cur + 1,
        network_of(cur, (32 - block_bits(cur, end)) as u8) == cur,
        broadcast_of(cur, (32 - block_bits(cur, end)) as u8) == cur + block_size(
            block_bits(cur, end),
        ) - 1,
{
    let flipped = !cur;
    let negated = flipped.wrapping_add(1);
    let remaining = (end - cur + 1) as u64;
    let aligned = u32_trailing_zeros(negated);
    let fitting = u64_trailing_zeros(remaining);
    let bits = block_bits(cur, end);
    axiom_u32_trailing_zeros(negated);
    axiom_u64_trailing_zeros(remaining);
    let size = block_size(bits);
    let spare = (32 - aligned) as u32;
    assert(negated << spare == 0);
    let top = fitting as u64;
    assert((remaining >> top) & 1 == 1);
    assert(1 <= size && size <= remaining) by (bit_vector)
        requires
            size == 1u64 << bits,
            bits <= 32,
            bits <= top,
            top < 64,
            (remaining >> top) & 1 == 1,
    ;
    let prefix_len = (32 - bits) as u8;
    let net = netmask(prefix_len);
    let host = hostmask(prefix_len);
    let shift = (32 - prefix_len) as u32;
    let wide = prefix_len as u32;
    assert(cur & net == cur && (cur | host) as u64 == cur as u64 + size - 1) by (bit_vector)
        requires
            flipped == !cur,
            flipped == 0xFFFF_FFFFu32 ==> negated == 0,
            flipped < 0xFFFF_FFFFu32 ==> negated == flipped + 1,
            negated << spare == 0,
            spare + aligned == 32,
            bits <= aligned,
            aligned <= 32,
            size == 1u64 << bits,
            wide + bits == 32,
            shift == bits,
            net == (if wide == 0 {
                0u32
            } else {
                0xFFFF_FFFFu32 << shift
            }),
            host == (if wide >= 32 {
                0u32
            } else {
                0xFFFF_FFFFu32 >> wide
            }),
    ;
}

/// Cuts the inclusive range from `start` to `end` into networks. A range
/// whose start lies behind its end is empty.
pub fn range_to_cidrs(start: u32, end: u32) -> (cidrs: Vec<Cidr>)
    ensures
        cidrs@ == range_cidrs(start as int, end),
{
    let mut cidrs: Vec<Cidr> = Vec::new();
    let mut current: u64 = start as u64;
    while current <= end as u64
        invariant
            start <= current,
            current <= end + 1 || current == start,
            cidrs@ + range_cidrs(current as int, end) =~= range_cidrs(start as int, end),
        decreases end + 1 - current,
    {
        let cur = current as u32;
        let max_size = (!cur).wrapping_add(1).trailing_zeros();
        let remaining = (end as u64 - current + 1).trailing_zeros();
        let bits = if max_size <= remaining {
            max_size
        } else {
            remaining
        };
        proof {
            lemma_block(cur, end);
            assert(bits == block_bits(cur, end));
        }
        let prefix = 32 - bits;
        cidrs.push(Cidr { addr: cur, prefix_len: prefix as u8 });
        current = current + (1u64 << bits);
    }
    cidrs
}

/// Whether one of the networks holds `ip`.
pub open spec fn covered(cidrs: Seq<Cidr>, ip: u32) -> bool {
    exists|i: int| 0 <= i < cidrs.len() && #[trigger] cidrs[i].covers(ip)
}

/// Whether the networks lie side by side from `lo` to `hi`: the first starts
/// at `lo`, each next one starts right behind the one before, and the last
/// ends at `hi`. No networks at all tile the empty range.
pub open spec fn tiles(cidrs: Seq<Cidr>, lo: int, hi: int) -> bool
    decreases cidrs.len(),
{
    if cidrs.len() == 0 {
        lo > hi
    } else {
        &&& cidrs[0].wf()
        &&& cidrs[0].first() == lo
        &&& lo <= cidrs[0].last() <= hi
        &&& tiles(cidrs.skip(1), cidrs[0].last() + 1, hi)
    }
}

proof fn lemma_range_cidrs_tile_from(cur: int, end: u32)
    requires
        0 <= cur,
    ensures
        tiles(range_cidrs(cur, end), cur, end as int),
    decreases end - cur + 1,
{
    if cur <= end {
        lemma_block(cur as u32, end);
        let bits = block_bits(cur as u32, end);
        let next = cur + block_size(bits);
        let whole = range_cidrs(cur, end);
        assert(whole.skip(1) =~= range_cidrs(next, end));
        lemma_range_cidrs_tile_from(next, end);
    }
}

/// The networks that a range is cut into lie side by side from its start to
/// its end: they leave no gap and do not overlap.
pub proof fn lemma_range_cidrs_tile(start: u32, end: u32)
    ensures
        tiles(range_cidrs(start as int, end), start as int, end as int),
{
    lemma_range_cidrs_tile_from(start as int, end);
}

/// Networks that tile a range hold exactly the addresses of the range.
pub proof fn lemma_tiles_cover(cidrs: Seq<Cidr>, lo: int, hi: int, ip: u32)
    requires
        tiles(cidrs, lo, hi),
    ensures
        covered(cidrs, ip) <==> lo <= ip <= hi,
    decreases cidrs.len(),
{
    if cidrs.len() > 0 {
        let rest = cidrs.skip(1);
        lemma_tiles_cover(rest, cidrs[0].last() + 1, hi, ip);
        if covered(cidrs, ip) {
            let i = choose|i: int| 0 <= i < cidrs.len() && #[trigger] cidrs[i].covers(ip);
            if i > 0 {
                assert(rest[i - 1].covers(ip));
            }
        }
        if covered(rest, ip) {
            let i = choose|i: int| 0 <= i < rest.len() && #[trigger] rest[i].covers(ip);
            assert(cidrs[i + 1].covers(ip));
        }
        if lo <= ip <= cidrs[0].last() {
            assert(cidrs[0].covers(ip));
        }
    }
}

/// The networks that a range is cut into hold the addresses of the range
/// and no others.
pub proof fn lemma_range_cidrs_cover(start: u32, end: u32, ip: u32)
    ensures
        covered(range_cidrs(start as int, end), ip) <==> start <= ip <= end,
{
    lemma_range_cidrs_tile(start, end);
    lemma_tiles_cover(range_cidrs(start as int, end), start as int, end as int, ip);
}

/// Every network that a range is cut into has a prefix of at most 32 bits.
proof fn lemma_range_cidrs_wf(cur: int, end: u32)
    requires
        0 <= cur,
    ensures
        forall|i: int| 0 <= i < range_cidrs(cur, end).len() ==> (#[trigger] range_cidrs(
            cur,
            end,
        )[i]).wf(),
    decreases end - cur + 1,
{
    if cur <= end {
        lemma_block(cur as u32, end);
        let next = cur + block_size(block_bits(cur as u32, end));
        lemma_range_cidrs_wf(next, end);
        let whole = range_cidrs(cur, end);
        assert forall|i: int| 0 <= i < whole.len() implies (#[trigger] whole[i]).wf() by {
            if i > 0 {
                assert(whole[i] == range_cidrs(next, end)[i - 1]);
            }
        }
    }
}

/// One list behind another holds what either of them holds.
pub proof fn lemma_covered_concat(a: Seq<Cidr>, b: Seq<Cidr>, ip: u32)
    ensures
        covered(a + b, ip) <==> covered(a, ip) || covered(b, ip),
{
    let whole = a + b;
    if covered(whole, ip) {
        let i = choose|i: int| 0 <= i < whole.len() && #[trigger] whole[i].covers(ip);
        if i < a.len() {
            assert(a[i].covers(ip));
        } else {
            assert(b[i - a.len()].covers(ip));
        }
    }
    if covered(a, ip) {
        let i = choose|i: int| 0 <= i < a.len() && #[trigger] a[i].covers(ip);
        assert(whole[i].covers(ip));
    }
    if covered(b, ip) {
        let i = choose|i: int| 0 <= i < b.len() && #[trigger] b[i].covers(ip);
        assert(whole[i + a.len()].covers(ip));
    }
}

/// One entry of the blacklist.
#[derive(Clone, Copy, Debug, PartialEq, Eq, Structural)]
pub enum BlacklistEntry {
    /// One address.
    Single(u32),
    /// A network.
    Cidr(Cidr),
    /// The addresses from the first to the second, both included.
    Range(u32, u32),
}

impl BlacklistEntry {
    /// A network has a prefix of at most 32 bits, and a range does not end
    /// before it starts.
    pub open spec fn wf(&self) -> bool {
        match *self {
            BlacklistEntry::Single(_) => true,
            BlacklistEntry::Cidr(c) => c.wf(),
            BlacklistEntry::Range(lo, hi) => lo <= hi,
        }
    }

    /// Whether the entry holds `ip`.
    pub open spec fn covers(&self, ip: u32) -> bool {
        match *self {
            BlacklistEntry::Single(a) => ip == a,
            BlacklistEntry::Cidr(c) => c.covers(ip),
            BlacklistEntry::Range(lo, hi) => lo <= ip <= hi,
        }
    }
}

/// What a line of the blacklist file is.
#[derive(Clone, Copy, Debug, PartialEq, Eq, Structural)]
pub enum LineKind {
    /// An empty line or a comment.
    Blank,
    /// An entry.
    Entry(BlacklistEntry),
    /// Neither: the line is reported and passed over.
    Invalid,
}

/// The entry that a line stands for, given what each of the three readings
/// made of it: an address comes first, then a network, then a range.
pub open spec fn entry_of(
    single: Option<u32>,
    cidr: Option<Cidr>,
    range: Option<(u32, u32)>,
) -> LineKind {
    match single {
        Some(ip) => LineKind::Entry(BlacklistEntry::Single(ip)),
        None => match cidr {
            Some(c) => LineKind::Entry(BlacklistEntry::Cidr(c)),
            None => match range {
                Some((lo, hi)) => LineKind::Entry(BlacklistEntry::Range(lo, hi)),
                None => LineKind::Invalid,
            },
        },
    }
}

/// Picks the entry among the three readings of a line.
pub fn choose_entry(single: Option<u32>, cidr: Option<Cidr>, range: Option<(u32, u32)>) -> (r:
    LineKind)
    ensures
        r == entry_of(single, cidr, range),
{
    match single {
        Some(ip) => LineKind::Entry(BlacklistEntry::Single(ip)),
        None => match cidr {
            Some(c) => LineKind::Entry(BlacklistEntry::Cidr(c)),
            None => match range {
                Some((lo, hi)) => LineKind::Entry(BlacklistEntry::Range(lo, hi)),
                None => LineKind::Invalid,
            },
        },
    }
}

/// What a line without surrounding whitespace is: blank when it is empty or
/// starts with `#`, else the entry that it reads as.
pub open spec fn line_kind_of(line: Seq<char>) -> LineKind {
    if line.len() == 0 || line[0] == '#' {
        LineKind::Blank
    } else {
        entry_of(
            ipv4_value(encode_utf8(line)),
            cidr_of(cidr_text_value(line)),
            ip_range_value(encode_utf8(line)),
        )
    }
}

/// Classifies a line that has no whitespace around it.
pub fn classify_trimmed(line: &str) -> (r: LineKind)
    ensures
        r == line_kind_of(line@),
        r matches LineKind::Entry(e) ==> e.wf(),
{
    if line.is_empty() || line.get_char(0) == '#' {
        return LineKind::Blank;
    }
    let single = parse_ipv4(line);
    if single.is_some() {
        return choose_entry(single, None, None);
    }
    let cidr = parse_cidr(line);
    if cidr.is_some() {
        return choose_entry(None, cidr, None);
    }
    choose_entry(None, None, parse_ip_range(line))
}

/// Classifies a line of the blacklist file.
pub fn parse_blacklist_line(line: &str) -> (r: LineKind)
    ensures
        r == line_kind_of(trimmed_text(line@)),
        r matches LineKind::Entry(e) ==> e.wf(),
{
    classify_trimmed(trim_text(line))
}

/// The addresses that are never probed.
#[derive(Clone, Debug)]
pub struct Blacklist {
    cidrs: Vec<Cidr>,
}

impl Blacklist {
    /// The networks that the blacklist is made of.
    pub closed spec fn cidrs(&self) -> Seq<Cidr> {
        self.cidrs@
    }

    /// Every network has a prefix of at most 32 bits.
    pub open spec fn wf(&self) -> bool {
        forall|i: int| 0 <= i < self.cidrs().len() ==> (#[trigger] self.cidrs()[i]).wf()
    }

    /// Whether `ip` is blacklisted.
    pub open spec fn covers(&self, ip: u32) -> bool {
        covered(self.cidrs(), ip)
    }

    /// A blacklist that holds no address.
    pub fn new() -> (r: Blacklist)
        ensures
            r.wf(),
            r.cidrs() == Seq::<Cidr>::empty(),
            forall|ip: u32| !r.covers(ip),
    {
        Blacklist { cidrs: Vec::new() }
    }

    /// The number of networks held.
    pub fn len(&self) -> (r: usize)
        ensures
            r == self.cidrs().len(),
    {
        self.cidrs.len()
    }

    /// Adds the addresses of `entry`. A range is cut into networks.
    pub fn add(&mut self, entry: BlacklistEntry)
        requires
            old(self).wf(),
            entry.wf(),
        ensures
            final(self).wf(),
            forall|ip: u32| final(self).covers(ip) <==> old(self).covers(ip) || entry.covers(ip),
    {
        let ghost before = self.cidrs@;
        match entry {
            BlacklistEntry::Single(addr) => {
                let one = Cidr { addr, prefix_len: 32 };
                self.cidrs.push(one);
                proof {
                    let net = netmask(32);
                    let host = hostmask(32);
                    assert(addr & net == addr && addr | host == addr) by (bit_vector)
                        requires
                            net == 0xFFFF_FFFFu32 << 0u32,
                            host == 0u32,
                    ;
                    assert(self.cidrs@ =~= before + seq![one]);
                    assert forall|i: int| 0 <= i < self.cidrs@.len() implies (
                    #[trigger] self.cidrs@[i]).wf() by {
                        if i < before.len() {
                            assert(old(self).cidrs()[i].wf());
                        }
                    }
                    assert forall|ip: u32|
                        self.covers(ip) <==> covered(before, ip) || entry.covers(ip) by {
                        lemma_covered_concat(before, seq![one], ip);
                        if covered(seq![one], ip) {
                            let i = choose|i: int| 0 <= i < 1 && #[trigger] seq![one][i].covers(ip);
                        }
                        if entry.covers(ip) {
                            assert(seq![one][0].covers(ip));
                        }
                    }
                }
            },
            BlacklistEntry::Cidr(c) => {
                self.cidrs.push(c);
                proof {
                    assert(self.cidrs@ =~= before + seq![c]);
                    assert forall|i: int| 0 <= i < self.cidrs@.len() implies (
                    #[trigger] self.cidrs@[i]).wf() by {
                        if i < before.len() {
                            assert(old(self).cidrs()[i].wf());
                        }
                    }
                    assert forall|ip: u32|
                        self.covers(ip) <==> covered(before, ip) || entry.covers(ip) by {
                        lemma_covered_concat(before, seq![c], ip);
                        if covered(seq![c], ip) {
                            let i = choose|i: int| 0 <= i < 1 && #[trigger] seq![c][i].covers(ip);
                        }
                        if entry.covers(ip) {
                            assert(seq![c][0].covers(ip));
                        }
                    }
                }
            },
            BlacklistEntry::Range(lo, hi) => {
                let mut more = range_to_cidrs(lo, hi);
                let ghost added = more@;
                self.cidrs.append(&mut more);
                proof {
                    lemma_range_cidrs_wf(lo as int, hi);
                    assert(self.cidrs@ =~= before + added);
                    assert forall|i: int| 0 <= i < self.cidrs@.len() implies (
                    #[trigger] self.cidrs@[i]).wf() by {
                        if i < before.len() {
                            assert(old(self).cidrs()[i].wf());
                        } else {
                            assert(added[i - before.len()].wf());
                        }
                    }
                    assert forall|ip: u32|
                        self.covers(ip) <==> covered(before, ip) || entry.covers(ip) by {
                        lemma_covered_concat(before, added, ip);
                        lemma_range_cidrs_cover(lo, hi, ip);
                    }
                }
            },
        }
    }

    /// Whether `ip` is blacklisted: whether one of the networks holds it.
    pub fn contains(&self, ip: u32) -> (r: bool)
        requires
            self.wf(),
        ensures
            r == self.covers(ip),
    {
        let mut i: usize = 0;
        while i < self.cidrs.len()
            invariant
                self.wf(),
                i <= self.cidrs@.len(),
                forall|j: int| 0 <= j < i ==> !(#[trigger] self.cidrs@[j]).covers(ip),
            decreases self.cidrs.len() - i,
        {
            assert(self.cidrs()[i as int].wf());
            if self.cidrs[i].contains(ip) {
                return true;
            }
            i += 1;
        }
        false
    }
}

impl Default for Blacklist {
    fn default() -> (r: Blacklist)
        ensures
            r.wf(),
            r.cidrs() == Seq::<Cidr>::empty(),
    {
        Blacklist::new()
    }
}

/// Whether a line of the file blacklists `ip`.
pub open spec fn line_covers(line: Seq<char>, ip: u32) -> bool {
    match line_kind_of(trimmed_text(line)) {
        LineKind::Entry(e) => e.covers(ip),
        _ => false,
    }
}

/// Whether a line of the file is neither blank nor an entry.
pub open spec fn line_invalid(line: Seq<char>) -> bool {
    line_kind_of(trimmed_text(line)) is Invalid
}

/// Builds the blacklist from the lines of its file. Blank lines and comments
/// are passed over. A line that is no entry is passed over too, and its index
/// is returned, in rising order, for the caller to report.
pub fn load_blacklist(lines: &Vec<String>) -> (r: (Blacklist, Vec<usize>))
    ensures
        r.0.wf(),
        forall|ip: u32|
            r.0.covers(ip) <==> exists|i: int|
                0 <= i < lines@.len() && line_covers(#[trigger] lines@[i]@, ip),
        forall|k: int|
            0 <= k < r.1@.len() ==> (#[trigger] r.1@[k]) < lines@.len() && line_invalid(
                lines@[r.1@[k] as int]@,
            ),
        forall|k: int, l: int| 0 <= k < l < r.1@.len() ==> r.1@[k] < r.1@[l],
        forall|i: int|
            0 <= i < lines@.len() && line_invalid(#[trigger] lines@[i]@) ==> r.1@.contains(
                i as usize,
            ),
{
    let mut blacklist = Blacklist::new();
    let mut ignored: Vec<usize> = Vec::new();
    let mut n: usize = 0;
    while n < lines.len()
        invariant
            n <= lines@.len(),
            blacklist.wf(),
            forall|ip: u32|
                blacklist.covers(ip) <==> exists|i: int|
                    0 <= i < n && line_covers(#[trigger] lines@[i]@, ip),
            forall|k: int|
                0 <= k < ignored@.len() ==> (#[trigger] ignored@[k]) < n && line_invalid(
                    lines@[ignored@[k] as int]@,
                ),
            forall|k: int, l: int| 0 <= k < l < ignored@.len() ==> ignored@[k] < ignored@[l],
            forall|i: int|
                0 <= i < n && line_invalid(#[trigger] lines@[i]@) ==> ignored@.contains(
                    i as usize,
                ),
        decreases lines.len() - n,
    {
        let ghost held = blacklist;
        let ghost noted = ignored@;
        match parse_blacklist_line(lines[n].as_str()) {
            LineKind::Blank => {},
            LineKind::Entry(entry) => {
                blacklist.add(entry);
            },
            LineKind::Invalid => {
                ignored.push(n);
                proof {
                    assert(ignored@[noted.len() as int] == n);
                    assert forall|i: int|
                        0 <= i < n + 1 && line_invalid(
                            #[trigger] lines@[i]@,
                        ) implies ignored@.contains(i as usize) by {
                        if i < n {
                            let k = choose|k: int| 0 <= k < noted.len() && noted[k] == i as usize;
                            assert(ignored@[k] == i as usize);
                        }
                    }
                }
            },
        }
        proof {
            assert forall|ip: u32|
                blacklist.covers(ip) <==> exists|i: int|
                    0 <= i < n + 1 && line_covers(#[trigger] lines@[i]@, ip) by {
                if held.covers(ip) {
                    let i = choose|i: int| 0 <= i < n && line_covers(#[trigger] lines@[i]@, ip);
                    assert(line_covers(lines@[i]@, ip));
                }
                if line_covers(lines@[n as int]@, ip) {
                }
                if exists|i: int| 0 <= i < n + 1 && line_covers(#[trigger] lines@[i]@, ip) {
                    let i = choose|i: int|
                        0 <= i < n + 1 && line_covers(#[trigger] lines@[i]@, ip);
                    if i < n {
                        assert(held.covers(ip));
                    }
                }
            }
            assert forall|i: int|
                0 <= i < n + 1 && line_invalid(#[trigger] lines@[i]@) implies ignored@.contains(
                i as usize,
            ) by {
                if i < n {
                    let k = choose|k: int| 0 <= k < noted.len() && noted[k] == i as usize;
                    assert(ignored@[k] == i as usize);
                }
            }
        }
        n += 1;
    }
    (blacklist, ignored)
}

} // verus!
