//! IPv4 networks in prefix notation. An address is a `u32`, its first octet in
//! the most significant byte.

use vstd::prelude::*;

verus! {

/// The mask of a prefix: its first `prefix_len` bits set.
pub open spec fn netmask(prefix_len: u8) -> u32 {
    if prefix_len == 0 {
        0
    } else {
        0xFFFF_FFFFu32 << ((32 - prefix_len) as u32)
    }
}

/// The bits that a prefix leaves to the hosts.
pub open spec fn hostmask(prefix_len: u8) -> u32 {
    if prefix_len >= 32 {
        0
    } else {
        0xFFFF_FFFFu32 >> (prefix_len as u32)
    }
}

/// The first address of the network that `addr` lies in.
pub open spec fn network_of(addr: u32, prefix_len: u8) -> u32 {
    addr & netmask(prefix_len)
}

/// The last address of the network that `addr` lies in.
pub open spec fn broadcast_of(addr: u32, prefix_len: u8) -> u32 {
    addr | hostmask(prefix_len)
}

/// A network: an address and the length of its prefix.
#[derive(Clone, Copy, Debug, PartialEq, Eq, Structural)]
pub struct Cidr {
    pub addr: u32,
    pub prefix_len: u8,
}

impl Cidr {
    /// A prefix has at most 32 bits.
    pub open spec fn wf(&self) -> bool {
        self.prefix_len <= 32
    }

    /// The first address of the network.
    pub open spec fn first(&self) -> u32 {
        network_of(self.addr, self.prefix_len)
    }

    /// The last address of the network.
    pub open spec fn last(&self) -> u32 {
        broadcast_of(self.addr, self.prefix_len)
    }

    /// Whether `ip` lies in the network.
    pub open spec fn covers(&self, ip: u32) -> bool {
        self.first() <= ip <= self.last()
    }

    /// The network of `addr` with a prefix of `prefix_len` bits, if there are
    /// that many.
    pub fn new(addr: u32, prefix_len: u8) -> (r: Option<Cidr>)
        ensures
            r is Some <==> prefix_len <= 32,
            r is Some ==> r->Some_0 == (Cidr { addr, prefix_len }),
    {
        if prefix_len > 32 {
            None
        } else {
            Some(Cidr { addr, prefix_len })
        }
    }

    /// Whether `ip` lies in the network.
    pub fn contains(&self, ip: u32) -> (r: bool)
        requires
            self.wf(),
        ensures
            r == self.covers(ip),
    {
        net_contains(self.addr, self.prefix_len, ip)
    }

    /// The first and the last host address of the network, if it has hosts.
    pub fn hosts(&self) -> (r: Option<(u32, u32)>)
        requires
            self.wf(),
        ensures
            r == host_range(self.addr, self.prefix_len),
    {
        net_hosts(self.addr, self.prefix_len)
    }

    /// The first and the last address of the network.
    pub fn bounds(&self) -> (r: (u32, u32))
        requires
            self.wf(),
        ensures
            r.0 == self.first(),
            r.1 == self.last(),
            r.0 <= r.1,
    {
        let r = net_bounds(self.addr, self.prefix_len);
        proof {
            lemma_network_below_broadcast(self.addr, self.prefix_len);
        }
        r
    }
}

/// `ipnet::Ipv4Net::contains`, asked of the network `addr/prefix_len` about the
/// network `ip/32`: true exactly when `ip` lies between the network address
/// and the broadcast address, both included.
#[verifier::external_body]
fn net_contains(addr: u32, prefix_len: u8, ip: u32) -> (r: bool)
    requires
        prefix_len <= 32,
    ensures
        r == (network_of(addr, prefix_len) <= ip <= broadcast_of(addr, prefix_len)),
{
    let net = ipnet::Ipv4Net::new(addr.into(), prefix_len).unwrap();
    let host = ipnet::Ipv4Net::new(ip.into(), 32).unwrap();
    net.contains(&host)
}

/// `ipnet::Ipv4Net::network` and `ipnet::Ipv4Net::broadcast` of the network
/// `addr/prefix_len`: the address with the host bits cleared, and with the
/// host bits set.
#[verifier::external_body]
fn net_bounds(addr: u32, prefix_len: u8) -> (r: (u32, u32))
    requires
        prefix_len <= 32,
    ensures
        r.0 == network_of(addr, prefix_len),
        r.1 == broadcast_of(addr, prefix_len),
{
    let net = ipnet::Ipv4Net::new(addr.into(), prefix_len).unwrap();
    (net.network().into(), net.broadcast().into())
}

/// The first and the last host address of a network. A network with a
/// prefix of fewer than 31 bits keeps its network address and its broadcast
/// address out of the hosts.
pub open spec fn host_range(addr: u32, prefix_len: u8) -> Option<(u32, u32)> {
    let first = network_of(addr, prefix_len);
    let last = broadcast_of(addr, prefix_len);
    let from = if prefix_len < 31 && first < 0xFFFF_FFFF {
        (first + 1) as u32
    } else {
        first
    };
    let to = if prefix_len < 31 && last > 0 {
        (last - 1) as u32
    } else {
        last
    };
    if from <= to {
        Some((from, to))
    } else {
        None
    }
}

/// `ipnet::Ipv4Net::hosts` of the network `addr/prefix_len`, by the first
/// and the last address that it yields: the range runs from the network address to the
/// broadcast address, without the two where the prefix has fewer than 31
/// bits.
#[verifier::external_body]
fn net_hosts(addr: u32, prefix_len: u8) -> (r: Option<(u32, u32)>)
    requires
        prefix_len <= 32,
    ensures
        r == host_range(addr, prefix_len),
{
    let hosts = ipnet::Ipv4Net::new(addr.into(), prefix_len).unwrap().hosts();
    hosts.clone().next().zip(hosts.last()).map(|(first, last)| (first.into(), last.into()))
}

/// What `ipnet`'s parser makes of a text in the form `a.b.c.d/len`: the
/// address and the prefix length, or nothing where it rejects the text.
pub uninterp spec fn cidr_text_value(text: Seq<char>) -> Option<(u32, u8)>;

/// `str::parse::<ipnet::Ipv4Net>`: the address and the prefix length of the
/// network that the text denotes. The parser accepts no prefix longer than 32.
#[verifier::external_body]
fn parse_cidr_text(text: &str) -> (r: Option<(u32, u8)>)
    ensures
        r == cidr_text_value(text@),
        r is Some ==> r->Some_0.1 <= 32,
{
    text.parse::<ipnet::Ipv4Net>().ok().map(|net| (net.addr().into(), net.prefix_len()))
}

/// The network that a text parsed to.
pub open spec fn cidr_of(parsed: Option<(u32, u8)>) -> Option<Cidr> {
    match parsed {
        Some((addr, prefix_len)) => if prefix_len <= 32 {
            Some(Cidr { addr, prefix_len })
        } else {
            None
        },
        None => None,
    }
}

/// Makes a network of what the parser returned.
pub fn cidr_from_parsed(parsed: Option<(u32, u8)>) -> (r: Option<Cidr>)
    ensures
        r == cidr_of(parsed),
        r is Some ==> r->Some_0.wf(),
{
    match parsed {
        Some((addr, prefix_len)) => Cidr::new(addr, prefix_len),
        None => None,
    }
}

/// Parses a network in the form `a.b.c.d/len`.
pub fn parse_cidr(text: &str) -> (r: Option<Cidr>)
    ensures
        r == cidr_of(cidr_text_value(text@)),
        r is Some ==> r->Some_0.wf(),
{
    cidr_from_parsed(parse_cidr_text(text))
}

/// The network address never lies above the broadcast address.
pub proof fn lemma_network_below_broadcast(addr: u32, prefix_len: u8)
    requires
        prefix_len <= 32,
    ensures
        network_of(addr, prefix_len) <= addr <= broadcast_of(addr, prefix_len),
{
    let n = netmask(prefix_len);
    let h = hostmask(prefix_len);
    assert(addr & n <= addr && addr <= addr | h) by (bit_vector);
}

/// A network holds the addresses that share its prefix: those that agree
/// with its address in the bits of the mask.
pub proof fn lemma_covers_is_same_prefix(net: Cidr, ip: u32)
    requires
        net.wf(),
    ensures
        net.covers(ip) <==> ip & netmask(net.prefix_len) == net.addr & netmask(net.prefix_len),
{
    let addr = net.addr;
    let len = net.prefix_len as u32;
    let mask = netmask(net.prefix_len);
    let host = hostmask(net.prefix_len);
    let shift = (32 - len) as u32;
    assert(((addr & mask) <= ip && ip <= (addr | host)) <==> (ip & mask == addr & mask))
        by (bit_vector)
        requires
            len <= 32,
            shift + len == 32,
            mask == (if len == 0 {
                0u32
            } else {
                0xFFFF_FFFFu32 << shift
            }),
            host == (if len >= 32 {
                0u32
            } else {
                0xFFFF_FFFFu32 >> len
            }),
    ;
}

} // verus!
