use mc_scanner::blacklist::{
    choose_entry, classify_trimmed, load_blacklist, parse_blacklist_line, range_to_cidrs,
    Blacklist, BlacklistEntry, LineKind,
};
use mc_scanner::net::{cidr_from_parsed, parse_cidr, Cidr};
use mc_scanner::text::{
    format_ipv4, format_target, parse_ip_port, parse_ip_range, parse_ipv4, parse_ipv4_bytes,
    parse_octet, parse_port, split_fields,
};

fn ip(a: u8, b: u8, c: u8, d: u8) -> u32 {
    u32::from_be_bytes([a, b, c, d])
}

fn cidr(a: u8, b: u8, c: u8, d: u8, prefix_len: u8) -> Cidr {
    Cidr {
        addr: ip(a, b, c, d),
        prefix_len,
    }
}

fn covered(cidrs: &[Cidr], addr: u32) -> bool {
    cidrs.iter().any(|c| c.contains(addr))
}

#[test]
fn fields_are_cut_at_the_separator() {
    assert_eq!(
        split_fields(b"a.bc..d", b'.'),
        vec![b"a".to_vec(), b"bc".to_vec(), b"".to_vec(), b"d".to_vec()]
    );
    assert_eq!(split_fields(b"", b'.'), vec![Vec::<u8>::new()]);
    assert_eq!(split_fields(b"x-", b'-'), vec![b"x".to_vec(), b"".to_vec()]);
    assert_eq!(split_fields(b"abc", b'-'), vec![b"abc".to_vec()]);
}

#[test]
fn octets() {
    assert_eq!(parse_octet(b"0"), Some(0));
    assert_eq!(parse_octet(b"9"), Some(9));
    assert_eq!(parse_octet(b"255"), Some(255));
    assert_eq!(parse_octet(b"256"), None);
    assert_eq!(parse_octet(b"01"), None);
    assert_eq!(parse_octet(b"00"), None);
    assert_eq!(parse_octet(b""), None);
    assert_eq!(parse_octet(b"1234"), None);
    assert_eq!(parse_octet(b"1a"), None);
    assert_eq!(parse_octet(b"+1"), None);
}

#[test]
fn ports() {
    assert_eq!(parse_port(b"25565"), Some(25565));
    assert_eq!(parse_port(b"0"), Some(0));
    assert_eq!(parse_port(b"65535"), Some(65535));
    assert_eq!(parse_port(b"65536"), None);
    assert_eq!(parse_port(b"99999999999999999999"), None);
    assert_eq!(parse_port(b"+80"), Some(80));
    assert_eq!(parse_port(b"0080"), Some(80));
    assert_eq!(parse_port(b""), None);
    assert_eq!(parse_port(b"+"), None);
    assert_eq!(parse_port(b"-1"), None);
    assert_eq!(parse_port(b"80a"), None);
}

#[test]
fn dotted_addresses() {
    assert_eq!(parse_ipv4("0.0.0.0"), Some(0));
    assert_eq!(parse_ipv4("255.255.255.255"), Some(u32::MAX));
    assert_eq!(parse_ipv4("10.0.0.1"), Some(ip(10, 0, 0, 1)));
    assert_eq!(parse_ipv4("1.2.3.4"), Some(0x01020304));
    assert_eq!(parse_ipv4_bytes(b"192.168.1.77"), Some(ip(192, 168, 1, 77)));
    assert_eq!(parse_ipv4("1.2.3"), None);
    assert_eq!(parse_ipv4("1.2.3.4.5"), None);
    assert_eq!(parse_ipv4("1.2.3.256"), None);
    assert_eq!(parse_ipv4("1.2.3.04"), None);
    assert_eq!(parse_ipv4("1..3.4"), None);
    assert_eq!(parse_ipv4(""), None);
    assert_eq!(parse_ipv4(" 1.2.3.4"), None);
    assert_eq!(parse_ipv4("1.2.3.4/8"), None);
}

#[test]
fn dotted_addresses_with_odd_octets() {
    let cases = [
        ("1.2.3.4", Some(0x01020304u32)),
        ("01.2.3.4", None),
        ("1.2.3.4 ", None),
        ("300.1.1.1", None),
        ("7.7.7", None),
        ("0.0.0.0", Some(0)),
        ("9.9.9.09", None),
    ];
    for (text, expected) in cases {
        assert_eq!(parse_ipv4(text), expected, "{text}");
    }
}

#[test]
fn ranges_are_put_in_order() {
    assert_eq!(
        parse_ip_range("10.0.0.1-10.0.0.9"),
        Some((ip(10, 0, 0, 1), ip(10, 0, 0, 9)))
    );
    assert_eq!(
        parse_ip_range("10.0.0.9-10.0.0.1"),
        Some((ip(10, 0, 0, 1), ip(10, 0, 0, 9)))
    );
    assert_eq!(
        parse_ip_range("1.1.1.1-1.1.1.1"),
        Some((ip(1, 1, 1, 1), ip(1, 1, 1, 1)))
    );
    assert_eq!(parse_ip_range("10.0.0.1"), None);
    assert_eq!(parse_ip_range("10.0.0.1-10.0.0.2-10.0.0.3"), None);
    assert_eq!(parse_ip_range("10.0.0.1-x"), None);
    assert_eq!(parse_ip_range("-10.0.0.1"), None);
}

#[test]
fn stored_addresses() {
    assert_eq!(parse_ip_port("1.2.3.4:25566"), Some((0x01020304, 25566)));
    assert_eq!(parse_ip_port("1.2.3.4"), Some((0x01020304, 25565)));
    assert_eq!(parse_ip_port("1.2.3.4:"), Some((0x01020304, 25565)));
    assert_eq!(parse_ip_port("1.2.3.4:abc"), Some((0x01020304, 25565)));
    assert_eq!(parse_ip_port("1.2.3.4:70000"), Some((0x01020304, 25565)));
    assert_eq!(parse_ip_port("1.2.3.4:80:90"), Some((0x01020304, 80)));
    assert_eq!(parse_ip_port("host:80"), None);
    assert_eq!(parse_ip_port(""), None);
}

#[test]
fn addresses_are_written_in_dotted_notation() {
    assert_eq!(format_ipv4(0), "0.0.0.0");
    assert_eq!(format_ipv4(u32::MAX), "255.255.255.255");
    assert_eq!(format_ipv4(ip(127, 0, 0, 1)), "127.0.0.1");
    assert_eq!(format_ipv4(ip(10, 200, 30, 4)), "10.200.30.4");
    assert_eq!(format_target(ip(127, 0, 0, 1), 25565), "127.0.0.1:25565");
    assert_eq!(format_target(ip(1, 2, 3, 4), 0), "1.2.3.4:0");
    assert_eq!(format_target(ip(1, 2, 3, 4), 65535), "1.2.3.4:65535");
}

#[test]
fn written_targets_are_read_back() {
    for &(a, p) in &[(0u32, 0u16), (u32::MAX, 65535), (0x0a000001, 25565), (0xc0a80164, 1024)] {
        assert_eq!(parse_ip_port(&format_target(a, p)), Some((a, p)));
        assert_eq!(parse_ipv4(&format_ipv4(a)), Some(a));
    }
}

#[test]
fn networks() {
    assert_eq!(Cidr::new(ip(10, 0, 0, 0), 24), Some(cidr(10, 0, 0, 0, 24)));
    assert_eq!(Cidr::new(ip(10, 0, 0, 0), 33), None);
    let net = cidr(10, 0, 0, 77, 24);
    assert_eq!(net.bounds(), (ip(10, 0, 0, 0), ip(10, 0, 0, 255)));
    assert!(net.contains(ip(10, 0, 0, 0)));
    assert!(net.contains(ip(10, 0, 0, 1)));
    assert!(net.contains(ip(10, 0, 0, 255)));
    assert!(!net.contains(ip(10, 0, 1, 0)));
    assert!(!net.contains(ip(9, 255, 255, 255)));
    assert_eq!(net.hosts(), Some((ip(10, 0, 0, 1), ip(10, 0, 0, 254))));
    let all = cidr(1, 2, 3, 4, 0);
    assert_eq!(all.bounds(), (0, u32::MAX));
    assert!(all.contains(0));
    assert!(all.contains(u32::MAX));
    assert_eq!(all.hosts(), Some((1, u32::MAX - 1)));
    let one = cidr(1, 2, 3, 4, 32);
    assert_eq!(one.bounds(), (0x01020304, 0x01020304));
    assert!(one.contains(0x01020304));
    assert!(!one.contains(0x01020305));
    assert_eq!(one.hosts(), Some((0x01020304, 0x01020304)));
    let pair = cidr(10, 0, 0, 0, 31);
    assert_eq!(pair.hosts(), Some((ip(10, 0, 0, 0), ip(10, 0, 0, 1))));
    let four = cidr(10, 0, 0, 0, 30);
    assert_eq!(four.hosts(), Some((ip(10, 0, 0, 1), ip(10, 0, 0, 2))));
}

#[test]
fn networks_are_parsed() {
    assert_eq!(parse_cidr("10.0.0.0/24"), Some(cidr(10, 0, 0, 0, 24)));
    assert_eq!(parse_cidr("10.1.2.3/8"), Some(cidr(10, 1, 2, 3, 8)));
    assert_eq!(parse_cidr("0.0.0.0/0"), Some(cidr(0, 0, 0, 0, 0)));
    assert_eq!(parse_cidr("1.2.3.4/32"), Some(cidr(1, 2, 3, 4, 32)));
    assert_eq!(parse_cidr("1.2.3.4/33"), None);
    assert_eq!(parse_cidr("1.2.3.4"), None);
    assert_eq!(parse_cidr("1.2.3/8"), None);
    assert_eq!(parse_cidr("nonsense"), None);
    assert_eq!(cidr_from_parsed(Some((7, 8))), Some(Cidr { addr: 7, prefix_len: 8 }));
    assert_eq!(cidr_from_parsed(Some((7, 40))), None);
    assert_eq!(cidr_from_parsed(None), None);
}

#[test]
fn range_is_cut_by_the_formula() {
    assert_eq!(
        range_to_cidrs(0, 5),
        vec![
            Cidr { addr: 0, prefix_len: 31 },
            Cidr { addr: 2, prefix_len: 31 },
            Cidr { addr: 4, prefix_len: 31 }
        ]
    );
    assert_eq!(
        range_to_cidrs(ip(10, 0, 0, 0), ip(10, 0, 0, 255)),
        vec![cidr(10, 0, 0, 0, 24)]
    );
    assert_eq!(
        range_to_cidrs(ip(10, 0, 0, 1), ip(10, 0, 0, 6)),
        vec![
            cidr(10, 0, 0, 1, 32),
            cidr(10, 0, 0, 2, 32),
            cidr(10, 0, 0, 3, 32),
            cidr(10, 0, 0, 4, 32),
            cidr(10, 0, 0, 5, 32),
            cidr(10, 0, 0, 6, 32)
        ]
    );
    assert_eq!(
        range_to_cidrs(ip(10, 0, 0, 4), ip(10, 0, 0, 11)),
        vec![cidr(10, 0, 0, 4, 30), cidr(10, 0, 0, 8, 30)]
    );
    assert_eq!(
        range_to_cidrs(ip(10, 0, 0, 2), ip(10, 0, 0, 5)),
        vec![cidr(10, 0, 0, 2, 31), cidr(10, 0, 0, 4, 31)]
    );
    assert_eq!(range_to_cidrs(7, 7), vec![Cidr { addr: 7, prefix_len: 32 }]);
    assert_eq!(range_to_cidrs(8, 7), vec![]);
}

#[test]
fn range_at_the_ends_of_the_address_space() {
    assert_eq!(range_to_cidrs(0, u32::MAX), vec![Cidr { addr: 0, prefix_len: 0 }]);
    assert_eq!(
        range_to_cidrs(u32::MAX, u32::MAX),
        vec![Cidr { addr: u32::MAX, prefix_len: 32 }]
    );
    assert_eq!(
        range_to_cidrs(u32::MAX - 1, u32::MAX),
        vec![Cidr { addr: u32::MAX - 1, prefix_len: 31 }]
    );
    assert_eq!(range_to_cidrs(0, 0), vec![Cidr { addr: 0, prefix_len: 32 }]);
}

#[test]
fn range_is_covered_exactly() {
    let cases = [(3u32, 200u32), (0, 1000), (255, 256), (1000, 5000), (77, 78)];
    for &(lo, hi) in &cases {
        let cidrs = range_to_cidrs(lo, hi);
        let mut next = lo as u64;
        for c in &cidrs {
            let (first, last) = c.bounds();
            assert_eq!(first, c.addr);
            assert_eq!(first as u64, next);
            next = last as u64 + 1;
        }
        assert_eq!(next, hi as u64 + 1);
        for addr in lo.saturating_sub(3)..=hi + 3 {
            assert_eq!(covered(&cidrs, addr), lo <= addr && addr <= hi, "{lo}-{hi} {addr}");
        }
    }
}

#[test]
fn entries_are_chosen_in_order() {
    let net = cidr(10, 0, 0, 0, 8);
    assert_eq!(
        choose_entry(Some(1), Some(net), Some((2, 3))),
        LineKind::Entry(BlacklistEntry::Single(1))
    );
    assert_eq!(
        choose_entry(None, Some(net), Some((2, 3))),
        LineKind::Entry(BlacklistEntry::Cidr(net))
    );
    assert_eq!(
        choose_entry(None, None, Some((2, 3))),
        LineKind::Entry(BlacklistEntry::Range(2, 3))
    );
    assert_eq!(choose_entry(None, None, None), LineKind::Invalid);
}

#[test]
fn lines_are_classified() {
    assert_eq!(parse_blacklist_line(""), LineKind::Blank);
    assert_eq!(parse_blacklist_line("   \t"), LineKind::Blank);
    assert_eq!(parse_blacklist_line("# 10.0.0.1"), LineKind::Blank);
    assert_eq!(parse_blacklist_line("  # comment"), LineKind::Blank);
    assert_eq!(
        parse_blacklist_line(" 10.0.0.1 "),
        LineKind::Entry(BlacklistEntry::Single(ip(10, 0, 0, 1)))
    );
    assert_eq!(
        parse_blacklist_line("10.0.0.0/24\r"),
        LineKind::Entry(BlacklistEntry::Cidr(cidr(10, 0, 0, 0, 24)))
    );
    assert_eq!(
        parse_blacklist_line("10.0.0.9-10.0.0.1"),
        LineKind::Entry(BlacklistEntry::Range(ip(10, 0, 0, 1), ip(10, 0, 0, 9)))
    );
    assert_eq!(parse_blacklist_line("example.org"), LineKind::Invalid);
    assert_eq!(parse_blacklist_line("10.0.0.0/40"), LineKind::Invalid);
    assert_eq!(classify_trimmed(" 10.0.0.1"), LineKind::Invalid);
    assert_eq!(classify_trimmed("10.0.0.1"), LineKind::Entry(BlacklistEntry::Single(ip(10, 0, 0, 1))));
}

#[test]
fn blacklist_is_the_union_of_its_entries() {
    let mut bl = Blacklist::new();
    assert_eq!(bl.len(), 0);
    assert!(!bl.contains(ip(10, 0, 0, 1)));
    bl.add(BlacklistEntry::Single(ip(1, 1, 1, 1)));
    bl.add(BlacklistEntry::Cidr(cidr(10, 0, 0, 0, 24)));
    bl.add(BlacklistEntry::Range(ip(192, 168, 0, 5), ip(192, 168, 0, 9)));
    assert!(bl.contains(ip(1, 1, 1, 1)));
    assert!(!bl.contains(ip(1, 1, 1, 2)));
    assert!(!bl.contains(ip(1, 1, 1, 0)));
    assert!(bl.contains(ip(10, 0, 0, 1)));
    assert!(bl.contains(ip(10, 0, 0, 255)));
    assert!(!bl.contains(ip(10, 0, 1, 0)));
    for last in 0..=20u8 {
        assert_eq!(bl.contains(ip(192, 168, 0, last)), (5..=9).contains(&last));
    }
    assert_eq!(bl.len(), 2 + range_to_cidrs(ip(192, 168, 0, 5), ip(192, 168, 0, 9)).len());
}

#[test]
fn blacklist_is_loaded_from_lines() {
    let lines: Vec<String> = [
        "# private",
        "10.0.0.0/24",
        "",
        "not an entry",
        "  1.2.3.4",
        "5.5.5.9-5.5.5.1",
        "1.2.3.4/99",
    ]
    .iter()
    .map(|s| s.to_string())
    .collect();
    let (bl, ignored) = load_blacklist(&lines);
    assert_eq!(ignored, vec![3, 6]);
    assert!(bl.contains(ip(10, 0, 0, 1)));
    assert!(bl.contains(ip(1, 2, 3, 4)));
    assert!(bl.contains(ip(5, 5, 5, 1)));
    assert!(bl.contains(ip(5, 5, 5, 9)));
    assert!(!bl.contains(ip(5, 5, 5, 10)));
    assert!(!bl.contains(ip(5, 5, 5, 0)));
    assert!(!bl.contains(ip(10, 0, 1, 1)));
    let (empty, none) = load_blacklist(&Vec::new());
    assert_eq!(none, Vec::<usize>::new());
    assert!(!empty.contains(0));
}
