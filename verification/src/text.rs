//! Small parsers for the texts that the scanner reads: dotted IPv4 addresses,
//! ports, and fields cut at a separator. They work on the UTF-8 bytes.

use vstd::prelude::*;
use vstd::string::*;

verus! {

/// A text as `str::trim` leaves it: without the whitespace at its ends.
pub uninterp spec fn trimmed_text(text: Seq<char>) -> Seq<char>;

/// `str::trim`: the text without its leading and trailing whitespace.
#[verifier::external_body]
pub(crate) fn trim_text<'a>(text: &'a str) -> (r: &'a str)
    ensures
        r@ == trimmed_text(text@),
{
    text.trim()
}

/// Whether a byte is an ASCII digit.
pub open spec fn is_digit(b: u8) -> bool {
    0x30 <= b <= 0x39
}

/// Whether every byte is an ASCII digit.
pub open spec fn all_digits(s: Seq<u8>) -> bool {
    forall|i: int| 0 <= i < s.len() ==> is_digit(#[trigger] s[i])
}

/// The number that a run of digits denotes in base ten.
pub open spec fn decimal_value(s: Seq<u8>) -> nat
    decreases s.len(),
{
    if s.len() == 0 {
        0
    } else {
        decimal_value(s.drop_last()) * 10 + (s.last() - 0x30) as nat
    }
}

/// The length of the first field of `s`: the bytes before the first `sep`.
pub open spec fn field_len(s: Seq<u8>, sep: u8) -> nat
    decreases s.len(),
{
    if s.len() == 0 || s[0] == sep {
        0
    } else {
        1 + field_len(s.skip(1), sep)
    }
}

/// The fields that `sep` cuts `s` into. There is always at least one; two
/// separators side by side have an empty field between them.
pub open spec fn fields(s: Seq<u8>, sep: u8) -> Seq<Seq<u8>>
    decreases s.len(),
    via fields_decreases
{
    let n = field_len(s, sep) as int;
    if n >= s.len() {
        seq![s]
    } else {
        seq![s.take(n)] + fields(s.skip(n + 1), sep)
    }
}

#[via_fn]
proof fn fields_decreases(s: Seq<u8>, sep: u8) {
}

/// A field that holds no separator, followed by anything, is the first field
/// up to its end.
proof fn lemma_field_len_prefix(head: Seq<u8>, rest: Seq<u8>, sep: u8)
    requires
        forall|i: int| 0 <= i < head.len() ==> #[trigger] head[i] != sep,
    ensures
        field_len(head + rest, sep) == head.len() + field_len(rest, sep),
    decreases head.len(),
{
    let whole = head + rest;
    if head.len() == 0 {
        assert(whole =~= rest);
    } else {
        assert(whole[0] == head[0]);
        assert(whole.skip(1) =~= head.skip(1) + rest);
        assert forall|i: int| 0 <= i < head.skip(1).len() implies #[trigger] head.skip(1)[i]
            != sep by {
            assert(head.skip(1)[i] == head[i + 1]);
        }
        lemma_field_len_prefix(head.skip(1), rest, sep);
    }
}

/// Cuts `data` at every `sep`.
pub fn split_fields(data: &[u8], sep: u8) -> (r: Vec<Vec<u8>>)
    ensures
        r@.len() == fields(data@, sep).len(),
        forall|i: int| 0 <= i < r@.len() ==> (#[trigger] r@[i])@ == fields(data@, sep)[i],
{
    let mut out: Vec<Vec<u8>> = Vec::new();
    let mut cur: Vec<u8> = Vec::new();
    let ghost mut done: Seq<Seq<u8>> = Seq::empty();
    let mut i: usize = 0;
    assert(cur@ + data@.skip(0) =~= data@);
    while i < data.len()
        invariant
            i <= data.len(),
            out@.len() == done.len(),
            forall|j: int| 0 <= j < out@.len() ==> (#[trigger] out@[j])@ == done[j],
            forall|j: int| 0 <= j < cur@.len() ==> #[trigger] cur@[j] != sep,
            fields(data@, sep) == done + fields(cur@ + data@.skip(i as int), sep),
        decreases data.len() - i,
    {
        let b = data[i];
        let ghost rest = data@.skip(i as int);
        let ghost next = data@.skip(i + 1);
        if b == sep {
            proof {
                let whole = cur@ + rest;
                lemma_field_len_prefix(cur@, rest, sep);
                assert(rest[0] == sep);
                assert(field_len(rest, sep) == 0);
                assert(whole.take(cur@.len() as int) =~= cur@);
                assert(whole.skip(cur@.len() as int + 1) =~= next);
                assert(Seq::<u8>::empty() + next =~= next);
                assert(fields(whole, sep) == seq![cur@] + fields(next, sep));
                assert(done + (seq![cur@] + fields(next, sep)) =~= done.push(cur@) + fields(
                    next,
                    sep,
                ));
                done = done.push(cur@);
            }
            out.push(cur);
            cur = Vec::new();
        } else {
            let ghost before = cur@;
            cur.push(b);
            proof {
                assert(cur@ + next =~= before + rest);
            }
        }
        i += 1;
    }
    proof {
        let whole = cur@ + data@.skip(i as int);
        assert(whole =~= cur@);
        lemma_field_len_prefix(cur@, Seq::empty(), sep);
        assert(cur@ + Seq::<u8>::empty() =~= cur@);
        assert(field_len(Seq::<u8>::empty(), sep) == 0);
        assert(fields(cur@, sep) =~= seq![cur@]);
        assert(done + seq![cur@] =~= done.push(cur@));
    }
    out.push(cur);
    out
}

/// The octet that a field of a dotted address denotes: one to three digits,
/// no leading zero before another digit, at most 255.
pub open spec fn octet_value(s: Seq<u8>) -> Option<u8> {
    if 1 <= s.len() <= 3 && all_digits(s) && (s.len() == 1 || s[0] != 0x30) && decimal_value(s)
        <= 255 {
        Some(decimal_value(s) as u8)
    } else {
        None
    }
}

/// Parses one octet of a dotted address.
pub fn parse_octet(field: &[u8]) -> (r: Option<u8>)
    ensures
        r == octet_value(field@),
{
    let n = field.len();
    if n == 0 || n > 3 {
        return None;
    }
    if n > 1 && field[0] == 0x30 {
        return None;
    }
    let mut value: u32 = 0;
    let mut i: usize = 0;
    while i < n
        invariant
            n == field.len(),
            i <= n <= 3,
            all_digits(field@.take(i as int)),
            value == decimal_value(field@.take(i as int)),
            i == 0 ==> value == 0,
            i == 1 ==> value <= 9,
            i == 2 ==> value <= 99,
            i == 3 ==> value <= 999,
        decreases n - i,
    {
        let b = field[i];
        if b < 0x30 || b > 0x39 {
            return None;
        }
        proof {
            let upto = field@.take(i + 1);
            assert(upto.drop_last() =~= field@.take(i as int));
            assert(upto.last() == b);
        }
        value = value * 10 + (b - 0x30) as u32;
        i += 1;
    }
    assert(field@.take(n as int) =~= field@);
    if value > 255 {
        None
    } else {
        Some(value as u8)
    }
}

/// The digits of a port: the text without a leading plus sign.
pub open spec fn port_digits(s: Seq<u8>) -> Seq<u8> {
    if s.len() > 0 && s[0] == 0x2B {
        s.skip(1)
    } else {
        s
    }
}

/// The port that a text denotes: an optional plus sign, then digits that make
/// a number of at most 65535.
pub open spec fn port_value(s: Seq<u8>) -> Option<u16> {
    let d = port_digits(s);
    if d.len() >= 1 && all_digits(d) && decimal_value(d) <= 65535 {
        Some(decimal_value(d) as u16)
    } else {
        None
    }
}

/// The first digits of a number denote no more than all of them.
proof fn lemma_decimal_monotone(s: Seq<u8>, j: int)
    requires
        all_digits(s),
        0 <= j <= s.len(),
    ensures
        decimal_value(s.take(j)) <= decimal_value(s),
    decreases s.len(),
{
    if j == s.len() {
        assert(s.take(j) =~= s);
    } else {
        let front = s.drop_last();
        assert(front.take(j) =~= s.take(j));
        assert(is_digit(s.last()));
        assert forall|i: int| 0 <= i < front.len() implies is_digit(#[trigger] front[i]) by {
            assert(front[i] == s[i]);
        }
        lemma_decimal_monotone(front, j);
    }
}

/// Parses a port number.
pub fn parse_port(field: &[u8]) -> (r: Option<u16>)
    ensures
        r == port_value(field@),
{
    let n = field.len();
    let start: usize = if n > 0 && field[0] == 0x2B {
        1
    } else {
        0
    };
    let ghost d = port_digits(field@);
    assert(d =~= field@.skip(start as int));
    if start == n {
        return None;
    }
    let mut value: u32 = 0;
    let mut i: usize = start;
    while i < n
        invariant
            n == field.len(),
            start <= i <= n,
            d == field@.skip(start as int),
            d == port_digits(field@),
            all_digits(d.take(i - start)),
            value == decimal_value(d.take(i - start)),
            value <= 65535,
        decreases n - i,
    {
        let b = field[i];
        if b < 0x30 || b > 0x39 {
            assert(d[i - start] == b);
            return None;
        }
        proof {
            let upto = d.take(i - start + 1);
            assert(upto.drop_last() =~= d.take(i - start));
            assert(upto.last() == b);
        }
        value = value * 10 + (b - 0x30) as u32;
        if value > 65535 {
            proof {
                if all_digits(d) {
                    lemma_decimal_monotone(d, i - start + 1);
                }
            }
            return None;
        }
        i += 1;
    }
    assert(d.take(n - start) =~= d);
    Some(value as u16)
}

/// The address that a dotted text denotes: four octets, the first in the most
/// significant byte.
pub open spec fn ipv4_value(s: Seq<u8>) -> Option<u32> {
    let f = fields(s, 0x2E);
    if f.len() == 4 && octet_value(f[0]) is Some && octet_value(f[1]) is Some && octet_value(
        f[2],
    ) is Some && octet_value(f[3]) is Some {
        Some(
            (octet_value(f[0])->Some_0 * 0x100_0000 + octet_value(f[1])->Some_0 * 0x1_0000
                + octet_value(f[2])->Some_0 * 0x100 + octet_value(f[3])->Some_0) as u32,
        )
    } else {
        None
    }
}

/// Parses a dotted IPv4 address from its bytes.
pub fn parse_ipv4_bytes(data: &[u8]) -> (r: Option<u32>)
    ensures
        r == ipv4_value(data@),
{
    let parts = split_fields(data, 0x2E);
    if parts.len() != 4 {
        return None;
    }
    let a = match parse_octet(parts[0].as_slice()) {
        Some(v) => v,
        None => {
            return None;
        },
    };
    let b = match parse_octet(parts[1].as_slice()) {
        Some(v) => v,
        None => {
            return None;
        },
    };
    let c = match parse_octet(parts[2].as_slice()) {
        Some(v) => v,
        None => {
            return None;
        },
    };
    let d = match parse_octet(parts[3].as_slice()) {
        Some(v) => v,
        None => {
            return None;
        },
    };
    Some((a as u32) * 0x100_0000 + (b as u32) * 0x1_0000 + (c as u32) * 0x100 + (d as u32))
}

/// Parses a dotted IPv4 address.
pub fn parse_ipv4(text: &str) -> (r: Option<u32>)
    ensures
        r == ipv4_value(text.spec_bytes()),
{
    parse_ipv4_bytes(text.as_bytes())
}

/// The range that a text in the form `a.b.c.d-e.f.g.h` denotes, its smaller
/// end first.
pub open spec fn ip_range_value(s: Seq<u8>) -> Option<(u32, u32)> {
    let f = fields(s, 0x2D);
    if f.len() == 2 && ipv4_value(f[0]) is Some && ipv4_value(f[1]) is Some {
        let a = ipv4_value(f[0])->Some_0;
        let b = ipv4_value(f[1])->Some_0;
        if a <= b {
            Some((a, b))
        } else {
            Some((b, a))
        }
    } else {
        None
    }
}

/// Parses an inclusive range of addresses; the ends may come in either order.
pub fn parse_ip_range(range_str: &str) -> (r: Option<(u32, u32)>)
    ensures
        r == ip_range_value(range_str.spec_bytes()),
        r is Some ==> r->Some_0.0 <= r->Some_0.1,
{
    let parts = split_fields(range_str.as_bytes(), 0x2D);
    if parts.len() != 2 {
        return None;
    }
    let start = match parse_ipv4_bytes(parts[0].as_slice()) {
        Some(v) => v,
        None => {
            return None;
        },
    };
    let end = match parse_ipv4_bytes(parts[1].as_slice()) {
        Some(v) => v,
        None => {
            return None;
        },
    };
    if start <= end {
        Some((start, end))
    } else {
        Some((end, start))
    }
}

/// The port that is probed where none is named.
pub const DEFAULT_PORT: u16 = 25565;

/// The target that a text in the form `ip` or `ip:port` denotes. A port
/// that is missing or cannot be read is the default port; what follows a
/// second colon is not looked at.
pub open spec fn ip_port_value(s: Seq<u8>) -> Option<(u32, u16)> {
    let f = fields(s, 0x3A);
    match ipv4_value(f[0]) {
        None => None,
        Some(ip) => Some(
            (
                ip,
                if f.len() >= 2 && port_value(f[1]) is Some {
                    port_value(f[1])->Some_0
                } else {
                    25565u16
                },
            ),
        ),
    }
}

/// Parses a stored server address, `ip` or `ip:port`.
pub fn parse_ip_port(s: &str) -> (r: Option<(u32, u16)>)
    ensures
        r == ip_port_value(s.spec_bytes()),
{
    let parts = split_fields(s.as_bytes(), 0x3A);
    let ip = match parse_ipv4_bytes(parts[0].as_slice()) {
        Some(v) => v,
        None => {
            return None;
        },
    };
    let port = if parts.len() >= 2 {
        match parse_port(parts[1].as_slice()) {
            Some(p) => p,
            None => DEFAULT_PORT,
        }
    } else {
        DEFAULT_PORT
    };
    Some((ip, port))
}

/// The character of a digit.
pub open spec fn digit_char(d: u8) -> char {
    match d {
        0 => '0',
        1 => '1',
        2 => '2',
        3 => '3',
        4 => '4',
        5 => '5',
        6 => '6',
        7 => '7',
        8 => '8',
        _ => '9',
    }
}

/// A number in base ten, without leading zeros.
pub open spec fn decimal_text(n: nat) -> Seq<char>
    decreases n,
{
    if n < 10 {
        seq![digit_char(n as u8)]
    } else {
        decimal_text(n / 10).push(digit_char((n % 10) as u8))
    }
}

/// An address in dotted notation, its most significant octet first.
pub open spec fn dotted_text(ip: u32) -> Seq<char> {
    decimal_text((ip / 0x100_0000) as nat) + seq!['.'] + decimal_text(
        ((ip / 0x1_0000) % 0x100) as nat,
    ) + seq!['.'] + decimal_text(((ip / 0x100) % 0x100) as nat) + seq!['.'] + decimal_text(
        (ip % 0x100) as nat,
    )
}

/// A target in the form `ip:port`.
pub open spec fn target_text(ip: u32, port: u16) -> Seq<char> {
    dotted_text(ip) + seq![':'] + decimal_text(port as nat)
}

fn digit_str(d: u32) -> (r: &'static str)
    requires
        d < 10,
    ensures
        r@ == seq![digit_char(d as u8)],
{
    proof {
        reveal_strlit("0");
        reveal_strlit("1");
        reveal_strlit("2");
        reveal_strlit("3");
        reveal_strlit("4");
        reveal_strlit("5");
        reveal_strlit("6");
        reveal_strlit("7");
        reveal_strlit("8");
        reveal_strlit("9");
    }
    let r = match d {
        0 => "0",
        1 => "1",
        2 => "2",
        3 => "3",
        4 => "4",
        5 => "5",
        6 => "6",
        7 => "7",
        8 => "8",
        _ => "9",
    };
    assert(r@ =~= seq![digit_char(d as u8)]);
    r
}

/// Appends a number in base ten.
pub fn push_decimal(out: &mut String, n: u32)
    ensures
        final(out)@ == old(out)@ + decimal_text(n as nat),
    decreases n,
{
    if n >= 10 {
        push_decimal(out, n / 10);
    }
    let ghost before = out@;
    out.append(digit_str(n % 10));
    proof {
        if n >= 10 {
            assert(out@ =~= old(out)@ + decimal_text((n / 10) as nat).push(
                digit_char((n % 10) as u8),
            ));
        } else {
            assert(out@ =~= old(out)@ + seq![digit_char(n as u8)]);
        }
    }
}

/// Writes an address in dotted notation.
pub fn format_ipv4(ip: u32) -> (r: String)
    ensures
        r@ == dotted_text(ip),
{
    proof {
        reveal_strlit(".");
    }
    let mut out = String::new();
    push_decimal(&mut out, ip / 0x100_0000);
    out.append(".");
    push_decimal(&mut out, (ip / 0x1_0000) % 0x100);
    out.append(".");
    push_decimal(&mut out, (ip / 0x100) % 0x100);
    out.append(".");
    push_decimal(&mut out, ip % 0x100);
    assert(out@ =~= dotted_text(ip));
    out
}

/// Writes a target in the form `ip:port`, as the server store keeps it.
pub fn format_target(ip: u32, port: u16) -> (r: String)
    ensures
        r@ == target_text(ip, port),
{
    proof {
        reveal_strlit(":");
    }
    let mut out = format_ipv4(ip);
    out.append(":");
    push_decimal(&mut out, port as u32);
    assert(out@ =~= target_text(ip, port));
    out
}

/// A field without a separator, the separator and what follows are cut into
/// the field and the fields of what follows.
proof fn lemma_fields_head(head: Seq<u8>, sep: u8, rest: Seq<u8>)
    requires
        forall|i: int| 0 <= i < head.len() ==> #[trigger] head[i] != sep,
    ensures
        fields(head + seq![sep] + rest, sep) == seq![head] + fields(rest, sep),
{
    let whole = head + seq![sep] + rest;
    assert(whole =~= head + (seq![sep] + rest));
    lemma_field_len_prefix(head, seq![sep] + rest, sep);
    assert((seq![sep] + rest)[0] == sep);
    assert(whole.take(head.len() as int) =~= head);
    assert(whole.skip(head.len() as int + 1) =~= rest);
}

/// A text without a separator is one field.
proof fn lemma_fields_last(text: Seq<u8>, sep: u8)
    requires
        forall|i: int| 0 <= i < text.len() ==> #[trigger] text[i] != sep,
    ensures
        fields(text, sep) == seq![text],
{
    lemma_field_len_prefix(text, Seq::empty(), sep);
    assert(text + Seq::<u8>::empty() =~= text);
}

/// The bytes of a number in base ten.
pub open spec fn decimal_bytes(n: nat) -> Seq<u8>
    decreases n,
{
    if n < 10 {
        seq![(0x30 + n) as u8]
    } else {
        decimal_bytes(n / 10).push((0x30 + n % 10) as u8)
    }
}

/// What is written for a number is read back as the number: its digits are
/// digits, the first of several is no zero, and they denote the number.
proof fn lemma_decimal_bytes(n: nat)
    ensures
        decimal_bytes(n).len() >= 1,
        all_digits(decimal_bytes(n)),
        decimal_value(decimal_bytes(n)) == n,
        n >= 10 ==> decimal_bytes(n)[0] != 0x30 && decimal_bytes(n).len() >= 2,
        n < 10 ==> decimal_bytes(n).len() == 1,
        n < 100 ==> decimal_bytes(n).len() <= 2,
        n < 1000 ==> decimal_bytes(n).len() <= 3,
    decreases n,
{
    let d = decimal_bytes(n);
    if n < 10 {
        assert(d.drop_last() =~= Seq::<u8>::empty());
        assert(decimal_value(d.drop_last()) == 0);
    } else {
        lemma_decimal_bytes(n / 10);
        let front = decimal_bytes(n / 10);
        assert(d.drop_last() =~= front);
        assert(d[0] == front[0]);
        if n / 10 < 10 {
            assert(front[0] == (0x30 + n / 10) as u8);
        }
    }
}

/// The text of a number has one digit character for each digit byte.
proof fn lemma_decimal_digits(n: nat)
    ensures
        decimal_text(n).len() == decimal_bytes(n).len(),
        forall|i: int|
            0 <= i < decimal_text(n).len() ==> '0' <= #[trigger] decimal_text(n)[i] <= '9'
                && decimal_text(n)[i] as u8 == decimal_bytes(n)[i],
    decreases n,
{
    if n >= 10 {
        lemma_decimal_digits(n / 10);
    }
}

/// The bytes of an address in dotted notation.
pub open spec fn dotted_bytes(ip: u32) -> Seq<u8> {
    decimal_bytes((ip / 0x100_0000) as nat) + seq![0x2Eu8] + decimal_bytes(
        ((ip / 0x1_0000) % 0x100) as nat,
    ) + seq![0x2Eu8] + decimal_bytes(((ip / 0x100) % 0x100) as nat) + seq![0x2Eu8]
        + decimal_bytes((ip % 0x100) as nat)
}

/// The bytes of a target in the form `ip:port`.
pub open spec fn target_bytes(ip: u32, port: u16) -> Seq<u8> {
    dotted_bytes(ip) + seq![0x3Au8] + decimal_bytes(port as nat)
}

/// What is written for an octet is read back as the octet.
proof fn lemma_octet_round_trip(o: nat)
    requires
        o <= 255,
    ensures
        octet_value(decimal_bytes(o)) == Some(o as u8),
        forall|i: int| 0 <= i < decimal_bytes(o).len() ==> #[trigger] decimal_bytes(o)[i] != 0x2E,
        forall|i: int| 0 <= i < decimal_bytes(o).len() ==> #[trigger] decimal_bytes(o)[i] != 0x3A,
{
    lemma_decimal_bytes(o);
    let d = decimal_bytes(o);
    assert forall|i: int| 0 <= i < d.len() implies #[trigger] d[i] != 0x2E && d[i] != 0x3A by {
        assert(is_digit(d[i]));
    }
}

/// The octets of an address make up the address.
proof fn lemma_octets(ip: u32)
    ensures
        (ip / 0x100_0000) * 0x100_0000 + ((ip / 0x1_0000) % 0x100) * 0x1_0000 + ((ip / 0x100)
            % 0x100) * 0x100 + ip % 0x100 == ip,
        ip / 0x100_0000 <= 255,
{
    assert((ip / 0x100_0000) * 0x100_0000 + ((ip / 0x1_0000) % 0x100) * 0x1_0000 + ((ip / 0x100)
        % 0x100) * 0x100 + ip % 0x100 == ip && ip / 0x100_0000 <= 255) by (bit_vector);
}

/// The dots cut an address in dotted notation into its four octets.
proof fn lemma_dotted_fields(ip: u32)
    ensures
        fields(dotted_bytes(ip), 0x2E) == seq![
            decimal_bytes((ip / 0x100_0000) as nat),
            decimal_bytes(((ip / 0x1_0000) % 0x100) as nat),
            decimal_bytes(((ip / 0x100) % 0x100) as nat),
            decimal_bytes((ip % 0x100) as nat),
        ],
{
    let ta = decimal_bytes((ip / 0x100_0000) as nat);
    let tb = decimal_bytes(((ip / 0x1_0000) % 0x100) as nat);
    let tc = decimal_bytes(((ip / 0x100) % 0x100) as nat);
    let td = decimal_bytes((ip % 0x100) as nat);
    lemma_octets(ip);
    lemma_octet_round_trip((ip / 0x100_0000) as nat);
    lemma_octet_round_trip(((ip / 0x1_0000) % 0x100) as nat);
    lemma_octet_round_trip(((ip / 0x100) % 0x100) as nat);
    lemma_octet_round_trip((ip % 0x100) as nat);
    let dot = 0x2Eu8;
    let tail2 = tc + seq![dot] + td;
    let tail1 = tb + seq![dot] + tail2;
    assert(dotted_bytes(ip) =~= ta + seq![dot] + tail1);
    lemma_fields_head(ta, dot, tail1);
    lemma_fields_head(tb, dot, tail2);
    lemma_fields_head(tc, dot, td);
    lemma_fields_last(td, dot);
    assert(seq![ta] + (seq![tb] + (seq![tc] + seq![td])) =~= seq![ta, tb, tc, td]);
}

/// No colon stands in an address in dotted notation.
proof fn lemma_dotted_no_colon(ip: u32)
    ensures
        forall|i: int| 0 <= i < dotted_bytes(ip).len() ==> #[trigger] dotted_bytes(ip)[i] != 0x3A,
{
    let ta = decimal_bytes((ip / 0x100_0000) as nat);
    let tb = decimal_bytes(((ip / 0x1_0000) % 0x100) as nat);
    let tc = decimal_bytes(((ip / 0x100) % 0x100) as nat);
    let td = decimal_bytes((ip % 0x100) as nat);
    lemma_decimal_bytes((ip / 0x100_0000) as nat);
    lemma_decimal_bytes(((ip / 0x1_0000) % 0x100) as nat);
    lemma_decimal_bytes(((ip / 0x100) % 0x100) as nat);
    lemma_decimal_bytes((ip % 0x100) as nat);
    let whole = dotted_bytes(ip);
    let x = ta.len() as int;
    let y = x + 1 + tb.len();
    let z = y + 1 + tc.len();
    assert forall|i: int| 0 <= i < whole.len() implies #[trigger] whole[i] != 0x3A by {
        if i < x {
            assert(is_digit(ta[i]));
        } else if i == x {
        } else if i < y {
            assert(is_digit(tb[i - x - 1]));
        } else if i == y {
        } else if i < z {
            assert(is_digit(tc[i - y - 1]));
        } else if i == z {
        } else {
            assert(is_digit(td[i - z - 1]));
        }
    }
}

/// The bytes of an address in dotted notation are read back as the address.
proof fn lemma_dotted_round_trip(ip: u32)
    ensures
        ipv4_value(dotted_bytes(ip)) == Some(ip),
{
    lemma_octets(ip);
    lemma_dotted_fields(ip);
    lemma_octet_round_trip((ip / 0x100_0000) as nat);
    lemma_octet_round_trip(((ip / 0x1_0000) % 0x100) as nat);
    lemma_octet_round_trip(((ip / 0x100) % 0x100) as nat);
    lemma_octet_round_trip((ip % 0x100) as nat);
}

/// The bytes of a target in the form `ip:port` are read back as the target.
proof fn lemma_target_round_trip(ip: u32, port: u16)
    ensures
        ip_port_value(target_bytes(ip, port)) == Some((ip, port)),
{
    let head = dotted_bytes(ip);
    let tail = decimal_bytes(port as nat);
    lemma_dotted_round_trip(ip);
    lemma_dotted_no_colon(ip);
    lemma_decimal_bytes(port as nat);
    assert forall|i: int| 0 <= i < tail.len() implies #[trigger] tail[i] != 0x3A by {
        assert(is_digit(tail[i]));
    }
    lemma_fields_head(head, 0x3A, tail);
    lemma_fields_last(tail, 0x3A);
    let f = fields(target_bytes(ip, port), 0x3A);
    assert(f =~= seq![head, tail]);
    assert(is_digit(tail[0]));
    assert(port_digits(tail) == tail);
}

/// The text of an address has the bytes of the address, and the text of a
/// target the bytes of the target.
proof fn lemma_target_text_bytes(ip: u32, port: u16)
    ensures
        vstd::utf8::encode_utf8(dotted_text(ip)) == dotted_bytes(ip),
        vstd::utf8::encode_utf8(target_text(ip, port)) == target_bytes(ip, port),
{
    let a = (ip / 0x100_0000) as nat;
    let b = ((ip / 0x1_0000) % 0x100) as nat;
    let c = ((ip / 0x100) % 0x100) as nat;
    let d = (ip % 0x100) as nat;
    lemma_decimal_digits(a);
    lemma_decimal_digits(b);
    lemma_decimal_digits(c);
    lemma_decimal_digits(d);
    lemma_decimal_digits(port as nat);
    let dt = dotted_text(ip);
    let tt = target_text(ip, port);
    assert(vstd::utf8::is_ascii_chars(dt));
    assert(vstd::utf8::is_ascii_chars(tt));
    vstd::utf8::is_ascii_chars_encode_utf8(dt);
    vstd::utf8::is_ascii_chars_encode_utf8(tt);
    assert(vstd::utf8::encode_utf8(dt) =~= dotted_bytes(ip));
    assert(vstd::utf8::encode_utf8(tt) =~= target_bytes(ip, port));
}

/// An address in dotted notation is ASCII text of at most 15 characters.
pub proof fn lemma_dotted_text_short(ip: u32)
    ensures
        vstd::utf8::is_ascii_chars(dotted_text(ip)),
        dotted_text(ip).len() <= 15,
{
    let a = (ip / 0x100_0000) as nat;
    let b = ((ip / 0x1_0000) % 0x100) as nat;
    let c = ((ip / 0x100) % 0x100) as nat;
    let d = (ip % 0x100) as nat;
    lemma_octets(ip);
    lemma_decimal_digits(a);
    lemma_decimal_digits(b);
    lemma_decimal_digits(c);
    lemma_decimal_digits(d);
    lemma_decimal_bytes(a);
    lemma_decimal_bytes(b);
    lemma_decimal_bytes(c);
    lemma_decimal_bytes(d);
}

/// Round trip of an address: what [`format_ipv4`] writes, [`parse_ipv4`]
/// reads back as the same address.
pub proof fn lemma_ipv4_round_trip(ip: u32)
    ensures
        ipv4_value(vstd::utf8::encode_utf8(dotted_text(ip))) == Some(ip),
{
    lemma_target_text_bytes(ip, 0);
    lemma_dotted_round_trip(ip);
}

/// Round trip of a target: what [`format_target`] writes, [`parse_ip_port`]
/// reads back as the same address and port.
pub proof fn lemma_ip_port_round_trip(ip: u32, port: u16)
    ensures
        ip_port_value(vstd::utf8::encode_utf8(target_text(ip, port))) == Some((ip, port)),
{
    lemma_target_text_bytes(ip, port);
    lemma_target_round_trip(ip, port);
}

} // verus!
