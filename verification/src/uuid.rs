//! The UUID that an offline-mode server gives a player: version 3, derived
//! from the MD5 digest of `OfflinePlayer:` followed by the name.

use vstd::prelude::*;
use vstd::string::*;

verus! {

/// The MD5 digest of `data`, as the `md5` crate computes it.
pub uninterp spec fn md5_digest(data: Seq<u8>) -> Seq<u8>;

/// `md5::compute`: the 16 bytes of the MD5 digest of `data`.
#[verifier::external_body]
fn md5_compute(data: &[u8]) -> (r: [u8; 16])
    ensures
        r@ == md5_digest(data@),
{
    md5::compute(data).0
}

/// The bytes of `OfflinePlayer:`.
pub open spec fn offline_prefix() -> Seq<u8> {
    seq![0x4Fu8, 0x66, 0x66, 0x6C, 0x69, 0x6E, 0x65, 0x50, 0x6C, 0x61, 0x79, 0x65, 0x72, 0x3A]
}

/// What is hashed for a player: the prefix, then the bytes of the name.
pub open spec fn offline_key(name: Seq<u8>) -> Seq<u8> {
    offline_prefix() + name
}

/// The digest marked as a version 3 UUID of the RFC 4122 variant: the high
/// half of byte 6 becomes 3, the two high bits of byte 8 become `10`.
pub open spec fn uuid_bytes(digest: Seq<u8>) -> Seq<u8> {
    digest.update(6, (digest[6] & 0x0f) | 0x30).update(8, (digest[8] & 0x3f) | 0x80)
}

/// The lower-case hexadecimal digit of a number below 16.
pub open spec fn hex_char(n: u8) -> char {
    match n {
        0 => '0',
        1 => '1',
        2 => '2',
        3 => '3',
        4 => '4',
        5 => '5',
        6 => '6',
        7 => '7',
        8 => '8',
        9 => '9',
        10 => 'a',
        11 => 'b',
        12 => 'c',
        13 => 'd',
        14 => 'e',
        _ => 'f',
    }
}

/// The bytes in hexadecimal, two digits each.
pub open spec fn hex_run(bytes: Seq<u8>) -> Seq<char>
    decreases bytes.len(),
{
    if bytes.len() == 0 {
        Seq::empty()
    } else {
        hex_run(bytes.drop_last()) + seq![hex_char(bytes.last() / 16), hex_char(bytes.last() % 16)]
    }
}

/// The canonical text of the 16 bytes: groups of 8, 4, 4, 4 and 12 digits
/// with hyphens between them.
pub open spec fn uuid_text(b: Seq<u8>) -> Seq<char> {
    hex_run(b.subrange(0, 4)) + seq!['-'] + hex_run(b.subrange(4, 6)) + seq!['-'] + hex_run(
        b.subrange(6, 8),
    ) + seq!['-'] + hex_run(b.subrange(8, 10)) + seq!['-'] + hex_run(b.subrange(10, 16))
}

/// The offline UUID of a player, given the bytes of the name.
pub open spec fn offline_uuid(name: Seq<u8>) -> Seq<char> {
    uuid_text(uuid_bytes(md5_digest(offline_key(name))))
}

fn hex_digit(n: u8) -> (r: &'static str)
    requires
        n < 16,
    ensures
        r@ == seq![hex_char(n)],
{
    proof {
        reveal_strlit("0");
        reveal_strlit("1");
        reveal_strlit("2");
        reveal_strlit("3");
        reveal_strlit("4");
        reveal_strlit("5");
        reveal_strlit("6");
        reveal_strlit("7");
        reveal_strlit("8");
        reveal_strlit("9");
        reveal_strlit("a");
        reveal_strlit("b");
        reveal_strlit("c");
        reveal_strlit("d");
        reveal_strlit("e");
        reveal_strlit("f");
    }
    let r = match n {
        0 => "0",
        1 => "1",
        2 => "2",
        3 => "3",
        4 => "4",
        5 => "5",
        6 => "6",
        7 => "7",
        8 => "8",
        9 => "9",
        10 => "a",
        11 => "b",
        12 => "c",
        13 => "d",
        14 => "e",
        _ => "f",
    };
    assert(r@ =~= seq![hex_char(n)]);
    r
}

/// Appends the bytes from `from` up to `to` in hexadecimal.
fn push_hex(out: &mut String, bytes: &[u8; 16], from: usize, to: usize)
    requires
        from <= to <= 16,
    ensures
        final(out)@ == old(out)@ + hex_run(bytes@.subrange(from as int, to as int)),
{
    let mut i: usize = from;
    assert(bytes@.subrange(from as int, from as int) =~= Seq::<u8>::empty());
    assert(out@ + Seq::<char>::empty() =~= out@);
    while i < to
        invariant
            from <= i <= to <= 16,
            out@ == old(out)@ + hex_run(bytes@.subrange(from as int, i as int)),
        decreases to - i,
    {
        let b = bytes[i];
        let ghost before = out@;
        out.append(hex_digit(b / 16));
        out.append(hex_digit(b % 16));
        proof {
            let upto = bytes@.subrange(from as int, i + 1);
            assert(upto.drop_last() =~= bytes@.subrange(from as int, i as int));
            assert(upto.last() == b);
            assert(out@ =~= before + seq![hex_char(b / 16), hex_char(b % 16)]);
            assert(out@ =~= old(out)@ + hex_run(upto));
        }
        i += 1;
    }
}

/// Writes 16 bytes as the canonical text of a UUID.
fn format_hyphenated(bytes: &[u8; 16]) -> (r: String)
    ensures
        r@ == uuid_text(bytes@),
{
    proof {
        reveal_strlit("-");
    }
    let mut out = String::new();
    push_hex(&mut out, bytes, 0, 4);
    out.append("-");
    push_hex(&mut out, bytes, 4, 6);
    out.append("-");
    push_hex(&mut out, bytes, 6, 8);
    out.append("-");
    push_hex(&mut out, bytes, 8, 10);
    out.append("-");
    push_hex(&mut out, bytes, 10, 16);
    assert(out@ =~= uuid_text(bytes@));
    out
}

/// Turns an MD5 digest into the text of the version 3 UUID that it gives.
pub fn uuid_from_digest(digest: [u8; 16]) -> (r: String)
    ensures
        r@ == uuid_text(uuid_bytes(digest@)),
{
    let mut hash = digest;
    hash[6] = hash[6] & 0x0f | 0x30;
    hash[8] = hash[8] & 0x3f | 0x80;
    assert(hash@ =~= uuid_bytes(digest@));
    format_hyphenated(&hash)
}

/// The offline UUID of the player `username`.
pub fn name_to_uuid(username: &str) -> (r: String)
    ensures
        r@ == offline_uuid(username.spec_bytes()),
{
    let mut key: Vec<u8> = Vec::new();
    key.push(0x4F);
    key.push(0x66);
    key.push(0x66);
    key.push(0x6C);
    key.push(0x69);
    key.push(0x6E);
    key.push(0x65);
    key.push(0x50);
    key.push(0x6C);
    key.push(0x61);
    key.push(0x79);
    key.push(0x65);
    key.push(0x72);
    key.push(0x3A);
    assert(key@ =~= offline_prefix());
    key.extend_from_slice(username.as_bytes());
    assert(key@ =~= offline_key(username.spec_bytes()));
    uuid_from_digest(md5_compute(key.as_slice()))
}

/// Whether a reported UUID is the one that offline mode derives from the
/// name: the mark of a server that lets unauthenticated players in.
pub fn is_cracked(name: &str, uuid: &str) -> (r: bool)
    ensures
        r == (offline_uuid(name.spec_bytes()) == uuid@),
{
    let derived = name_to_uuid(name);
    let reported = uuid.to_owned();
    derived == reported
}

/// Hexadecimal text has two digits for each byte, the high half first.
proof fn lemma_hex_run(bytes: Seq<u8>)
    ensures
        hex_run(bytes).len() == 2 * bytes.len(),
        forall|i: int|
            0 <= i < bytes.len() ==> hex_run(bytes)[2 * i] == hex_char(#[trigger] bytes[i] / 16)
                && hex_run(bytes)[2 * i + 1] == hex_char(bytes[i] % 16),
    decreases bytes.len(),
{
    if bytes.len() > 0 {
        let front = bytes.drop_last();
        lemma_hex_run(front);
        assert forall|i: int| 0 <= i < bytes.len() implies hex_run(bytes)[2 * i] == hex_char(
            #[trigger] bytes[i] / 16,
        ) && hex_run(bytes)[2 * i + 1] == hex_char(bytes[i] % 16) by {
            if i < front.len() {
                assert(front[i] == bytes[i]);
            }
        }
    }
}

/// The text of an offline UUID has 36 characters with hyphens at 8, 13, 18
/// and 23; its version digit is 3, and its variant digit is 8, 9, a or b:
/// the two high bits of that digit are `10`.
pub proof fn lemma_uuid_shape(digest: Seq<u8>)
    requires
        digest.len() == 16,
    ensures
        uuid_text(uuid_bytes(digest)).len() == 36,
        uuid_text(uuid_bytes(digest))[8] == '-',
        uuid_text(uuid_bytes(digest))[13] == '-',
        uuid_text(uuid_bytes(digest))[18] == '-',
        uuid_text(uuid_bytes(digest))[23] == '-',
        uuid_text(uuid_bytes(digest))[14] == '3',
        uuid_text(uuid_bytes(digest))[19] == '8' || uuid_text(uuid_bytes(digest))[19] == '9'
            || uuid_text(uuid_bytes(digest))[19] == 'a' || uuid_text(uuid_bytes(digest))[19]
            == 'b',
{
    let b = uuid_bytes(digest);
    lemma_hex_run(b.subrange(0, 4));
    lemma_hex_run(b.subrange(4, 6));
    lemma_hex_run(b.subrange(6, 8));
    lemma_hex_run(b.subrange(8, 10));
    lemma_hex_run(b.subrange(10, 16));
    let version = b[6];
    let variant = b[8];
    let d6 = digest[6];
    let d8 = digest[8];
    assert(version / 16 == 3 && 8 <= variant / 16 <= 11) by (bit_vector)
        requires
            version == (d6 & 0x0f) | 0x30,
            variant == (d8 & 0x3f) | 0x80,
    ;
    assert(b.subrange(6, 8)[0] == version);
    assert(b.subrange(8, 10)[0] == variant);
    let t = uuid_text(b);
    assert(t[14] == hex_run(b.subrange(6, 8))[0]);
    assert(t[19] == hex_run(b.subrange(8, 10))[0]);
}

} // verus!
