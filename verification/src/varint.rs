//! VarInt and VarLong: little-endian base-128 integers, seven payload bits per
//! byte, the high bit set on every byte but the last.

use vstd::prelude::*;
use crate::error::ErrorKind;

verus! {

pub const SEGMENT_BITS: u8 = 0x7F;

pub const CONTINUE_BIT: u8 = 0x80;

/// The seven payload bits of a byte.
pub open spec fn payload(b: u8) -> u64 {
    (b & 0x7F) as u64
}

/// Whether a byte announces that another one follows.
pub open spec fn continues(b: u8) -> bool {
    b & 0x80 != 0
}

/// The part of `bytes` from `start` on; empty when `start` lies past the end.
pub open spec fn tail_from(bytes: Seq<u8>, start: int) -> Seq<u8> {
    if 0 <= start <= bytes.len() {
        bytes.skip(start)
    } else {
        Seq::empty()
    }
}

/// The number of bytes a decoder consumes from the front of `bytes`: up to and
/// including the first byte without the continuation bit, or all of them.
pub open spec fn var_len(bytes: Seq<u8>) -> nat
    decreases bytes.len(),
{
    if bytes.len() == 0 {
        0
    } else if continues(bytes[0]) {
        1 + var_len(bytes.skip(1))
    } else {
        1
    }
}

/// The bits gathered from the front of `bytes`, the first group placed at bit
/// `position`. Bits shifted past bit 63 are lost.
pub open spec fn var_value(bytes: Seq<u8>, position: u64) -> u64
    decreases bytes.len(),
{
    if bytes.len() == 0 {
        0
    } else if continues(bytes[0]) {
        (payload(bytes[0]) << position) | var_value(bytes.skip(1), (position + 7) as u64)
    } else {
        payload(bytes[0]) << position
    }
}

/// Whether the groups at the front of `bytes` run on until the bit position
/// reaches `max_bits`: a continuing byte at `position` is one too many when
/// `position + 7 >= max_bits`.
pub open spec fn var_malformed(bytes: Seq<u8>, position: int, max_bits: int) -> bool
    decreases bytes.len(),
{
    bytes.len() > 0 && continues(bytes[0]) && (position + 7 >= max_bits || var_malformed(
        bytes.skip(1),
        position + 7,
        max_bits,
    ))
}

/// The 64-bit value at the front of `bytes`.
pub open spec fn decoded_long(bytes: Seq<u8>) -> i64 {
    var_value(bytes, 0) as i64
}

/// The 32-bit value at the front of `bytes`: the low half of the long.
pub open spec fn decoded_int(bytes: Seq<u8>) -> i32 {
    decoded_long(bytes) as i32
}

/// The encoding of an unsigned value, least significant group first.
pub open spec fn var_encoding(v: u64) -> Seq<u8>
    decreases v,
    via var_encoding_decreases
{
    if v <= 0x7F {
        seq![v as u8]
    } else {
        seq![((v as u8) & 0x7F) | 0x80] + var_encoding(v >> 7)
    }
}

#[via_fn]
proof fn var_encoding_decreases(v: u64) {
    assert(v > 0x7F ==> (v >> 7) < v) by (bit_vector);
}

/// The encoding of a VarInt: that of its 32-bit two's complement.
pub open spec fn var_int_encoding(v: i32) -> Seq<u8> {
    var_encoding(v as u32 as u64)
}

/// The encoding of a VarLong: that of its 64-bit two's complement.
pub open spec fn var_long_encoding(v: i64) -> Seq<u8> {
    var_encoding(v as u64)
}

/// Where decoding starts: at the caller's cursor, or at the front.
pub open spec fn start_of(offset: Option<&mut usize>) -> int {
    match offset {
        Some(o) => *o as int,
        None => 0,
    }
}

/// Decodes one variable-length integer of at most `max_bits` bits from
/// `var_int`, starting at the cursor, and moves the cursor past it.
///
/// A buffer that ends in the middle of the integer gives the bits that were
/// there. The cursor stays where it was when the integer is malformed.
pub fn read_var_int_generic(var_int: &[u8], offset: Option<&mut usize>, max_bits: u32) -> (r:
    Result<i64, ErrorKind>)
    requires
        max_bits <= 64,
    ensures
        r is Err <==> var_malformed(tail_from(var_int@, start_of(offset)), 0, max_bits as int),
        r is Err ==> r == Err::<i64, ErrorKind>(ErrorKind::MalformedVarInt),
        r is Ok ==> r->Ok_0 == decoded_long(tail_from(var_int@, start_of(offset))),
        match offset {
            Some(o) => *final(o) == if r is Ok {
                *o + var_len(tail_from(var_int@, *o as int))
            } else {
                *o as int
            },
            None => true,
        },
{
    let start: usize = match &offset {
        Some(o) => **o,
        None => 0,
    };
    let ghost tail = tail_from(var_int@, start as int);
    let mut value: u64 = 0;
    let mut position: u32 = 0;
    let mut current: usize = start;
    let mut done = false;
    proof {
        assert(start == start_of(offset));
        lemma_or_zero(0, var_value(tail, 0));
    }
    while !done && current < var_int.len()
        invariant
            max_bits <= 64,
            start == start_of(offset),
            position < 64,
            position == 0 || position < max_bits,
            tail == tail_from(var_int@, start as int),
            start <= current,
            current <= var_int.len() || current == start,
            done ==> !var_malformed(tail, 0, max_bits as int) && var_value(tail, 0) == value
                && start + var_len(tail) == current,
            !done ==> (var_malformed(tail, 0, max_bits as int) <==> var_malformed(
                tail_from(var_int@, current as int),
                position as int,
                max_bits as int,
            )),
            !done ==> var_value(tail, 0) == value | var_value(
                tail_from(var_int@, current as int),
                position as u64,
            ),
            !done ==> start + var_len(tail) == current + var_len(
                tail_from(var_int@, current as int),
            ),
        decreases (if done { 0int } else { 1int }) + var_int.len() - current,
    {
        let byte = var_int[current];
        let ghost rest = tail_from(var_int@, current as int);
        let ghost before = value;
        proof {
            assert(rest.len() > 0);
            assert(rest[0] == byte);
            assert(rest.skip(1) =~= tail_from(var_int@, current + 1));
        }
        current += 1;
        value |= ((byte & SEGMENT_BITS) as u64) << position;
        if byte & CONTINUE_BIT == 0 {
            proof {
                lemma_or_zero(before, payload(byte) << (position as u64));
                assert(payload(byte) << (position as u64) == ((byte & 0x7F) as u64) << position);
            }
            done = true;
        } else {
            proof {
                lemma_or_assoc(
                    before,
                    payload(byte) << (position as u64),
                    var_value(rest.skip(1), (position + 7) as u64),
                );
            }
            position += 7;
            if position >= max_bits {
                proof {
                    assert(continues(rest[0]));
                    assert(var_malformed(rest, position - 7, max_bits as int));
                }
                return Err(ErrorKind::MalformedVarInt);
            }
        }
    }
    proof {
        if !done {
            assert(tail_from(var_int@, current as int).len() == 0);
            lemma_or_zero(value, 0);
        }
    }
    match offset {
        Some(o) => {
            *o = current;
        },
        None => {},
    }
    Ok(#[verifier::truncate] (value as i64))
}

/// Decodes a VarLong at the cursor; see [`read_var_int_generic`].
pub fn read_var_int_long(var_int: &[u8], offset: Option<&mut usize>) -> (r: Result<i64, ErrorKind>)
    ensures
        r is Err <==> var_malformed(tail_from(var_int@, start_of(offset)), 0, 64),
        r is Err ==> r == Err::<i64, ErrorKind>(ErrorKind::MalformedVarInt),
        r is Ok ==> r->Ok_0 == decoded_long(tail_from(var_int@, start_of(offset))),
        match offset {
            Some(o) => *final(o) == if r is Ok {
                *o + var_len(tail_from(var_int@, *o as int))
            } else {
                *o as int
            },
            None => true,
        },
{
    read_var_int_generic(var_int, offset, 64)
}

/// Decodes a VarInt at the cursor; see [`read_var_int_generic`].
pub fn read_var_int(var_int: &[u8], offset: Option<&mut usize>) -> (r: Result<i32, ErrorKind>)
    ensures
        r is Err <==> var_malformed(tail_from(var_int@, start_of(offset)), 0, 32),
        r is Err ==> r == Err::<i32, ErrorKind>(ErrorKind::MalformedVarInt),
        r is Ok ==> r->Ok_0 == decoded_int(tail_from(var_int@, start_of(offset))),
        match offset {
            Some(o) => *final(o) == if r is Ok {
                *o + var_len(tail_from(var_int@, *o as int))
            } else {
                *o as int
            },
            None => true,
        },
{
    match read_var_int_generic(var_int, offset, 32) {
        Ok(v) => Ok(#[verifier::truncate] (v as i32)),
        Err(e) => Err(e),
    }
}

/// Appends the encoding of `value` to `result`.
pub fn write_var_int_generic(result: &mut Vec<u8>, value: u64)
    ensures
        final(result)@ == old(result)@ + var_encoding(value),
{
    let mut rest = value;
    loop
        invariant
            result@ + var_encoding(rest) =~= old(result)@ + var_encoding(value),
        decreases rest,
    {
        let ghost before = result@;
        if rest <= SEGMENT_BITS as u64 {
            result.push(rest as u8);
            proof {
                assert(var_encoding(rest) == seq![rest as u8]);
                assert(result@ =~= before + var_encoding(rest));
            }
            return ;
        }
        proof {
            assert(rest > 0x7F ==> (rest >> 7) < rest) by (bit_vector);
        }
        result.push((#[verifier::truncate] (rest as u8) & SEGMENT_BITS) | CONTINUE_BIT);
        proof {
            assert(result@ + var_encoding(rest >> 7) =~= before + var_encoding(rest));
        }
        rest >>= 7;
    }
}

/// Appends a VarLong.
pub fn write_var_long(result: &mut Vec<u8>, value: i64)
    ensures
        final(result)@ == old(result)@ + var_long_encoding(value),
{
    write_var_int_generic(result, #[verifier::truncate] (value as u64));
}

/// Appends a VarInt.
pub fn write_var_int(result: &mut Vec<u8>, value: &i32)
    ensures
        final(result)@ == old(result)@ + var_int_encoding(*value),
{
    write_var_int_generic(result, #[verifier::truncate] (*value as u32) as u64);
}

/// A byte continues exactly when it is 128 or more, and its payload is what
/// is left of it below 128.
pub proof fn lemma_group(b: u8)
    ensures
        continues(b) <==> b >= 128,
        payload(b) == b % 128,
{
    assert((b & 0x80 != 0 <==> b >= 128) && ((b & 0x7F) as u64) == b % 128) by (bit_vector);
}

/// The encoding is the number in base 128, its lowest digit first, with 128
/// added to every digit but the last.
pub proof fn lemma_var_encoding_base_128(v: u64)
    ensures
        v < 128 ==> var_encoding(v) == seq![v as u8],
        v >= 128 ==> var_encoding(v) == seq![(v % 128 + 128) as u8] + var_encoding(v / 128),
{
    assert(v > 0x7F ==> ((v as u8) & 0x7F) | 0x80 == (v % 128 + 128) as u8 && v >> 7 == v / 128)
        by (bit_vector);
}

/// The largest value whose encoding stays within `width` bits.
pub open spec fn width_limit(width: u64) -> u64 {
    if width == 32 {
        0xFFFF_FFFF
    } else {
        0xFFFF_FFFF_FFFF_FFFF
    }
}

proof fn lemma_decode_encoding(v: u64, rest: Seq<u8>, position: u64, width: u64)
    requires
        width == 32 || width == 64,
        position < width,
        v <= width_limit(width) >> position,
    ensures
        !var_malformed(var_encoding(v) + rest, position as int, width as int),
        var_value(var_encoding(v) + rest, position) == v << position,
        var_len(var_encoding(v) + rest) == var_encoding(v).len(),
    decreases v,
{
    let whole = var_encoding(v) + rest;
    let first = whole[0];
    let limit = width_limit(width);
    if v <= 0x7F {
        assert(first == v as u8);
        assert(v <= 0x7F ==> (v as u8) & 0x80 == 0 && (((v as u8) & 0x7F) as u64) == v)
            by (bit_vector);
    } else {
        let more = v >> 7;
        let next = (position + 7) as u64;
        assert(first == ((v as u8) & 0x7F) | 0x80);
        assert((((v as u8) & 0x7F) | 0x80) & 0x80 != 0 && (((((v as u8) & 0x7F) | 0x80) & 0x7F)
            as u64) == v & 0x7F) by (bit_vector);
        assert(whole.skip(1) =~= var_encoding(more) + rest);
        assert(position + 7 < width && more <= limit >> next && more < v && ((v & 0x7F)
            << position) | (more << next) == v << position) by (bit_vector)
            requires
                v > 0x7F,
                more == v >> 7,
                next == position + 7,
                position < width,
                v <= limit >> position,
                (width == 32 && limit == 0xFFFF_FFFF) || (width == 64 && limit
                    == 0xFFFF_FFFF_FFFF_FFFF),
        ;
        lemma_decode_encoding(more, rest, next, width);
    }
}

proof fn lemma_encoding_len(v: u64, groups: u64)
    requires
        1 <= groups <= 10,
        groups < 10 ==> v >> ((7 * groups) as u64) == 0,
    ensures
        1 <= var_encoding(v).len() <= groups,
    decreases v,
{
    if v > 0x7F {
        let shift = (7 * groups) as u64;
        let less = (7 * (groups - 1)) as u64;
        assert((v >> 7) < v && groups > 1 && (v >> 7) >> less == 0)
            by (bit_vector)
            requires
                v > 0x7F,
                groups < 10 ==> v >> shift == 0,
                1 <= groups <= 10,
                shift == 7 * groups,
                less + 7 == shift,
        ;
        lemma_encoding_len(v >> 7, (groups - 1) as u64);
    }
}

/// An encoding has at least one byte and at most ten; that of a value below
/// 2^32 has at most five.
pub proof fn lemma_var_encoding_len(v: u64)
    ensures
        1 <= var_encoding(v).len() <= 10,
        v <= 0xFFFF_FFFF ==> var_encoding(v).len() <= 5,
{
    lemma_encoding_len(v, 10);
    if v <= 0xFFFF_FFFF {
        assert(v <= 0xFFFF_FFFF ==> v >> 35 == 0) by (bit_vector);
        lemma_encoding_len(v, 5);
    }
}

/// Round trip of a VarInt: a decoder that meets the encoding of `v`, whatever
/// follows it, accepts it, consumes exactly the encoding and returns `v`.
pub proof fn lemma_var_int_round_trip(v: i32, rest: Seq<u8>)
    ensures
        !var_malformed(var_int_encoding(v) + rest, 0, 32),
        decoded_int(var_int_encoding(v) + rest) == v,
        var_len(var_int_encoding(v) + rest) == var_int_encoding(v).len(),
        1 <= var_int_encoding(v).len() <= 5,
{
    let u = v as u32 as u64;
    assert(u <= 0xFFFF_FFFFu64 >> 0 && u << 0 == u && u <= 0xFFFF_FFFF && u as i64 as i32 == v)
        by (bit_vector)
        requires
            u == v as u32 as u64,
    ;
    lemma_decode_encoding(u, rest, 0, 32);
    lemma_var_encoding_len(u);
}

/// Round trip of a VarLong: a decoder that meets the encoding of `v`, whatever
/// follows it, accepts it, consumes exactly the encoding and returns `v`.
pub proof fn lemma_var_long_round_trip(v: i64, rest: Seq<u8>)
    ensures
        !var_malformed(var_long_encoding(v) + rest, 0, 64),
        decoded_long(var_long_encoding(v) + rest) == v,
        var_len(var_long_encoding(v) + rest) == var_long_encoding(v).len(),
        1 <= var_long_encoding(v).len() <= 10,
{
    let u = v as u64;
    assert(u <= 0xFFFF_FFFF_FFFF_FFFFu64 >> 0 && u << 0 == u && u as i64 == v) by (bit_vector)
        requires
            u == v as u64,
    ;
    lemma_decode_encoding(u, rest, 0, 64);
    lemma_var_encoding_len(u);
}

/// What a [`VarIntReader`] says after one more byte.
pub enum VarIntStep {
    /// The integer goes on: feed the next byte to this reader.
    NeedMore(VarIntReader),
    /// The integer is complete.
    Done(i32),
    /// Five bytes have gone by and the integer still goes on.
    Malformed,
}

/// Decodes a VarInt that arrives one byte at a time, as from a socket.
pub struct VarIntReader {
    value: u64,
    position: u32,
    seen: Ghost<Seq<u8>>,
}

impl View for VarIntReader {
    type V = Seq<u8>;

    /// The bytes fed so far.
    closed spec fn view(&self) -> Seq<u8> {
        self.seen@
    }
}

impl VarIntReader {
    /// Every byte so far announced another, fewer than five have gone by, and
    /// the bits gathered are those of the bytes.
    pub closed spec fn wf(&self) -> bool {
        &&& self.seen@.len() < 5
        &&& self.position == 7 * self.seen@.len()
        &&& forall|i: int| 0 <= i < self.seen@.len() ==> continues(#[trigger] self.seen@[i])
        &&& self.value == var_value(self.seen@, 0)
    }

    /// A reader that has seen nothing.
    pub fn new() -> (r: VarIntReader)
        ensures
            r.wf(),
            r@ == Seq::<u8>::empty(),
    {
        VarIntReader { value: 0, position: 0, seen: Ghost(Seq::empty()) }
    }

    /// Takes the next byte from the stream.
    pub fn feed(self, byte: u8) -> (r: VarIntStep)
        requires
            self.wf(),
        ensures
            match r {
                VarIntStep::NeedMore(next) => next.wf() && next@ == self@.push(byte) && continues(
                    byte,
                ),
                VarIntStep::Done(v) => !continues(byte) && v == decoded_int(self@.push(byte))
                    && !var_malformed(self@.push(byte), 0, 32),
                VarIntStep::Malformed => continues(byte) && var_malformed(self@.push(byte), 0, 32),
            },
            r is Malformed <==> continues(byte) && self@.len() == 4,
            r is Done <==> !continues(byte),
    {
        let ghost seen = self.seen@.push(byte);
        proof {
            lemma_value_push(self.seen@, byte, 0);
            lemma_malformed_push(self.seen@, byte, 0);
        }
        let value = self.value | (((byte & SEGMENT_BITS) as u64) << self.position);
        if byte & CONTINUE_BIT == 0 {
            VarIntStep::Done(#[verifier::truncate] (#[verifier::truncate] (value as i64) as i32))
        } else if self.position + 7 >= 32 {
            VarIntStep::Malformed
        } else {
            VarIntStep::NeedMore(
                VarIntReader { value, position: self.position + 7, seen: Ghost(seen) },
            )
        }
    }
}

/// The value of a run of continuing bytes with one more byte behind it.
proof fn lemma_value_push(run: Seq<u8>, byte: u8, position: u64)
    requires
        forall|i: int| 0 <= i < run.len() ==> continues(#[trigger] run[i]),
        position + 7 * run.len() < 64,
    ensures
        var_value(run.push(byte), position) == var_value(run, position) | (payload(byte) << ((
            position + 7 * run.len()) as u64)),
    decreases run.len(),
{
    let whole = run.push(byte);
    let place = (position + 7 * run.len()) as u64;
    if run.len() == 0 {
        assert(whole.skip(1) =~= Seq::<u8>::empty());
        assert(var_value(whole.skip(1), (position + 7) as u64) == 0);
        assert(var_value(run, position) == 0);
        lemma_or_zero(payload(byte) << place, payload(byte) << place);
    } else {
        let next = (position + 7) as u64;
        assert(whole.skip(1) =~= run.skip(1).push(byte));
        assert(whole[0] == run[0]);
        assert forall|i: int| 0 <= i < run.skip(1).len() implies continues(
            #[trigger] run.skip(1)[i],
        ) by {
            assert(run.skip(1)[i] == run[i + 1]);
        }
        lemma_value_push(run.skip(1), byte, next);
        lemma_or_assoc(
            payload(run[0]) << position,
            var_value(run.skip(1), next),
            payload(byte) << place,
        );
    }
}

/// A run of continuing bytes with one more behind it is malformed exactly
/// when that byte continues too and reaches the limit.
proof fn lemma_malformed_push(run: Seq<u8>, byte: u8, position: int)
    requires
        forall|i: int| 0 <= i < run.len() ==> continues(#[trigger] run[i]),
        position + 7 * run.len() < 32,
    ensures
        var_malformed(run.push(byte), position, 32) <==> continues(byte) && position + 7
            * run.len() + 7 >= 32,
    decreases run.len(),
{
    let whole = run.push(byte);
    if run.len() == 0 {
        assert(whole.skip(1) =~= Seq::<u8>::empty());
        assert(!var_malformed(whole.skip(1), position + 7, 32));
    } else {
        assert(whole.skip(1) =~= run.skip(1).push(byte));
        assert(whole[0] == run[0]);
        assert forall|i: int| 0 <= i < run.skip(1).len() implies continues(
            #[trigger] run.skip(1)[i],
        ) by {
            assert(run.skip(1)[i] == run[i + 1]);
        }
        lemma_malformed_push(run.skip(1), byte, position + 7);
    }
}

proof fn lemma_or_assoc(a: u64, b: u64, c: u64)
    ensures
        a | (b | c) == (a | b) | c,
{
    assert(a | (b | c) == (a | b) | c) by (bit_vector);
}

proof fn lemma_or_zero(a: u64, b: u64)
    ensures
        a | 0 == a,
        0 | b == b,
{
    assert(a | 0 == a) by (bit_vector);
    assert(0 | b == b) by (bit_vector);
}

} // verus!
