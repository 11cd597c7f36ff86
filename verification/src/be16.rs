//! Unsigned 16-bit integers on the wire: two bytes, most significant first.

use vstd::prelude::*;
use crate::error::ErrorKind;
use crate::varint::start_of;

verus! {

/// The two bytes of `n`, most significant first.
pub open spec fn be16_bytes(n: u16) -> Seq<u8> {
    seq![(n / 256) as u8, (n % 256) as u8]
}

/// The number that the bytes `high` and `low` stand for.
pub open spec fn be16_value(high: u8, low: u8) -> int {
    high * 256 + low
}

/// Reads a big-endian `u16` at the cursor and moves the cursor past it.
///
/// With fewer than two bytes left the cursor stays where it was.
pub fn read_u16(data: &[u8], index: Option<&mut usize>) -> (r: Result<u16, ErrorKind>)
    ensures
        r is Err <==> start_of(index) + 2 > data@.len(),
        r is Err ==> r == Err::<u16, ErrorKind>(ErrorKind::UnexpectedEof),
        r is Ok ==> r->Ok_0 == be16_value(data@[start_of(index)], data@[start_of(index) + 1]),
        match index {
            Some(i) => *final(i) == if r is Ok {
                *i + 2
            } else {
                *i as int
            },
            None => true,
        },
{
    let current: usize = match &index {
        Some(i) => **i,
        None => 0,
    };
    if current > data.len() || data.len() - current < 2 {
        return Err(ErrorKind::UnexpectedEof);
    }
    let value: u16 = (data[current] as u16) * 256 + (data[current + 1] as u16);
    match index {
        Some(i) => {
            *i = current + 2;
        },
        None => {},
    }
    Ok(value)
}

/// Appends the two bytes of `number`, most significant first.
pub fn write_u16(buffer: &mut Vec<u8>, number: u16)
    ensures
        final(buffer)@ == old(buffer)@ + be16_bytes(number),
{
    buffer.push((number / 256) as u8);
    buffer.push((number % 256) as u8);
    assert(buffer@ =~= old(buffer)@ + be16_bytes(number));
}

/// Round trip: the bytes of `n` stand for `n`.
pub proof fn lemma_be16_round_trip(n: u16)
    ensures
        be16_bytes(n).len() == 2,
        be16_value(be16_bytes(n)[0], be16_bytes(n)[1]) == n,
{
}

} // verus!
