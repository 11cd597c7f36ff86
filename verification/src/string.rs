//! Strings on the wire: a VarInt length, then the UTF-8 bytes.
//!
//! A writer announces the number of UTF-16 code units; a reader takes the
//! announced number as a count of bytes. The two agree on ASCII text.

use vstd::prelude::*;
use vstd::string::*;
use vstd::utf8::*;
use vstd::slice::slice_subrange;
use crate::error::ErrorKind;
use crate::varint::{
    decoded_int, lemma_var_int_round_trip, read_var_int, tail_from, var_int_encoding, var_len,
    var_malformed, write_var_int,
};

verus! {

/// The longest string a writer accepts, in UTF-16 code units.
pub const MAX_STRING_UNITS: usize = 32767;

/// The number of UTF-16 code units of one character.
pub open spec fn utf16_units(c: char) -> nat {
    if c as u32 >= 0x10000 {
        2
    } else {
        1
    }
}

/// The number of UTF-16 code units of a text.
pub open spec fn utf16_len(chars: Seq<char>) -> nat
    decreases chars.len(),
{
    if chars.len() == 0 {
        0
    } else {
        utf16_len(chars.drop_last()) + utf16_units(chars.last())
    }
}

/// What a writer emits for a text of at most 32767 code units.
pub open spec fn string_encoding(chars: Seq<char>) -> Seq<u8> {
    var_int_encoding(utf16_len(chars) as i32) + encode_utf8(chars)
}

/// Where the bytes of the string at `start` begin: behind the length prefix.
pub open spec fn string_body_start(data: Seq<u8>, start: int) -> int {
    start + var_len(tail_from(data, start))
}

/// What a reader makes of the string at `start`.
pub open spec fn string_at(data: Seq<u8>, start: int) -> Result<Seq<char>, ErrorKind> {
    let tail = tail_from(data, start);
    let from = string_body_start(data, start);
    let len = decoded_int(tail);
    if var_malformed(tail, 0, 32) {
        Err(ErrorKind::MalformedVarInt)
    } else if len < 0 || from + len > data.len() {
        Err(ErrorKind::UnexpectedEof)
    } else if !valid_utf8(data.subrange(from, from + len)) {
        Err(ErrorKind::InvalidData)
    } else {
        Ok(decode_utf8(data.subrange(from, from + len)))
    }
}

/// Where a reader's cursor stands afterwards: unmoved after a malformed
/// prefix, behind the prefix when the announced bytes are not there, else
/// behind the announced bytes.
pub open spec fn string_end(data: Seq<u8>, start: int) -> int {
    let tail = tail_from(data, start);
    let from = string_body_start(data, start);
    let len = decoded_int(tail);
    if var_malformed(tail, 0, 32) {
        start
    } else if len < 0 || from + len > data.len() {
        from
    } else {
        from + len
    }
}

/// `std::str::from_utf8`: the bytes are accepted exactly when they are valid
/// UTF-8, and the text returned is the one that these bytes encode.
#[verifier::external_body]
fn str_from_utf8(bytes: &[u8]) -> (r: Option<&str>)
    ensures
        r is Some <==> valid_utf8(bytes@),
        r is Some ==> r->Some_0.spec_bytes() == bytes@,
{
    std::str::from_utf8(bytes).ok()
}

/// Reads a length-prefixed string at the cursor.
pub fn read_string(data: &[u8], index: &mut usize) -> (r: Result<String, ErrorKind>)
    ensures
        match r {
            Ok(s) => string_at(data@, *old(index) as int) == Ok::<Seq<char>, ErrorKind>(s@),
            Err(e) => string_at(data@, *old(index) as int) == Err::<Seq<char>, ErrorKind>(e),
        },
        *final(index) == string_end(data@, *old(index) as int),
{
    let length = match read_var_int(data, Some(&mut *index)) {
        Ok(v) => v,
        Err(e) => {
            return Err(e);
        },
    };
    let from = *index;
    if length < 0 || from > data.len() || data.len() - from < length as usize {
        return Err(ErrorKind::UnexpectedEof);
    }
    let end_pos = from + length as usize;
    let str_bytes = slice_subrange(data, from, end_pos);
    *index = end_pos;
    match str_from_utf8(str_bytes) {
        Some(s) => {
            proof {
                encode_utf8_decode_utf8(s@);
            }
            Ok(s.to_owned())
        },
        None => Err(ErrorKind::InvalidData),
    }
}

/// Appends a length-prefixed string; refuses one of more than 32767 UTF-16
/// code units and then leaves the buffer as it was.
pub fn write_string(buffer: &mut Vec<u8>, string: &str) -> (r: Result<(), ErrorKind>)
    ensures
        utf16_len(string@) <= 32767 ==> r is Ok && final(buffer)@ == old(buffer)@
            + string_encoding(string@),
        utf16_len(string@) > 32767 ==> r == Err::<(), ErrorKind>(ErrorKind::StringTooLong)
            && final(buffer)@ == old(buffer)@,
{
    let mut units: usize = 0;
    for c in it: string.chars()
        invariant
            it.seq() == string@,
            units <= MAX_STRING_UNITS + 2,
            utf16_len(string@.take(it.index() as int)) <= MAX_STRING_UNITS ==> units == utf16_len(
                string@.take(it.index() as int),
            ),
            utf16_len(string@.take(it.index() as int)) > MAX_STRING_UNITS ==> units
                > MAX_STRING_UNITS,
    {
        proof {
            let upto = string@.take(it.index() + 1);
            assert(upto.drop_last() =~= string@.take(it.index() as int));
            assert(upto.last() == c);
        }
        if units <= MAX_STRING_UNITS {
            units += if c as u32 >= 0x10000 {
                2
            } else {
                1
            };
        }
    }
    proof {
        assert(string@.take(string@.len() as int) =~= string@);
    }
    if units > MAX_STRING_UNITS {
        return Err(ErrorKind::StringTooLong);
    }
    write_var_int(buffer, &(units as i32));
    let ghost prefixed = buffer@;
    buffer.extend_from_slice(string.as_bytes());
    proof {
        assert(buffer@ =~= prefixed + encode_utf8(string@));
        assert(buffer@ =~= old(buffer)@ + string_encoding(string@));
    }
    Ok(())
}

/// The code units of a text are those of its first character and those of
/// the rest.
proof fn lemma_utf16_len_first(chars: Seq<char>)
    requires
        chars.len() > 0,
    ensures
        utf16_len(chars) == utf16_units(chars[0]) + utf16_len(chars.drop_first()),
    decreases chars.len(),
{
    let front = chars.drop_last();
    let back = chars.drop_first();
    if chars.len() == 1 {
        assert(utf16_len(front) == 0);
        assert(utf16_len(back) == 0);
    } else {
        lemma_utf16_len_first(front);
        assert(back.drop_last() =~= front.drop_first());
        assert(back.last() == chars.last());
        assert(front[0] == chars[0]);
    }
}

/// UTF-8 takes at most three bytes for each UTF-16 code unit.
pub proof fn lemma_utf8_len_bound(chars: Seq<char>)
    ensures
        encode_utf8(chars).len() <= 3 * utf16_len(chars),
    decreases chars.len(),
{
    if chars.len() > 0 {
        lemma_utf16_len_first(chars);
        lemma_utf8_len_bound(chars.drop_first());
        char_is_scalar(chars[0]);
    }
}

/// ASCII text has as many UTF-16 code units as characters.
pub proof fn lemma_ascii_utf16_len(chars: Seq<char>)
    requires
        is_ascii_chars(chars),
    ensures
        utf16_len(chars) == chars.len(),
    decreases chars.len(),
{
    if chars.len() > 0 {
        assert(is_ascii_chars(chars.drop_last()));
        lemma_ascii_utf16_len(chars.drop_last());
        assert('\0' <= chars.last() <= '\u{7f}');
    }
}

/// Round trip of a string: a reader that meets what a writer emitted for an
/// ASCII text of at most 32767 characters, whatever stands before and after
/// it, returns the text and stops right behind it.
pub proof fn lemma_string_round_trip(before: Seq<u8>, chars: Seq<char>, after: Seq<u8>)
    requires
        is_ascii_chars(chars),
        utf16_len(chars) <= 32767,
    ensures
        string_at(before + string_encoding(chars) + after, before.len() as int) == Ok::<
            Seq<char>,
            ErrorKind,
        >(chars),
        string_end(before + string_encoding(chars) + after, before.len() as int) == before.len()
            + string_encoding(chars).len(),
{
    let units = utf16_len(chars) as i32;
    let prefix = var_int_encoding(units);
    let body = encode_utf8(chars);
    let whole = before + string_encoding(chars) + after;
    let start = before.len() as int;
    let tail = tail_from(whole, start);
    lemma_ascii_utf16_len(chars);
    is_ascii_chars_encode_utf8(chars);
    assert(tail =~= prefix + (body + after));
    lemma_var_int_round_trip(units, body + after);
    let from = string_body_start(whole, start);
    assert(from == start + prefix.len());
    assert(whole.subrange(from, from + units) =~= body);
    encode_utf8_valid_utf8(chars);
    encode_utf8_decode_utf8(chars);
}

} // verus!
