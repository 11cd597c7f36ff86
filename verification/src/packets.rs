//! The packets of the status exchange: the handshake and the status request
//! that a client sends, and the status response that it gets back.

use vstd::prelude::*;
use vstd::utf8::*;
use crate::be16::{be16_bytes, be16_value, read_u16, write_u16};
use crate::error::ErrorKind;
use crate::string::{
    lemma_string_round_trip, lemma_utf8_len_bound, read_string, string_at, string_encoding,
    string_end, utf16_len, write_string,
};
use crate::varint::{
    decoded_int, lemma_var_encoding_len, lemma_var_int_round_trip, read_var_int, tail_from,
    var_int_encoding, var_len, var_malformed, write_var_int,
};

verus! {

/// The protocol version that the scanner announces.
pub const PROTOCOL_VERSION: i32 = 757;

/// The state a client asks for to get the status.
pub const NEXT_STATE_STATUS: i32 = 1;

/// The largest frame a reader accepts: 2 MiB.
pub const MAX_PACKET_SIZE: i32 = 2097152;

/// A frame: the length of `inner` as a VarInt, then `inner`.
pub open spec fn framed(inner: Seq<u8>) -> Seq<u8> {
    var_int_encoding(inner.len() as i32) + inner
}

/// The payload of a handshake: packet id 0, the protocol version, the server
/// address, the port and the next state.
pub open spec fn handshake_payload(
    protocol_version: i32,
    server_address: Seq<char>,
    server_port: u16,
    next_state: i32,
) -> Seq<u8> {
    var_int_encoding(0) + handshake_fields(
        protocol_version,
        server_address,
        server_port,
        next_state,
    )
}

/// The fields of a handshake behind its packet id.
pub open spec fn handshake_fields(
    protocol_version: i32,
    server_address: Seq<char>,
    server_port: u16,
    next_state: i32,
) -> Seq<u8> {
    var_int_encoding(protocol_version) + string_encoding(server_address) + be16_bytes(
        server_port,
    ) + var_int_encoding(next_state)
}

/// The payload of a status request: packet id 0.
pub open spec fn status_request_payload() -> Seq<u8> {
    var_int_encoding(0)
}

/// Builds the framed handshake packet; refuses an address of more than 32767
/// UTF-16 code units.
pub fn create_handshake_packet(
    protocol_version: i32,
    server_address: &str,
    server_port: u16,
    next_state: i32,
) -> (r: Result<Vec<u8>, ErrorKind>)
    ensures
        utf16_len(server_address@) <= 32767 ==> r is Ok && r->Ok_0@ == framed(
            handshake_payload(protocol_version, server_address@, server_port, next_state),
        ),
        utf16_len(server_address@) > 32767 ==> r == Err::<Vec<u8>, ErrorKind>(
            ErrorKind::StringTooLong,
        ),
{
    let mut outer: Vec<u8> = Vec::new();
    let mut inner: Vec<u8> = Vec::new();
    write_var_int(&mut inner, &0x0);
    write_var_int(&mut inner, &protocol_version);
    match write_string(&mut inner, server_address) {
        Ok(()) => {},
        Err(e) => {
            return Err(e);
        },
    }
    write_u16(&mut inner, server_port);
    write_var_int(&mut inner, &next_state);
    proof {
        let payload = handshake_payload(
            protocol_version,
            server_address@,
            server_port,
            next_state,
        );
        assert(inner@ =~= payload);
        lemma_var_encoding_len(0i32 as u32 as u64);
        lemma_var_encoding_len(protocol_version as u32 as u64);
        lemma_var_encoding_len(next_state as u32 as u64);
        lemma_var_encoding_len(utf16_len(server_address@) as i32 as u32 as u64);
        lemma_utf8_len_bound(server_address@);
        assert(inner@.len() <= 10 + 10 + 10 + 3 * 32767 + 2 + 10);
    }
    write_var_int(&mut outer, &(inner.len() as i32));
    let ghost head = outer@;
    outer.extend_from_slice(inner.as_slice());
    assert(outer@ =~= head + inner@);
    Ok(outer)
}

/// Builds the framed status request packet.
pub fn create_status_request() -> (r: Vec<u8>)
    ensures
        r@ == framed(status_request_payload()),
{
    let mut outer: Vec<u8> = Vec::new();
    let mut inner: Vec<u8> = Vec::new();
    write_var_int(&mut inner, &0x0);
    proof {
        lemma_var_encoding_len(0i32 as u32 as u64);
    }
    write_var_int(&mut outer, &(inner.len() as i32));
    let ghost head = outer@;
    outer.extend_from_slice(inner.as_slice());
    assert(outer@ =~= head + inner@);
    outer
}

/// What the announced length of a frame allows: the number of bytes to read.
pub open spec fn frame_length(announced: i32) -> Result<usize, ErrorKind> {
    if announced < 0 || announced > MAX_PACKET_SIZE {
        Err(ErrorKind::FrameTooLarge)
    } else if announced == 0 {
        Err(ErrorKind::UnexpectedEof)
    } else {
        Ok(announced as usize)
    }
}

/// Holds the announced length of a response against the largest frame that
/// the reader accepts. A negative length counts as too large; an empty frame
/// has no packet in it.
pub fn check_frame_length(announced: i32) -> (r: Result<usize, ErrorKind>)
    ensures
        r == frame_length(announced),
{
    if announced < 0 || announced > MAX_PACKET_SIZE {
        Err(ErrorKind::FrameTooLarge)
    } else if announced == 0 {
        Err(ErrorKind::UnexpectedEof)
    } else {
        Ok(announced as usize)
    }
}

/// The text carried by a status response: behind the packet id, a string.
pub open spec fn status_response_text(frame: Seq<u8>) -> Result<Seq<char>, ErrorKind> {
    if var_malformed(frame, 0, 32) {
        Err(ErrorKind::MalformedVarInt)
    } else {
        string_at(frame, var_len(frame) as int)
    }
}

/// Takes the JSON text out of the payload of a status response. The packet id
/// is read and not looked at.
pub fn decode_status_response(frame: &[u8]) -> (r: Result<String, ErrorKind>)
    ensures
        match r {
            Ok(s) => status_response_text(frame@) == Ok::<Seq<char>, ErrorKind>(s@),
            Err(e) => status_response_text(frame@) == Err::<Seq<char>, ErrorKind>(e),
        },
{
    let mut index: usize = 0;
    assert(tail_from(frame@, 0) =~= frame@);
    match read_var_int(frame, Some(&mut index)) {
        Ok(_) => {},
        Err(e) => {
            return Err(e);
        },
    }
    read_string(frame, &mut index)
}

/// The model of a [`Handshake`].
pub struct HandshakeValue {
    pub protocol_version: i32,
    pub server_address: Seq<char>,
    pub server_port: u16,
    pub next_state: i32,
}

/// What a client says in its handshake.
#[derive(Debug, Clone, PartialEq, Eq)]
pub struct Handshake {
    pub protocol_version: i32,
    pub server_address: String,
    pub server_port: u16,
    pub next_state: i32,
}

impl View for Handshake {
    type V = HandshakeValue;

    open spec fn view(&self) -> HandshakeValue {
        HandshakeValue {
            protocol_version: self.protocol_version,
            server_address: self.server_address@,
            server_port: self.server_port,
            next_state: self.next_state,
        }
    }
}

/// What a reader makes of the fields of a handshake: the protocol version,
/// the server address, the port and the next state, one behind the other.
pub open spec fn handshake_of(data: Seq<u8>) -> Result<HandshakeValue, ErrorKind> {
    let version_end = var_len(data) as int;
    let address_end = string_end(data, version_end);
    let state = tail_from(data, address_end + 2);
    if var_malformed(data, 0, 32) {
        Err(ErrorKind::MalformedVarInt)
    } else {
        match string_at(data, version_end) {
            Err(e) => Err(e),
            Ok(address) => if address_end + 2 > data.len() {
                Err(ErrorKind::UnexpectedEof)
            } else if var_malformed(state, 0, 32) {
                Err(ErrorKind::MalformedVarInt)
            } else {
                Ok(
                    HandshakeValue {
                        protocol_version: decoded_int(data),
                        server_address: address,
                        server_port: be16_value(data[address_end], data[address_end + 1]) as u16,
                        next_state: decoded_int(state),
                    },
                )
            },
        }
    }
}

/// Reads the fields of a handshake, which stand behind its packet id.
pub fn read_handshake(data: &[u8]) -> (r: Result<Handshake, ErrorKind>)
    ensures
        match r {
            Ok(h) => handshake_of(data@) == Ok::<HandshakeValue, ErrorKind>(h@),
            Err(e) => handshake_of(data@) == Err::<HandshakeValue, ErrorKind>(e),
        },
{
    let mut index: usize = 0;
    assert(tail_from(data@, 0) =~= data@);
    let protocol_version = match read_var_int(data, Some(&mut index)) {
        Ok(v) => v,
        Err(e) => {
            return Err(e);
        },
    };
    let server_address = match read_string(data, &mut index) {
        Ok(s) => s,
        Err(e) => {
            return Err(e);
        },
    };
    let server_port = match read_u16(data, Some(&mut index)) {
        Ok(p) => p,
        Err(e) => {
            return Err(e);
        },
    };
    let next_state = match read_var_int(data, Some(&mut index)) {
        Ok(v) => v,
        Err(e) => {
            return Err(e);
        },
    };
    Ok(Handshake { protocol_version, server_address, server_port, next_state })
}

/// Round trip of a handshake: a reader that meets the fields that a client
/// wrote, with an ASCII address of at most 32767 characters, reads the same
/// fields.
pub proof fn lemma_handshake_round_trip(
    protocol_version: i32,
    server_address: Seq<char>,
    server_port: u16,
    next_state: i32,
)
    requires
        is_ascii_chars(server_address),
        utf16_len(server_address) <= 32767,
    ensures
        handshake_of(
            handshake_fields(protocol_version, server_address, server_port, next_state),
        ) == Ok::<HandshakeValue, ErrorKind>(
            HandshakeValue { protocol_version, server_address, server_port, next_state },
        ),
{
    let version = var_int_encoding(protocol_version);
    let address = string_encoding(server_address);
    let port = be16_bytes(server_port);
    let state = var_int_encoding(next_state);
    let data = handshake_fields(protocol_version, server_address, server_port, next_state);
    assert(data =~= version + (address + port + state));
    lemma_var_int_round_trip(protocol_version, address + port + state);
    assert(data =~= version + address + (port + state));
    lemma_string_round_trip(version, server_address, port + state);
    let address_end = (version.len() + address.len()) as int;
    assert(data[address_end] == port[0]);
    assert(data[address_end + 1] == port[1]);
    assert(tail_from(data, address_end + 2) =~= state + Seq::<u8>::empty());
    lemma_var_int_round_trip(next_state, Seq::empty());
}

/// A response made of a packet id and a written ASCII text of at most 32767
/// characters carries that text.
pub proof fn lemma_status_response_round_trip(packet_id: i32, chars: Seq<char>)
    requires
        is_ascii_chars(chars),
        utf16_len(chars) <= 32767,
    ensures
        status_response_text(var_int_encoding(packet_id) + string_encoding(chars)) == Ok::<
            Seq<char>,
            ErrorKind,
        >(chars),
{
    let id = var_int_encoding(packet_id);
    lemma_var_int_round_trip(packet_id, string_encoding(chars));
    lemma_string_round_trip(id, chars, Seq::empty());
    assert(id + string_encoding(chars) + Seq::<u8>::empty() =~= id + string_encoding(chars));
}

} // verus!
