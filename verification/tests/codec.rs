use mc_scanner::be16::{read_u16, write_u16};
use mc_scanner::error::ErrorKind;
use mc_scanner::packets::{
    check_frame_length, create_handshake_packet, create_status_request, decode_status_response,
    read_handshake, Handshake,
};
use mc_scanner::string::{read_string, write_string};
use mc_scanner::varint::{
    read_var_int, read_var_int_generic, read_var_int_long, write_var_int, write_var_int_generic,
    write_var_long, VarIntReader, VarIntStep,
};

fn encode_varint(value: i32) -> Vec<u8> {
    let mut vec = Vec::new();
    write_var_int(&mut vec, &value);
    vec
}

fn encode_varlong(value: i64) -> Vec<u8> {
    let mut vec = Vec::new();
    write_var_long(&mut vec, value);
    vec
}

fn decode_varint(bytes: &[u8]) -> i32 {
    read_var_int(bytes, None).unwrap()
}

fn decode_varlong(bytes: &[u8]) -> i64 {
    read_var_int_long(bytes, None).unwrap()
}

#[test]
fn test_varint_roundtrip() {
    let values = [
        0,
        1,
        2,
        127,
        128,
        255,
        25565,
        2097151,
        2147483647,
        -1,
        -2147483648,
    ];

    for &val in &values {
        let encoded = encode_varint(val);
        let decoded = decode_varint(&encoded);
        assert_eq!(val, decoded, "Failed on value {val}");
    }
}

#[test]
fn test_varlong_roundtrip() {
    let values = [
        0,
        1,
        2,
        127,
        128,
        255,
        2147483647,
        9223372036854775807,
        -1,
        -2147483648,
        -9223372036854775808,
    ];

    for &val in &values {
        let encoded = encode_varlong(val);
        let decoded = decode_varlong(&encoded);
        assert_eq!(val, decoded, "Failed on value {val}");
    }
}

#[test]
fn varint_known_encodings() {
    assert_eq!(encode_varint(0), vec![0x00]);
    assert_eq!(encode_varint(1), vec![0x01]);
    assert_eq!(encode_varint(127), vec![0x7f]);
    assert_eq!(encode_varint(128), vec![0x80, 0x01]);
    assert_eq!(encode_varint(255), vec![0xff, 0x01]);
    assert_eq!(encode_varint(25565), vec![0xdd, 0xc7, 0x01]);
    assert_eq!(encode_varint(2097151), vec![0xff, 0xff, 0x7f]);
    assert_eq!(encode_varint(2147483647), vec![0xff, 0xff, 0xff, 0xff, 0x07]);
    assert_eq!(encode_varint(-1), vec![0xff, 0xff, 0xff, 0xff, 0x0f]);
    assert_eq!(encode_varint(-2147483648), vec![0x80, 0x80, 0x80, 0x80, 0x08]);
}

#[test]
fn varlong_known_encodings() {
    assert_eq!(
        encode_varlong(-1),
        vec![0xff, 0xff, 0xff, 0xff, 0xff, 0xff, 0xff, 0xff, 0xff, 0x01]
    );
    assert_eq!(
        encode_varlong(9223372036854775807),
        vec![0xff, 0xff, 0xff, 0xff, 0xff, 0xff, 0xff, 0xff, 0x7f]
    );
    let mut out = vec![9u8];
    write_var_int_generic(&mut out, 300);
    assert_eq!(out, vec![9, 0xac, 0x02]);
}

#[test]
fn varint_moves_the_cursor() {
    let data = [0xaa, 0xdd, 0xc7, 0x01, 0x05];
    let mut offset = 1usize;
    assert_eq!(read_var_int(&data, Some(&mut offset)), Ok(25565));
    assert_eq!(offset, 4);
    assert_eq!(read_var_int(&data, Some(&mut offset)), Ok(5));
    assert_eq!(offset, 5);
    assert_eq!(read_var_int(&data, Some(&mut offset)), Ok(0));
    assert_eq!(offset, 5);
}

#[test]
fn varint_with_too_many_groups_is_malformed() {
    let data = [0x80, 0x80, 0x80, 0x80, 0x80, 0x01];
    let mut offset = 0usize;
    assert_eq!(
        read_var_int(&data, Some(&mut offset)),
        Err(ErrorKind::MalformedVarInt)
    );
    assert_eq!(offset, 0);
    assert_eq!(read_var_int_long(&data, None), Ok(1i64 << 35));
    let long = [0xff; 10];
    assert_eq!(
        read_var_int_long(&long, None),
        Err(ErrorKind::MalformedVarInt)
    );
    assert_eq!(
        read_var_int_generic(&[0x80, 0x01], None, 7),
        Err(ErrorKind::MalformedVarInt)
    );
}

#[test]
fn varint_cut_short_gives_the_bits_that_were_there() {
    let data = [0x81, 0x82];
    let mut offset = 0usize;
    assert_eq!(read_var_int(&data, Some(&mut offset)), Ok(1 + (2 << 7)));
    assert_eq!(offset, 2);
}

#[test]
fn varint_reader_matches_the_buffer_decoder() {
    let values = [0, 1, 127, 128, 25565, 2147483647, -1, -2147483648];
    for &val in &values {
        let bytes = encode_varint(val);
        let mut reader = VarIntReader::new();
        let mut result = None;
        for (i, b) in bytes.iter().enumerate() {
            match reader.feed(*b) {
                VarIntStep::NeedMore(next) => {
                    assert!(i + 1 < bytes.len());
                    reader = next;
                }
                VarIntStep::Done(v) => {
                    assert_eq!(i + 1, bytes.len());
                    result = Some(v);
                    break;
                }
                VarIntStep::Malformed => panic!("malformed"),
            }
        }
        assert_eq!(result, Some(val));
    }
}

#[test]
fn varint_reader_gives_up_after_five_bytes() {
    let mut reader = VarIntReader::new();
    for _ in 0..4 {
        reader = match reader.feed(0x80) {
            VarIntStep::NeedMore(next) => next,
            _ => panic!("expected more"),
        };
    }
    assert!(matches!(reader.feed(0x80), VarIntStep::Malformed));
}

#[test]
fn u16_is_big_endian() {
    let mut buf = Vec::new();
    write_u16(&mut buf, 25565);
    assert_eq!(buf, vec![0x63, 0xdd]);
    let mut index = 0usize;
    assert_eq!(read_u16(&buf, Some(&mut index)), Ok(25565));
    assert_eq!(index, 2);
    assert_eq!(read_u16(&buf, Some(&mut index)), Err(ErrorKind::UnexpectedEof));
    assert_eq!(index, 2);
    assert_eq!(read_u16(&[1], None), Err(ErrorKind::UnexpectedEof));
    assert_eq!(read_u16(&[0x01, 0x02, 0x03], None), Ok(0x0102));
}

#[test]
fn string_round_trip_ascii() {
    let mut buf = vec![7u8];
    assert_eq!(write_string(&mut buf, "hello"), Ok(()));
    assert_eq!(buf, vec![7, 5, b'h', b'e', b'l', b'l', b'o']);
    let mut index = 1usize;
    assert_eq!(read_string(&buf, &mut index), Ok("hello".to_string()));
    assert_eq!(index, 7);
}

#[test]
fn string_prefix_counts_utf16_units() {
    let mut buf = Vec::new();
    assert_eq!(write_string(&mut buf, "\u{e9}"), Ok(()));
    assert_eq!(buf, vec![1, 0xc3, 0xa9]);
    let mut index = 0usize;
    assert_eq!(read_string(&buf, &mut index), Err(ErrorKind::InvalidData));
    let mut buf = Vec::new();
    assert_eq!(write_string(&mut buf, "\u{1F600}"), Ok(()));
    assert_eq!(buf, vec![2, 0xf0, 0x9f, 0x98, 0x80]);
}

#[test]
fn string_too_long_is_refused() {
    let long = "a".repeat(32768);
    let mut buf = vec![1u8, 2];
    assert_eq!(write_string(&mut buf, &long), Err(ErrorKind::StringTooLong));
    assert_eq!(buf, vec![1, 2]);
    let fits = "a".repeat(32767);
    assert_eq!(write_string(&mut buf, &fits), Ok(()));
    assert_eq!(buf.len(), 2 + 3 + 32767);
}

#[test]
fn string_reader_errors() {
    let mut index = 0usize;
    assert_eq!(
        read_string(&[5, b'a', b'b'], &mut index),
        Err(ErrorKind::UnexpectedEof)
    );
    assert_eq!(index, 1);
    let mut index = 0usize;
    assert_eq!(
        read_string(&[2, 0xff, 0xfe], &mut index),
        Err(ErrorKind::InvalidData)
    );
    assert_eq!(index, 3);
    let mut index = 0usize;
    assert_eq!(
        read_string(&[0xff, 0xff, 0xff, 0xff, 0x0f], &mut index),
        Err(ErrorKind::UnexpectedEof)
    );
    let mut index = 0usize;
    assert_eq!(
        read_string(&[0x80, 0x80, 0x80, 0x80, 0x80], &mut index),
        Err(ErrorKind::MalformedVarInt)
    );
    assert_eq!(index, 0);
}

#[test]
fn handshake_packet_bytes() {
    let packet = create_handshake_packet(757, "1.2.3.4", 25565, 1).unwrap();
    let expected: Vec<u8> = vec![
        14, 0x00, 0xf5, 0x05, 7, b'1', b'.', b'2', b'.', b'3', b'.', b'4', 0x63, 0xdd, 0x01,
    ];
    assert_eq!(packet, expected);
    let long = "a".repeat(40000);
    assert_eq!(
        create_handshake_packet(757, &long, 25565, 1),
        Err(ErrorKind::StringTooLong)
    );
}

#[test]
fn status_request_bytes() {
    assert_eq!(create_status_request(), vec![0x01, 0x00]);
}

#[test]
fn frame_length_limits() {
    assert_eq!(check_frame_length(1), Ok(1));
    assert_eq!(check_frame_length(2097152), Ok(2097152));
    assert_eq!(check_frame_length(2097153), Err(ErrorKind::FrameTooLarge));
    assert_eq!(check_frame_length(-1), Err(ErrorKind::FrameTooLarge));
    assert_eq!(check_frame_length(0), Err(ErrorKind::UnexpectedEof));
}

#[test]
fn status_response_text() {
    let json = "{\"description\":\"hi\"}";
    let mut frame = Vec::new();
    write_var_int(&mut frame, &0);
    write_string(&mut frame, json).unwrap();
    assert_eq!(decode_status_response(&frame), Ok(json.to_string()));
    assert_eq!(
        decode_status_response(&[0x80, 0x80, 0x80, 0x80, 0x80, 0x00]),
        Err(ErrorKind::MalformedVarInt)
    );
    assert_eq!(
        decode_status_response(&[0x00, 0x09, b'x']),
        Err(ErrorKind::UnexpectedEof)
    );
}

#[test]
fn handshake_is_read_back() {
    let packet = create_handshake_packet(757, "play.example.org", 25565, 1).unwrap();
    let mut index = 0usize;
    let len = read_var_int(&packet, Some(&mut index)).unwrap();
    assert_eq!(len as usize, packet.len() - index);
    assert_eq!(read_var_int(&packet, Some(&mut index)), Ok(0));
    assert_eq!(
        read_handshake(&packet[index..]),
        Ok(Handshake {
            protocol_version: 757,
            server_address: "play.example.org".to_string(),
            server_port: 25565,
            next_state: 1,
        })
    );
}

#[test]
fn handshake_reader_errors() {
    assert_eq!(
        read_handshake(&[0x80, 0x80, 0x80, 0x80, 0x80]),
        Err(ErrorKind::MalformedVarInt)
    );
    assert_eq!(read_handshake(&[0x01, 0x05, b'a']), Err(ErrorKind::UnexpectedEof));
    assert_eq!(read_handshake(&[0x01, 0x01, 0xff, 0, 0, 0]), Err(ErrorKind::InvalidData));
    assert_eq!(read_handshake(&[0x01, 0x01, b'a', 0x63]), Err(ErrorKind::UnexpectedEof));
    assert_eq!(
        read_handshake(&[0x01, 0x01, b'a', 0x63, 0xdd, 0x80, 0x80, 0x80, 0x80, 0x80]),
        Err(ErrorKind::MalformedVarInt)
    );
    assert_eq!(
        read_handshake(&[0x01, 0x01, b'a', 0x63, 0xdd]),
        Ok(Handshake {
            protocol_version: 1,
            server_address: "a".to_string(),
            server_port: 25565,
            next_state: 0,
        })
    );
}
