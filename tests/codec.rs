use whono::client_bound::{self, Ping};
use whono::direction::{read_packet, Direction, Received};
use whono::error::CodecError;
use whono::packets::{PacketRead, PacketWrite};
use whono::protocol::Protocol;
use whono::reader::Reader;
use whono::server_bound::{self, Create, Pong};

fn encoded<T: Protocol>(v: &T) -> Vec<u8> {
    let mut out = Vec::new();
    T::encode(v, &mut out);
    out
}

fn round_trip<T: Protocol + PartialEq + std::fmt::Debug>(v: T) {
    let bytes = encoded(&v);
    assert_eq!(bytes.len(), T::byte_length(&v));
    let mut src = Reader::new(&bytes);
    assert_eq!(T::decode(&mut src), Ok(v));
    assert_eq!(src.remaining(), 0);
}

#[test]
fn u32_300_encodes_big_endian() {
    assert_eq!(encoded(&300u32), vec![0x00, 0x00, 0x01, 0x2C]);
    let bytes = [0x00u8, 0x00, 0x01, 0x2C];
    let mut src = Reader::new(&bytes);
    assert_eq!(<u32 as Protocol>::decode(&mut src), Ok(300));
}

#[test]
fn primitives_round_trip() {
    round_trip(0u8);
    round_trip(255u8);
    round_trip(-128i8);
    round_trip(0xBEEFu16);
    round_trip(-2i16);
    round_trip(u32::MAX);
    round_trip(i32::MIN);
    round_trip(0x0123_4567_89AB_CDEFu64);
    round_trip(-1i64);
    round_trip(i64::MAX);
    round_trip(true);
    round_trip(false);
}

#[test]
fn signed_values_use_twos_complement() {
    assert_eq!(encoded(&-1i16), vec![0xFF, 0xFF]);
    assert_eq!(encoded(&-2i32), vec![0xFF, 0xFF, 0xFF, 0xFE]);
    assert_eq!(encoded(&-128i8), vec![0x80]);
    assert_eq!(encoded(&0x0102_0304_0506_0708u64), vec![1, 2, 3, 4, 5, 6, 7, 8]);
}

#[test]
fn byte_lengths_are_fixed_widths() {
    assert_eq!(<u8 as Protocol>::byte_length(&7), 1);
    assert_eq!(<i16 as Protocol>::byte_length(&7), 2);
    assert_eq!(<u32 as Protocol>::byte_length(&7), 4);
    assert_eq!(<i64 as Protocol>::byte_length(&7), 8);
    assert_eq!(<bool as Protocol>::byte_length(&true), 1);
}

#[test]
fn optional_u8_encodes_presence_byte() {
    assert_eq!(encoded(&Some(5u8)), vec![0x01, 0x05]);
    assert_eq!(encoded(&None::<u8>), vec![0x00]);
    round_trip(Some(5u8));
    round_trip(None::<u8>);
}

#[test]
fn nested_optionals_round_trip() {
    round_trip(Some(Some(7u16)));
    round_trip(Some(None::<u16>));
    round_trip(None::<Option<u16>>);
    assert_eq!(encoded(&Some(Some(7u16))), vec![1, 1, 0, 7]);
    assert_eq!(<Option<Option<u16>> as Protocol>::byte_length(&Some(None)), 2);
}

#[test]
fn text_is_bytes_then_delimiter() {
    let s = String::from("Ab");
    assert_eq!(encoded(&s), vec![0x41, 0x62, 0x0A]);
    assert_eq!(<String as Protocol>::byte_length(&s), 3);
    round_trip(String::from("lobby one"));
    round_trip(String::new());
}

#[test]
fn text_decodes_high_bytes_one_char_each() {
    let bytes = [0xE9u8, 0x41, 0x0A, 0x99];
    let mut src = Reader::new(&bytes);
    let s = <String as Protocol>::decode(&mut src).unwrap();
    assert_eq!(s.chars().count(), 2);
    assert_eq!(s, "\u{e9}A");
    assert_eq!(src.remaining(), 1);
    assert_eq!(encoded(&s), vec![0xE9, 0x41, 0x0A]);
}

#[test]
fn text_without_delimiter_is_truncated() {
    let bytes = [0x41u8, 0x42];
    let mut src = Reader::new(&bytes);
    assert_eq!(<String as Protocol>::decode(&mut src), Err(CodecError::TruncatedInput));
}

#[test]
fn records_round_trip_in_order() {
    let v = (3u8, (String::from("xy"), (Some(-5i32), ())));
    assert_eq!(encoded(&v), vec![3, b'x', b'y', 0x0A, 1, 0xFF, 0xFF, 0xFF, 0xFB]);
    assert_eq!(<(u8, (String, (Option<i32>, ()))) as Protocol>::byte_length(&v), 9);
    round_trip(v);
    round_trip(());
}

#[test]
fn short_sources_are_truncated() {
    let full = encoded(&0x1122_3344u32);
    for k in 0..full.len() {
        let mut src = Reader::new(&full[..k]);
        assert_eq!(<u32 as Protocol>::decode(&mut src), Err(CodecError::TruncatedInput));
    }
    let empty: [u8; 0] = [];
    let mut src = Reader::new(&empty);
    assert_eq!(<bool as Protocol>::decode(&mut src), Err(CodecError::TruncatedInput));
    let one = [1u8];
    let mut src = Reader::new(&one);
    assert_eq!(<Option<u16> as Protocol>::decode(&mut src), Err(CodecError::TruncatedInput));
}

#[test]
fn bool_domain_is_zero_and_one() {
    for (b, expected) in [(0u8, Ok(false)), (1, Ok(true)), (2, Err(CodecError::InvalidEncoding)), (255, Err(CodecError::InvalidEncoding))] {
        let bytes = [b];
        let mut src = Reader::new(&bytes);
        assert_eq!(<bool as Protocol>::decode(&mut src), expected);
    }
    let bytes = [2u8, 5];
    let mut src = Reader::new(&bytes);
    assert_eq!(<Option<u8> as Protocol>::decode(&mut src), Err(CodecError::InvalidEncoding));
}

#[test]
fn ping_frame_is_length_then_id() {
    let mut out = Vec::new();
    Ping::new().write(&mut out);
    assert_eq!(out, vec![0x00, 0x02, 0x00, 0x00]);
    assert_eq!(Ping::new().packet_len(), 2);
    let mut src = Reader::new(&out);
    assert!(matches!(client_bound::Packet::read(&mut src), Ok(client_bound::Packet::Ping(_))));
    assert_eq!(src.remaining(), 0);
}

#[test]
fn pong_frame_reads_back() {
    let mut out = Vec::new();
    Pong::new().write(&mut out);
    assert_eq!(out, vec![0x00, 0x02, 0x00, 0x00]);
    let mut src = Reader::new(&out);
    assert!(matches!(server_bound::Packet::read(&mut src), Ok(server_bound::Packet::Pong(_))));
}

fn create_frame() -> Vec<u8> {
    let mut out = Vec::new();
    Create::new(String::from("Ab"), String::from("Cd")).write(&mut out);
    out
}

#[test]
fn create_frame_layout_and_read() {
    let out = create_frame();
    assert_eq!(out, vec![0x00, 0x08, 0x00, 0x01, 0x41, 0x62, 0x0A, 0x43, 0x64, 0x0A]);
    let c = Create::new(String::from("Ab"), String::from("Cd"));
    assert_eq!(c.packet_len(), 8);
    let mut src = Reader::new(&out);
    match server_bound::Packet::read(&mut src) {
        Ok(server_bound::Packet::Create(c)) => {
            assert_eq!(c.creator_name, "Ab");
            assert_eq!(c.lobby_name, "Cd");
        },
        _ => panic!("expected a Create packet"),
    }
    assert_eq!(src.remaining(), 0);
}

#[test]
fn create_scenario_frame_bytes() {
    // One-letter names give a four-byte payload and a length of six.
    let mut out = Vec::new();
    Create::new(String::from("A"), String::from("C")).write(&mut out);
    assert_eq!(out, vec![0x00, 0x06, 0x00, 0x01, 0x41, 0x0A, 0x43, 0x0A]);
    let mut src = Reader::new(&out);
    match server_bound::Packet::read(&mut src) {
        Ok(server_bound::Packet::Create(c)) => {
            assert_eq!(c.creator_name, "A");
            assert_eq!(c.lobby_name, "C");
        },
        _ => panic!("expected a Create packet"),
    }
    let mut src = Reader::new(&out[..3]);
    assert_eq!(server_bound::Packet::read(&mut src).err(), Some(CodecError::TruncatedInput));
}

#[test]
fn create_frame_prefix_is_truncated() {
    let out = create_frame();
    let mut src = Reader::new(&out[..3]);
    assert_eq!(server_bound::Packet::read(&mut src).err(), Some(CodecError::TruncatedInput));
    for k in 0..out.len() {
        let mut src = Reader::new(&out[..k]);
        assert_eq!(server_bound::Packet::read(&mut src).err(), Some(CodecError::TruncatedInput));
    }
}

#[test]
fn unknown_ids_are_rejected() {
    let frame = [0x00u8, 0x02, 0x00, 0x01];
    let mut src = Reader::new(&frame);
    assert_eq!(client_bound::Packet::read(&mut src).err(), Some(CodecError::UnrecognizedPacketId));
    let frame = [0x00u8, 0x03, 0x00, 0x07, 0x01];
    let mut src = Reader::new(&frame);
    assert_eq!(server_bound::Packet::read(&mut src).err(), Some(CodecError::UnrecognizedPacketId));
}

#[test]
fn ids_are_scoped_by_direction() {
    let out = create_frame();
    let mut src = Reader::new(&out);
    assert!(matches!(read_packet(Direction::ServerBound, &mut src), Ok(Received::ServerBound(server_bound::Packet::Create(_)))));
    let mut src = Reader::new(&out);
    assert!(matches!(read_packet(Direction::ClientBound, &mut src), Err(CodecError::UnrecognizedPacketId)));
    let ping = [0x00u8, 0x02, 0x00, 0x00];
    let mut src = Reader::new(&ping);
    assert!(matches!(read_packet(Direction::ClientBound, &mut src), Ok(Received::ClientBound(client_bound::Packet::Ping(_)))));
    let mut src = Reader::new(&ping);
    assert!(matches!(read_packet(Direction::ServerBound, &mut src), Ok(Received::ServerBound(server_bound::Packet::Pong(_)))));
}

#[test]
fn frame_length_must_match_payload() {
    // Declares one byte more than the ping uses.
    let frame = [0x00u8, 0x03, 0x00, 0x00, 0xAA];
    let mut src = Reader::new(&frame);
    assert_eq!(client_bound::Packet::read(&mut src).err(), Some(CodecError::FramingMismatch));
    // Declares more than is there.
    let frame = [0x00u8, 0x05, 0x00, 0x00];
    let mut src = Reader::new(&frame);
    assert_eq!(client_bound::Packet::read(&mut src).err(), Some(CodecError::FramingMismatch));
}

#[test]
fn frame_read_stops_at_declared_length() {
    let mut out = create_frame();
    let first = out.len();
    Ping::new().write(&mut out);
    let mut src = Reader::new(&out);
    assert!(server_bound::Packet::read(&mut src).is_ok());
    assert_eq!(src.remaining(), out.len() - first);
    assert!(matches!(client_bound::Packet::read(&mut src), Ok(client_bound::Packet::Ping(_))));
    assert_eq!(src.remaining(), 0);
}
