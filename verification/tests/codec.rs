use tinytls::buffer::CryptoBuffer;
use tinytls::extensions::alpn::{ALPNList, Protocol};
use tinytls::extensions::{encode_extension_list, parse_extension_list, Extension};
use tinytls::parse_buffer::{ParseBuffer, ParseError};
use tinytls::TlsError;

#[test]
fn single_http11_encodes_to_expected_bytes() {
    let list = ALPNList::single("http/1.1");
    let mut buf = CryptoBuffer::new(64);
    list.encode(&mut buf).unwrap();
    let expected: Vec<u8> = vec![
        0x00, 0x09, 0x08, b'h', b't', b't', b'p', b'/', b'1', b'.', b'1',
    ];
    assert_eq!(buf.as_slice(), expected.as_slice());
}

#[test]
fn single_http11_decodes_back() {
    let list = ALPNList::single("http/1.1");
    let mut buf = CryptoBuffer::new(64);
    list.encode(&mut buf).unwrap();
    let bytes = buf.as_slice().to_vec();
    let mut pb = ParseBuffer::new(bytes.as_slice());
    let parsed: ALPNList<1> = ALPNList::parse(&mut pb).unwrap();
    assert_eq!(parsed.protocol_list.len(), 1);
    assert_eq!(parsed.protocol_list[0].name, "http/1.1");
    assert_eq!(pb.remaining(), 0);
}

#[test]
fn alpn_round_trip_two_names() {
    let list: ALPNList<4> = ALPNList {
        protocol_list: vec![Protocol { name: "h2" }, Protocol { name: "http/1.1" }],
    };
    let mut buf = CryptoBuffer::new(64);
    list.encode(&mut buf).unwrap();
    let bytes = buf.as_slice().to_vec();
    let mut pb = ParseBuffer::new(bytes.as_slice());
    let parsed: ALPNList<4> = ALPNList::parse(&mut pb).unwrap();
    assert_eq!(parsed, list);
}

#[test]
fn read_u16_on_one_byte_fails_and_keeps_cursor() {
    let bytes = [0x42u8];
    let mut pb = ParseBuffer::new(&bytes);
    assert_eq!(pb.read_u16(), Err(ParseError::InsufficientData));
    assert_eq!(pb.remaining(), 1);
}

#[test]
fn read_u8_u16_u24_values_are_big_endian() {
    let bytes = [0x01u8, 0x02, 0x03, 0x04, 0x05, 0x06];
    let mut pb = ParseBuffer::new(&bytes);
    assert_eq!(pb.read_u8(), Ok(0x01));
    assert_eq!(pb.read_u16(), Ok(0x0203));
    assert_eq!(pb.read_u24(), Ok(0x040506));
    assert_eq!(pb.remaining(), 0);
}

#[test]
fn slice_is_a_window_of_the_input() {
    let bytes = [10u8, 20, 30, 40, 50];
    let mut pb = ParseBuffer::new(&bytes);
    pb.read_u8().unwrap();
    let window = pb.slice(3).unwrap();
    assert_eq!(window, &bytes[1..4]);
    assert_eq!(window.as_ptr(), bytes[1..4].as_ptr());
    assert_eq!(pb.remaining(), 1);
}

#[test]
fn non_ascii_protocol_name_is_invalid_data() {
    let bytes = [0x02u8, 0xc3, 0xa9];
    let mut pb = ParseBuffer::new(&bytes);
    let r = Protocol::parse(&mut pb);
    assert_eq!(r, Err(ParseError::InvalidData));
}

#[test]
fn overlong_name_fails_with_encode_error_not_truncation() {
    let name = "x".repeat(300);
    let p = Protocol { name: &name };
    let mut buf = CryptoBuffer::new(1024);
    assert_eq!(p.encode(&mut buf), Err(TlsError::EncodeError));
    assert_eq!(buf.len(), 0);
}

#[test]
fn list_beyond_capacity_fails_when_parsing() {
    // Two names, parsed into a list bounded at one element.
    let bytes = [0x00u8, 0x04, 0x01, b'a', 0x01, b'b'];
    let mut pb = ParseBuffer::new(&bytes);
    let r: Result<ALPNList<1>, ParseError> = ALPNList::parse(&mut pb);
    assert_eq!(r, Err(ParseError::CapacityExceeded));
}

#[test]
fn failed_u16_scope_leaves_buffer_unchanged() {
    let mut buf = CryptoBuffer::new(8);
    buf.extend_from_slice(&[1, 2, 3]).unwrap();
    let r = buf.with_u16_length(|b: &mut CryptoBuffer| b.extend_from_slice(&[9; 10]));
    assert_eq!(r, Err(TlsError::EncodeError));
    assert_eq!(buf.len(), 3);
    assert_eq!(buf.as_slice(), &[1, 2, 3]);
}

#[test]
fn u8_and_u24_scopes_backpatch_their_length() {
    let mut buf = CryptoBuffer::new(32);
    buf.with_u8_length(|b: &mut CryptoBuffer| b.extend_from_slice(&[7, 8])).unwrap();
    buf.with_u24_length(|b: &mut CryptoBuffer| b.extend_from_slice(&[9])).unwrap();
    assert_eq!(buf.as_slice(), &[2, 7, 8, 0, 0, 1, 9]);
}

#[test]
fn alpn_list_length_mismatch_is_invalid_data() {
    // Declared total of 5, but the one entry takes 3 bytes and the next
    // entry overruns the declared window.
    let bytes = [0x00u8, 0x05, 0x02, b'h', b'2', 0x03, b'x'];
    let mut pb = ParseBuffer::new(&bytes);
    let r: Result<ALPNList<4>, ParseError> = ALPNList::parse(&mut pb);
    assert_eq!(r, Err(ParseError::InvalidData));
}

#[test]
fn extension_list_round_trip_known_and_unknown() {
    let alpn = ALPNList::single("h2");
    let raw = [0xde, 0xad, 0xbe, 0xef];
    let exts: Vec<Extension<1>> = vec![
        Extension::ApplicationProtocols(alpn),
        Extension::Unknown { extension_type: 0x002b, data: &raw },
    ];
    let mut buf = CryptoBuffer::new(128);
    encode_extension_list(&exts, &mut buf).unwrap();
    let bytes = buf.as_slice().to_vec();
    let mut pb = ParseBuffer::new(bytes.as_slice());
    let parsed: Vec<Extension<1>> = parse_extension_list(&mut pb).unwrap();
    assert_eq!(parsed.len(), 2);
    match &parsed[0] {
        Extension::ApplicationProtocols(l) => {
            assert_eq!(l.protocol_list.len(), 1);
            assert_eq!(l.protocol_list[0].name, "h2");
        }
        _ => panic!("first extension should be the protocol list"),
    }
    match &parsed[1] {
        Extension::Unknown { extension_type, data } => {
            assert_eq!(*extension_type, 0x002b);
            assert_eq!(*data, &raw);
        }
        _ => panic!("second extension should be opaque"),
    }
    assert_eq!(pb.remaining(), 0);
}

#[test]
fn extension_list_total_length_mismatch_is_invalid_data() {
    // Outer total says 10 bytes, but the one extension inside only
    // accounts for 8: the remainder is a truncated second header.
    let bytes = [
        0x00u8, 0x0a, // list total length: 10
        0x00, 0x2b, 0x00, 0x04, 0xde, 0xad, 0xbe, 0xef, // 8 bytes of extension
        0x00, 0x17, // dangling half header
    ];
    let mut pb = ParseBuffer::new(&bytes);
    let r: Result<Vec<Extension<1>>, ParseError> = parse_extension_list(&mut pb);
    assert!(matches!(r, Err(ParseError::InvalidData)));
}

#[test]
fn unknown_tags_are_skipped_structurally() {
    // An unknown tag with a payload that would be malformed ALPN still
    // parses, because unknown payloads are carried opaquely.
    let bytes = [
        0x00u8, 0x07, // list total
        0x01, 0x00, 0x00, 0x03, 0xff, 0xfe, 0xfd,
    ];
    let mut pb = ParseBuffer::new(&bytes);
    let parsed: Vec<Extension<1>> = parse_extension_list(&mut pb).unwrap();
    assert_eq!(parsed.len(), 1);
    match &parsed[0] {
        Extension::Unknown { extension_type, data } => {
            assert_eq!(*extension_type, 0x0100);
            assert_eq!(*data, &[0xff, 0xfe, 0xfd]);
        }
        _ => panic!("expected an opaque extension"),
    }
}

#[test]
fn empty_extension_list_round_trips() {
    let exts: Vec<Extension<1>> = Vec::new();
    let mut buf = CryptoBuffer::new(16);
    encode_extension_list(&exts, &mut buf).unwrap();
    assert_eq!(buf.as_slice(), &[0x00, 0x00]);
    let bytes = buf.as_slice().to_vec();
    let mut pb = ParseBuffer::new(bytes.as_slice());
    let parsed: Vec<Extension<1>> = parse_extension_list(&mut pb).unwrap();
    assert!(parsed.is_empty());
}

#[test]
fn encoding_more_than_n_entries_fails() {
    // A list built over its bound must refuse to encode, not truncate.
    let list: ALPNList<1> = ALPNList {
        protocol_list: vec![Protocol { name: "h2" }, Protocol { name: "http/1.1" }],
    };
    let mut buf = CryptoBuffer::new(64);
    assert_eq!(list.encode(&mut buf), Err(TlsError::EncodeError));
    assert_eq!(buf.len(), 0);
}

#[test]
fn truncated_name_window_is_insufficient_data() {
    // Length byte says 5, only 2 name bytes follow.
    let bytes = [0x05u8, b'h', b'2'];
    let mut pb = ParseBuffer::new(&bytes);
    assert_eq!(Protocol::parse(&mut pb), Err(ParseError::InsufficientData));
}

#[test]
fn one_byte_input_to_list_parse_keeps_cursor() {
    let bytes = [0xabu8];
    let mut pb = ParseBuffer::new(&bytes);
    let r: Result<ALPNList<1>, ParseError> = ALPNList::parse(&mut pb);
    assert_eq!(r, Err(ParseError::InsufficientData));
    assert_eq!(pb.remaining(), 1);
}

#[test]
fn oversized_inner_list_is_invalid_data_at_the_list_level() {
    // One ALPN extension whose two names exceed the bound of one: the
    // extension alone reports the capacity; inside a list the item is
    // simply not takeable and the list parse is invalid data.
    let ext_bytes = [
        0x00u8, 0x10, // extension type: ALPN
        0x00, 0x08, // payload length: 8
        0x00, 0x06, // inner total: 6
        0x01, b'a', 0x03, b'f', b'o', b'o',
    ];
    let mut pb = ParseBuffer::new(&ext_bytes);
    let direct: Result<Extension<1>, ParseError> = Extension::parse(&mut pb);
    assert!(matches!(direct, Err(ParseError::CapacityExceeded)));

    let mut listed = vec![0x00u8, ext_bytes.len() as u8];
    listed.extend_from_slice(&ext_bytes);
    let mut pb2 = ParseBuffer::new(listed.as_slice());
    let in_list: Result<Vec<Extension<1>>, ParseError> = parse_extension_list(&mut pb2);
    assert!(matches!(in_list, Err(ParseError::InvalidData)));
}
