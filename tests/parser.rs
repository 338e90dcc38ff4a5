use bytes::BytesMut;
use ore_protocol::{OreErrorInsufficient, OreProtocol, ProtocolState};

#[test]
fn new_parser_waits_for_a_header() {
    let p = OreProtocol::new();
    assert_eq!(p.state, ProtocolState::WaitHeader);
    assert!(p.payload.is_none());
    assert_eq!(p.payload_size, 0);
}

#[test]
fn header_reads_two_big_endian_bytes() {
    let mut p = OreProtocol::new();
    let mut buf = BytesMut::from(&b"\x12\x34rest"[..]);
    assert_eq!(p.parse_fixed_header(&mut buf), Ok(()));
    assert_eq!(p.payload_size, 0x1234);
    assert_eq!(p.state, ProtocolState::WaitPayload);
    assert_eq!(buf[..], b"rest"[..]);
}

#[test]
fn short_header_is_insufficient_and_consumes_nothing() {
    let mut p = OreProtocol::new();
    let mut buf = BytesMut::from(&b"\x00"[..]);
    for _ in 0..3 {
        assert_eq!(p.parse_fixed_header(&mut buf), Err(OreErrorInsufficient));
        assert_eq!(p.state, ProtocolState::WaitHeader);
        assert_eq!(p.payload_size, 0);
        assert_eq!(buf[..], b"\x00"[..]);
    }
    let mut empty = BytesMut::new();
    assert_eq!(p.parse_fixed_header(&mut empty), Err(OreErrorInsufficient));
}

#[test]
fn payload_takes_exactly_the_announced_bytes() {
    let mut p = OreProtocol::new();
    let mut buf = BytesMut::from(&b"\x00\x03abcdef"[..]);
    p.parse_fixed_header(&mut buf).unwrap();
    assert_eq!(p.parse_payload(&mut buf), Ok(()));
    assert_eq!(p.payload.as_ref().unwrap()[..], b"abc"[..]);
    assert_eq!(p.state, ProtocolState::WaitPayload);
    assert_eq!(buf[..], b"def"[..]);
}

#[test]
fn short_payload_is_insufficient_and_consumes_nothing() {
    let mut p = OreProtocol::new();
    let mut buf = BytesMut::from(&b"\x00\x05abc"[..]);
    p.parse_fixed_header(&mut buf).unwrap();
    for _ in 0..3 {
        assert_eq!(p.parse_payload(&mut buf), Err(OreErrorInsufficient));
        assert!(p.payload.is_none());
        assert_eq!(p.payload_size, 5);
        assert_eq!(buf[..], b"abc"[..]);
    }
}

#[test]
fn empty_payload_needs_no_bytes() {
    let mut p = OreProtocol::new();
    let mut buf = BytesMut::from(&b"\x00\x00"[..]);
    p.parse_fixed_header(&mut buf).unwrap();
    assert_eq!(p.parse_payload(&mut buf), Ok(()));
    assert!(p.payload.as_ref().unwrap().is_empty());
    assert!(buf.is_empty());
}

#[test]
fn insufficient_error_message() {
    assert_eq!(OreErrorInsufficient.message(), "insufficient bufffer");
}
