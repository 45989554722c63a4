use db_link::commands::{Command, Packet, PayloadBuf, SYNC_BYTE, VERSION};
use db_link::parser::{Error, Parser};

fn buf(bytes: &[u8]) -> PayloadBuf {
    PayloadBuf::from_slice(bytes).unwrap()
}

#[test]
pub fn test_parse_buffer() {
    let buffer = [SYNC_BYTE, VERSION, Command::Echo as u8, 5, b'h', b'e', b'l', b'l', b'o'];
    let mut parser = Parser::new();
    let output = parser.parse(&buffer).unwrap();
    assert_eq!(output, Packet::Echo(PayloadBuf::from_slice(b"hello").unwrap()));
}

#[test]
pub fn test_multi_parse() {
    let buffer = [SYNC_BYTE, VERSION, Command::Echo as u8, 2, b'h', b'i'];
    let mut parser = Parser::new();
    let output = parser.parse(&buffer).unwrap();
    assert_eq!(output, Packet::Echo(PayloadBuf::from_slice(b"hi").unwrap()));
    let buffer2 = [SYNC_BYTE, VERSION, Command::Echo as u8, 3, b'b', b'y', b'e'];
    let output2 = parser.parse(&buffer2).unwrap();
    assert_eq!(output2, Packet::Echo(PayloadBuf::from_slice(b"bye").unwrap()));
}

#[test]
pub fn test_unaligned_parse() {
    let buffer = [
        b'o',
        b'h',
        SYNC_BYTE,
        VERSION,
        Command::Echo as u8,
        5,
        b'h',
        b'e',
        b'l',
        b'l',
        b'o',
    ];
    let mut parser = Parser::new();
    let output = parser.parse(&buffer).unwrap();
    assert_eq!(output, Packet::Echo(PayloadBuf::from_slice(b"hello").unwrap()));
}

#[test]
pub fn test_partial_header() {
    let buffer = [SYNC_BYTE, VERSION];
    let mut parser = Parser::new();
    if let Err(output) = parser.parse(&buffer) {
        assert_eq!(output, Error::InCompleteHeader);
    } else {
        assert!(false, "got ok but expected error")
    }
}

#[test]
pub fn test_wrong_version() {
    let buffer = [SYNC_BYTE, VERSION + 1, Command::GetParamList as u8, 0];
    let mut parser = Parser::new();
    if let Err(output) = parser.parse(&buffer) {
        assert_eq!(output, Error::InvalidVersion);
    } else {
        assert!(false, "got ok but expected error")
    }
}

#[test]
pub fn test_no_sync() {
    let buffer = [VERSION + 1, Command::GetParamList as u8, 0];
    let mut parser = Parser::new();
    if let Err(output) = parser.parse(&buffer) {
        assert_eq!(output, Error::NoSyncByte);
    } else {
        assert!(false, "got ok but expected error")
    }
}

#[test]
fn byte_at_a_time_gives_the_same_packet() {
    let frame = Packet::SetParam(buf(b"key=value")).serialize_vec();
    let mut whole = Parser::new();
    assert_eq!(whole.parse(&frame), Ok(Packet::SetParam(buf(b"key=value"))));

    let mut parser = Parser::new();
    let mut emitted = vec![];
    for (i, b) in frame.iter().enumerate() {
        match parser.parse(&[*b]) {
            Ok(p) => emitted.push(p),
            Err(e) => {
                let expected = if i < 3 { Error::InCompleteHeader } else { Error::InCompletePayload };
                assert_eq!(e, expected);
            }
        }
    }
    assert_eq!(emitted, vec![Packet::SetParam(buf(b"key=value"))]);
}

#[test]
fn every_two_way_split_gives_the_same_packet() {
    let frame = Packet::Response(buf(b"abcdef")).serialize_vec();
    for cut in 0..=frame.len() {
        let mut parser = Parser::new();
        let first = parser.parse(&frame[..cut]);
        let second = parser.parse(&frame[cut..]);
        let emitted: Vec<Packet> = [first, second].into_iter().filter_map(|r| r.ok()).collect();
        assert_eq!(emitted, vec![Packet::Response(buf(b"abcdef"))]);
    }
}

#[test]
fn leading_garbage_is_skipped() {
    let mut stream = vec![0x00, 0x42, 0xFF, VERSION, 0x10];
    stream.extend(Packet::GetParam(buf(b"VERSION")).serialize_vec());
    let mut parser = Parser::new();
    assert_eq!(parser.parse(&stream), Ok(Packet::GetParam(buf(b"VERSION"))));
    assert_eq!(parser.parse(&[]), Err(Error::NoSyncByte));
}

#[test]
fn wrong_version_then_recovery() {
    let mut parser = Parser::new();
    assert_eq!(parser.parse(&[SYNC_BYTE, 7, 0, 1, b'x']), Err(Error::InvalidVersion));
    let frame = Packet::Echo(buf(b"ok")).serialize_vec();
    assert_eq!(parser.parse(&frame), Ok(Packet::Echo(buf(b"ok"))));
}

#[test]
fn truncated_frame_resumes() {
    let frame = Packet::Echo(buf(b"hello")).serialize_vec();
    let mut parser = Parser::new();
    assert_eq!(parser.parse(&frame[..7]), Err(Error::InCompletePayload));
    assert_eq!(parser.parse(&frame[7..]), Ok(Packet::Echo(buf(b"hello"))));
}

#[test]
fn empty_payload_completes_at_header() {
    let mut parser = Parser::new();
    assert_eq!(parser.parse(&[SYNC_BYTE, VERSION, Command::GetParamList as u8]), Err(Error::InCompleteHeader));
    assert_eq!(parser.parse(&[0]), Ok(Packet::GetParamList));
    assert_eq!(parser.parse(&[SYNC_BYTE, VERSION, Command::Echo as u8, 0]), Ok(Packet::Echo(buf(b""))));
}

#[test]
fn bytes_after_a_packet_in_one_call_are_dropped() {
    let mut stream = Packet::Echo(buf(b"a")).serialize_vec();
    stream.extend(Packet::Echo(buf(b"b")).serialize_vec());
    let mut parser = Parser::new();
    assert_eq!(parser.parse(&stream), Ok(Packet::Echo(buf(b"a"))));
    assert_eq!(parser.parse(&[]), Err(Error::NoSyncByte));
}

#[test]
fn unknown_command_frame_yields_error_packet() {
    let mut parser = Parser::new();
    assert_eq!(parser.parse(&[SYNC_BYTE, VERSION, 99, 1, 0]), Ok(Packet::Error(buf(b"unknown command"))));
}

#[test]
fn reset_drops_the_frame_in_progress() {
    let mut parser = Parser::new();
    assert_eq!(parser.parse(&[SYNC_BYTE, VERSION, 0, 4, b'a']), Err(Error::InCompletePayload));
    parser.reset();
    assert_eq!(parser.parse(&[b'b', b'c', b'd']), Err(Error::NoSyncByte));
}
