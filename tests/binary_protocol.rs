use flurry::protocols::binary_protocol::{
    GET_PX_BIN, HELP_BIN, SET_PX_RGBA_BIN, SET_PX_RGB_BIN, SET_PX_W_BIN, SIZE_BIN,
};
use flurry::protocols::{BinaryParser, ProtocolError};
use flurry::{Color, Command, Response};

#[test]
fn binary_protocol_test_bin_help_parse() {
    let parser = BinaryParser::new();
    let thingy = parser.parse(&[HELP_BIN], true);
    assert_eq!(thingy.unwrap().0, Command::Help);
}

#[test]
fn binary_protocol_test_bin_size_parse() {
    let parser = BinaryParser::new();
    let thingy = parser.parse(&[SIZE_BIN, 3], true);
    assert_eq!(thingy.unwrap().0, Command::Size(3));
}

#[test]
fn binary_protocol_test_bin_px_set_w_parse() {
    let parser = BinaryParser::new();
    let thingy = parser.parse(&[SET_PX_W_BIN, 0x01, 0x69, 0x42, 0x42, 0x69, 0x82], true);
    assert_eq!(
        thingy.unwrap().0,
        Command::SetPixel(1, 0x4269, 0x6942, Color::W8(0x82))
    );
}

#[test]
fn binary_protocol_test_bin_px_set_rgb_parse() {
    let parser = BinaryParser::new();
    let thingy = parser.parse(
        &[SET_PX_RGB_BIN, 0x01, 0x69, 0x42, 0x42, 0x69, 0x82, 0x00, 0xff],
        true,
    );
    assert_eq!(
        thingy.unwrap().0,
        Command::SetPixel(1, 0x4269, 0x6942, Color::RGB24(0x82, 0x00, 0xff))
    );
}

#[test]
fn binary_protocol_test_bin_px_set_rgba_parse() {
    let parser = BinaryParser::new();
    let thingy = parser.parse(
        &[SET_PX_RGBA_BIN, 0x01, 0x69, 0x42, 0x42, 0x69, 0x82, 0x00, 0xff, 0xa0],
        true,
    );
    assert_eq!(
        thingy.unwrap().0,
        Command::SetPixel(1, 0x4269, 0x6942, Color::RGBA32(0x82, 0x00, 0xff, 0xa0))
    );
}

#[test]
fn binary_protocol_test_bin_px_get_parse() {
    let parser = BinaryParser::new();
    let thingy = parser.parse(&[GET_PX_BIN, 0x03, 0x69, 0x42, 0x42, 0x69], true);
    assert_eq!(thingy.unwrap().0, Command::GetPixel(3, 0x4269, 0x6942));
}

#[test]
fn binary_protocol_test_bin_parse_multiple() {
    let parser = BinaryParser::new();
    let mut input = vec![SET_PX_RGB_BIN, 0x01, 0x69, 0x42, 0x42, 0x69, 0x82, 0x00, 0xff];
    input.extend_from_slice(&[
        SET_PX_RGBA_BIN, 0x01, 0x69, 0x42, 0x42, 0x69, 0x82, 0x00, 0xff, 0xa0,
    ]);
    let (thingy, n) = parser.parse(&input, true).unwrap();
    let (thingy2, m) = parser.parse(&input[n..], true).unwrap();
    assert_eq!(
        thingy,
        Command::SetPixel(1, 0x4269, 0x6942, Color::RGB24(0x82, 0x00, 0xff))
    );
    assert_eq!(
        thingy2,
        Command::SetPixel(1, 0x4269, 0x6942, Color::RGBA32(0x82, 0x00, 0xff, 0xa0))
    );
    assert_eq!(n + m, input.len());
}

#[test]
fn binary_frame_round_trip() {
    let parser = BinaryParser::new();
    let frames: Vec<(Vec<u8>, Command)> = vec![
        (vec![0x68], Command::Help),
        (vec![0x73, 9], Command::Size(9)),
        (vec![0x20, 2, 0x34, 0x12, 0x78, 0x56], Command::GetPixel(2, 0x1234, 0x5678)),
        (vec![0x82, 0, 1, 0, 2, 0, 7], Command::SetPixel(0, 1, 2, Color::W8(7))),
        (
            vec![0x80, 0, 0x05, 0x00, 0x07, 0x00, 0xAA, 0xBB, 0xCC],
            Command::SetPixel(0, 5, 7, Color::RGB24(0xAA, 0xBB, 0xCC)),
        ),
        (
            vec![0x81, 0, 0x01, 0x00, 0x01, 0x00, 0, 0, 0, 0],
            Command::SetPixel(0, 1, 1, Color::RGBA32(0, 0, 0, 0)),
        ),
    ];
    for (mut bytes, command) in frames {
        let len = bytes.len();
        bytes.push(0x68);
        assert_eq!(parser.parse(&bytes, false), Ok((command, len)));
    }
}

#[test]
fn binary_unknown_byte_is_invalid() {
    let parser = BinaryParser::new();
    assert_eq!(parser.parse(&[0x00], false), Err(ProtocolError::InvalidInput));
    assert_eq!(parser.parse(&[0x21, 0, 0], false), Err(ProtocolError::InvalidInput));
}

#[test]
fn binary_short_frames() {
    let parser = BinaryParser::new();
    assert_eq!(parser.parse(&[], true), Err(ProtocolError::UnexpectedEof));
    assert_eq!(parser.parse(&[], false), Err(ProtocolError::Incomplete));
    assert_eq!(parser.parse(&[0x20, 0, 1], true), Err(ProtocolError::UnexpectedEof));
    assert_eq!(parser.parse(&[0x20, 0, 1], false), Err(ProtocolError::Incomplete));
}

#[test]
fn binary_change_canvas_is_unsupported() {
    let mut parser = BinaryParser::new();
    assert_eq!(parser.change_canvas(0), Err(ProtocolError::Unsupported));
}

#[test]
fn binary_responses() {
    let parser = BinaryParser::new();
    let mut out = Vec::new();
    parser.unparse(Response::Size(800, 600), &mut out);
    assert_eq!(out, vec![0x20, 0x03, 0x58, 0x02]);
    out.clear();
    parser.unparse(Response::GetPixel(1, 2, [9, 8, 7]), &mut out);
    assert_eq!(out, vec![9, 8, 7]);
    out.clear();
    parser.unparse(Response::Help, &mut out);
    let text = String::from_utf8(out).unwrap();
    assert!(text.starts_with("\nYou found the binary protocol help text\n"));
    assert!(text.contains("sending (68)"));
    assert!(text.contains("send (73)"));
    assert!(text.contains("use (80)"));
}
