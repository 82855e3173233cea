use flurry::protocols::text_protocol::{parse_color, val};
use flurry::protocols::{ProtocolError, TextParser};
use flurry::{Color, Command, Protocol, ProtocolStatus, Response};

fn parse_one(parser: &TextParser, input: &[u8]) -> Command {
    parser.parse(input, true).unwrap().0
}

#[test]
fn text_protocol_test_help_parse() {
    let parser = TextParser::default();
    assert_eq!(parse_one(&parser, b"HELP\n"), Command::Help);
}

#[test]
fn text_protocol_test_size_parse() {
    let parser = TextParser::default();
    assert_eq!(parse_one(&parser, b"SIZE\n"), Command::Size(0));
}

#[test]
fn text_protocol_test_canvas_parse() {
    let parser = TextParser::default();
    assert_eq!(parse_one(&parser, b"CANVAS 12\n"), Command::ChangeCanvas(12));
}

#[test]
fn text_protocol_test_px_set_w_parse() {
    let parser = TextParser::default();
    assert_eq!(
        parse_one(&parser, b"PX 28283 29991 81\n"),
        Command::SetPixel(0, 28283, 29991, Color::W8(0x81))
    );
}

#[test]
fn test_px_set_w_parse_caps() {
    let parser = TextParser::default();
    assert_eq!(
        parse_one(&parser, b"PX 28283 29991 AB\n"),
        Command::SetPixel(0, 28283, 29991, Color::W8(0xAB))
    );
}

#[test]
fn text_protocol_test_px_set_rgb_parse() {
    let parser = TextParser::default();
    assert_eq!(
        parse_one(&parser, b"PX 28283 29991 8800ff\n"),
        Command::SetPixel(0, 28283, 29991, Color::RGB24(0x88, 0x00, 0xff))
    );
}

#[test]
fn test_px_set_rgb_parse_caps() {
    let parser = TextParser::default();
    assert_eq!(
        parse_one(&parser, b"PX 28283 29991 8800FA\n"),
        Command::SetPixel(0, 28283, 29991, Color::RGB24(0x88, 0x00, 0xfa))
    );
}

#[test]
fn text_protocol_test_px_set_rgba_parse() {
    let parser = TextParser::default();
    assert_eq!(
        parse_one(&parser, b"PX 28283 29991 8800ff28\n"),
        Command::SetPixel(0, 28283, 29991, Color::RGBA32(0x88, 0x00, 0xff, 0x28))
    );
}

#[test]
fn test_px_set_rgba_parse_caps() {
    let parser = TextParser::default();
    assert_eq!(
        parse_one(&parser, b"PX 28283 29991 AB0c3F88\n"),
        Command::SetPixel(0, 28283, 29991, Color::RGBA32(0xab, 0x0c, 0x3f, 0x88))
    );
}

#[test]
fn text_protocol_test_px_get_parse() {
    let parser = TextParser::default();
    assert_eq!(
        parse_one(&parser, b"PX 28283 29991\n"),
        Command::GetPixel(0, 28283, 29991)
    );
}

#[test]
fn text_protocol_parse_multiple() {
    let parser = TextParser::default();
    let input = b"CANVAS 12\nSIZE\n";
    let (thingy, n) = parser.parse(input, true).unwrap();
    let (thingy2, m) = parser.parse(&input[n..], true).unwrap();
    assert_eq!(thingy, Command::ChangeCanvas(12));
    assert_eq!(thingy2, Command::Size(0));
    assert_eq!((n, m), (10, 5));
}

#[test]
fn text_new_selects_canvas() {
    let parser = TextParser::new(3);
    assert_eq!(parse_one(&parser, b"SIZE\n"), Command::Size(3));
    assert_eq!(parse_one(&parser, b"PX 1 2\n"), Command::GetPixel(3, 1, 2));
}

#[test]
fn text_protocols_and_protocol_switch() {
    let parser = TextParser::default();
    assert_eq!(parse_one(&parser, b"PROTOCOLS\n"), Command::Protocols);
    assert_eq!(
        parse_one(&parser, b"PROTOCOL binary\n"),
        Command::ChangeProtocol(Protocol::Binary)
    );
    assert_eq!(
        parse_one(&parser, b"PROTOCOL text\n"),
        Command::ChangeProtocol(Protocol::Text)
    );
    assert_eq!(
        parser.parse(b"PROTOCOL palette\n", true),
        Err(ProtocolError::InvalidInput)
    );
}

#[test]
fn text_malformed_lines_are_invalid() {
    let parser = TextParser::default();
    for line in [
        &b"PX 1\n"[..],
        b"PX a 2\n",
        b"PX 65536 0\n",
        b"PX 1 2 zz\n",
        b"PX 1 2 123\n",
        b"PX 1  2\n",
        b"PX 1 2 ff 00\n",
        b"CANVAS 256\n",
        b"CANVAS\n",
        b"help\n",
        b"\n",
        b"HELP \xff\n",
        b"HELPX\n",
        b"SIZE 3\n",
        b"PROTOCOLSX\n",
        b"SIZES\n",
    ] {
        assert_eq!(parser.parse(line, true), Err(ProtocolError::InvalidInput));
    }
}

#[test]
fn text_decimal_edges() {
    let parser = TextParser::default();
    assert_eq!(parse_one(&parser, b"PX 65535 +7\n"), Command::GetPixel(0, 65535, 7));
    assert_eq!(parse_one(&parser, b"PX 007 0\r\n"), Command::GetPixel(0, 7, 0));
}

#[test]
fn text_stream_edges() {
    let parser = TextParser::default();
    assert_eq!(parser.parse(b"", true), Err(ProtocolError::UnexpectedEof));
    assert_eq!(parser.parse(b"PX 1 2", false), Err(ProtocolError::Incomplete));
    assert_eq!(parser.parse(b"PX 1 2", true), Ok((Command::GetPixel(0, 1, 2), 6)));
}

#[test]
fn text_change_canvas() {
    let mut parser = TextParser::default();
    assert_eq!(parser.change_canvas(0), Ok(()));
    assert_eq!(parser.change_canvas(1), Err(ProtocolError::InvalidInput));
    assert_eq!(parse_one(&parser, b"SIZE\n"), Command::Size(0));
}

#[test]
fn hex_pairs_and_colors() {
    assert_eq!(val(b'a', b'F'), Ok(0xaf));
    assert_eq!(val(b'0', b'9'), Ok(0x09));
    assert_eq!(val(b'g', b'0'), Err(ProtocolError::InvalidInput));
    assert_eq!(parse_color(b"80"), Ok(Color::W8(0x80)));
    assert_eq!(parse_color(b"aabbcc"), Ok(Color::RGB24(0xaa, 0xbb, 0xcc)));
    assert_eq!(parse_color(b"00000000"), Ok(Color::RGBA32(0, 0, 0, 0)));
    assert_eq!(parse_color(b"abc"), Err(ProtocolError::InvalidInput));
}

#[test]
fn text_responses() {
    let parser = TextParser::default();
    let mut out = Vec::new();
    parser.unparse(Response::Size(800, 600), &mut out);
    assert_eq!(out, b"SIZE 800 600\n".to_vec());
    out.clear();
    parser.unparse(Response::GetPixel(5, 7, [0xAA, 0xBB, 0x0C]), &mut out);
    assert_eq!(out, b"PX 5 7 AABB0C\n".to_vec());
    out.clear();
    parser.unparse(
        Response::Protocols(vec![
            ProtocolStatus::Enabled(Protocol::Text),
            ProtocolStatus::Disabled(Protocol::Binary),
        ]),
        &mut out,
    );
    assert_eq!(out, b"Enabled: text\nDisabled: binary\n".to_vec());
    out.clear();
    parser.unparse(Response::Help, &mut out);
    assert!(String::from_utf8(out).unwrap().starts_with("Flurry is a pixelflut implementation"));
}

#[test]
fn text_response_round_trip() {
    let parser = TextParser::default();
    let responses = vec![
        Response::Size(0, 65535),
        Response::Size(800, 600),
        Response::GetPixel(0, 0, [0, 0, 0]),
        Response::GetPixel(65535, 12, [0xff, 0x10, 0x0a]),
        Response::Protocols(vec![]),
        Response::Protocols(vec![
            ProtocolStatus::Disabled(Protocol::Binary),
            ProtocolStatus::Enabled(Protocol::Text),
            ProtocolStatus::Enabled(Protocol::Binary),
            ProtocolStatus::Disabled(Protocol::Text),
        ]),
    ];
    for response in responses {
        let mut out = Vec::new();
        parser.unparse(response.clone(), &mut out);
        assert_eq!(parser.parse_response(&out), Some(response));
    }
    assert_eq!(parser.parse_response(b"SIZE 1\n"), None);
    assert_eq!(parser.parse_response(b"Enabled: palette\n"), None);
}

#[test]
fn pixel_answer_reads_as_pixel_write() {
    let parser = TextParser::new(0);
    let mut out = Vec::new();
    parser.unparse(Response::GetPixel(5, 7, [0xAA, 0xBB, 0x0C]), &mut out);
    assert_eq!(
        parser.parse(&out, false),
        Ok((Command::SetPixel(0, 5, 7, Color::RGB24(0xAA, 0xBB, 0x0C)), out.len()))
    );
}

#[test]
fn text_bare_commands_allow_trailing_whitespace() {
    let parser = TextParser::default();
    assert_eq!(parse_one(&parser, b"HELP\r\n"), Command::Help);
    assert_eq!(parse_one(&parser, b"PROTOCOLS \n"), Command::Protocols);
    assert_eq!(parse_one(&parser, b"SIZE"), Command::Size(0));
}
