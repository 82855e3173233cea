use flurry::protocols::stateful::{
    GET_PX_BIN, HELP_BIN, LOCK, SET_CANVAS_BIN, SET_PX_RGBA_BIN, SET_PX_RGB_BIN, SET_PX_W_BIN,
    SIZE_BIN,
};
use flurry::protocols::{ProtocolError, StateParser};
use flurry::{Color, Command, Response};

#[test]
fn stateful_test_bin_help_parse() {
    let parser = StateParser::default();
    assert_eq!(parser.parse(&[HELP_BIN], true).unwrap().0, Command::Help);
}

#[test]
fn stateful_test_bin_size_parse() {
    let parser = StateParser::default();
    assert_eq!(parser.parse(&[SIZE_BIN], true).unwrap().0, Command::Size(0));
}

#[test]
fn stateful_test_canvas_parse() {
    let parser = StateParser::default();
    assert_eq!(
        parser.parse(&[SET_CANVAS_BIN, 3], true).unwrap().0,
        Command::ChangeCanvas(3)
    );
}

#[test]
fn stateful_test_bin_px_set_w_parse() {
    let parser = StateParser::default();
    assert_eq!(
        parser.parse(&[SET_PX_W_BIN, 0x69, 0x42, 0x42, 0x69, 0x82], true).unwrap().0,
        Command::SetPixel(0, 0x6942, 0x4269, Color::W8(0x82))
    );
}

#[test]
fn stateful_test_bin_px_set_rgb_parse() {
    let parser = StateParser::default();
    assert_eq!(
        parser
            .parse(&[SET_PX_RGB_BIN, 0x42, 0x69, 0x69, 0x42, 0x82, 0x00, 0xff], true)
            .unwrap()
            .0,
        Command::SetPixel(0, 0x4269, 0x6942, Color::RGB24(0x82, 0x00, 0xff))
    );
}

#[test]
fn stateful_test_bin_px_set_rgba_parse() {
    let parser = StateParser::default();
    assert_eq!(
        parser
            .parse(
                &[SET_PX_RGBA_BIN, 0x42, 0x69, 0x69, 0x42, 0x82, 0x00, 0xff, 0xa0],
                true
            )
            .unwrap()
            .0,
        Command::SetPixel(0, 0x4269, 0x6942, Color::RGBA32(0x82, 0x00, 0xff, 0xa0))
    );
}

#[test]
fn stateful_test_bin_px_get_parse() {
    let parser = StateParser::default();
    let thingy = parser.parse(&[GET_PX_BIN, 0x69, 0x42, 0x42, 0x69], true);
    assert_eq!(thingy.unwrap().0, Command::GetPixel(0, 0x6942, 0x4269));
}

#[test]
fn stateful_test_bin_parse_multiple() {
    let parser = StateParser::default();
    let mut input = vec![SET_PX_RGB_BIN, 0x69, 0x42, 0x42, 0x69, 0x82, 0x00, 0xff];
    input.extend_from_slice(&[SET_PX_RGBA_BIN, 0x69, 0x42, 0x42, 0x70, 0x82, 0x00, 0xff, 0xa0]);
    let (thingy, n) = parser.parse(&input, true).unwrap();
    let (thingy2, _) = parser.parse(&input[n..], true).unwrap();
    assert_eq!(
        thingy,
        Command::SetPixel(0, 0x6942, 0x4269, Color::RGB24(0x82, 0x00, 0xff))
    );
    assert_eq!(
        thingy2,
        Command::SetPixel(0, 0x6942, 0x4270, Color::RGBA32(0x82, 0x00, 0xff, 0xa0))
    );
}

#[test]
fn stateful_errors_and_responses() {
    let mut parser = StateParser::default();
    assert_eq!(parser.parse(&[0xC0, 0, 1], true), Err(ProtocolError::InvalidInput));
    assert_eq!(parser.parse(&[GET_PX_BIN, 0], true), Err(ProtocolError::UnexpectedEof));
    assert_eq!(parser.change_canvas(1), Err(ProtocolError::Unsupported));
    let mut out = Vec::new();
    parser.unparse(Response::Size(800, 600), &mut out);
    assert_eq!(out, vec![0x03, 0x20, 0x02, 0x58]);
}

#[test]
fn test_lock_parse() {
    let parser = StateParser::default();
    let mut input = vec![LOCK, 0, 4, SET_PX_RGB_BIN, 0b10100110, 0x31, 0x32, 0x88, 0x92];
    input.extend_from_slice(&[0x00, 0xaa, 0x10]);
    input.extend_from_slice(&[0x11, 0xbb, 0x20]);
    input.extend_from_slice(&[0x22, 0xcc, 0x30]);
    input.extend_from_slice(&[0x33, 0xdd, 0x40]);
    assert_eq!(
        parser.parse_locked(&input, true).unwrap().0,
        vec![
            Command::SetPixel(0, 0x3100, 0x32aa, Color::RGB24(0x10, 0x88, 0x92)),
            Command::SetPixel(0, 0x3111, 0x32bb, Color::RGB24(0x20, 0x88, 0x92)),
            Command::SetPixel(0, 0x3122, 0x32cc, Color::RGB24(0x30, 0x88, 0x92)),
            Command::SetPixel(0, 0x3133, 0x32dd, Color::RGB24(0x40, 0x88, 0x92))
        ]
    );
}

#[test]
fn lock_frame_edges() {
    let parser = StateParser::default();
    assert_eq!(parser.parse_locked(&[LOCK, 0, 1, 0x20, 0], true), Err(ProtocolError::InvalidInput));
    assert_eq!(parser.parse_locked(&[LOCK, 0, 1, SET_PX_W_BIN], false), Err(ProtocolError::Incomplete));
    assert_eq!(
        parser.parse_locked(&[LOCK, 0, 2, SET_PX_W_BIN, 0xF8, 0, 1, 0, 2, 9], true),
        Ok((vec![Command::SetPixel(0, 1, 2, Color::W8(9)); 2], 10))
    );
    assert_eq!(
        parser.parse_locked(&[LOCK, 0, 1, SET_PX_W_BIN, 0, 0, 1, 0], true),
        Err(ProtocolError::UnexpectedEof)
    );
    assert_eq!(parser.parse_locked(&[LOCK, 0, 0, SET_PX_W_BIN, 0], true), Ok((vec![], 5)));
}
