use flurry::protocols::{PaletteParser, ProtocolError};
use flurry::{Color, Command, Response};

fn palette() -> PaletteParser {
    let mut colors = Vec::new();
    for i in 0..256u32 {
        colors.push(Color::RGB24(i as u8, 0, 255 - i as u8));
    }
    PaletteParser::from_colors(colors).unwrap()
}

#[test]
fn palette_from_colors_needs_256() {
    assert!(PaletteParser::from_colors(vec![Color::W8(1); 255]).is_none());
    assert!(PaletteParser::from_colors(vec![Color::W8(1); 256]).is_some());
}

#[test]
fn palette_default_has_256_colors() {
    let parser = PaletteParser::default();
    let mut out = Vec::new();
    parser.unparse(Response::Help, &mut out);
    assert_eq!(out.len(), 1024);
}

#[test]
fn palette_parse_frames() {
    let parser = palette();
    assert_eq!(parser.parse(&[0x68], true), Ok((Command::Help, 1)));
    assert_eq!(parser.parse(&[0x73, 2], true), Ok((Command::Size(2), 2)));
    assert_eq!(
        parser.parse(&[0x20, 1, 0x12, 0x34, 0x00, 0x05], true),
        Ok((Command::GetPixel(1, 0x1234, 5), 6))
    );
    assert_eq!(
        parser.parse(&[0x21, 0, 0x00, 0x01, 0x00, 0x02, 10], true),
        Ok((Command::SetPixel(0, 1, 2, Color::RGB24(10, 0, 245)), 7))
    );
    assert_eq!(
        parser.parse(&[0x22, 7, 1, 2, 3], true),
        Ok((Command::ChangeColor(7, Color::RGB24(1, 2, 3)), 5))
    );
    assert_eq!(parser.parse(&[0x80], true), Err(ProtocolError::InvalidInput));
    assert_eq!(parser.parse(&[0x21, 0, 0], false), Err(ProtocolError::Incomplete));
}

#[test]
fn palette_change_color_and_help() {
    let mut parser = palette();
    parser.change_color(0, Color::W8(9));
    assert_eq!(
        parser.parse(&[0x21, 0, 0, 0, 0, 0, 0], true),
        Ok((Command::SetPixel(0, 0, 0, Color::W8(9)), 7))
    );
    let mut out = Vec::new();
    parser.unparse(Response::Help, &mut out);
    assert_eq!(&out[0..8], &[9, 9, 9, 255, 1, 0, 254, 255]);
    assert_eq!(parser.change_canvas(0), Err(ProtocolError::Unsupported));
}

#[test]
fn palette_size_is_big_endian() {
    let parser = palette();
    let mut out = Vec::new();
    parser.unparse(Response::Size(800, 600), &mut out);
    assert_eq!(out, vec![0x03, 0x20, 0x02, 0x58]);
}
