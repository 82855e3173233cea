use flurry::grid::{Flut, Grid};
use flurry::protocols::binary_protocol::BINARY_HELP_TEXT;
use flurry::protocols::{PaletteParser, ProtocolError};
use flurry::session::{ParserTypes, Session, Status};
use flurry::{get_pixel, set_pixel_rgba, Color};

fn canvases() -> Vec<Flut<u32>> {
    vec![Flut::init(800, 600, 0xff00ffff)]
}

fn run(session: &mut Session, grids: &mut Vec<Flut<u32>>, input: &[u8]) -> (Vec<u8>, Status, u64) {
    let mut out = Vec::new();
    let mut pos = 0;
    let mut pixels = 0;
    loop {
        let p = session.process(grids, &input[pos..], true, &mut out);
        pos += p.consumed;
        pixels += p.pixels;
        if p.status != Status::Continue || (p.pixels == 0 && pos == input.len()) {
            return (out, p.status, pixels);
        }
    }
}

#[test]
fn binary_set_then_text_read() {
    let mut grids = canvases();
    let mut a = Session::with_parser(ParserTypes::BinaryParser(Default::default())).unwrap();
    let (out, status, _) = run(
        &mut a,
        &mut grids,
        &[0x80, 0x00, 0x05, 0x00, 0x07, 0x00, 0xAA, 0xBB, 0xCC],
    );
    assert!(out.is_empty());
    assert_eq!(status, Status::Closed);
    let mut b = Session::new();
    let (out, status, _) = run(&mut b, &mut grids, b"PX 5 7\n");
    assert_eq!(out, b"PX 5 7 AABBCC\n".to_vec());
    assert_eq!(status, Status::Closed);
}

#[test]
fn white_shorthand_read_back() {
    let mut grids = canvases();
    let mut s = Session::new();
    let (out, _, _) = run(&mut s, &mut grids, b"PX 0 0 80\nPX 0 0\n");
    assert_eq!(out, b"PX 0 0 808080\n".to_vec());
    assert_eq!(grids[0].get(0, 0), Some(&0x808080ff));
}

#[test]
fn rgba_replaces_without_blending() {
    let mut grids = canvases();
    let mut s = Session::new();
    let mut input = b"PX 1 1 FFFFFF\nPROTOCOL binary\n".to_vec();
    input.extend_from_slice(&[0x81, 0x00, 0x01, 0x00, 0x01, 0x00, 0x00, 0x00, 0x00, 0x00]);
    run(&mut s, &mut grids, &input);
    assert_eq!(grids[0].get(1, 1), Some(&0));
    let mut t = Session::new();
    let (out, _, _) = run(&mut t, &mut grids, b"PX 1 1\n");
    assert_eq!(out, b"PX 1 1 000000\n".to_vec());
}

#[test]
fn protocol_switch_then_binary_help() {
    let mut grids = canvases();
    let mut s = Session::new();
    let mut input = b"PROTOCOL binary\n".to_vec();
    input.push(0x68);
    let (out, status, _) = run(&mut s, &mut grids, &input);
    assert_eq!(out, BINARY_HELP_TEXT.as_bytes().to_vec());
    assert_eq!(status, Status::Closed);
    assert!(matches!(s.parser(), ParserTypes::BinaryParser(_)));
}

#[test]
fn out_of_bounds_read_fails_session() {
    let mut grids = canvases();
    let mut s = Session::new();
    let (out, status, _) = run(&mut s, &mut grids, b"PX 800 0\n");
    assert!(out.is_empty());
    assert_eq!(status, Status::Failed(ProtocolError::InvalidInput));
}

#[test]
fn size_and_protocols_answers() {
    let mut grids = canvases();
    let mut s = Session::new();
    let (out, _, _) = run(&mut s, &mut grids, b"SIZE\nPROTOCOLS\n");
    assert_eq!(out, b"SIZE 800 600\nEnabled: text\nEnabled: binary\n".to_vec());
}

#[test]
fn canvas_changes() {
    let mut grids = canvases();
    let mut s = Session::new();
    let (_, status, _) = run(&mut s, &mut grids, b"CANVAS 0\nSIZE\n");
    assert_eq!(status, Status::Closed);
    let mut t = Session::new();
    let (_, status, _) = run(&mut t, &mut grids, b"CANVAS 1\n");
    assert_eq!(status, Status::Failed(ProtocolError::InvalidInput));
    let mut u = Session::with_parser(ParserTypes::BinaryParser(Default::default())).unwrap();
    let (out, status, _) = run(&mut u, &mut grids, &[0x73, 1]);
    assert!(out.is_empty());
    assert_eq!(status, Status::Failed(ProtocolError::InvalidInput));
}

#[test]
fn malformed_input_fails_session() {
    let mut grids = canvases();
    let mut s = Session::new();
    let (_, status, _) = run(&mut s, &mut grids, b"PX 1 2 3 4\n");
    assert_eq!(status, Status::Failed(ProtocolError::InvalidInput));
}

#[test]
fn incomplete_input_waits() {
    let mut grids = canvases();
    let mut s = Session::new();
    let mut out = Vec::new();
    let p = s.process(&mut grids, b"PX 1 2 ff\nPX 3", false, &mut out);
    assert_eq!(p.consumed, 10);
    assert_eq!(p.status, Status::Continue);
    assert_eq!(p.pixels, 0);
}

#[test]
fn counter_flushes_every_batch_of_in_bounds_writes() {
    let mut grids = canvases();
    let mut s = Session::new();
    let mut input = Vec::new();
    for i in 0..2500u32 {
        if i % 2 == 0 {
            input.extend_from_slice(format!("PX {} 0 ff\n", i % 800).as_bytes());
        } else {
            input.extend_from_slice(b"PX 900 0 ff\n");
        }
    }
    let mut out = Vec::new();
    let mut pos = 0;
    let mut flushes = Vec::new();
    loop {
        let p = s.process(&mut grids, &input[pos..], true, &mut out);
        pos += p.consumed;
        if p.pixels > 0 {
            flushes.push(p.pixels);
        }
        if p.status != Status::Continue {
            assert_eq!(p.status, Status::Closed);
            break;
        }
    }
    assert_eq!(flushes, vec![500, 500]);
    assert_eq!(s.close(), 250);
    assert_eq!(s.close(), 0);
}

#[test]
fn palette_session_change_color() {
    let mut grids = canvases();
    let colors = vec![Color::W8(0); 256];
    let parser = PaletteParser::from_colors(colors).unwrap();
    let mut s = Session::with_parser(ParserTypes::PaletteParser(parser)).unwrap();
    let (_, status, _) = run(
        &mut s,
        &mut grids,
        &[0x22, 4, 1, 2, 3, 0x21, 0, 0, 9, 0, 8, 4],
    );
    assert_eq!(status, Status::Closed);
    assert_eq!(grids[0].get(9, 8), Some(&0x010203ff));
}

#[test]
fn pixel_helpers() {
    let mut grids = canvases();
    assert!(set_pixel_rgba(&mut grids, 0, 3, 4, 0x01020304));
    assert!(!set_pixel_rgba(&mut grids, 1, 3, 4, 0x01020304));
    assert!(!set_pixel_rgba(&mut grids, 0, 800, 4, 0x01020304));
    assert_eq!(get_pixel(&grids, 0, 3, 4), Some(0x01020304));
    assert_eq!(get_pixel(&grids, 1, 3, 4), None);
    assert_eq!(get_pixel(&grids, 0, 3, 600), None);
}
