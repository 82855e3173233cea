use flurry::stream::Multipart;
use flurry::utils::{Drain, RepeatSome};
use flurry::webapi::{make_stats, recording_path, Timestamp};
use flurry::Color;

#[test]
fn multipart_frames() {
    let headers = vec![(b"content-type".to_vec(), b"image/jpeg".to_vec())];
    let m = Multipart::with_boundary(b"abc".to_vec(), headers.clone(), false);
    assert_eq!(
        m.frame(&[0xFF, 0xD8, 0xFF]),
        b"\r\n--abc\r\ncontent-type: image/jpeg\r\n\r\n\xFF\xD8\xFF".to_vec()
    );
    let first = Multipart::with_boundary(b"abc".to_vec(), headers, true);
    assert_eq!(first.frame(b"x"), b"--abc\r\ncontent-type: image/jpeg\r\n\r\nx".to_vec());
    assert_eq!(
        m.content_type(),
        b"multipart/x-mixed-replace; boundary=abc".to_vec()
    );
}

#[test]
fn multipart_random_boundary() {
    let m = Multipart::new(10, vec![]);
    assert_eq!(m.boundary().len(), 10);
    assert!(m.boundary().iter().all(|b| *b >= 32 && *b != 127));
    assert_eq!(m.frame(b""), [b"\r\n--".to_vec(), m.boundary().clone(), b"\r\n\r\n".to_vec()].concat());
}

#[test]
fn stats_message() {
    assert_eq!(make_stats(3, 1234567), b"{\"c\":3,\"p\":1234567}".to_vec());
    assert_eq!(make_stats(0, 0), b"{\"c\":0,\"p\":0}".to_vec());
}

#[test]
fn recording_paths() {
    let t = Timestamp { year: 2024, month: 3, day: 9, hour: 7, minute: 5, second: 0 };
    assert_eq!(
        String::from_utf8(recording_path(&t)).unwrap(),
        "./recordings/2024-03-09_07-05-00.jpg"
    );
}

#[test]
fn color_bytes_and_hex() {
    assert_eq!(Color::W8(0x80).to_bytes(), [0x80, 0x80, 0x80, 0xFF]);
    assert_eq!(Color::RGB24(1, 2, 3).to_cell(), 0x010203FF);
    assert_eq!(Color::RGBA32(1, 2, 3, 4).to_cell(), 0x01020304);
    assert_eq!(String::from_utf8(Color::RGB24(0xab, 0, 0x1f).to_hex_string()).unwrap(), "#AB001FFF");
    assert_eq!(String::from_utf8(Color::W8(0x0c).to_hex_string()).unwrap(), "#0C0C0CFF");
    let c = Color::random();
    assert_eq!(c.to_bytes().len(), 4);
}

#[test]
fn repeat_and_drain() {
    let r = RepeatSome::new(b"abc");
    assert_eq!(r.fill(0), Vec::<u8>::new());
    assert_eq!(r.fill(3), Vec::<u8>::new());
    assert_eq!(r.fill(4), b"abc".to_vec());
    assert_eq!(r.fill(7), b"abcabc".to_vec());
    assert_eq!(r.fill(6), b"abc".to_vec());
    assert_eq!(Drain::default().write(b"hello"), 5);
}
