//! The line-oriented text codec.
use vstd::prelude::*;
use vstd::string::StringSliceAdditionalSpecFns;

use crate::config::{GRID_LENGTH, HELP_TEXT};
use crate::protocols::ProtocolError;
use crate::wire::{
    ascii, hex_digit_upper, lemma_ascii_bytes, slice_at,
    bytes_at, bytes_eq, dec_digits, has_at, hex_upper, push_decimal, push_hex_upper, push_str,
};
use crate::{Canvas, Color, Command, Coordinate, Protocol, ProtocolStatus, Response, ResponseView};

verus! {

pub const NEWLINE: u8 = 10;

pub const SPACE: u8 = 32;

pub const PLUS: u8 = 43;

/// Whitespace that is trimmed from the end of a line.
pub open spec fn is_ws(b: u8) -> bool {
    b == SPACE || (9 <= b && b <= 13)
}

/// `s` without its trailing whitespace.
pub open spec fn trim_end(s: Seq<u8>) -> Seq<u8>
    decreases s.len(),
{
    if s.len() > 0 && is_ws(s.last()) {
        trim_end(s.drop_last())
    } else {
        s
    }
}

/// The pieces of `s` between single spaces; two spaces in a row leave an
/// empty piece, and the empty sequence has one empty piece.
pub open spec fn fields(s: Seq<u8>) -> Seq<Seq<u8>>
    decreases s.len(),
{
    if s.len() == 0 {
        seq![Seq::empty()]
    } else {
        let f = fields(s.drop_last());
        if s.last() == SPACE {
            f.push(Seq::empty())
        } else {
            f.update(f.len() - 1, f.last().push(s.last()))
        }
    }
}

/// The first position at or after `i` that holds `b`, or the length of `s`.
pub open spec fn find_from(s: Seq<u8>, i: int, b: u8) -> int
    decreases s.len() - i,
{
    if i >= s.len() {
        s.len() as int
    } else if s[i] == b {
        i
    } else {
        find_from(s, i + 1, b)
    }
}

pub open spec fn all_ascii(s: Seq<u8>) -> bool {
    forall|i: int| 0 <= i < s.len() ==> s[i] < 128
}

pub open spec fn is_digit(b: u8) -> bool {
    48 <= b && b <= 57
}

pub open spec fn all_digits(s: Seq<u8>) -> bool {
    forall|i: int| 0 <= i < s.len() ==> is_digit(s[i])
}

/// The value of a run of decimal digits.
pub open spec fn dec_value(s: Seq<u8>) -> nat
    decreases s.len(),
{
    if s.len() == 0 {
        0
    } else {
        dec_value(s.drop_last()) * 10 + (s.last() - 48) as nat
    }
}

/// A decimal number: an optional `+`, then one or more digits, with a value
/// of at most `max`.
pub open spec fn parse_dec(s: Seq<u8>, max: nat) -> Option<nat> {
    let d = if s.len() > 0 && s[0] == PLUS {
        s.drop_first()
    } else {
        s
    };
    if d.len() > 0 && all_digits(d) && dec_value(d) <= max {
        Some(dec_value(d))
    } else {
        None
    }
}

/// The value of one hex digit of either case.
pub open spec fn hex_val(c: u8) -> Option<u8> {
    if 65 <= c && c <= 70 {
        Some((c - 55) as u8)
    } else if 97 <= c && c <= 102 {
        Some((c - 87) as u8)
    } else if 48 <= c && c <= 57 {
        Some((c - 48) as u8)
    } else {
        None
    }
}

/// The byte that two hex digits spell.
pub open spec fn hex_pair(c1: u8, c2: u8) -> Option<u8> {
    match (hex_val(c1), hex_val(c2)) {
        (Some(h), Some(l)) => Some((h * 16 + l) as u8),
        _ => None,
    }
}

/// The colour that a hex field spells: two digits are a grey, six an RGB
/// colour, eight an RGBA colour.
pub open spec fn parse_color_spec(t: Seq<u8>) -> Option<Color> {
    if t.len() == 2 {
        match hex_pair(t[0], t[1]) {
            Some(w) => Some(Color::W8(w)),
            None => None,
        }
    } else if t.len() == 6 {
        match (hex_pair(t[0], t[1]), hex_pair(t[2], t[3]), hex_pair(t[4], t[5])) {
            (Some(r), Some(g), Some(b)) => Some(Color::RGB24(r, g, b)),
            _ => None,
        }
    } else if t.len() == 8 {
        match (
            hex_pair(t[0], t[1]),
            hex_pair(t[2], t[3]),
            hex_pair(t[4], t[5]),
            hex_pair(t[6], t[7]),
        ) {
            (Some(r), Some(g), Some(b), Some(a)) => Some(Color::RGBA32(r, g, b, a)),
            _ => None,
        }
    } else {
        None
    }
}

/// `PX x y` and `PX x y color`, split into fields.
pub open spec fn pixel_command(f: Seq<Seq<u8>>, canvas: Canvas) -> Option<Command> {
    if (f.len() == 3 || f.len() == 4) && parse_dec(f[1], 65535) is Some && parse_dec(f[2], 65535) is Some {
        let x = parse_dec(f[1], 65535)->Some_0 as u16;
        let y = parse_dec(f[2], 65535)->Some_0 as u16;
        if f.len() == 3 {
            Some(Command::GetPixel(canvas, x, y))
        } else {
            match parse_color_spec(f[3]) {
                Some(c) => Some(Command::SetPixel(canvas, x, y, c)),
                None => None,
            }
        }
    } else {
        None
    }
}

/// `CANVAS n`, split into fields.
pub open spec fn canvas_command(f: Seq<Seq<u8>>) -> Option<Command> {
    if f.len() == 2 && parse_dec(f[1], 255) is Some {
        Some(Command::ChangeCanvas(parse_dec(f[1], 255)->Some_0 as u8))
    } else {
        None
    }
}

/// `PROTOCOL text` and `PROTOCOL binary`, split into fields.
pub open spec fn protocol_command(f: Seq<Seq<u8>>) -> Option<Command> {
    if f.len() == 2 && f[1] == "binary".spec_bytes() {
        Some(Command::ChangeProtocol(Protocol::Binary))
    } else if f.len() == 2 && f[1] == "text".spec_bytes() {
        Some(Command::ChangeProtocol(Protocol::Text))
    } else {
        None
    }
}

/// The command of one line, without its trailing whitespace: `HELP`,
/// `PROTOCOLS` and `SIZE` stand alone on their line, the others are followed
/// by their arguments; the canvas of `SIZE` and `PX` is the selected one.
pub open spec fn line_command(line: Seq<u8>, canvas: Canvas) -> Option<Command> {
    if !all_ascii(line) {
        None
    } else if trim_end(line) == "HELP".spec_bytes() {
        Some(Command::Help)
    } else if trim_end(line) == "PROTOCOLS".spec_bytes() {
        Some(Command::Protocols)
    } else if trim_end(line) == "SIZE".spec_bytes() {
        Some(Command::Size(canvas))
    } else if has_at(line, 0, "PX ".spec_bytes()) {
        pixel_command(fields(trim_end(line)), canvas)
    } else if has_at(line, 0, "CANVAS ".spec_bytes()) {
        canvas_command(fields(trim_end(line)))
    } else if has_at(line, 0, "PROTOCOL ".spec_bytes()) {
        protocol_command(fields(trim_end(line)))
    } else {
        None
    }
}

/// What the text codec decodes from the front of `s`: the first line up to
/// and with its newline, or at the end of the stream what is left.
pub open spec fn text_decode(s: Seq<u8>, eof: bool, canvas: Canvas) -> Result<
    (Command, usize),
    ProtocolError,
> {
    let k = find_from(s, 0, NEWLINE);
    if k < s.len() {
        match line_command(s.subrange(0, k + 1), canvas) {
            Some(c) => Ok((c, (k + 1) as usize)),
            None => Err(ProtocolError::InvalidInput),
        }
    } else if !eof {
        Err(ProtocolError::Incomplete)
    } else if s.len() == 0 {
        Err(ProtocolError::UnexpectedEof)
    } else {
        match line_command(s, canvas) {
            Some(c) => Ok((c, s.len() as usize)),
            None => Err(ProtocolError::InvalidInput),
        }
    }
}

pub proof fn lemma_find_from_bounds(s: Seq<u8>, i: int, b: u8)
    requires
        0 <= i <= s.len(),
    ensures
        i <= find_from(s, i, b) <= s.len(),
        find_from(s, i, b) < s.len() ==> s[find_from(s, i, b)] == b,
    decreases s.len() - i,
{
    if i < s.len() && s[i] != b {
        lemma_find_from_bounds(s, i + 1, b);
    }
}

/// Position of the first `b` in `s` at or after `from`, or the length.
pub fn find_byte(s: &[u8], from: usize, b: u8) -> (r: usize)
    requires
        from <= s@.len(),
    ensures
        r == find_from(s@, from as int, b),
{
    let mut i = from;
    while i < s.len()
        invariant
            from <= i <= s@.len(),
            find_from(s@, from as int, b) == find_from(s@, i as int, b),
        decreases s@.len() - i,
    {
        if s[i] == b {
            return i;
        }
        i += 1;
    }
    i
}

/// The length of `s` once its trailing whitespace is gone.
pub fn trim_end_len(s: &[u8]) -> (r: usize)
    ensures
        r <= s@.len(),
        trim_end(s@) == s@.subrange(0, r as int),
{
    let mut e = s.len();
    assert(s@.subrange(0, e as int) =~= s@);
    while e > 0 && (s[e - 1] == SPACE || (9 <= s[e - 1] && s[e - 1] <= 13))
        invariant
            e <= s@.len(),
            trim_end(s@) == trim_end(s@.subrange(0, e as int)),
        decreases e,
    {
        assert(s@.subrange(0, e as int).drop_last() =~= s@.subrange(0, e - 1));
        e -= 1;
    }
    e
}

/// The bounds of the fields of `s`.
pub fn split_spaces(s: &[u8]) -> (r: Vec<(usize, usize)>)
    ensures
        r@.len() == fields(s@).len(),
        forall|k: int| #![trigger r@[k]] 0 <= k < r@.len() ==> r@[k].0 <= r@[k].1 <= s@.len(),
        forall|k: int|
            0 <= k < r@.len() ==> #[trigger] fields(s@)[k] == s@.subrange(
                r@[k].0 as int,
                r@[k].1 as int,
            ),
{
    let mut out: Vec<(usize, usize)> = Vec::new();
    let mut start: usize = 0;
    let mut i: usize = 0;
    while i < s.len()
        invariant
            start <= i <= s@.len(),
            fields(s@.subrange(0, i as int)).len() == out@.len() + 1,
            forall|k: int| #![trigger out@[k]] 0 <= k < out@.len() ==> out@[k].0 <= out@[k].1 <= i,
            forall|k: int|
                0 <= k < out@.len() ==> #[trigger] fields(s@.subrange(0, i as int))[k]
                    == s@.subrange(out@[k].0 as int, out@[k].1 as int),
            fields(s@.subrange(0, i as int)).last() == s@.subrange(start as int, i as int),
        decreases s@.len() - i,
    {
        let ghost pre = s@.subrange(0, i as int);
        let ghost cur = s@.subrange(0, i + 1);
        let ghost old_out = out@;
        assert(cur.drop_last() =~= pre);
        assert(cur.last() == s@[i as int]);
        if s[i] == SPACE {
            assert(fields(cur) == fields(pre).push(Seq::empty()));
            let ghost old_start = start;
            let ghost old_i = i;
            out.push((start, i));
            assert(out@[old_out.len() as int] == (old_start, old_i));
            start = i + 1;
            i += 1;
            assert(s@.subrange(start as int, i as int) =~= Seq::<u8>::empty());
            assert forall|k: int| #![trigger out@[k]] 0 <= k < out@.len() implies out@[k].0 <= out@[k].1 <= i by {
                if k < old_out.len() {
                    assert(old_out[k] == out@[k]);
                    assert(old_out[k].1 <= old_i);
                }
            }
            assert forall|k: int|
                0 <= k < out@.len() implies #[trigger] fields(s@.subrange(0, i as int))[k]
                    == s@.subrange(out@[k].0 as int, out@[k].1 as int) by {
                if k < old_out.len() {
                    assert(fields(cur)[k] == fields(pre)[k]);
                }
            }
        } else {
            let ghost f = fields(pre);
            assert(fields(cur) == f.update(f.len() - 1, f.last().push(s@[i as int])));
            i += 1;
            assert(s@.subrange(start as int, i as int) =~= s@.subrange(start as int, i - 1).push(
                s@[i - 1],
            ));
            assert forall|k: int|
                0 <= k < out@.len() implies #[trigger] fields(s@.subrange(0, i as int))[k]
                    == s@.subrange(out@[k].0 as int, out@[k].1 as int) by {
                assert(fields(cur)[k] == f[k]);
            }
        }
    }
    assert(s@.subrange(0, s@.len() as int) =~= s@);
    let ghost old_out = out@;
    out.push((start, i));
    assert forall|k: int|
        0 <= k < out@.len() implies #[trigger] fields(s@)[k] == s@.subrange(
            out@[k].0 as int,
            out@[k].1 as int,
        ) by {
        if k < old_out.len() {
            assert(fields(s@.subrange(0, i as int))[k] == fields(s@)[k]);
        }
    }
    out
}


/// A command, or `InvalidInput` where there is none.
pub open spec fn or_invalid(o: Option<Command>) -> Result<Command, ProtocolError> {
    match o {
        Some(c) => Ok(c),
        None => Err(ProtocolError::InvalidInput),
    }
}

proof fn lemma_dec_prefix(d: Seq<u8>, k: int)
    requires
        all_digits(d),
        0 <= k <= d.len(),
    ensures
        dec_value(d.subrange(0, k)) <= dec_value(d),
    decreases d.len(),
{
    if k == d.len() {
        assert(d.subrange(0, k) =~= d);
    } else {
        assert(d.drop_last().subrange(0, k) =~= d.subrange(0, k));
        lemma_dec_prefix(d.drop_last(), k);
    }
}

/// Reads the decimal number in `s[lo..hi]`, of at most `max`.
pub fn parse_decimal(s: &[u8], lo: usize, hi: usize, max: u32) -> (r: Option<u32>)
    requires
        lo <= hi <= s@.len(),
        max <= 65535,
    ensures
        match r {
            Some(v) => parse_dec(s@.subrange(lo as int, hi as int), max as nat) == Some(v as nat),
            None => parse_dec(s@.subrange(lo as int, hi as int), max as nat) is None,
        },
{
    let ghost t = s@.subrange(lo as int, hi as int);
    let start = if lo < hi && s[lo] == PLUS {
        lo + 1
    } else {
        lo
    };
    let ghost d = s@.subrange(start as int, hi as int);
    assert(d =~= (if t.len() > 0 && t[0] == PLUS {
        t.drop_first()
    } else {
        t
    }));
    if start == hi {
        return None;
    }
    let mut v: u32 = 0;
    let mut i = start;
    while i < hi
        invariant
            start <= i <= hi <= s@.len(),
            d == s@.subrange(start as int, hi as int),
            t == s@.subrange(lo as int, hi as int),
            d == (if t.len() > 0 && t[0] == PLUS {
                t.drop_first()
            } else {
                t
            }),
            max <= 65535,
            v <= max,
            all_digits(s@.subrange(start as int, i as int)),
            v == dec_value(s@.subrange(start as int, i as int)),
        decreases hi - i,
    {
        let c = s[i];
        if c < 48 || c > 57 {
            assert(!is_digit(d[i - start]));
            return None;
        }
        let ghost p = s@.subrange(start as int, i + 1);
        assert(p.drop_last() =~= s@.subrange(start as int, i as int));
        v = v * 10 + (c - 48) as u32;
        i += 1;
        if v > max {
            proof {
                if all_digits(d) {
                    assert(d.subrange(0, i - start) =~= p);
                    lemma_dec_prefix(d, i - start);
                }
            }
            return None;
        }
    }
    assert(s@.subrange(start as int, i as int) =~= d);
    Some(v)
}

/// The value of one hex digit of either case.
pub fn hex_digit(c: u8) -> (r: Option<u8>)
    ensures
        r == hex_val(c),
{
    if 65 <= c && c <= 70 {
        Some(c - 55)
    } else if 97 <= c && c <= 102 {
        Some(c - 87)
    } else if 48 <= c && c <= 57 {
        Some(c - 48)
    } else {
        None
    }
}

/// The byte that the hex digits `c1` and `c2` spell.
pub fn val(c1: u8, c2: u8) -> (r: Result<u8, ProtocolError>)
    ensures
        match hex_pair(c1, c2) {
            Some(v) => r == Ok::<u8, ProtocolError>(v),
            None => r == Err::<u8, ProtocolError>(ProtocolError::InvalidInput),
        },
{
    match (hex_digit(c1), hex_digit(c2)) {
        (Some(h), Some(l)) => Ok(h * 16 + l),
        _ => Err(ProtocolError::InvalidInput),
    }
}

/// The colour of a hex field.
pub fn parse_color(t: &[u8]) -> (r: Result<Color, ProtocolError>)
    ensures
        match parse_color_spec(t@) {
            Some(c) => r == Ok::<Color, ProtocolError>(c),
            None => r == Err::<Color, ProtocolError>(ProtocolError::InvalidInput),
        },
{
    if t.len() == 2 {
        match val(t[0], t[1]) {
            Ok(w) => Ok(Color::W8(w)),
            Err(e) => Err(e),
        }
    } else if t.len() == 6 {
        match (val(t[0], t[1]), val(t[2], t[3]), val(t[4], t[5])) {
            (Ok(r), Ok(g), Ok(b)) => Ok(Color::RGB24(r, g, b)),
            _ => Err(ProtocolError::InvalidInput),
        }
    } else if t.len() == 8 {
        match (val(t[0], t[1]), val(t[2], t[3]), val(t[4], t[5]), val(t[6], t[7])) {
            (Ok(r), Ok(g), Ok(b), Ok(a)) => Ok(Color::RGBA32(r, g, b, a)),
            _ => Err(ProtocolError::InvalidInput),
        }
    } else {
        Err(ProtocolError::InvalidInput)
    }
}

/// Whether every byte of `s` is ASCII.
pub fn is_ascii_bytes(s: &[u8]) -> (r: bool)
    ensures
        r == all_ascii(s@),
{
    let mut i: usize = 0;
    while i < s.len()
        invariant
            0 <= i <= s@.len(),
            forall|k: int| 0 <= k < i ==> s@[k] < 128,
        decreases s@.len() - i,
    {
        if s[i] >= 128 {
            return false;
        }
        i += 1;
    }
    true
}

/// The text codec; it remembers the canvas that the connection selected.
#[derive(Clone, Copy, Debug)]
pub struct TextParser {
    canvas: Canvas,
}

impl Default for TextParser {
    fn default() -> (r: TextParser)
        ensures
            r.selected_canvas() == 0,
    {
        TextParser { canvas: 0 }
    }
}

impl TextParser {
    /// The canvas that `SIZE` and `PX` address.
    pub closed spec fn selected_canvas(&self) -> Canvas {
        self.canvas
    }

    pub fn new(canvas: Canvas) -> (r: TextParser)
        ensures
            r.selected_canvas() == canvas,
    {
        TextParser { canvas }
    }

    /// Decodes a `PX` line.
    pub fn parse_pixel(&self, line: &[u8]) -> (r: Result<Command, ProtocolError>)
        ensures
            r == or_invalid(pixel_command(fields(trim_end(line@)), self.selected_canvas())),
    {
        let e = trim_end_len(line);
        let t = &line[0..e];
        assert(t@ == trim_end(line@));
        let f = split_spaces(t);
        if f.len() != 3 && f.len() != 4 {
            return Err(ProtocolError::InvalidInput);
        }
        let (x0, x1) = f[1];
        let (y0, y1) = f[2];
        assert(fields(t@)[1] == t@.subrange(x0 as int, x1 as int));
        assert(fields(t@)[2] == t@.subrange(y0 as int, y1 as int));
        let horizontal = match parse_decimal(t, x0, x1, 65535) {
            Some(v) => v as Coordinate,
            None => return Err(ProtocolError::InvalidInput),
        };
        let vertical = match parse_decimal(t, y0, y1, 65535) {
            Some(v) => v as Coordinate,
            None => return Err(ProtocolError::InvalidInput),
        };
        if f.len() == 3 {
            return Ok(Command::GetPixel(self.canvas, horizontal, vertical));
        }
        let (c0, c1) = f[3];
        assert(fields(t@)[3] == t@.subrange(c0 as int, c1 as int));
        let field = &t[c0..c1];
        match parse_color(field) {
            Ok(color) => Ok(Command::SetPixel(self.canvas, horizontal, vertical, color)),
            Err(err) => Err(err),
        }
    }

    /// Decodes a `CANVAS` line.
    pub fn parse_canvas(line: &[u8]) -> (r: Result<Command, ProtocolError>)
        ensures
            r == or_invalid(canvas_command(fields(trim_end(line@)))),
    {
        let e = trim_end_len(line);
        let t = &line[0..e];
        assert(t@ == trim_end(line@));
        let f = split_spaces(t);
        if f.len() != 2 {
            return Err(ProtocolError::InvalidInput);
        }
        let (c0, c1) = f[1];
        assert(fields(t@)[1] == t@.subrange(c0 as int, c1 as int));
        match parse_decimal(t, c0, c1, 255) {
            Some(v) => Ok(Command::ChangeCanvas(v as Canvas)),
            None => Err(ProtocolError::InvalidInput),
        }
    }

    /// Decodes a `PROTOCOL` line.
    pub fn parse_protocol(line: &[u8]) -> (r: Result<Command, ProtocolError>)
        ensures
            r == or_invalid(protocol_command(fields(trim_end(line@)))),
    {
        let e = trim_end_len(line);
        let t = &line[0..e];
        assert(t@ == trim_end(line@));
        let f = split_spaces(t);
        if f.len() != 2 {
            return Err(ProtocolError::InvalidInput);
        }
        let (p0, p1) = f[1];
        assert(fields(t@)[1] == t@.subrange(p0 as int, p1 as int));
        let name = &t[p0..p1];
        if bytes_eq(name, "binary") {
            Ok(Command::ChangeProtocol(Protocol::Binary))
        } else if bytes_eq(name, "text") {
            Ok(Command::ChangeProtocol(Protocol::Text))
        } else {
            Err(ProtocolError::InvalidInput)
        }
    }

    /// Decodes one line.
    pub fn parse_line(&self, line: &[u8]) -> (r: Result<Command, ProtocolError>)
        ensures
            r == or_invalid(line_command(line@, self.selected_canvas())),
    {
        let e = trim_end_len(line);
        let t = &line[0..e];
        assert(t@ == trim_end(line@));
        if !is_ascii_bytes(line) {
            Err(ProtocolError::InvalidInput)
        } else if bytes_eq(t, "HELP") {
            Ok(Command::Help)
        } else if bytes_eq(t, "PROTOCOLS") {
            Ok(Command::Protocols)
        } else if bytes_eq(t, "SIZE") {
            Ok(Command::Size(self.canvas))
        } else if bytes_at(line, 0, "PX ") {
            self.parse_pixel(line)
        } else if bytes_at(line, 0, "CANVAS ") {
            TextParser::parse_canvas(line)
        } else if bytes_at(line, 0, "PROTOCOL ") {
            TextParser::parse_protocol(line)
        } else {
            Err(ProtocolError::InvalidInput)
        }
    }

    /// Decodes the command at the front of `input`.
    pub fn parse(&self, input: &[u8], eof: bool) -> (r: Result<(Command, usize), ProtocolError>)
        ensures
            r == text_decode(input@, eof, self.selected_canvas()),
    {
        let k = find_byte(input, 0, NEWLINE);
        proof {
            lemma_find_from_bounds(input@, 0, NEWLINE);
        }
        let end = if k < input.len() {
            k + 1
        } else if !eof {
            return Err(ProtocolError::Incomplete);
        } else if input.len() == 0 {
            return Err(ProtocolError::UnexpectedEof);
        } else {
            input.len()
        };
        let line = &input[0..end];
        assert(k >= input@.len() ==> line@ =~= input@);
        match self.parse_line(line) {
            Ok(c) => Ok((c, end)),
            Err(e) => Err(e),
        }
    }

    /// Selects `canvas` when it exists.
    pub fn change_canvas(&mut self, canvas: Canvas) -> (r: Result<(), ProtocolError>)
        ensures
            (canvas as usize) < GRID_LENGTH ==> r == Ok::<(), ProtocolError>(())
                && final(self).selected_canvas() == canvas,
            (canvas as usize) >= GRID_LENGTH ==> r == Err::<(), ProtocolError>(
                ProtocolError::InvalidInput,
            ) && *final(self) == *old(self),
    {
        if (canvas as usize) < GRID_LENGTH {
            self.canvas = canvas;
            Ok(())
        } else {
            Err(ProtocolError::InvalidInput)
        }
    }
}


/// The name of a protocol on the wire.
pub open spec fn protocol_name(p: Protocol) -> Seq<u8> {
    match p {
        Protocol::Text => "text".spec_bytes(),
        Protocol::Binary => "binary".spec_bytes(),
    }
}

/// The line that reports one protocol.
pub open spec fn status_line(st: ProtocolStatus) -> Seq<u8> {
    match st {
        ProtocolStatus::Enabled(p) => "Enabled: ".spec_bytes() + protocol_name(p) + seq![NEWLINE],
        ProtocolStatus::Disabled(p) => "Disabled: ".spec_bytes() + protocol_name(p) + seq![NEWLINE],
    }
}

/// The lines that report a list of protocols, in order.
pub open spec fn status_lines(l: Seq<ProtocolStatus>) -> Seq<u8>
    decreases l.len(),
{
    if l.len() == 0 {
        Seq::empty()
    } else {
        status_line(l[0]) + status_lines(l.drop_first())
    }
}

/// The bytes that answer `r` in the text codec.
pub open spec fn text_response(r: ResponseView) -> Seq<u8> {
    match r {
        ResponseView::Help => HELP_TEXT.spec_bytes(),
        ResponseView::Protocols(l) => status_lines(l),
        ResponseView::Size(w, h) => "SIZE ".spec_bytes() + dec_digits(w as nat) + seq![SPACE]
            + dec_digits(h as nat) + seq![NEWLINE],
        ResponseView::GetPixel(x, y, c) => "PX ".spec_bytes() + dec_digits(x as nat) + seq![SPACE]
            + dec_digits(y as nat) + seq![SPACE] + hex_upper(c) + seq![NEWLINE],
    }
}

/// `st` in front of the list `o`, if there is one.
pub open spec fn prepend(st: ProtocolStatus, o: Option<Seq<ProtocolStatus>>) -> Option<
    Seq<ProtocolStatus>,
> {
    match o {
        Some(l) => Some(seq![st] + l),
        None => None,
    }
}

/// The protocol list that a run of status lines reports.
pub open spec fn parse_status_lines(s: Seq<u8>) -> Option<Seq<ProtocolStatus>>
    decreases s.len(),
{
    let et = ProtocolStatus::Enabled(Protocol::Text);
    let eb = ProtocolStatus::Enabled(Protocol::Binary);
    let dt = ProtocolStatus::Disabled(Protocol::Text);
    let db = ProtocolStatus::Disabled(Protocol::Binary);
    if s.len() == 0 {
        Some(Seq::empty())
    } else if has_at(s, 0, status_line(et)) {
        prepend(et, parse_status_lines(s.subrange(status_line(et).len() as int, s.len() as int)))
    } else if has_at(s, 0, status_line(eb)) {
        prepend(eb, parse_status_lines(s.subrange(status_line(eb).len() as int, s.len() as int)))
    } else if has_at(s, 0, status_line(dt)) {
        prepend(dt, parse_status_lines(s.subrange(status_line(dt).len() as int, s.len() as int)))
    } else if has_at(s, 0, status_line(db)) {
        prepend(db, parse_status_lines(s.subrange(status_line(db).len() as int, s.len() as int)))
    } else {
        None
    }
}

/// `SIZE w h`, split into fields.
pub open spec fn size_response(f: Seq<Seq<u8>>) -> Option<ResponseView> {
    if f.len() == 3 && parse_dec(f[1], 65535) is Some && parse_dec(f[2], 65535) is Some {
        Some(
            ResponseView::Size(
                parse_dec(f[1], 65535)->Some_0 as u16,
                parse_dec(f[2], 65535)->Some_0 as u16,
            ),
        )
    } else {
        None
    }
}

/// `PX x y RRGGBB`, split into fields.
pub open spec fn pixel_response(f: Seq<Seq<u8>>) -> Option<ResponseView> {
    if f.len() == 4 && parse_dec(f[1], 65535) is Some && parse_dec(f[2], 65535) is Some
        && f[3].len() == 6 {
        match (hex_pair(f[3][0], f[3][1]), hex_pair(f[3][2], f[3][3]), hex_pair(f[3][4], f[3][5])) {
            (Some(r), Some(g), Some(b)) => Some(
                ResponseView::GetPixel(
                    parse_dec(f[1], 65535)->Some_0 as u16,
                    parse_dec(f[2], 65535)->Some_0 as u16,
                    seq![r, g, b],
                ),
            ),
            _ => None,
        }
    } else {
        None
    }
}

/// The response that a whole text answer `s` carries. The help text is not
/// read back.
pub open spec fn text_parse_response(s: Seq<u8>) -> Option<ResponseView> {
    if has_at(s, 0, "SIZE ".spec_bytes()) {
        size_response(fields(trim_end(s)))
    } else if has_at(s, 0, "PX ".spec_bytes()) {
        pixel_response(fields(trim_end(s)))
    } else {
        match parse_status_lines(s) {
            Some(l) => Some(ResponseView::Protocols(l)),
            None => None,
        }
    }
}

proof fn lemma_status_lines_push(l: Seq<ProtocolStatus>, st: ProtocolStatus)
    ensures
        status_lines(l.push(st)) == status_lines(l) + status_line(st),
    decreases l.len(),
{
    if l.len() == 0 {
        assert(l.push(st).drop_first() =~= Seq::<ProtocolStatus>::empty());
        assert(l.push(st)[0] == st);
        assert(status_lines(Seq::<ProtocolStatus>::empty()) == Seq::<u8>::empty());
        assert(status_lines(l.push(st)) =~= status_line(st));
    } else {
        assert(l.push(st).drop_first() =~= l.drop_first().push(st));
        assert(l.push(st)[0] == l[0]);
        lemma_status_lines_push(l.drop_first(), st);
        assert(status_lines(l.push(st)) =~= status_lines(l) + status_line(st));
    }
}

pub fn push_protocol_name(out: &mut Vec<u8>, p: Protocol)
    ensures
        final(out)@ == old(out)@ + protocol_name(p),
{
    match p {
        Protocol::Text => push_str(out, "text"),
        Protocol::Binary => push_str(out, "binary"),
    }
}

impl TextParser {
    /// Appends the bytes that answer `response` to `out`.
    pub fn unparse(&self, response: Response, out: &mut Vec<u8>)
        ensures
            final(out)@ == old(out)@ + text_response(response@),
    {
        let ghost start = out@;
        match response {
            Response::Help => push_str(out, HELP_TEXT),
            Response::Protocols(protos) => {
                let mut i: usize = 0;
                while i < protos.len()
                    invariant
                        0 <= i <= protos@.len(),
                        out@ == start + status_lines(protos@.subrange(0, i as int)),
                    decreases protos@.len() - i,
                {
                    let st = protos[i];
                    match st {
                        ProtocolStatus::Enabled(p) => {
                            push_str(out, "Enabled: ");
                            push_protocol_name(out, p);
                        },
                        ProtocolStatus::Disabled(p) => {
                            push_str(out, "Disabled: ");
                            push_protocol_name(out, p);
                        },
                    }
                    out.push(NEWLINE);
                    proof {
                        let pre = protos@.subrange(0, i as int);
                        assert(protos@.subrange(0, i + 1) =~= pre.push(st));
                        lemma_status_lines_push(pre, st);
                        assert(out@ =~= start + status_lines(protos@.subrange(0, i + 1)));
                    }
                    i += 1;
                }
                assert(protos@.subrange(0, protos@.len() as int) =~= protos@);
            },
            Response::Size(x, y) => {
                push_str(out, "SIZE ");
                push_decimal(out, x as u64);
                out.push(SPACE);
                push_decimal(out, y as u64);
                out.push(NEWLINE);
                assert(out@ =~= start + text_response(response@));
            },
            Response::GetPixel(x, y, color) => {
                push_str(out, "PX ");
                push_decimal(out, x as u64);
                out.push(SPACE);
                push_decimal(out, y as u64);
                out.push(SPACE);
                push_hex_upper(out, &color);
                out.push(NEWLINE);
                assert(out@ =~= start + text_response(response@));
            },
        }
    }
}


proof fn lemma_literals()
    ensures
        "SIZE ".spec_bytes() == seq![83u8, 73, 90, 69, 32],
        "PX ".spec_bytes() == seq![80u8, 88, 32],
        "Enabled: ".spec_bytes() == seq![69u8, 110, 97, 98, 108, 101, 100, 58, 32],
        "Disabled: ".spec_bytes() == seq![68u8, 105, 115, 97, 98, 108, 101, 100, 58, 32],
        "text".spec_bytes() == seq![116u8, 101, 120, 116],
        "binary".spec_bytes() == seq![98u8, 105, 110, 97, 114, 121],
{
    reveal_strlit("SIZE ");
    reveal_strlit("PX ");
    reveal_strlit("Enabled: ");
    reveal_strlit("Disabled: ");
    reveal_strlit("text");
    reveal_strlit("binary");
    lemma_ascii_bytes("SIZE ");
    lemma_ascii_bytes("PX ");
    lemma_ascii_bytes("Enabled: ");
    lemma_ascii_bytes("Disabled: ");
    lemma_ascii_bytes("text");
    lemma_ascii_bytes("binary");
    assert(ascii("SIZE "@) =~= seq![83u8, 73, 90, 69, 32]);
    assert(ascii("PX "@) =~= seq![80u8, 88, 32]);
    assert(ascii("Enabled: "@) =~= seq![69u8, 110, 97, 98, 108, 101, 100, 58, 32]);
    assert(ascii("Disabled: "@) =~= seq![68u8, 105, 115, 97, 98, 108, 101, 100, 58, 32]);
    assert(ascii("text"@) =~= seq![116u8, 101, 120, 116]);
    assert(ascii("binary"@) =~= seq![98u8, 105, 110, 97, 114, 121]);
}


proof fn lemma_dec_digits(n: nat)
    ensures
        dec_digits(n).len() >= 1,
        all_digits(dec_digits(n)),
        dec_value(dec_digits(n)) == n,
    decreases n,
{
    let d = dec_digits(n);
    if n >= 10 {
        lemma_dec_digits(n / 10);
        assert(d.drop_last() =~= dec_digits(n / 10));
        assert(d.last() == (48 + n % 10) as u8);
        assert(dec_value(d) == (n / 10) * 10 + n % 10);
    } else {
        assert(d.drop_last() =~= Seq::<u8>::empty());
        assert(dec_value(d.drop_last()) == 0);
    }
}

proof fn lemma_parse_dec_digits(n: nat, max: nat)
    requires
        n <= max,
    ensures
        parse_dec(dec_digits(n), max) == Some(n),
{
    lemma_dec_digits(n);
}

proof fn lemma_fields_nonempty(s: Seq<u8>)
    ensures
        fields(s).len() >= 1,
    decreases s.len(),
{
    if s.len() > 0 {
        lemma_fields_nonempty(s.drop_last());
    }
}

proof fn lemma_fields_single(a: Seq<u8>)
    requires
        forall|i: int| 0 <= i < a.len() ==> a[i] != SPACE,
    ensures
        fields(a) == seq![a],
    decreases a.len(),
{
    if a.len() > 0 {
        assert forall|i: int| 0 <= i < a.drop_last().len() implies a.drop_last()[i] != SPACE by {
            assert(a.drop_last()[i] == a[i]);
        }
        lemma_fields_single(a.drop_last());
        assert(a[a.len() - 1] != SPACE);
        assert(a.drop_last().push(a.last()) =~= a);
        assert(fields(a) =~= seq![a]);
    } else {
        assert(a =~= Seq::<u8>::empty());
    }
}

proof fn lemma_fields_concat(a: Seq<u8>, b: Seq<u8>)
    ensures
        fields(a + seq![SPACE] + b) == fields(a) + fields(b),
    decreases b.len(),
{
    let s = a + seq![SPACE] + b;
    if b.len() == 0 {
        assert(s.drop_last() =~= a);
        assert(fields(s) =~= fields(a) + fields(b));
    } else {
        assert(s.drop_last() =~= a + seq![SPACE] + b.drop_last());
        lemma_fields_concat(a, b.drop_last());
        lemma_fields_nonempty(b.drop_last());
        lemma_fields_nonempty(a);
        assert(fields(s) =~= fields(a) + fields(b));
    }
}

proof fn lemma_hex_pair(b: u8)
    ensures
        hex_pair(hex_digit_upper(b / 16), hex_digit_upper(b % 16)) == Some(b),
        hex_digit_upper(b / 16) != SPACE && !is_ws(hex_digit_upper(b / 16)),
        hex_digit_upper(b % 16) != SPACE && !is_ws(hex_digit_upper(b % 16)),
{
}

proof fn lemma_hex3(c: Seq<u8>)
    requires
        c.len() == 3,
    ensures
        hex_upper(c) == seq![
            hex_digit_upper(c[0] / 16),
            hex_digit_upper(c[0] % 16),
            hex_digit_upper(c[1] / 16),
            hex_digit_upper(c[1] % 16),
            hex_digit_upper(c[2] / 16),
            hex_digit_upper(c[2] % 16),
        ],
{
    let c2 = c.drop_last();
    let c1 = c2.drop_last();
    let c0 = c1.drop_last();
    assert(c0 =~= Seq::<u8>::empty());
    assert(hex_upper(c0) == Seq::<u8>::empty());
    assert(c1.last() == c[0] && c2.last() == c[1] && c.last() == c[2]);
    assert(hex_upper(c1) =~= seq![hex_digit_upper(c[0] / 16), hex_digit_upper(c[0] % 16)]);
    assert(hex_upper(c2) =~= hex_upper(c1) + seq![
        hex_digit_upper(c[1] / 16),
        hex_digit_upper(c[1] % 16),
    ]);
}

proof fn lemma_trim_line(x: Seq<u8>)
    requires
        x.len() > 0,
        !is_ws(x.last()),
    ensures
        trim_end(x + seq![NEWLINE]) == x,
{
    let s = x + seq![NEWLINE];
    assert(s.drop_last() =~= x);
    assert(trim_end(x) == x);
    assert(is_ws(s.last()));
}

proof fn lemma_status_round_trip(l: Seq<ProtocolStatus>)
    ensures
        parse_status_lines(status_lines(l)) == Some(l),
    decreases l.len(),
{
    lemma_literals();
    if l.len() > 0 {
        let s = status_lines(l);
        let first = status_line(l[0]);
        let rest = status_lines(l.drop_first());
        assert(s == first + rest);
        assert(s.subrange(0, first.len() as int) =~= first);
        assert(s.subrange(first.len() as int, s.len() as int) =~= rest);
        lemma_status_round_trip(l.drop_first());
        let et = status_line(ProtocolStatus::Enabled(Protocol::Text));
        let eb = status_line(ProtocolStatus::Enabled(Protocol::Binary));
        let dt = status_line(ProtocolStatus::Disabled(Protocol::Text));
        match l[0] {
            ProtocolStatus::Enabled(Protocol::Text) => {},
            ProtocolStatus::Enabled(Protocol::Binary) => {
                assert(s[9] != et[9]);
            },
            ProtocolStatus::Disabled(Protocol::Text) => {
                assert(s[0] != et[0]);
                assert(s[0] != eb[0]);
            },
            ProtocolStatus::Disabled(Protocol::Binary) => {
                assert(s[0] != et[0]);
                assert(s[0] != eb[0]);
                assert(s[10] != dt[10]);
            },
        }
        assert(seq![l[0]] + l.drop_first() =~= l);
    }
}

proof fn lemma_size_round_trip(w: u16, h: u16)
    ensures
        text_parse_response(text_response(ResponseView::Size(w, h))) == Some(ResponseView::Size(w, h)),
{
    lemma_literals();
    let s = text_response(ResponseView::Size(w, h));
    let dw = dec_digits(w as nat);
    let dh = dec_digits(h as nat);
    lemma_dec_digits(w as nat);
    lemma_dec_digits(h as nat);
    lemma_parse_dec_digits(w as nat, 65535);
    lemma_parse_dec_digits(h as nat, 65535);
    let head = seq![83u8, 73, 90, 69];
    let x = head + seq![SPACE] + dw + seq![SPACE] + dh;
    assert(s =~= x + seq![NEWLINE]);
    assert(x.last() == dh.last());
    lemma_trim_line(x);
    assert(s.subrange(0, 5) =~= "SIZE ".spec_bytes());
    lemma_fields_concat(head + seq![SPACE] + dw, dh);
    lemma_fields_concat(head, dw);
    lemma_fields_single(head);
    lemma_fields_single(dw);
    lemma_fields_single(dh);
    assert(fields(trim_end(s)) =~= seq![head, dw, dh]);
}

#[verifier::rlimit(40)]
proof fn lemma_pixel_round_trip(px: u16, py: u16, c: Seq<u8>)
    requires
        c.len() == 3,
    ensures
        text_parse_response(text_response(ResponseView::GetPixel(px, py, c))) == Some(
            ResponseView::GetPixel(px, py, c),
        ),
{
    lemma_literals();
    let s = text_response(ResponseView::GetPixel(px, py, c));
    let dx = dec_digits(px as nat);
    let dy = dec_digits(py as nat);
    lemma_dec_digits(px as nat);
    lemma_dec_digits(py as nat);
    lemma_parse_dec_digits(px as nat, 65535);
    lemma_parse_dec_digits(py as nat, 65535);
    lemma_hex3(c);
    lemma_hex_pair(c[0]);
    lemma_hex_pair(c[1]);
    lemma_hex_pair(c[2]);
    let hx = hex_upper(c);
    let head = seq![80u8, 88];
    let x = head + seq![SPACE] + dx + seq![SPACE] + dy + seq![SPACE] + hx;
    assert(s =~= x + seq![NEWLINE]);
    assert(x.last() == hx[5]);
    lemma_trim_line(x);
    assert(s[0] != "SIZE ".spec_bytes()[0]);
    assert(s.subrange(0, 3) =~= "PX ".spec_bytes());
    lemma_fields_concat(head + seq![SPACE] + dx + seq![SPACE] + dy, hx);
    lemma_fields_concat(head + seq![SPACE] + dx, dy);
    lemma_fields_concat(head, dx);
    lemma_fields_single(head);
    lemma_fields_single(dx);
    lemma_fields_single(dy);
    lemma_fields_single(hx);
    let f = fields(trim_end(s));
    assert(f =~= seq![head, dx, dy, hx]);
    assert(f[3] == hx);
    assert(seq![c[0], c[1], c[2]] =~= c);
}

proof fn lemma_command_literals()
    ensures
        "HELP".spec_bytes() == seq![72u8, 69, 76, 80],
        "SIZE".spec_bytes() == seq![83u8, 73, 90, 69],
        "PROTOCOLS".spec_bytes() == seq![80u8, 82, 79, 84, 79, 67, 79, 76, 83],
{
    reveal_strlit("HELP");
    reveal_strlit("SIZE");
    reveal_strlit("PROTOCOLS");
    lemma_ascii_bytes("HELP");
    lemma_ascii_bytes("SIZE");
    lemma_ascii_bytes("PROTOCOLS");
    assert(ascii("HELP"@) =~= seq![72u8, 69, 76, 80]);
    assert(ascii("SIZE"@) =~= seq![83u8, 73, 90, 69]);
    assert(ascii("PROTOCOLS"@) =~= seq![80u8, 82, 79, 84, 79, 67, 79, 76, 83]);
}

/// Every byte of `t` is printable ASCII.
pub open spec fn printable(t: Seq<u8>) -> bool {
    forall|j: int| 0 <= j < t.len() ==> 32 <= #[trigger] t[j] && t[j] < 128
}

proof fn lemma_printable_concat(a: Seq<u8>, b: Seq<u8>)
    requires
        printable(a),
        printable(b),
    ensures
        printable(a + b),
{
    assert forall|j: int| 0 <= j < (a + b).len() implies 32 <= #[trigger] (a + b)[j] && (a + b)[j]
        < 128 by {
        if j < a.len() {
            assert((a + b)[j] == a[j]);
        } else {
            assert((a + b)[j] == b[j - a.len()]);
        }
    }
}

proof fn lemma_find_last(s: Seq<u8>, i: int, b: u8)
    requires
        0 <= i < s.len(),
        s[s.len() - 1] == b,
        forall|j: int| i <= j < s.len() - 1 ==> s[j] != b,
    ensures
        find_from(s, i, b) == s.len() - 1,
    decreases s.len() - i,
{
    if i < s.len() - 1 {
        lemma_find_last(s, i + 1, b);
    }
}

/// The line with which the text codec answers a pixel read is, read as a
/// request, a write of that pixel's colour at the same place on the
/// selected canvas.
#[verifier::rlimit(40)]
pub proof fn lemma_pixel_answer_as_command(px: u16, py: u16, c: Seq<u8>, canvas: Canvas, eof: bool)
    requires
        c.len() == 3,
    ensures
        text_decode(text_response(ResponseView::GetPixel(px, py, c)), eof, canvas) == Ok::<
            (Command, usize),
            ProtocolError,
        >(
            (
                Command::SetPixel(canvas, px, py, Color::RGB24(c[0], c[1], c[2])),
                text_response(ResponseView::GetPixel(px, py, c)).len() as usize,
            ),
        ),
{
    lemma_literals();
    lemma_command_literals();
    let s = text_response(ResponseView::GetPixel(px, py, c));
    let dx = dec_digits(px as nat);
    let dy = dec_digits(py as nat);
    lemma_dec_digits(px as nat);
    lemma_dec_digits(py as nat);
    lemma_parse_dec_digits(px as nat, 65535);
    lemma_parse_dec_digits(py as nat, 65535);
    lemma_hex3(c);
    lemma_hex_pair(c[0]);
    lemma_hex_pair(c[1]);
    lemma_hex_pair(c[2]);
    let hx = hex_upper(c);
    let head = seq![80u8, 88];
    let sp = seq![SPACE];
    let x = head + sp + dx + sp + dy + sp + hx;
    assert(s =~= x + seq![NEWLINE]);
    assert(printable(head));
    assert(printable(sp));
    assert(printable(dx));
    assert(printable(dy));
    assert(printable(hx));
    lemma_printable_concat(head, sp);
    lemma_printable_concat(head + sp, dx);
    lemma_printable_concat(head + sp + dx, sp);
    lemma_printable_concat(head + sp + dx + sp, dy);
    lemma_printable_concat(head + sp + dx + sp + dy, sp);
    lemma_printable_concat(head + sp + dx + sp + dy + sp, hx);
    assert forall|j: int| 0 <= j < s.len() - 1 implies s[j] != NEWLINE by {
        assert(s[j] == x[j]);
    }
    lemma_find_last(s, 0, NEWLINE);
    assert(s.subrange(0, s.len() as int) =~= s);
    assert(all_ascii(s)) by {
        assert forall|j: int| 0 <= j < s.len() implies s[j] < 128 by {
            if j < s.len() - 1 {
                assert(s[j] == x[j]);
            }
        }
    }
    assert(s.subrange(0, 3) =~= "PX ".spec_bytes());
    assert(x.last() == hx[5]);
    lemma_trim_line(x);
    assert(x[0] != "HELP".spec_bytes()[0]);
    assert(x[1] != "PROTOCOLS".spec_bytes()[1]);
    assert(x[0] != "SIZE".spec_bytes()[0]);
    lemma_fields_concat(head + sp + dx + sp + dy, hx);
    lemma_fields_concat(head + sp + dx, dy);
    lemma_fields_concat(head, dx);
    lemma_fields_single(head);
    lemma_fields_single(dx);
    lemma_fields_single(dy);
    lemma_fields_single(hx);
    let f = fields(trim_end(s));
    assert(f =~= seq![head, dx, dy, hx]);
    assert(parse_color_spec(f[3]) == Some(Color::RGB24(c[0], c[1], c[2])));
}

/// Reading back what the text codec writes for a response gives that
/// response again, for every response but the help text.
pub proof fn lemma_text_response_round_trip(r: ResponseView)
    requires
        !(r is Help),
        r matches ResponseView::GetPixel(_, _, c) ==> c.len() == 3,
    ensures
        text_parse_response(text_response(r)) == Some(r),
{
    lemma_literals();
    let s = text_response(r);
    match r {
        ResponseView::Size(w, h) => lemma_size_round_trip(w, h),
        ResponseView::GetPixel(px, py, c) => lemma_pixel_round_trip(px, py, c),
        ResponseView::Protocols(l) => {
            lemma_status_round_trip(l);
            if l.len() > 0 {
                assert(s == status_line(l[0]) + status_lines(l.drop_first()));
                assert(s[0] != "SIZE ".spec_bytes()[0]);
                assert(s[0] != "PX ".spec_bytes()[0]);
            }
        },
        ResponseView::Help => {},
    }
}


/// The list `l` in front of the list `o`, if there is one.
pub open spec fn prepend_all(l: Seq<ProtocolStatus>, o: Option<Seq<ProtocolStatus>>) -> Option<
    Seq<ProtocolStatus>,
> {
    match o {
        Some(r) => Some(l + r),
        None => None,
    }
}

/// The line that reports `st`.
pub fn status_bytes(st: ProtocolStatus) -> (r: Vec<u8>)
    ensures
        r@ == status_line(st),
{
    let mut out: Vec<u8> = Vec::new();
    match st {
        ProtocolStatus::Enabled(p) => {
            push_str(&mut out, "Enabled: ");
            push_protocol_name(&mut out, p);
        },
        ProtocolStatus::Disabled(p) => {
            push_str(&mut out, "Disabled: ");
            push_protocol_name(&mut out, p);
        },
    }
    out.push(NEWLINE);
    assert(out@ =~= status_line(st));
    out
}

proof fn lemma_has_at_shift(s: Seq<u8>, pos: int, lit: Seq<u8>)
    requires
        0 <= pos <= s.len(),
    ensures
        has_at(s.subrange(pos, s.len() as int), 0, lit) == has_at(s, pos, lit),
        has_at(s, pos, lit) ==> s.subrange(pos, s.len() as int).subrange(
            lit.len() as int,
            s.len() - pos,
        ) == s.subrange(pos + lit.len(), s.len() as int),
{
    let t = s.subrange(pos, s.len() as int);
    if pos + lit.len() <= s.len() {
        assert(t.subrange(0, lit.len() as int) =~= s.subrange(pos, pos + lit.len()));
        assert(t.subrange(lit.len() as int, s.len() - pos) =~= s.subrange(
            pos + lit.len(),
            s.len() as int,
        ));
    }
}

impl TextParser {
    /// Reads a whole text answer back into the response it carries; the
    /// help text is not read back.
    pub fn parse_response(&self, input: &[u8]) -> (r: Option<Response>)
        ensures
            match r {
                Some(x) => text_parse_response(input@) == Some(x@),
                None => text_parse_response(input@) is None,
            },
    {
        if bytes_at(input, 0, "SIZE ") {
            let e = trim_end_len(input);
            let t = &input[0..e];
            assert(t@ == trim_end(input@));
            let f = split_spaces(t);
            if f.len() != 3 {
                return None;
            }
            let (x0, x1) = f[1];
            let (y0, y1) = f[2];
            assert(fields(t@)[1] == t@.subrange(x0 as int, x1 as int));
            assert(fields(t@)[2] == t@.subrange(y0 as int, y1 as int));
            match (parse_decimal(t, x0, x1, 65535), parse_decimal(t, y0, y1, 65535)) {
                (Some(w), Some(h)) => Some(Response::Size(w as u16, h as u16)),
                _ => None,
            }
        } else if bytes_at(input, 0, "PX ") {
            let e = trim_end_len(input);
            let t = &input[0..e];
            assert(t@ == trim_end(input@));
            let f = split_spaces(t);
            if f.len() != 4 {
                return None;
            }
            let (x0, x1) = f[1];
            let (y0, y1) = f[2];
            let (c0, c1) = f[3];
            assert(fields(t@)[1] == t@.subrange(x0 as int, x1 as int));
            assert(fields(t@)[2] == t@.subrange(y0 as int, y1 as int));
            assert(fields(t@)[3] == t@.subrange(c0 as int, c1 as int));
            let x = match parse_decimal(t, x0, x1, 65535) {
                Some(v) => v as u16,
                None => return None,
            };
            let y = match parse_decimal(t, y0, y1, 65535) {
                Some(v) => v as u16,
                None => return None,
            };
            let c = &t[c0..c1];
            if c.len() != 6 {
                return None;
            }
            match (val(c[0], c[1]), val(c[2], c[3]), val(c[4], c[5])) {
                (Ok(r), Ok(g), Ok(b)) => {
                    let color = [r, g, b];
                    assert(color@ =~= seq![r, g, b]);
                    Some(Response::GetPixel(x, y, color))
                },
                _ => None,
            }
        } else {
            let et = status_bytes(ProtocolStatus::Enabled(Protocol::Text));
            let eb = status_bytes(ProtocolStatus::Enabled(Protocol::Binary));
            let dt = status_bytes(ProtocolStatus::Disabled(Protocol::Text));
            let db = status_bytes(ProtocolStatus::Disabled(Protocol::Binary));
            let mut list: Vec<ProtocolStatus> = Vec::new();
            let mut pos: usize = 0;
            assert(input@.subrange(0, input@.len() as int) =~= input@);
            assert(list@ + Seq::<ProtocolStatus>::empty() =~= Seq::<ProtocolStatus>::empty());
            while pos < input.len()
                invariant
                    pos <= input@.len(),
                    !has_at(input@, 0, "SIZE ".spec_bytes()),
                    !has_at(input@, 0, "PX ".spec_bytes()),
                    et@ == status_line(ProtocolStatus::Enabled(Protocol::Text)),
                    eb@ == status_line(ProtocolStatus::Enabled(Protocol::Binary)),
                    dt@ == status_line(ProtocolStatus::Disabled(Protocol::Text)),
                    db@ == status_line(ProtocolStatus::Disabled(Protocol::Binary)),
                    parse_status_lines(input@) == prepend_all(
                        list@,
                        parse_status_lines(input@.subrange(pos as int, input@.len() as int)),
                    ),
                decreases input@.len() - pos,
            {
                let ghost rest = input@.subrange(pos as int, input@.len() as int);
                proof {
                    lemma_has_at_shift(input@, pos as int, et@);
                    lemma_has_at_shift(input@, pos as int, eb@);
                    lemma_has_at_shift(input@, pos as int, dt@);
                    lemma_has_at_shift(input@, pos as int, db@);
                }
                let (st, n) = if slice_at(input, pos, et.as_slice()) {
                    (ProtocolStatus::Enabled(Protocol::Text), et.len())
                } else if slice_at(input, pos, eb.as_slice()) {
                    (ProtocolStatus::Enabled(Protocol::Binary), eb.len())
                } else if slice_at(input, pos, dt.as_slice()) {
                    (ProtocolStatus::Disabled(Protocol::Text), dt.len())
                } else if slice_at(input, pos, db.as_slice()) {
                    (ProtocolStatus::Disabled(Protocol::Binary), db.len())
                } else {
                    assert(rest.len() > 0);
                    assert(parse_status_lines(rest) is None);
                    assert(parse_status_lines(input@) is None);
                    assert(text_parse_response(input@) is None);
                    return None;
                };
                assert(n == status_line(st).len());
                assert(parse_status_lines(rest) == prepend(
                    st,
                    parse_status_lines(input@.subrange(pos + n, input@.len() as int)),
                ));
                let ghost old_list = list@;
                list.push(st);
                pos = pos + n;
                proof {
                    match parse_status_lines(input@.subrange(pos as int, input@.len() as int)) {
                        Some(tail) => {
                            assert(old_list + (seq![st] + tail) =~= list@ + tail);
                        },
                        None => {},
                    }
                }
            }
            assert(input@.subrange(pos as int, input@.len() as int) =~= Seq::<u8>::empty());
            assert(list@ + Seq::<ProtocolStatus>::empty() =~= list@);
            Some(Response::Protocols(list))
        }
    }
}

} // verus!
