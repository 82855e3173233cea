//! The length-prefixed binary codec: the canvas travels in every request and
//! coordinates are little-endian.
use vstd::prelude::*;
use vstd::string::StringSliceAdditionalSpecFns;

use crate::protocols::{
    le_bytes, push_u16_le, read_u16_le, short_input, short_input_error, u16_le, ProtocolError,
};
use crate::wire::push_str;
use crate::{Canvas, Color, Command, Response, ResponseView};

verus! {

pub const SIZE_BIN: u8 = 115;

pub const HELP_BIN: u8 = 104;

pub const GET_PX_BIN: u8 = 32;

pub const SET_PX_RGB_BIN: u8 = 128;

pub const SET_PX_RGBA_BIN: u8 = 129;

pub const SET_PX_W_BIN: u8 = 130;

/// Help text of the binary protocol.
pub const BINARY_HELP_TEXT: &'static str = "
You found the binary protocol help text
you can get this by sending (68) to the server
To get the size of a canvas, send (73) (u8 canvas) to the server
To set a pixel using RGB, use (80) (u8 canvas) (x as u16_le) (y as u16_le) (u8 r) (u8 g) (u8 b)
";

/// The length of the frame that starts with `op`, or zero for an unknown byte.
pub open spec fn binary_frame_len(op: u8) -> nat {
    if op == HELP_BIN {
        1
    } else if op == SIZE_BIN {
        2
    } else if op == GET_PX_BIN {
        6
    } else if op == SET_PX_W_BIN {
        7
    } else if op == SET_PX_RGB_BIN {
        9
    } else if op == SET_PX_RGBA_BIN {
        10
    } else {
        0
    }
}

/// The command of a whole frame `s`.
pub open spec fn binary_command(s: Seq<u8>) -> Command {
    let op = s[0];
    if op == HELP_BIN {
        Command::Help
    } else if op == SIZE_BIN {
        Command::Size(s[1])
    } else {
        let x = u16_le(s[2], s[3]);
        let y = u16_le(s[4], s[5]);
        if op == GET_PX_BIN {
            Command::GetPixel(s[1], x, y)
        } else if op == SET_PX_W_BIN {
            Command::SetPixel(s[1], x, y, Color::W8(s[6]))
        } else if op == SET_PX_RGB_BIN {
            Command::SetPixel(s[1], x, y, Color::RGB24(s[6], s[7], s[8]))
        } else {
            Command::SetPixel(s[1], x, y, Color::RGBA32(s[6], s[7], s[8], s[9]))
        }
    }
}

/// What the binary codec decodes from the front of `s`, with the number of
/// bytes the command takes; `eof` says that no more bytes will come.
pub open spec fn binary_decode(s: Seq<u8>, eof: bool) -> Result<(Command, usize), ProtocolError> {
    if s.len() == 0 {
        Err(short_input(eof))
    } else if binary_frame_len(s[0]) == 0 {
        Err(ProtocolError::InvalidInput)
    } else if s.len() < binary_frame_len(s[0]) {
        Err(short_input(eof))
    } else {
        Ok((binary_command(s), binary_frame_len(s[0]) as usize))
    }
}

/// The commands that the binary codec can carry.
pub open spec fn binary_expressible(c: Command) -> bool {
    match c {
        Command::Help | Command::Size(_) | Command::GetPixel(..) | Command::SetPixel(..) => true,
        _ => false,
    }
}

/// The frame that carries `c`.
pub open spec fn binary_encode(c: Command) -> Seq<u8> {
    match c {
        Command::Help => seq![HELP_BIN],
        Command::Size(canvas) => seq![SIZE_BIN, canvas],
        Command::GetPixel(canvas, x, y) => seq![GET_PX_BIN, canvas] + le_bytes(x) + le_bytes(y),
        Command::SetPixel(canvas, x, y, color) => match color {
            Color::W8(w) => seq![SET_PX_W_BIN, canvas] + le_bytes(x) + le_bytes(y) + seq![w],
            Color::RGB24(r, g, b) => seq![SET_PX_RGB_BIN, canvas] + le_bytes(x) + le_bytes(y)
                + seq![r, g, b],
            Color::RGBA32(r, g, b, a) => seq![SET_PX_RGBA_BIN, canvas] + le_bytes(x) + le_bytes(
                y,
            ) + seq![r, g, b, a],
        },
        _ => Seq::empty(),
    }
}

/// The bytes that answer `r`.
pub open spec fn binary_response(r: ResponseView) -> Seq<u8> {
    match r {
        ResponseView::Help => BINARY_HELP_TEXT.spec_bytes(),
        ResponseView::Size(w, h) => le_bytes(w) + le_bytes(h),
        ResponseView::GetPixel(_, _, c) => c,
        ResponseView::Protocols(_) => Seq::empty(),
    }
}

/// The binary codec. It keeps no state.
#[derive(Clone, Copy, Debug, Default)]
pub struct BinaryParser {}

impl BinaryParser {
    pub fn new() -> BinaryParser {
        BinaryParser {  }
    }

    /// Decodes the command at the front of `input`.
    pub fn parse(&self, input: &[u8], eof: bool) -> (r: Result<(Command, usize), ProtocolError>)
        ensures
            r == binary_decode(input@, eof),
    {
        if input.len() == 0 {
            return Err(short_input_error(eof));
        }
        let op = input[0];
        let need: usize = if op == HELP_BIN {
            1
        } else if op == SIZE_BIN {
            2
        } else if op == GET_PX_BIN {
            6
        } else if op == SET_PX_W_BIN {
            7
        } else if op == SET_PX_RGB_BIN {
            9
        } else if op == SET_PX_RGBA_BIN {
            10
        } else {
            return Err(ProtocolError::InvalidInput);
        };
        if input.len() < need {
            return Err(short_input_error(eof));
        }
        let command = if op == HELP_BIN {
            Command::Help
        } else if op == SIZE_BIN {
            Command::Size(input[1])
        } else {
            let canvas: Canvas = input[1];
            let x = read_u16_le(input, 2);
            let y = read_u16_le(input, 4);
            if op == GET_PX_BIN {
                Command::GetPixel(canvas, x, y)
            } else if op == SET_PX_W_BIN {
                Command::SetPixel(canvas, x, y, Color::W8(input[6]))
            } else if op == SET_PX_RGB_BIN {
                Command::SetPixel(canvas, x, y, Color::RGB24(input[6], input[7], input[8]))
            } else {
                Command::SetPixel(
                    canvas,
                    x,
                    y,
                    Color::RGBA32(input[6], input[7], input[8], input[9]),
                )
            }
        };
        Ok((command, need))
    }

    /// The binary codec keeps no canvas selection.
    pub fn change_canvas(&mut self, canvas: Canvas) -> (r: Result<(), ProtocolError>)
        ensures
            r == Err::<(), ProtocolError>(ProtocolError::Unsupported),
    {
        Err(ProtocolError::Unsupported)
    }

    /// Appends the bytes that answer `response` to `out`.
    pub fn unparse(&self, response: Response, out: &mut Vec<u8>)
        ensures
            final(out)@ == old(out)@ + binary_response(response@),
    {
        match response {
            Response::Help => push_str(out, BINARY_HELP_TEXT),
            Response::Size(w, h) => {
                push_u16_le(out, w);
                push_u16_le(out, h);
                assert(final(out)@ =~= old(out)@ + binary_response(response@));
            }
            Response::GetPixel(_, _, c) => {
                out.push(c[0]);
                out.push(c[1]);
                out.push(c[2]);
                assert(final(out)@ =~= old(out)@ + c@);
            }
            Response::Protocols(_) => {},
        }
    }
}

/// Decoding the frame of any command that the binary codec carries, followed
/// by any bytes, gives that command back and consumes exactly its frame.
pub proof fn lemma_binary_round_trip(c: Command, rest: Seq<u8>, eof: bool)
    requires
        binary_expressible(c),
    ensures
        binary_decode(binary_encode(c) + rest, eof) == Ok::<(Command, usize), ProtocolError>(
            (c, binary_encode(c).len() as usize),
        ),
{
    let s = binary_encode(c) + rest;
    match c {
        Command::GetPixel(canvas, x, y) => {
            assert(s[2] == le_bytes(x)[0] && s[3] == le_bytes(x)[1]);
            assert(s[4] == le_bytes(y)[0] && s[5] == le_bytes(y)[1]);
        },
        Command::SetPixel(canvas, x, y, color) => {
            assert(s[2] == le_bytes(x)[0] && s[3] == le_bytes(x)[1]);
            assert(s[4] == le_bytes(y)[0] && s[5] == le_bytes(y)[1]);
            match color {
                Color::W8(w) => assert(s[6] == w),
                Color::RGB24(r, g, b) => assert(s[6] == r && s[7] == g && s[8] == b),
                Color::RGBA32(r, g, b, a) => assert(s[6] == r && s[7] == g && s[8] == b && s[9] == a),
            }
        },
        _ => {},
    }
}

} // verus!
