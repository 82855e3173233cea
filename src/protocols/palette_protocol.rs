//! The indexed-palette codec: pixels are set by an index into a table of 256
//! colours that each connection holds; coordinates are big-endian.
use vstd::prelude::*;

use crate::protocols::{
    be_bytes, push_u16_be, read_u16_be, short_input, short_input_error, u16_be, ProtocolError,
};
use crate::{Canvas, Color, Command, Response, ResponseView};

verus! {

pub const SIZE_BIN: u8 = 115;

pub const HELP_BIN: u8 = 104;

pub const GET_PX_BIN: u8 = 32;

pub const SET_PX_PALETTE_BIN: u8 = 33;

pub const CHANGE_COLOR_BIN: u8 = 34;

pub const PALETTE_SIZE: usize = 256;

/// The length of the frame that starts with `op`, or zero for an unknown byte.
pub open spec fn palette_frame_len(op: u8) -> nat {
    if op == HELP_BIN {
        1
    } else if op == SIZE_BIN {
        2
    } else if op == GET_PX_BIN {
        6
    } else if op == SET_PX_PALETTE_BIN {
        7
    } else if op == CHANGE_COLOR_BIN {
        5
    } else {
        0
    }
}

/// The command of a whole frame `s` under the colour table `colors`.
pub open spec fn palette_command(s: Seq<u8>, colors: Seq<Color>) -> Command {
    let op = s[0];
    if op == HELP_BIN {
        Command::Help
    } else if op == SIZE_BIN {
        Command::Size(s[1])
    } else if op == CHANGE_COLOR_BIN {
        Command::ChangeColor(s[1], Color::RGB24(s[2], s[3], s[4]))
    } else if op == GET_PX_BIN {
        Command::GetPixel(s[1], u16_be(s[2], s[3]), u16_be(s[4], s[5]))
    } else {
        Command::SetPixel(s[1], u16_be(s[2], s[3]), u16_be(s[4], s[5]), colors[s[6] as int])
    }
}

/// What the palette codec decodes from the front of `s`, with the number of
/// bytes the command takes.
pub open spec fn palette_decode(s: Seq<u8>, eof: bool, colors: Seq<Color>) -> Result<
    (Command, usize),
    ProtocolError,
> {
    if s.len() == 0 {
        Err(short_input(eof))
    } else if palette_frame_len(s[0]) == 0 {
        Err(ProtocolError::InvalidInput)
    } else if s.len() < palette_frame_len(s[0]) {
        Err(short_input(eof))
    } else {
        Ok((palette_command(s, colors), palette_frame_len(s[0]) as usize))
    }
}

/// The canonical bytes of each colour in turn.
pub open spec fn palette_bytes(colors: Seq<Color>) -> Seq<u8>
    decreases colors.len(),
{
    if colors.len() == 0 {
        Seq::empty()
    } else {
        palette_bytes(colors.drop_last()) + colors.last().rgba()
    }
}

/// The bytes that answer `r` under the colour table `colors`.
pub open spec fn palette_response(r: ResponseView, colors: Seq<Color>) -> Seq<u8> {
    match r {
        ResponseView::Help => palette_bytes(colors),
        ResponseView::Size(w, h) => be_bytes(w) + be_bytes(h),
        ResponseView::GetPixel(_, _, c) => c,
        ResponseView::Protocols(_) => Seq::empty(),
    }
}

/// The palette codec with its colour table.
#[derive(Clone, Debug)]
pub struct PaletteParser {
    colors: Vec<Color>,
}

impl Default for PaletteParser {
    /// A codec with a colour table of random colours.
    fn default() -> (r: PaletteParser)
        ensures
            r.palette().len() == PALETTE_SIZE,
    {
        let mut colors: Vec<Color> = Vec::new();
        let mut i: usize = 0;
        while i < PALETTE_SIZE
            invariant
                0 <= i <= PALETTE_SIZE,
                colors@.len() == i,
            decreases PALETTE_SIZE - i,
        {
            colors.push(Color::random());
            i += 1;
        }
        PaletteParser { colors }
    }
}

impl PaletteParser {
    /// The colour table.
    pub closed spec fn palette(&self) -> Seq<Color> {
        self.colors@
    }

    /// A codec with the colour table `colors`, which must have 256 entries.
    pub fn from_colors(colors: Vec<Color>) -> (r: Option<PaletteParser>)
        ensures
            colors@.len() == PALETTE_SIZE ==> (r matches Some(p) && p.palette() == colors@),
            colors@.len() != PALETTE_SIZE ==> r is None,
    {
        if colors.len() == PALETTE_SIZE {
            Some(PaletteParser { colors })
        } else {
            None
        }
    }

    /// Decodes the command at the front of `input`.
    pub fn parse(&self, input: &[u8], eof: bool) -> (r: Result<(Command, usize), ProtocolError>)
        requires
            self.palette().len() == PALETTE_SIZE,
        ensures
            r == palette_decode(input@, eof, self.palette()),
    {
        if input.len() == 0 {
            return Err(short_input_error(eof));
        }
        let op = input[0];
        let need: usize = if op == HELP_BIN {
            1
        } else if op == SIZE_BIN {
            2
        } else if op == GET_PX_BIN {
            6
        } else if op == SET_PX_PALETTE_BIN {
            7
        } else if op == CHANGE_COLOR_BIN {
            5
        } else {
            return Err(ProtocolError::InvalidInput);
        };
        if input.len() < need {
            return Err(short_input_error(eof));
        }
        let command = if op == HELP_BIN {
            Command::Help
        } else if op == SIZE_BIN {
            Command::Size(input[1])
        } else if op == CHANGE_COLOR_BIN {
            Command::ChangeColor(input[1], Color::RGB24(input[2], input[3], input[4]))
        } else {
            let canvas: Canvas = input[1];
            let x = read_u16_be(input, 2);
            let y = read_u16_be(input, 4);
            if op == GET_PX_BIN {
                Command::GetPixel(canvas, x, y)
            } else {
                Command::SetPixel(canvas, x, y, self.colors[input[6] as usize])
            }
        };
        Ok((command, need))
    }

    /// Replaces entry `index` of the colour table.
    pub fn change_color(&mut self, index: u8, color: Color)
        requires
            old(self).palette().len() == PALETTE_SIZE,
        ensures
            final(self).palette() == old(self).palette().update(index as int, color),
    {
        self.colors.set(index as usize, color);
    }

    /// The palette codec keeps no canvas selection.
    pub fn change_canvas(&mut self, canvas: Canvas) -> (r: Result<(), ProtocolError>)
        ensures
            r == Err::<(), ProtocolError>(ProtocolError::Unsupported),
            final(self).palette() == old(self).palette(),
    {
        Err(ProtocolError::Unsupported)
    }

    /// Appends the bytes that answer `response` to `out`; the help answer is
    /// the colour table itself.
    pub fn unparse(&self, response: Response, out: &mut Vec<u8>)
        ensures
            final(out)@ == old(out)@ + palette_response(response@, self.palette()),
    {
        let ghost start = out@;
        match response {
            Response::Help => {
                let mut i: usize = 0;
                while i < self.colors.len()
                    invariant
                        0 <= i <= self.colors@.len(),
                        out@ == start + palette_bytes(self.colors@.subrange(0, i as int)),
                    decreases self.colors@.len() - i,
                {
                    let c = self.colors[i].to_bytes();
                    out.push(c[0]);
                    out.push(c[1]);
                    out.push(c[2]);
                    out.push(c[3]);
                    i += 1;
                    proof {
                        let s = self.colors@.subrange(0, i as int);
                        assert(s.drop_last() =~= self.colors@.subrange(0, i - 1));
                        assert(out@ =~= start + palette_bytes(s));
                    }
                }
                assert(self.colors@.subrange(0, self.colors@.len() as int) =~= self.colors@);
            },
            Response::Size(w, h) => {
                push_u16_be(out, w);
                push_u16_be(out, h);
                assert(out@ =~= start + palette_response(response@, self.palette()));
            },
            Response::GetPixel(_, _, c) => {
                out.push(c[0]);
                out.push(c[1]);
                out.push(c[2]);
                assert(out@ =~= start + c@);
            },
            Response::Protocols(_) => {},
        }
    }
}


impl PaletteParser {
    /// The number of entries of the colour table.
    pub fn colors_len(&self) -> (r: usize)
        ensures
            r == self.palette().len(),
    {
        self.colors.len()
    }
}

} // verus!
