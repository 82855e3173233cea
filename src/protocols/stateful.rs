//! A binary codec that remembers the selected canvas: requests carry no
//! canvas byte, and coordinates are big-endian.
use vstd::prelude::*;
use vstd::string::StringSliceAdditionalSpecFns;

use crate::protocols::binary_protocol::BINARY_HELP_TEXT;
use crate::protocols::{
    be_bytes, push_u16_be, read_u16_be, short_input, short_input_error, u16_be, ProtocolError,
};
use crate::wire::push_str;
use crate::{Canvas, Color, Command, Response, ResponseView};

verus! {

pub const SIZE_BIN: u8 = 115;

pub const SET_CANVAS_BIN: u8 = 116;

pub const HELP_BIN: u8 = 104;

pub const GET_PX_BIN: u8 = 32;

pub const SET_PX_RGB_BIN: u8 = 128;

pub const SET_PX_RGBA_BIN: u8 = 129;

pub const SET_PX_W_BIN: u8 = 130;

pub const LOCK: u8 = 192;

/// The number of slots of a batched command of kind `op`, or zero for a kind
/// that cannot be batched.
pub open spec fn slot_count(op: u8) -> nat {
    if op == SET_PX_RGB_BIN {
        7
    } else if op == SET_PX_RGBA_BIN {
        8
    } else if op == SET_PX_W_BIN {
        5
    } else {
        0
    }
}

/// Whether slot `i` is held fixed by `mask`: slot 0 goes with the most
/// significant bit.
pub open spec fn is_fixed(mask: u8, i: int) -> bool {
    (mask as int / slot_weight(i)) % 2 == 1
}

/// The weight of the mask bit that slot `i` goes with.
pub open spec fn slot_weight(i: int) -> int {
    if i == 0 {
        128
    } else if i == 1 {
        64
    } else if i == 2 {
        32
    } else if i == 3 {
        16
    } else if i == 4 {
        8
    } else if i == 5 {
        4
    } else if i == 6 {
        2
    } else {
        1
    }
}

/// How many of the first `n` slots `mask` holds fixed.
pub open spec fn fixed_before(mask: u8, n: int) -> int
    decreases n,
{
    if n <= 0 {
        0
    } else {
        fixed_before(mask, n - 1) + if is_fixed(mask, n - 1) {
            1int
        } else {
            0int
        }
    }
}

/// The value of slot `i` of the `k`-th command of the batch frame `s`: a
/// fixed slot reads the fixed bytes after the header, any other slot reads
/// the command's own bytes after them.
pub open spec fn slot_value(s: Seq<u8>, k: int, i: int) -> u8 {
    let mask = s[4];
    let len = slot_count(s[3]) as int;
    let base = 5 + fixed_before(mask, 8);
    if is_fixed(mask, i) {
        s[5 + fixed_before(mask, i)]
    } else {
        s[base + k * (len - fixed_before(mask, len)) + (i - fixed_before(mask, i))]
    }
}

/// The `k`-th command of the batch frame `s`.
pub open spec fn locked_command(s: Seq<u8>, k: int, canvas: Canvas) -> Command {
    let v = |i: int| slot_value(s, k, i);
    let x = u16_be(v(0), v(1));
    let y = u16_be(v(2), v(3));
    let op = s[3];
    if op == SET_PX_RGB_BIN {
        Command::SetPixel(canvas, x, y, Color::RGB24(v(4), v(5), v(6)))
    } else if op == SET_PX_RGBA_BIN {
        Command::SetPixel(canvas, x, y, Color::RGBA32(v(4), v(5), v(6), v(7)))
    } else {
        Command::SetPixel(canvas, x, y, Color::W8(v(4)))
    }
}

/// The length of the batch frame `s`, whose header is whole.
pub open spec fn locked_len(s: Seq<u8>) -> int {
    let mask = s[4];
    let len = slot_count(s[3]) as int;
    5 + fixed_before(mask, 8) + u16_be(s[1], s[2]) * (len - fixed_before(mask, len))
}

/// What a batch frame at the front of `s` holds: a count, a command kind, a
/// mask of fixed slots, the fixed bytes, then the other bytes of each command.
pub open spec fn locked_decode(s: Seq<u8>, eof: bool, canvas: Canvas) -> Result<
    (Seq<Command>, usize),
    ProtocolError,
> {
    if s.len() >= 1 && s[0] != LOCK {
        Err(ProtocolError::InvalidInput)
    } else if s.len() >= 4 && slot_count(s[3]) == 0 {
        Err(ProtocolError::InvalidInput)
    } else if s.len() < 5 || s.len() < locked_len(s) {
        Err(short_input(eof))
    } else {
        Ok(
            (
                Seq::new(u16_be(s[1], s[2]) as nat, |k: int| locked_command(s, k, canvas)),
                locked_len(s) as usize,
            ),
        )
    }
}

/// The length of the frame that starts with `op`, or zero for an unknown byte.
pub open spec fn state_frame_len(op: u8) -> nat {
    if op == HELP_BIN || op == SIZE_BIN {
        1
    } else if op == SET_CANVAS_BIN {
        2
    } else if op == GET_PX_BIN {
        5
    } else if op == SET_PX_W_BIN {
        6
    } else if op == SET_PX_RGB_BIN {
        8
    } else if op == SET_PX_RGBA_BIN {
        9
    } else {
        0
    }
}

/// The command of a whole frame `s` on the canvas `canvas`.
pub open spec fn state_command(s: Seq<u8>, canvas: Canvas) -> Command {
    let op = s[0];
    if op == HELP_BIN {
        Command::Help
    } else if op == SIZE_BIN {
        Command::Size(canvas)
    } else if op == SET_CANVAS_BIN {
        Command::ChangeCanvas(s[1])
    } else {
        let x = u16_be(s[1], s[2]);
        let y = u16_be(s[3], s[4]);
        if op == GET_PX_BIN {
            Command::GetPixel(canvas, x, y)
        } else if op == SET_PX_W_BIN {
            Command::SetPixel(canvas, x, y, Color::W8(s[5]))
        } else if op == SET_PX_RGB_BIN {
            Command::SetPixel(canvas, x, y, Color::RGB24(s[5], s[6], s[7]))
        } else {
            Command::SetPixel(canvas, x, y, Color::RGBA32(s[5], s[6], s[7], s[8]))
        }
    }
}

/// What the codec decodes from the front of `s`, with the number of bytes the
/// command takes.
pub open spec fn state_decode(s: Seq<u8>, eof: bool, canvas: Canvas) -> Result<
    (Command, usize),
    ProtocolError,
> {
    if s.len() == 0 {
        Err(short_input(eof))
    } else if state_frame_len(s[0]) == 0 {
        Err(ProtocolError::InvalidInput)
    } else if s.len() < state_frame_len(s[0]) {
        Err(short_input(eof))
    } else {
        Ok((state_command(s, canvas), state_frame_len(s[0]) as usize))
    }
}

/// The bytes that answer `r`.
pub open spec fn state_response(r: ResponseView) -> Seq<u8> {
    match r {
        ResponseView::Help => BINARY_HELP_TEXT.spec_bytes(),
        ResponseView::Size(w, h) => be_bytes(w) + be_bytes(h),
        ResponseView::GetPixel(_, _, c) => c,
        ResponseView::Protocols(_) => Seq::empty(),
    }
}

proof fn lemma_fixed_before_bounds(mask: u8, n: int)
    requires
        0 <= n,
    ensures
        0 <= fixed_before(mask, n) <= n,
    decreases n,
{
    if n > 0 {
        lemma_fixed_before_bounds(mask, n - 1);
    }
}

proof fn lemma_fixed_before_mono(mask: u8, a: int, b: int)
    requires
        0 <= a <= b,
    ensures
        fixed_before(mask, a) <= fixed_before(mask, b),
        a - fixed_before(mask, a) <= b - fixed_before(mask, b),
    decreases b - a,
{
    if a < b {
        lemma_fixed_before_mono(mask, a, b - 1);
    }
}

/// A slot that is not fixed comes before the end of the command's own bytes.
proof fn lemma_fixed_before_step(mask: u8, i: int, len: int)
    requires
        0 <= i < len,
        !is_fixed(mask, i),
    ensures
        i - fixed_before(mask, i) < len - fixed_before(mask, len),
{
    lemma_fixed_before_mono(mask, i + 1, len);
}

proof fn lemma_dyn_index(base: int, k: int, amount: int, d: int, j: int)
    requires
        0 <= k < amount,
        0 <= j < d,
        0 <= base,
    ensures
        base + k * d + j < base + amount * d,
        0 <= k * d,
{
    assert(k * d + j < amount * d) by (nonlinear_arith)
        requires
            0 <= k < amount,
            0 <= j < d,
    ;
    assert(0 <= k * d) by (nonlinear_arith)
        requires
            0 <= k,
            0 <= d,
    ;
}

/// How many of the first `n` slots `mask` holds fixed.
fn count_fixed(mask: u8, n: usize) -> (r: usize)
    requires
        n <= 8,
    ensures
        r == fixed_before(mask, n as int),
        r <= n,
{
    let mut count: usize = 0;
    let mut i: usize = 0;
    let mut weight: u8 = 128;
    while i < n
        invariant
            i <= n <= 8,
            count == fixed_before(mask, i as int),
            count <= i,
            i < 8 ==> weight as int == slot_weight(i as int),
        decreases n - i,
    {
        if (mask / weight) % 2 == 1 {
            count = count + 1;
        }
        i = i + 1;
        weight = weight / 2;
    }
    count
}

/// The canvas-remembering binary codec.
#[derive(Clone, Copy, Debug)]
pub struct StateParser {
    canvas: Canvas,
}

impl Default for StateParser {
    fn default() -> (r: StateParser)
        ensures
            r.selected_canvas() == 0,
    {
        StateParser { canvas: 0 }
    }
}

impl StateParser {
    /// The canvas that the requests address.
    pub closed spec fn selected_canvas(&self) -> Canvas {
        self.canvas
    }

    /// Decodes the command at the front of `input`; a batch frame is not a
    /// single command and is read by `parse_locked`.
    pub fn parse(&self, input: &[u8], eof: bool) -> (r: Result<(Command, usize), ProtocolError>)
        ensures
            r == state_decode(input@, eof, self.selected_canvas()),
    {
        if input.len() == 0 {
            return Err(short_input_error(eof));
        }
        let op = input[0];
        let need: usize = if op == HELP_BIN || op == SIZE_BIN {
            1
        } else if op == SET_CANVAS_BIN {
            2
        } else if op == GET_PX_BIN {
            5
        } else if op == SET_PX_W_BIN {
            6
        } else if op == SET_PX_RGB_BIN {
            8
        } else if op == SET_PX_RGBA_BIN {
            9
        } else {
            return Err(ProtocolError::InvalidInput);
        };
        if input.len() < need {
            return Err(short_input_error(eof));
        }
        let command = if op == HELP_BIN {
            Command::Help
        } else if op == SIZE_BIN {
            Command::Size(self.canvas)
        } else if op == SET_CANVAS_BIN {
            Command::ChangeCanvas(input[1])
        } else {
            let x = read_u16_be(input, 1);
            let y = read_u16_be(input, 3);
            if op == GET_PX_BIN {
                Command::GetPixel(self.canvas, x, y)
            } else if op == SET_PX_W_BIN {
                Command::SetPixel(self.canvas, x, y, Color::W8(input[5]))
            } else if op == SET_PX_RGB_BIN {
                Command::SetPixel(self.canvas, x, y, Color::RGB24(input[5], input[6], input[7]))
            } else {
                Command::SetPixel(
                    self.canvas,
                    x,
                    y,
                    Color::RGBA32(input[5], input[6], input[7], input[8]),
                )
            }
        };
        Ok((command, need))
    }

    /// Decodes the batch frame at the front of `input` into its commands.
    pub fn parse_locked(&self, input: &[u8], eof: bool) -> (r: Result<
        (Vec<Command>, usize),
        ProtocolError,
    >)
        ensures
            match locked_decode(input@, eof, self.selected_canvas()) {
                Ok((cmds, n)) => r matches Ok((v, m)) && v@ == cmds && m == n,
                Err(e) => r == Err::<(Vec<Command>, usize), ProtocolError>(e),
            },
    {
        let n = input.len();
        if n >= 1 && input[0] != LOCK {
            return Err(ProtocolError::InvalidInput);
        }
        let len: usize = if n >= 4 {
            let op = input[3];
            if op == SET_PX_RGB_BIN {
                7
            } else if op == SET_PX_RGBA_BIN {
                8
            } else if op == SET_PX_W_BIN {
                5
            } else {
                return Err(ProtocolError::InvalidInput);
            }
        } else {
            return Err(short_input_error(eof));
        };
        if n < 5 {
            return Err(short_input_error(eof));
        }
        let op = input[3];
        let mask = input[4];
        let amount = read_u16_be(input, 1) as usize;
        let mut ranks: Vec<usize> = Vec::new();
        let mut fixed: Vec<bool> = Vec::new();
        let mut count: usize = 0;
        let mut i: usize = 0;
        let mut weight: u8 = 128;
        while i < 8
            invariant
                i <= 8,
                count == fixed_before(mask, i as int),
                count <= i,
                ranks@.len() == i,
                fixed@.len() == i,
                i < 8 ==> weight as int == slot_weight(i as int),
                forall|j: int| 0 <= j < i ==> ranks@[j] == fixed_before(mask, j),
                forall|j: int| 0 <= j < i ==> fixed@[j] == is_fixed(mask, j),
            decreases 8 - i,
        {
            ranks.push(count);
            let f = (mask / weight) % 2 == 1;
            fixed.push(f);
            if f {
                count = count + 1;
            }
            i = i + 1;
            weight = weight / 2;
        }
        let total_fixed = count;
        let dyn_len = len - count_fixed(mask, len);
        let base = 5 + total_fixed;
        assert(amount * dyn_len <= 65535 * 8) by (nonlinear_arith)
            requires
                amount <= 65535,
                dyn_len <= 8,
        ;
        let total = base + amount * dyn_len;
        assert(total == locked_len(input@)) by (nonlinear_arith)
            requires
                total == base + amount * dyn_len,
                base == 5 + fixed_before(mask, 8),
                dyn_len == len - fixed_before(mask, len as int),
                amount == u16_be(input@[1], input@[2]),
                len == slot_count(input@[3]),
                mask == input@[4],
        ;
        if n < total {
            return Err(short_input_error(eof));
        }
        let mut cmds: Vec<Command> = Vec::new();
        let mut k: usize = 0;
        while k < amount
            invariant
                k <= amount,
                5 <= len <= 8,
                n == input@.len(),
                total <= n,
                total == base + amount * dyn_len,
                base == 5 + total_fixed,
                total_fixed == fixed_before(mask, 8),
                dyn_len == len - fixed_before(mask, len as int),
                amount == u16_be(input@[1], input@[2]),
                len == slot_count(op),
                op == input@[3],
                mask == input@[4],
                ranks@.len() == 8,
                fixed@.len() == 8,
                forall|j: int| 0 <= j < 8 ==> ranks@[j] == fixed_before(mask, j),
                forall|j: int| 0 <= j < 8 ==> fixed@[j] == is_fixed(mask, j),
                cmds@ == Seq::new(k as nat, |j: int| locked_command(input@, j, self.selected_canvas())),
            decreases amount - k,
        {
            let mut slots: Vec<u8> = Vec::new();
            let mut i: usize = 0;
            while i < len
                invariant
                    i <= len <= 8,
                    5 <= len,
                    k < amount,
                    n == input@.len(),
                    total <= n,
                    total == base + amount * dyn_len,
                    base == 5 + total_fixed,
                    total_fixed == fixed_before(mask, 8),
                    dyn_len == len - fixed_before(mask, len as int),
                    len == slot_count(input@[3]),
                    mask == input@[4],
                    ranks@.len() == 8,
                    fixed@.len() == 8,
                    forall|j: int| 0 <= j < 8 ==> ranks@[j] == fixed_before(mask, j),
                    forall|j: int| 0 <= j < 8 ==> fixed@[j] == is_fixed(mask, j),
                    slots@.len() == i,
                    forall|j: int| 0 <= j < i ==> slots@[j] == slot_value(input@, k as int, j),
                decreases len - i,
            {
                proof {
                    lemma_fixed_before_bounds(mask, i as int);
                    lemma_fixed_before_bounds(mask, len as int);
                    lemma_fixed_before_bounds(mask, 8);
                    lemma_fixed_before_mono(mask, i as int, len as int);
                    lemma_fixed_before_mono(mask, len as int, 8);
                    if is_fixed(mask, i as int) {
                        lemma_fixed_before_mono(mask, i + 1, 8);
                        assert(fixed_before(mask, i + 1) == fixed_before(mask, i as int) + 1);
                        lemma_dyn_index(base as int, 0, 1, 1, 0);
                        assert(0 <= amount * dyn_len) by (nonlinear_arith)
                            requires
                                0 <= amount,
                                0 <= dyn_len,
                        ;
                    } else {
                        lemma_fixed_before_step(mask, i as int, len as int);
                        lemma_dyn_index(base as int, k as int, amount as int, dyn_len as int, i - fixed_before(mask, i as int));
                    }
                }
                let v = if fixed[i] {
                    input[5 + ranks[i]]
                } else {
                    input[base + k * dyn_len + (i - ranks[i])]
                };
                slots.push(v);
                i = i + 1;
            }
            let x = read_u16_be(slots.as_slice(), 0);
            let y = read_u16_be(slots.as_slice(), 2);
            let color = if op == SET_PX_RGB_BIN {
                Color::RGB24(slots[4], slots[5], slots[6])
            } else if op == SET_PX_RGBA_BIN {
                Color::RGBA32(slots[4], slots[5], slots[6], slots[7])
            } else {
                Color::W8(slots[4])
            };
            let c = Command::SetPixel(self.canvas, x, y, color);
            assert(c == locked_command(input@, k as int, self.selected_canvas()));
            cmds.push(c);
            k = k + 1;
            assert(cmds@ =~= Seq::new(k as nat, |j: int| locked_command(input@, j, self.selected_canvas())));
        }
        Ok((cmds, total))
    }

    /// This codec does not let the canvas be changed through the session.
    pub fn change_canvas(&mut self, canvas: Canvas) -> (r: Result<(), ProtocolError>)
        ensures
            r == Err::<(), ProtocolError>(ProtocolError::Unsupported),
            final(self).selected_canvas() == old(self).selected_canvas(),
    {
        Err(ProtocolError::Unsupported)
    }

    /// Appends the bytes that answer `response` to `out`.
    pub fn unparse(&self, response: Response, out: &mut Vec<u8>)
        ensures
            final(out)@ == old(out)@ + state_response(response@),
    {
        let ghost start = out@;
        match response {
            Response::Help => push_str(out, BINARY_HELP_TEXT),
            Response::Size(w, h) => {
                push_u16_be(out, w);
                push_u16_be(out, h);
                assert(out@ =~= start + state_response(response@));
            },
            Response::GetPixel(_, _, c) => {
                out.push(c[0]);
                out.push(c[1]);
                out.push(c[2]);
                assert(out@ =~= start + c@);
            },
            Response::Protocols(_) => {},
        }
    }
}

} // verus!
