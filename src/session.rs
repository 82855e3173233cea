//! What a connection decides: which codec reads its bytes, what each command
//! does to the canvases and writes back, and when its pixel count is handed
//! to the global counter. Reading and writing the socket is the caller's.
use vstd::prelude::*;

use crate::color::cell_rgb;
use crate::config::{BATCH_N, GRID_LENGTH};
use crate::grid::{Flut, GridView};
use crate::protocols::binary_protocol::{binary_decode, binary_response};
use crate::protocols::palette_protocol::{palette_decode, palette_response, PALETTE_SIZE};
use crate::protocols::text_protocol::{
    lemma_find_from_bounds, text_decode, text_response, NEWLINE,
};
use crate::protocols::{BinaryParser, PaletteParser, ProtocolError, TextParser};
use crate::{
    Canvas, Color,
    all_wf, get_pixel, grid_views, grids_after_set, lands, set_pixel_rgba, Command, Protocol,
    ProtocolStatus, Response, ResponseView,
};

verus! {

/// The codec that a connection currently speaks.
#[derive(Clone, Debug)]
pub enum ParserTypes {
    TextParser(TextParser),
    BinaryParser(BinaryParser),
    PaletteParser(PaletteParser),
}

/// The protocols that this server reports, in order.
pub open spec fn enabled_protocols() -> Seq<ProtocolStatus> {
    seq![ProtocolStatus::Enabled(Protocol::Text), ProtocolStatus::Enabled(Protocol::Binary)]
}

impl Default for ParserTypes {
    fn default() -> (r: ParserTypes)
        ensures
            r matches ParserTypes::TextParser(t) && t.selected_canvas() == 0,
    {
        ParserTypes::TextParser(TextParser::new(0))
    }
}

/// What a codec is, as far as what it decodes and writes goes: the text codec
/// with its selected canvas, the binary codec, or the palette codec with its
/// colour table.
pub enum CodecView {
    Text(Canvas),
    Binary,
    Palette(Seq<Color>),
}

impl CodecView {
    pub open spec fn wf(self) -> bool {
        match self {
            CodecView::Palette(p) => p.len() == PALETTE_SIZE,
            _ => true,
        }
    }

    /// What the codec decodes from the front of `s`.
    pub open spec fn decode(self, s: Seq<u8>, eof: bool) -> Result<(Command, usize), ProtocolError> {
        match self {
            CodecView::Text(c) => text_decode(s, eof, c),
            CodecView::Binary => binary_decode(s, eof),
            CodecView::Palette(p) => palette_decode(s, eof, p),
        }
    }

    /// The bytes with which the codec answers `r`.
    pub open spec fn respond(self, r: ResponseView) -> Seq<u8> {
        match self {
            CodecView::Text(_) => text_response(r),
            CodecView::Binary => binary_response(r),
            CodecView::Palette(p) => palette_response(r, p),
        }
    }
}

impl View for ParserTypes {
    type V = CodecView;

    open spec fn view(&self) -> CodecView {
        match self {
            ParserTypes::TextParser(t) => CodecView::Text(t.selected_canvas()),
            ParserTypes::BinaryParser(_) => CodecView::Binary,
            ParserTypes::PaletteParser(p) => CodecView::Palette(p.palette()),
        }
    }
}

impl ParserTypes {
    pub open spec fn wf(&self) -> bool {
        self@.wf()
    }

    /// What the codec decodes from the front of `s`.
    pub open spec fn decode(&self, s: Seq<u8>, eof: bool) -> Result<(Command, usize), ProtocolError> {
        self@.decode(s, eof)
    }

    /// The bytes with which the codec answers `r`.
    pub open spec fn respond(&self, r: ResponseView) -> Seq<u8> {
        self@.respond(r)
    }

    /// The protocols that this server reports.
    pub fn announce() -> (r: Vec<ProtocolStatus>)
        ensures
            r@ == enabled_protocols(),
    {
        let mut v: Vec<ProtocolStatus> = Vec::new();
        v.push(ProtocolStatus::Enabled(Protocol::Text));
        v.push(ProtocolStatus::Enabled(Protocol::Binary));
        assert(v@ =~= enabled_protocols());
        v
    }

    pub fn parse(&self, input: &[u8], eof: bool) -> (r: Result<(Command, usize), ProtocolError>)
        requires
            self.wf(),
        ensures
            r == self.decode(input@, eof),
    {
        match self {
            ParserTypes::TextParser(p) => p.parse(input, eof),
            ParserTypes::BinaryParser(p) => p.parse(input, eof),
            ParserTypes::PaletteParser(p) => p.parse(input, eof),
        }
    }

    pub fn unparse(&self, response: Response, out: &mut Vec<u8>)
        ensures
            final(out)@ == old(out)@ + self.respond(response@),
    {
        match self {
            ParserTypes::TextParser(p) => p.unparse(response, out),
            ParserTypes::BinaryParser(p) => p.unparse(response, out),
            ParserTypes::PaletteParser(p) => p.unparse(response, out),
        }
    }
}

/// A decoded command consumes at least one byte and no more than there are.
pub proof fn lemma_decode_progress(p: ParserTypes, s: Seq<u8>, eof: bool)
    requires
        s.len() <= usize::MAX,
    ensures
        p.decode(s, eof) matches Ok((_, n)) ==> 1 <= n <= s.len(),
{
    lemma_find_from_bounds(s, 0, NEWLINE);
}

/// Whether `cmd` can be carried out by a session speaking `codec` on the
/// canvases `g`; otherwise the session fails with `InvalidInput`.
pub open spec fn command_ok(codec: CodecView, cmd: Command, g: Seq<GridView<u32>>) -> bool {
    match cmd {
        Command::Size(c) => (c as int) < g.len() && g[c as int].width <= 65535 && g[c as int].height
            <= 65535,
        Command::GetPixel(c, x, y) => (c as int) < g.len() && g[c as int].get(x as int, y as int) is Some,
        Command::ChangeCanvas(c) => codec is Text && (c as usize) < GRID_LENGTH,
        Command::ChangeColor(..) => codec is Palette,
        _ => true,
    }
}

/// The response that `cmd` asks for, if any.
pub open spec fn command_response(cmd: Command, g: Seq<GridView<u32>>) -> Option<ResponseView> {
    match cmd {
        Command::Help => Some(ResponseView::Help),
        Command::Protocols => Some(ResponseView::Protocols(enabled_protocols())),
        Command::Size(c) => Some(
            ResponseView::Size(g[c as int].width as u16, g[c as int].height as u16),
        ),
        Command::GetPixel(c, x, y) => Some(
            ResponseView::GetPixel(x, y, cell_rgb(g[c as int].get(x as int, y as int)->Some_0)),
        ),
        _ => None,
    }
}

/// The bytes that `cmd` writes back under `codec`.
pub open spec fn command_output(codec: CodecView, cmd: Command, g: Seq<GridView<u32>>) -> Seq<u8> {
    match command_response(cmd, g) {
        Some(r) => codec.respond(r),
        None => Seq::empty(),
    }
}

/// The canvases after `cmd`.
pub open spec fn command_grids(cmd: Command, g: Seq<GridView<u32>>) -> Seq<GridView<u32>> {
    match cmd {
        Command::SetPixel(c, x, y, color) => grids_after_set(g, c, x, y, color.cell()),
        _ => g,
    }
}

/// Whether `cmd` writes a cell.
pub open spec fn command_writes(cmd: Command, g: Seq<GridView<u32>>) -> bool {
    match cmd {
        Command::SetPixel(c, x, y, _) => lands(g, c, x, y),
        _ => false,
    }
}

/// The codec after a successful `cmd`: a canvas or protocol change, or a
/// palette entry change, replaces it; nothing else touches it.
pub open spec fn codec_next(codec: CodecView, cmd: Command) -> CodecView {
    match cmd {
        Command::ChangeCanvas(c) => CodecView::Text(c),
        Command::ChangeProtocol(Protocol::Text) => CodecView::Text(0),
        Command::ChangeProtocol(Protocol::Binary) => CodecView::Binary,
        Command::ChangeColor(i, color) => match codec {
            CodecView::Palette(p) => CodecView::Palette(p.update(i as int, color)),
            _ => codec,
        },
        _ => codec,
    }
}

/// The state of one connection.
pub struct Session {
    parser: ParserTypes,
    counter: u64,
    parsed: u32,
    written: Ghost<nat>,
    flushed: Ghost<nat>,
}

/// How a call of `Session::process` ended.
#[derive(Debug, Clone, Copy, PartialEq, Eq, Structural)]
pub enum Status {
    /// More input is needed, or a batch of pixels is ready to be counted.
    Continue,
    /// The client closed the stream cleanly.
    Closed,
    /// The session fails with this error.
    Failed(ProtocolError),
}

/// What a call of `Session::process` did.
pub struct Progress {
    /// Bytes of the input that were used.
    pub consumed: usize,
    /// Pixel writes to add to the global counter.
    pub pixels: u64,
    pub status: Status,
}

impl Session {
    /// The codec in use.
    pub closed spec fn codec(&self) -> ParserTypes {
        self.parser
    }

    /// In-bounds writes not yet handed to the global counter.
    pub closed spec fn pending(&self) -> nat {
        self.counter as nat
    }

    /// Commands since the counter was last handed over.
    pub closed spec fn since_flush(&self) -> nat {
        self.parsed as nat
    }

    /// In-bounds writes made by this session so far.
    pub closed spec fn written(&self) -> nat {
        self.written@
    }

    /// Writes handed to the global counter so far.
    pub closed spec fn flushed(&self) -> nat {
        self.flushed@
    }

    pub open spec fn wf(&self) -> bool {
        &&& self.codec().wf()
        &&& self.pending() <= self.since_flush() < BATCH_N
        &&& self.flushed() + self.pending() == self.written()
    }

    /// A session that speaks `parser` from its first byte.
    pub fn with_parser(parser: ParserTypes) -> (r: Option<Session>)
        ensures
            parser.wf() ==> (r matches Some(s) && s.wf() && s.codec() == parser && s.written() == 0),
            !parser.wf() ==> r is None,
    {
        let ok = match &parser {
            ParserTypes::PaletteParser(p) => p.colors_len() == PALETTE_SIZE,
            _ => true,
        };
        if ok {
            Some(Session { parser, counter: 0, parsed: 0, written: Ghost(0), flushed: Ghost(0) })
        } else {
            None
        }
    }

    /// A session that starts with the text codec on canvas zero.
    pub fn new() -> (r: Session)
        ensures
            r.wf(),
            r.codec() matches ParserTypes::TextParser(t) && t.selected_canvas() == 0,
            r.written() == 0,
            r.flushed() == 0,
    {
        Session {
            parser: ParserTypes::default(),
            counter: 0,
            parsed: 0,
            written: Ghost(0),
            flushed: Ghost(0),
        }
    }

    pub fn parser(&self) -> (r: &ParserTypes)
        ensures
            *r == self.codec(),
    {
        &self.parser
    }

    /// Carries out one command on `grids`, appends its answer to `out`, and
    /// returns how many pixel writes to add to the global counter now. A
    /// command that cannot be carried out changes nothing and fails the
    /// session with `InvalidInput`.
    pub fn handle(&mut self, grids: &mut Vec<Flut<u32>>, command: Command, out: &mut Vec<u8>) -> (r:
        Result<u64, ProtocolError>)
        requires
            old(self).wf(),
            all_wf(old(grids)@),
        ensures
            final(self).wf(),
            all_wf(final(grids)@),
            final(grids)@.len() == old(grids)@.len(),
            r is Ok <==> command_ok(old(self).codec()@, command, grid_views(old(grids)@)),
            match r {
                Ok(p) => {
                    &&& grid_views(final(grids)@) == command_grids(command, grid_views(old(grids)@))
                    &&& final(out)@ == old(out)@ + command_output(
                        old(self).codec()@,
                        command,
                        grid_views(old(grids)@),
                    )
                    &&& final(self).codec()@ == codec_next(old(self).codec()@, command)
                    &&& final(self).written() == old(self).written() + (if command_writes(
                        command,
                        grid_views(old(grids)@),
                    ) {
                        1int
                    } else {
                        0int
                    })
                    &&& final(self).flushed() == old(self).flushed() + p
                    &&& (old(self).since_flush() + 1 < BATCH_N ==> p == 0
                        && final(self).since_flush() == old(self).since_flush() + 1
                        && final(self).pending() == final(self).written() - old(self).flushed())
                    &&& (old(self).since_flush() + 1 == BATCH_N ==> final(self).pending() == 0
                        && final(self).since_flush() == 0)
                },
                Err(e) => {
                    &&& e == ProtocolError::InvalidInput
                    &&& !command_ok(old(self).codec()@, command, grid_views(old(grids)@))
                    &&& grid_views(final(grids)@) == grid_views(old(grids)@)
                    &&& final(out)@ == old(out)@
                    &&& *final(self) == *old(self)
                },
            },
    {
        let ghost g = grid_views(grids@);
        let mut wrote = false;
        match command {
            Command::Help => {
                self.parser.unparse(Response::Help, out);
            },
            Command::Protocols => {
                let list = ParserTypes::announce();
                self.parser.unparse(Response::Protocols(list), out);
            },
            Command::Size(canvas) => {
                if (canvas as usize) >= grids.len() {
                    return Err(ProtocolError::InvalidInput);
                }
                let (w, h) = grids[canvas as usize].get_size();
                if w > 65535 || h > 65535 {
                    return Err(ProtocolError::InvalidInput);
                }
                self.parser.unparse(Response::Size(w as u16, h as u16), out);
            },
            Command::GetPixel(canvas, x, y) => {
                let v = match get_pixel(grids, canvas, x, y) {
                    Some(v) => v,
                    None => return Err(ProtocolError::InvalidInput),
                };
                let rgb = [(v / 0x1000000) as u8, ((v / 0x10000) % 0x100) as u8, ((v / 0x100) % 0x100) as u8];
                assert(rgb@ =~= cell_rgb(v));
                self.parser.unparse(Response::GetPixel(x, y, rgb), out);
            },
            Command::SetPixel(canvas, x, y, color) => {
                wrote = set_pixel_rgba(grids, canvas, x, y, color.to_cell());
            },
            Command::ChangeCanvas(canvas) => {
                let ok = match &mut self.parser {
                    ParserTypes::TextParser(p) => p.change_canvas(canvas).is_ok(),
                    _ => false,
                };
                if !ok {
                    return Err(ProtocolError::InvalidInput);
                }
            },
            Command::ChangeProtocol(protocol) => {
                self.parser = match protocol {
                    Protocol::Text => ParserTypes::TextParser(TextParser::new(0)),
                    Protocol::Binary => ParserTypes::BinaryParser(BinaryParser::new()),
                };
            },
            Command::ChangeColor(index, color) => {
                let ok = match &mut self.parser {
                    ParserTypes::PaletteParser(p) => {
                        p.change_color(index, color);
                        true
                    },
                    _ => false,
                };
                if !ok {
                    return Err(ProtocolError::InvalidInput);
                }
            },
        }
        assert(grid_views(grids@) == command_grids(command, g));
        if wrote {
            self.counter = self.counter + 1;
            self.written = Ghost(self.written@ + 1);
        }
        self.parsed = self.parsed + 1;
        if self.parsed == BATCH_N {
            let amount = self.counter;
            self.counter = 0;
            self.parsed = 0;
            self.flushed = Ghost(self.flushed@ + amount as nat);
            Ok(amount)
        } else {
            Ok(0)
        }
    }
}


/// Where a run of commands over a buffer stands: the codec, the canvases,
/// the bytes written back, the bytes of input used, and the pixel counts.
pub struct RunState {
    pub codec: CodecView,
    pub grids: Seq<GridView<u32>>,
    pub out: Seq<u8>,
    pub consumed: nat,
    pub pending: nat,
    pub since_flush: nat,
    pub written: nat,
}

/// How a run of commands ended, and how many pixel writes it handed over.
pub struct RunResult {
    pub state: RunState,
    pub status: Status,
    pub pixels: nat,
}

/// The state after carrying out `cmd`, which is `command_ok`, with the pixel
/// writes that it hands over (nonzero only when a batch completes).
pub open spec fn run_step(st: RunState, cmd: Command) -> (RunState, nat) {
    let w: nat = if command_writes(cmd, st.grids) {
        1
    } else {
        0
    };
    let pending = st.pending + w;
    let since = st.since_flush + 1;
    let next = RunState {
        codec: codec_next(st.codec, cmd),
        grids: command_grids(cmd, st.grids),
        out: st.out + command_output(st.codec, cmd, st.grids),
        consumed: st.consumed,
        pending: if since == BATCH_N {
            0
        } else {
            pending
        },
        since_flush: if since == BATCH_N {
            0
        } else {
            since
        },
        written: st.written + w,
    };
    (next, if since == BATCH_N {
        pending
    } else {
        0
    })
}

/// What `Session::process` does from `st` on `input`: decode a command at
/// the position reached, carry it out, and go on, until the input runs
/// short, the stream ends, decoding or a command fails, or a batch hands
/// over pixel writes.
pub open spec fn run(st: RunState, input: Seq<u8>, eof: bool) -> RunResult
    decreases input.len() - st.consumed,
{
    if st.consumed > input.len() {
        RunResult { state: st, status: Status::Continue, pixels: 0 }
    } else {
        match st.codec.decode(input.subrange(st.consumed as int, input.len() as int), eof) {
            Ok((cmd, n)) => {
                let st1 = RunState { consumed: st.consumed + n as nat, ..st };
                if n == 0 || st1.consumed > input.len() {
                    RunResult { state: st, status: Status::Continue, pixels: 0 }
                } else if !command_ok(st.codec, cmd, st.grids) {
                    RunResult {
                        state: st1,
                        status: Status::Failed(ProtocolError::InvalidInput),
                        pixels: 0,
                    }
                } else {
                    let (st2, p) = run_step(st1, cmd);
                    if p > 0 {
                        RunResult { state: st2, status: Status::Continue, pixels: p }
                    } else {
                        run(st2, input, eof)
                    }
                }
            },
            Err(ProtocolError::Incomplete) => RunResult {
                state: st,
                status: Status::Continue,
                pixels: 0,
            },
            Err(ProtocolError::UnexpectedEof) => RunResult {
                state: st,
                status: Status::Closed,
                pixels: 0,
            },
            Err(e) => RunResult { state: st, status: Status::Failed(e), pixels: 0 },
        }
    }
}

/// `run` from `st` once the command `cmd` of `n` bytes has been decoded there.
pub open spec fn run_decoded(st: RunState, input: Seq<u8>, eof: bool, cmd: Command, n: usize) -> RunResult {
    let st1 = RunState { consumed: st.consumed + n as nat, ..st };
    let (st2, p) = run_step(st1, cmd);
    if !command_ok(st.codec, cmd, st.grids) {
        RunResult { state: st1, status: Status::Failed(ProtocolError::InvalidInput), pixels: 0 }
    } else if p > 0 {
        RunResult { state: st2, status: Status::Continue, pixels: p }
    } else if n >= 1 && st.consumed + n <= input.len() {
        run(st2, input, eof)
    } else {
        RunResult { state: st, status: Status::Continue, pixels: 0 }
    }
}

/// `run` from `st` when decoding there fails with `e`.
pub open spec fn run_failed(st: RunState, e: ProtocolError) -> RunResult {
    RunResult {
        state: st,
        status: if e == ProtocolError::Incomplete {
            Status::Continue
        } else if e == ProtocolError::UnexpectedEof {
            Status::Closed
        } else {
            Status::Failed(e)
        },
        pixels: 0,
    }
}

proof fn lemma_run_decoded(st: RunState, input: Seq<u8>, eof: bool, cmd: Command, n: usize)
    requires
        st.consumed <= input.len(),
        st.codec.decode(input.subrange(st.consumed as int, input.len() as int), eof) == Ok::<
            (Command, usize),
            ProtocolError,
        >((cmd, n)),
        1 <= n,
        st.consumed + n <= input.len(),
    ensures
        run(st, input, eof) == run_decoded(st, input, eof, cmd, n),
{
}

proof fn lemma_run_error(st: RunState, input: Seq<u8>, eof: bool, e: ProtocolError)
    requires
        st.consumed <= input.len(),
        st.codec.decode(input.subrange(st.consumed as int, input.len() as int), eof) == Err::<
            (Command, usize),
            ProtocolError,
        >(e),
    ensures
        run(st, input, eof) == run_failed(st, e),
{
}

proof fn lemma_after_handle(
    before: Session,
    after: Session,
    g0: Seq<Flut<u32>>,
    g1: Seq<Flut<u32>>,
    o0: Seq<u8>,
    o1: Seq<u8>,
    pos: nat,
    cmd: Command,
    p: u64,
)
    requires
        before.wf(),
        after.wf(),
        command_ok(before.codec()@, cmd, grid_views(g0)),
        grid_views(g1) == command_grids(cmd, grid_views(g0)),
        o1 == o0 + command_output(before.codec()@, cmd, grid_views(g0)),
        after.codec()@ == codec_next(before.codec()@, cmd),
        after.written() == before.written() + (if command_writes(cmd, grid_views(g0)) {
            1int
        } else {
            0int
        }),
        after.flushed() == before.flushed() + p,
        before.since_flush() + 1 < BATCH_N ==> p == 0 && after.since_flush() == before.since_flush()
            + 1,
        before.since_flush() + 1 == BATCH_N ==> after.pending() == 0 && after.since_flush() == 0,
    ensures
        after.run_state(g1, o1, pos) == run_step(before.run_state(g0, o0, pos), cmd).0,
        p == run_step(before.run_state(g0, o0, pos), cmd).1,
{
    let (st2, q) = run_step(before.run_state(g0, o0, pos), cmd);
    assert(after.run_state(g1, o1, pos) == st2);
}

impl Session {
    /// The run state of this session over `grids`, having written `out` and
    /// used `consumed` bytes.
    pub open spec fn run_state(&self, grids: Seq<Flut<u32>>, out: Seq<u8>, consumed: nat) -> RunState {
        RunState {
            codec: self.codec()@,
            grids: grid_views(grids),
            out,
            consumed,
            pending: self.pending(),
            since_flush: self.since_flush(),
            written: self.written(),
        }
    }

    /// Decodes and carries out the commands at the front of `input`, appending
    /// their answers to `out`, exactly as `run` says: it stops when the input
    /// runs short, when the stream ends, when decoding or a command fails, or
    /// right after a batch of pixel writes is handed over.
    #[verifier::rlimit(40)]
    pub fn process(
        &mut self,
        grids: &mut Vec<Flut<u32>>,
        input: &[u8],
        eof: bool,
        out: &mut Vec<u8>,
    ) -> (r: Progress)
        requires
            old(self).wf(),
            all_wf(old(grids)@),
        ensures
            final(self).wf(),
            all_wf(final(grids)@),
            final(grids)@.len() == old(grids)@.len(),
            final(self).flushed() == old(self).flushed() + r.pixels,
            final(self).run_state(final(grids)@, final(out)@, r.consumed as nat) == run(
                old(self).run_state(old(grids)@, old(out)@, 0),
                input@,
                eof,
            ).state,
            r.status == run(old(self).run_state(old(grids)@, old(out)@, 0), input@, eof).status,
            r.pixels == run(old(self).run_state(old(grids)@, old(out)@, 0), input@, eof).pixels,
    {
        let ghost start = old(self).run_state(old(grids)@, old(out)@, 0);
        let mut pos: usize = 0;
        while pos <= input.len()
            invariant
                pos <= input@.len(),
                self.wf(),
                all_wf(grids@),
                grids@.len() == old(grids)@.len(),
                self.flushed() == old(self).flushed(),
                start == old(self).run_state(old(grids)@, old(out)@, 0),
                run(start, input@, eof) == run(self.run_state(grids@, out@, pos as nat), input@, eof),
            decreases input@.len() - pos,
        {
            let ghost cur = self.run_state(grids@, out@, pos as nat);
            let rest = &input[pos..input.len()];
            assert(rest@ == input@.subrange(pos as int, input@.len() as int));
            proof {
                lemma_decode_progress(self.codec(), rest@, eof);
            }
            match self.parser.parse(rest, eof) {
                Ok((command, n)) => {
                    proof {
                        lemma_run_decoded(cur, input@, eof, command, n);
                    }
                    pos = pos + n;
                    let ghost st1 = RunState { consumed: pos as nat, ..cur };
                    let ghost old_self = *self;
                    let ghost g0 = grids@;
                    let ghost o0 = out@;
                    assert(old_self.run_state(g0, o0, pos as nat) == st1);
                    match self.handle(grids, command, out) {
                        Ok(p) => {
                            proof {
                                lemma_after_handle(old_self, *self, g0, grids@, o0, out@, pos as nat, command, p);
                                assert(command_ok(cur.codec, command, cur.grids));
                                assert(run_step(st1, command).1 == p);
                                if p > 0 {
                                    assert(run_decoded(cur, input@, eof, command, n) == RunResult {
                                        state: run_step(st1, command).0,
                                        status: Status::Continue,
                                        pixels: p as nat,
                                    });
                                }
                            }
                            if p > 0 {
                                return Progress { consumed: pos, pixels: p, status: Status::Continue };
                            }
                        },
                        Err(e) => {
                            assert(self.run_state(grids@, out@, pos as nat) == st1);
                            return Progress { consumed: pos, pixels: 0, status: Status::Failed(e) };
                        },
                    }
                },
                Err(e) => {
                    proof {
                        lemma_run_error(cur, input@, eof, e);
                    }
                    let status = match e {
                        ProtocolError::Incomplete => Status::Continue,
                        ProtocolError::UnexpectedEof => Status::Closed,
                        _ => Status::Failed(e),
                    };
                    return Progress { consumed: pos, pixels: 0, status };
                },
            }
        }
        Progress { consumed: pos, pixels: 0, status: Status::Continue }
    }

    /// Ends the session: returns the writes not yet counted, after which every
    /// write of the session has been handed to the global counter.
    pub fn close(&mut self) -> (r: u64)
        requires
            old(self).wf(),
        ensures
            final(self).wf(),
            r == old(self).pending(),
            final(self).pending() == 0,
            final(self).flushed() == old(self).flushed() + r,
            final(self).flushed() == final(self).written(),
            final(self).written() == old(self).written(),
    {
        let amount = self.counter;
        self.counter = 0;
        self.flushed = Ghost(self.flushed@ + amount as nat);
        amount
    }
}

/// The pixel counter of a connection lags its in-bounds writes by less than a
/// batch: every in-bounds write made so far has either been handed to the
/// global counter or is pending, and fewer than a batch are pending.
pub proof fn lemma_counter_accounting(s: Session)
    requires
        s.wf(),
    ensures
        s.flushed() + s.pending() == s.written(),
        s.pending() < BATCH_N,
{
}

} // verus!
