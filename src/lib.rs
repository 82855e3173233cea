//! A Pixelflut server core: canvases, wire codecs, per-connection session
//! decisions and the small formatting pieces around the HTTP streamer.
use vstd::prelude::*;

pub mod random;
pub mod wire;
pub mod blame;
pub mod color;
pub mod config;
pub mod grid;
pub mod protocols;
pub mod session;
pub mod stream;
pub mod utils;
pub mod webapi;

pub use color::Color;

use crate::grid::{Flut, Grid, GridView};

verus! {

/// Index of a canvas.
pub type Canvas = u8;

/// A pixel coordinate on one axis.
pub type Coordinate = u16;

/// The wire protocols that a connection can switch to in-band.
#[derive(Debug, Clone, Copy, PartialEq, Eq, Structural)]
pub enum Protocol {
    Text,
    Binary,
}

/// Whether a known protocol can be used on this server.
#[derive(Debug, Clone, Copy, PartialEq, Eq, Structural)]
pub enum ProtocolStatus {
    Enabled(Protocol),
    Disabled(Protocol),
}

/// A request decoded from a client.
#[derive(Debug, Clone, Copy, PartialEq, Eq, Structural)]
pub enum Command {
    Help,
    Protocols,
    Size(Canvas),
    GetPixel(Canvas, Coordinate, Coordinate),
    SetPixel(Canvas, Coordinate, Coordinate, Color),
    ChangeCanvas(Canvas),
    ChangeProtocol(Protocol),
    /// Replaces one entry of a palette codec's colour table.
    ChangeColor(u8, Color),
}

/// An answer written back to a client.
#[derive(Debug, Clone, PartialEq)]
pub enum Response {
    Help,
    Protocols(Vec<ProtocolStatus>),
    Size(Coordinate, Coordinate),
    GetPixel(Coordinate, Coordinate, [u8; 3]),
}

/// What each canvas of a list holds.
pub open spec fn grid_views(g: Seq<Flut<u32>>) -> Seq<GridView<u32>> {
    g.map_values(|f: Flut<u32>| f@)
}

/// Every canvas of the list is well formed.
pub open spec fn all_wf(g: Seq<Flut<u32>>) -> bool {
    forall|i: int| 0 <= i < g.len() ==> (#[trigger] g[i])@.wf()
}

/// Whether a write at `(x, y)` of canvas `canvas` lands on a cell.
pub open spec fn lands(g: Seq<GridView<u32>>, canvas: Canvas, x: Coordinate, y: Coordinate) -> bool {
    (canvas as int) < g.len() && g[canvas as int].in_bounds(x as int, y as int)
}

/// The canvases after a write of `rgb` at `(x, y)` of canvas `canvas`; a write
/// to a canvas that does not exist changes nothing.
pub open spec fn grids_after_set(
    g: Seq<GridView<u32>>,
    canvas: Canvas,
    x: Coordinate,
    y: Coordinate,
    rgb: u32,
) -> Seq<GridView<u32>> {
    if (canvas as int) < g.len() {
        g.update(canvas as int, g[canvas as int].set(x as int, y as int, rgb))
    } else {
        g
    }
}

/// Writes `rgb` at `(x, y)` of canvas `canvas`, and tells whether a cell was
/// written.
pub fn set_pixel_rgba(grids: &mut Vec<Flut<u32>>, canvas: Canvas, x: Coordinate, y: Coordinate, rgb: u32) -> (r: bool)
    requires
        all_wf(old(grids)@),
    ensures
        all_wf(final(grids)@),
        final(grids)@.len() == old(grids)@.len(),
        grid_views(final(grids)@) == grids_after_set(grid_views(old(grids)@), canvas, x, y, rgb),
        r == lands(grid_views(old(grids)@), canvas, x, y),
{
    let ghost gv = grid_views(grids@);
    if (canvas as usize) < grids.len() {
        let c = canvas as usize;
        assert(grids@[c as int]@.wf());
        let r = grids[c].get(x, y).is_some();
        grids[c].set(x, y, rgb);
        proof {
            assert(grid_views(grids@) =~= grids_after_set(gv, canvas, x, y, rgb));
            assert forall|i: int| 0 <= i < grids@.len() implies (#[trigger] grids@[i])@.wf() by {
                if i != c {
                    assert(grids@[i] == old(grids)@[i]);
                }
            }
        }
        r
    } else {
        assert(grid_views(grids@) =~= grids_after_set(gv, canvas, x, y, rgb));
        false
    }
}

/// The cell at `(x, y)` of canvas `canvas`, if there is one.
pub fn get_pixel(grids: &Vec<Flut<u32>>, canvas: Canvas, x: Coordinate, y: Coordinate) -> (r: Option<u32>)
    requires
        all_wf(grids@),
    ensures
        r == (if (canvas as int) < grids@.len() {
            grids@[canvas as int]@.get(x as int, y as int)
        } else {
            None
        }),
{
    if (canvas as usize) < grids.len() {
        assert(grids@[canvas as int]@.wf());
        match grids[canvas as usize].get(x, y) {
            Some(v) => Some(*v),
            None => None,
        }
    } else {
        None
    }
}

/// What a response holds, with its colour as a sequence.
pub enum ResponseView {
    Help,
    Protocols(Seq<ProtocolStatus>),
    Size(Coordinate, Coordinate),
    GetPixel(Coordinate, Coordinate, Seq<u8>),
}

impl View for Response {
    type V = ResponseView;

    open spec fn view(&self) -> ResponseView {
        match self {
            Response::Help => ResponseView::Help,
            Response::Protocols(l) => ResponseView::Protocols(l@),
            Response::Size(w, h) => ResponseView::Size(*w, *h),
            Response::GetPixel(x, y, c) => ResponseView::GetPixel(*x, *y, c@),
        }
    }
}

} // verus!
