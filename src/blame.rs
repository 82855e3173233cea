//! Which user last wrote each cell of a canvas.
use vstd::prelude::*;

use crate::grid::{Flut, Grid, GridView};
use crate::Coordinate;

verus! {

/// An authenticated user.
pub type User = u32;

/// A canvas-sized map from cells to the user who wrote them last.
pub struct BlameMap {
    cells: Flut<User>,
}

impl BlameMap {
    /// The map, as a grid of users.
    pub closed spec fn view_grid(&self) -> GridView<User> {
        self.cells@
    }

    /// A `size_x` by `size_y` map in which no cell is blamed on anyone (user 0).
    pub fn new(size_x: usize, size_y: usize) -> (r: BlameMap)
        requires
            size_x * size_y <= usize::MAX,
        ensures
            r.view_grid().wf(),
            r.view_grid().width == size_x,
            r.view_grid().height == size_y,
            r.view_grid().cells == Seq::new((size_x * size_y) as nat, |i: int| 0u32),
    {
        BlameMap { cells: Flut::init(size_x, size_y, 0) }
    }

    /// Width and height.
    pub fn dimensions(&self) -> (r: (usize, usize))
        ensures
            r.0 == self.view_grid().width,
            r.1 == self.view_grid().height,
    {
        self.cells.get_size()
    }

    /// Blames the cell at `(x, y)` on `user`; off the map nothing happens.
    pub fn set_blame(&mut self, x: Coordinate, y: Coordinate, user: User)
        requires
            old(self).view_grid().wf(),
        ensures
            final(self).view_grid() == old(self).view_grid().set(x as int, y as int, user),
            final(self).view_grid().wf(),
    {
        self.cells.set(x, y, user);
    }

    /// The user's four bytes, most significant first, for the cell at `(x, y)`.
    pub fn get_pixel(&self, x: Coordinate, y: Coordinate) -> (r: Option<[u8; 4]>)
        requires
            self.view_grid().wf(),
        ensures
            match self.view_grid().get(x as int, y as int) {
                Some(u) => r matches Some(b) && b@ == seq![
                    (u / 0x1000000) as u8,
                    ((u / 0x10000) % 0x100) as u8,
                    ((u / 0x100) % 0x100) as u8,
                    (u % 0x100) as u8,
                ],
                None => r is None,
            },
    {
        match self.cells.get(x, y) {
            Some(u) => {
                let u = *u;
                let b = [
                    (u / 0x1000000) as u8,
                    ((u / 0x10000) % 0x100) as u8,
                    ((u / 0x100) % 0x100) as u8,
                    (u % 0x100) as u8,
                ];
                assert(b@ =~= seq![
                    (u / 0x1000000) as u8,
                    ((u / 0x10000) % 0x100) as u8,
                    ((u / 0x100) % 0x100) as u8,
                    (u % 0x100) as u8,
                ]);
                Some(b)
            },
            None => None,
        }
    }
}

} // verus!
