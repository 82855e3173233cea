//! The canvas store: a fixed grid of cells and its cached JPEG snapshot.
use vstd::prelude::*;

use crate::color::cell_rgb;
use crate::config::JPEG_QUALITY;
use crate::Coordinate;

verus! {

/// What a canvas holds: its size, its cells in row-major order, and the
/// snapshot cache (the hash of the cells that were last encoded, and the
/// encoded bytes).
pub struct GridView<T> {
    pub width: nat,
    pub height: nat,
    pub cells: Seq<T>,
    pub snapshot_hash: u64,
    pub snapshot: Seq<u8>,
}

impl<T> GridView<T> {
    pub open spec fn wf(self) -> bool {
        self.cells.len() == self.width * self.height
    }

    pub open spec fn in_bounds(self, x: int, y: int) -> bool {
        0 <= x < self.width && 0 <= y < self.height
    }

    pub open spec fn index(self, x: int, y: int) -> int {
        y * self.width + x
    }

    /// The cell at `(x, y)`, if that is on the canvas.
    pub open spec fn get(self, x: int, y: int) -> Option<T> {
        if self.in_bounds(x, y) {
            Some(self.cells[self.index(x, y)])
        } else {
            None
        }
    }

    /// The canvas after a write of `v` at `(x, y)`; a write off the canvas
    /// changes nothing.
    pub open spec fn set(self, x: int, y: int, v: T) -> GridView<T> {
        if self.in_bounds(x, y) {
            GridView { cells: self.cells.update(self.index(x, y), v), ..self }
        } else {
            self
        }
    }
}

/// The value of an optional reference.
pub open spec fn opt_value<V>(r: Option<&V>) -> Option<V> {
    match r {
        Some(v) => Some(*v),
        None => None,
    }
}

/// A two-dimensional store of values.
pub trait Grid<I, V>: Sized {
    spec fn valid(&self) -> bool;

    /// The value at `(x, y)`, or `None` off the grid.
    spec fn cell(&self, x: I, y: I) -> Option<V>;

    fn get(&self, x: I, y: I) -> (r: Option<&V>)
        requires
            self.valid(),
        ensures
            opt_value(r) == self.cell(x, y),
    ;

    fn get_unchecked(&self, x: I, y: I) -> (r: &V)
        requires
            self.valid(),
            self.cell(x, y) is Some,
        ensures
            self.cell(x, y) == Some(*r),
    ;

    fn set(&mut self, x: I, y: I, value: V)
        requires
            old(self).valid(),
        ensures
            final(self).valid(),
            forall|a: I, b: I|
                #![trigger final(self).cell(a, b)]
                final(self).cell(a, b) == if a == x && b == y && old(self).cell(x, y) is Some {
                    Some(value)
                } else {
                    old(self).cell(a, b)
                },
    ;
}

/// One canvas.
pub struct Flut<T> {
    size_x: usize,
    size_y: usize,
    cells: Vec<T>,
    last_hash: u64,
    jpgbuf: Vec<u8>,
}

impl<T> View for Flut<T> {
    type V = GridView<T>;

    closed spec fn view(&self) -> GridView<T> {
        GridView {
            width: self.size_x as nat,
            height: self.size_y as nat,
            cells: self.cells@,
            snapshot_hash: self.last_hash,
            snapshot: self.jpgbuf@,
        }
    }
}

proof fn lemma_index_in_range(w: int, h: int, x: int, y: int)
    requires
        0 <= x < w,
        0 <= y < h,
    ensures
        0 <= y * w + x < w * h,
{
    assert(y * w + x < w * h) by (nonlinear_arith)
        requires
            0 <= x < w,
            0 <= y < h,
    ;
    assert(0 <= y * w) by (nonlinear_arith)
        requires
            0 <= y,
            0 <= w,
    ;
}

impl<T: Copy> Flut<T> {
    /// A `size_x` by `size_y` canvas with every cell set to `value`, and an
    /// empty snapshot.
    pub fn init(size_x: usize, size_y: usize, value: T) -> (r: Flut<T>)
        requires
            size_x * size_y <= usize::MAX,
        ensures
            r@.wf(),
            r@.width == size_x,
            r@.height == size_y,
            r@.cells == Seq::new((size_x * size_y) as nat, |i: int| value),
            r@.snapshot_hash == 0,
            r@.snapshot == Seq::<u8>::empty(),
    {
        let n = size_x * size_y;
        let mut vec: Vec<T> = Vec::with_capacity(n);
        let mut i: usize = 0;
        while i < n
            invariant
                0 <= i <= n,
                vec@ == Seq::new(i as nat, |k: int| value),
            decreases n - i,
        {
            vec.push(value);
            i += 1;
            assert(vec@ =~= Seq::new(i as nat, |k: int| value));
        }
        Flut { size_x, size_y, cells: vec, last_hash: 0, jpgbuf: Vec::new() }
    }

    /// Width and height.
    pub fn get_size(&self) -> (r: (usize, usize))
        ensures
            r.0 == self@.width,
            r.1 == self@.height,
    {
        (self.size_x, self.size_y)
    }
}

impl<T> Flut<T> {
    fn index(&self, x: Coordinate, y: Coordinate) -> (r: Option<usize>)
        requires
            self@.wf(),
        ensures
            match r {
                Some(i) => self@.in_bounds(x as int, y as int) && i == self@.index(
                    x as int,
                    y as int,
                ),
                None => !self@.in_bounds(x as int, y as int),
            },
    {
        let x = x as usize;
        let y = y as usize;
        if x >= self.size_x || y >= self.size_y {
            return None;
        }
        let n = self.cells.len();
        proof {
            lemma_index_in_range(self.size_x as int, self.size_y as int, x as int, y as int);
        }
        assert(y * self.size_x + x < n);
        Some(y * self.size_x + x)
    }

    /// The cells in row-major order.
    pub fn cells(&self) -> (r: &Vec<T>)
        ensures
            r@ == self@.cells,
    {
        &self.cells
    }

    /// The encoded snapshot.
    pub fn read_jpg_buffer(&self) -> (r: &Vec<u8>)
        ensures
            r@ == self@.snapshot,
    {
        &self.jpgbuf
    }
}

impl<T> Grid<Coordinate, T> for Flut<T> {
    open spec fn valid(&self) -> bool {
        self@.wf()
    }

    open spec fn cell(&self, x: Coordinate, y: Coordinate) -> Option<T> {
        self@.get(x as int, y as int)
    }

    fn get(&self, x: Coordinate, y: Coordinate) -> (r: Option<&T>) {
        match self.index(x, y) {
            Some(idx) => {
                proof {
                    lemma_index_in_range(self@.width as int, self@.height as int, x as int, y as int);
                }
                Some(&self.cells[idx])
            },
            None => None,
        }
    }

    fn get_unchecked(&self, x: Coordinate, y: Coordinate) -> (r: &T) {
        let n = self.cells.len();
        proof {
            lemma_index_in_range(self@.width as int, self@.height as int, x as int, y as int);
        }
        assert((y as usize) * self.size_x + (x as usize) < n);
        let idx = y as usize * self.size_x + x as usize;
        &self.cells[idx]
    }

    fn set(&mut self, x: Coordinate, y: Coordinate, value: T)
        ensures
            final(self)@ == old(self)@.set(x as int, y as int, value),
    {
        match self.index(x, y) {
            None => {},
            Some(idx) => {
                proof {
                    lemma_index_in_range(self@.width as int, self@.height as int, x as int, y as int);
                }
                self.cells.set(idx, value);
            },
        }
        proof {
            assert(self@ == old(self)@.set(x as int, y as int, value));
            assert forall|a: Coordinate, b: Coordinate|
                #![trigger self.cell(a, b)]
                self.cell(a, b) == if a == x && b == y && old(self).cell(x, y) is Some {
                    Some(value)
                } else {
                    old(self).cell(a, b)
                } by {
                let w = old(self)@.width as int;
                let h = old(self)@.height as int;
                if old(self)@.in_bounds(a as int, b as int) {
                    lemma_index_in_range(w, h, a as int, b as int);
                }
                if old(self)@.in_bounds(x as int, y as int) {
                    lemma_index_in_range(w, h, x as int, y as int);
                }
                if old(self)@.in_bounds(x as int, y as int) && old(self)@.in_bounds(a as int, b as int)
                    && old(self)@.index(x as int, y as int) == old(self)@.index(a as int, b as int) {
                    lemma_index_unique(w, x as int, y as int, a as int, b as int);
                }
            }
        }
    }
}

proof fn lemma_index_unique(w: int, x: int, y: int, a: int, b: int)
    requires
        0 <= x < w,
        0 <= a < w,
        0 <= y,
        0 <= b,
        y * w + x == b * w + a,
    ensures
        x == a && y == b,
{
    if y < b {
        assert(y * w + x < b * w + a) by (nonlinear_arith)
            requires
                0 <= x < w,
                0 <= a,
                y < b,
        ;
    } else if b < y {
        assert(b * w + a < y * w + x) by (nonlinear_arith)
            requires
                0 <= a < w,
                0 <= x,
                b < y,
        ;
    }
}


pub const FNV_OFFSET: u64 = 0xcbf29ce484222325;

pub const FNV_PRIME: u64 = 0x100000001b3;

/// One FNV-1a step over a whole cell.
pub open spec fn hash_step(h: u64, c: u32) -> u64 {
    (h ^ (c as u64)).wrapping_mul(FNV_PRIME)
}

/// The content hash of a cell sequence.
pub open spec fn content_hash(cells: Seq<u32>) -> u64
    decreases cells.len(),
{
    if cells.len() == 0 {
        FNV_OFFSET
    } else {
        hash_step(content_hash(cells.drop_last()), cells.last())
    }
}

/// Red, green and blue bytes of each cell in turn.
pub open spec fn rgb_bytes(cells: Seq<u32>) -> Seq<u8>
    decreases cells.len(),
{
    if cells.len() == 0 {
        Seq::empty()
    } else {
        rgb_bytes(cells.drop_last()) + cell_rgb(cells.last())
    }
}

/// What the JPEG encoder produces for an RGB image at a quality.
pub uninterp spec fn jpeg_of(width: u32, height: u32, quality: u8, rgb: Seq<u8>) -> Seq<u8>;

/// The error type of the `image` crate, carried through without looking inside.
#[verifier::external_type_specification]
#[verifier::external_body]
pub struct ExImageError(image::ImageError);

/// Whether `b` begins with the JPEG start-of-image marker and the first byte
/// of the marker after it.
pub open spec fn starts_as_jpeg(b: Seq<u8>) -> bool {
    b.len() >= 3 && b[0] == 0xFF && b[1] == 0xD8 && b[2] == 0xFF
}

/// Relies on `image::codecs::jpeg::JpegEncoder::new_with_quality` and
/// `JpegEncoder::encode` with `Rgb8` pixels: the buffer length must be three
/// bytes per pixel (else it panics), a side of zero or above 65535 is an
/// error and the only one (writing into a `Vec` cannot fail), a successful
/// encode starts with the start-of-image marker followed by the APP0 segment,
/// and what it writes depends on its arguments alone.
#[verifier::external_body]
fn encode_jpeg(rgb: &[u8], width: u32, height: u32, quality: u8) -> (r: Result<
    Vec<u8>,
    image::ImageError,
>)
    requires
        rgb@.len() == 3 * width * height,
    ensures
        r matches Ok(b) ==> b@ == jpeg_of(width, height, quality, rgb@),
        r matches Ok(b) ==> starts_as_jpeg(b@),
        width == 0 || height == 0 || width > 65535 || height > 65535 ==> r is Err,
        1 <= width <= 65535 && 1 <= height <= 65535 ==> r is Ok,
{
    let mut buf = Vec::new();
    let res = image::codecs::jpeg::JpegEncoder::new_with_quality(&mut buf, quality).encode(
        rgb,
        width,
        height,
        image::ExtendedColorType::Rgb8,
    );
    res.map(|_| buf)
}

/// Why a snapshot could not be refreshed.
#[derive(Debug, Clone, Copy, PartialEq, Eq, Structural)]
pub enum SnapshotError {
    /// The canvas is too large for the encoder.
    TooLarge,
    /// The encoder failed.
    EncodeError,
}

impl Flut<u32> {
    /// The content hash of the cells.
    pub fn content_hash(&self) -> (r: u64)
        ensures
            r == content_hash(self@.cells),
    {
        let mut h: u64 = FNV_OFFSET;
        let mut i: usize = 0;
        while i < self.cells.len()
            invariant
                0 <= i <= self.cells@.len(),
                h == content_hash(self.cells@.subrange(0, i as int)),
            decreases self.cells@.len() - i,
        {
            let c = self.cells[i];
            h = (h ^ (c as u64)).wrapping_mul(FNV_PRIME);
            i += 1;
            proof {
                let s = self.cells@.subrange(0, i as int);
                assert(s.drop_last() =~= self.cells@.subrange(0, i - 1));
            }
        }
        assert(self.cells@.subrange(0, self.cells@.len() as int) =~= self.cells@);
        h
    }

    /// Records the current content hash; true when it differs from the one
    /// recorded before.
    pub fn check_changed(&mut self) -> (r: bool)
        ensures
            r == (content_hash(old(self)@.cells) != old(self)@.snapshot_hash),
            final(self)@ == (GridView {
                snapshot_hash: content_hash(old(self)@.cells),
                ..old(self)@
            }),
    {
        let h = self.content_hash();
        if h == self.last_hash {
            return false;
        }
        self.last_hash = h;
        true
    }

    /// The red, green and blue bytes of every cell, row by row.
    pub fn render_rgb(&self) -> (r: Vec<u8>)
        ensures
            r@ == rgb_bytes(self@.cells),
            r@.len() == 3 * self@.cells.len(),
    {
        let mut out: Vec<u8> = Vec::new();
        let mut i: usize = 0;
        while i < self.cells.len()
            invariant
                0 <= i <= self.cells@.len(),
                out@ == rgb_bytes(self.cells@.subrange(0, i as int)),
                out@.len() == 3 * i,
            decreases self.cells@.len() - i,
        {
            let v = self.cells[i];
            out.push((v / 0x1000000) as u8);
            out.push(((v / 0x10000) % 0x100) as u8);
            out.push(((v / 0x100) % 0x100) as u8);
            i += 1;
            proof {
                let s = self.cells@.subrange(0, i as int);
                assert(s.drop_last() =~= self.cells@.subrange(0, i - 1));
                assert(out@ =~= rgb_bytes(s));
            }
        }
        assert(self.cells@.subrange(0, self.cells@.len() as int) =~= self.cells@);
        out
    }

    /// Installs the outcome of an encode of the cells whose hash is `hash`:
    /// on success the snapshot and its hash are replaced, on failure nothing
    /// changes.
    pub fn store_snapshot(&mut self, hash: u64, encoded: Result<Vec<u8>, SnapshotError>) -> (r:
        Result<bool, SnapshotError>)
        ensures
            match encoded {
                Ok(b) => r == Ok::<bool, SnapshotError>(true) && final(self)@ == (GridView {
                    snapshot_hash: hash,
                    snapshot: b@,
                    ..old(self)@
                }),
                Err(e) => r == Err::<bool, SnapshotError>(e) && final(self)@ == old(self)@,
            },
    {
        match encoded {
            Ok(b) => {
                self.jpgbuf = b;
                self.last_hash = hash;
                Ok(true)
            },
            Err(e) => Err(e),
        }
    }

    /// Re-encodes the snapshot when the cells changed since the last encode.
    /// `Ok(false)`: nothing changed and nothing was done; `Ok(true)`: the
    /// snapshot now holds the encoding of the current cells; on an error
    /// nothing changed. The cells themselves never change, and after any
    /// successful tick the cached hash is the hash of the cells.
    pub fn update_jpg_buffer(&mut self) -> (r: Result<bool, SnapshotError>)
        requires
            old(self)@.wf(),
        ensures
            final(self)@.cells == old(self)@.cells,
            final(self)@.width == old(self)@.width,
            final(self)@.height == old(self)@.height,
            r is Ok ==> final(self)@.snapshot_hash == content_hash(final(self)@.cells),
            r == Ok::<bool, SnapshotError>(false) <==> content_hash(old(self)@.cells)
                == old(self)@.snapshot_hash,
            r == Ok::<bool, SnapshotError>(false) ==> final(self)@ == old(self)@,
            r == Ok::<bool, SnapshotError>(true) ==> final(self)@.snapshot == jpeg_of(
                old(self)@.width as u32,
                old(self)@.height as u32,
                JPEG_QUALITY,
                rgb_bytes(old(self)@.cells),
            ),
            r == Ok::<bool, SnapshotError>(true) ==> starts_as_jpeg(final(self)@.snapshot),
            r is Err ==> final(self)@ == old(self)@,
            content_hash(old(self)@.cells) != old(self)@.snapshot_hash && 1 <= old(self)@.width
                <= 65535 && 1 <= old(self)@.height <= 65535 ==> r == Ok::<bool, SnapshotError>(true),
            content_hash(old(self)@.cells) != old(self)@.snapshot_hash && (old(self)@.width == 0
                || old(self)@.height == 0 || old(self)@.width > 65535 || old(self)@.height
                > 65535) ==> r is Err,
    {
        let h = self.content_hash();
        if h == self.last_hash {
            return Ok(false);
        }
        if self.size_x > 65535 || self.size_y > 65535 {
            return self.store_snapshot(h, Err(SnapshotError::TooLarge));
        }
        let rgb = self.render_rgb();
        proof {
            assert(self.cells@.len() == self.size_x * self.size_y);
            assert(3 * self.cells@.len() == 3 * (self.size_x as u32) * (self.size_y as u32)) by (nonlinear_arith)
                requires
                    self.cells@.len() == self.size_x * self.size_y,
                    self.size_x <= 65535,
                    self.size_y <= 65535,
            ;
        }
        let encoded = match encode_jpeg(rgb.as_slice(), self.size_x as u32, self.size_y as u32, JPEG_QUALITY) {
            Ok(b) => Ok(b),
            Err(_) => Err(SnapshotError::EncodeError),
        };
        self.store_snapshot(h, encoded)
    }
}

/// A read of a cell after a write to it, with no later write to that cell,
/// gives the value written.
pub proof fn lemma_get_after_set<T>(g: GridView<T>, x: int, y: int, v: T)
    requires
        g.wf(),
        g.in_bounds(x, y),
    ensures
        g.set(x, y, v).get(x, y) == Some(v),
        g.set(x, y, v).wf(),
{
    lemma_index_in_range(g.width as int, g.height as int, x, y);
}

/// A write to one cell leaves every other cell as it was.
pub proof fn lemma_set_other<T>(g: GridView<T>, x: int, y: int, v: T, a: int, b: int)
    requires
        g.wf(),
        x != a || y != b,
    ensures
        g.set(x, y, v).get(a, b) == g.get(a, b),
{
    if g.in_bounds(x, y) && g.in_bounds(a, b) {
        lemma_index_in_range(g.width as int, g.height as int, x, y);
        lemma_index_in_range(g.width as int, g.height as int, a, b);
        if g.index(x, y) == g.index(a, b) {
            lemma_index_unique(g.width as int, x, y, a, b);
        }
    }
}

/// Off the canvas, a write changes nothing and a read finds nothing.
pub proof fn lemma_out_of_bounds<T>(g: GridView<T>, x: int, y: int, v: T)
    requires
        !g.in_bounds(x, y),
    ensures
        g.set(x, y, v) == g,
        g.get(x, y) is None,
{
}


/// The canvas after the writes `w`, in order.
pub open spec fn apply_writes<T>(g: GridView<T>, w: Seq<(int, int, T)>) -> GridView<T>
    decreases w.len(),
{
    if w.len() == 0 {
        g
    } else {
        apply_writes(g, w.drop_last()).set(w.last().0, w.last().1, w.last().2)
    }
}

proof fn lemma_writes_keep_shape<T>(g: GridView<T>, w: Seq<(int, int, T)>)
    requires
        g.wf(),
    ensures
        apply_writes(g, w).wf(),
        apply_writes(g, w).width == g.width,
        apply_writes(g, w).height == g.height,
    decreases w.len(),
{
    if w.len() > 0 {
        lemma_writes_keep_shape(g, w.drop_last());
        let h = apply_writes(g, w.drop_last());
        if h.in_bounds(w.last().0, w.last().1) {
            lemma_index_in_range(h.width as int, h.height as int, w.last().0, w.last().1);
        }
    }
}

/// After a write of `v` at an on-canvas `(x, y)`, followed by any writes
/// none of which is at `(x, y)`, a read at `(x, y)` gives `v`.
pub proof fn lemma_get_after_writes<T>(g: GridView<T>, x: int, y: int, v: T, w: Seq<(int, int, T)>)
    requires
        g.wf(),
        g.in_bounds(x, y),
        forall|k: int| 0 <= k < w.len() ==> (#[trigger] w[k]).0 != x || w[k].1 != y,
    ensures
        apply_writes(g.set(x, y, v), w).get(x, y) == Some(v),
    decreases w.len(),
{
    lemma_get_after_set(g, x, y, v);
    if w.len() > 0 {
        lemma_get_after_writes(g, x, y, v, w.drop_last());
        lemma_writes_keep_shape(g.set(x, y, v), w.drop_last());
        let last = w.last();
        assert(last == w[w.len() - 1]);
        lemma_set_other(apply_writes(g.set(x, y, v), w.drop_last()), last.0, last.1, last.2, x, y);
    }
}

} // verus!
