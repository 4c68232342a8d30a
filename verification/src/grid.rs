//! The map: a fixed-size, flat two-dimensional array of tiles, initialized
//! solid and carved by room and corridor operations.

use vstd::prelude::*;
use crate::rect::Rect;
use crate::tile::Tile;

verus! {

/// The smaller of two coordinates, used to normalize corridor spans so the
/// order of the two endpoints never matters.
pub open spec fn span_lo(a: int, b: int) -> int {
    if a <= b {
        a
    } else {
        b
    }
}

/// The larger of two coordinates.
pub open spec fn span_hi(a: int, b: int) -> int {
    if a <= b {
        b
    } else {
        a
    }
}

/// A `width × height` map of tiles, stored as one contiguous row-major
/// buffer. Cells are addressed by `(x, y)` with `x` first, both 0-indexed.
pub struct Grid {
    width: i32,
    height: i32,
    tiles: Vec<Tile>,
}

impl Grid {
    /// Internal shape invariant: non-negative dimensions and a backing
    /// buffer of exactly `width * height` cells.
    pub closed spec fn wf(self) -> bool {
        0 <= self.width && 0 <= self.height && self.tiles@.len() == self.width * self.height
    }

    pub closed spec fn spec_width(self) -> int {
        self.width as int
    }

    pub closed spec fn spec_height(self) -> int {
        self.height as int
    }

    /// Whether `(x, y)` addresses a cell of this grid.
    pub open spec fn in_bounds(self, x: int, y: int) -> bool {
        0 <= x < self.spec_width() && 0 <= y < self.spec_height()
    }

    /// The tile stored at `(x, y)`.
    pub closed spec fn tile_at(self, x: int, y: int) -> Tile {
        self.tiles@[y * self.spec_width() + x]
    }

    /// A row-major index stays within a `w × h` buffer.
    proof fn lemma_index_in_range(w: int, h: int, x: int, y: int)
        requires
            0 <= x < w,
            0 <= y < h,
        ensures
            0 <= y * w + x < w * h,
    {
        assert(0 <= y * w + x < w * h) by (nonlinear_arith)
            requires
                0 <= x < w,
                0 <= y < h,
        ;
    }

    /// Distinct in-bounds coordinates map to distinct row-major indices.
    proof fn lemma_index_injective(w: int, x1: int, y1: int, x2: int, y2: int)
        requires
            0 <= x1 < w,
            0 <= x2 < w,
            0 <= y1,
            0 <= y2,
            y1 * w + x1 == y2 * w + x2,
        ensures
            x1 == x2 && y1 == y2,
    {
        assert(x1 == x2 && y1 == y2) by (nonlinear_arith)
            requires
                0 <= x1 < w,
                0 <= x2 < w,
                0 <= y1,
                0 <= y2,
                y1 * w + x1 == y2 * w + x2,
        ;
    }

    /// The dimensions always fit the coordinate type, so any in-bounds
    /// coordinate does too.
    pub proof fn lemma_dims_fit(self)
        ensures
            self.spec_width() <= i32::MAX,
            self.spec_height() <= i32::MAX,
    {
    }

    pub fn width(&self) -> (w: i32)
        ensures
            w == self.spec_width(),
    {
        self.width
    }

    pub fn height(&self) -> (h: i32)
        ensures
            h == self.spec_height(),
    {
        self.height
    }

    /// A freshly allocated grid: every cell is a wall.
    pub fn new_solid(width: i32, height: i32) -> (g: Grid)
        requires
            0 <= width,
            0 <= height,
            width * height <= usize::MAX,
        ensures
            g.wf(),
            g.spec_width() == width,
            g.spec_height() == height,
            forall|x: int, y: int| g.in_bounds(x, y) ==> g.tile_at(x, y) == Tile::wall_spec(),
    {
        let n: usize = (width as usize) * (height as usize);
        let mut tiles: Vec<Tile> = Vec::new();
        let mut i: usize = 0;
        while i < n
            invariant
                i <= n,
                tiles@.len() == i,
                forall|j: int| 0 <= j < i ==> tiles@[j] == Tile::wall_spec(),
            decreases n - i,
        {
            tiles.push(Tile::wall());
            i = i + 1;
        }
        let g = Grid { width, height, tiles };
        proof {
            assert forall|x: int, y: int| g.in_bounds(x, y) implies g.tile_at(x, y)
                == Tile::wall_spec() by {
                Self::lemma_index_in_range(width as int, height as int, x, y);
            }
        }
        g
    }

    /// Overwrite one cell.
    fn set_tile(&mut self, x: i32, y: i32, t: Tile)
        requires
            old(self).wf(),
            old(self).in_bounds(x as int, y as int),
        ensures
            final(self).wf(),
            final(self).spec_width() == old(self).spec_width(),
            final(self).spec_height() == old(self).spec_height(),
            forall|xi: int, yi: int| old(self).in_bounds(xi, yi) ==> final(self).tile_at(xi, yi)
                == (if xi == x && yi == y {
                    t
                } else {
                    old(self).tile_at(xi, yi)
                }),
    {
        let n: usize = self.tiles.len();
        proof {
            Self::lemma_index_in_range(
                self.spec_width(),
                self.spec_height(),
                x as int,
                y as int,
            );
            assert((y as int) * self.spec_width() + (x as int) < n as int);
        }
        let idx: usize = (y as usize) * (self.width as usize) + (x as usize);
        self.tiles[idx] = t;
        proof {
            let w = self.spec_width();
            let h = self.spec_height();
            assert forall|xi: int, yi: int| old(self).in_bounds(xi, yi) implies self.tile_at(
                xi,
                yi,
            ) == (if xi == x && yi == y {
                t
            } else {
                old(self).tile_at(xi, yi)
            }) by {
                Self::lemma_index_in_range(w, h, xi, yi);
                if yi * w + xi == y * w + x {
                    Self::lemma_index_injective(w, xi, yi, x as int, y as int);
                }
            }
        }
    }

    /// The cell's `blocked` flag. Callers must stay in bounds: every
    /// legitimate caller derives its coordinates from grid-bounded
    /// arithmetic, so an out-of-bounds query is a programming error, not a
    /// recoverable case.
    pub fn is_blocked(&self, x: i32, y: i32) -> (b: bool)
        requires
            self.wf(),
            self.in_bounds(x as int, y as int),
        ensures
            b == self.tile_at(x as int, y as int).blocked,
    {
        let n: usize = self.tiles.len();
        proof {
            Self::lemma_index_in_range(
                self.spec_width(),
                self.spec_height(),
                x as int,
                y as int,
            );
            assert((y as int) * self.spec_width() + (x as int) < n as int);
        }
        let idx: usize = (y as usize) * (self.width as usize) + (x as usize);
        self.tiles[idx].blocked
    }

    /// Idempotence law: querying the same unmodified grid coordinate
    /// repeatedly always returns the same value — any two results that
    /// `is_blocked` can return for one grid and one coordinate are equal,
    /// because the contract pins the result to the stored tile alone.
    pub proof fn lemma_is_blocked_idempotent(g: Grid, x: i32, y: i32, b1: bool, b2: bool)
        requires
            call_ensures(Grid::is_blocked, (&g, x, y), b1),
            call_ensures(Grid::is_blocked, (&g, x, y), b2),
        ensures
            b1 == b2,
    {
    }

    /// Read one whole tile, for callers that also need `block_sight`.
    pub fn tile(&self, x: i32, y: i32) -> (t: Tile)
        requires
            self.wf(),
            self.in_bounds(x as int, y as int),
        ensures
            t == self.tile_at(x as int, y as int),
    {
        let n: usize = self.tiles.len();
        proof {
            Self::lemma_index_in_range(
                self.spec_width(),
                self.spec_height(),
                x as int,
                y as int,
            );
            assert((y as int) * self.spec_width() + (x as int) < n as int);
        }
        let idx: usize = (y as usize) * (self.width as usize) + (x as usize);
        self.tiles[idx]
    }

    /// Carve a room: set every cell strictly inside the rectangle (border
    /// rows and columns excluded) to floor. A rectangle whose exclusive
    /// bottom-right edge touches the grid edge is fine: the border itself is
    /// never written.
    pub fn carve_rect(&mut self, room: Rect)
        requires
            old(self).wf(),
            room.wf(),
            room.fits(old(self).spec_width(), old(self).spec_height()),
        ensures
            final(self).wf(),
            final(self).spec_width() == old(self).spec_width(),
            final(self).spec_height() == old(self).spec_height(),
            forall|xi: int, yi: int| old(self).in_bounds(xi, yi) ==> final(self).tile_at(xi, yi)
                == (if room.interior_contains(xi, yi) {
                    Tile::empty_spec()
                } else {
                    old(self).tile_at(xi, yi)
                }),
    {
        let ghost g0 = *self;
        let mut x = room.x1 + 1;
        while x < room.x2
            invariant
                g0.wf(),
                room.wf(),
                room.fits(g0.spec_width(), g0.spec_height()),
                room.x1 < x <= room.x2,
                self.wf(),
                self.spec_width() == g0.spec_width(),
                self.spec_height() == g0.spec_height(),
                forall|xi: int, yi: int| g0.in_bounds(xi, yi) ==> self.tile_at(xi, yi) == (
                if room.interior_contains(xi, yi) && xi < x {
                    Tile::empty_spec()
                } else {
                    g0.tile_at(xi, yi)
                }),
            decreases room.x2 - x,
        {
            let mut y = room.y1 + 1;
            while y < room.y2
                invariant
                    g0.wf(),
                    room.wf(),
                    room.fits(g0.spec_width(), g0.spec_height()),
                    room.x1 < x < room.x2,
                    room.y1 < y <= room.y2,
                    self.wf(),
                    self.spec_width() == g0.spec_width(),
                    self.spec_height() == g0.spec_height(),
                    forall|xi: int, yi: int| g0.in_bounds(xi, yi) ==> self.tile_at(xi, yi) == (
                    if room.interior_contains(xi, yi) && (xi < x || (xi == x && yi < y)) {
                        Tile::empty_spec()
                    } else {
                        g0.tile_at(xi, yi)
                    }),
                decreases room.y2 - y,
            {
                self.set_tile(x, y, Tile::empty());
                y = y + 1;
            }
            x = x + 1;
        }
    }

    /// Carve a horizontal corridor: set every cell with the given `y` and
    /// `x` in the inclusive span between `x1` and `x2` to floor. The span is
    /// normalized with min/max, so the order of `x1` and `x2` never matters.
    pub fn carve_h_corridor(&mut self, x1: i32, x2: i32, y: i32)
        requires
            old(self).wf(),
            old(self).in_bounds(x1 as int, y as int),
            old(self).in_bounds(x2 as int, y as int),
        ensures
            final(self).wf(),
            final(self).spec_width() == old(self).spec_width(),
            final(self).spec_height() == old(self).spec_height(),
            forall|xi: int, yi: int| old(self).in_bounds(xi, yi) ==> final(self).tile_at(xi, yi)
                == (if yi == y && span_lo(x1 as int, x2 as int) <= xi <= span_hi(
                    x1 as int,
                    x2 as int,
                ) {
                    Tile::empty_spec()
                } else {
                    old(self).tile_at(xi, yi)
                }),
    {
        let ghost g0 = *self;
        let lo = if x1 <= x2 { x1 } else { x2 };
        let hi = if x1 <= x2 { x2 } else { x1 };
        let mut x = lo;
        while x <= hi
            invariant
                g0.wf(),
                g0.in_bounds(lo as int, y as int),
                g0.in_bounds(hi as int, y as int),
                lo == span_lo(x1 as int, x2 as int),
                hi == span_hi(x1 as int, x2 as int),
                lo <= x <= hi + 1,
                self.wf(),
                self.spec_width() == g0.spec_width(),
                self.spec_height() == g0.spec_height(),
                forall|xi: int, yi: int| g0.in_bounds(xi, yi) ==> self.tile_at(xi, yi) == (
                if yi == y && lo <= xi < x {
                    Tile::empty_spec()
                } else {
                    g0.tile_at(xi, yi)
                }),
            decreases hi + 1 - x,
        {
            self.set_tile(x, y, Tile::empty());
            x = x + 1;
        }
    }

    /// Carve a vertical corridor: set every cell with the given `x` and `y`
    /// in the inclusive span between `y1` and `y2` to floor, the span again
    /// normalized with min/max.
    pub fn carve_v_corridor(&mut self, y1: i32, y2: i32, x: i32)
        requires
            old(self).wf(),
            old(self).in_bounds(x as int, y1 as int),
            old(self).in_bounds(x as int, y2 as int),
        ensures
            final(self).wf(),
            final(self).spec_width() == old(self).spec_width(),
            final(self).spec_height() == old(self).spec_height(),
            forall|xi: int, yi: int| old(self).in_bounds(xi, yi) ==> final(self).tile_at(xi, yi)
                == (if xi == x && span_lo(y1 as int, y2 as int) <= yi <= span_hi(
                    y1 as int,
                    y2 as int,
                ) {
                    Tile::empty_spec()
                } else {
                    old(self).tile_at(xi, yi)
                }),
    {
        let ghost g0 = *self;
        let lo = if y1 <= y2 { y1 } else { y2 };
        let hi = if y1 <= y2 { y2 } else { y1 };
        let mut y = lo;
        while y <= hi
            invariant
                g0.wf(),
                g0.in_bounds(x as int, lo as int),
                g0.in_bounds(x as int, hi as int),
                lo == span_lo(y1 as int, y2 as int),
                hi == span_hi(y1 as int, y2 as int),
                lo <= y <= hi + 1,
                self.wf(),
                self.spec_width() == g0.spec_width(),
                self.spec_height() == g0.spec_height(),
                forall|xi: int, yi: int| g0.in_bounds(xi, yi) ==> self.tile_at(xi, yi) == (
                if xi == x && lo <= yi < y {
                    Tile::empty_spec()
                } else {
                    g0.tile_at(xi, yi)
                }),
            decreases hi + 1 - y,
        {
            self.set_tile(x, y, Tile::empty());
            y = y + 1;
        }
    }
}

} // verus!
