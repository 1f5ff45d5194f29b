//! The map from board points to drawing coordinates.
use vstd::prelude::*;

use crate::board::{valid_size, MAX_SIDE};
use crate::{MakeSvgError, Point};

verus! {

/// The largest cell size and margin, which keep every coordinate far inside `u64`.
pub const MAX_CELL: u64 = 1_000_000;

/// A board of `width` by `height` points drawn with `cell` units between
/// neighbouring points and `margin` units round the outermost lines.
#[derive(Clone, Copy, Debug, PartialEq, Eq, Structural)]
pub struct Layout {
    pub width: usize,
    pub height: usize,
    pub cell: u64,
    pub margin: u64,
}

/// The coordinate of line `k`.
pub open spec fn coord(margin: int, cell: int, k: int) -> int {
    margin + k * cell
}

/// The line nearest to coordinate `v`, among lines `0 .. count`.
pub open spec fn nearest_line(margin: int, cell: int, count: int, v: int) -> int {
    if v <= margin {
        0
    } else if (v - margin + cell / 2) / cell >= count {
        count - 1
    } else {
        (v - margin + cell / 2) / cell
    }
}

/// The standard star points of a square board of side 9, 13 or 19.
pub open spec fn hoshi_points(width: int, height: int) -> Seq<Point> {
    if width != height {
        seq![]
    } else if width == 9 {
        seq![
            Point { x: 2, y: 2 },
            Point { x: 6, y: 2 },
            Point { x: 4, y: 4 },
            Point { x: 2, y: 6 },
            Point { x: 6, y: 6 },
        ]
    } else if width == 13 {
        seq![
            Point { x: 3, y: 3 },
            Point { x: 9, y: 3 },
            Point { x: 6, y: 6 },
            Point { x: 3, y: 9 },
            Point { x: 9, y: 9 },
        ]
    } else if width == 19 {
        seq![
            Point { x: 3, y: 3 },
            Point { x: 9, y: 3 },
            Point { x: 15, y: 3 },
            Point { x: 3, y: 9 },
            Point { x: 9, y: 9 },
            Point { x: 15, y: 9 },
            Point { x: 3, y: 15 },
            Point { x: 9, y: 15 },
            Point { x: 15, y: 15 },
        ]
    } else {
        seq![]
    }
}

impl Layout {
    pub open spec fn wf(&self) -> bool {
        &&& valid_size(self.width as int, self.height as int)
        &&& 1 <= self.cell <= MAX_CELL
        &&& self.margin <= MAX_CELL
        &&& self.cell <= 2 * self.margin
    }

    /// The drawing position of a point.
    pub open spec fn pixel(&self, p: Point) -> (int, int) {
        (coord(self.margin as int, self.cell as int, p.x as int), coord(self.margin as int, self.cell as int, p.y as int))
    }

    /// The point nearest to a drawing position.
    pub open spec fn snapped(&self, px: int, py: int) -> Point {
        Point {
            x: nearest_line(self.margin as int, self.cell as int, self.width as int, px) as usize,
            y: nearest_line(self.margin as int, self.cell as int, self.height as int, py) as usize,
        }
    }

    /// The layout parameters this library draws with: a cell of 1 to
    /// `MAX_CELL` units, a margin of at most `MAX_CELL`, and at least half a
    /// cell, so that stones on the edge stay inside the drawing.
    pub open spec fn valid_geometry(cell: u64, margin: u64) -> bool {
        1 <= cell <= MAX_CELL && margin <= MAX_CELL && cell <= 2 * margin
    }

    /// A layout, or `InvalidBoardSize` when a side is zero or above
    /// `MAX_SIDE`, or else `InvalidLayout` when the cell size and margin are
    /// not a valid geometry.
    pub fn new(width: usize, height: usize, cell: u64, margin: u64) -> (r: Result<Layout, MakeSvgError>)
        ensures
            r is Err <==> !valid_size(width as int, height as int) || !Self::valid_geometry(cell, margin),
            r matches Err(e) ==> e == if !valid_size(width as int, height as int) {
                MakeSvgError::InvalidBoardSize
            } else {
                MakeSvgError::InvalidLayout
            },
            r matches Ok(l) ==> l.wf() && l == (Layout { width, height, cell, margin }),
    {
        if width == 0 || height == 0 || width > MAX_SIDE || height > MAX_SIDE {
            Err(MakeSvgError::InvalidBoardSize)
        } else if cell == 0 || cell > MAX_CELL || margin > MAX_CELL || cell / 2 + cell % 2 > margin {
            Err(MakeSvgError::InvalidLayout)
        } else {
            Ok(Layout { width, height, cell, margin })
        }
    }

    /// The coordinate of line `k`.
    pub fn line_coord(&self, k: usize) -> (r: u64)
        requires
            self.wf(),
            k < MAX_SIDE,
        ensures
            r == coord(self.margin as int, self.cell as int, k as int),
            r <= MAX_CELL + MAX_SIDE * MAX_CELL,
    {
        assert(k * self.cell <= MAX_SIDE * MAX_CELL) by (nonlinear_arith)
            requires
                k < MAX_SIDE,
                self.cell <= MAX_CELL,
        ;
        self.margin + (k as u64) * self.cell
    }

    /// The drawing position of an on-board point.
    pub fn to_pixel(&self, p: Point) -> (r: (u64, u64))
        requires
            self.wf(),
            p.x < self.width,
            p.y < self.height,
        ensures
            r.0 == self.pixel(p).0,
            r.1 == self.pixel(p).1,
    {
        (self.line_coord(p.x), self.line_coord(p.y))
    }

    /// The size of the whole drawing: the outermost lines plus a margin on
    /// each side.
    pub fn dimensions(&self) -> (r: (u64, u64))
        requires
            self.wf(),
        ensures
            r.0 == coord(self.margin as int, self.cell as int, self.width - 1) + self.margin,
            r.1 == coord(self.margin as int, self.cell as int, self.height - 1) + self.margin,
    {
        (self.line_coord(self.width - 1) + self.margin, self.line_coord(self.height - 1) + self.margin)
    }

    fn nearest(&self, count: usize, v: u64) -> (r: usize)
        requires
            self.wf(),
            1 <= count <= MAX_SIDE,
        ensures
            r == nearest_line(self.margin as int, self.cell as int, count as int, v as int),
            r < count,
    {
        if v <= self.margin {
            0
        } else {
            let q = ((v - self.margin) as u128 + (self.cell / 2) as u128) / (self.cell as u128);
            if q >= count as u128 {
                count - 1
            } else {
                q as usize
            }
        }
    }

    /// The on-board point nearest to a drawing position.
    pub fn snap(&self, px: u64, py: u64) -> (r: Point)
        requires
            self.wf(),
        ensures
            r == self.snapped(px as int, py as int),
            r.x < self.width,
            r.y < self.height,
    {
        Point { x: self.nearest(self.width, px), y: self.nearest(self.height, py) }
    }
}

/// Snapping the drawing position of an on-board point gives the point back.
pub proof fn lemma_round_trip(l: Layout, p: Point)
    requires
        l.wf(),
        p.x < l.width,
        p.y < l.height,
    ensures
        l.snapped(l.pixel(p).0, l.pixel(p).1) == p,
{
    let c = l.cell as int;
    let m = l.margin as int;
    assert forall|k: int| 0 <= k && c >= 1 implies (#[trigger] (k * c) + c / 2) / c == k by {
        assert((k * c + c / 2) / c == k) by (nonlinear_arith)
            requires
                0 <= k,
                c >= 1,
        ;
    }
    let (x, y) = (p.x as int, p.y as int);
    assert((x * c + c / 2) / c == x);
    assert((y * c + c / 2) / c == y);
    if x > 0 {
        assert(x * c >= 1) by (nonlinear_arith)
            requires
                x >= 1,
                c >= 1,
        ;
    }
    if y > 0 {
        assert(y * c >= 1) by (nonlinear_arith)
            requires
                y >= 1,
                c >= 1,
        ;
    }
}

/// The star points of a board: the standard ones on square boards of side
/// 9, 13 and 19, none on any other board.
pub fn hoshi(width: usize, height: usize) -> (r: Vec<Point>)
    ensures
        r@ == hoshi_points(width as int, height as int),
        !((width == 9 || width == 13 || width == 19) && width == height) ==> r@.len() == 0,
{
    let mut r: Vec<Point> = Vec::new();
    if width != height {
        return r;
    }
    if width == 9 || width == 13 {
        let (a, m, b): (usize, usize, usize) = if width == 9 {
            (2, 4, 6)
        } else {
            (3, 6, 9)
        };
        r.push(Point { x: a, y: a });
        r.push(Point { x: b, y: a });
        r.push(Point { x: m, y: m });
        r.push(Point { x: a, y: b });
        r.push(Point { x: b, y: b });
    } else if width == 19 {
        let lines: [usize; 3] = [3, 9, 15];
        let mut j: usize = 0;
        while j < 3
            invariant
                j <= 3,
                lines@ == seq![3usize, 9usize, 15usize],
                r@.len() == 3 * j,
                forall|k: int| 0 <= k < 3 * j ==> #[trigger] r@[k] == hoshi_points(19, 19)[k],
            decreases 3 - j,
        {
            let mut i: usize = 0;
            while i < 3
                invariant
                    i <= 3,
                    j < 3,
                    lines@ == seq![3usize, 9usize, 15usize],
                    r@.len() == 3 * j + i,
                    forall|k: int| 0 <= k < 3 * j + i ==> #[trigger] r@[k] == hoshi_points(19, 19)[k],
                decreases 3 - i,
            {
                r.push(Point { x: lines[i], y: lines[j] });
                i += 1;
            }
            j += 1;
        }
    }
    assert(r@ =~= hoshi_points(width as int, height as int));
    r
}

} // verus!
