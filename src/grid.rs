use vstd::prelude::*;

verus! {

/// A cell position on the screen: column `x`, row `y`.
#[derive(Debug, Clone, Copy, PartialEq, Eq, Structural, Hash, Default)]
pub struct Position {
    pub x: u16,
    pub y: u16,
}

impl Position {
    pub fn new(x: u16, y: u16) -> (r: Position)
        ensures
            r == (Position { x, y }),
    {
        Position { x, y }
    }
}

/// A rectangle of cells: origin `(x, y)` and extent `width` by `height`.
///
/// Its right and bottom edges are clamped to `u16::MAX`.
#[derive(Debug, Clone, Copy, PartialEq, Eq, Structural, Hash, Default)]
pub struct Rect {
    pub x: u16,
    pub y: u16,
    pub width: u16,
    pub height: u16,
}

pub open spec fn min_int(a: int, b: int) -> int {
    if a < b {
        a
    } else {
        b
    }
}

pub open spec fn max_int(a: int, b: int) -> int {
    if a < b {
        b
    } else {
        a
    }
}

impl Rect {
    /// The first column past the rectangle.
    pub open spec fn right_edge(self) -> int {
        min_int(self.x + self.width, u16::MAX as int)
    }

    /// The first row past the rectangle.
    pub open spec fn bottom_edge(self) -> int {
        min_int(self.y + self.height, u16::MAX as int)
    }

    /// `p` lies inside the rectangle.
    pub open spec fn has(self, p: Position) -> bool {
        &&& self.x <= p.x < self.right_edge()
        &&& self.y <= p.y < self.bottom_edge()
    }

    /// The common part of two rectangles; empty ones sit at the larger origin.
    pub open spec fn meet(self, other: Rect) -> Rect {
        let x1 = max_int(self.x as int, other.x as int);
        let y1 = max_int(self.y as int, other.y as int);
        let x2 = min_int(self.right_edge(), other.right_edge());
        let y2 = min_int(self.bottom_edge(), other.bottom_edge());
        Rect {
            x: x1 as u16,
            y: y1 as u16,
            width: if x2 > x1 {
                (x2 - x1) as u16
            } else {
                0
            },
            height: if y2 > y1 {
                (y2 - y1) as u16
            } else {
                0
            },
        }
    }

    /// A rectangle at `(x, y)`, its extent cut so that it ends within `u16`.
    pub fn new(x: u16, y: u16, width: u16, height: u16) -> (r: Rect)
        ensures
            r.x == x && r.y == y,
            r.width == min_int(width as int, u16::MAX - x),
            r.height == min_int(height as int, u16::MAX - y),
    {
        let max_width = u16::MAX - x;
        let max_height = u16::MAX - y;
        let width = if width > max_width {
            max_width
        } else {
            width
        };
        let height = if height > max_height {
            max_height
        } else {
            height
        };
        Rect { x, y, width, height }
    }

    pub fn right(self) -> (r: u16)
        ensures
            r == self.right_edge(),
    {
        self.x.saturating_add(self.width)
    }

    pub fn bottom(self) -> (r: u16)
        ensures
            r == self.bottom_edge(),
    {
        self.y.saturating_add(self.height)
    }

    /// The rectangle holds no cell.
    pub fn is_empty(self) -> (r: bool)
        ensures
            r == (self.width == 0 || self.height == 0),
    {
        self.width == 0 || self.height == 0
    }

    pub fn contains(self, p: Position) -> (r: bool)
        ensures
            r == self.has(p),
    {
        p.x >= self.x && p.x < self.right() && p.y >= self.y && p.y < self.bottom()
    }

    /// The cells that lie in both rectangles.
    pub fn intersection(self, other: Rect) -> (r: Rect)
        ensures
            r == self.meet(other),
            forall|p: Position| r.has(p) <==> (self.has(p) && other.has(p)),
    {
        let x1 = if self.x < other.x {
            other.x
        } else {
            self.x
        };
        let y1 = if self.y < other.y {
            other.y
        } else {
            self.y
        };
        let (r1, r2) = (self.right(), other.right());
        let (b1, b2) = (self.bottom(), other.bottom());
        let x2 = if r1 < r2 {
            r1
        } else {
            r2
        };
        let y2 = if b1 < b2 {
            b1
        } else {
            b2
        };
        let r = Rect { x: x1, y: y1, width: x2.saturating_sub(x1), height: y2.saturating_sub(y1) };
        proof {
            lemma_meet_has(self, other);
        }
        r
    }

    /// Every position of the rectangle, row by row, left to right.
    pub fn positions(self) -> (r: Vec<Position>)
        ensures
            r@ == scan(self),
    {
        let right = self.right();
        let bottom = self.bottom();
        let mut out: Vec<Position> = Vec::new();
        let mut y = self.y;
        while y < bottom
            invariant
                self.y <= y <= bottom,
                bottom == self.bottom_edge(),
                right == self.right_edge(),
                out@ == rows(self, y - self.y),
            decreases bottom - y,
        {
            let mut x = self.x;
            let ghost j = y - self.y;
            while x < right
                invariant
                    self.x <= x <= right,
                    self.y <= y < bottom,
                    j == y - self.y,
                    bottom == self.bottom_edge(),
                    right == self.right_edge(),
                    out@ == rows(self, j) + row(self, j).take(x - self.x),
                decreases right - x,
            {
                proof {
                    assert((rows(self, j) + row(self, j).take(x - self.x)).push(Position { x, y })
                        =~= rows(self, j) + row(self, j).take(x - self.x + 1));
                }
                out.push(Position { x, y });
                x = x + 1;
            }
            proof {
                assert(row(self, j).take(x - self.x) =~= row(self, j));
                assert(rows(self, j + 1) == rows(self, j) + row(self, j));
            }
            y = y + 1;
        }
        out
    }
}

/// What `intersection` computes: a point is in the meet exactly when it is in both.
pub proof fn lemma_meet_has(a: Rect, b: Rect)
    ensures
        forall|p: Position| a.meet(b).has(p) <==> (a.has(p) && b.has(p)),
{
}

/// Every position that `scan` lists lies in the rectangle.
pub proof fn lemma_scan_has(r: Rect)
    ensures
        forall|p: Position| scan(r).contains(p) ==> r.has(p),
{
    lemma_rows_have(r, r.bottom_edge() - r.y);
}

proof fn lemma_rows_have(r: Rect, n: int)
    requires
        n <= r.bottom_edge() - r.y,
    ensures
        forall|p: Position| rows(r, n).contains(p) ==> r.has(p),
    decreases n,
{
    if n > 0 {
        lemma_rows_have(r, n - 1);
        let a = rows(r, n - 1);
        let b = row(r, n - 1);
        assert forall|p: Position| (a + b).contains(p) implies r.has(p) by {
            let k = choose|k: int| 0 <= k < (a + b).len() && (a + b)[k] == p;
            if k < a.len() {
                assert(a[k] == p);
            } else {
                assert(b[k - a.len()] == p);
            }
        }
    }
}

/// The positions of row `j` of `r`, left to right.
pub open spec fn row(r: Rect, j: int) -> Seq<Position> {
    Seq::new(
        (r.right_edge() - r.x) as nat,
        |i: int| Position { x: (r.x + i) as u16, y: (r.y + j) as u16 },
    )
}

/// The positions of the first `n` rows of `r`, row by row.
pub open spec fn rows(r: Rect, n: int) -> Seq<Position>
    decreases n,
{
    if n <= 0 {
        Seq::empty()
    } else {
        rows(r, n - 1) + row(r, n - 1)
    }
}

/// Every position of `r` in scan order: row by row, left to right.
pub open spec fn scan(r: Rect) -> Seq<Position> {
    rows(r, r.bottom_edge() - r.y)
}

} // verus!
