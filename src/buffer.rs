use vstd::prelude::*;
use crate::grid::{Position, Rect};

verus! {

/// A terminal colour.
#[derive(Debug, Clone, Copy, PartialEq, Eq, Structural, Hash, Default)]
pub enum Color {
    #[default]
    Reset,
    Black,
    Red,
    Green,
    Yellow,
    Blue,
    Magenta,
    Cyan,
    Gray,
    DarkGray,
    LightRed,
    LightGreen,
    LightYellow,
    LightBlue,
    LightMagenta,
    LightCyan,
    White,
    Rgb(u8, u8, u8),
    Indexed(u8),
}

/// The content of one screen position: a symbol and its style.
#[derive(Debug, Hash)]
pub struct Cell {
    pub symbol: String,
    pub fg: Color,
    pub bg: Color,
    pub underline_color: Color,
    /// Style flags (bold, italic, ...), one bit each.
    pub modifier: u16,
    /// The cell is left alone when the screen is drawn.
    pub skip: bool,
}

impl Clone for Cell {
    fn clone(&self) -> (r: Self)
        ensures
            r == *self,
    {
        Cell {
            symbol: self.symbol.clone(),
            fg: self.fg,
            bg: self.bg,
            underline_color: self.underline_color,
            modifier: self.modifier,
            skip: self.skip,
        }
    }
}

impl PartialEq for Cell {
    fn eq(&self, other: &Cell) -> (r: bool) {
        self.symbol == other.symbol && self.fg == other.fg && self.bg == other.bg
            && self.underline_color == other.underline_color && self.modifier == other.modifier
            && self.skip == other.skip
    }
}

impl vstd::std_specs::cmp::PartialEqSpecImpl for Cell {
    open spec fn obeys_eq_spec() -> bool {
        true
    }

    open spec fn eq_spec(&self, other: &Cell) -> bool {
        &&& self.symbol@ == other.symbol@
        &&& self.fg == other.fg
        &&& self.bg == other.bg
        &&& self.underline_color == other.underline_color
        &&& self.modifier == other.modifier
        &&& self.skip == other.skip
    }
}

impl Cell {
    /// A cell showing `symbol` with no colour and no style.
    pub fn new(symbol: &str) -> (r: Cell)
        ensures
            r.symbol@ == symbol@,
            r.fg == Color::Reset && r.bg == Color::Reset && r.underline_color == Color::Reset,
            r.modifier == 0 && !r.skip,
    {
        Cell {
            symbol: symbol.to_owned(),
            fg: Color::Reset,
            bg: Color::Reset,
            underline_color: Color::Reset,
            modifier: 0,
            skip: false,
        }
    }
}

/// A grid of cells covering `area`, stored row by row in `content`.
///
/// A buffer is well formed when `content` holds `area.width * area.height`
/// cells. Reads and writes through `get` and `set` ignore positions that
/// have no cell.
#[derive(Debug, Clone)]
pub struct Buffer {
    pub area: Rect,
    pub content: Vec<Cell>,
}

/// What a buffer holds: its area and its cells, row by row.
pub type Grid = (Rect, Seq<Cell>);

impl View for Buffer {
    type V = Grid;

    open spec fn view(&self) -> Grid {
        (self.area, self.content@)
    }
}

/// Where the cell of `p` sits in the content of a buffer over `area`.
pub open spec fn offset(area: Rect, p: Position) -> int {
    (p.y - area.y) * area.width + (p.x - area.x)
}

/// The cell at `p`, if the grid has one there.
pub open spec fn cell_at(g: Grid, p: Position) -> Option<Cell> {
    if g.0.has(p) && offset(g.0, p) < g.1.len() {
        Some(g.1[offset(g.0, p)])
    } else {
        None
    }
}

/// The grid with the cell at `p` replaced by `c`; unchanged where it has no
/// cell at `p`.
pub open spec fn put(g: Grid, p: Position, c: Cell) -> Grid {
    if cell_at(g, p) is Some {
        (g.0, g.1.update(offset(g.0, p), c))
    } else {
        g
    }
}

/// Distinct positions of an area have distinct offsets.
pub proof fn lemma_offset_injective(area: Rect, p: Position, q: Position)
    requires
        area.has(p),
        area.has(q),
        p != q,
    ensures
        offset(area, p) != offset(area, q),
        offset(area, p) >= 0,
{
    let w = area.width as int;
    let (a1, b1) = (p.y - area.y, p.x - area.x);
    let (a2, b2) = (q.y - area.y, q.x - area.x);
    assert(0 <= b1 < w && 0 <= b2 < w && a1 >= 0 && a2 >= 0);
    if a1 == a2 {
        assert(a1 * w + b1 != a2 * w + b2);
    } else if a1 < a2 {
        assert(a1 * w + b1 < a2 * w + b2) by (nonlinear_arith)
            requires
                a1 < a2,
                0 <= b1 < w,
                0 <= b2,
        ;
    } else {
        assert(a2 * w + b2 < a1 * w + b1) by (nonlinear_arith)
            requires
                a2 < a1,
                0 <= b2 < w,
                0 <= b1,
        ;
    }
    assert(a1 * w >= 0) by (nonlinear_arith)
        requires
            a1 >= 0,
            w >= 0,
    ;
}

impl Buffer {
    /// A buffer over `area` with every cell a copy of `cell`.
    pub fn filled(area: Rect, cell: &Cell) -> (r: Buffer)
        requires
            area.width * area.height <= usize::MAX,
        ensures
            r.area == area,
            r.content@.len() == area.width * area.height,
            forall|i: int| 0 <= i < r.content@.len() ==> r.content@[i] == *cell,
    {
        let size = (area.width as usize) * (area.height as usize);
        let mut content: Vec<Cell> = Vec::new();
        let mut i: usize = 0;
        while i < size
            invariant
                i <= size,
                content@.len() == i,
                forall|k: int| 0 <= k < i ==> content@[k] == *cell,
            decreases size - i,
        {
            content.push(cell.clone());
            i = i + 1;
        }
        Buffer { area, content }
    }

    /// A buffer over `area` with every cell blank: a space, unstyled.
    pub fn empty(area: Rect) -> (r: Buffer)
        requires
            area.width * area.height <= usize::MAX,
        ensures
            r.area == area,
            r.content@.len() == area.width * area.height,
            forall|i: int|
                0 <= i < r.content@.len() ==> {
                    let c = #[trigger] r.content@[i];
                    &&& c.symbol@ == seq![' ']
                    &&& c.fg == Color::Reset && c.bg == Color::Reset
                    &&& c.underline_color == Color::Reset
                    &&& c.modifier == 0 && !c.skip
                },
    {
        let blank = Cell::new(" ");
        proof {
            reveal_strlit(" ");
        }
        Buffer::filled(area, &blank)
    }

    /// Where the cell of `p` sits in `content`, if the buffer has one there.
    fn index_of(&self, p: Position) -> (r: Option<usize>)
        ensures
            match r {
                Some(i) => cell_at(self@, p) is Some && i == offset(self.area, p),
                None => cell_at(self@, p) is None,
            },
    {
        if !self.area.contains(p) {
            return None;
        }
        let dy = (p.y - self.area.y) as usize;
        let dx = (p.x - self.area.x) as usize;
        let w = self.area.width as usize;
        assert(dy * w <= 0xFFFF * 0xFFFF) by (nonlinear_arith)
            requires
                dy <= 0xFFFF,
                w <= 0xFFFF,
        ;
        let i = dy * w + dx;
        if i < self.content.len() {
            Some(i)
        } else {
            None
        }
    }

    /// The cell at `p`, or `None` where the buffer has none.
    pub fn get(&self, p: Position) -> (r: Option<&Cell>)
        ensures
            match r {
                Some(c) => cell_at(self@, p) == Some(*c),
                None => cell_at(self@, p) is None,
            },
    {
        match self.index_of(p) {
            Some(i) => Some(&self.content[i]),
            None => None,
        }
    }

    /// Replaces the cell at `p` by `c`; does nothing where the buffer has no
    /// cell at `p`.
    pub fn set(&mut self, p: Position, c: Cell)
        ensures
            final(self)@ == put(old(self)@, p, c),
    {
        match self.index_of(p) {
            Some(i) => {
                self.content.set(i, c);
            },
            None => {},
        }
    }
}

} // verus!
