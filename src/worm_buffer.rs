use vstd::prelude::*;
use std::hash::BuildHasher;
use foldhash::fast::RandomState;
use crate::buffer::{Buffer, Cell, Color, Grid, cell_at, lemma_offset_injective, offset, put};
use crate::grid::{Position, Rect, lemma_scan_has, scan};

verus! {

#[verifier::external_type_specification]
#[verifier::external_body]
pub struct ExRandomState(foldhash::fast::RandomState);

/// One recorded cell: where it goes and what it holds.
pub type Recorded = (Position, Cell);

/// A blank cell: a space with no colour and no style.
pub open spec fn is_blank(c: Cell) -> bool {
    &&& c.symbol@ == seq![' ']
    &&& c.fg == Color::Reset && c.bg == Color::Reset && c.underline_color == Color::Reset
    &&& c.modifier == 0 && !c.skip
}

/// The cells of `g` at the positions `ps` that are not blank, in order.
pub open spec fn non_blank(ps: Seq<Position>, g: Grid) -> Seq<Recorded>
    decreases ps.len(),
{
    if ps.len() == 0 {
        Seq::empty()
    } else {
        let prev = non_blank(ps.drop_last(), g);
        match cell_at(g, ps.last()) {
            Some(c) => if is_blank(c) {
                prev
            } else {
                prev.push((ps.last(), c))
            },
            None => prev,
        }
    }
}

/// `g` after writing each recorded cell in order; later entries win.
pub open spec fn replay(rec: Seq<Recorded>, g: Grid) -> Grid
    decreases rec.len(),
{
    if rec.len() == 0 {
        g
    } else {
        put(replay(rec.drop_last(), g), rec.last().0, rec.last().1)
    }
}

/// The cells recorded by a capture pass over the positions `ps`, where
/// `before[k]` and `after[k]` are the digests of the cell at `ps[k]` before
/// and after rendering: each position, in order, whose digests differ and
/// that still has a cell in `g`, with that cell.
pub open spec fn changes(ps: Seq<Position>, before: Seq<u64>, after: Seq<u64>, g: Grid) -> Seq<
    Recorded,
>
    decreases ps.len(),
{
    if ps.len() == 0 {
        Seq::empty()
    } else {
        let k = ps.len() - 1;
        let prev = changes(ps.drop_last(), before, after, g);
        match cell_at(g, ps[k]) {
            Some(c) => if before[k] != after[k] {
                prev.push((ps[k], c))
            } else {
                prev
            },
            None => prev,
        }
    }
}

/// `rec` is what a capture pass over `ps` records from the rendered grid `g`,
/// for some digests of the cells before and after rendering.
pub open spec fn captured_from(rec: Seq<Recorded>, ps: Seq<Position>, g: Grid) -> bool {
    exists|before: Seq<u64>, after: Seq<u64>|
        #![trigger changes(ps, before, after, g)]
        before.len() == ps.len() && after.len() == ps.len() && rec == changes(
            ps,
            before,
            after,
            g,
        )
}

/// One pass of `cached_render` from recording `rec` and grid `g` leaves
/// recording `rec2` and grid `g2`: with cells recorded it replays them and
/// keeps them, whatever the render function would do; with none, `g2` is
/// what the render function drew (see `cached_render`) and `rec2` a capture
/// of it over `area` cut to `g`'s area.
pub open spec fn pass(rec: Seq<Recorded>, area: Rect, g: Grid, rec2: Seq<Recorded>, g2: Grid) -> bool {
    if rec.len() > 0 {
        rec2 == rec && g2 == replay(rec, g)
    } else {
        captured_from(rec2, scan(area.meet(g.0)), g2)
    }
}

/// Records the cells that one rendering pass changes and replays them on
/// later passes without rendering again.
///
/// While the recording is empty, `cached_render` renders, and records every
/// cell of the area whose digest changed. Once it holds cells, it only
/// writes them back, until `reset` empties it. A pass that changes no cell
/// records nothing, so the pass after it renders again.
#[derive(Debug)]
pub struct WormBuffer {
    cells: Vec<Recorded>,
    hasher_state: RandomState,
}

impl View for WormBuffer {
    type V = Seq<Recorded>;

    closed spec fn view(&self) -> Seq<Recorded> {
        self.cells@
    }
}

impl WormBuffer {
    /// A buffer with nothing recorded.
    pub fn new() -> (r: WormBuffer)
        ensures
            r@ == Seq::<Recorded>::empty(),
    {
        WormBuffer { cells: Vec::new(), hasher_state: new_hasher_state() }
    }

    /// This buffer's recording followed by `other`'s, without removing
    /// repeated positions.
    pub fn combine(self, other: &Self) -> (r: Self)
        ensures
            r@ == self@ + other@,
    {
        let mut this = self;
        let mut i: usize = 0;
        let ghost start = this.cells@;
        while i < other.cells.len()
            invariant
                i <= other.cells@.len(),
                this.cells@ == start + other.cells@.take(i as int),
            decreases other.cells@.len() - i,
        {
            let (p, c) = &other.cells[i];
            this.cells.push((*p, c.clone()));
            proof {
                assert(start + other.cells@.take(i + 1) =~= (start + other.cells@.take(
                    i as int,
                )).push(other.cells@[i as int]));
            }
            i = i + 1;
        }
        proof {
            assert(other.cells@.take(i as int) =~= other.cells@);
        }
        this
    }

    /// Forgets the recording, so that the next pass renders again.
    pub fn reset(&mut self)
        ensures
            final(self)@ == Seq::<Recorded>::empty(),
    {
        self.cells.clear();
    }

    /// The number of recorded cells.
    pub fn len(&self) -> (r: usize)
        ensures
            r == self@.len(),
    {
        self.cells.len()
    }

    /// Nothing is recorded: the next pass renders.
    pub fn is_empty(&self) -> (r: bool)
        ensures
            r == (self@.len() == 0),
    {
        self.cells.len() == 0
    }

    /// Renders through `render_widgets` once, recording the cells it
    /// changes within `area` (cut to the buffer's area); on later passes
    /// writes those cells back into `buf` instead of rendering.
    ///
    /// `render_widgets` is only needed to be callable while nothing is
    /// recorded: a pass that replays never calls it.
    pub fn cached_render<F: FnOnce(&mut Buffer)>(
        &mut self,
        area: Rect,
        buf: &mut Buffer,
        render_widgets: F,
    )
        requires
            old(self)@.len() == 0 ==> forall|b: &mut Buffer| render_widgets.requires((b,)),
        ensures
            pass(old(self)@, area, old(buf)@, final(self)@, final(buf)@),
            old(self)@.len() == 0 ==> exists|b: &mut Buffer|
                #![trigger render_widgets.ensures((b,), ())]
                render_widgets.ensures((b,), ()) && *b == *old(buf) && *final(b) == *final(buf),
    {
        if self.cells.len() > 0 {
            self.render(buf);
            return;
        }
        let region = area.intersection(buf.area);
        let positions = region.positions();
        let before = digests(&self.hasher_state, &positions, buf);
        render_widgets(buf);
        let after = digests(&self.hasher_state, &positions, buf);
        self.cells = changed_cells(&positions, &before, &after, buf);
    }

    /// A buffer whose recording is every non-blank cell of `buf`, in scan
    /// order over its area.
    pub fn from_buffer(buf: &Buffer) -> (r: WormBuffer)
        ensures
            r@ == non_blank(scan(buf.area), buf@),
    {
        let positions = buf.area.positions();
        let blank = Cell::new(" ");
        proof {
            reveal_strlit(" ");
        }
        let mut cells: Vec<Recorded> = Vec::new();
        let mut k: usize = 0;
        while k < positions.len()
            invariant
                k <= positions@.len(),
                blank.symbol@ == seq![' '],
                is_blank(blank),
                cells@ == non_blank(positions@.take(k as int), buf@),
            decreases positions@.len() - k,
        {
            let p = positions[k];
            proof {
                assert(positions@.take(k + 1).drop_last() =~= positions@.take(k as int));
            }
            match buf.get(p) {
                Some(c) => {
                    if !(*c == blank) {
                        cells.push((p, c.clone()));
                    }
                },
                None => {},
            }
            k = k + 1;
        }
        proof {
            assert(positions@.take(k as int) =~= positions@);
        }
        WormBuffer { cells, hasher_state: new_hasher_state() }
    }

    /// Writes every recorded cell into `buf`, in order.
    fn render(&self, buf: &mut Buffer)
        ensures
            final(buf)@ == replay(self@, old(buf)@),
    {
        let ghost start = buf@;
        let mut i: usize = 0;
        while i < self.cells.len()
            invariant
                i <= self.cells@.len(),
                buf@ == replay(self.cells@.take(i as int), start),
            decreases self.cells@.len() - i,
        {
            let (p, c) = &self.cells[i];
            proof {
                assert(self.cells@.take(i + 1).drop_last() =~= self.cells@.take(i as int));
            }
            buf.set(*p, c.clone());
            i = i + 1;
        }
        proof {
            assert(self.cells@.take(i as int) =~= self.cells@);
        }
    }
}

impl Clone for WormBuffer {
    /// The same recording, under the same hasher state.
    fn clone(&self) -> (r: Self)
        ensures
            r@ == self@,
    {
        let mut cells: Vec<Recorded> = Vec::new();
        let mut i: usize = 0;
        while i < self.cells.len()
            invariant
                i <= self.cells@.len(),
                cells@ == self.cells@.take(i as int),
            decreases self.cells@.len() - i,
        {
            let (p, c) = &self.cells[i];
            proof {
                assert(self.cells@.take(i + 1) =~= self.cells@.take(i as int).push(
                    self.cells@[i as int],
                ));
            }
            cells.push((*p, c.clone()));
            i = i + 1;
        }
        proof {
            assert(self.cells@.take(i as int) =~= self.cells@);
        }
        WormBuffer { cells, hasher_state: self.hasher_state }
    }
}

impl<'a> vstd::std_specs::convert::FromSpecImpl<&'a Buffer> for WormBuffer {
    open spec fn obeys_from_spec() -> bool {
        false
    }

    closed spec fn from_spec(buf: &'a Buffer) -> WormBuffer {
        arbitrary()
    }
}

impl<'a> From<&'a Buffer> for WormBuffer {
    /// As `from_buffer`: every non-blank cell of `buf`.
    fn from(buf: &'a Buffer) -> (r: WormBuffer)
        ensures
            r@ == non_blank(scan(buf.area), buf@),
    {
        WormBuffer::from_buffer(buf)
    }
}

impl Default for WormBuffer {
    fn default() -> (r: Self)
        ensures
            r@ == Seq::<Recorded>::empty(),
    {
        WormBuffer::new()
    }
}

/// The cells of `buf` at `positions` whose digest in `after` differs from
/// the one in `before`, in the order of `positions`; positions where `buf`
/// has no cell are skipped.
pub fn changed_cells(
    positions: &Vec<Position>,
    before: &Vec<u64>,
    after: &Vec<u64>,
    buf: &Buffer,
) -> (r: Vec<Recorded>)
    requires
        before@.len() == positions@.len(),
        after@.len() == positions@.len(),
    ensures
        r@ == changes(positions@, before@, after@, buf@),
{
    let mut recorded: Vec<Recorded> = Vec::new();
    let mut k: usize = 0;
    while k < positions.len()
        invariant
            k <= positions@.len(),
            before@.len() == positions@.len(),
            after@.len() == positions@.len(),
            recorded@ == changes(positions@.take(k as int), before@, after@, buf@),
        decreases positions@.len() - k,
    {
        let p = positions[k];
        proof {
            assert(positions@.take(k + 1).drop_last() =~= positions@.take(k as int));
        }
        match buf.get(p) {
            Some(c) => {
                if after[k] != before[k] {
                    recorded.push((p, c.clone()));
                }
            },
            None => {},
        }
        k = k + 1;
    }
    proof {
        assert(positions@.take(k as int) =~= positions@);
    }
    recorded
}

/// The digest of the cell of `buf` at each of `positions` (zero where it
/// has none).
fn digests(state: &RandomState, positions: &Vec<Position>, buf: &Buffer) -> (r: Vec<u64>)
    ensures
        r@.len() == positions@.len(),
{
    let mut out: Vec<u64> = Vec::new();
    let mut k: usize = 0;
    while k < positions.len()
        invariant
            k <= positions@.len(),
            out@.len() == k,
        decreases positions@.len() - k,
    {
        let h = match buf.get(positions[k]) {
            Some(c) => hash_cell(state, c),
            None => 0,
        };
        out.push(h);
        k = k + 1;
    }
    out
}

/// Replaying a capture into the grid it was taken from changes nothing.
pub proof fn lemma_replay_capture(ps: Seq<Position>, before: Seq<u64>, after: Seq<u64>, g: Grid)
    ensures
        replay(changes(ps, before, after, g), g) == g,
    decreases ps.len(),
{
    if ps.len() > 0 {
        lemma_replay_capture(ps.drop_last(), before, after, g);
        let k = ps.len() - 1;
        let prev = changes(ps.drop_last(), before, after, g);
        match cell_at(g, ps[k]) {
            Some(c) => if before[k] != after[k] {
                let rec = prev.push((ps[k], c));
                assert(rec.drop_last() =~= prev);
                assert(g.1.update(offset(g.0, ps[k]), c) =~= g.1);
            },
            None => {},
        }
    }
}

/// Repeated passes replay the first capture exactly: once a pass has
/// captured at least one cell, the next pass over the grid it left keeps
/// the recording and leaves that grid as it is, whatever the render
/// function would have drawn. Every later pass is then the same.
pub proof fn law_replay_is_idempotent(
    area: Rect,
    g0: Grid,
    rec1: Seq<Recorded>,
    g1: Grid,
    rec2: Seq<Recorded>,
    g2: Grid,
)
    requires
        pass(Seq::empty(), area, g0, rec1, g1),
        rec1.len() > 0,
        pass(rec1, area, g1, rec2, g2),
    ensures
        rec2 == rec1,
        g2 == g1,
{
    let ps = scan(area.meet(g0.0));
    let (before, after) = choose|before: Seq<u64>, after: Seq<u64>|
        #![trigger changes(ps, before, after, g1)]
        before.len() == ps.len() && after.len() == ps.len() && rec1 == changes(
            ps,
            before,
            after,
            g1,
        );
    lemma_replay_capture(ps, before, after, g1);
}

/// After `reset` the next pass records afresh: from an empty recording,
/// whatever was recorded before, every entry the pass records is a position
/// of the area (cut to the grid's area) holding its cell in the grid the
/// render function left, and nothing of an earlier recording is kept.
pub proof fn law_reset_recaptures(area: Rect, g: Grid, rec2: Seq<Recorded>, g2: Grid)
    requires
        pass(Seq::empty(), area, g, rec2, g2),
    ensures
        forall|i: int|
            0 <= i < rec2.len() ==> area.meet(g.0).has((#[trigger] rec2[i]).0) && cell_at(
                g2,
                rec2[i].0,
            ) == Some(rec2[i].1),
{
    let ps = scan(area.meet(g.0));
    let (before, after) = choose|before: Seq<u64>, after: Seq<u64>|
        #![trigger changes(ps, before, after, g2)]
        before.len() == ps.len() && after.len() == ps.len() && rec2 == changes(
            ps,
            before,
            after,
            g2,
        );
    lemma_changes_entries(ps, before, after, g2);
    lemma_scan_has(area.meet(g.0));
}

/// Every entry of a capture is a position of `ps` with its cell in `g`.
pub proof fn lemma_changes_entries(ps: Seq<Position>, before: Seq<u64>, after: Seq<u64>, g: Grid)
    ensures
        forall|i: int|
            0 <= i < changes(ps, before, after, g).len() ==> ps.contains(
                (#[trigger] changes(ps, before, after, g)[i]).0,
            ) && cell_at(g, changes(ps, before, after, g)[i].0) == Some(
                changes(ps, before, after, g)[i].1,
            ),
    decreases ps.len(),
{
    if ps.len() > 0 {
        lemma_changes_entries(ps.drop_last(), before, after, g);
        let prev = changes(ps.drop_last(), before, after, g);
        assert forall|i: int| 0 <= i < prev.len() implies ps.contains(prev[i].0) by {
            let j = choose|j: int| 0 <= j < ps.drop_last().len() && ps.drop_last()[j] == prev[i].0;
            assert(ps[j] == prev[i].0);
        }
        assert(ps[ps.len() - 1] == ps.last());
    }
}

/// The number of positions of `ps` whose cell differs between `g0` and `g`.
pub open spec fn count_changed(ps: Seq<Position>, g0: Grid, g: Grid) -> nat
    decreases ps.len(),
{
    if ps.len() == 0 {
        0
    } else {
        count_changed(ps.drop_last(), g0, g) + if cell_at(g0, ps.last()) != cell_at(g, ps.last()) {
            1nat
        } else {
            0nat
        }
    }
}

/// A capture holds one entry per changed cell and no more: when every
/// position has a cell before and after rendering, and the digests differ
/// exactly where the cells do, the recording has as many entries as there
/// are changed cells (none when nothing changed).
pub proof fn law_diff_minimality(
    ps: Seq<Position>,
    before: Seq<u64>,
    after: Seq<u64>,
    g0: Grid,
    g: Grid,
)
    requires
        before.len() == ps.len(),
        after.len() == ps.len(),
        forall|k: int| 0 <= k < ps.len() ==> cell_at(g0, #[trigger] ps[k]) is Some,
        forall|k: int| 0 <= k < ps.len() ==> cell_at(g, #[trigger] ps[k]) is Some,
        forall|k: int|
            0 <= k < ps.len() ==> (before[k] == after[k] <==> cell_at(g0, #[trigger] ps[k])
                == cell_at(g, ps[k])),
    ensures
        changes(ps, before, after, g).len() == count_changed(ps, g0, g),
    decreases ps.len(),
{
    if ps.len() > 0 {
        let k = ps.len() - 1;
        assert(ps.last() == ps[k]);
        lemma_changes_prefix_digests(ps, before, after, g);
        law_diff_minimality(ps.drop_last(), before.drop_last(), after.drop_last(), g0, g);
    }
}

/// Digests past the positions scanned do not matter, on either side.
proof fn lemma_changes_prefix_digests(ps: Seq<Position>, before: Seq<u64>, after: Seq<u64>, g: Grid)
    requires
        ps.len() > 0,
        before.len() == ps.len(),
        after.len() == ps.len(),
    ensures
        changes(ps.drop_last(), before, after, g) == changes(
            ps.drop_last(),
            before.drop_last(),
            after.drop_last(),
            g,
        ),
{
    lemma_changes_prefix_both(ps.drop_last(), before, after, before.drop_last(), after.drop_last(), g);
}

proof fn lemma_changes_prefix_both(
    ps: Seq<Position>,
    b1: Seq<u64>,
    a1: Seq<u64>,
    b2: Seq<u64>,
    a2: Seq<u64>,
    g: Grid,
)
    requires
        b1.len() >= ps.len() && a1.len() >= ps.len(),
        b2.len() >= ps.len() && a2.len() >= ps.len(),
        forall|i: int| 0 <= i < ps.len() ==> b1[i] == b2[i] && a1[i] == a2[i],
    ensures
        changes(ps, b1, a1, g) == changes(ps, b2, a2, g),
    decreases ps.len(),
{
    if ps.len() > 0 {
        lemma_changes_prefix_both(ps.drop_last(), b1, a1, b2, a2, g);
    }
}

/// Replaying two recordings one after the other is replaying them combined.
proof fn lemma_replay_append(a: Seq<Recorded>, b: Seq<Recorded>, g: Grid)
    ensures
        replay(a + b, g) == replay(b, replay(a, g)),
    decreases b.len(),
{
    if b.len() == 0 {
        assert(a + b =~= a);
    } else {
        assert((a + b).drop_last() =~= a + b.drop_last());
        lemma_replay_append(a, b.drop_last(), g);
    }
}

/// Combining resolves repeated positions in favour of the recording combined
/// last: replaying `a` combined with `b` is replaying `a`, then `b` over it.
pub proof fn law_combine_last_wins(a: Seq<Recorded>, b: Seq<Recorded>, g: Grid)
    ensures
        replay(a + b, g) == replay(b, replay(a, g)),
{
    lemma_replay_append(a, b, g);
}

/// Replaying keeps the grid's area and number of cells.
proof fn lemma_replay_shape(rec: Seq<Recorded>, g: Grid)
    ensures
        replay(rec, g).0 == g.0,
        replay(rec, g).1.len() == g.1.len(),
    decreases rec.len(),
{
    if rec.len() > 0 {
        lemma_replay_shape(rec.drop_last(), g);
    }
}

/// A write at `q` leaves the cell at any other position `p` as it was.
proof fn lemma_put_other(g: Grid, q: Position, d: Cell, p: Position)
    requires
        p != q,
    ensures
        cell_at(put(g, q, d), p) == cell_at(g, p),
{
    if cell_at(g, p) is Some && cell_at(g, q) is Some {
        lemma_offset_injective(g.0, p, q);
    }
}

/// Replaying leaves a position that no entry names as it was.
pub proof fn law_replay_keeps_unrecorded(rec: Seq<Recorded>, g: Grid, p: Position)
    requires
        forall|k: int| 0 <= k < rec.len() ==> (#[trigger] rec[k]).0 != p,
    ensures
        cell_at(replay(rec, g), p) == cell_at(g, p),
    decreases rec.len(),
{
    if rec.len() > 0 {
        assert(rec[rec.len() - 1] == rec.last());
        law_replay_keeps_unrecorded(rec.drop_last(), g, p);
        lemma_put_other(replay(rec.drop_last(), g), rec.last().0, rec.last().1, p);
    }
}

/// After a replay each recorded position that the grid has holds the cell
/// of its last entry.
pub proof fn law_replay_last_entry_wins(rec: Seq<Recorded>, g: Grid, j: int)
    requires
        0 <= j < rec.len(),
        forall|k: int| j < k < rec.len() ==> (#[trigger] rec[k]).0 != rec[j].0,
        cell_at(g, rec[j].0) is Some,
    ensures
        cell_at(replay(rec, g), rec[j].0) == Some(rec[j].1),
    decreases rec.len(),
{
    let p = rec[j].0;
    let h = replay(rec.drop_last(), g);
    lemma_replay_shape(rec.drop_last(), g);
    if j == rec.len() - 1 {
        assert(rec.last() == rec[j]);
        assert(cell_at(h, p) is Some);
    } else {
        assert(rec[rec.len() - 1] == rec.last());
        assert(rec.drop_last()[j] == rec[j]);
        law_replay_last_entry_wins(rec.drop_last(), g, j);
        lemma_put_other(h, rec.last().0, rec.last().1, p);
    }
}

/// Combining, cell by cell: a position that `b` records holds `b`'s last
/// cell for it, and a position only `a` records holds `a`'s last cell for
/// it, wherever the grid has that position.
pub proof fn law_combine_position(a: Seq<Recorded>, b: Seq<Recorded>, g: Grid, p: Position)
    requires
        cell_at(g, p) is Some,
    ensures
        forall|j: int|
            0 <= j < b.len() && (#[trigger] b[j]).0 == p && (forall|k: int|
                j < k < b.len() ==> (#[trigger] b[k]).0 != p) ==> cell_at(replay(a + b, g), p)
                == Some(b[j].1),
        forall|i: int|
            0 <= i < a.len() && (#[trigger] a[i]).0 == p && (forall|k: int|
                i < k < a.len() ==> (#[trigger] a[k]).0 != p) && (forall|k: int|
                0 <= k < b.len() ==> (#[trigger] b[k]).0 != p) ==> cell_at(replay(a + b, g), p)
                == Some(a[i].1),
{
    let ab = a + b;
    assert forall|j: int|
        0 <= j < b.len() && (#[trigger] b[j]).0 == p && (forall|k: int|
            j < k < b.len() ==> (#[trigger] b[k]).0 != p) implies cell_at(replay(ab, g), p)
        == Some(b[j].1) by {
        let jj = a.len() + j;
        assert(ab[jj] == b[j]);
        assert forall|k: int| jj < k < ab.len() implies (#[trigger] ab[k]).0 != ab[jj].0 by {
            assert(ab[k] == b[k - a.len()]);
        }
        law_replay_last_entry_wins(ab, g, jj);
    }
    assert forall|i: int|
        0 <= i < a.len() && (#[trigger] a[i]).0 == p && (forall|k: int|
            i < k < a.len() ==> (#[trigger] a[k]).0 != p) && (forall|k: int|
            0 <= k < b.len() ==> (#[trigger] b[k]).0 != p) implies cell_at(replay(ab, g), p)
        == Some(a[i].1) by {
        assert(ab[i] == a[i]);
        assert forall|k: int| i < k < ab.len() implies (#[trigger] ab[k]).0 != ab[i].0 by {
            if k < a.len() {
                assert(ab[k] == a[k]);
            } else {
                assert(ab[k] == b[k - a.len()]);
            }
        }
        law_replay_last_entry_wins(ab, g, i);
    }
}

/// Writes at two different positions commute.
proof fn lemma_put_commutes(g: Grid, p: Position, c: Cell, q: Position, d: Cell)
    requires
        p != q,
    ensures
        put(put(g, p, c), q, d) == put(put(g, q, d), p, c),
{
    if cell_at(g, p) is Some && cell_at(g, q) is Some {
        lemma_offset_injective(g.0, p, q);
        assert(g.1.update(offset(g.0, p), c).update(offset(g.0, q), d) =~= g.1.update(
            offset(g.0, q),
            d,
        ).update(offset(g.0, p), c));
    }
}

/// A write at a position that `b` does not record commutes with replaying `b`.
proof fn lemma_put_replay_commute(b: Seq<Recorded>, g: Grid, p: Position, c: Cell)
    requires
        forall|j: int| 0 <= j < b.len() ==> (#[trigger] b[j]).0 != p,
    ensures
        replay(b, put(g, p, c)) == put(replay(b, g), p, c),
    decreases b.len(),
{
    if b.len() > 0 {
        lemma_put_replay_commute(b.drop_last(), g, p, c);
        assert(b[b.len() - 1].0 != p);
        lemma_put_commutes(replay(b.drop_last(), g), b.last().0, b.last().1, p, c);
    }
}

/// Replays of two recordings with no position in common commute.
proof fn lemma_replay_disjoint_commute(a: Seq<Recorded>, b: Seq<Recorded>, g: Grid)
    requires
        forall|i: int, j: int| 0 <= i < a.len() && 0 <= j < b.len() ==> (#[trigger] a[i]).0 != (
        #[trigger] b[j]).0,
    ensures
        replay(b, replay(a, g)) == replay(a, replay(b, g)),
    decreases a.len(),
{
    if a.len() > 0 {
        let a0 = a.drop_last();
        assert forall|i: int, j: int| 0 <= i < a0.len() && 0 <= j < b.len() implies (
        #[trigger] a0[i]).0 != (#[trigger] b[j]).0 by {
            assert(a0[i] == a[i]);
        }
        lemma_replay_disjoint_commute(a0, b, g);
        assert forall|j: int| 0 <= j < b.len() implies (#[trigger] b[j]).0 != a.last().0 by {
            assert(a[a.len() - 1] == a.last());
        }
        lemma_put_replay_commute(b, replay(a0, g), a.last().0, a.last().1);
    }
}

/// Combining in either order replays to the same grid when the two
/// recordings share no position.
pub proof fn law_combine_disjoint_commutes(a: Seq<Recorded>, b: Seq<Recorded>, g: Grid)
    requires
        forall|i: int, j: int| 0 <= i < a.len() && 0 <= j < b.len() ==> (#[trigger] a[i]).0 != (
        #[trigger] b[j]).0,
    ensures
        replay(a + b, g) == replay(b + a, g),
{
    lemma_replay_append(a, b, g);
    lemma_replay_append(b, a, g);
    lemma_replay_disjoint_commute(a, b, g);
}

/// Relies on `foldhash::fast::RandomState::default`: a hasher state with a
/// fresh seed.
#[verifier::external_body]
fn new_hasher_state() -> RandomState {
    RandomState::default()
}

/// Relies on `BuildHasher::hash_one` of `foldhash::fast::RandomState`: a
/// digest of the cell under this state's seed. Nothing is promised of its
/// value.
#[verifier::external_body]
fn hash_cell(state: &RandomState, c: &Cell) -> u64 {
    state.hash_one(c)
}

} // verus!
