//! The playfield: a fixed 25 x 40 grid of cells, collision queries for
//! pieces, placement of a locked piece, and full-line compaction.

use vstd::prelude::*;

use crate::pieces::{shape_offsets, Piece, PieceKind};

verus! {

pub const BOARD_WIDTH: usize = 25;

pub const BOARD_HEIGHT: usize = 40;

/// One grid cell. The stored board holds only `Empty` and `Filled` cells;
/// `Shadow` is the ghost-piece display overlay produced when composing a frame.
#[derive(Clone, Copy, PartialEq, Eq, Structural, Debug)]
pub enum Cell {
    Empty,
    Filled(PieceKind),
    Shadow,
}

/// The rows of a grid, as mathematical sequences.
pub open spec fn rows_view(rows: Seq<Vec<Cell>>) -> Seq<Seq<Cell>> {
    rows.map_values(|r: Vec<Cell>| r@)
}

/// A well-formed stored grid: full height, full-width rows, and no ghost
/// marker ever persisted.
pub open spec fn grid_wf(b: Seq<Seq<Cell>>) -> bool {
    &&& b.len() == BOARD_HEIGHT
    &&& forall|y: int| 0 <= y < b.len() ==> (#[trigger] b[y]).len() == BOARD_WIDTH
    &&& forall|y: int, x: int|
        0 <= y < b.len() && 0 <= x < b[y].len() ==> !(#[trigger] b[y][x] is Shadow)
}

pub open spec fn empty_row() -> Seq<Cell> {
    Seq::new(BOARD_WIDTH as nat, |x: int| Cell::Empty)
}

pub open spec fn empty_grid() -> Seq<Seq<Cell>> {
    Seq::new(BOARD_HEIGHT as nat, |y: int| empty_row())
}

/// (x, y) lies inside the stored grid and holds a locked piece cell.
pub open spec fn cell_filled(b: Seq<Seq<Cell>>, x: int, y: int) -> bool {
    &&& 0 <= y < b.len()
    &&& 0 <= x < b[y].len()
    &&& b[y][x] is Filled
}

/// A piece of `kind` in rotation `r` with its origin at column `x`, row `y`
/// sits legally: every occupied cell is inside the horizontal bounds, above
/// the floor, and (for rows inside the stored grid) not on a filled cell.
/// Rows with negative index are permitted, as spawn/rotation headroom.
pub open spec fn piece_valid(b: Seq<Seq<Cell>>, kind: PieceKind, r: int, x: int, y: int) -> bool {
    forall|i: int|
        0 <= i < 4 ==> {
            let off = #[trigger] shape_offsets(kind, r)[i];
            let cx = x + off.0;
            let cy = y + off.1;
            &&& 0 <= cx < BOARD_WIDTH as int
            &&& cy < BOARD_HEIGHT as int
            &&& (cy >= 0 ==> !(b[cy][cx] is Filled))
        }
}

/// `piece_valid`, applied to a piece value.
pub open spec fn piece_fits(b: Seq<Seq<Cell>>, p: Piece) -> bool {
    piece_valid(b, p.piece_type, p.rotation as int, p.x as int, p.y as int)
}

/// Some occupied cell of the piece lands on (x, y).
pub open spec fn piece_covers(kind: PieceKind, r: int, px: int, py: int, x: int, y: int) -> bool {
    exists|i: int|
        0 <= i < 4 && {
            let off = #[trigger] shape_offsets(kind, r)[i];
            px + off.0 == x && py + off.1 == y
        }
}

/// Like `piece_covers`, restricted to the first `n` offsets of the shape.
pub open spec fn piece_covers_prefix(
    kind: PieceKind,
    r: int,
    px: int,
    py: int,
    x: int,
    y: int,
    n: int,
) -> bool {
    exists|i: int|
        0 <= i < n && {
            let off = #[trigger] shape_offsets(kind, r)[i];
            px + off.0 == x && py + off.1 == y
        }
}

/// The grid after baking the piece in: every covered in-grid cell becomes
/// `Filled(kind)`; covered cells outside the stored grid (above the top)
/// are silently dropped.
pub open spec fn place_spec(
    b: Seq<Seq<Cell>>,
    kind: PieceKind,
    r: int,
    px: int,
    py: int,
) -> Seq<Seq<Cell>> {
    Seq::new(
        b.len(),
        |y: int|
            Seq::new(
                b[y].len(),
                |x: int|
                    if piece_covers(kind, r, px, py, x, y) {
                        Cell::Filled(kind)
                    } else {
                        b[y][x]
                    },
            ),
    )
}

/// Same as `place_spec`, over the first `n` offsets only.
pub open spec fn place_prefix(
    b: Seq<Seq<Cell>>,
    kind: PieceKind,
    r: int,
    px: int,
    py: int,
    n: int,
) -> Seq<Seq<Cell>> {
    Seq::new(
        b.len(),
        |y: int|
            Seq::new(
                b[y].len(),
                |x: int|
                    if piece_covers_prefix(kind, r, px, py, x, y, n) {
                        Cell::Filled(kind)
                    } else {
                        b[y][x]
                    },
            ),
    )
}

/// Every cell of the row holds a locked piece.
pub open spec fn full_row(row: Seq<Cell>) -> bool {
    forall|x: int| 0 <= x < row.len() ==> (#[trigger] row[x]) is Filled
}

/// The rows that survive a line clear, in their original order.
pub open spec fn kept_rows(b: Seq<Seq<Cell>>) -> Seq<Seq<Cell>>
    decreases b.len(),
{
    if b.len() == 0 {
        Seq::empty()
    } else {
        let rest = kept_rows(b.drop_last());
        if full_row(b.last()) {
            rest
        } else {
            rest.push(b.last())
        }
    }
}

/// The grid after compaction: freshly emptied rows on top, then every
/// non-full row, order preserved.
pub open spec fn compact_spec(b: Seq<Seq<Cell>>) -> Seq<Seq<Cell>> {
    Seq::new((b.len() - kept_rows(b).len()) as nat, |y: int| empty_row()) + kept_rows(b)
}

/// Compaction never keeps more rows than there were, and every kept row is
/// one of the original rows.
pub proof fn lemma_kept_rows(b: Seq<Seq<Cell>>)
    ensures
        kept_rows(b).len() <= b.len(),
        forall|i: int| 0 <= i < kept_rows(b).len() ==> b.contains(#[trigger] kept_rows(b)[i]),
    decreases b.len(),
{
    if b.len() > 0 {
        lemma_kept_rows(b.drop_last());
        assert forall|i: int| 0 <= i < kept_rows(b).len() implies b.contains(
            #[trigger] kept_rows(b)[i],
        ) by {
            let k = kept_rows(b);
            let rest = kept_rows(b.drop_last());
            if i < rest.len() {
                let j = choose|j: int| 0 <= j < b.drop_last().len() && b.drop_last()[j] == rest[i];
                assert(b[j] == rest[i]);
            } else {
                assert(k[i] == b.last());
                assert(b[b.len() - 1] == b.last());
            }
        }
    }
}

/// The playfield grid. The stored cells are always a well-formed grid
/// (see `grid_wf`); the ghost overlay never enters it.
pub struct Board {
    cells: Vec<Vec<Cell>>,
}

impl View for Board {
    type V = Seq<Seq<Cell>>;

    closed spec fn view(&self) -> Seq<Seq<Cell>> {
        rows_view(self.cells@)
    }
}

fn make_empty_row() -> (row: Vec<Cell>)
    ensures
        row@ == empty_row(),
{
    let mut row: Vec<Cell> = Vec::new();
    let mut x: usize = 0;
    while x < BOARD_WIDTH
        invariant
            x <= BOARD_WIDTH,
            row@.len() == x,
            forall|i: int| 0 <= i < x ==> row@[i] == Cell::Empty,
        decreases BOARD_WIDTH - x,
    {
        row.push(Cell::Empty);
        x += 1;
    }
    proof {
        assert(row@ =~= empty_row());
    }
    row
}

fn copy_row(row: &Vec<Cell>) -> (out: Vec<Cell>)
    ensures
        out@ == row@,
{
    let mut out: Vec<Cell> = Vec::new();
    let mut x: usize = 0;
    while x < row.len()
        invariant
            x <= row@.len(),
            out@ == row@.subrange(0, x as int),
        decreases row@.len() - x,
    {
        out.push(row[x]);
        proof {
            assert(out@ =~= row@.subrange(0, x + 1));
        }
        x += 1;
    }
    proof {
        assert(row@.subrange(0, row@.len() as int) =~= row@);
    }
    out
}

fn is_row_full(row: &Vec<Cell>) -> (r: bool)
    ensures
        r == full_row(row@),
{
    let mut x: usize = 0;
    while x < row.len()
        invariant
            x <= row@.len(),
            forall|i: int| 0 <= i < x ==> (#[trigger] row@[i]) is Filled,
        decreases row@.len() - x,
    {
        if !(matches!(row[x], Cell::Filled(_))) {
            assert(!(row@[x as int] is Filled));
            return false;
        }
        x += 1;
    }
    true
}

impl Board {
    pub open spec fn wf(&self) -> bool {
        grid_wf(self@)
    }

    /// A fresh, fully empty playfield.
    pub fn new() -> (b: Board)
        ensures
            b.wf(),
            b@ == empty_grid(),
    {
        let mut cells: Vec<Vec<Cell>> = Vec::new();
        let mut y: usize = 0;
        while y < BOARD_HEIGHT
            invariant
                y <= BOARD_HEIGHT,
                cells@.len() == y,
                forall|i: int| 0 <= i < y ==> (#[trigger] cells@[i])@ == empty_row(),
            decreases BOARD_HEIGHT - y,
        {
            cells.push(make_empty_row());
            y += 1;
        }
        let b = Board { cells };
        proof {
            assert(b@ =~~= empty_grid());
        }
        b
    }

    /// The cell stored at column `x`, row `y`.
    pub fn get_cell(&self, x: usize, y: usize) -> (c: Cell)
        requires
            y < self@.len(),
            x < self@[y as int].len(),
        ensures
            c == self@[y as int][x as int],
    {
        self.cells[y][x]
    }

    /// Overwrite the cell at column `x`, row `y`. The shadow marker is
    /// display-only and may not be stored.
    pub fn set_cell(&mut self, x: usize, y: usize, c: Cell)
        requires
            old(self).wf(),
            x < BOARD_WIDTH,
            y < BOARD_HEIGHT,
            !(c is Shadow),
        ensures
            final(self).wf(),
            final(self)@ == old(self)@.update(y as int, old(self)@[y as int].update(x as int, c)),
    {
        proof {
            assert(self@[y as int] == self.cells@[y as int]@);
        }
        let row: &mut Vec<Cell> = &mut self.cells[y];
        row.set(x, c);
        proof {
            assert(self@ =~~= old(self)@.update(
                y as int,
                old(self)@[y as int].update(x as int, c),
            ));
        }
    }

    /// True iff (x, y) is inside the stored grid and that cell is filled.
    /// Cells above the top (y < 0) are never occupied.
    pub fn is_occupied(&self, x: i32, y: i32) -> (r: bool)
        requires
            self.wf(),
        ensures
            r == cell_filled(self@, x as int, y as int),
    {
        if x < 0 || x >= BOARD_WIDTH as i32 || y < 0 || y >= BOARD_HEIGHT as i32 {
            false
        } else {
            proof {
                assert(self@[y as int] == self.cells@[y as int]@);
            }
            matches!(self.cells[y as usize][x as usize], Cell::Filled(_))
        }
    }

    /// Bake the piece's cells into the grid; cells above the top are
    /// silently dropped.
    pub fn place(&mut self, piece: &Piece)
        requires
            old(self).wf(),
            piece.rotation < 4,
        ensures
            final(self).wf(),
            final(self)@ == place_spec(
                old(self)@,
                piece.piece_type,
                piece.rotation as int,
                piece.x as int,
                piece.y as int,
            ),
    {
        let ghost b0 = self@;
        let ghost kind = piece.piece_type;
        let ghost r = piece.rotation as int;
        let ghost px = piece.x as int;
        let ghost py = piece.y as int;
        let shape = crate::pieces::get_piece_shape(piece.piece_type, piece.rotation);
        let mut n: usize = 0;
        proof {
            assert(self@ =~~= place_prefix(b0, kind, r, px, py, 0));
        }
        while n < 4
            invariant
                shape@ == shape_offsets(kind, r),
                shape@.len() == 4,
                n <= 4,
                grid_wf(b0),
                grid_wf(self@),
                piece.piece_type == kind,
                piece.rotation as int == r,
                piece.x as int == px,
                piece.y as int == py,
                self@ == place_prefix(b0, kind, r, px, py, n as int),
            decreases 4 - n,
        {
            let (dx, dy) = shape[n];
            let cx: i64 = piece.x as i64 + dx as i64;
            let cy: i64 = piece.y as i64 + dy as i64;
            let ghost before = self@;
            if 0 <= cx && cx < BOARD_WIDTH as i64 && 0 <= cy && cy < BOARD_HEIGHT as i64 {
                self.set_cell(cx as usize, cy as usize, Cell::Filled(piece.piece_type));
            }
            proof {
                let prev = place_prefix(b0, kind, r, px, py, n as int);
                let next = place_prefix(b0, kind, r, px, py, n + 1);
                assert forall|yy: int, xx: int|
                    0 <= yy < b0.len() && 0 <= xx < b0[yy].len() implies self@[yy][xx] == next[yy][xx] by {
                    let off = shape_offsets(kind, r)[n as int];
                    if piece_covers_prefix(kind, r, px, py, xx, yy, n + 1) {
                        if piece_covers_prefix(kind, r, px, py, xx, yy, n as int) {
                            assert(prev[yy][xx] == Cell::Filled(kind));
                        } else {
                            assert(px + off.0 == xx && py + off.1 == yy);
                        }
                    } else {
                        assert(!(px + off.0 == xx && py + off.1 == yy));
                        assert(prev[yy][xx] == b0[yy][xx]);
                    }
                }
                assert(self@ =~~= next);
            }
            n += 1;
        }
        proof {
            assert forall|yy: int, xx: int|
                0 <= yy < b0.len() && 0 <= xx < b0[yy].len() implies place_prefix(
                b0,
                kind,
                r,
                px,
                py,
                4,
            )[yy][xx] == place_spec(b0, kind, r, px, py)[yy][xx] by {
                assert(piece_covers_prefix(kind, r, px, py, xx, yy, 4) == piece_covers(
                    kind,
                    r,
                    px,
                    py,
                    xx,
                    yy,
                ));
            }
            assert(place_prefix(b0, kind, r, px, py, 4) =~~= place_spec(b0, kind, r, px, py));
        }
    }

    /// Remove every full row and let the rows above fall; freshly emptied
    /// rows appear at the top. Returns how many rows were cleared.
    pub fn clear_full_lines(&mut self) -> (n: usize)
        requires
            old(self).wf(),
        ensures
            final(self).wf(),
            final(self)@ == compact_spec(old(self)@),
            n as int == BOARD_HEIGHT - kept_rows(old(self)@).len(),
            n <= BOARD_HEIGHT,
    {
        let ghost b0 = self@;
        let mut kept: Vec<Vec<Cell>> = Vec::new();
        let mut y: usize = 0;
        proof {
            assert(b0.subrange(0, 0) =~~= Seq::<Seq<Cell>>::empty());
        }
        while y < BOARD_HEIGHT
            invariant
                y <= BOARD_HEIGHT,
                grid_wf(b0),
                self@ == b0,
                self.cells@.len() == BOARD_HEIGHT,
                rows_view(kept@) == kept_rows(b0.subrange(0, y as int)),
                forall|i: int| 0 <= i < kept@.len() ==> b0.contains((#[trigger] kept@[i])@),
            decreases BOARD_HEIGHT - y,
        {
            let ghost pre = b0.subrange(0, y as int);
            let ghost post = b0.subrange(0, y as int + 1);
            proof {
                assert(post.drop_last() =~~= pre);
                assert(post.last() == b0[y as int]);
                assert(self.cells@[y as int]@ == b0[y as int]);
            }
            if !is_row_full(&self.cells[y]) {
                let row = copy_row(&self.cells[y]);
                kept.push(row);
                proof {
                    assert(rows_view(kept@) =~~= kept_rows(post));
                }
            } else {
                proof {
                    assert(rows_view(kept@) =~~= kept_rows(post));
                }
            }
            y += 1;
        }
        proof {
            assert(b0.subrange(0, BOARD_HEIGHT as int) =~~= b0);
            lemma_kept_rows(b0);
        }
        let n: usize = BOARD_HEIGHT - kept.len();
        let mut cells: Vec<Vec<Cell>> = Vec::new();
        let mut i: usize = 0;
        while i < n
            invariant
                i <= n,
                cells@.len() == i,
                forall|j: int| 0 <= j < i ==> (#[trigger] cells@[j])@ == empty_row(),
            decreases n - i,
        {
            cells.push(make_empty_row());
            i += 1;
        }
        let ghost empties = cells@;
        cells.append(&mut kept);
        self.cells = cells;
        proof {
            assert forall|j: int| 0 <= j < self@.len() implies self@[j] == compact_spec(b0)[j] by {
                if j < n as int {
                    assert(self.cells@[j] == empties[j]);
                } else {
                    assert(b0.contains(self@[j]));
                }
            }
            assert(self@ =~~= compact_spec(b0));
            assert forall|j: int| 0 <= j < self@.len() implies (#[trigger] self@[j]).len()
                == BOARD_WIDTH && forall|x: int| 0 <= x < self@[j].len() ==> !(self@[j][x] is Shadow) by {
                if j >= n as int {
                    let row = compact_spec(b0)[j];
                    assert(b0.contains(row));
                    let k = choose|k: int| 0 <= k < b0.len() && b0[k] == row;
                    assert(b0[k].len() == BOARD_WIDTH);
                }
            }
        }
        n
    }
}

} // verus!
