//! The fixed-size grid of optional cells and its bounds-checked accessors.

use vstd::prelude::*;

use crate::cell::{Cell, CellId};

verus! {

/// The contents of a grid, column by column: `b[x][y]` is the slot at
/// column `x` and row `y`, row 0 being the top.
pub type Board = Seq<Seq<Option<Cell>>>;

/// The board that a column-major nest of vectors holds.
pub open spec fn board_of(v: Vec<Vec<Option<Cell>>>) -> Board {
    v@.map_values(|col: Vec<Option<Cell>>| col@)
}

/// `b` has `w` columns of `h` slots each.
pub open spec fn shaped(b: Board, w: int, h: int) -> bool {
    &&& b.len() == w
    &&& forall|x: int| 0 <= x < w ==> #[trigger] b[x].len() == h
}

/// Every occupied slot of `b` holds a well-formed cell.
pub open spec fn cells_wf(b: Board) -> bool {
    forall|x: int, y: int|
        0 <= x < b.len() && 0 <= y < b[x].len() && (#[trigger] b[x][y]) is Some
            ==> b[x][y]->Some_0.wf()
}

pub open spec fn in_bounds(b: Board, x: int, y: int) -> bool {
    0 <= x < b.len() && 0 <= y < b[x].len()
}

/// `b` with the slot at `(x, y)` replaced by `v`.
pub open spec fn put(b: Board, x: int, y: int, v: Option<Cell>) -> Board {
    b.update(x, b[x].update(y, v))
}

/// A coordinate outside the grid.
#[derive(Debug, Clone, Copy, PartialEq, Eq, Structural)]
pub struct BoundsError {
    pub x: usize,
    pub y: usize,
}

/// A `width` by `height` grid in which each slot holds at most one cell.
pub struct Grid {
    pub cells: Vec<Vec<Option<Cell>>>,
    pub width: usize,
    pub height: usize,
}

impl View for Grid {
    type V = Board;

    open spec fn view(&self) -> Board {
        board_of(self.cells)
    }
}

/// Writes one slot of a column-major nest of vectors.
pub fn store(b: &mut Vec<Vec<Option<Cell>>>, x: usize, y: usize, v: Option<Cell>)
    requires
        x < old(b)@.len(),
        y < old(b)@[x as int]@.len(),
    ensures
        board_of(*final(b)) == put(board_of(*old(b)), x as int, y as int, v),
        final(b)@.len() == old(b)@.len(),
{
    b[x][y] = v;
    proof {
        assert(board_of(*b) =~~= put(board_of(*old(b)), x as int, y as int, v));
    }
}

impl Grid {
    /// The grid's fields agree with its contents, and every cell in it is
    /// well formed.
    pub open spec fn wf(&self) -> bool {
        &&& shaped(self@, self.width as int, self.height as int)
        &&& self.cells@.len() == self.width
        &&& cells_wf(self@)
    }

    /// An empty grid of the given size.
    pub fn new(width: usize, height: usize) -> (g: Grid)
        ensures
            g.wf(),
            g.width == width,
            g.height == height,
            forall|x: int, y: int| in_bounds(g@, x, y) ==> (#[trigger] g@[x][y]) is None,
    {
        let mut cells: Vec<Vec<Option<Cell>>> = Vec::new();
        let mut x: usize = 0;
        while x < width
            invariant
                x <= width,
                cells@.len() == x,
                forall|i: int| 0 <= i < x ==> (#[trigger] cells@[i])@.len() == height,
                forall|i: int, j: int|
                    0 <= i < x && 0 <= j < height ==> (#[trigger] cells@[i]@[j]) is None,
            decreases width - x,
        {
            let mut col: Vec<Option<Cell>> = Vec::new();
            let mut y: usize = 0;
            while y < height
                invariant
                    y <= height,
                    col@.len() == y,
                    forall|j: int| 0 <= j < y ==> (#[trigger] col@[j]) is None,
                decreases height - y,
            {
                col.push(None);
                y = y + 1;
            }
            cells.push(col);
            x = x + 1;
        }
        Grid { cells, width, height }
    }

    pub fn width(&self) -> (w: usize)
        ensures
            w == self.width,
    {
        self.width
    }

    pub fn height(&self) -> (h: usize)
        ensures
            h == self.height,
    {
        self.height
    }

    /// The slot at `(x, y)`, or an error for a coordinate off the grid.
    pub fn get(&self, x: usize, y: usize) -> (r: Result<Option<Cell>, BoundsError>)
        requires
            self.wf(),
        ensures
            (x < self.width && y < self.height) <==> r is Ok,
            r is Ok ==> r->Ok_0 == self@[x as int][y as int],
            r is Err ==> r->Err_0 == (BoundsError { x, y }),
    {
        if x < self.width && y < self.height {
            assert(self@[x as int] == self.cells@[x as int]@);
            Ok(self.cells[x][y])
        } else {
            Err(BoundsError { x, y })
        }
    }

    /// Overwrites the slot at `(x, y)`; a coordinate off the grid is
    /// refused and leaves the grid as it was.
    pub fn set(&mut self, x: usize, y: usize, v: Option<Cell>) -> (r: Result<(), BoundsError>)
        requires
            old(self).wf(),
            v matches Some(c) ==> c.wf(),
        ensures
            final(self).wf(),
            final(self).width == old(self).width,
            final(self).height == old(self).height,
            (x < old(self).width && y < old(self).height) <==> r is Ok,
            r is Ok ==> final(self)@ == put(old(self)@, x as int, y as int, v),
            r is Err ==> final(self)@ == old(self)@ && r->Err_0 == (BoundsError { x, y }),
    {
        if x < self.width && y < self.height {
            assert(self@[x as int] == self.cells@[x as int]@);
            store(&mut self.cells, x, y, v);
            Ok(())
        } else {
            Err(BoundsError { x, y })
        }
    }

    /// Puts a fresh cell of material `id` at `(x, y)` if that slot is empty,
    /// and reports whether it did; an occupied slot is left as it was.
    pub fn try_place(&mut self, x: usize, y: usize, id: CellId) -> (r: Result<bool, BoundsError>)
        requires
            old(self).wf(),
        ensures
            final(self).wf(),
            final(self).width == old(self).width,
            final(self).height == old(self).height,
            (x < old(self).width && y < old(self).height) <==> r is Ok,
            r is Err ==> final(self)@ == old(self)@ && r->Err_0 == (BoundsError { x, y }),
            r is Ok ==> (r->Ok_0 <==> old(self)@[x as int][y as int] is None),
            r == Ok::<bool, BoundsError>(true) ==> final(self)@ == put(
                old(self)@,
                x as int,
                y as int,
                Some(Cell::spec_fresh(id)),
            ),
            r == Ok::<bool, BoundsError>(false) ==> final(self)@ == old(self)@,
    {
        if x < self.width && y < self.height {
            assert(self@[x as int] == self.cells@[x as int]@);
            if self.cells[x][y].is_none() {
                store(&mut self.cells, x, y, Some(Cell::fresh(id)));
                Ok(true)
            } else {
                Ok(false)
            }
        } else {
            Err(BoundsError { x, y })
        }
    }
}

/// What the renderer draws for one slot: its coordinate, material and
/// color, or nothing for an empty slot.
pub open spec fn entry(b: Board, x: int, y: int) -> Seq<(usize, usize, CellId, [u8; 3])> {
    match b[x][y] {
        Some(c) => seq![(x as usize, y as usize, c.id, c.id.profile().color)],
        None => Seq::empty(),
    }
}

/// The entries of the first `y` slots of column `x`, top to bottom.
pub open spec fn column_entries(b: Board, x: int, y: int) -> Seq<(usize, usize, CellId, [u8; 3])>
    decreases y,
{
    if y <= 0 {
        Seq::empty()
    } else {
        column_entries(b, x, y - 1) + entry(b, x, y - 1)
    }
}

/// The entries of the first `x` columns, each `h` slots high, column by
/// column.
pub open spec fn entries(b: Board, x: int, h: int) -> Seq<(usize, usize, CellId, [u8; 3])>
    decreases x,
{
    if x <= 0 {
        Seq::empty()
    } else {
        entries(b, x - 1, h) + column_entries(b, x - 1, h)
    }
}

impl Grid {
    /// Every occupied slot with its material and color, column by column and
    /// top to bottom within a column. The grid is left as it is.
    pub fn occupied(&self) -> (r: Vec<(usize, usize, CellId, [u8; 3])>)
        requires
            self.wf(),
        ensures
            r@ == entries(self@, self.width as int, self.height as int),
    {
        let mut r: Vec<(usize, usize, CellId, [u8; 3])> = Vec::new();
        let mut x: usize = 0;
        while x < self.width
            invariant
                self.wf(),
                x <= self.width,
                r@ == entries(self@, x as int, self.height as int),
            decreases self.width - x,
        {
            assert(self@[x as int] == self.cells@[x as int]@);
            let ghost before = r@;
            let mut y: usize = 0;
            while y < self.height
                invariant
                    self.wf(),
                    x < self.width,
                    y <= self.height,
                    self@[x as int] == self.cells@[x as int]@,
                    r@ == before + column_entries(self@, x as int, y as int),
                decreases self.height - y,
            {
                match self.cells[x][y] {
                    Some(c) => {
                        r.push((x, y, c.id, c.color()));
                    },
                    None => {},
                }
                y = y + 1;
                assert(r@ =~= before + column_entries(self@, x as int, y as int));
            }
            x = x + 1;
        }
        r
    }
}

} // verus!
