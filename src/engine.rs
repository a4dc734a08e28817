//! The per-tick transition: every occupied slot of the old grid is visited
//! once, in a given order, and the rules of its material decide what the
//! successor holds.
//!
//! Decisions read the old grid, moves are written to the successor, and a
//! slot that a rule has written this tick is claimed: no other rule writes it
//! again, and a cell whose own slot was claimed before its visit (it was
//! displaced, dissolved or overwritten) does nothing more this tick. Random
//! choices take the next number of a sequence of draws; past its end a draw
//! reads as zero.
//!
//! Wind, a decaying material with no movement of its own in the catalog's
//! physics, drifts: each tick it takes a random sideways step of at most one
//! column, kept on the grid, when the slot it would land on is vacant.

use vstd::prelude::*;

use rand::rngs::StdRng;

use crate::cell::{Cell, Material};
use crate::random::{next_draw, shuffle_slots};
use crate::grid::{Board, Grid, board_of, cells_wf, put, shaped, store};

verus! {

/// Which slots a rule has written this tick, indexed as a board.
pub type Marks = Seq<Seq<bool>>;

/// The state of a tick in progress.
pub struct Stage {
    /// The successor under construction.
    pub cells: Board,
    /// The slots that a rule has written this tick.
    pub claimed: Marks,
    /// How many draws have been used.
    pub next: nat,
}

pub open spec fn mark(m: Marks, x: int, y: int) -> Marks {
    m.update(x, m[x].update(y, true))
}

/// A board-shaped set of marks with none set.
pub open spec fn no_marks(b: Board) -> Marks {
    Seq::new(b.len(), |x: int| Seq::new(b[x].len(), |y: int| false))
}

/// The stage a tick starts from: a copy of the old grid, nothing claimed.
pub open spec fn start(o: Board) -> Stage {
    Stage { cells: o, claimed: no_marks(o), next: 0 }
}

/// Draw number `k` reduced below `n`, or zero past the end of the draws.
///
/// The reduction is a plain remainder, so unless `n` divides 2^32 the small
/// results are very slightly more likely than the large ones (by less than
/// one part in 2^25 for the divisors used here).
pub open spec fn roll(ds: Seq<u32>, k: nat, n: nat) -> nat {
    if k < ds.len() {
        (ds[k as int] as nat) % n
    } else {
        0
    }
}

/// The stage after using one draw.
pub open spec fn drawn(s: Stage, ds: Seq<u32>) -> Stage {
    Stage {
        cells: s.cells,
        claimed: s.claimed,
        next: if s.next < ds.len() { s.next + 1 } else { s.next },
    }
}

/// Writes a slot without claiming it.
pub open spec fn place(s: Stage, x: int, y: int, v: Option<Cell>) -> Stage {
    Stage { cells: put(s.cells, x, y, v), claimed: s.claimed, next: s.next }
}

/// Writes a slot and claims it.
pub open spec fn settle(s: Stage, x: int, y: int, v: Option<Cell>) -> Stage {
    Stage { cells: put(s.cells, x, y, v), claimed: mark(s.claimed, x, y), next: s.next }
}

/// Swaps the contents of two slots and claims both.
pub open spec fn exchange(s: Stage, x1: int, y1: int, x2: int, y2: int) -> Stage {
    settle(settle(s, x1, y1, s.cells[x2][y2]), x2, y2, s.cells[x1][y1])
}

/// Moves the cell at `(x, y)` onto `(tx, ty)`: both slots are emptied when
/// the move dissolves its target, else the two trade places.
pub open spec fn engage(s: Stage, x: int, y: int, tx: int, ty: int, dissolve: bool) -> Stage {
    if dissolve {
        settle(settle(s, x, y, None), tx, ty, None)
    } else {
        exchange(s, x, y, tx, ty)
    }
}

/// The cell one tick older.
pub open spec fn aged(c: Cell) -> Cell {
    Cell {
        id: c.id,
        life: match c.life {
            Some(l) => Some((l - 1) as u8),
            None => None,
        },
    }
}

/// A decaying cell on its last tick.
pub open spec fn expires(c: Cell) -> bool {
    c.life matches Some(l) && l <= 1
}

pub open spec fn clamp(v: int, hi: int) -> int {
    if v < 0 {
        0
    } else if v > hi {
        hi
    } else {
        v
    }
}

/// The neighbour of `(x, y)` in direction `d`: left, right, up, down.
pub open spec fn step(x: int, y: int, d: int) -> (int, int) {
    if d == 0 {
        (x - 1, y)
    } else if d == 1 {
        (x + 1, y)
    } else if d == 2 {
        (x, y - 1)
    } else {
        (x, y + 1)
    }
}

pub open spec fn on_board(o: Board, p: (int, int)) -> bool {
    0 <= p.0 < o.len() && 0 <= p.1 < o[p.0].len()
}

/// One visit: the cell that the old grid holds at `(x, y)` acts, unless the
/// slot is empty or already claimed.
pub open spec fn visit(o: Board, s: Stage, x: int, y: int, ds: Seq<u32>) -> Stage {
    if !on_board(o, (x, y)) || o[x][y] is None || s.claimed[x][y] {
        s
    } else if expires(o[x][y]->Some_0) {
        settle(s, x, y, None)
    } else {
        let c = aged(o[x][y]->Some_0);
        act(o, place(s, x, y, Some(c)), x, y, c, ds)
    }
}

/// Floating: a heavier cell right above trades places with this one. Then
/// fire under a falling cell is smothered; then a cell with a row below it
/// falls, and one on the bottom row acts by its class.
pub open spec fn act(o: Board, s: Stage, x: int, y: int, c: Cell, ds: Seq<u32>) -> Stage {
    if y > 0 && o[x][y - 1] is Some && o[x][y - 1]->Some_0.spec_sinks_under(Some(c))
        && !s.claimed[x][y - 1] {
        exchange(s, x, y, x, y - 1)
    } else if c.spec_material() == Material::Fire && smothers(o, s, x, y) {
        smother(s, x, y, o[x][y - 1]->Some_0, c)
    } else if y + 1 < o[x].len() {
        fall(o, s, x, y, c, ds)
    } else {
        by_class(o, s, x, y, c, ds)
    }
}

/// A cell right above `(x, y)` that falls and does not burn, and that no
/// rule has moved this tick, lands on the fire there.
pub open spec fn smothers(o: Board, s: Stage, x: int, y: int) -> bool {
    &&& y > 0
    &&& o[x][y - 1] is Some
    &&& o[x][y - 1]->Some_0.spec_falls()
    &&& !o[x][y - 1]->Some_0.spec_flammable()
    &&& !s.claimed[x][y - 1]
}

/// The cell `a` above the fire `c` at `(x, y)` lands on it, as its own fall
/// would have it: acid and fire are both dissolved, any other cell puts the
/// fire out and takes its slot.
pub open spec fn smother(s: Stage, x: int, y: int, a: Cell, c: Cell) -> Stage {
    if a.spec_dissolves(Some(c)) {
        engage(s, x, y - 1, x, y, true)
    } else {
        settle(settle(s, x, y - 1, None), x, y, Some(a))
    }
}

/// Falling onto the slot below: sinking, dissolving it, landing on fire, or
/// being dissolved by acid below.
pub open spec fn fall(o: Board, s: Stage, x: int, y: int, c: Cell, ds: Seq<u32>) -> Stage {
    let b = o[x][y + 1];
    let free = !s.claimed[x][y + 1];
    if c.spec_falls() && (c.spec_sinks_under(b) || c.spec_dissolves(b)) && free {
        engage(s, x, y, x, y + 1, c.spec_dissolves(b))
    } else if c.spec_falls() && b is Some && b->Some_0.spec_material() == Material::Fire && free {
        if c.spec_flammable() {
            settle(s, x, y, None)
        } else {
            settle(settle(s, x, y, None), x, y + 1, Some(c))
        }
    } else if c.spec_falls() && b is Some && b->Some_0.spec_dissolves(Some(c)) && free {
        engage(s, x, y, x, y + 1, true)
    } else {
        slide(o, s, x, y, c, ds)
    }
}

/// The diagonal below, in column `tx`, can take a cell from row `y`: it
/// sinks under or dissolves what is there, it sinks under what is beside it,
/// and nothing has moved there this tick.
pub open spec fn diagonal_open(o: Board, s: Stage, c: Cell, tx: int, y: int) -> bool {
    &&& c.spec_sinks_under(o[tx][y + 1]) || c.spec_dissolves(o[tx][y + 1])
    &&& c.spec_sinks_under(o[tx][y])
    &&& !s.claimed[tx][y + 1]
}

/// Sliding down a slope to one of the two diagonals below.
pub open spec fn slide(o: Board, s: Stage, x: int, y: int, c: Cell, ds: Seq<u32>) -> Stage {
    let l = c.spec_slides() && x > 0 && diagonal_open(o, s, c, x - 1, y);
    let r = c.spec_slides() && x + 1 < o.len() && diagonal_open(o, s, c, x + 1, y);
    if l && r {
        if roll(ds, s.next, 2) == 0 {
            engage(drawn(s, ds), x, y, x - 1, y + 1, c.spec_dissolves(o[x - 1][y + 1]))
        } else {
            engage(drawn(s, ds), x, y, x + 1, y + 1, c.spec_dissolves(o[x + 1][y + 1]))
        }
    } else if l {
        engage(s, x, y, x - 1, y + 1, c.spec_dissolves(o[x - 1][y + 1]))
    } else if r {
        engage(s, x, y, x + 1, y + 1, c.spec_dissolves(o[x + 1][y + 1]))
    } else {
        by_class(o, s, x, y, c, ds)
    }
}

/// What a cell does by its class when no positional rule moved it.
pub open spec fn by_class(o: Board, s: Stage, x: int, y: int, c: Cell, ds: Seq<u32>) -> Stage {
    match c.spec_material() {
        Material::Powder | Material::Solid => s,
        Material::Liquid(_) | Material::Acid => spread(o, s, x, y, c, ds),
        Material::Gas => diffuse(o, s, x, y, c, ds),
        Material::Fire => rise(o, ignite(o, s, x, y, 4, ds), x, y, c, ds),
        Material::Wind => drift(o, s, x, y, c, ds),
    }
}

/// The slot beside, in column `tx`, can take a liquid from row `y`: the
/// successor there sinks under it or dissolves, it is not under an
/// overhang, and nothing has moved there this tick.
pub open spec fn lateral_open(o: Board, s: Stage, c: Cell, tx: int, y: int) -> bool {
    &&& c.spec_sinks_under(s.cells[tx][y]) || c.spec_dissolves(s.cells[tx][y])
    &&& y == 0 || c.spec_sinks_under(o[tx][y - 1])
    &&& !s.claimed[tx][y]
}

/// A liquid or acid filling a gap beside it.
pub open spec fn spread(o: Board, s: Stage, x: int, y: int, c: Cell, ds: Seq<u32>) -> Stage {
    let l = x > 0 && lateral_open(o, s, c, x - 1, y);
    let r = x + 1 < o.len() && lateral_open(o, s, c, x + 1, y);
    if l && r {
        if roll(ds, s.next, 2) == 0 {
            engage(drawn(s, ds), x, y, x - 1, y, c.spec_dissolves(s.cells[x - 1][y]))
        } else {
            engage(drawn(s, ds), x, y, x + 1, y, c.spec_dissolves(s.cells[x + 1][y]))
        }
    } else if l {
        engage(s, x, y, x - 1, y, c.spec_dissolves(s.cells[x - 1][y]))
    } else if r {
        engage(s, x, y, x + 1, y, c.spec_dissolves(s.cells[x + 1][y]))
    } else {
        s
    }
}

/// The slot is empty in the old grid and in the successor, and unclaimed.
pub open spec fn vacant(o: Board, s: Stage, p: (int, int)) -> bool {
    o[p.0][p.1] is None && s.cells[p.0][p.1] is None && !s.claimed[p.0][p.1]
}

/// A gas moving by a random step in each axis, kept on the grid, when the
/// slot it lands on is vacant.
pub open spec fn diffuse(o: Board, s: Stage, x: int, y: int, c: Cell, ds: Seq<u32>) -> Stage {
    let tx = clamp(x + roll(ds, s.next, 3) - 1, o.len() - 1);
    let s1 = drawn(s, ds);
    let ty = clamp(y + roll(ds, s1.next, 3) - 1, o[x].len() - 1);
    let s2 = drawn(s1, ds);
    if vacant(o, s2, (tx, ty)) {
        exchange(s2, x, y, tx, ty)
    } else {
        s2
    }
}

/// Wind drifting by a random sideways step, kept on the grid, when the slot
/// it lands on is vacant.
pub open spec fn drift(o: Board, s: Stage, x: int, y: int, c: Cell, ds: Seq<u32>) -> Stage {
    let tx = clamp(x + roll(ds, s.next, 3) - 1, o.len() - 1);
    let s1 = drawn(s, ds);
    if vacant(o, s1, (tx, y)) {
        exchange(s1, x, y, tx, y)
    } else {
        s1
    }
}

/// The directions, among the first `k`, in which the neighbour of `p` is on
/// the board and vacant.
pub open spec fn openings(o: Board, s: Stage, p: (int, int), k: int) -> Seq<u8>
    decreases k,
{
    if k <= 0 {
        Seq::empty()
    } else {
        let rest = openings(o, s, p, k - 1);
        let q = step(p.0, p.1, k - 1);
        if on_board(o, q) && vacant(o, s, q) {
            rest.push((k - 1) as u8)
        } else {
            rest
        }
    }
}

/// A fresh fire cell.
pub open spec fn flame() -> Cell {
    Cell::spec_fresh(crate::cell::CellId::Fire)
}

/// Fire at `(x, y)` spreading to its neighbours in the first `k` directions.
pub open spec fn ignite(o: Board, s: Stage, x: int, y: int, k: int, ds: Seq<u32>) -> Stage
    decreases k,
{
    if k <= 0 {
        s
    } else {
        ignite_toward(o, ignite(o, s, x, y, k - 1, ds), x, y, k - 1, ds)
    }
}

/// The chance, in percent, that fire turns a flammable neighbour into fire.
pub open spec fn catch_chance(n: Cell) -> nat {
    match n.spec_material() {
        Material::Liquid(_) => 55,
        _ => 10,
    }
}

/// Fire at `(x, y)` and its neighbour in direction `d`: a flammable
/// neighbour lights a random vacant slot next to it, and may itself turn
/// into fire.
pub open spec fn ignite_toward(o: Board, s: Stage, x: int, y: int, d: int, ds: Seq<u32>) -> Stage {
    let n = step(x, y, d);
    if !on_board(o, n) || o[n.0][n.1] is None || !o[n.0][n.1]->Some_0.spec_flammable() {
        s
    } else {
        let opens = openings(o, s, n, 4);
        let s1 = if opens.len() > 0 {
            let a = step(n.0, n.1, opens[roll(ds, s.next, opens.len()) as int] as int);
            settle(drawn(s, ds), a.0, a.1, Some(flame()))
        } else {
            s
        };
        let s2 = drawn(s1, ds);
        if roll(ds, s1.next, 100) < catch_chance(o[n.0][n.1]->Some_0) && !s2.claimed[n.0][n.1] {
            settle(s2, n.0, n.1, Some(flame()))
        } else {
            s2
        }
    }
}

/// Fire leaving its slot for a random one up to two rows higher and one
/// column aside, kept on the grid; it lands there only if that slot is
/// unclaimed and empty or flammable in the old grid, and is lost otherwise.
pub open spec fn rise(o: Board, s: Stage, x: int, y: int, c: Cell, ds: Seq<u32>) -> Stage {
    let tx = clamp(x + roll(ds, s.next, 3) - 1, o.len() - 1);
    let s1 = drawn(s, ds);
    let ty = clamp(y + roll(ds, s1.next, 3) - 2, o[x].len() - 1);
    let s2 = settle(drawn(s1, ds), x, y, None);
    if !s2.claimed[tx][ty] && (o[tx][ty] is None || o[tx][ty]->Some_0.spec_flammable()) {
        settle(s2, tx, ty, Some(c))
    } else {
        s2
    }
}

/// The stage after visiting the coordinates of `order` in turn.
pub open spec fn run(o: Board, s: Stage, order: Seq<(usize, usize)>, ds: Seq<u32>) -> Stage
    decreases order.len(),
{
    if order.len() == 0 {
        s
    } else {
        let p = order.last();
        visit(o, run(o, s, order.drop_last(), ds), p.0 as int, p.1 as int, ds)
    }
}

/// The successor of `o` when its slots are visited in `order` and random
/// choices are made with `ds`.
pub open spec fn generation(o: Board, order: Seq<(usize, usize)>, ds: Seq<u32>) -> Board {
    run(o, start(o), order, ds).cells
}

/// The marks that a column-major nest of vectors holds.
pub open spec fn marks_of(v: Vec<Vec<bool>>) -> Marks {
    v@.map_values(|col: Vec<bool>| col@)
}

/// `m` has `w` columns of `h` marks each.
pub open spec fn marks_shaped(m: Marks, w: int, h: int) -> bool {
    &&& m.len() == w
    &&& forall|x: int| 0 <= x < w ==> #[trigger] m[x].len() == h
}

/// The successor, the claims and the draw cursor agree in shape with a
/// `w` by `h` old grid, and every cell in the successor is well formed.
pub open spec fn fits(s: Stage, w: int, h: int) -> bool {
    &&& shaped(s.cells, w, h)
    &&& marks_shaped(s.claimed, w, h)
    &&& cells_wf(s.cells)
}

/// A tick in progress, as the engine holds it.
struct Work {
    cells: Vec<Vec<Option<Cell>>>,
    claimed: Vec<Vec<bool>>,
    next: usize,
}

impl Work {
    spec fn stage(&self) -> Stage {
        Stage { cells: board_of(self.cells), claimed: marks_of(self.claimed), next: self.next as nat }
    }

    spec fn holds(&self, w: int, h: int) -> bool {
        &&& self.cells@.len() == w
        &&& self.claimed@.len() == w
        &&& fits(self.stage(), w, h)
    }
}

fn at(b: &Vec<Vec<Option<Cell>>>, x: usize, y: usize) -> (r: Option<Cell>)
    requires
        x < board_of(*b).len(),
        y < board_of(*b)[x as int].len(),
    ensures
        r == board_of(*b)[x as int][y as int],
{
    assert(board_of(*b)[x as int] == b@[x as int]@);
    b[x][y]
}

fn is_claimed(m: &Vec<Vec<bool>>, x: usize, y: usize) -> (r: bool)
    requires
        x < marks_of(*m).len(),
        y < marks_of(*m)[x as int].len(),
    ensures
        r == marks_of(*m)[x as int][y as int],
{
    assert(marks_of(*m)[x as int] == m@[x as int]@);
    m[x][y]
}

fn mark_slot(m: &mut Vec<Vec<bool>>, x: usize, y: usize)
    requires
        x < marks_of(*old(m)).len(),
        y < marks_of(*old(m))[x as int].len(),
    ensures
        marks_of(*final(m)) == mark(marks_of(*old(m)), x as int, y as int),
        final(m)@.len() == old(m)@.len(),
{
    assert(marks_of(*m)[x as int] == m@[x as int]@);
    m[x][y] = true;
    assert(marks_of(*m) =~~= mark(marks_of(*old(m)), x as int, y as int));
}

impl Work {
    /// Writes a slot without claiming it.
    fn place(&mut self, x: usize, y: usize, v: Option<Cell>, w: usize, h: usize)
        requires
            old(self).holds(w as int, h as int),
            x < w,
            y < h,
            v matches Some(c) ==> c.wf(),
        ensures
            final(self).holds(w as int, h as int),
            final(self).stage() == place(old(self).stage(), x as int, y as int, v),
    {
        assert(board_of(self.cells)[x as int] == self.cells@[x as int]@);
        store(&mut self.cells, x, y, v);
        assert(self.stage() =~= place(old(self).stage(), x as int, y as int, v));
    }

    /// Writes a slot and claims it.
    fn settle(&mut self, x: usize, y: usize, v: Option<Cell>, w: usize, h: usize)
        requires
            old(self).holds(w as int, h as int),
            x < w,
            y < h,
            v matches Some(c) ==> c.wf(),
        ensures
            final(self).holds(w as int, h as int),
            final(self).stage() == settle(old(self).stage(), x as int, y as int, v),
    {
        store(&mut self.cells, x, y, v);
        mark_slot(&mut self.claimed, x, y);
        assert(self.stage() =~= settle(old(self).stage(), x as int, y as int, v));
    }

    /// Swaps two slots and claims both.
    fn exchange(&mut self, x1: usize, y1: usize, x2: usize, y2: usize, w: usize, h: usize)
        requires
            old(self).holds(w as int, h as int),
            x1 < w,
            y1 < h,
            x2 < w,
            y2 < h,
        ensures
            final(self).holds(w as int, h as int),
            final(self).stage() == exchange(
                old(self).stage(),
                x1 as int,
                y1 as int,
                x2 as int,
                y2 as int,
            ),
    {
        let a = at(&self.cells, x1, y1);
        let b = at(&self.cells, x2, y2);
        self.settle(x1, y1, b, w, h);
        self.settle(x2, y2, a, w, h);
    }

    fn engage(&mut self, x: usize, y: usize, tx: usize, ty: usize, dissolve: bool, w: usize, h: usize)
        requires
            old(self).holds(w as int, h as int),
            x < w,
            y < h,
            tx < w,
            ty < h,
        ensures
            final(self).holds(w as int, h as int),
            final(self).stage() == engage(
                old(self).stage(),
                x as int,
                y as int,
                tx as int,
                ty as int,
                dissolve,
            ),
    {
        if dissolve {
            self.settle(x, y, None, w, h);
            self.settle(tx, ty, None, w, h);
        } else {
            self.exchange(x, y, tx, ty, w, h);
        }
    }

    /// Takes the next draw, reduced below `n`.
    fn roll(&mut self, ds: &Vec<u32>, n: u32) -> (r: u32)
        requires
            n > 0,
        ensures
            r == roll(ds@, old(self).stage().next, n as nat),
            r < n,
            final(self).stage() == drawn(old(self).stage(), ds@),
            final(self).cells == old(self).cells,
            final(self).claimed == old(self).claimed,
    {
        if self.next < ds.len() {
            let r = ds[self.next] % n;
            self.next = self.next + 1;
            r
        } else {
            0
        }
    }
}

/// `x` moved by `d - 1`, kept within `0..=hi`.
fn shift(x: usize, d: u32, hi: usize) -> (r: usize)
    requires
        x <= hi,
        d < 3,
    ensures
        r == clamp(x + d - 1, hi as int),
{
    if d == 0 {
        if x > 0 {
            x - 1
        } else {
            0
        }
    } else if d == 1 {
        x
    } else if x < hi {
        x + 1
    } else {
        hi
    }
}

/// `y` moved by `d - 2`, kept within `0..=hi`.
fn lift(y: usize, d: u32, hi: usize) -> (r: usize)
    requires
        y <= hi,
        d < 3,
    ensures
        r == clamp(y + d - 2, hi as int),
{
    if d == 2 {
        y
    } else if d == 1 {
        if y > 0 {
            y - 1
        } else {
            0
        }
    } else if y > 1 {
        y - 2
    } else {
        0
    }
}

/// The neighbour of `(x, y)` in direction `d`, if it is on a `w` by `h` grid.
fn neighbour(x: usize, y: usize, d: u8, w: usize, h: usize) -> (r: Option<(usize, usize)>)
    requires
        x < w,
        y < h,
    ensures
        r is Some <==> {
            let q = step(x as int, y as int, d as int);
            0 <= q.0 < w && 0 <= q.1 < h
        },
        r matches Some(q) ==> (q.0 as int, q.1 as int) == step(x as int, y as int, d as int),
{
    if d == 0 {
        if x > 0 {
            Some((x - 1, y))
        } else {
            None
        }
    } else if d == 1 {
        if x + 1 < w {
            Some((x + 1, y))
        } else {
            None
        }
    } else if d == 2 {
        if y > 0 {
            Some((x, y - 1))
        } else {
            None
        }
    } else if y + 1 < h {
        Some((x, y + 1))
    } else {
        None
    }
}

/// The facts that every rule of one visit relies on.
pub open spec fn ready(o: Board, s: Stage, w: int, h: int, x: int, y: int) -> bool {
    &&& shaped(o, w, h)
    &&& cells_wf(o)
    &&& fits(s, w, h)
    &&& 0 <= x < w
    &&& 0 <= y < h
}

impl Work {
    fn vacant(&self, o: &Vec<Vec<Option<Cell>>>, x: usize, y: usize, w: usize, h: usize) -> (r: bool)
        requires
            self.holds(w as int, h as int),
            shaped(board_of(*o), w as int, h as int),
            x < w,
            y < h,
        ensures
            r == vacant(board_of(*o), self.stage(), (x as int, y as int)),
    {
        at(o, x, y).is_none() && at(&self.cells, x, y).is_none() && !is_claimed(
            &self.claimed,
            x,
            y,
        )
    }

    fn spread(
        &mut self,
        o: &Vec<Vec<Option<Cell>>>,
        ds: &Vec<u32>,
        x: usize,
        y: usize,
        c: Cell,
        w: usize,
        h: usize,
    )
        requires
            ready(board_of(*o), old(self).stage(), w as int, h as int, x as int, y as int),
            old(self).holds(w as int, h as int),
        ensures
            final(self).holds(w as int, h as int),
            final(self).stage() == spread(
                board_of(*o),
                old(self).stage(),
                x as int,
                y as int,
                c,
                ds@,
            ),
    {
        let l = x > 0 && {
            let t = at(&self.cells, x - 1, y);
            (c.sinks_under(t) || c.dissolves(t)) && (y == 0 || c.sinks_under(at(o, x - 1, y - 1)))
                && !is_claimed(&self.claimed, x - 1, y)
        };
        let r = x + 1 < w && {
            let t = at(&self.cells, x + 1, y);
            (c.sinks_under(t) || c.dissolves(t)) && (y == 0 || c.sinks_under(at(o, x + 1, y - 1)))
                && !is_claimed(&self.claimed, x + 1, y)
        };
        if l && r {
            let left = self.roll(ds, 2) == 0;
            if left {
                let dis = c.dissolves(at(&self.cells, x - 1, y));
                self.engage(x, y, x - 1, y, dis, w, h);
            } else {
                let dis = c.dissolves(at(&self.cells, x + 1, y));
                self.engage(x, y, x + 1, y, dis, w, h);
            }
        } else if l {
            let dis = c.dissolves(at(&self.cells, x - 1, y));
            self.engage(x, y, x - 1, y, dis, w, h);
        } else if r {
            let dis = c.dissolves(at(&self.cells, x + 1, y));
            self.engage(x, y, x + 1, y, dis, w, h);
        }
    }

    fn diffuse(
        &mut self,
        o: &Vec<Vec<Option<Cell>>>,
        ds: &Vec<u32>,
        x: usize,
        y: usize,
        c: Cell,
        w: usize,
        h: usize,
    )
        requires
            ready(board_of(*o), old(self).stage(), w as int, h as int, x as int, y as int),
            old(self).holds(w as int, h as int),
        ensures
            final(self).holds(w as int, h as int),
            final(self).stage() == diffuse(
                board_of(*o),
                old(self).stage(),
                x as int,
                y as int,
                c,
                ds@,
            ),
    {
        let dx = self.roll(ds, 3);
        let tx = shift(x, dx, w - 1);
        let dy = self.roll(ds, 3);
        let ty = shift(y, dy, h - 1);
        if self.vacant(o, tx, ty, w, h) {
            self.exchange(x, y, tx, ty, w, h);
        }
    }

    fn drift(
        &mut self,
        o: &Vec<Vec<Option<Cell>>>,
        ds: &Vec<u32>,
        x: usize,
        y: usize,
        c: Cell,
        w: usize,
        h: usize,
    )
        requires
            ready(board_of(*o), old(self).stage(), w as int, h as int, x as int, y as int),
            old(self).holds(w as int, h as int),
        ensures
            final(self).holds(w as int, h as int),
            final(self).stage() == drift(
                board_of(*o),
                old(self).stage(),
                x as int,
                y as int,
                c,
                ds@,
            ),
    {
        let dx = self.roll(ds, 3);
        let tx = shift(x, dx, w - 1);
        if self.vacant(o, tx, y, w, h) {
            self.exchange(x, y, tx, y, w, h);
        }
    }

    /// The directions in which the neighbour of `(x, y)` is vacant.
    fn openings(&self, o: &Vec<Vec<Option<Cell>>>, x: usize, y: usize, w: usize, h: usize) -> (r:
        Vec<u8>)
        requires
            self.holds(w as int, h as int),
            shaped(board_of(*o), w as int, h as int),
            x < w,
            y < h,
        ensures
            r@ == openings(board_of(*o), self.stage(), (x as int, y as int), 4),
            forall|i: int| 0 <= i < r@.len() ==> #[trigger] r@[i] < 4,
    {
        let mut r: Vec<u8> = Vec::new();
        let mut d: u8 = 0;
        while d < 4
            invariant
                self.holds(w as int, h as int),
                shaped(board_of(*o), w as int, h as int),
                x < w,
                y < h,
                d <= 4,
                r@ == openings(board_of(*o), self.stage(), (x as int, y as int), d as int),
                forall|i: int| 0 <= i < r@.len() ==> #[trigger] r@[i] < d,
            decreases 4 - d,
        {
            match neighbour(x, y, d, w, h) {
                Some(q) => {
                    if self.vacant(o, q.0, q.1, w, h) {
                        r.push(d);
                    }
                },
                None => {},
            }
            d = d + 1;
        }
        r
    }

    fn ignite_toward(
        &mut self,
        o: &Vec<Vec<Option<Cell>>>,
        ds: &Vec<u32>,
        x: usize,
        y: usize,
        d: u8,
        w: usize,
        h: usize,
    )
        requires
            ready(board_of(*o), old(self).stage(), w as int, h as int, x as int, y as int),
            old(self).holds(w as int, h as int),
        ensures
            final(self).holds(w as int, h as int),
            final(self).stage() == ignite_toward(
                board_of(*o),
                old(self).stage(),
                x as int,
                y as int,
                d as int,
                ds@,
            ),
    {
        let ghost s0 = self.stage();
        let n = match neighbour(x, y, d, w, h) {
            Some(n) => n,
            None => {
                return;
            },
        };
        let target = match at(o, n.0, n.1) {
            Some(t) => t,
            None => {
                return;
            },
        };
        if !target.flammable() {
            return;
        }
        let opens = self.openings(o, n.0, n.1, w, h);
        let fire = Cell::fresh(crate::cell::CellId::Fire);
        proof {
            lemma_openings_len(board_of(*o), s0, (n.0 as int, n.1 as int), 4);
        }
        if opens.len() > 0 {
            let k = self.roll(ds, opens.len() as u32);
            let a = neighbour(n.0, n.1, opens[k as usize], w, h);
            assert(on_board(board_of(*o), step(n.0 as int, n.1 as int, opens@[k as int] as int)));
            match a {
                Some(a) => {
                    self.settle(a.0, a.1, Some(fire), w, h);
                },
                None => {},
            }
        }
        let chance: u32 = match target.material() {
            Material::Liquid(_) => 55,
            _ => 10,
        };
        let hit = self.roll(ds, 100) < chance;
        if hit && !is_claimed(&self.claimed, n.0, n.1) {
            self.settle(n.0, n.1, Some(fire), w, h);
        }
    }

    fn rise(
        &mut self,
        o: &Vec<Vec<Option<Cell>>>,
        ds: &Vec<u32>,
        x: usize,
        y: usize,
        c: Cell,
        w: usize,
        h: usize,
    )
        requires
            ready(board_of(*o), old(self).stage(), w as int, h as int, x as int, y as int),
            old(self).holds(w as int, h as int),
            c.wf(),
        ensures
            final(self).holds(w as int, h as int),
            final(self).stage() == rise(
                board_of(*o),
                old(self).stage(),
                x as int,
                y as int,
                c,
                ds@,
            ),
    {
        let dx = self.roll(ds, 3);
        let tx = shift(x, dx, w - 1);
        let dy = self.roll(ds, 3);
        let ty = lift(y, dy, h - 1);
        self.settle(x, y, None, w, h);
        if !is_claimed(&self.claimed, tx, ty) && match at(o, tx, ty) {
            None => true,
            Some(t) => t.flammable(),
        } {
            self.settle(tx, ty, Some(c), w, h);
        }
    }

    /// Fire at `(x, y)`: it spreads to its flammable neighbours, then rises.
    fn burn(
        &mut self,
        o: &Vec<Vec<Option<Cell>>>,
        ds: &Vec<u32>,
        x: usize,
        y: usize,
        c: Cell,
        w: usize,
        h: usize,
    )
        requires
            ready(board_of(*o), old(self).stage(), w as int, h as int, x as int, y as int),
            old(self).holds(w as int, h as int),
            c.wf(),
        ensures
            final(self).holds(w as int, h as int),
            final(self).stage() == rise(
                board_of(*o),
                ignite(board_of(*o), old(self).stage(), x as int, y as int, 4, ds@),
                x as int,
                y as int,
                c,
                ds@,
            ),
    {
        let mut d: u8 = 0;
        while d < 4
            invariant
                ready(board_of(*o), self.stage(), w as int, h as int, x as int, y as int),
                self.holds(w as int, h as int),
                d <= 4,
                self.stage() == ignite(board_of(*o), old(self).stage(), x as int, y as int, d as int, ds@),
            decreases 4 - d,
        {
            self.ignite_toward(o, ds, x, y, d, w, h);
            d = d + 1;
        }
        self.rise(o, ds, x, y, c, w, h);
    }

    fn by_class(
        &mut self,
        o: &Vec<Vec<Option<Cell>>>,
        ds: &Vec<u32>,
        x: usize,
        y: usize,
        c: Cell,
        w: usize,
        h: usize,
    )
        requires
            ready(board_of(*o), old(self).stage(), w as int, h as int, x as int, y as int),
            old(self).holds(w as int, h as int),
            c.wf(),
        ensures
            final(self).holds(w as int, h as int),
            final(self).stage() == by_class(
                board_of(*o),
                old(self).stage(),
                x as int,
                y as int,
                c,
                ds@,
            ),
    {
        match c.material() {
            Material::Powder | Material::Solid => {},
            Material::Liquid(_) | Material::Acid => self.spread(o, ds, x, y, c, w, h),
            Material::Gas => self.diffuse(o, ds, x, y, c, w, h),
            Material::Fire => self.burn(o, ds, x, y, c, w, h),
            Material::Wind => self.drift(o, ds, x, y, c, w, h),
        }
    }

    fn slide(
        &mut self,
        o: &Vec<Vec<Option<Cell>>>,
        ds: &Vec<u32>,
        x: usize,
        y: usize,
        c: Cell,
        w: usize,
        h: usize,
    )
        requires
            ready(board_of(*o), old(self).stage(), w as int, h as int, x as int, y as int),
            old(self).holds(w as int, h as int),
            c.wf(),
            y + 1 < h,
        ensures
            final(self).holds(w as int, h as int),
            final(self).stage() == slide(
                board_of(*o),
                old(self).stage(),
                x as int,
                y as int,
                c,
                ds@,
            ),
    {
        let slides = c.slides();
        let l = slides && x > 0 && {
            let t = at(o, x - 1, y + 1);
            (c.sinks_under(t) || c.dissolves(t)) && c.sinks_under(at(o, x - 1, y))
                && !is_claimed(&self.claimed, x - 1, y + 1)
        };
        let r = slides && x + 1 < w && {
            let t = at(o, x + 1, y + 1);
            (c.sinks_under(t) || c.dissolves(t)) && c.sinks_under(at(o, x + 1, y))
                && !is_claimed(&self.claimed, x + 1, y + 1)
        };
        if l && r {
            let left = self.roll(ds, 2) == 0;
            if left {
                let dis = c.dissolves(at(o, x - 1, y + 1));
                self.engage(x, y, x - 1, y + 1, dis, w, h);
            } else {
                let dis = c.dissolves(at(o, x + 1, y + 1));
                self.engage(x, y, x + 1, y + 1, dis, w, h);
            }
        } else if l {
            let dis = c.dissolves(at(o, x - 1, y + 1));
            self.engage(x, y, x - 1, y + 1, dis, w, h);
        } else if r {
            let dis = c.dissolves(at(o, x + 1, y + 1));
            self.engage(x, y, x + 1, y + 1, dis, w, h);
        } else {
            self.by_class(o, ds, x, y, c, w, h);
        }
    }

    fn fall(
        &mut self,
        o: &Vec<Vec<Option<Cell>>>,
        ds: &Vec<u32>,
        x: usize,
        y: usize,
        c: Cell,
        w: usize,
        h: usize,
    )
        requires
            ready(board_of(*o), old(self).stage(), w as int, h as int, x as int, y as int),
            old(self).holds(w as int, h as int),
            c.wf(),
            y + 1 < h,
        ensures
            final(self).holds(w as int, h as int),
            final(self).stage() == fall(
                board_of(*o),
                old(self).stage(),
                x as int,
                y as int,
                c,
                ds@,
            ),
    {
        let b = at(o, x, y + 1);
        let falls = c.falls();
        let free = !is_claimed(&self.claimed, x, y + 1);
        if falls && (c.sinks_under(b) || c.dissolves(b)) && free {
            let dis = c.dissolves(b);
            self.engage(x, y, x, y + 1, dis, w, h);
        } else if falls && free && match b {
            Some(bc) => bc.material() == Material::Fire,
            None => false,
        } {
            if c.flammable() {
                self.settle(x, y, None, w, h);
            } else {
                self.settle(x, y, None, w, h);
                self.settle(x, y + 1, Some(c), w, h);
            }
        } else if falls && free && match b {
            Some(bc) => bc.dissolves(Some(c)),
            None => false,
        } {
            self.engage(x, y, x, y + 1, true, w, h);
        } else {
            self.slide(o, ds, x, y, c, w, h);
        }
    }

    /// One visit of the slot `(x, y)`.
    fn visit(
        &mut self,
        o: &Vec<Vec<Option<Cell>>>,
        ds: &Vec<u32>,
        x: usize,
        y: usize,
        w: usize,
        h: usize,
    )
        requires
            shaped(board_of(*o), w as int, h as int),
            cells_wf(board_of(*o)),
            old(self).holds(w as int, h as int),
        ensures
            final(self).holds(w as int, h as int),
            final(self).stage() == visit(
                board_of(*o),
                old(self).stage(),
                x as int,
                y as int,
                ds@,
            ),
    {
        if x >= w || y >= h {
            return;
        }
        let c0 = match at(o, x, y) {
            Some(c0) => c0,
            None => {
                return;
            },
        };
        if is_claimed(&self.claimed, x, y) {
            return;
        }
        let c = match c0.life {
            Some(l) => {
                if l <= 1 {
                    self.settle(x, y, None, w, h);
                    return;
                }
                Cell { id: c0.id, life: Some(l - 1) }
            },
            None => c0,
        };
        self.place(x, y, Some(c), w, h);
        let above_sinks = y > 0 && match at(o, x, y - 1) {
            Some(a) => a.sinks_under(Some(c)),
            None => false,
        };
        let smothered = c.material() == Material::Fire && y > 0 && match at(o, x, y - 1) {
            Some(a) => a.falls() && !a.flammable() && !is_claimed(&self.claimed, x, y - 1),
            None => false,
        };
        if above_sinks && !is_claimed(&self.claimed, x, y - 1) {
            self.exchange(x, y, x, y - 1, w, h);
        } else if smothered {
            let a = match at(o, x, y - 1) {
                Some(a) => a,
                None => c,
            };
            if a.dissolves(Some(c)) {
                self.engage(x, y - 1, x, y, true, w, h);
            } else {
                self.settle(x, y - 1, None, w, h);
                self.settle(x, y, Some(a), w, h);
            }
        } else if y + 1 < h {
            self.fall(o, ds, x, y, c, w, h);
        } else {
            self.by_class(o, ds, x, y, c, w, h);
        }
    }
}

/// The directions that `openings` gives lead onto the board, and there are
/// at most `k` of them.
pub proof fn lemma_openings_len(o: Board, s: Stage, p: (int, int), k: int)
    requires
        k <= 4,
    ensures
        openings(o, s, p, k).len() <= if k < 0 { 0 } else { k },
        forall|i: int|
            0 <= i < openings(o, s, p, k).len() ==> on_board(
                o,
                step(p.0, p.1, #[trigger] openings(o, s, p, k)[i] as int),
            ),
    decreases k,
{
    if k > 0 {
        lemma_openings_len(o, s, p, k - 1);
    }
}

/// A copy of a column-major nest of vectors.
fn copy_board(b: &Vec<Vec<Option<Cell>>>) -> (r: Vec<Vec<Option<Cell>>>)
    ensures
        board_of(r) == board_of(*b),
        r@.len() == b@.len(),
{
    let mut r: Vec<Vec<Option<Cell>>> = Vec::new();
    let mut x: usize = 0;
    while x < b.len()
        invariant
            x <= b@.len(),
            r@.len() == x,
            forall|i: int| 0 <= i < x ==> (#[trigger] r@[i])@ == b@[i]@,
        decreases b@.len() - x,
    {
        let col = &b[x];
        let mut c: Vec<Option<Cell>> = Vec::new();
        let mut y: usize = 0;
        while y < col.len()
            invariant
                y <= col@.len(),
                c@ == col@.take(y as int),
            decreases col@.len() - y,
        {
            c.push(col[y]);
            y = y + 1;
            assert(c@ =~= col@.take(y as int));
        }
        assert(c@ =~= col@);
        r.push(c);
        x = x + 1;
    }
    assert(board_of(r) =~= board_of(*b));
    r
}

/// Claims for a `w` by `h` grid with none set.
fn no_claims(o: &Vec<Vec<Option<Cell>>>, w: usize, h: usize) -> (r: Vec<Vec<bool>>)
    requires
        shaped(board_of(*o), w as int, h as int),
    ensures
        marks_of(r) == no_marks(board_of(*o)),
        r@.len() == w,
{
    let mut r: Vec<Vec<bool>> = Vec::new();
    let mut x: usize = 0;
    while x < w
        invariant
            shaped(board_of(*o), w as int, h as int),
            x <= w,
            r@.len() == x,
            forall|i: int| 0 <= i < x ==> (#[trigger] r@[i])@ == Seq::new(h as nat, |y: int| false),
        decreases w - x,
    {
        let mut c: Vec<bool> = Vec::new();
        let mut y: usize = 0;
        while y < h
            invariant
                y <= h,
                c@ == Seq::new(y as nat, |j: int| false),
            decreases h - y,
        {
            c.push(false);
            y = y + 1;
            assert(c@ =~= Seq::new(y as nat, |j: int| false));
        }
        r.push(c);
        x = x + 1;
    }
    assert(marks_of(r) =~~= no_marks(board_of(*o)));
    r
}

impl Grid {
    /// The next generation of this grid when its slots are visited in
    /// `order` and random choices take their numbers from `draws`.
    ///
    /// The result depends on these three alone, and is a well-formed grid of
    /// the same size, with at most one cell in each slot.
    pub fn advance(&self, order: &Vec<(usize, usize)>, draws: &Vec<u32>) -> (next: Grid)
        requires
            self.wf(),
        ensures
            next.wf(),
            next.width == self.width,
            next.height == self.height,
            next@ == generation(self@, order@, draws@),
    {
        let w = self.width;
        let h = self.height;
        let mut work = Work { cells: copy_board(&self.cells), claimed: no_claims(&self.cells, w, h), next: 0 };
        assert(work.stage() == start(self@));
        let mut i: usize = 0;
        while i < order.len()
            invariant
                self.wf(),
                w == self.width,
                h == self.height,
                i <= order@.len(),
                work.holds(w as int, h as int),
                work.stage() == run(self@, start(self@), order@.take(i as int), draws@),
            decreases order@.len() - i,
        {
            let p = order[i];
            work.visit(&self.cells, draws, p.0, p.1, w, h);
            assert(order@.take(i + 1).drop_last() =~= order@.take(i as int));
            i = i + 1;
        }
        assert(order@.take(i as int) =~= order@);
        Grid { cells: work.cells, width: w, height: h }
    }
}

/// The most draws that one visit uses: a fire cell with four flammable
/// neighbours takes two for each and two to rise.
pub const DRAWS_PER_VISIT: usize = 10;

/// The slots of column `x` above row `y`, top to bottom.
pub open spec fn column_slots(x: usize, y: int) -> Seq<(usize, usize)>
    decreases y,
{
    if y <= 0 {
        Seq::empty()
    } else {
        column_slots(x, y - 1).push((x, (y - 1) as usize))
    }
}

/// Every slot of the first `x` columns of a grid `h` rows high, column by
/// column.
pub open spec fn slots(x: int, h: int) -> Seq<(usize, usize)>
    decreases x,
{
    if x <= 0 {
        Seq::empty()
    } else {
        slots(x - 1, h) + column_slots((x - 1) as usize, h)
    }
}

/// Every coordinate of a `w` by `h` grid, column by column.
fn all_slots(w: usize, h: usize) -> (r: Vec<(usize, usize)>)
    ensures
        r@ == slots(w as int, h as int),
{
    let mut r: Vec<(usize, usize)> = Vec::new();
    let mut x: usize = 0;
    while x < w
        invariant
            x <= w,
            r@ == slots(x as int, h as int),
        decreases w - x,
    {
        let ghost before = r@;
        let mut y: usize = 0;
        while y < h
            invariant
                x < w,
                y <= h,
                r@ == before + column_slots(x, y as int),
            decreases h - y,
        {
            r.push((x, y));
            y = y + 1;
            assert(r@ =~= before + column_slots(x, y as int));
        }
        x = x + 1;
    }
    r
}

impl Grid {
    /// How many slots hold a cell, or `usize::MAX` if that many do.
    fn occupied_count(&self) -> (n: usize)
        requires
            self.wf(),
    {
        let mut n: usize = 0;
        let mut x: usize = 0;
        while x < self.width
            invariant
                self.wf(),
                x <= self.width,
            decreases self.width - x,
        {
            assert(self@[x as int] == self.cells@[x as int]@);
            let mut y: usize = 0;
            while y < self.height
                invariant
                    self.wf(),
                    x < self.width,
                    y <= self.height,
                    self@[x as int] == self.cells@[x as int]@,
                decreases self.height - y,
            {
                if self.cells[x][y].is_some() && n < usize::MAX {
                    n = n + 1;
                }
                y = y + 1;
            }
            x = x + 1;
        }
        n
    }

    /// One tick of the live simulation: every slot is visited once, in an
    /// order that `rng` shuffles, and random choices draw from `rng`.
    ///
    /// Whatever `rng` gives, the result is the generation of this grid for a
    /// visiting order that holds each coordinate exactly once and for some
    /// sequence of draws.
    pub fn tick(&self, rng: &mut StdRng) -> (next: Grid)
        requires
            self.wf(),
        ensures
            next.wf(),
            next.width == self.width,
            next.height == self.height,
            exists|order: Seq<(usize, usize)>, ds: Seq<u32>|
                order.to_multiset() == slots(self.width as int, self.height as int).to_multiset()
                    && next@ == generation(self@, order, ds),
    {
        let mut order = all_slots(self.width, self.height);
        shuffle_slots(&mut order, rng);
        let n = self.occupied_count();
        let wanted = if n <= usize::MAX / DRAWS_PER_VISIT {
            n * DRAWS_PER_VISIT
        } else {
            usize::MAX
        };
        let mut draws: Vec<u32> = Vec::new();
        let mut i: usize = 0;
        while i < wanted
            invariant
                i <= wanted,
            decreases wanted - i,
        {
            draws.push(next_draw(rng));
            i = i + 1;
        }
        let next = self.advance(&order, &draws);
        assert(order@.to_multiset() == slots(self.width as int, self.height as int).to_multiset()
            && next@ == generation(self@, order@, draws@));
        next
    }
}

} // verus!
