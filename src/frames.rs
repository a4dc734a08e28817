//! What a single visit leaves alone, on grids where nothing burns, blows,
//! diffuses or dissolves.

use vstd::prelude::*;

use crate::cell::{CellId, Material};
use crate::engine::{Stage, generation, run, start, visit};
use crate::grid::{Board, Grid, cells_wf, shaped};
use crate::laws::{lacks, spans};

verus! {

/// No slot of `o` holds fire, gas, wind or acid.
pub open spec fn quiet(o: Board) -> bool {
    &&& lacks(o, CellId::Fire)
    &&& lacks(o, CellId::Oxygen)
    &&& lacks(o, CellId::Wind)
    &&& lacks(o, CellId::Acid)
}

/// A claimed slot keeps its content and its claim through any visit.
proof fn lemma_claimed_kept(
    o: Board,
    s: Stage,
    ex: int,
    ey: int,
    ds: Seq<u32>,
    tx: int,
    ty: int,
    w: int,
    h: int,
)
    requires
        shaped(o, w, h),
        cells_wf(o),
        spans(s, w, h),
        quiet(o),
        0 <= tx < w,
        0 <= ty < h,
        s.claimed[tx][ty],
    ensures
        visit(o, s, ex, ey, ds).cells[tx][ty] == s.cells[tx][ty],
        visit(o, s, ex, ey, ds).claimed[tx][ty],
{
    if 0 <= ex < w && 0 <= ey < h && o[ex][ey] is Some {
        assert(o[ex][ey] is Some);
    }
}

/// Before the visit of a powder cell at `(x, y)` with open space below it,
/// no other visit touches the two slots of its column.
proof fn lemma_column_kept(
    o: Board,
    s: Stage,
    ex: int,
    ey: int,
    ds: Seq<u32>,
    x: int,
    y: int,
    w: int,
    h: int,
)
    requires
        shaped(o, w, h),
        cells_wf(o),
        spans(s, w, h),
        quiet(o),
        0 <= x < w,
        0 <= y,
        y + 1 < h,
        o[x][y] is Some,
        o[x][y]->Some_0.spec_material() == Material::Powder,
        o[x][y + 1] is None,
        s.cells[x][y] == o[x][y],
        s.cells[x][y + 1] is None,
        !s.claimed[x][y],
        !s.claimed[x][y + 1],
        (ex, ey) != (x, y),
    ensures
        visit(o, s, ex, ey, ds).cells[x][y] == o[x][y],
        visit(o, s, ex, ey, ds).cells[x][y + 1] is None,
        !visit(o, s, ex, ey, ds).claimed[x][y],
        !visit(o, s, ex, ey, ds).claimed[x][y + 1],
{
    if 0 <= ex < w && 0 <= ey < h && o[ex][ey] is Some {
        assert(o[ex][ey] is Some);
    }
}

/// The visit of the powder cell itself moves it one row down and claims
/// its new slot.
proof fn lemma_powder_drops(
    o: Board,
    s: Stage,
    ds: Seq<u32>,
    x: int,
    y: int,
    w: int,
    h: int,
)
    requires
        shaped(o, w, h),
        cells_wf(o),
        spans(s, w, h),
        0 <= x < w,
        0 <= y,
        y + 1 < h,
        o[x][y] is Some,
        o[x][y]->Some_0.spec_material() == Material::Powder,
        o[x][y + 1] is None,
        s.cells[x][y] == o[x][y],
        s.cells[x][y + 1] is None,
        !s.claimed[x][y],
        !s.claimed[x][y + 1],
    ensures
        visit(o, s, x, y, ds).cells[x][y + 1] == o[x][y],
        visit(o, s, x, y, ds).claimed[x][y + 1],
{
    let c = o[x][y]->Some_0;
    assert(c.wf());
    assert(c.life is None);
    assert(crate::engine::aged(c) == c);
    assert(!crate::engine::expires(c));
    let s1 = crate::engine::place(s, x, y, Some(c));
    assert(s1.cells[x][y] == Some(c));
    assert(!(y > 0 && o[x][y - 1] is Some && o[x][y - 1]->Some_0.spec_sinks_under(Some(c))));
    assert(c.spec_falls());
    assert(c.spec_sinks_under(o[x][y + 1]));
    assert(s1.claimed == s.claimed);
    assert(!s1.claimed[x][y + 1]);
    assert(crate::engine::fall(o, s1, x, y, c, ds) == crate::engine::exchange(s1, x, y, x, y + 1));
    assert(visit(o, s, x, y, ds) == crate::engine::act(o, s1, x, y, c, ds));
    assert(visit(o, s, x, y, ds) == crate::engine::exchange(s1, x, y, x, y + 1));
}

/// The run keeps the powder's column until its visit, and its new slot
/// after it.
proof fn lemma_run_powder(
    o: Board,
    order: Seq<(usize, usize)>,
    ds: Seq<u32>,
    x: int,
    y: int,
    w: int,
    h: int,
)
    requires
        shaped(o, w, h),
        cells_wf(o),
        quiet(o),
        0 <= x < w <= usize::MAX,
        0 <= y,
        y + 1 < h <= usize::MAX,
        o[x][y] is Some,
        o[x][y]->Some_0.spec_material() == Material::Powder,
        o[x][y + 1] is None,
    ensures
        spans(run(o, start(o), order, ds), w, h),
        !order.contains((x as usize, y as usize)) ==> {
            let r = run(o, start(o), order, ds);
            &&& r.cells[x][y] == o[x][y]
            &&& r.cells[x][y + 1] is None
            &&& !r.claimed[x][y]
            &&& !r.claimed[x][y + 1]
        },
        order.contains((x as usize, y as usize)) ==> {
            let r = run(o, start(o), order, ds);
            &&& r.cells[x][y + 1] == o[x][y]
            &&& r.claimed[x][y + 1]
        },
    decreases order.len(),
{
    if order.len() > 0 {
        let rest = order.drop_last();
        let e = order.last();
        let s = run(o, start(o), rest, ds);
        lemma_run_powder(o, rest, ds, x, y, w, h);
        crate::laws::lemma_run(o, rest, ds, w, h, 0);
        crate::laws::lemma_run(o, order, ds, w, h, 0);
        crate::scenes::lemma_contains_last(order, (x as usize, y as usize));
        if rest.contains((x as usize, y as usize)) {
            lemma_claimed_kept(o, s, e.0 as int, e.1 as int, ds, x, y + 1, w, h);
        } else if e == (x as usize, y as usize) {
            lemma_powder_drops(o, s, ds, x, y, w, h);
        } else {
            assert((e.0 as int, e.1 as int) != (x, y));
            lemma_column_kept(o, s, e.0 as int, e.1 as int, ds, x, y, w, h);
        }
    } else {
        crate::laws::lemma_visit_start(o, w, h);
    }
}

/// On a grid with no fire, gas, wind or acid, a powder cell with an empty
/// slot right below it falls straight into that slot in a tick that visits
/// it, whatever else the grid holds, the visiting order and the draws.
pub proof fn law_powder_falls_straight(
    g: Grid,
    order: Seq<(usize, usize)>,
    ds: Seq<u32>,
    x: usize,
    y: usize,
)
    requires
        g.wf(),
        quiet(g@),
        x < g.width,
        y + 1 < g.height,
        g@[x as int][y as int] is Some,
        g@[x as int][y as int]->Some_0.spec_material() == Material::Powder,
        g@[x as int][y + 1] is None,
        order.contains((x, y)),
    ensures
        generation(g@, order, ds)[x as int][y + 1] == g@[x as int][y as int],
{
    lemma_run_powder(g@, order, ds, x as int, y as int, g.width as int, g.height as int);
}

} // verus!
