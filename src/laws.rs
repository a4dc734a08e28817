//! What holds of every tick, proved from the engine's definition.

use vstd::prelude::*;

use crate::cell::{Cell, CellId, Material};
use crate::engine::{
    Stage, act, aged, by_class, clamp, diffuse, drawn, drift, engage, exchange, expires, fall,
    flame, generation, ignite, ignite_toward, lateral_open, lemma_openings_len, marks_shaped,
    no_marks, on_board, openings, place, rise, roll, run, settle, slide, smothers, spread, start,
    step, visit,
};
use crate::grid::{Board, Grid, cells_wf, put, shaped};

verus! {

/// 1 when `v` holds a cell of material `id`, else 0.
pub open spec fn holds(v: Option<Cell>, id: CellId) -> nat {
    match v {
        Some(c) => if c.id == id {
            1
        } else {
            0
        },
        None => 0,
    }
}

/// How many slots of `col` hold a cell of material `id`.
pub open spec fn tally_column(col: Seq<Option<Cell>>, id: CellId) -> nat
    decreases col.len(),
{
    if col.len() == 0 {
        0
    } else {
        tally_column(col.drop_last(), id) + holds(col.last(), id)
    }
}

/// How many slots of `b` hold a cell of material `id`.
pub open spec fn tally(b: Board, id: CellId) -> nat
    decreases b.len(),
{
    if b.len() == 0 {
        0
    } else {
        tally(b.drop_last(), id) + tally_column(b.last(), id)
    }
}

proof fn lemma_tally_column_update(col: Seq<Option<Cell>>, y: int, v: Option<Cell>, id: CellId)
    requires
        0 <= y < col.len(),
    ensures
        tally_column(col.update(y, v), id) + holds(col[y], id) == tally_column(col, id) + holds(
            v,
            id,
        ),
    decreases col.len(),
{
    let u = col.update(y, v);
    if y == col.len() - 1 {
        assert(u.drop_last() =~= col.drop_last());
    } else {
        assert(u.drop_last() =~= col.drop_last().update(y, v));
        lemma_tally_column_update(col.drop_last(), y, v, id);
    }
}

proof fn lemma_tally_update(b: Board, x: int, col: Seq<Option<Cell>>, id: CellId)
    requires
        0 <= x < b.len(),
    ensures
        tally(b.update(x, col), id) + tally_column(b[x], id) == tally(b, id) + tally_column(
            col,
            id,
        ),
    decreases b.len(),
{
    let u = b.update(x, col);
    if x == b.len() - 1 {
        assert(u.drop_last() =~= b.drop_last());
    } else {
        assert(u.drop_last() =~= b.drop_last().update(x, col));
        lemma_tally_update(b.drop_last(), x, col, id);
    }
}

/// Writing one slot takes away what was there and adds what is written.
pub proof fn lemma_tally_put(b: Board, x: int, y: int, v: Option<Cell>, id: CellId)
    requires
        0 <= x < b.len(),
        0 <= y < b[x].len(),
    ensures
        tally(put(b, x, y, v), id) + holds(b[x][y], id) == tally(b, id) + holds(v, id),
{
    lemma_tally_column_update(b[x], y, v, id);
    lemma_tally_update(b, x, b[x].update(y, v), id);
}

/// How the counts of materials may change from `b1` to `b2` in mode `k`:
/// with 0 no material but fire grows, with 1 none grows, with 2 every count
/// is kept.
pub open spec fn counted(b1: Board, b2: Board, k: nat) -> bool {
    forall|id: CellId|
        #![trigger tally(b2, id)]
        ((k >= 1 || id != CellId::Fire) ==> tally(b2, id) <= tally(b1, id)) && (k >= 2 ==> tally(
            b2,
            id,
        ) == tally(b1, id))
}

/// The successor and the claims are `w` by `h`.
pub open spec fn spans(s: Stage, w: int, h: int) -> bool {
    &&& shaped(s.cells, w, h)
    &&& marks_shaped(s.claimed, w, h)
}

/// `s2` follows `s1` by claiming writes alone: claims stay, an unclaimed
/// slot is as it was, counts change only as mode `k` lets them, and the
/// shape is kept.
pub open spec fn descends(s1: Stage, s2: Stage, w: int, h: int, k: nat) -> bool {
    &&& spans(s2, w, h)
    &&& counted(s1.cells, s2.cells, k)
    &&& forall|x: int, y: int|
        0 <= x < w && 0 <= y < h ==> (s1.claimed[x][y] ==> #[trigger] s2.claimed[x][y]) && (
        !s2.claimed[x][y] ==> s2.cells[x][y] == s1.cells[x][y])
}

/// No slot of `o` holds fire.
pub open spec fn fireless(o: Board) -> bool {
    forall|x: int, y: int|
        0 <= x < o.len() && 0 <= y < o[x].len() && (#[trigger] o[x][y]) is Some
            ==> o[x][y]->Some_0.id != CellId::Fire
}

/// No slot of `o` holds material `id`.
pub open spec fn lacks(o: Board, id: CellId) -> bool {
    forall|x: int, y: int|
        0 <= x < o.len() && 0 <= y < o[x].len() && (#[trigger] o[x][y]) is Some
            ==> o[x][y]->Some_0.id != id
}

/// Every occupied slot of `o` holds material `id`.
pub open spec fn only(o: Board, id: CellId) -> bool {
    forall|x: int, y: int|
        0 <= x < o.len() && 0 <= y < o[x].len() && (#[trigger] o[x][y]) is Some
            ==> o[x][y]->Some_0.id == id
}

/// Nothing in `o` can decay, burn or dissolve: no fire, no wind, and acid
/// only where there is nothing else.
pub open spec fn calm(o: Board) -> bool {
    &&& lacks(o, CellId::Fire)
    &&& lacks(o, CellId::Wind)
    &&& lacks(o, CellId::Acid) || only(o, CellId::Acid)
}

/// The old grid lets a tick run in mode `k`.
pub open spec fn allows(o: Board, k: nat) -> bool {
    &&& k <= 2
    &&& k >= 1 ==> lacks(o, CellId::Fire)
    &&& k >= 2 ==> calm(o)
}

/// `c` is the cell of the old grid at `(x, y)`, perhaps aged.
pub open spec fn source(o: Board, c: Cell, x: int, y: int) -> bool {
    o[x][y] is Some && o[x][y]->Some_0.id == c.id
}

proof fn lemma_descends_refl(s: Stage, w: int, h: int, k: nat)
    requires
        spans(s, w, h),
    ensures
        descends(s, s, w, h, k),
{
}

proof fn lemma_descends_trans(s1: Stage, s2: Stage, s3: Stage, w: int, h: int, k: nat)
    requires
        descends(s1, s2, w, h, k),
        descends(s2, s3, w, h, k),
    ensures
        descends(s1, s3, w, h, k),
{
    assert forall|id: CellId|
        #![trigger tally(s3.cells, id)]
        ((k >= 1 || id != CellId::Fire) ==> tally(s3.cells, id) <= tally(s1.cells, id)) && (k
            >= 2 ==> tally(s3.cells, id) == tally(s1.cells, id)) by {
        assert(tally(s3.cells, id) <= tally(s2.cells, id) || !(k >= 1 || id != CellId::Fire));
        assert(tally(s2.cells, id) <= tally(s1.cells, id) || !(k >= 1 || id != CellId::Fire));
    }
    assert forall|x: int, y: int| 0 <= x < w && 0 <= y < h implies (s1.claimed[x][y]
        ==> #[trigger] s3.claimed[x][y]) && (!s3.claimed[x][y] ==> s3.cells[x][y]
        == s1.cells[x][y]) by {
        assert(s2.claimed[x][y] ==> s3.claimed[x][y]);
        assert(s1.claimed[x][y] ==> s2.claimed[x][y]);
    }
}

/// Clearing a slot, or writing fire into it, and claiming it.
proof fn lemma_settle(s: Stage, x: int, y: int, v: Option<Cell>, w: int, h: int, k: nat)
    requires
        spans(s, w, h),
        0 <= x < w,
        0 <= y < h,
        k <= 1,
        v matches Some(c) ==> c.id == CellId::Fire && k == 0,
    ensures
        descends(s, settle(s, x, y, v), w, h, k),
{
    let s2 = settle(s, x, y, v);
    assert forall|id: CellId| #![trigger tally(s2.cells, id)] (k >= 1 || id != CellId::Fire) implies tally(
        s2.cells,
        id,
    ) <= tally(s.cells, id) by {
        lemma_tally_put(s.cells, x, y, v, id);
    }
}

proof fn lemma_drawn(s: Stage, ds: Seq<u32>, w: int, h: int, k: nat)
    requires
        spans(s, w, h),
    ensures
        descends(s, drawn(s, ds), w, h, k),
{
}

proof fn lemma_exchange(s: Stage, x1: int, y1: int, x2: int, y2: int, w: int, h: int, k: nat)
    requires
        spans(s, w, h),
        0 <= x1 < w,
        0 <= y1 < h,
        0 <= x2 < w,
        0 <= y2 < h,
    ensures
        descends(s, exchange(s, x1, y1, x2, y2), w, h, k),
{
    let a = s.cells[x1][y1];
    let b = s.cells[x2][y2];
    let s1 = settle(s, x1, y1, b);
    let s2 = settle(s1, x2, y2, a);
    assert forall|id: CellId| #[trigger] tally(s2.cells, id) == tally(s.cells, id) by {
        lemma_tally_put(s.cells, x1, y1, b, id);
        lemma_tally_put(s1.cells, x2, y2, a, id);
    }
}

proof fn lemma_engage(
    s: Stage,
    x: int,
    y: int,
    tx: int,
    ty: int,
    dissolve: bool,
    w: int,
    h: int,
    k: nat,
)
    requires
        spans(s, w, h),
        0 <= x < w,
        0 <= y < h,
        0 <= tx < w,
        0 <= ty < h,
        dissolve ==> k <= 1,
    ensures
        descends(s, engage(s, x, y, tx, ty, dissolve), w, h, k),
{
    if dissolve {
        let s1 = settle(s, x, y, None);
        lemma_settle(s, x, y, None, w, h, k);
        lemma_settle(s1, tx, ty, None, w, h, k);
        lemma_descends_trans(s, s1, settle(s1, tx, ty, None), w, h, k);
    } else {
        lemma_exchange(s, x, y, tx, ty, w, h, k);
    }
}

/// The facts about the old grid and the stage that every rule lemma needs.
pub open spec fn ground(o: Board, s: Stage, w: int, h: int, x: int, y: int) -> bool {
    &&& shaped(o, w, h)
    &&& spans(s, w, h)
    &&& 0 <= x < w
    &&& 0 <= y < h
}

/// In mode 2 the visited cell `c` dissolves nothing of the old grid, and
/// nothing of it dissolves `c`.
proof fn lemma_calm_pair(o: Board, c: Cell, x: int, y: int, tx: int, ty: int, w: int, h: int)
    requires
        shaped(o, w, h),
        calm(o),
        0 <= x < w,
        0 <= y < h,
        0 <= tx < w,
        0 <= ty < h,
        source(o, c, x, y),
    ensures
        !c.spec_dissolves(o[tx][ty]),
        o[tx][ty] matches Some(b) ==> !b.spec_dissolves(Some(c)),
{
    assert(o[x][y] is Some);
    if o[tx][ty] is Some {
        assert(o[tx][ty] is Some);
    }
}

/// The material in a slot, if any.
pub open spec fn kind(v: Option<Cell>) -> Option<CellId> {
    match v {
        Some(c) => Some(c.id),
        None => None,
    }
}

/// Every slot that no rule has claimed holds the same material in the
/// successor as in the old grid.
pub open spec fn tracks(o: Board, s: Stage, w: int, h: int) -> bool {
    forall|x: int, y: int|
        0 <= x < w && 0 <= y < h && !s.claimed[x][y] ==> kind(#[trigger] s.cells[x][y]) == kind(
            o[x][y],
        )
}

proof fn lemma_tracks_descends(o: Board, s1: Stage, s2: Stage, w: int, h: int, k: nat)
    requires
        tracks(o, s1, w, h),
        descends(s1, s2, w, h, k),
    ensures
        tracks(o, s2, w, h),
{
    assert forall|x: int, y: int| 0 <= x < w && 0 <= y < h && !s2.claimed[x][y] implies kind(
        #[trigger] s2.cells[x][y],
    ) == kind(o[x][y]) by {
        assert(s1.claimed[x][y] ==> s2.claimed[x][y]);
    }
}

proof fn lemma_counted_trans(b1: Board, b2: Board, b3: Board, k: nat)
    requires
        counted(b1, b2, k),
        counted(b2, b3, k),
    ensures
        counted(b1, b3, k),
{
    assert forall|id: CellId|
        #![trigger tally(b3, id)]
        ((k >= 1 || id != CellId::Fire) ==> tally(b3, id) <= tally(b1, id)) && (k >= 2 ==> tally(
            b3,
            id,
        ) == tally(b1, id)) by {
        assert(tally(b3, id) <= tally(b2, id) || !(k >= 1 || id != CellId::Fire));
        assert(tally(b2, id) <= tally(b1, id) || !(k >= 1 || id != CellId::Fire));
    }
}

/// What every rule lemma assumes of the visit.
pub open spec fn rule_ready(o: Board, s: Stage, w: int, h: int, x: int, y: int, c: Cell, k: nat) -> bool {
    &&& ground(o, s, w, h, x, y)
    &&& allows(o, k)
    &&& source(o, c, x, y)
    &&& tracks(o, s, w, h)
}

proof fn lemma_spread(o: Board, s: Stage, x: int, y: int, c: Cell, ds: Seq<u32>, w: int, h: int, k: nat)
    requires
        rule_ready(o, s, w, h, x, y, c, k),
    ensures
        descends(s, spread(o, s, x, y, c, ds), w, h, k),
{
    let s1 = drawn(s, ds);
    lemma_drawn(s, ds, w, h, k);
    lemma_descends_refl(s, w, h, k);
    if x > 0 && lateral_open(o, s, c, x - 1, y) {
        let dis = c.spec_dissolves(s.cells[x - 1][y]);
        assert(kind(s.cells[x - 1][y]) == kind(o[x - 1][y]));
        if k >= 2 {
            lemma_calm_pair(o, c, x, y, x - 1, y, w, h);
        }
        lemma_engage(s, x, y, x - 1, y, dis, w, h, k);
        lemma_engage(s1, x, y, x - 1, y, dis, w, h, k);
        lemma_descends_trans(s, s1, engage(s1, x, y, x - 1, y, dis), w, h, k);
    }
    if x + 1 < w && lateral_open(o, s, c, x + 1, y) {
        let dis = c.spec_dissolves(s.cells[x + 1][y]);
        assert(kind(s.cells[x + 1][y]) == kind(o[x + 1][y]));
        if k >= 2 {
            lemma_calm_pair(o, c, x, y, x + 1, y, w, h);
        }
        lemma_engage(s, x, y, x + 1, y, dis, w, h, k);
        lemma_engage(s1, x, y, x + 1, y, dis, w, h, k);
        lemma_descends_trans(s, s1, engage(s1, x, y, x + 1, y, dis), w, h, k);
    }
}

proof fn lemma_diffuse(o: Board, s: Stage, x: int, y: int, c: Cell, ds: Seq<u32>, w: int, h: int, k: nat)
    requires
        rule_ready(o, s, w, h, x, y, c, k),
    ensures
        descends(s, diffuse(o, s, x, y, c, ds), w, h, k),
{
    let tx = clamp(x + roll(ds, s.next, 3) - 1, o.len() - 1);
    let s1 = drawn(s, ds);
    let ty = clamp(y + roll(ds, s1.next, 3) - 1, o[x].len() - 1);
    let s2 = drawn(s1, ds);
    lemma_drawn(s, ds, w, h, k);
    lemma_drawn(s1, ds, w, h, k);
    lemma_descends_trans(s, s1, s2, w, h, k);
    lemma_exchange(s2, x, y, tx, ty, w, h, k);
    lemma_descends_trans(s, s2, exchange(s2, x, y, tx, ty), w, h, k);
}

proof fn lemma_drift(o: Board, s: Stage, x: int, y: int, c: Cell, ds: Seq<u32>, w: int, h: int, k: nat)
    requires
        rule_ready(o, s, w, h, x, y, c, k),
    ensures
        descends(s, drift(o, s, x, y, c, ds), w, h, k),
{
    let tx = clamp(x + roll(ds, s.next, 3) - 1, o.len() - 1);
    let s1 = drawn(s, ds);
    lemma_drawn(s, ds, w, h, k);
    lemma_exchange(s1, x, y, tx, y, w, h, k);
    lemma_descends_trans(s, s1, exchange(s1, x, y, tx, y), w, h, k);
}

proof fn lemma_ignite_toward(o: Board, s: Stage, x: int, y: int, d: int, ds: Seq<u32>, w: int, h: int)
    requires
        ground(o, s, w, h, x, y),
    ensures
        descends(s, ignite_toward(o, s, x, y, d, ds), w, h, 0),
{
    let n = step(x, y, d);
    if !on_board(o, n) || o[n.0][n.1] is None || !o[n.0][n.1]->Some_0.spec_flammable() {
        lemma_descends_refl(s, w, h, 0);
    } else {
        let opens = openings(o, s, n, 4);
        let s1 = if opens.len() > 0 {
            let a = step(n.0, n.1, opens[roll(ds, s.next, opens.len()) as int] as int);
            lemma_openings_len(o, s, n, 4);
            assert(on_board(o, a));
            lemma_drawn(s, ds, w, h, 0);
            lemma_settle(drawn(s, ds), a.0, a.1, Some(flame()), w, h, 0);
            lemma_descends_trans(s, drawn(s, ds), settle(drawn(s, ds), a.0, a.1, Some(flame())), w, h, 0);
            settle(drawn(s, ds), a.0, a.1, Some(flame()))
        } else {
            lemma_descends_refl(s, w, h, 0);
            s
        };
        let s2 = drawn(s1, ds);
        lemma_drawn(s1, ds, w, h, 0);
        lemma_descends_trans(s, s1, s2, w, h, 0);
        lemma_settle(s2, n.0, n.1, Some(flame()), w, h, 0);
        lemma_descends_trans(s, s2, settle(s2, n.0, n.1, Some(flame())), w, h, 0);
    }
}

proof fn lemma_ignite(o: Board, s: Stage, x: int, y: int, j: int, ds: Seq<u32>, w: int, h: int)
    requires
        ground(o, s, w, h, x, y),
    ensures
        descends(s, ignite(o, s, x, y, j, ds), w, h, 0),
    decreases j,
{
    if j <= 0 {
        lemma_descends_refl(s, w, h, 0);
    } else {
        let s1 = ignite(o, s, x, y, j - 1, ds);
        lemma_ignite(o, s, x, y, j - 1, ds, w, h);
        lemma_ignite_toward(o, s1, x, y, j - 1, ds, w, h);
        lemma_descends_trans(s, s1, ignite_toward(o, s1, x, y, j - 1, ds), w, h, 0);
    }
}

proof fn lemma_rise(o: Board, s: Stage, x: int, y: int, c: Cell, ds: Seq<u32>, w: int, h: int)
    requires
        ground(o, s, w, h, x, y),
        c.id == CellId::Fire,
    ensures
        descends(s, rise(o, s, x, y, c, ds), w, h, 0),
{
    let tx = clamp(x + roll(ds, s.next, 3) - 1, o.len() - 1);
    let s1 = drawn(s, ds);
    let ty = clamp(y + roll(ds, s1.next, 3) - 2, o[x].len() - 1);
    let s2 = drawn(s1, ds);
    let s3 = settle(s2, x, y, None);
    lemma_drawn(s, ds, w, h, 0);
    lemma_drawn(s1, ds, w, h, 0);
    lemma_descends_trans(s, s1, s2, w, h, 0);
    lemma_settle(s2, x, y, None, w, h, 0);
    lemma_descends_trans(s, s2, s3, w, h, 0);
    lemma_settle(s3, tx, ty, Some(c), w, h, 0);
    lemma_descends_trans(s, s3, settle(s3, tx, ty, Some(c)), w, h, 0);
}

proof fn lemma_by_class(o: Board, s: Stage, x: int, y: int, c: Cell, ds: Seq<u32>, w: int, h: int, k: nat)
    requires
        rule_ready(o, s, w, h, x, y, c, k),
    ensures
        descends(s, by_class(o, s, x, y, c, ds), w, h, k),
{
    match c.spec_material() {
        Material::Powder | Material::Solid => lemma_descends_refl(s, w, h, k),
        Material::Liquid(_) | Material::Acid => lemma_spread(o, s, x, y, c, ds, w, h, k),
        Material::Gas => lemma_diffuse(o, s, x, y, c, ds, w, h, k),
        Material::Fire => {
            assert(o[x][y] is Some);
            let s1 = ignite(o, s, x, y, 4, ds);
            lemma_ignite(o, s, x, y, 4, ds, w, h);
            lemma_rise(o, s1, x, y, c, ds, w, h);
            lemma_descends_trans(s, s1, rise(o, s1, x, y, c, ds), w, h, 0);
        },
        Material::Wind => lemma_drift(o, s, x, y, c, ds, w, h, k),
    }
}

proof fn lemma_slide(o: Board, s: Stage, x: int, y: int, c: Cell, ds: Seq<u32>, w: int, h: int, k: nat)
    requires
        rule_ready(o, s, w, h, x, y, c, k),
        y + 1 < h,
    ensures
        descends(s, slide(o, s, x, y, c, ds), w, h, k),
{
    let s1 = drawn(s, ds);
    lemma_drawn(s, ds, w, h, k);
    lemma_by_class(o, s, x, y, c, ds, w, h, k);
    if x > 0 {
        let dis = c.spec_dissolves(o[x - 1][y + 1]);
        if k >= 2 {
            lemma_calm_pair(o, c, x, y, x - 1, y + 1, w, h);
        }
        lemma_engage(s, x, y, x - 1, y + 1, dis, w, h, k);
        lemma_engage(s1, x, y, x - 1, y + 1, dis, w, h, k);
        lemma_descends_trans(s, s1, engage(s1, x, y, x - 1, y + 1, dis), w, h, k);
    }
    if x + 1 < w {
        let dis = c.spec_dissolves(o[x + 1][y + 1]);
        if k >= 2 {
            lemma_calm_pair(o, c, x, y, x + 1, y + 1, w, h);
        }
        lemma_engage(s, x, y, x + 1, y + 1, dis, w, h, k);
        lemma_engage(s1, x, y, x + 1, y + 1, dis, w, h, k);
        lemma_descends_trans(s, s1, engage(s1, x, y, x + 1, y + 1, dis), w, h, k);
    }
}

/// A cell leaving `(x, y)` for `(tx, ty)`, whatever was there, where the
/// old slot held the same material as the cell.
proof fn lemma_move(s: Stage, x: int, y: int, tx: int, ty: int, a: Cell, w: int, h: int, k: nat)
    requires
        spans(s, w, h),
        0 <= x < w,
        0 <= y < h,
        0 <= tx < w,
        0 <= ty < h,
        (x, y) != (tx, ty),
        kind(s.cells[x][y]) == Some(a.id),
        k <= 1,
    ensures
        descends(s, settle(settle(s, x, y, None), tx, ty, Some(a)), w, h, k),
{
    let s1 = settle(s, x, y, None);
    let s2 = settle(s1, tx, ty, Some(a));
    assert forall|id: CellId| #![trigger tally(s2.cells, id)] (k >= 1 || id != CellId::Fire) implies tally(
        s2.cells,
        id,
    ) <= tally(s.cells, id) by {
        lemma_tally_put(s.cells, x, y, None, id);
        lemma_tally_put(s1.cells, tx, ty, Some(a), id);
    }
}

proof fn lemma_fall(o: Board, s: Stage, x: int, y: int, c: Cell, ds: Seq<u32>, w: int, h: int, k: nat)
    requires
        rule_ready(o, s, w, h, x, y, c, k),
        y + 1 < h,
        s.cells[x][y] == Some(c),
    ensures
        descends(s, fall(o, s, x, y, c, ds), w, h, k),
{
    let b = o[x][y + 1];
    let free = !s.claimed[x][y + 1];
    if k >= 2 {
        lemma_calm_pair(o, c, x, y, x, y + 1, w, h);
    }
    if c.spec_falls() && (c.spec_sinks_under(b) || c.spec_dissolves(b)) && free {
        lemma_engage(s, x, y, x, y + 1, c.spec_dissolves(b), w, h, k);
    } else if c.spec_falls() && b is Some && b->Some_0.spec_material() == Material::Fire && free {
        assert(o[x][y + 1] is Some);
        assert(k == 0);
        if c.spec_flammable() {
            lemma_settle(s, x, y, None, w, h, k);
        } else {
            lemma_move(s, x, y, x, y + 1, c, w, h, k);
        }
    } else if c.spec_falls() && b is Some && b->Some_0.spec_dissolves(Some(c)) && free {
        lemma_engage(s, x, y, x, y + 1, true, w, h, k);
    } else {
        lemma_slide(o, s, x, y, c, ds, w, h, k);
    }
}

/// After the in-place aging of the visited cell: floating, smothering, the
/// rules below, or the class rule on the bottom row.
proof fn lemma_act(o: Board, s: Stage, x: int, y: int, c: Cell, ds: Seq<u32>, w: int, h: int, k: nat)
    requires
        rule_ready(o, s, w, h, x, y, c, k),
        s.cells[x][y] == Some(c),
    ensures
        descends(s, act(o, s, x, y, c, ds), w, h, k),
{
    if y > 0 && o[x][y - 1] is Some && o[x][y - 1]->Some_0.spec_sinks_under(Some(c))
        && !s.claimed[x][y - 1] {
        lemma_exchange(s, x, y, x, y - 1, w, h, k);
    } else if c.spec_material() == Material::Fire && smothers(o, s, x, y) {
        assert(o[x][y] is Some);
        assert(k == 0);
        let a = o[x][y - 1]->Some_0;
        if a.spec_dissolves(Some(c)) {
            lemma_engage(s, x, y - 1, x, y, true, w, h, k);
        } else {
            assert(kind(s.cells[x][y - 1]) == kind(o[x][y - 1]));
            lemma_move(s, x, y - 1, x, y, a, w, h, k);
        }
    } else if y + 1 < h {
        lemma_fall(o, s, x, y, c, ds, w, h, k);
    } else {
        lemma_by_class(o, s, x, y, c, ds, w, h, k);
    }
}

pub proof fn lemma_visit(o: Board, s: Stage, x: int, y: int, ds: Seq<u32>, w: int, h: int, k: nat)
    requires
        shaped(o, w, h),
        cells_wf(o),
        allows(o, k),
        spans(s, w, h),
        tracks(o, s, w, h),
    ensures
        spans(visit(o, s, x, y, ds), w, h),
        tracks(o, visit(o, s, x, y, ds), w, h),
        counted(s.cells, visit(o, s, x, y, ds).cells, k),
{
    let r = visit(o, s, x, y, ds);
    if !on_board(o, (x, y)) || o[x][y] is None || s.claimed[x][y] {
    } else if expires(o[x][y]->Some_0) {
        assert(o[x][y]->Some_0.wf());
        assert(k <= 1);
        lemma_settle(s, x, y, None, w, h, k);
        lemma_tracks_descends(o, s, r, w, h, k);
    } else {
        let c = aged(o[x][y]->Some_0);
        let s1 = place(s, x, y, Some(c));
        assert(kind(s.cells[x][y]) == kind(o[x][y]));
        assert forall|id: CellId| #[trigger] tally(s1.cells, id) == tally(s.cells, id) by {
            lemma_tally_put(s.cells, x, y, Some(c), id);
        }
        assert(tracks(o, s1, w, h));
        lemma_act(o, s1, x, y, c, ds, w, h, k);
        lemma_tracks_descends(o, s1, r, w, h, k);
        lemma_counted_trans(s.cells, s1.cells, r.cells, k);
    }
}

pub proof fn lemma_run(o: Board, order: Seq<(usize, usize)>, ds: Seq<u32>, w: int, h: int, k: nat)
    requires
        shaped(o, w, h),
        cells_wf(o),
        allows(o, k),
    ensures
        spans(run(o, start(o), order, ds), w, h),
        tracks(o, run(o, start(o), order, ds), w, h),
        counted(o, run(o, start(o), order, ds).cells, k),
    decreases order.len(),
{
    if order.len() == 0 {
        assert(marks_shaped(no_marks(o), w, h));
    } else {
        let s = run(o, start(o), order.drop_last(), ds);
        let p = order.last();
        lemma_run(o, order.drop_last(), ds, w, h, k);
        lemma_visit(o, s, p.0 as int, p.1 as int, ds, w, h, k);
        lemma_counted_trans(o, s.cells, visit(o, s, p.0 as int, p.1 as int, ds).cells, k);
    }
}

/// The stage a tick starts from has the old grid's shape and tracks it.
pub proof fn lemma_visit_start(o: Board, w: int, h: int)
    requires
        shaped(o, w, h),
    ensures
        spans(start(o), w, h),
        tracks(o, start(o), w, h),
{
    assert(marks_shaped(no_marks(o), w, h));
}

/// A tick creates no cell of any material but fire: for every other
/// material, the next generation holds at most as many cells of it as the
/// grid did, whatever the visiting order and the draws. Cells move, age,
/// dissolve, burn or are displaced; only combustion makes new ones.
pub proof fn law_only_fire_is_created(g: Grid, order: Seq<(usize, usize)>, ds: Seq<u32>, id: CellId)
    requires
        g.wf(),
        id != CellId::Fire,
    ensures
        tally(generation(g@, order, ds), id) <= tally(g@, id),
{
    lemma_run(g@, order, ds, g.width as int, g.height as int, 0);
}

proof fn lemma_tally_column_zero(col: Seq<Option<Cell>>, id: CellId)
    requires
        tally_column(col, id) == 0,
    ensures
        forall|y: int| 0 <= y < col.len() && (#[trigger] col[y]) is Some ==> col[y]->Some_0.id != id,
    decreases col.len(),
{
    if col.len() > 0 {
        lemma_tally_column_zero(col.drop_last(), id);
        assert forall|y: int| 0 <= y < col.len() && (#[trigger] col[y]) is Some implies col[y]->Some_0.id
            != id by {
            if y < col.len() - 1 {
                assert(col[y] == col.drop_last()[y]);
            }
        }
    }
}

proof fn lemma_tally_zero(b: Board, id: CellId)
    requires
        tally(b, id) == 0,
    ensures
        lacks(b, id),
    decreases b.len(),
{
    if b.len() > 0 {
        lemma_tally_zero(b.drop_last(), id);
        lemma_tally_column_zero(b.last(), id);
        assert forall|x: int, y: int|
            0 <= x < b.len() && 0 <= y < b[x].len() && (#[trigger] b[x][y]) is Some implies b[x][y]->Some_0.id
            != id by {
            if x < b.len() - 1 {
                assert(b[x] == b.drop_last()[x]);
                assert(b.drop_last()[x][y] is Some);
            } else {
                assert(b[x] == b.last());
                assert(b.last()[y] is Some);
            }
        }
    }
}

/// Fire comes only from fire: a tick of a grid without fire leaves it
/// without fire, and then no material at all grows in count.
pub proof fn law_fire_needs_fire(g: Grid, order: Seq<(usize, usize)>, ds: Seq<u32>, id: CellId)
    requires
        g.wf(),
        tally(g@, CellId::Fire) == 0,
    ensures
        tally(generation(g@, order, ds), CellId::Fire) == 0,
        tally(generation(g@, order, ds), id) <= tally(g@, id),
{
    lemma_tally_zero(g@, CellId::Fire);
    lemma_run(g@, order, ds, g.width as int, g.height as int, 1);
}

/// Where nothing can decay, burn or dissolve (no fire, no wind, and acid
/// only in a grid of nothing else), a tick only moves cells: every material
/// keeps its count, whatever the visiting order and the draws. In
/// particular acid resting on acid never dissolves.
pub proof fn law_calm_tick_moves_only(g: Grid, order: Seq<(usize, usize)>, ds: Seq<u32>, id: CellId)
    requires
        g.wf(),
        calm(g@),
    ensures
        tally(generation(g@, order, ds), id) == tally(g@, id),
{
    lemma_run(g@, order, ds, g.width as int, g.height as int, 2);
}

} // verus!
