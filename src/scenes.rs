//! Exact outcomes of a tick on grids that hold one or two cells, for every
//! visiting order that reaches them and for every sequence of draws.

use vstd::prelude::*;

use crate::cell::{Cell, CellId, Material};
use crate::engine::{
    Stage, aged, clamp, drawn, expires, generation, ignite, on_board, place, roll, run,
    start, step, visit,
};
use crate::grid::{Board, put};

verus! {

/// A `w` by `h` board with every slot empty.
pub open spec fn blank(w: int, h: int) -> Board {
    Seq::new(w as nat, |x: int| Seq::new(h as nat, |y: int| None::<Cell>))
}

/// The slot `p` as a pair of integers.
pub open spec fn at(p: (usize, usize)) -> (int, int) {
    (p.0 as int, p.1 as int)
}

/// Every slot of `o` but `p` and `q` is empty.
pub open spec fn alone(o: Board, p: (usize, usize), q: (usize, usize)) -> bool {
    forall|x: int, y: int|
        0 <= x < o.len() && 0 <= y < o[x].len() && (x, y) != at(p) && (x, y) != at(q) ==> (
        #[trigger] o[x][y]) is None
}

/// An element is in a non-empty sequence when it is in all but the last
/// element, or is the last.
pub proof fn lemma_contains_last<T>(s: Seq<T>, v: T)
    requires
        s.len() > 0,
    ensures
        s.contains(v) <==> (s.drop_last().contains(v) || s.last() == v),
{
    if s.contains(v) {
        let i = choose|i: int| 0 <= i < s.len() && s[i] == v;
        if i < s.len() - 1 {
            assert(s.drop_last()[i] == v);
        }
    }
    if s.drop_last().contains(v) {
        let i = choose|i: int| 0 <= i < s.drop_last().len() && s.drop_last()[i] == v;
        assert(s[i] == v);
    }
    if s.last() == v {
        assert(s[s.len() - 1] == v);
    }
}

/// On a grid where only `p` and `q` can be occupied, a run is decided by
/// whether the order reaches each of them, given how their visits compose.
proof fn lemma_run_pair(
    o: Board,
    order: Seq<(usize, usize)>,
    ds: Seq<u32>,
    p: (usize, usize),
    q: (usize, usize),
    sp: Stage,
    sq: Stage,
    r: Stage,
)
    requires
        alone(o, p, q),
        visit(o, start(o), at(p).0, at(p).1, ds) == sp,
        visit(o, start(o), at(q).0, at(q).1, ds) == sq,
        visit(o, sp, at(p).0, at(p).1, ds) == sp,
        visit(o, sq, at(q).0, at(q).1, ds) == sq,
        visit(o, sp, at(q).0, at(q).1, ds) == r,
        visit(o, sq, at(p).0, at(p).1, ds) == r,
        visit(o, r, at(p).0, at(p).1, ds) == r,
        visit(o, r, at(q).0, at(q).1, ds) == r,
    ensures
        run(o, start(o), order, ds) == if order.contains(p) {
            if order.contains(q) {
                r
            } else {
                sp
            }
        } else if order.contains(q) {
            sq
        } else {
            start(o)
        },
    decreases order.len(),
{
    if order.len() > 0 {
        let e = order.last();
        lemma_run_pair(o, order.drop_last(), ds, p, q, sp, sq, r);
        lemma_contains_last(order, p);
        lemma_contains_last(order, q);
        if e != p && e != q {
            assert(at(e) != at(p) && at(e) != at(q));
        }
    }
}

/// Visits on one grid are the same when the stages are equal field by
/// field.
proof fn lemma_stage_eq(a: Stage, b: Stage)
    requires
        a.cells =~~= b.cells,
        a.claimed =~~= b.claimed,
        a.next == b.next,
    ensures
        a == b,
{
}

/// Every slot of `order` in a `w` by `h` grid is visited.
pub open spec fn covers(order: Seq<(usize, usize)>, w: int, h: int) -> bool {
    forall|x: usize, y: usize| x < w && y < h ==> #[trigger] order.contains((x, y))
}

/// A cell that falls, alone on the grid with open space below it, moves
/// exactly one row down in a tick that visits it, whatever the draws.
pub proof fn law_lone_fall(
    c: Cell,
    x: usize,
    y: usize,
    w: int,
    h: int,
    order: Seq<(usize, usize)>,
    ds: Seq<u32>,
)
    requires
        c.wf(),
        c.spec_falls(),
        x < w,
        y + 1 < h,
        order.contains((x, y)),
    ensures
        generation(put(blank(w, h), x as int, y as int, Some(c)), order, ds) == put(
            blank(w, h),
            x as int,
            y as int + 1,
            Some(c),
        ),
{
    let o = put(blank(w, h), x as int, y as int, Some(c));
    let p = (x, y);
    let sp = visit(o, start(o), x as int, y as int, ds);
    assert(o[x as int][y as int] == Some(c));
    assert(alone(o, p, p));
    assert(c.life is None);
    assert(sp.cells =~~= put(blank(w, h), x as int, y as int + 1, Some(c)));
    lemma_run_pair(o, order, ds, p, p, sp, sp, sp);
}

/// A powder or solid cell alone on the bottom row stays where it is in a
/// tick that visits it.
pub proof fn law_lone_bottom(
    c: Cell,
    x: usize,
    w: int,
    h: int,
    order: Seq<(usize, usize)>,
    ds: Seq<u32>,
)
    requires
        c.wf(),
        c.spec_material() is Powder || c.spec_material() is Solid,
        x < w,
        1 <= h <= usize::MAX,
        order.contains((x, (h - 1) as usize)),
    ensures
        generation(put(blank(w, h), x as int, h - 1, Some(c)), order, ds) == put(
            blank(w, h),
            x as int,
            h - 1,
            Some(c),
        ),
{
    let o = put(blank(w, h), x as int, h - 1, Some(c));
    let p = (x, (h - 1) as usize);
    let sp = visit(o, start(o), x as int, h - 1, ds);
    assert(o[x as int][h - 1] == Some(c));
    assert(alone(o, p, p));
    assert(c.life is None);
    assert(sp.cells =~~= o);
    assert(sp.claimed =~~= start(o).claimed);
    lemma_stage_eq(sp, start(o));
    lemma_run_pair(o, order, ds, p, p, sp, sp, sp);
}

/// The board after a run of ticks, each with its visiting order and draws.
pub open spec fn generations(o: Board, plan: Seq<(Seq<(usize, usize)>, Seq<u32>)>) -> Board
    decreases plan.len(),
{
    if plan.len() == 0 {
        o
    } else {
        generation(generations(o, plan.drop_last()), plan.last().0, plan.last().1)
    }
}

/// Every tick of `plan` visits every slot of a `w` by `h` grid.
pub open spec fn plan_covers(plan: Seq<(Seq<(usize, usize)>, Seq<u32>)>, w: int, h: int) -> bool {
    forall|i: int| 0 <= i < plan.len() ==> covers(#[trigger] plan[i].0, w, h)
}

/// A tick of an empty grid leaves it empty.
proof fn lemma_blank_stays(w: int, h: int, order: Seq<(usize, usize)>, ds: Seq<u32>)
    ensures
        run(blank(w, h), start(blank(w, h)), order, ds) == start(blank(w, h)),
    decreases order.len(),
{
    if order.len() > 0 {
        lemma_blank_stays(w, h, order.drop_last(), ds);
    }
}

/// A powder or solid cell dropped alone above empty space moves one row
/// down each tick until it reaches the bottom row, and then stays there: after `n`
/// ticks it is in the same column, `n` rows lower or on the bottom row,
/// whatever the draws. So it comes to rest within `h - 1` ticks, and never
/// moves up or sideways.
pub proof fn law_gravity(
    c: Cell,
    x: usize,
    y: usize,
    w: int,
    h: int,
    plan: Seq<(Seq<(usize, usize)>, Seq<u32>)>,
)
    requires
        c.wf(),
        c.spec_material() is Powder || c.spec_material() is Solid,
        x < w,
        y < h <= usize::MAX,
        plan_covers(plan, w, h),
    ensures
        generations(put(blank(w, h), x as int, y as int, Some(c)), plan) == put(
            blank(w, h),
            x as int,
            if y + plan.len() < h - 1 {
                y + plan.len()
            } else {
                h - 1
            },
            Some(c),
        ),
    decreases plan.len(),
{
    if plan.len() > 0 {
        let rest = plan.drop_last();
        assert(plan_covers(rest, w, h)) by {
            assert forall|i: int| 0 <= i < rest.len() implies covers(#[trigger] rest[i].0, w, h) by {
                assert(rest[i] == plan[i]);
            }
        }
        law_gravity(c, x, y, w, h, rest);
        let yy: int = if y + rest.len() < h - 1 {
            y + rest.len()
        } else {
            h - 1
        };
        let t = plan.last();
        assert(covers(plan[plan.len() - 1].0, w, h));
        assert(t.0.contains((x, yy as usize)));
        if yy + 1 < h {
            law_lone_fall(c, x, yy as usize, w, h, t.0, t.1);
        } else {
            assert(c.life is None);
            law_lone_bottom(c, x, w, h, t.0, t.1);
        }
    }
}

/// A fire cell with `l` ticks of life left.
pub open spec fn fire_with(l: u8) -> Cell {
    Cell { id: CellId::Fire, life: Some(l) }
}

/// `b` is empty, or holds a single fire cell with `l` ticks of life left.
pub open spec fn embers(b: Board, w: int, h: int, l: u8) -> bool {
    ||| b == blank(w, h)
    ||| exists|x: int, y: int|
        0 <= x < w && 0 <= y < h && b == #[trigger] put(blank(w, h), x, y, Some(fire_with(l)))
}

proof fn lemma_ignite_alone(o: Board, s: Stage, x: int, y: int, k: int, ds: Seq<u32>)
    requires
        alone(o, (x as usize, y as usize), (x as usize, y as usize)),
        0 <= x <= usize::MAX,
        0 <= y <= usize::MAX,
    ensures
        ignite(o, s, x, y, k, ds) == s,
    decreases k,
{
    if k > 0 {
        lemma_ignite_alone(o, s, x, y, k - 1, ds);
        let n = step(x, y, k - 1);
        if on_board(o, n) {
            assert(n != (x, y));
            assert(o[n.0][n.1] is None);
        }
    }
}

/// One tick of a lone fire cell with `l` ticks left: it is gone on its last
/// tick, and otherwise it has risen or stayed with one tick less, or was
/// lost in rising.
proof fn lemma_lone_fire(
    l: u8,
    x: usize,
    y: usize,
    w: int,
    h: int,
    order: Seq<(usize, usize)>,
    ds: Seq<u32>,
)
    requires
        1 <= l <= 20,
        x < w <= usize::MAX,
        y < h <= usize::MAX,
        order.contains((x, y)),
    ensures
        l == 1 ==> generation(put(blank(w, h), x as int, y as int, Some(fire_with(l))), order, ds)
            == blank(w, h),
        l > 1 ==> embers(
            generation(put(blank(w, h), x as int, y as int, Some(fire_with(l))), order, ds),
            w,
            h,
            (l - 1) as u8,
        ),
{
    let c = fire_with(l);
    let o = put(blank(w, h), x as int, y as int, Some(c));
    let p = (x, y);
    assert(o[x as int][y as int] == Some(c));
    assert(alone(o, p, p));
    let s0 = start(o);
    let sp = visit(o, s0, x as int, y as int, ds);
    if l == 1 {
        assert(sp.cells =~~= blank(w, h));
    } else {
        let a = aged(c);
        let s1 = place(s0, x as int, y as int, Some(a));
        lemma_ignite_alone(o, s1, x as int, y as int, 4, ds);
        let tx = clamp(x + roll(ds, s1.next, 3) - 1, w - 1);
        let ty = clamp(y + roll(ds, drawn(s1, ds).next, 3) - 2, h - 1);
        let cleared = put(put(o, x as int, y as int, Some(a)), x as int, y as int, None);
        assert(cleared =~~= blank(w, h));
        if (tx, ty) == (x as int, y as int) {
            assert(sp.cells == put(s1.cells, x as int, y as int, None));
            assert(sp.cells =~~= blank(w, h));
        } else {
            assert(sp.cells == put(cleared, tx, ty, Some(a)));
            assert(sp.cells =~~= put(blank(w, h), tx, ty, Some(fire_with((l - 1) as u8))));
        }
    }
    lemma_run_pair(o, order, ds, p, p, sp, sp, sp);
}

/// A fire cell alone on the grid, with `l` ticks of life left, never
/// outlives them: after `n < l` ticks the grid is empty or holds one fire
/// cell with `l - n` left, and after `l` ticks or more it is empty. So a
/// fresh fire cell lives at most its catalog lifespan, however it rises.
pub proof fn law_fire_burns_out(
    l: u8,
    x: usize,
    y: usize,
    w: int,
    h: int,
    plan: Seq<(Seq<(usize, usize)>, Seq<u32>)>,
)
    requires
        1 <= l <= 20,
        x < w <= usize::MAX,
        y < h <= usize::MAX,
        plan_covers(plan, w, h),
    ensures
        plan.len() < l ==> embers(
            generations(put(blank(w, h), x as int, y as int, Some(fire_with(l))), plan),
            w,
            h,
            (l - plan.len()) as u8,
        ),
        plan.len() >= l ==> generations(
            put(blank(w, h), x as int, y as int, Some(fire_with(l))),
            plan,
        ) == blank(w, h),
    decreases plan.len(),
{
    if plan.len() == 0 {
        assert(put(blank(w, h), x as int, y as int, Some(fire_with(l))) == put(
            blank(w, h),
            x as int,
            y as int,
            Some(fire_with(l)),
        ));
    } else {
        let rest = plan.drop_last();
        assert(plan_covers(rest, w, h)) by {
            assert forall|i: int| 0 <= i < rest.len() implies covers(#[trigger] rest[i].0, w, h) by {
                assert(rest[i] == plan[i]);
            }
        }
        law_fire_burns_out(l, x, y, w, h, rest);
        let b = generations(put(blank(w, h), x as int, y as int, Some(fire_with(l))), rest);
        let t = plan.last();
        assert(covers(plan[plan.len() - 1].0, w, h));
        if b == blank(w, h) {
            lemma_blank_stays(w, h, t.0, t.1);
        } else {
            let k = (l - rest.len()) as u8;
            let (fx, fy) = choose|fx: int, fy: int|
                0 <= fx < w && 0 <= fy < h && b == #[trigger] put(
                    blank(w, h),
                    fx,
                    fy,
                    Some(fire_with(k)),
                );
            assert(t.0.contains((fx as usize, fy as usize)));
            lemma_lone_fire(k, fx as usize, fy as usize, w, h, t.0, t.1);
        }
    }
}

/// Two liquids stacked in one column, the denser above, trade places in
/// one tick that visits them, whatever the order and the draws.
pub proof fn law_denser_liquid_sinks(
    a: Cell,
    b: Cell,
    x: usize,
    y: usize,
    w: int,
    h: int,
    order: Seq<(usize, usize)>,
    ds: Seq<u32>,
)
    requires
        a.wf(),
        b.wf(),
        a.spec_material() is Liquid,
        b.spec_material() is Liquid,
        a.spec_material()->Liquid_0 > b.spec_material()->Liquid_0,
        x < w,
        y + 1 < h <= usize::MAX,
        order.contains((x, y)),
        order.contains((x, (y + 1) as usize)),
    ensures
        generation(
            put(put(blank(w, h), x as int, y as int, Some(a)), x as int, y + 1, Some(b)),
            order,
            ds,
        ) == put(put(blank(w, h), x as int, y as int, Some(b)), x as int, y + 1, Some(a)),
{
    let o = put(put(blank(w, h), x as int, y as int, Some(a)), x as int, y + 1, Some(b));
    let p = (x, y);
    let q = (x, (y + 1) as usize);
    assert(o[x as int][y as int] == Some(a));
    assert(o[x as int][y + 1] == Some(b));
    assert(alone(o, p, q));
    assert(a.life is None && b.life is None);
    let sp = visit(o, start(o), x as int, y as int, ds);
    let sq = visit(o, start(o), x as int, y + 1, ds);
    assert(sp.cells =~~= sq.cells);
    assert(sp.claimed =~~= sq.claimed);
    lemma_stage_eq(sp, sq);
    assert(sp.claimed[x as int][y as int] && sp.claimed[x as int][y + 1]);
    assert(sp.cells =~~= put(put(blank(w, h), x as int, y as int, Some(b)), x as int, y + 1, Some(a)));
    lemma_run_pair(o, order, ds, p, q, sp, sp, sp);
}

/// Acid resting on a powder or solid cell on the bottom row dissolves it:
/// after one tick that visits both, both slots are empty.
pub proof fn law_acid_dissolves_below(
    v: Cell,
    x: usize,
    w: int,
    h: int,
    order: Seq<(usize, usize)>,
    ds: Seq<u32>,
)
    requires
        v.wf(),
        v.spec_material() is Powder || v.spec_material() is Solid,
        x < w,
        2 <= h <= usize::MAX,
        order.contains((x, (h - 2) as usize)),
        order.contains((x, (h - 1) as usize)),
    ensures
        generation(
            put(put(blank(w, h), x as int, h - 2, Some(Cell::spec_fresh(CellId::Acid))), x as int, h - 1, Some(v)),
            order,
            ds,
        ) == blank(w, h),
{
    let a = Cell::spec_fresh(CellId::Acid);
    let o = put(put(blank(w, h), x as int, h - 2, Some(a)), x as int, h - 1, Some(v));
    let p = (x, (h - 2) as usize);
    let q = (x, (h - 1) as usize);
    assert(o[x as int][h - 2] == Some(a));
    assert(o[x as int][h - 1] == Some(v));
    assert(alone(o, p, q));
    let sp = visit(o, start(o), x as int, h - 2, ds);
    let sq = visit(o, start(o), x as int, h - 1, ds);
    assert(v.life is None);
    assert(sq.cells =~~= o);
    assert(sq.claimed =~~= start(o).claimed);
    lemma_stage_eq(sq, start(o));
    assert(sp.claimed[x as int][h - 2] && sp.claimed[x as int][h - 1]);
    assert(sp.cells =~~= blank(w, h));
    lemma_run_pair(o, order, ds, p, q, sp, sq, sp);
}

/// A falling cell that is neither flammable nor acid, resting on fire,
/// puts the fire out and takes its slot in one tick that visits both,
/// whichever of the two is visited first, unless the fire was on its last
/// tick anyway.
pub proof fn law_falling_cell_smothers_fire(
    c: Cell,
    f: Cell,
    x: usize,
    y: usize,
    w: int,
    h: int,
    order: Seq<(usize, usize)>,
    ds: Seq<u32>,
)
    requires
        c.wf(),
        c.spec_falls(),
        !c.spec_flammable(),
        c.spec_material() != Material::Acid,
        f.wf(),
        f.id == CellId::Fire,
        !expires(f),
        x < w,
        y + 1 < h <= usize::MAX,
        order.contains((x, y)),
        order.contains((x, (y + 1) as usize)),
    ensures
        generation(
            put(put(blank(w, h), x as int, y as int, Some(c)), x as int, y + 1, Some(f)),
            order,
            ds,
        ) == put(blank(w, h), x as int, y + 1, Some(c)),
{
    let o = put(put(blank(w, h), x as int, y as int, Some(c)), x as int, y + 1, Some(f));
    let p = (x, y);
    let q = (x, (y + 1) as usize);
    assert(o[x as int][y as int] == Some(c));
    assert(o[x as int][y + 1] == Some(f));
    assert(alone(o, p, q));
    assert(c.life is None);
    let sp = visit(o, start(o), x as int, y as int, ds);
    let sq = visit(o, start(o), x as int, y + 1, ds);
    assert(sq.cells =~~= sp.cells);
    assert(sq.claimed =~~= sp.claimed);
    lemma_stage_eq(sq, sp);
    assert(sp.claimed[x as int][y as int] && sp.claimed[x as int][y + 1]);
    assert(sp.cells =~~= put(blank(w, h), x as int, y + 1, Some(c)));
    lemma_run_pair(o, order, ds, p, q, sp, sp, sp);
}

} // verus!
