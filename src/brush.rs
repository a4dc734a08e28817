//! Brush strokes: turning cursor positions into the grid slots that a
//! stroke paints, and painting them.

use vstd::prelude::*;

use line_drawing::Bresenham;

use rand::rngs::StdRng;

use crate::cell::{Cell, CellId};
use crate::grid::{Board, Grid, put};
use crate::random::shuffle_slots;

verus! {

/// The largest coordinate that a stroke may start or end at.
pub const STROKE_LIMIT: usize = 0x2000_0000;

/// The points that `line_drawing` gives for the line from `(x0, y0)` to
/// `(x1, y1)`.
pub uninterp spec fn line_points(x0: isize, y0: isize, x1: isize, y1: isize) -> Seq<(isize, isize)>;

/// Relies on `line_drawing::Bresenham::new` and its iterator: the points of
/// the line from the start to the end, both included, the start first.
#[verifier::external_body]
fn bresenham(x0: isize, y0: isize, x1: isize, y1: isize) -> (r: Vec<(isize, isize)>)
    requires
        0 <= x0 <= STROKE_LIMIT,
        0 <= y0 <= STROKE_LIMIT,
        0 <= x1 <= STROKE_LIMIT,
        0 <= y1 <= STROKE_LIMIT,
    ensures
        r@ == line_points(x0, y0, x1, y1),
        r@.len() >= 1,
        r@[0] == (x0, y0),
        r@.last() == (x1, y1),
{
    Bresenham::new((x0, y0), (x1, y1)).collect()
}

/// The points a stroke passes through: the line from the last cursor
/// position to the current one, or the current one alone.
pub open spec fn path(last: Option<(usize, usize)>, cursor: (usize, usize)) -> Seq<(isize, isize)> {
    match last {
        Some(l) => line_points(l.0 as isize, l.1 as isize, cursor.0 as isize, cursor.1 as isize),
        None => seq![(cursor.0 as isize, cursor.1 as isize)],
    }
}

/// The points a stroke passes through, from the last cursor position, if
/// any, to the current one.
pub fn stroke_path(last: Option<(usize, usize)>, cursor: (usize, usize)) -> (r: Vec<(isize, isize)>)
    requires
        cursor.0 <= STROKE_LIMIT,
        cursor.1 <= STROKE_LIMIT,
        last matches Some(l) ==> l.0 <= STROKE_LIMIT && l.1 <= STROKE_LIMIT,
    ensures
        r@ == path(last, cursor),
        r@.len() >= 1,
        r@.last() == (cursor.0 as isize, cursor.1 as isize),
{
    match last {
        Some(l) => bresenham(l.0 as isize, l.1 as isize, cursor.0 as isize, cursor.1 as isize),
        None => {
            let r = vec![(cursor.0 as isize, cursor.1 as isize)];
            assert(r@ =~= seq![(cursor.0 as isize, cursor.1 as isize)]);
            r
        },
    }
}

/// The offset `(dx, dy)` lies in the disc of radius `r`.
pub open spec fn in_disc(dx: int, dy: int, r: int) -> bool {
    dx * dx + dy * dy <= r * r
}

/// The slot at offset `(dx, dy)` from `c`, if it lies in the disc of radius
/// `r` and on a `w` by `h` grid.
pub open spec fn tile_at(c: (isize, isize), dx: int, dy: int, r: int, w: int, h: int) -> Seq<
    (usize, usize),
> {
    let x = c.0 + dx;
    let y = c.1 + dy;
    if in_disc(dx, dy, r) && 0 <= x < w && 0 <= y < h {
        seq![(x as usize, y as usize)]
    } else {
        Seq::empty()
    }
}

/// The slots at column offset `dx` and the first `k` row offsets from `-r`.
pub open spec fn disc_column(c: (isize, isize), dx: int, r: int, k: int, w: int, h: int) -> Seq<
    (usize, usize),
>
    decreases k,
{
    if k <= 0 {
        Seq::empty()
    } else {
        disc_column(c, dx, r, k - 1, w, h) + tile_at(c, dx, -r + k - 1, r, w, h)
    }
}

/// The slots of the disc of radius `r` around `c` in the first `k` column
/// offsets from `-r`.
pub open spec fn disc(c: (isize, isize), r: int, k: int, w: int, h: int) -> Seq<(usize, usize)>
    decreases k,
{
    if k <= 0 {
        Seq::empty()
    } else {
        disc(c, r, k - 1, w, h) + disc_column(c, -r + k - 1, r, 2 * r + 1, w, h)
    }
}

/// The slots that a brush of radius `r` covers along `points`: each point's
/// disc in turn, column by column, kept to a `w` by `h` grid. A slot that
/// two discs share comes once for each.
pub open spec fn brush_tiles(points: Seq<(isize, isize)>, r: int, w: int, h: int) -> Seq<
    (usize, usize),
>
    decreases points.len(),
{
    if points.len() == 0 {
        Seq::empty()
    } else {
        brush_tiles(points.drop_last(), r, w, h) + disc(points.last(), r, 2 * r + 1, w, h)
    }
}

/// The slots that a brush of radius `radius` covers along `points` on a
/// `w` by `h` grid.
pub fn cover(points: &Vec<(isize, isize)>, radius: u16, w: usize, h: usize) -> (r: Vec<
    (usize, usize),
>)
    ensures
        r@ == brush_tiles(points@, radius as int, w as int, h as int),
{
    let mut r: Vec<(usize, usize)> = Vec::new();
    let rad = radius as i64;
    let span = 2 * rad + 1;
    let mut i: usize = 0;
    while i < points.len()
        invariant
            i <= points@.len(),
            rad == radius,
            span == 2 * rad + 1,
            r@ == brush_tiles(points@.take(i as int), rad as int, w as int, h as int),
        decreases points@.len() - i,
    {
        let c = points[i];
        let ghost before = r@;
        let mut a: i64 = 0;
        while a < span
            invariant
                0 <= a <= span,
                rad == radius,
                span == 2 * rad + 1,
                r@ == before + disc(c, rad as int, a as int, w as int, h as int),
            decreases span - a,
        {
            let dx = a - rad;
            let ghost mid = r@;
            let mut b: i64 = 0;
            while b < span
                invariant
                    0 <= b <= span,
                    0 <= a < span,
                    dx == a - rad,
                    rad == radius,
                    span == 2 * rad + 1,
                    r@ == mid + disc_column(c, dx as int, rad as int, b as int, w as int, h as int),
                decreases span - b,
            {
                let dy = b - rad;
                assert(0 <= dx * dx <= 65535 * 65535) by (nonlinear_arith)
                    requires
                        -65535 <= dx <= 65535,
                ;
                assert(0 <= dy * dy <= 65535 * 65535) by (nonlinear_arith)
                    requires
                        -65535 <= dy <= 65535,
                ;
                assert(0 <= rad * rad <= 65535 * 65535) by (nonlinear_arith)
                    requires
                        0 <= rad <= 65535,
                ;
                let x = c.0 as i128 + dx as i128;
                let y = c.1 as i128 + dy as i128;
                if dx * dx + dy * dy <= rad * rad && 0 <= x && x < w as i128 && 0 <= y && y
                    < h as i128 {
                    r.push((x as usize, y as usize));
                }
                b = b + 1;
                assert(r@ =~= mid + disc_column(c, dx as int, rad as int, b as int, w as int, h as int));
            }
            a = a + 1;
            assert(r@ =~= before + disc(c, rad as int, a as int, w as int, h as int));
        }
        assert(points@.take(i + 1).drop_last() =~= points@.take(i as int));
        i = i + 1;
        assert(r@ =~= brush_tiles(points@.take(i as int), rad as int, w as int, h as int));
    }
    assert(points@.take(i as int) =~= points@);
    r
}

/// `b` after a fresh cell of material `id` is put in each slot of `tiles`,
/// in turn, that is on the board and still empty.
pub open spec fn painted(b: Board, tiles: Seq<(usize, usize)>, id: CellId) -> Board
    decreases tiles.len(),
{
    if tiles.len() == 0 {
        b
    } else {
        let p = painted(b, tiles.drop_last(), id);
        let t = tiles.last();
        if t.0 < p.len() && t.1 < p[t.0 as int].len() && p[t.0 as int][t.1 as int] is None {
            put(p, t.0 as int, t.1 as int, Some(Cell::spec_fresh(id)))
        } else {
            p
        }
    }
}

/// Painting changes nothing where every slot of `tiles` that is on the
/// board is already occupied: a stroke over occupied slots leaves the grid
/// exactly as it was.
pub proof fn law_painting_occupied_is_a_no_op(b: Board, tiles: Seq<(usize, usize)>, id: CellId)
    requires
        forall|i: int|
            0 <= i < tiles.len() && (#[trigger] tiles[i]).0 < b.len() && tiles[i].1 < b[tiles[i].0 as int].len()
                ==> b[tiles[i].0 as int][tiles[i].1 as int] is Some,
    ensures
        painted(b, tiles, id) == b,
    decreases tiles.len(),
{
    if tiles.len() > 0 {
        let rest = tiles.drop_last();
        assert forall|i: int|
            0 <= i < rest.len() && (#[trigger] rest[i]).0 < b.len() && rest[i].1 < b[rest[i].0 as int].len()
                implies b[rest[i].0 as int][rest[i].1 as int] is Some by {
            assert(rest[i] == tiles[i]);
        }
        law_painting_occupied_is_a_no_op(b, rest, id);
        assert(tiles.last() == tiles[tiles.len() - 1]);
    }
}

/// How many of `n` covered slots a stroke paints: half, and at least one
/// when there is any.
pub open spec fn share(n: nat) -> nat {
    if n == 0 {
        0
    } else if n / 2 == 0 {
        1
    } else {
        n / 2
    }
}

/// Places a fresh cell of material `id` in each of the first `count`
/// slots of `tiles` that is on the grid and empty; occupied slots are left
/// as they are.
pub fn paint(grid: &mut Grid, tiles: &Vec<(usize, usize)>, count: usize, id: CellId)
    requires
        old(grid).wf(),
        count <= tiles@.len(),
    ensures
        final(grid).wf(),
        final(grid).width == old(grid).width,
        final(grid).height == old(grid).height,
        final(grid)@ == painted(old(grid)@, tiles@.take(count as int), id),
{
    let mut i: usize = 0;
    while i < count
        invariant
            grid.wf(),
            grid.width == old(grid).width,
            grid.height == old(grid).height,
            i <= count <= tiles@.len(),
            grid@ == painted(old(grid)@, tiles@.take(i as int), id),
        decreases count - i,
    {
        let t = tiles[i];
        let placed = grid.try_place(t.0, t.1, id);
        assert(tiles@.take(i + 1).drop_last() =~= tiles@.take(i as int));
        i = i + 1;
    }
}

/// One brush stroke of material `id` with a brush of radius `radius`: the
/// slots that the brush covers from the last cursor position, if any, to the
/// current one are shuffled with `rng`, and the first half of them (at least
/// one) are painted.
///
/// Whatever `rng` gives, the grid is painted in the first slots of some
/// reordering of the covered slots.
pub fn spray(
    grid: &mut Grid,
    last: Option<(usize, usize)>,
    cursor: (usize, usize),
    radius: u16,
    id: CellId,
    rng: &mut StdRng,
)
    requires
        old(grid).wf(),
        cursor.0 <= STROKE_LIMIT,
        cursor.1 <= STROKE_LIMIT,
        last matches Some(l) ==> l.0 <= STROKE_LIMIT && l.1 <= STROKE_LIMIT,
    ensures
        final(grid).wf(),
        final(grid).width == old(grid).width,
        final(grid).height == old(grid).height,
        exists|t: Seq<(usize, usize)>|
            t.to_multiset() == brush_tiles(
                path(last, cursor),
                radius as int,
                old(grid).width as int,
                old(grid).height as int,
            ).to_multiset() && final(grid)@ == painted(old(grid)@, t.take(share(t.len()) as int), id),
{
    let points = stroke_path(last, cursor);
    let mut tiles = cover(&points, radius, grid.width, grid.height);
    shuffle_slots(&mut tiles, rng);
    let n = tiles.len();
    let count = if n == 0 {
        0
    } else if n / 2 == 0 {
        1
    } else {
        n / 2
    };
    paint(grid, &tiles, count, id);
    assert(tiles@.to_multiset() == brush_tiles(
        path(last, cursor),
        radius as int,
        old(grid).width as int,
        old(grid).height as int,
    ).to_multiset() && grid@ == painted(old(grid)@, tiles@.take(share(tiles@.len()) as int), id));
}

/// How many brush sizes there are.
pub const BRUSH_SIZES: usize = 4;

/// The radius of brush size `index`: 0, 2, 4 or 8.
pub open spec fn spec_brush_radius(index: usize) -> u16 {
    if index == 0 {
        0
    } else if index == 1 {
        2
    } else if index == 2 {
        4
    } else {
        8
    }
}

/// The radius of brush size `index`.
pub fn brush_radius(index: usize) -> (r: u16)
    requires
        index < BRUSH_SIZES,
    ensures
        r == spec_brush_radius(index),
{
    if index == 0 {
        0
    } else if index == 1 {
        2
    } else if index == 2 {
        4
    } else {
        8
    }
}

/// The brush size after one scroll step: a step down (`delta < 0`) makes
/// it one smaller and a step up (`delta > 0`) one larger, within the sizes
/// there are.
pub fn scroll_brush(index: usize, delta: i32) -> (r: usize)
    ensures
        r == if delta < 0 && index > 0 {
            index - 1
        } else if delta > 0 && index + 1 < BRUSH_SIZES {
            index + 1
        } else {
            index as int
        },
{
    if delta < 0 && index > 0 {
        index - 1
    } else if delta > 0 && index < BRUSH_SIZES - 1 {
        index + 1
    } else {
        index
    }
}

/// The material that digit key `digit` selects: 1 to 8 pick sand, stone,
/// wood, water, oil, acid, oxygen and fire; any other key none.
pub fn key_material(digit: u8) -> (r: Option<CellId>)
    ensures
        r == match digit {
            1 => Some(CellId::Sand),
            2 => Some(CellId::Stone),
            3 => Some(CellId::Wood),
            4 => Some(CellId::Water),
            5 => Some(CellId::Oil),
            6 => Some(CellId::Acid),
            7 => Some(CellId::Oxygen),
            8 => Some(CellId::Fire),
            _ => None::<CellId>,
        },
{
    match digit {
        1 => Some(CellId::Sand),
        2 => Some(CellId::Stone),
        3 => Some(CellId::Wood),
        4 => Some(CellId::Water),
        5 => Some(CellId::Oil),
        6 => Some(CellId::Acid),
        7 => Some(CellId::Oxygen),
        8 => Some(CellId::Fire),
        _ => None,
    }
}

} // verus!
