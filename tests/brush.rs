use falling_sand::brush::{brush_radius, cover, key_material, paint, scroll_brush, spray, stroke_path};
use falling_sand::cell::{Cell, CellId};
use falling_sand::grid::Grid;
use rand::rngs::StdRng;
use rand::SeedableRng;

#[test]
fn stroke_follows_the_line() {
    assert_eq!(
        stroke_path(Some((0, 0)), (5, 6)),
        vec![(0, 0), (0, 1), (1, 2), (2, 3), (3, 4), (4, 5), (5, 6)]
    );
    assert_eq!(stroke_path(None, (4, 2)), vec![(4, 2)]);
    assert_eq!(stroke_path(Some((3, 3)), (3, 3)), vec![(3, 3)]);
}

#[test]
fn cover_single_point() {
    assert_eq!(cover(&vec![(3, 4)], 0, 10, 10), vec![(3, 4)]);
}

#[test]
fn cover_is_a_disc() {
    let tiles = cover(&vec![(5, 5)], 2, 10, 10);
    assert_eq!(tiles.len(), 13);
    assert_eq!(tiles[0], (3, 5));
    assert!(tiles.contains(&(5, 3)));
    assert!(tiles.contains(&(4, 4)));
    assert!(!tiles.contains(&(3, 4)));
}

#[test]
fn cover_is_clipped_to_the_grid() {
    assert_eq!(
        cover(&vec![(0, 0)], 2, 10, 10),
        vec![(0, 0), (0, 1), (0, 2), (1, 0), (1, 1), (2, 0)]
    );
}

#[test]
fn paint_skips_occupied_slots() {
    let mut g = Grid::new(4, 4);
    g.try_place(1, 1, CellId::Stone).unwrap();
    paint(&mut g, &vec![(1, 1), (2, 2), (9, 9), (3, 3)], 3, CellId::Sand);
    assert_eq!(g.get(1, 1), Ok(Some(Cell::fresh(CellId::Stone))));
    assert_eq!(g.get(2, 2), Ok(Some(Cell::fresh(CellId::Sand))));
    assert_eq!(g.get(3, 3), Ok(None));
    assert_eq!(g.occupied().len(), 2);
}

#[test]
fn spray_paints_half_of_a_shuffled_disc() {
    let mut g = Grid::new(20, 20);
    let mut rng = StdRng::seed_from_u64(7);
    spray(&mut g, None, (10, 10), 2, CellId::Water, &mut rng);
    let placed: Vec<(usize, usize)> = g.occupied().iter().map(|e| (e.0, e.1)).collect();
    assert_eq!(placed.len(), 6);
    let disc = cover(&vec![(10, 10)], 2, 20, 20);
    for p in &placed {
        assert!(disc.contains(p));
    }
    let mut first: Vec<(usize, usize)> = disc[..6].to_vec();
    first.sort();
    assert_ne!(placed, first);
}

#[test]
fn spray_with_a_point_brush_paints_one() {
    let mut g = Grid::new(5, 5);
    let mut rng = StdRng::seed_from_u64(1);
    spray(&mut g, None, (2, 2), 0, CellId::Sand, &mut rng);
    assert_eq!(g.occupied(), vec![(2, 2, CellId::Sand, [194, 178, 128])]);
}

#[test]
fn brush_sizes() {
    assert_eq!(brush_radius(0), 0);
    assert_eq!(brush_radius(1), 2);
    assert_eq!(brush_radius(2), 4);
    assert_eq!(brush_radius(3), 8);
    assert_eq!(scroll_brush(1, -1), 0);
    assert_eq!(scroll_brush(0, -1), 0);
    assert_eq!(scroll_brush(1, 1), 2);
    assert_eq!(scroll_brush(3, 1), 3);
    assert_eq!(scroll_brush(2, 0), 2);
}

#[test]
fn digit_keys_select_materials() {
    assert_eq!(key_material(1), Some(CellId::Sand));
    assert_eq!(key_material(6), Some(CellId::Acid));
    assert_eq!(key_material(8), Some(CellId::Fire));
    assert_eq!(key_material(0), None);
    assert_eq!(key_material(9), None);
}

#[test]
fn stroke_over_occupied_slots_changes_nothing() {
    let mut g = Grid::new(5, 5);
    for x in 1..4 {
        for y in 1..4 {
            g.try_place(x, y, CellId::Stone).unwrap();
        }
    }
    let before = g.cells.clone();
    let mut rng = StdRng::seed_from_u64(2);
    spray(&mut g, None, (2, 2), 1, CellId::Sand, &mut rng);
    assert_eq!(g.cells, before);
}
