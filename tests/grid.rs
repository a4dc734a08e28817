use falling_sand::cell::{Cell, CellId};
use falling_sand::grid::{BoundsError, Grid};

#[test]
fn new_grid_is_empty() {
    let g = Grid::new(4, 3);
    assert_eq!(g.width(), 4);
    assert_eq!(g.height(), 3);
    for x in 0..4 {
        for y in 0..3 {
            assert_eq!(g.get(x, y), Ok(None));
        }
    }
    assert!(g.occupied().is_empty());
}

#[test]
fn out_of_bounds_is_rejected() {
    let mut g = Grid::new(4, 3);
    assert_eq!(g.get(4, 0), Err(BoundsError { x: 4, y: 0 }));
    assert_eq!(g.get(0, 3), Err(BoundsError { x: 0, y: 3 }));
    assert_eq!(g.set(9, 9, Some(Cell::fresh(CellId::Sand))), Err(BoundsError { x: 9, y: 9 }));
    assert_eq!(g.try_place(4, 2, CellId::Sand), Err(BoundsError { x: 4, y: 2 }));
    assert!(g.occupied().is_empty());
}

#[test]
fn set_and_get() {
    let mut g = Grid::new(2, 2);
    let c = Cell { id: CellId::Fire, life: Some(3) };
    assert_eq!(g.set(1, 0, Some(c)), Ok(()));
    assert_eq!(g.get(1, 0), Ok(Some(c)));
    assert_eq!(g.set(1, 0, None), Ok(()));
    assert_eq!(g.get(1, 0), Ok(None));
}

#[test]
fn placement_on_empty_slot() {
    let mut g = Grid::new(3, 3);
    assert_eq!(g.try_place(2, 1, CellId::Fire), Ok(true));
    assert_eq!(g.get(2, 1), Ok(Some(Cell { id: CellId::Fire, life: Some(20) })));
    assert_eq!(g.try_place(0, 0, CellId::Sand), Ok(true));
    assert_eq!(g.get(0, 0), Ok(Some(Cell { id: CellId::Sand, life: None })));
}

#[test]
fn placement_on_occupied_slot_changes_nothing() {
    let mut g = Grid::new(3, 3);
    assert_eq!(g.try_place(1, 1, CellId::Water), Ok(true));
    let before = g.cells.clone();
    assert_eq!(g.try_place(1, 1, CellId::Stone), Ok(false));
    assert_eq!(g.try_place(1, 1, CellId::Water), Ok(false));
    assert_eq!(g.cells, before);
    assert_eq!(g.get(1, 1), Ok(Some(Cell { id: CellId::Water, life: None })));
}

#[test]
fn occupied_lists_column_by_column() {
    let mut g = Grid::new(3, 3);
    g.try_place(2, 0, CellId::Stone).unwrap();
    g.try_place(0, 2, CellId::Water).unwrap();
    g.try_place(0, 1, CellId::Sand).unwrap();
    assert_eq!(
        g.occupied(),
        vec![
            (0, 1, CellId::Sand, [194, 178, 128]),
            (0, 2, CellId::Water, [30, 144, 255]),
            (2, 0, CellId::Stone, [83, 86, 91]),
        ]
    );
}
