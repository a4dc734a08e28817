use falling_sand::cell::{Cell, CellId};
use falling_sand::grid::Grid;
use rand::rngs::StdRng;
use rand::SeedableRng;

fn fresh(id: CellId) -> Option<Cell> {
    Some(Cell::fresh(id))
}

fn every_slot(g: &Grid) -> Vec<(usize, usize)> {
    let mut v = Vec::new();
    for x in 0..g.width() {
        for y in 0..g.height() {
            v.push((x, y));
        }
    }
    v
}

fn count(g: &Grid, id: CellId) -> usize {
    g.occupied().iter().filter(|e| e.2 == id).count()
}

#[test]
fn lone_sand_falls_one_row() {
    let mut g = Grid::new(3, 4);
    g.try_place(1, 0, CellId::Sand).unwrap();
    let n = g.advance(&every_slot(&g), &vec![]);
    assert_eq!(n.occupied(), vec![(1, 1, CellId::Sand, [194, 178, 128])]);
}

#[test]
fn sand_reaches_bottom_within_height_minus_one_ticks() {
    let mut g = Grid::new(5, 6);
    g.try_place(2, 0, CellId::Sand).unwrap();
    let mut rng = StdRng::seed_from_u64(11);
    for k in 1..6 {
        g = g.tick(&mut rng);
        assert_eq!(g.occupied(), vec![(2, k, CellId::Sand, [194, 178, 128])]);
    }
    g = g.tick(&mut rng);
    assert_eq!(g.occupied(), vec![(2, 5, CellId::Sand, [194, 178, 128])]);
}

#[test]
fn denser_liquid_above_sinks() {
    for order in [vec![(0, 0), (0, 1)], vec![(0, 1), (0, 0)]] {
        let mut g = Grid::new(1, 2);
        g.try_place(0, 0, CellId::Water).unwrap();
        g.try_place(0, 1, CellId::Oil).unwrap();
        let n = g.advance(&order, &vec![]);
        assert_eq!(n.get(0, 0), Ok(fresh(CellId::Oil)));
        assert_eq!(n.get(0, 1), Ok(fresh(CellId::Water)));
    }
}

#[test]
fn acid_dissolves_cell_below() {
    for victim in [CellId::Stone, CellId::Wood, CellId::Sand] {
        let mut g = Grid::new(3, 3);
        g.try_place(1, 1, CellId::Acid).unwrap();
        g.try_place(1, 2, victim).unwrap();
        let mut rng = StdRng::seed_from_u64(3);
        let n = g.tick(&mut rng);
        assert!(n.occupied().is_empty());
    }
}

#[test]
fn acid_on_acid_stays() {
    let mut g = Grid::new(1, 2);
    g.try_place(0, 0, CellId::Acid).unwrap();
    g.try_place(0, 1, CellId::Acid).unwrap();
    let mut rng = StdRng::seed_from_u64(5);
    let n = g.tick(&mut rng);
    assert_eq!(count(&n, CellId::Acid), 2);
}

#[test]
fn acid_on_acid_slides_aside() {
    let mut g = Grid::new(3, 2);
    g.try_place(1, 0, CellId::Acid).unwrap();
    g.try_place(1, 1, CellId::Acid).unwrap();
    let n = g.advance(&vec![(1, 0), (1, 1)], &vec![1]);
    assert_eq!(n.get(2, 1), Ok(fresh(CellId::Acid)));
    assert_eq!(n.get(0, 1), Ok(fresh(CellId::Acid)));
    assert_eq!(count(&n, CellId::Acid), 2);
}

#[test]
fn fire_burns_out_after_its_lifespan() {
    for seed in 0..8u64 {
        let mut g = Grid::new(5, 8);
        g.try_place(2, 7, CellId::Fire).unwrap();
        let mut rng = StdRng::seed_from_u64(seed);
        for k in 1..20u8 {
            g = g.tick(&mut rng);
            let left = g.occupied();
            assert!(left.len() <= 1);
            for (x, y, id, _) in left {
                assert_eq!(id, CellId::Fire);
                assert_eq!(g.get(x, y), Ok(Some(Cell { id: CellId::Fire, life: Some(20 - k) })));
            }
        }
        g = g.tick(&mut rng);
        assert!(g.occupied().is_empty());
    }
}

#[test]
fn fire_on_the_bottom_row_rises() {
    let mut g = Grid::new(3, 3);
    g.try_place(1, 2, CellId::Fire).unwrap();
    let n = g.advance(&vec![(1, 2)], &vec![2, 0]);
    assert_eq!(n.occupied().len(), 1);
    assert_eq!(n.get(2, 0), Ok(Some(Cell { id: CellId::Fire, life: Some(19) })));
}

#[test]
fn stone_smothers_fire_off_the_bottom_row() {
    for order in [vec![(0, 0), (0, 1)], vec![(0, 1), (0, 0)]] {
        for draws in [vec![], vec![1, 1], vec![0, 2, 5, 7]] {
            let mut g = Grid::new(1, 3);
            g.try_place(0, 0, CellId::Stone).unwrap();
            g.try_place(0, 1, CellId::Fire).unwrap();
            let n = g.advance(&order, &draws);
            assert_eq!(n.occupied(), vec![(0, 1, CellId::Stone, [83, 86, 91])]);
        }
    }
}

#[test]
fn stone_smothers_fire_in_a_ticked_grid() {
    for seed in 0..6u64 {
        let mut g = Grid::new(20, 20);
        g.try_place(10, 10, CellId::Stone).unwrap();
        g.try_place(10, 11, CellId::Fire).unwrap();
        let mut rng = StdRng::seed_from_u64(seed);
        let n = g.tick(&mut rng);
        assert_eq!(n.occupied(), vec![(10, 11, CellId::Stone, [83, 86, 91])]);
    }
}

#[test]
fn acid_falling_on_fire_dissolves_both() {
    for order in [vec![(0, 0), (0, 1)], vec![(0, 1), (0, 0)]] {
        let mut g = Grid::new(1, 3);
        g.try_place(0, 0, CellId::Acid).unwrap();
        g.try_place(0, 1, CellId::Fire).unwrap();
        let n = g.advance(&order, &vec![]);
        assert!(n.occupied().is_empty());
    }
}

#[test]
fn water_spreads_along_the_bottom_row() {
    let mut g = Grid::new(3, 1);
    g.try_place(1, 0, CellId::Water).unwrap();
    let n = g.advance(&vec![(1, 0)], &vec![0]);
    assert_eq!(n.occupied(), vec![(0, 0, CellId::Water, [30, 144, 255])]);
}

#[test]
fn gas_diffuses_on_the_bottom_row() {
    let mut g = Grid::new(3, 1);
    g.try_place(1, 0, CellId::Oxygen).unwrap();
    let n = g.advance(&vec![(1, 0)], &vec![2, 1]);
    assert_eq!(n.occupied(), vec![(2, 0, CellId::Oxygen, [187, 198, 213])]);
}

#[test]
fn water_does_not_sink_into_gas() {
    let mut g = Grid::new(1, 2);
    g.try_place(0, 0, CellId::Water).unwrap();
    g.try_place(0, 1, CellId::Oxygen).unwrap();
    let n = g.advance(&vec![(0, 0)], &vec![]);
    assert_eq!(n.get(0, 0), Ok(fresh(CellId::Water)));
    assert_eq!(n.get(0, 1), Ok(fresh(CellId::Oxygen)));
}

#[test]
fn a_grid_without_fire_stays_without_fire() {
    let mut g = Grid::new(12, 12);
    let ids = [CellId::Sand, CellId::Wood, CellId::Water, CellId::Oil, CellId::Acid, CellId::Oxygen, CellId::Wind];
    for x in 0..12 {
        for y in 0..12 {
            if (x + 2 * y) % 3 != 0 {
                g.try_place(x, y, ids[(x * 3 + y) % 7]).unwrap();
            }
        }
    }
    let mut rng = StdRng::seed_from_u64(8);
    for _ in 0..10 {
        let n = g.tick(&mut rng);
        assert_eq!(count(&n, CellId::Fire), 0);
        for id in ids {
            assert!(count(&n, id) <= count(&g, id));
        }
        g = n;
    }
}

#[test]
fn a_calm_grid_keeps_every_count() {
    let mut g = Grid::new(12, 12);
    let ids = [CellId::Sand, CellId::Stone, CellId::Wood, CellId::Water, CellId::Oil, CellId::Oxygen];
    for x in 0..12 {
        for y in 0..12 {
            if (x * 5 + y) % 3 != 0 {
                g.try_place(x, y, ids[(x + y * 7) % 6]).unwrap();
            }
        }
    }
    let mut rng = StdRng::seed_from_u64(21);
    for _ in 0..10 {
        let n = g.tick(&mut rng);
        for id in ids {
            assert_eq!(count(&n, id), count(&g, id));
        }
        g = n;
    }
}

#[test]
fn a_grid_of_acid_keeps_its_acid() {
    let mut g = Grid::new(6, 6);
    for x in 0..6 {
        for y in 3..6 {
            g.try_place(x, y, CellId::Acid).unwrap();
        }
    }
    g.try_place(2, 0, CellId::Acid).unwrap();
    let mut rng = StdRng::seed_from_u64(4);
    for _ in 0..8 {
        g = g.tick(&mut rng);
        assert_eq!(count(&g, CellId::Acid), 19);
    }
}

#[test]
fn stone_falling_on_fire_puts_it_out() {
    for order in [vec![(0, 0), (0, 1)], vec![(0, 1), (0, 0)]] {
        // on the bottom row
        let mut g = Grid::new(1, 2);
        g.try_place(0, 0, CellId::Stone).unwrap();
        g.try_place(0, 1, CellId::Fire).unwrap();
        let n = g.advance(&order, &vec![]);
        assert_eq!(n.get(0, 0), Ok(None));
        assert_eq!(n.get(0, 1), Ok(fresh(CellId::Stone)));
    }
}

#[test]
fn flammable_cell_falling_on_fire_is_lost() {
    let mut g = Grid::new(1, 2);
    g.try_place(0, 0, CellId::Wood).unwrap();
    g.try_place(0, 1, CellId::Fire).unwrap();
    let n = g.advance(&vec![(0, 0)], &vec![]);
    assert_eq!(n.get(0, 0), Ok(None));
    assert_eq!(n.get(0, 1), Ok(fresh(CellId::Fire)));
}

#[test]
fn sand_slides_to_the_drawn_side() {
    for (draw, side) in [(0u32, 0usize), (1, 2)] {
        let mut g = Grid::new(3, 2);
        g.try_place(1, 0, CellId::Sand).unwrap();
        g.try_place(1, 1, CellId::Stone).unwrap();
        let n = g.advance(&vec![(1, 0)], &vec![draw]);
        assert_eq!(n.get(side, 1), Ok(fresh(CellId::Sand)));
        assert_eq!(n.get(1, 0), Ok(None));
    }
}

#[test]
fn water_fills_gap_beside() {
    let mut g = Grid::new(3, 2);
    g.try_place(1, 0, CellId::Water).unwrap();
    for x in 0..3 {
        g.try_place(x, 1, CellId::Stone).unwrap();
    }
    let n = g.advance(&every_slot(&g), &vec![0]);
    assert_eq!(n.get(0, 0), Ok(fresh(CellId::Water)));
    assert_eq!(n.get(1, 0), Ok(None));
    let m = g.advance(&every_slot(&g), &vec![1]);
    assert_eq!(m.get(2, 0), Ok(fresh(CellId::Water)));
}

#[test]
fn gas_moves_by_drawn_offsets() {
    let mut g = Grid::new(3, 3);
    g.try_place(1, 1, CellId::Oxygen).unwrap();
    let n = g.advance(&vec![(1, 1)], &vec![2, 0]);
    assert_eq!(n.occupied(), vec![(2, 0, CellId::Oxygen, [187, 198, 213])]);
    let m = g.advance(&vec![(1, 1)], &vec![1, 1]);
    assert_eq!(m.get(1, 1), Ok(fresh(CellId::Oxygen)));
}

#[test]
fn wind_drifts_sideways() {
    let mut g = Grid::new(3, 3);
    g.try_place(1, 1, CellId::Wind).unwrap();
    let n = g.advance(&vec![(1, 1)], &vec![0]);
    assert_eq!(n.occupied().len(), 1);
    assert_eq!(n.get(0, 1), Ok(Some(Cell { id: CellId::Wind, life: Some(49) })));
}

#[test]
fn fire_spreads_and_rises() {
    let mut g = Grid::new(3, 3);
    g.try_place(1, 1, CellId::Fire).unwrap();
    g.try_place(2, 1, CellId::Wood).unwrap();
    let n = g.advance(&vec![(1, 1)], &vec![1, 5, 1, 1]);
    assert_eq!(n.get(1, 0), Ok(Some(Cell { id: CellId::Fire, life: Some(19) })));
    assert_eq!(n.get(2, 2), Ok(fresh(CellId::Fire)));
    assert_eq!(n.get(2, 1), Ok(fresh(CellId::Fire)));
    assert_eq!(n.get(1, 1), Ok(None));
    assert_eq!(n.occupied().len(), 3);
}

#[test]
fn fire_spares_neighbour_on_a_high_draw() {
    let mut g = Grid::new(3, 3);
    g.try_place(1, 1, CellId::Fire).unwrap();
    g.try_place(2, 1, CellId::Wood).unwrap();
    let n = g.advance(&vec![(1, 1)], &vec![0, 50, 1, 1]);
    assert_eq!(n.get(2, 1), Ok(fresh(CellId::Wood)));
    assert_eq!(n.get(2, 0), Ok(fresh(CellId::Fire)));
}

#[test]
fn fire_rising_onto_its_own_slot_is_lost() {
    let mut g = Grid::new(3, 3);
    g.try_place(1, 1, CellId::Fire).unwrap();
    let n = g.advance(&vec![(1, 1)], &vec![1, 2]);
    assert!(n.occupied().is_empty());
}

#[test]
fn unvisited_cells_persist() {
    let mut g = Grid::new(3, 3);
    g.try_place(1, 0, CellId::Sand).unwrap();
    let n = g.advance(&vec![], &vec![]);
    assert_eq!(n.cells, g.cells);
}

#[test]
fn ticks_create_nothing_but_fire() {
    let mut g = Grid::new(16, 12);
    let ids = [
        CellId::Sand,
        CellId::Stone,
        CellId::Wood,
        CellId::Water,
        CellId::Oil,
        CellId::Acid,
        CellId::Oxygen,
        CellId::Fire,
        CellId::Wind,
    ];
    for x in 0..16 {
        for y in 0..12 {
            if (x * 7 + y * 3) % 4 != 0 {
                g.try_place(x, y, ids[(x * 5 + y * 11) % 9]).unwrap();
            }
        }
    }
    let mut rng = StdRng::seed_from_u64(42);
    for _ in 0..10 {
        let n = g.tick(&mut rng);
        for id in ids {
            if id != CellId::Fire {
                assert!(count(&n, id) <= count(&g, id));
            }
        }
        assert_eq!(n.width(), 16);
        assert_eq!(n.height(), 12);
        g = n;
    }
}

#[test]
fn same_seed_gives_same_generation() {
    let mut g = Grid::new(12, 10);
    for x in 0..12 {
        g.try_place(x, (x * 3) % 10, [CellId::Sand, CellId::Water, CellId::Oxygen, CellId::Fire][x % 4]).unwrap();
    }
    let mut a = StdRng::seed_from_u64(77);
    let mut b = StdRng::seed_from_u64(77);
    let mut ga = g.tick(&mut a);
    let mut gb = g.tick(&mut b);
    for _ in 0..5 {
        ga = ga.tick(&mut a);
        gb = gb.tick(&mut b);
    }
    assert_eq!(ga.cells, gb.cells);
    let order = every_slot(&g);
    let draws: Vec<u32> = (0..200).map(|i| i * 2654435761u32.wrapping_mul(i)).collect();
    assert_eq!(g.advance(&order, &draws).cells, g.advance(&order, &draws).cells);
}

#[test]
fn sand_over_a_gap_falls_straight_in_a_crowded_grid() {
    for seed in 0..6u64 {
        let mut g = Grid::new(7, 6);
        for x in 0..7 {
            g.try_place(x, 5, CellId::Stone).unwrap();
            g.try_place(x, 0, CellId::Water).unwrap();
        }
        for x in [1, 2, 4, 5] {
            g.try_place(x, 2, CellId::Sand).unwrap();
            g.try_place(x, 3, CellId::Wood).unwrap();
        }
        g.try_place(3, 2, CellId::Sand).unwrap();
        g.try_place(3, 1, CellId::Sand).unwrap();
        let mut rng = StdRng::seed_from_u64(seed);
        let n = g.tick(&mut rng);
        assert_eq!(n.get(3, 3), Ok(fresh(CellId::Sand)));
    }
}
