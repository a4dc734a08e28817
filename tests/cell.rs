use falling_sand::cell::{Cell, CellId, Material};

fn cell(id: CellId) -> Cell {
    Cell::fresh(id)
}

#[test]
fn catalog_entries() {
    let sand = CellId::Sand.data();
    assert_eq!(sand.material, Material::Powder);
    assert!(!sand.flammable);
    assert_eq!(sand.lifespan, None);
    assert_eq!(sand.color, [194, 178, 128]);
    assert_eq!(CellId::Water.data().material, Material::Liquid(2));
    assert_eq!(CellId::Oil.data().material, Material::Liquid(1));
    assert!(CellId::Oil.data().flammable);
    assert!(CellId::Wood.data().flammable);
    assert!(CellId::Oxygen.data().flammable);
    assert_eq!(CellId::Fire.data().lifespan, Some(20));
    assert_eq!(CellId::Wind.data().lifespan, Some(50));
    assert_eq!(CellId::Acid.data().color, [176, 191, 26]);
}

#[test]
fn fresh_cells_carry_catalog_lifespan() {
    assert_eq!(cell(CellId::Fire).life, Some(20));
    assert_eq!(cell(CellId::Wind).life, Some(50));
    assert_eq!(cell(CellId::Stone).life, None);
    assert_eq!(cell(CellId::Fire).lifespan(), Some(20));
    assert_eq!(cell(CellId::Fire).color(), [226, 88, 34]);
    assert_eq!(cell(CellId::Stone).material(), Material::Solid);
    assert!(!cell(CellId::Water).flammable());
}

#[test]
fn falling_and_sliding_classes() {
    for id in [CellId::Sand, CellId::Stone, CellId::Wood, CellId::Water, CellId::Oil, CellId::Acid] {
        assert!(cell(id).falls());
    }
    for id in [CellId::Oxygen, CellId::Fire, CellId::Wind] {
        assert!(!cell(id).falls());
    }
    assert!(cell(CellId::Sand).slides());
    assert!(cell(CellId::Water).slides());
    assert!(cell(CellId::Acid).slides());
    assert!(!cell(CellId::Stone).slides());
    assert!(!cell(CellId::Oxygen).slides());
    assert!(!cell(CellId::Fire).slides());
}

#[test]
fn sinking_order() {
    let sand = cell(CellId::Sand);
    let stone = cell(CellId::Stone);
    let water = cell(CellId::Water);
    let oil = cell(CellId::Oil);
    let gas = cell(CellId::Oxygen);
    let fire = cell(CellId::Fire);
    assert!(sand.sinks_under(None));
    assert!(gas.sinks_under(None));
    assert!(sand.sinks_under(Some(water)));
    assert!(stone.sinks_under(Some(oil)));
    assert!(sand.sinks_under(Some(gas)));
    assert!(!water.sinks_under(Some(gas)));
    assert!(!oil.sinks_under(Some(gas)));
    assert!(water.sinks_under(Some(oil)));
    assert!(!oil.sinks_under(Some(water)));
    assert!(!water.sinks_under(Some(water)));
    assert!(!sand.sinks_under(Some(stone)));
    assert!(!sand.sinks_under(Some(fire)));
    assert!(!gas.sinks_under(Some(water)));
}

#[test]
fn acid_dissolves_other_materials_only() {
    let acid = cell(CellId::Acid);
    assert!(acid.dissolves(Some(cell(CellId::Stone))));
    assert!(acid.dissolves(Some(cell(CellId::Water))));
    assert!(acid.dissolves(Some(cell(CellId::Fire))));
    assert!(!acid.dissolves(Some(acid)));
    assert!(!acid.dissolves(None));
    assert!(!cell(CellId::Water).dissolves(Some(cell(CellId::Stone))));
}
