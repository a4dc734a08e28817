//! The material catalog and the per-cell queries that the transition rules
//! branch on.

use vstd::prelude::*;

verus! {

/// The physical class that decides how a material moves.
#[derive(Debug, Clone, Copy, PartialEq, Eq, Structural)]
pub enum Material {
    Powder,
    Solid,
    /// A liquid with its density: a denser liquid sinks below a lighter one.
    Liquid(u8),
    Acid,
    Gas,
    Fire,
    Wind,
}

/// The immutable profile of one material.
#[derive(Debug, Clone, Copy)]
pub struct CellData {
    pub material: Material,
    pub flammable: bool,
    /// Ticks that a freshly made cell of this material lives, if it decays.
    pub lifespan: Option<u8>,
    pub color: [u8; 3],
}

/// The closed set of materials that a cell can be made of.
#[derive(Debug, Clone, Copy, PartialEq, Eq, Structural)]
pub enum CellId {
    Sand,
    Stone,
    Wood,
    Water,
    Oil,
    Acid,
    Oxygen,
    Fire,
    Wind,
}

impl CellId {
    /// The catalog entry of this material.
    pub open spec fn profile(self) -> CellData {
        match self {
            CellId::Sand => CellData {
                material: Material::Powder,
                flammable: false,
                lifespan: None,
                color: [194, 178, 128],
            },
            CellId::Stone => CellData {
                material: Material::Solid,
                flammable: false,
                lifespan: None,
                color: [83, 86, 91],
            },
            CellId::Wood => CellData {
                material: Material::Solid,
                flammable: true,
                lifespan: None,
                color: [164, 116, 73],
            },
            CellId::Water => CellData {
                material: Material::Liquid(2),
                flammable: false,
                lifespan: None,
                color: [30, 144, 255],
            },
            CellId::Oil => CellData {
                material: Material::Liquid(1),
                flammable: true,
                lifespan: None,
                color: [59, 49, 49],
            },
            CellId::Acid => CellData {
                material: Material::Acid,
                flammable: false,
                lifespan: None,
                color: [176, 191, 26],
            },
            CellId::Oxygen => CellData {
                material: Material::Gas,
                flammable: true,
                lifespan: None,
                color: [187, 198, 213],
            },
            CellId::Fire => CellData {
                material: Material::Fire,
                flammable: false,
                lifespan: Some(20),
                color: [226, 88, 34],
            },
            CellId::Wind => CellData {
                material: Material::Wind,
                flammable: false,
                lifespan: Some(50),
                color: [255, 255, 255],
            },
        }
    }

    /// Looks up the catalog entry of this material.
    pub fn data(&self) -> (d: CellData)
        ensures
            d == self.profile(),
    {
        match self {
            CellId::Sand => CellData {
                material: Material::Powder,
                flammable: false,
                lifespan: None,
                color: [194, 178, 128],
            },
            CellId::Stone => CellData {
                material: Material::Solid,
                flammable: false,
                lifespan: None,
                color: [83, 86, 91],
            },
            CellId::Wood => CellData {
                material: Material::Solid,
                flammable: true,
                lifespan: None,
                color: [164, 116, 73],
            },
            CellId::Water => CellData {
                material: Material::Liquid(2),
                flammable: false,
                lifespan: None,
                color: [30, 144, 255],
            },
            CellId::Oil => CellData {
                material: Material::Liquid(1),
                flammable: true,
                lifespan: None,
                color: [59, 49, 49],
            },
            CellId::Acid => CellData {
                material: Material::Acid,
                flammable: false,
                lifespan: None,
                color: [176, 191, 26],
            },
            CellId::Oxygen => CellData {
                material: Material::Gas,
                flammable: true,
                lifespan: None,
                color: [187, 198, 213],
            },
            CellId::Fire => CellData {
                material: Material::Fire,
                flammable: false,
                lifespan: Some(20),
                color: [226, 88, 34],
            },
            CellId::Wind => CellData {
                material: Material::Wind,
                flammable: false,
                lifespan: Some(50),
                color: [255, 255, 255],
            },
        }
    }
}

/// One occupied slot of the grid: what it is made of and, for a material
/// that decays, how many ticks it has left.
#[derive(Debug, Clone, Copy, PartialEq, Eq, Structural)]
pub struct Cell {
    pub id: CellId,
    pub life: Option<u8>,
}

impl Cell {
    /// A fresh cell of the given material, with the catalog lifespan.
    pub open spec fn spec_fresh(id: CellId) -> Cell {
        Cell { id, life: id.profile().lifespan }
    }

    /// A cell as the catalog makes it: a decaying material carries its
    /// remaining life, between one and its catalog lifespan; any other
    /// carries none.
    pub open spec fn wf(self) -> bool {
        match self.id.profile().lifespan {
            Some(n) => self.life is Some && 1 <= self.life->Some_0 <= n,
            None => self.life is None,
        }
    }

    pub open spec fn spec_material(&self) -> Material {
        self.id.profile().material
    }

    pub open spec fn spec_flammable(&self) -> bool {
        self.id.profile().flammable
    }

    pub open spec fn spec_falls(&self) -> bool {
        match self.spec_material() {
            Material::Powder | Material::Solid | Material::Liquid(_) | Material::Acid => true,
            Material::Gas | Material::Fire | Material::Wind => false,
        }
    }

    pub open spec fn spec_slides(&self) -> bool {
        match self.spec_material() {
            Material::Powder | Material::Liquid(_) | Material::Acid => true,
            Material::Solid | Material::Gas | Material::Fire | Material::Wind => false,
        }
    }

    /// Open space, or a class that this cell displaces downward.
    pub open spec fn spec_sinks_under(&self, other: Option<Cell>) -> bool {
        match other {
            None => true,
            Some(o) => match (self.spec_material(), o.spec_material()) {
                (Material::Powder, Material::Liquid(_)) => true,
                (Material::Solid, Material::Liquid(_)) => true,
                (Material::Liquid(a), Material::Liquid(b)) => a > b,
                (Material::Powder, Material::Gas) => true,
                (Material::Solid, Material::Gas) => true,
                _ => false,
            },
        }
    }

    /// Acid against an occupied slot of any other material.
    pub open spec fn spec_dissolves(&self, other: Option<Cell>) -> bool {
        self.spec_material() == Material::Acid && match other {
            None => false,
            Some(o) => o.spec_material() != Material::Acid,
        }
    }

    /// A fresh cell of the given material, with the catalog lifespan.
    pub fn fresh(id: CellId) -> (c: Cell)
        ensures
            c == Cell::spec_fresh(id),
            c.wf(),
    {
        Cell { id, life: id.data().lifespan }
    }

    #[verifier::when_used_as_spec(spec_material)]
    pub fn material(&self) -> (m: Material)
        ensures
            m == self.id.profile().material,
    {
        self.id.data().material
    }

    #[verifier::when_used_as_spec(spec_flammable)]
    pub fn flammable(&self) -> (b: bool)
        ensures
            b == self.id.profile().flammable,
    {
        self.id.data().flammable
    }

    pub fn lifespan(&self) -> (l: Option<u8>)
        ensures
            l == self.id.profile().lifespan,
    {
        self.id.data().lifespan
    }

    pub fn color(&self) -> (rgb: [u8; 3])
        ensures
            rgb == self.id.profile().color,
    {
        self.id.data().color
    }

    /// Powders, solids, liquids and acid fall; gas, fire and wind do not.
    #[verifier::when_used_as_spec(spec_falls)]
    pub fn falls(&self) -> (b: bool)
        ensures
            b == self.spec_falls(),
    {
        match self.material() {
            Material::Powder | Material::Solid | Material::Liquid(_) | Material::Acid => true,
            Material::Gas | Material::Fire | Material::Wind => false,
        }
    }

    /// Powders, liquids and acid slide down slopes.
    #[verifier::when_used_as_spec(spec_slides)]
    pub fn slides(&self) -> (b: bool)
        ensures
            b == self.spec_slides(),
    {
        match self.material() {
            Material::Powder | Material::Liquid(_) | Material::Acid => true,
            Material::Solid | Material::Gas | Material::Fire | Material::Wind => false,
        }
    }

    /// Whether this cell may take the place of `other` from above: true for
    /// open space, for a powder or solid over a liquid or gas, and for a
    /// denser liquid over a lighter one.
    #[verifier::when_used_as_spec(spec_sinks_under)]
    pub fn sinks_under(&self, other: Option<Cell>) -> (b: bool)
        ensures
            b == self.spec_sinks_under(other),
    {
        match other {
            Some(other) => match (self.material(), other.material()) {
                (Material::Powder, Material::Liquid(_)) => true,
                (Material::Solid, Material::Liquid(_)) => true,
                (Material::Liquid(a), Material::Liquid(b)) => a > b,
                (Material::Powder, Material::Gas) => true,
                (Material::Solid, Material::Gas) => true,
                _ => false,
            },
            None => true,
        }
    }

    /// Whether this cell is acid and `other` holds a material that is not.
    #[verifier::when_used_as_spec(spec_dissolves)]
    pub fn dissolves(&self, other: Option<Cell>) -> (b: bool)
        ensures
            b == self.spec_dissolves(other),
    {
        match (self.material(), other) {
            (Material::Acid, Some(o)) => match o.material() {
                Material::Acid => false,
                _ => true,
            },
            _ => false,
        }
    }
}

} // verus!
