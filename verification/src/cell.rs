//! The cell value model: one grid unit's material kind, its continuous
//! moisture content, and the tick stamp used for once-per-tick update
//! bookkeeping.
//!
//! Continuous quantities are held in fixed point: one unit of moisture is
//! one hundredth of a "full" cell, so a capacity of `150` means the cell
//! can hold one and a half units.

use vstd::prelude::*;

verus! {

/// The closed set of material kinds a grid slot can hold.
#[derive(Debug, Clone, Copy, PartialEq, Eq, Hash, Structural)]
pub enum CellType {
    Empty,
    Sand,
    Water,
    WetSand,
}

/// Which movement algorithm applies to a kind.
#[derive(Debug, Clone, Copy, PartialEq, Eq, Structural)]
pub enum CellMovement {
    Still,
    Powder,
    Liquid,
    Gas,
}

/// The continuous scalar quantities a cell can carry.
#[derive(Debug, Clone, Copy, PartialEq, Eq, Structural)]
pub enum CellProperty {
    Moisture,
}

impl CellType {
    /// Displacement weight; a mover may displace only strictly lighter cells.
    pub open spec fn spec_density(self) -> u8 {
        match self {
            CellType::Empty => 0,
            CellType::Sand => 10,
            CellType::Water => 1,
            CellType::WetSand => 10,
        }
    }

    pub open spec fn spec_movement(self) -> CellMovement {
        match self {
            CellType::Empty => CellMovement::Still,
            CellType::Sand => CellMovement::Powder,
            CellType::Water => CellMovement::Liquid,
            CellType::WetSand => CellMovement::Powder,
        }
    }

    /// Moisture a freshly created cell of this kind starts with.
    pub open spec fn spec_inherent_wetness(self) -> u32 {
        match self {
            CellType::Empty => 0,
            CellType::Sand => 0,
            CellType::Water => 100,
            CellType::WetSand => 100,
        }
    }

    pub fn inherent_wetness(&self) -> (r: u32)
        ensures
            r == self.spec_inherent_wetness(),
    {
        match self {
            CellType::Empty => 0,
            CellType::Sand => 0,
            CellType::Water => 100,
            CellType::WetSand => 100,
        }
    }
}

impl Default for CellType {
    fn default() -> (r: Self)
        ensures
            r == CellType::Empty,
    {
        CellType::Empty
    }
}

/// One grid unit: a material kind, its moisture in fixed point, and the
/// tick counter value at which it last moved or reacted.
#[derive(Debug, Clone, Copy, PartialEq, Eq, Structural)]
pub struct Cell {
    pub kind: CellType,
    pub moisture: u32,
    pub last_updated: u8,
}

impl Cell {
    /// Maximum moisture a cell of this kind can hold.
    pub open spec fn spec_capacity(self, property: CellProperty) -> u32 {
        match property {
            CellProperty::Moisture => match self.kind {
                CellType::Empty => 0,
                CellType::Sand => 150,
                CellType::Water => 100,
                CellType::WetSand => 150,
            },
        }
    }

    /// Moisture a cell wants to keep before it starts spreading the excess.
    pub open spec fn spec_min_saturation(self, property: CellProperty) -> u32 {
        match property {
            CellProperty::Moisture => match self.kind {
                CellType::Empty => 0,
                CellType::Sand => 50,
                CellType::Water => 0,
                CellType::WetSand => 50,
            },
        }
    }

    /// Upper bound on moisture leaving the cell in one tick.
    pub open spec fn spec_diffusion_rate(self, property: CellProperty) -> u32 {
        match property {
            CellProperty::Moisture => match self.kind {
                CellType::Empty => 0,
                CellType::Sand => 1,
                CellType::Water => 100,
                CellType::WetSand => 1,
            },
        }
    }

    /// Upper bound on moisture entering the cell in one tick.
    pub open spec fn spec_accept_rate(self, property: CellProperty) -> u32 {
        match property {
            CellProperty::Moisture => match self.kind {
                CellType::Empty => 0,
                CellType::Sand => 5,
                CellType::Water => 0,
                CellType::WetSand => 5,
            },
        }
    }

    pub open spec fn spec_value(self, property: CellProperty) -> u32 {
        match property {
            CellProperty::Moisture => self.moisture,
        }
    }

    /// Amount of the property that can leave this cell right now: zero when
    /// the cell holds none, otherwise the lesser of the diffusion rate and
    /// the current value.
    pub open spec fn spec_diffuse_potential(self, property: CellProperty) -> u32 {
        if self.spec_value(property) == 0 {
            0
        } else if self.spec_value(property) > self.spec_diffusion_rate(property) {
            self.spec_diffusion_rate(property)
        } else {
            self.spec_value(property)
        }
    }

    /// Amount of the property that can enter this cell right now: zero at or
    /// above capacity, otherwise the lesser of the accept rate and the
    /// remaining headroom.
    pub open spec fn spec_accept_potential(self, property: CellProperty) -> u32 {
        if self.spec_capacity(property) <= self.spec_value(property) {
            0
        } else if self.spec_capacity(property) - self.spec_value(property)
            > self.spec_accept_rate(property) {
            self.spec_accept_rate(property)
        } else {
            (self.spec_capacity(property) - self.spec_value(property)) as u32
        }
    }

    /// Kinds that regenerate the property externally (standing water keeps
    /// offering moisture without running dry through ordinary diffusion).
    pub open spec fn spec_pure_source(self, property: CellProperty) -> bool {
        match property {
            CellProperty::Moisture => self.kind == CellType::Water,
        }
    }

    /// Well-formedness: the moisture value never exceeds the kind's capacity.
    pub open spec fn wf(self) -> bool {
        self.moisture <= self.spec_capacity(CellProperty::Moisture)
    }

    pub fn new(kind: CellType) -> (r: Self)
        ensures
            r.kind == kind,
            r.moisture == kind.spec_inherent_wetness(),
            r.last_updated == 0,
            r.wf(),
    {
        Cell { kind, moisture: kind.inherent_wetness(), last_updated: 0 }
    }

    pub fn get_type(&self) -> (r: CellType)
        ensures
            r == self.kind,
    {
        self.kind
    }

    pub fn movement(&self) -> (r: CellMovement)
        ensures
            r == self.kind.spec_movement(),
    {
        match self.kind {
            CellType::Empty => CellMovement::Still,
            CellType::Sand => CellMovement::Powder,
            CellType::Water => CellMovement::Liquid,
            CellType::WetSand => CellMovement::Powder,
        }
    }

    pub fn density(&self) -> (r: u8)
        ensures
            r == self.kind.spec_density(),
    {
        match self.kind {
            CellType::Empty => 0,
            CellType::Sand => 10,
            CellType::Water => 1,
            CellType::WetSand => 10,
        }
    }

    pub fn get_property(&self, property: CellProperty) -> (r: u32)
        ensures
            r == self.spec_value(property),
    {
        match property {
            CellProperty::Moisture => self.moisture,
        }
    }

    pub fn set_property(&mut self, property: CellProperty, value: u32)
        requires
            value <= old(self).spec_capacity(property),
        ensures
            final(self).kind == old(self).kind,
            final(self).last_updated == old(self).last_updated,
            final(self).spec_value(property) == value,
            final(self).wf(),
    {
        match property {
            CellProperty::Moisture => self.moisture = value,
        }
    }

    pub fn property_capacity(&self, property: CellProperty) -> (r: u32)
        ensures
            r == self.spec_capacity(property),
    {
        match property {
            CellProperty::Moisture => match self.kind {
                CellType::Empty => 0,
                CellType::Sand => 150,
                CellType::Water => 100,
                CellType::WetSand => 150,
            },
        }
    }

    pub fn property_min_saturation(&self, property: CellProperty) -> (r: u32)
        ensures
            r == self.spec_min_saturation(property),
    {
        match property {
            CellProperty::Moisture => match self.kind {
                CellType::Empty => 0,
                CellType::Sand => 50,
                CellType::Water => 0,
                CellType::WetSand => 50,
            },
        }
    }

    pub fn property_diffusion_rate(&self, property: CellProperty) -> (r: u32)
        ensures
            r == self.spec_diffusion_rate(property),
    {
        match property {
            CellProperty::Moisture => match self.kind {
                CellType::Empty => 0,
                CellType::Sand => 1,
                CellType::Water => 100,
                CellType::WetSand => 1,
            },
        }
    }

    pub fn property_accept_rate(&self, property: CellProperty) -> (r: u32)
        ensures
            r == self.spec_accept_rate(property),
    {
        match property {
            CellProperty::Moisture => match self.kind {
                CellType::Empty => 0,
                CellType::Sand => 5,
                CellType::Water => 0,
                CellType::WetSand => 5,
            },
        }
    }

    pub fn property_diffuse_potential(&self, property: CellProperty) -> (r: u32)
        ensures
            r == self.spec_diffuse_potential(property),
            r <= self.spec_value(property),
    {
        let value = self.get_property(property);
        if value == 0 {
            return 0;
        }
        let diffusion_rate = self.property_diffusion_rate(property);
        if value > diffusion_rate {
            diffusion_rate
        } else {
            value
        }
    }

    pub fn property_accept_potential(&self, property: CellProperty) -> (r: u32)
        ensures
            r == self.spec_accept_potential(property),
            self.spec_value(property) + r <= self.spec_capacity(property) || r == 0,
    {
        let value = self.get_property(property);
        let capacity = self.property_capacity(property);
        if capacity <= value {
            return 0;
        }
        let raw_potential = capacity - value;
        let accept_rate = self.property_accept_rate(property);
        if raw_potential > accept_rate {
            accept_rate
        } else {
            raw_potential
        }
    }

    pub fn is_pure_source(&self, property: CellProperty) -> (r: bool)
        ensures
            r == self.spec_pure_source(property),
    {
        match property {
            CellProperty::Moisture => matches!(self.kind, CellType::Water),
        }
    }

    pub fn is_empty(&self) -> (r: bool)
        ensures
            r == (self.kind == CellType::Empty),
    {
        matches!(self.kind, CellType::Empty)
    }

    pub fn is_water(&self) -> (r: bool)
        ensures
            r == (self.kind == CellType::Water),
    {
        matches!(self.kind, CellType::Water)
    }

    pub fn sand() -> (r: Self)
        ensures
            r == (Cell { kind: CellType::Sand, moisture: 0, last_updated: 0 }),
    {
        Cell::new(CellType::Sand)
    }

    pub fn water() -> (r: Self)
        ensures
            r == (Cell { kind: CellType::Water, moisture: 100, last_updated: 0 }),
    {
        Cell::new(CellType::Water)
    }
}

impl Default for Cell {
    fn default() -> (r: Self)
        ensures
            r.kind == CellType::Empty,
            r.moisture == 0,
            r.last_updated == 0,
    {
        Cell::new(CellType::Empty)
    }
}

/// Interpolated colour channel: `a` at fraction `0/den`, `b` at `den/den`,
/// linearly in between, rounding toward `a`.
pub open spec fn spec_lerp_channel(a: u8, b: u8, num: u32, den: u32) -> int {
    if b >= a {
        a + (b - a) * num / (den as int)
    } else {
        a - (a - b) * num / (den as int)
    }
}

fn lerp_channel(a: u8, b: u8, num: u32, den: u32) -> (r: u8)
    requires
        num <= den,
        0 < den,
    ensures
        r == spec_lerp_channel(a, b, num, den),
{
    if b >= a {
        let d: u64 = (b - a) as u64;
        let nu: u64 = num as u64;
        let de: u64 = den as u64;
        assert(d * nu < 0x1_0000_0000_0000u64) by (nonlinear_arith)
            requires d < 256, nu < 0x1_0000_0000u64,
        ;
        let q: u64 = d * nu / de;
        assert(d * num / (den as int) <= d) by (nonlinear_arith)
            requires 0 < den, num <= den,
        ;
        a + (q as u8)
    } else {
        let d: u64 = (a - b) as u64;
        let nu: u64 = num as u64;
        let de: u64 = den as u64;
        assert(d * nu < 0x1_0000_0000_0000u64) by (nonlinear_arith)
            requires d < 256, nu < 0x1_0000_0000u64,
        ;
        let q: u64 = d * nu / de;
        assert(d * num / (den as int) <= d) by (nonlinear_arith)
            requires 0 < den, num <= den,
        ;
        a - (q as u8)
    }
}

impl Cell {
    /// The RGBA colour a cell is presented with, derived only from its kind
    /// and its moisture: sandy kinds darken linearly as they approach their
    /// moisture capacity.
    pub open spec fn spec_color(self) -> Seq<u8> {
        match self.kind {
            CellType::Empty => seq![0u8, 0u8, 0u8, 255u8],
            CellType::Water => seq![109u8, 109u8, 210u8, 255u8],
            CellType::Sand | CellType::WetSand => seq![
                spec_lerp_channel(245, 195, self.moisture, self.spec_capacity(CellProperty::Moisture)) as u8,
                spec_lerp_channel(237, 174, self.moisture, self.spec_capacity(CellProperty::Moisture)) as u8,
                spec_lerp_channel(190, 142, self.moisture, self.spec_capacity(CellProperty::Moisture)) as u8,
                255u8,
            ],
        }
    }

    pub fn color_rgba(&self) -> (r: [u8; 4])
        requires
            self.wf(),
        ensures
            r@ == self.spec_color(),
    {
        let r = match self.kind {
            CellType::Empty => [0u8, 0u8, 0u8, 255u8],
            CellType::Water => [109u8, 109u8, 210u8, 255u8],
            CellType::Sand | CellType::WetSand => {
                let cap = self.property_capacity(CellProperty::Moisture);
                [
                    lerp_channel(245, 195, self.moisture, cap),
                    lerp_channel(237, 174, self.moisture, cap),
                    lerp_channel(190, 142, self.moisture, cap),
                    255u8,
                ]
            },
        };
        assert(r@ =~= self.spec_color());
        r
    }
}

} // verus!
