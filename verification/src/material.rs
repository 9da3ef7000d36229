//! Material kinds of a block, with their flat, immutable metadata.

use vstd::prelude::*;

verus! {

/// Metadata about materials: five boolean properties.
#[derive(Clone, Copy, Debug, PartialEq, Eq, Structural)]
pub struct MaterialMeta {
    can_burn: bool,
    func_217_d: bool,
    func_216_a: bool,
    func_219_b: bool,
    func_218_c: bool,
}

/// All material kinds.
#[derive(Clone, Copy, Debug, PartialEq, Eq, Structural)]
pub enum Material {
    Air,
    Ground,
    Wood,
    Rock,
    Iron,
    Water,
    Lava,
    Leaves,
    Plants,
    Sponge,
    Cloth,
    Fire,
    Sand,
    Circuits,
    Glass,
    Tnt,
    Ice,
    Snow,
    BuiltSnow,
    Cactus,
    Clay,
}

impl MaterialMeta {
    pub closed spec fn spec_can_burn(&self) -> bool {
        self.can_burn
    }

    pub closed spec fn spec_func_217_d(&self) -> bool {
        self.func_217_d
    }

    pub closed spec fn spec_func_216_a(&self) -> bool {
        self.func_216_a
    }

    pub closed spec fn spec_func_219_b(&self) -> bool {
        self.func_219_b
    }

    pub closed spec fn spec_func_218_c(&self) -> bool {
        self.func_218_c
    }

    pub fn can_burn(&self) -> (r: bool)
        ensures
            r == self.spec_can_burn(),
    {
        self.can_burn
    }

    pub fn func_217_d(&self) -> (r: bool)
        ensures
            r == self.spec_func_217_d(),
    {
        self.func_217_d
    }

    pub fn func_216_a(&self) -> (r: bool)
        ensures
            r == self.spec_func_216_a(),
    {
        self.func_216_a
    }

    pub fn func_219_b(&self) -> (r: bool)
        ensures
            r == self.spec_func_219_b(),
    {
        self.func_219_b
    }

    pub fn func_218_c(&self) -> (r: bool)
        ensures
            r == self.spec_func_218_c(),
    {
        self.func_218_c
    }

    fn default_material() -> (r: MaterialMeta)
        ensures
            r == (MaterialMeta {
                can_burn: false,
                func_217_d: false,
                func_216_a: true,
                func_219_b: true,
                func_218_c: true,
            }),
    {
        MaterialMeta {
            can_burn: false,
            func_217_d: false,
            func_216_a: true,
            func_219_b: true,
            func_218_c: true,
        }
    }

    fn burnable_material() -> (r: MaterialMeta)
        ensures
            r == (MaterialMeta {
                can_burn: true,
                func_217_d: false,
                func_216_a: true,
                func_219_b: true,
                func_218_c: true,
            }),
    {
        let mut material = Self::default_material();
        material.can_burn = !material.can_burn;
        material
    }

    fn logic_material() -> (r: MaterialMeta)
        ensures
            r == (MaterialMeta {
                can_burn: false,
                func_217_d: false,
                func_216_a: false,
                func_219_b: false,
                func_218_c: false,
            }),
    {
        let mut material = Self::default_material();
        material.func_216_a = !material.func_216_a;
        material.func_219_b = !material.func_219_b;
        material.func_218_c = !material.func_218_c;
        material
    }

    fn transparent_material() -> (r: MaterialMeta)
        ensures
            r == (MaterialMeta {
                can_burn: false,
                func_217_d: false,
                func_216_a: false,
                func_219_b: false,
                func_218_c: false,
            }),
    {
        let mut material = Self::default_material();
        material.func_216_a = !material.func_216_a;
        material.func_219_b = !material.func_219_b;
        material.func_218_c = !material.func_218_c;
        material
    }

    fn liquid_material() -> (r: MaterialMeta)
        ensures
            r == (MaterialMeta {
                can_burn: false,
                func_217_d: true,
                func_216_a: false,
                func_219_b: true,
                func_218_c: false,
            }),
    {
        let mut material = Self::default_material();
        material.func_217_d = !material.func_217_d;
        material.func_218_c = !material.func_218_c;
        material.func_216_a = !material.func_216_a;
        material
    }
}

impl Material {
    /// The materials that burn.
    pub open spec fn is_burnable(self) -> bool {
        self == Material::Wood || self == Material::Leaves || self == Material::Cloth || self
            == Material::Tnt
    }

    /// The liquid materials.
    pub open spec fn is_liquid(self) -> bool {
        self == Material::Water || self == Material::Lava
    }

    /// The materials with the logic flag set, the transparent ones
    /// included: both kinds clear the same three properties.
    pub open spec fn is_logic_like(self) -> bool {
        self == Material::Plants || self == Material::Circuits || self == Material::Snow || self
            == Material::Air || self == Material::Fire
    }

    /// Returns the metadata of a material.  Each of the five properties
    /// is pinned down as a function of the material kind.
    pub fn get(self) -> (r: MaterialMeta)
        ensures
            r.spec_can_burn() == self.is_burnable(),
            r.spec_func_217_d() == self.is_liquid(),
            r.spec_func_216_a() == !(self.is_liquid() || self.is_logic_like()),
            r.spec_func_219_b() == !self.is_logic_like(),
            r.spec_func_218_c() == !(self.is_liquid() || self.is_logic_like()),
    {
        match self {
            Material::Air => MaterialMeta::transparent_material(),
            Material::Ground => MaterialMeta::default_material(),
            Material::Wood => MaterialMeta::burnable_material(),
            Material::Rock => MaterialMeta::default_material(),
            Material::Iron => MaterialMeta::default_material(),
            Material::Water => MaterialMeta::liquid_material(),
            Material::Lava => MaterialMeta::liquid_material(),
            Material::Leaves => MaterialMeta::burnable_material(),
            Material::Plants => MaterialMeta::logic_material(),
            Material::Sponge => MaterialMeta::default_material(),
            Material::Cloth => MaterialMeta::burnable_material(),
            Material::Fire => MaterialMeta::transparent_material(),
            Material::Sand => MaterialMeta::default_material(),
            Material::Circuits => MaterialMeta::logic_material(),
            Material::Glass => MaterialMeta::default_material(),
            Material::Tnt => MaterialMeta::burnable_material(),
            Material::Ice => MaterialMeta::default_material(),
            Material::Snow => MaterialMeta::logic_material(),
            Material::BuiltSnow => MaterialMeta::default_material(),
            Material::Cactus => MaterialMeta::default_material(),
            Material::Clay => MaterialMeta::default_material(),
        }
    }
}

} // verus!
