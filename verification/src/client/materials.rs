//! Looks for what has none yet: random materials for parts that have no seed, and plain
//! spheres for characters.

use vstd::prelude::*;
use super::colour::{rgb, Rgba};
use crate::chance::random_between;

verus! {

/// The darkest and the brightest channel of a part, in millionths.
pub const COLOR_MIN: u32 = 200_000;

pub const COLOR_MAX: u32 = 700_000;

/// A share of one between `low` and `high`, drawn at random.
fn random_share(low: u32, high: u32) -> (n: u32)
    requires
        low <= high,
    ensures
        low <= n <= high,
{
    random_between(low as i64, high as i64) as u32
}

/// A part's material, in millionths.
#[derive(Clone, Copy, Debug, PartialEq, Eq, Structural)]
pub struct PartMaterial {
    pub base_color: Rgba,
    pub metallic: u32,
    pub roughness: u32,
    pub reflectance: u32,
}

/// Whether a material is one that a part can have.
pub open spec fn is_part_material(m: PartMaterial) -> bool {
    &&& COLOR_MIN <= m.base_color.r <= COLOR_MAX
    &&& COLOR_MIN <= m.base_color.g <= COLOR_MAX
    &&& COLOR_MIN <= m.base_color.b <= COLOR_MAX
    &&& m.base_color.a == 1_000_000
    &&& m.metallic <= 1_000_000
    &&& m.roughness <= 1_000_000
    &&& m.reflectance <= 1_000_000
}

/// The material that these draws make.
pub fn material_of(
    r: u32,
    g: u32,
    b: u32,
    metallic: u32,
    roughness: u32,
    reflectance: u32,
) -> (m: PartMaterial)
    ensures
        m == (PartMaterial {
            base_color: Rgba { r, g, b, a: 1_000_000 },
            metallic,
            roughness,
            reflectance,
        }),
{
    PartMaterial { base_color: rgb(r, g, b), metallic, roughness, reflectance }
}

/// Materials for parts that have none yet: one for each, of muted colours and any sheen.
pub fn assign_parts(unassigned: &[u64]) -> (materials: Vec<PartMaterial>)
    ensures
        materials@.len() == unassigned@.len(),
        forall|i: int| 0 <= i < materials@.len() ==> is_part_material(#[trigger] materials@[i]),
{
    let mut materials: Vec<PartMaterial> = Vec::new();
    let mut i: usize = 0;
    while i < unassigned.len()
        invariant
            i <= unassigned.len(),
            materials@.len() == i,
            forall|k: int| 0 <= k < i ==> is_part_material(#[trigger] materials@[k]),
        decreases unassigned.len() - i,
    {
        let r: u32 = random_share(COLOR_MIN, COLOR_MAX);
        let g: u32 = random_share(COLOR_MIN, COLOR_MAX);
        let b: u32 = random_share(COLOR_MIN, COLOR_MAX);
        let metallic: u32 = random_share(0, 1_000_000);
        let roughness: u32 = random_share(0, 1_000_000);
        let reflectance: u32 = random_share(0, 1_000_000);
        materials.push(material_of(r, g, b, metallic, roughness, reflectance));
        i = i + 1;
    }
    materials
}

/// How often the triangles of a character's sphere are divided.
pub const CHARACTER_SUBDIVISIONS: u32 = 5;

/// A character that has no look yet, and the radius of its body.
#[derive(Clone, Copy, Debug, PartialEq, Eq, Structural)]
pub struct Undressed {
    pub entity: u64,
    pub radius: i64,
}

/// What a character is drawn as.
#[derive(Clone, Copy, Debug, PartialEq, Eq, Structural)]
pub struct CharacterLook {
    pub entity: u64,
    pub radius: i64,
    pub subdivisions: u32,
    pub base_color: Rgba,
}

/// A light grey sphere around the character's body.
pub open spec fn look_of(character: Undressed) -> CharacterLook {
    CharacterLook {
        entity: character.entity,
        radius: character.radius,
        subdivisions: CHARACTER_SUBDIVISIONS,
        base_color: Rgba { r: 800_000, g: 800_000, b: 800_000, a: 1_000_000 },
    }
}

/// Looks for characters that have none yet.
pub fn assign_characters(unassigned: &[Undressed]) -> (looks: Vec<CharacterLook>)
    ensures
        looks@ == unassigned@.map_values(|c: Undressed| look_of(c)),
{
    let mut looks: Vec<CharacterLook> = Vec::new();
    let mut i: usize = 0;
    while i < unassigned.len()
        invariant
            i <= unassigned.len(),
            looks@.len() == i,
            forall|k: int| 0 <= k < i ==> #[trigger] looks@[k] == look_of(unassigned@[k]),
        decreases unassigned.len() - i,
    {
        looks.push(
            CharacterLook {
                entity: unassigned[i].entity,
                radius: unassigned[i].radius,
                subdivisions: CHARACTER_SUBDIVISIONS,
                base_color: rgb(800_000, 800_000, 800_000),
            },
        );
        i = i + 1;
    }
    looks
}

/// A character is drawn as large as its body, in a grey that lets nothing through.
pub proof fn law_characters_are_grey(c: Undressed)
    ensures
        look_of(c).entity == c.entity,
        look_of(c).radius == c.radius,
        look_of(c).base_color.r == 800_000,
        look_of(c).base_color.g == look_of(c).base_color.r,
        look_of(c).base_color.b == look_of(c).base_color.r,
        look_of(c).base_color.a == 1_000_000,
{
}

/// The colour of a part is muted and lets nothing through: no channel of it is under a fifth or
/// over seven tenths.
pub proof fn law_parts_are_muted(m: PartMaterial)
    requires
        is_part_material(m),
    ensures
        200_000 <= m.base_color.r <= 700_000,
        200_000 <= m.base_color.g <= 700_000,
        200_000 <= m.base_color.b <= 700_000,
        m.base_color.a == 1_000_000,
        m.metallic <= 1_000_000 && m.roughness <= 1_000_000 && m.reflectance <= 1_000_000,
{
}

} // verus!
