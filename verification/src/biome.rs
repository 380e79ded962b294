use vstd::prelude::*;

verus! {

/// The climate zones of the generated world.
#[derive(Debug, Clone, Copy, PartialEq, Eq, Hash, Structural)]
pub enum Biome {
    Plains,
    Forest,
    Desert,
    Tundra,
    Mountains,
    Swamp,
    Ocean,
    Beach,
    River,
    Lake,
    Island,
}

impl Default for Biome {
    fn default() -> (b: Self)
        ensures
            b == Biome::Plains,
    {
        Biome::Plains
    }
}

/// Trees grow on plains, in forests, tundra, mountains, swamps and on islands.
pub open spec fn spec_has_trees(b: Biome) -> bool {
    match b {
        Biome::Plains | Biome::Forest | Biome::Tundra | Biome::Mountains | Biome::Swamp
        | Biome::Island => true,
        _ => false,
    }
}

impl Biome {
    /// Whether trees are placed in this biome.
    pub fn has_trees(&self) -> (r: bool)
        ensures
            r == spec_has_trees(*self),
    {
        match self {
            Biome::Plains | Biome::Forest | Biome::Tundra | Biome::Mountains | Biome::Swamp
            | Biome::Island => true,
            _ => false,
        }
    }
}

} // verus!
