use vstd::prelude::*;
use crate::block::BlockType;

verus! {

/// A block placement relative to a structure's origin: `(x, y, z, block)`.
pub type PlacedBlock = (i32, i32, i32, BlockType);

/// A prefab that world generation can stamp into the terrain.
#[derive(Debug, Clone)]
pub struct Structure {
    pub name: String,
    pub biomes: Vec<String>,
    /// Lowest y at which it may spawn.
    pub min_height: Option<i32>,
    /// Highest y at which it may spawn.
    pub max_height: Option<i32>,
    pub in_water: bool,
    /// Least distance kept to other structures.
    pub min_distance: Option<i32>,
    /// Placements in order; a later placement at a position overrides an earlier one.
    pub blocks: Vec<PlacedBlock>,
}

impl Structure {
    /// An empty structure named `name` for the given biomes, kept at least 10
    /// blocks from other structures, with no height limits, not in water.
    pub fn new(name: &str, biomes: Vec<&str>) -> (s: Self)
        ensures
            s.name@ == name@,
            s.biomes@.len() == biomes@.len(),
            forall|i: int| 0 <= i < biomes@.len() ==> (#[trigger] s.biomes@[i])@ == biomes@[i]@,
            s.min_height is None,
            s.max_height is None,
            !s.in_water,
            s.min_distance == Some(10i32),
            s.blocks@.len() == 0,
    {
        let mut names: Vec<String> = Vec::new();
        let n = biomes.len();
        let mut i: usize = 0;
        while i < n
            invariant
                n == biomes@.len(),
                i <= n,
                names@.len() == i,
                forall|j: int| 0 <= j < i ==> (#[trigger] names@[j])@ == biomes@[j]@,
            decreases n - i,
        {
            names.push(biomes[i].to_owned());
            i = i + 1;
        }
        Structure {
            name: name.to_owned(),
            biomes: names,
            min_height: None,
            max_height: None,
            in_water: false,
            min_distance: Some(10),
            blocks: Vec::new(),
        }
    }

    /// The same structure with one more placement at the end.
    pub fn with_block(self, x: i32, y: i32, z: i32, block: BlockType) -> (s: Self)
        ensures
            s.blocks@ == self.blocks@.push((x, y, z, block)),
            s.name == self.name,
            s.biomes == self.biomes,
            s.min_height == self.min_height,
            s.max_height == self.max_height,
            s.in_water == self.in_water,
            s.min_distance == self.min_distance,
    {
        let mut s = self;
        s.blocks.push((x, y, z, block));
        s
    }
}

/// A 5x5 stone platform at height 0, listed x-major.
pub open spec fn house_foundation() -> Seq<PlacedBlock> {
    Seq::new(25, |i: int| ((i / 5) as i32, 0i32, (i % 5) as i32, BlockType::Stone))
}

/// Wall block at `(x, z)` of a 5x5 floor: wood on the outer ring, air inside.
pub open spec fn wall_block(x: int, z: int) -> BlockType {
    if x == 0 || x == 4 || z == 0 || z == 4 { BlockType::Wood } else { BlockType::Air }
}

/// Three 5x5 layers at heights 1 to 3, listed by height, then x, then z.
pub open spec fn house_walls() -> Seq<PlacedBlock> {
    Seq::new(75, |i: int| {
        let x = (i % 25) / 5;
        let z = i % 5;
        (x as i32, (1 + i / 25) as i32, z as i32, wall_block(x, z))
    })
}

/// The roof: a 5x5 layer at height 4, a 3x3 layer at height 5 and the peak at
/// `(2, 6, 2)`, all wooden stairs.
pub open spec fn house_roof() -> Seq<PlacedBlock> {
    Seq::new(25, |i: int| ((i / 5) as i32, 4i32, (i % 5) as i32, BlockType::WoodStairs))
        + Seq::new(9, |i: int| ((1 + i / 3) as i32, 5i32, (1 + i % 3) as i32, BlockType::WoodStairs))
        + seq![(2i32, 6i32, 2i32, BlockType::WoodStairs)]
}

/// The openings cut last: a two-high door in the front wall and one window in
/// each of the left, right and back walls.
pub open spec fn house_openings() -> Seq<PlacedBlock> {
    seq![
        (2i32, 1i32, 0i32, BlockType::Air),
        (2i32, 2i32, 0i32, BlockType::Air),
        (0i32, 2i32, 2i32, BlockType::Air),
        (4i32, 2i32, 2i32, BlockType::Air),
        (2i32, 2i32, 4i32, BlockType::Air),
    ]
}

/// A small house for plains, forests and deserts.
#[derive(Debug, Clone)]
pub struct House {
    pub structure: Structure,
}

impl House {
    /// The house prefab: foundation, walls, roof, then door and windows.
    pub fn new() -> (h: Self)
        ensures
            h.structure.name@ == "House"@,
            h.structure.biomes@.len() == 3,
            h.structure.biomes@[0]@ == "Plains"@,
            h.structure.biomes@[1]@ == "Forest"@,
            h.structure.biomes@[2]@ == "Desert"@,
            h.structure.min_height is None,
            h.structure.max_height is None,
            !h.structure.in_water,
            h.structure.min_distance == Some(10i32),
            h.structure.blocks@ == house_foundation() + house_walls() + house_roof() + house_openings(),
    {
        let mut names: Vec<&str> = Vec::new();
        names.push("Plains");
        names.push("Forest");
        names.push("Desert");
        let mut structure = Structure::new("House", names);
        let mut blocks: Vec<PlacedBlock> = Vec::new();

        // foundation
        let mut x: i32 = 0;
        while x < 5
            invariant
                0 <= x <= 5,
                blocks@ =~= house_foundation().take(5 * x as int),
            decreases 5 - x,
        {
            let mut z: i32 = 0;
            while z < 5
                invariant
                    0 <= x < 5,
                    0 <= z <= 5,
                    blocks@ =~= house_foundation().take(5 * x + z),
                decreases 5 - z,
            {
                blocks.push((x, 0, z, BlockType::Stone));
                z = z + 1;
            }
            x = x + 1;
        }
        let ghost base = blocks@;

        // walls
        let mut y: i32 = 1;
        while y <= 3
            invariant
                1 <= y <= 4,
                base == house_foundation(),
                blocks@ =~= base + house_walls().take(25 * (y - 1)),
            decreases 4 - y,
        {
            let mut x: i32 = 0;
            while x < 5
                invariant
                    1 <= y <= 3,
                    0 <= x <= 5,
                    base == house_foundation(),
                    blocks@ =~= base + house_walls().take(25 * (y - 1) + 5 * x),
                decreases 5 - x,
            {
                let mut z: i32 = 0;
                while z < 5
                    invariant
                        1 <= y <= 3,
                        0 <= x < 5,
                        0 <= z <= 5,
                        base == house_foundation(),
                        blocks@ =~= base + house_walls().take(25 * (y - 1) + 5 * x + z),
                    decreases 5 - z,
                {
                    if x == 0 || x == 4 || z == 0 || z == 4 {
                        blocks.push((x, y, z, BlockType::Wood));
                    } else {
                        blocks.push((x, y, z, BlockType::Air));
                    }
                    z = z + 1;
                }
                x = x + 1;
            }
            y = y + 1;
        }
        let ghost base2 = blocks@;

        // roof, 5x5 then 3x3 then the peak
        let mut x: i32 = 0;
        while x < 5
            invariant
                0 <= x <= 5,
                base2 == house_foundation() + house_walls(),
                blocks@ =~= base2 + house_roof().take(5 * x as int),
            decreases 5 - x,
        {
            let mut z: i32 = 0;
            while z < 5
                invariant
                    0 <= x < 5,
                    0 <= z <= 5,
                    base2 == house_foundation() + house_walls(),
                    blocks@ =~= base2 + house_roof().take(5 * x + z),
                decreases 5 - z,
            {
                blocks.push((x, 4, z, BlockType::WoodStairs));
                z = z + 1;
            }
            x = x + 1;
        }
        let mut x: i32 = 1;
        while x < 4
            invariant
                1 <= x <= 4,
                base2 == house_foundation() + house_walls(),
                blocks@ =~= base2 + house_roof().take(25 + 3 * (x - 1)),
            decreases 4 - x,
        {
            let mut z: i32 = 1;
            while z < 4
                invariant
                    1 <= x < 4,
                    1 <= z <= 4,
                    base2 == house_foundation() + house_walls(),
                    blocks@ =~= base2 + house_roof().take(25 + 3 * (x - 1) + (z - 1)),
                decreases 4 - z,
            {
                blocks.push((x, 5, z, BlockType::WoodStairs));
                z = z + 1;
            }
            x = x + 1;
        }
        blocks.push((2, 6, 2, BlockType::WoodStairs));
        assert(blocks@ =~= base2 + house_roof());

        // door and windows
        blocks.push((2, 1, 0, BlockType::Air));
        blocks.push((2, 2, 0, BlockType::Air));
        blocks.push((0, 2, 2, BlockType::Air));
        blocks.push((4, 2, 2, BlockType::Air));
        blocks.push((2, 2, 4, BlockType::Air));
        assert(blocks@ =~= house_foundation() + house_walls() + house_roof() + house_openings());
        structure.blocks = blocks;
        House { structure }
    }
}

} // verus!
