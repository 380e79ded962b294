use render3d::biome::Biome;
use render3d::block::BlockType;
use render3d::mesh::{crosshair_indices, push_quad_indices};
use render3d::structures::{House, Structure};

#[test]
fn trees_grow_in_six_biomes() {
    let with = [Biome::Plains, Biome::Forest, Biome::Tundra, Biome::Mountains, Biome::Swamp, Biome::Island];
    let without = [Biome::Desert, Biome::Ocean, Biome::Beach, Biome::River, Biome::Lake];
    for b in with {
        assert!(b.has_trees());
    }
    for b in without {
        assert!(!b.has_trees());
    }
    assert_eq!(Biome::default(), Biome::Plains);
}

#[test]
fn structure_new_and_with_block() {
    let s = Structure::new("Well", vec!["Plains", "Desert"]);
    assert_eq!(s.name, "Well");
    assert_eq!(s.biomes, vec!["Plains".to_string(), "Desert".to_string()]);
    assert_eq!(s.min_distance, Some(10));
    assert!(s.min_height.is_none() && s.max_height.is_none() && !s.in_water);
    let s = s.with_block(1, 2, 3, BlockType::Stone).with_block(0, 0, 0, BlockType::Water);
    assert_eq!(s.blocks, vec![(1, 2, 3, BlockType::Stone), (0, 0, 0, BlockType::Water)]);
}

#[test]
fn house_layout() {
    let h = House::new();
    let s = &h.structure;
    assert_eq!(s.name, "House");
    assert_eq!(s.biomes, vec!["Plains".to_string(), "Forest".to_string(), "Desert".to_string()]);
    assert_eq!(s.blocks.len(), 25 + 75 + 25 + 9 + 1 + 5);
    assert_eq!(s.blocks[0], (0, 0, 0, BlockType::Stone));
    assert_eq!(s.blocks[24], (4, 0, 4, BlockType::Stone));
    assert_eq!(s.blocks[25], (0, 1, 0, BlockType::Wood));
    // centre of the first wall layer is cleared
    assert_eq!(s.blocks[25 + 12], (2, 1, 2, BlockType::Air));
    assert_eq!(s.blocks[134], (2, 6, 2, BlockType::WoodStairs));
    assert_eq!(s.blocks[135], (2, 1, 0, BlockType::Air));
    assert_eq!(s.blocks[139], (2, 2, 4, BlockType::Air));
    // the last placement at a position wins: the door is open
    let last_at = |x, y, z| s.blocks.iter().rev().find(|b| (b.0, b.1, b.2) == (x, y, z)).map(|b| b.3);
    assert_eq!(last_at(2, 1, 0), Some(BlockType::Air));
    assert_eq!(last_at(0, 1, 0), Some(BlockType::Wood));
}

#[test]
fn quad_and_crosshair_indices() {
    let mut v = vec![99u32];
    push_quad_indices(&mut v, 8);
    assert_eq!(v, vec![99, 8, 9, 10, 8, 10, 11]);
    assert_eq!(crosshair_indices(), vec![0, 1, 2, 0, 2, 3, 4, 5, 6, 4, 6, 7]);
}
