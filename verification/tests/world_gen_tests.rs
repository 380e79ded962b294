use render3d::biome::Biome;
use render3d::block::BlockType;
use render3d::chunk::Chunk;
use render3d::generation::{generate_chunk, CactusRoll, ColumnSample};
use render3d::terrain::{carve_column, fill_column, get_block_for_biome, position_hash, position_hash_3d};
use render3d::trees::{can_place_tree, place_cactus_in_chunk, place_tree_in_chunk};
use render3d::world::World;

fn plain_samples(height: i32) -> Vec<ColumnSample> {
    (0..256)
        .map(|_| ColumnSample {
            biome: Biome::Plains,
            height,
            dense: vec![false; 256],
            cave: vec![false; 256],
            tree_roll: false,
            cactus: CactusRoll::Nothing,
        })
        .collect()
}

fn grass_floor(y: i32) -> Chunk {
    let mut c = Chunk::new(0, 0);
    for x in 0..16 {
        for z in 0..16 {
            c.set_block(x, y, z, BlockType::Grass);
        }
    }
    c
}

#[test]
fn position_hashes_match_known_values() {
    assert_eq!(position_hash(2137, 0, 0), 1111775887);
    assert_eq!(position_hash(2137, -5, 17), 81478224);
    assert_eq!(position_hash_3d(2137, 1, 2, 3), 528642683);
}

#[test]
fn plains_column_layers() {
    assert_eq!(get_block_for_biome(2137, Biome::Plains, 0, 70, 0, 0), BlockType::Bedrock);
    assert_eq!(get_block_for_biome(2137, Biome::Plains, 1, 70, 0, 0), BlockType::Bedrock);
    assert_eq!(get_block_for_biome(2137, Biome::Plains, 3, 70, 0, 0), BlockType::Stone);
    assert_eq!(get_block_for_biome(2137, Biome::Plains, 65, 70, 0, 0), BlockType::Stone);
    assert_eq!(get_block_for_biome(2137, Biome::Plains, 66, 70, 0, 0), BlockType::Dirt);
    assert_eq!(get_block_for_biome(2137, Biome::Plains, 69, 70, 0, 0), BlockType::Grass);
    assert_eq!(get_block_for_biome(2137, Biome::Plains, 70, 70, 0, 0), BlockType::Air);
}

#[test]
fn biome_surfaces() {
    assert_eq!(get_block_for_biome(2137, Biome::Desert, 69, 70, 0, 0), BlockType::Sand);
    assert_eq!(get_block_for_biome(2137, Biome::Desert, 60, 70, 0, 0), BlockType::Sand);
    assert_eq!(get_block_for_biome(2137, Biome::Desert, 59, 70, 0, 0), BlockType::Stone);
    assert_eq!(get_block_for_biome(2137, Biome::Tundra, 69, 70, 0, 0), BlockType::Snow);
    assert_eq!(get_block_for_biome(2137, Biome::Swamp, 63, 64, 0, 0), BlockType::Clay);
    assert_eq!(get_block_for_biome(2137, Biome::Swamp, 69, 70, 0, 0), BlockType::Grass);
    assert_eq!(get_block_for_biome(2137, Biome::Ocean, 49, 50, 0, 0), BlockType::Sand);
    assert_eq!(get_block_for_biome(2137, Biome::Ocean, 47, 50, 0, 0), BlockType::Gravel);
    assert_eq!(get_block_for_biome(2137, Biome::Island, 69, 70, 0, 0), BlockType::Sand);
    assert_eq!(get_block_for_biome(2137, Biome::Island, 63, 70, 0, 0), BlockType::Stone);
    assert_eq!(get_block_for_biome(2137, Biome::Beach, 69, 70, 0, 0), BlockType::Sand);
    assert_eq!(get_block_for_biome(2137, Biome::Mountains, 149, 150, 0, 0), BlockType::Snow);
    assert_eq!(get_block_for_biome(2137, Biome::Mountains, 119, 120, 0, 0), BlockType::Grass);
    assert_eq!(get_block_for_biome(2137, Biome::Mountains, 120, 120, 0, 0), BlockType::Stone);
}

#[test]
fn chunk_blocks_round_trip() {
    let mut c = Chunk::new(3, -4);
    assert_eq!(c.get_block(5, 100, 7), BlockType::Air);
    c.set_block(5, 100, 7, BlockType::Wood);
    assert_eq!(c.get_block(5, 100, 7), BlockType::Wood);
    assert_eq!(c.get_block(5, 101, 7), BlockType::Air);
    c.set_block(16, 0, 0, BlockType::Stone);
    c.set_block(0, 256, 0, BlockType::Stone);
    assert_eq!(c.get_block(16, 0, 0), BlockType::Air);
    assert_eq!(c.get_block(0, -1, 0), BlockType::Air);
    c.check_empty_subchunks();
    assert!(!c.subchunks[6].is_empty);
    assert!(c.subchunks[0].is_empty);
}

#[test]
fn terrain_pass_and_caves() {
    let mut c = Chunk::new(0, 0);
    fill_column(&mut c, 2137, 0, 0, 0, 0, Biome::Plains, 70, &vec![false; 256]);
    assert_eq!(c.get_block(0, 0, 0), BlockType::Bedrock);
    assert_eq!(c.get_block(0, 69, 0), BlockType::Grass);
    assert_eq!(c.get_block(0, 70, 0), BlockType::Air);
    assert_eq!(c.get_block(1, 69, 0), BlockType::Air);
    let mut cave = vec![false; 256];
    cave[10] = true;
    cave[0] = true;
    carve_column(&mut c, 0, 0, 70, &cave);
    assert_eq!(c.get_block(0, 10, 0), BlockType::Water);
    assert_eq!(c.get_block(0, 0, 0), BlockType::Bedrock);
    let mut low = Chunk::new(0, 0);
    fill_column(&mut low, 2137, 2, 2, 2, 2, Biome::Tundra, 60, &vec![false; 256]);
    assert_eq!(low.get_block(2, 62, 2), BlockType::Water);
    assert_eq!(low.get_block(2, 63, 2), BlockType::Ice);
    assert_eq!(low.get_block(2, 64, 2), BlockType::Air);
}

#[test]
fn small_tree_grows_on_grass_once() {
    let mut c = grass_floor(69);
    assert!(can_place_tree(&c, 8, 70, 8, false));
    place_tree_in_chunk(&mut c, 8, 70, 8, Biome::Plains, false);
    for y in 70..75 {
        assert_eq!(c.get_block(8, y, 8), BlockType::Wood);
    }
    assert_eq!(c.get_block(8, 75, 8), BlockType::Leaves);
    assert_eq!(c.get_block(8, 76, 8), BlockType::Leaves);
    assert_eq!(c.get_block(10, 76, 8), BlockType::Leaves);
    assert_eq!(c.get_block(10, 76, 10), BlockType::Air);
    assert_eq!(c.get_block(11, 76, 8), BlockType::Air);
    assert!(!can_place_tree(&c, 9, 70, 9, false));
    assert!(!can_place_tree(&c, 8, 60, 8, false));
}

#[test]
fn large_tree_needs_room_and_grows_wide() {
    let mut c = grass_floor(69);
    assert!(!can_place_tree(&c, 15, 70, 8, true));
    assert!(can_place_tree(&c, 7, 70, 7, true));
    place_tree_in_chunk(&mut c, 7, 70, 7, Biome::Forest, true);
    for y in 70..78 {
        assert_eq!(c.get_block(7, y, 7), BlockType::Wood);
        assert_eq!(c.get_block(8, y, 8), BlockType::Wood);
    }
    assert_eq!(c.get_block(7, 79, 7), BlockType::Leaves);
    assert_eq!(c.get_block(11, 79, 7), BlockType::Leaves);
    assert_eq!(c.get_block(12, 79, 7), BlockType::Air);
    let mut sand = Chunk::new(0, 0);
    sand.set_block(8, 69, 8, BlockType::Grass);
    sand.set_block(9, 69, 8, BlockType::Sand);
    assert!(!can_place_tree(&sand, 8, 70, 8, false));
}

#[test]
fn cactus_height_from_seed() {
    let mut c = Chunk::new(0, 0);
    place_cactus_in_chunk(2137, &mut c, 8, 70, 8);
    assert_eq!(c.get_block(8, 70, 8), BlockType::Cactus);
    assert_eq!(c.get_block(8, 72, 8), BlockType::Cactus);
    assert_eq!(c.get_block(8, 73, 8), BlockType::Air);
    let mut d = Chunk::new(0, 0);
    place_cactus_in_chunk(2138, &mut d, 8, 70, 8);
    assert_eq!(d.get_block(8, 71, 8), BlockType::Cactus);
    assert_eq!(d.get_block(8, 72, 8), BlockType::Air);
}

#[test]
fn generated_plains_chunk() {
    let samples = plain_samples(70);
    let c = generate_chunk(2137, 0, 0, &samples);
    assert_eq!((c.cx, c.cz, c.player_modified), (0, 0, false));
    assert_eq!(c.get_block(0, 0, 0), BlockType::Bedrock);
    assert_eq!(c.get_block(0, 65, 0), BlockType::Stone);
    assert_eq!(c.get_block(0, 66, 0), BlockType::Dirt);
    assert_eq!(c.get_block(0, 69, 0), BlockType::Grass);
    assert_eq!(c.get_block(0, 70, 0), BlockType::Air);
    assert!(!c.subchunks[4].is_empty);
    assert!(c.subchunks[5].is_empty);
}

#[test]
fn generated_chunk_plants_trees_where_rolled() {
    let mut samples = plain_samples(70);
    samples[8 * 16 + 8].tree_roll = true;
    let c = generate_chunk(2137, 0, 0, &samples);
    assert_eq!(c.get_block(8, 70, 8), BlockType::Wood);
    assert_eq!(c.get_block(4, 70, 4), BlockType::Air);
    let mut desert = plain_samples(70);
    for s in desert.iter_mut() {
        s.biome = Biome::Desert;
    }
    desert[5 * 16 + 6].cactus = CactusRoll::DeadBush;
    let d = generate_chunk(2137, 0, 0, &desert);
    assert_eq!(d.get_block(5, 70, 6), BlockType::DeadBush);
    assert_eq!(d.get_block(5, 69, 6), BlockType::Sand);
}

#[test]
fn world_blocks_across_chunks() {
    let mut w = World::new_with_seed(1);
    w.insert_chunk(Chunk::new(0, 0));
    w.insert_chunk(Chunk::new(-1, -2));
    assert!(w.has_chunk(-1, -2));
    assert!(!w.has_chunk(1, 0));
    w.set_block(3, 10, 5, BlockType::Stone);
    assert_eq!(w.get_block(3, 10, 5), BlockType::Stone);
    assert_eq!(w.get_block(3, 11, 5), BlockType::Air);
    w.set_block(-1, 10, -17, BlockType::Dirt);
    assert_eq!(w.get_block(-1, 10, -17), BlockType::Dirt);
    assert_eq!(w.chunks[&((((-1i32) as u32 as u64) << 32) | ((-2i32) as u32 as u64))].get_block(15, 10, 15), BlockType::Dirt);
    w.set_block(40, 10, 5, BlockType::Stone);
    assert_eq!(w.get_block(40, 10, 5), BlockType::Air);
    assert_eq!(w.get_block(3, -1, 5), BlockType::Air);
    assert!(w.saved_chunks().is_empty());
}

#[test]
fn player_edits_are_saved() {
    let mut w = World::new_with_seed(1);
    w.insert_chunk(Chunk::new(0, 0));
    w.insert_chunk(Chunk::new(5, 5));
    w.set_block_player(3, 10, 5, BlockType::Stone);
    let saved = w.saved_chunks();
    assert_eq!(saved.len(), 1);
    assert_eq!((saved[0].cx, saved[0].cz), (0, 0));
    assert_eq!(saved[0].blocks.len(), 65536);
    let b = saved[0].blocks[933];
    assert_eq!((b.x, b.y, b.z, b.block_type), (3, 10, 5, BlockType::Stone));
    let last = saved[0].blocks[65535];
    assert_eq!((last.x, last.y, last.z), (15, 255, 15));
}

#[test]
fn far_chunks_are_unloaded() {
    let mut w = World::new_with_seed(1);
    w.insert_chunk(Chunk::new(0, 0));
    w.insert_chunk(Chunk::new(17, 0));
    w.insert_chunk(Chunk::new(16, -16));
    w.unload_far_chunks(0, 0);
    assert!(w.has_chunk(0, 0));
    assert!(!w.has_chunk(17, 0));
    assert!(w.has_chunk(16, -16));
    assert!(!w.is_subchunk_occluded(0, 0, 3));
    assert!(!w.is_subchunk_occluded(9, 9, 3));
}

#[test]
fn buried_subchunk_is_occluded() {
    let mut w = World::new_with_seed(1);
    for (cx, cz) in [(0, 0), (-1, 0), (1, 0), (0, -1), (0, 1)] {
        let mut c = Chunk::new(cx, cz);
        for s in 2..5 {
            c.subchunks[s].is_fully_opaque = true;
        }
        w.insert_chunk(c);
    }
    assert!(w.is_subchunk_occluded(0, 0, 3));
    assert!(!w.is_subchunk_occluded(0, 0, 2));
    assert!(!w.is_subchunk_occluded(1, 0, 3));
    // Unloaded chunks at the ends of the coordinate range are not occluded.
    assert!(!w.is_subchunk_occluded(i32::MAX, 0, 3));
    assert!(!w.is_subchunk_occluded(0, i32::MIN, 99));
    // A loaded chunk at the end whose subchunk is not opaque is not occluded.
    w.insert_chunk(Chunk::new(i32::MIN, 0));
    assert!(!w.is_subchunk_occluded(i32::MIN, 0, 3));
}

#[test]
fn putting_a_block_back_restores_the_world() {
    let samples = plain_samples(70);
    let mut w = World::new_with_seed(2137);
    w.insert_chunk(generate_chunk(2137, 0, 0, &samples));
    let before: Vec<BlockType> = (0..256).map(|y| w.get_block(7, y, 9)).collect();
    let old = w.get_block(7, 69, 9);
    w.set_block(7, 69, 9, BlockType::Air);
    assert_eq!(w.get_block(7, 69, 9), BlockType::Air);
    w.set_block(7, 69, 9, old);
    let after: Vec<BlockType> = (0..256).map(|y| w.get_block(7, y, 9)).collect();
    assert_eq!(before, after);
}

#[test]
fn generation_is_deterministic() {
    let samples = plain_samples(70);
    let a = generate_chunk(2137, 3, -2, &samples);
    let b = generate_chunk(2137, 3, -2, &samples);
    for x in 0..16 {
        for z in 0..16 {
            for y in 0..256 {
                assert_eq!(a.get_block(x, y, z), b.get_block(x, y, z));
            }
        }
    }
}
