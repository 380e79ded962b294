use render3d::block::BlockType;
use render3d::chunk::Chunk;
use render3d::meshing::{face_tex, subchunk_faces, Face};
use render3d::world::World;

fn world_with(blocks: &[(i32, i32, i32, BlockType)], chunks: &[(i32, i32)]) -> World {
    let mut w = World::new_with_seed(1);
    for &(cx, cz) in chunks {
        w.insert_chunk(Chunk::new(cx, cz));
    }
    for &(x, y, z, b) in blocks {
        w.set_block(x, y, z, b);
    }
    w
}

fn face(x: i32, y: i32, z: i32, dir: u8, tex: u32) -> Face {
    Face { x, y, z, dir, tex }
}

#[test]
fn lone_block_shows_six_faces_in_side_order() {
    let w = world_with(&[(5, 20, 7, BlockType::Stone)], &[(0, 0)]);
    let (solid, water) = subchunk_faces(&w, 0, 0, 1);
    let expected: Vec<Face> = (0..6).map(|d| face(5, 20, 7, d, 1)).collect();
    assert_eq!(solid, expected);
    assert!(water.is_empty());
    // The other subchunks of the column hold nothing.
    let (solid0, water0) = subchunk_faces(&w, 0, 0, 0);
    assert!(solid0.is_empty() && water0.is_empty());
}

#[test]
fn touching_blocks_hide_their_shared_faces() {
    let w = world_with(&[(3, 40, 3, BlockType::Stone), (4, 40, 3, BlockType::Dirt)], &[(0, 0)]);
    let (solid, _) = subchunk_faces(&w, 0, 0, 2);
    assert_eq!(solid.len(), 10);
    assert!(!solid.contains(&face(3, 40, 3, 1, 1)));
    assert!(!solid.contains(&face(4, 40, 3, 0, 3)));
    // Blocks are visited with x slowest: the stone's faces come first.
    assert_eq!(solid[0], face(3, 40, 3, 0, 1));
    assert_eq!(solid[5], face(4, 40, 3, 1, 3));
}

#[test]
fn water_goes_to_its_own_list_and_hides_against_solid() {
    let w = world_with(&[(8, 60, 8, BlockType::Water), (8, 61, 8, BlockType::Stone)], &[(0, 0)]);
    let (solid, water) = subchunk_faces(&w, 0, 0, 3);
    // The stone shows all six faces: water lets its bottom face be seen.
    assert_eq!(solid.len(), 6);
    assert!(solid.contains(&face(8, 61, 8, 2, 1)));
    // The water hides its top face against the stone.
    assert_eq!(water.len(), 5);
    assert!(!water.iter().any(|f| f.dir == 3));
    assert!(water.iter().all(|f| f.tex == 8));
}

#[test]
fn touching_water_blocks_share_no_face() {
    let w = world_with(&[(1, 50, 1, BlockType::Water), (1, 50, 2, BlockType::Water)], &[(0, 0)]);
    let (solid, water) = subchunk_faces(&w, 0, 0, 3);
    assert!(solid.is_empty());
    assert_eq!(water.len(), 10);
}

#[test]
fn grass_shows_dirt_below() {
    let w = world_with(&[(2, 70, 2, BlockType::Grass)], &[(0, 0)]);
    let (solid, _) = subchunk_faces(&w, 0, 0, 4);
    assert_eq!(solid.len(), 6);
    assert_eq!(solid[2], face(2, 70, 2, 2, 3));
    assert_eq!(solid[3], face(2, 70, 2, 3, 2));
    assert_eq!(solid[0].tex, 2);
    assert_eq!(face_tex(BlockType::Grass, 2), BlockType::Grass.tex_bottom());
    assert_eq!(face_tex(BlockType::Grass, 3), BlockType::Grass.tex_top());
    assert_eq!(face_tex(BlockType::Grass, 5), BlockType::Grass.tex_side());
}

#[test]
fn neighbour_chunk_hides_faces_only_when_loaded() {
    let blocks = [(15, 30, 4, BlockType::Stone), (16, 30, 4, BlockType::Stone)];
    let both = world_with(&blocks, &[(0, 0), (1, 0)]);
    let (solid, _) = subchunk_faces(&both, 0, 0, 1);
    assert_eq!(solid.len(), 5);
    assert!(!solid.iter().any(|f| f.dir == 1));
    let alone = world_with(&blocks, &[(0, 0)]);
    let (solid, _) = subchunk_faces(&alone, 0, 0, 1);
    assert_eq!(solid.len(), 6);
}

#[test]
fn see_through_neighbours_show_faces() {
    let w = world_with(&[(6, 90, 6, BlockType::Stone), (6, 91, 6, BlockType::Leaves), (7, 90, 6, BlockType::Ice)], &[(0, 0)]);
    let (solid, _) = subchunk_faces(&w, 0, 0, 5);
    // The stone shows all six faces; the leaves and the ice each hide the
    // one that touches the stone.
    assert_eq!(solid.len(), 16);
    assert!(BlockType::Leaves.is_transparent() && BlockType::Ice.is_transparent());
    assert!(!BlockType::Stone.is_transparent());
    assert!(BlockType::Stone.should_render_face_against(BlockType::Air));
    assert!(!BlockType::Ice.should_render_face_against(BlockType::Ice));
    assert!(!BlockType::Dirt.should_render_face_against(BlockType::Stone));
}

#[test]
fn bottom_of_the_world_is_open() {
    let w = world_with(&[(0, 0, 0, BlockType::Bedrock), (0, 255, 0, BlockType::Snow)], &[(0, 0)]);
    let (low, _) = subchunk_faces(&w, 0, 0, 0);
    assert_eq!(low.len(), 6);
    assert!(low.contains(&face(0, 0, 0, 2, 7)));
    let (high, _) = subchunk_faces(&w, 0, 0, 15);
    assert_eq!(high.len(), 6);
    assert!(high.contains(&face(0, 255, 0, 3, 10)));
}

#[test]
fn negative_chunks_use_world_coordinates() {
    let w = world_with(&[(-1, 10, -16, BlockType::Sand)], &[(-1, -1)]);
    let (solid, _) = subchunk_faces(&w, -1, -1, 0);
    assert_eq!(solid.len(), 6);
    assert!(solid.iter().all(|f| f.x == -1 && f.y == 10 && f.z == -16 && f.tex == 4));
}
