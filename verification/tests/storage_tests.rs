use render3d::atlas::{assemble_atlas, atlas_fits, tiles_per_row_for, TextureAtlasCache};
use render3d::save_format::{frame_save_data, unframe_save_data, SaveFormatError, SAVE_VERSION, DEFAULT_WORLD_FILE, WORLD_FILE_EXTENSION};
use render3d::texture::generate_texture_atlas_with_mipmaps;

#[test]
fn save_file_roundtrip() {
    let payload = vec![1u8, 2, 3, 4, 5];
    let file = frame_save_data(&payload);
    assert_eq!(&file[0..4], b"R3DW");
    assert_eq!(&file[4..8], &SAVE_VERSION.to_le_bytes());
    assert_eq!(&file[8..16], &5u64.to_le_bytes());
    assert_eq!(unframe_save_data(&file).unwrap(), payload);
    let mut longer = file.clone();
    longer.push(9);
    assert_eq!(unframe_save_data(&longer).unwrap(), payload);
    assert_eq!(DEFAULT_WORLD_FILE, "world.r3d");
    assert_eq!(WORLD_FILE_EXTENSION, "r3d");
}

#[test]
fn save_file_errors() {
    assert_eq!(unframe_save_data(b"R3D"), Err(SaveFormatError::Truncated));
    assert_eq!(unframe_save_data(b"XXXXaaaa"), Err(SaveFormatError::BadMagic));
    assert_eq!(unframe_save_data(b"R3DW\x02\0\0\0"), Err(SaveFormatError::UnsupportedVersion(2)));
    assert_eq!(unframe_save_data(b"R3DW\x01\0\0\0\x05"), Err(SaveFormatError::Truncated));
    let mut f = frame_save_data(&[1, 2, 3]);
    f.pop();
    assert_eq!(unframe_save_data(&f), Err(SaveFormatError::Truncated));
}

#[test]
fn mip_chain_shape() {
    let w = 4u32;
    let h = 2u32;
    let data: Vec<u8> = (0..(w * h * 4 * 16)).map(|i| (i % 251) as u8).collect();
    let levels = generate_texture_atlas_with_mipmaps(&data, w, h);
    assert_eq!(levels.len(), 3);
    assert_eq!(levels[0], data);
    assert_eq!(levels[1].len(), 2 * 1 * 4 * 16);
    assert_eq!(levels[2].len(), 1 * 1 * 4 * 16);
}

#[test]
fn mip_chain_of_uniform_layers_is_uniform() {
    let data = vec![200u8; 8 * 8 * 4 * 16];
    let levels = generate_texture_atlas_with_mipmaps(&data, 8, 8);
    assert_eq!(levels.len(), 4);
    for l in &levels {
        assert!(l.iter().all(|&b| b == 200));
    }
}

#[test]
fn single_level_for_one_pixel() {
    let data = vec![1u8; 4];
    let levels = generate_texture_atlas_with_mipmaps(&data, 1, 1);
    assert_eq!(levels, vec![data]);
}

#[test]
fn atlas_places_first_tiles_side_by_side() {
    let t0 = vec![1u8; 2 * 2 * 4];
    let t1 = vec![2u8; 2 * 2 * 4];
    let a = assemble_atlas(2, 2, &[t0, t1]);
    assert_eq!((a.width, a.height, a.tiles_per_row), (4, 4, 2));
    assert_eq!(a.data.len(), 4 * 4 * 4);
    // first pixel row: tile 0 then tile 1
    assert_eq!(&a.data[0..8], &[1u8; 8]);
    assert_eq!(&a.data[8..16], &[2u8; 8]);
    // bottom half stays empty
    assert!(a.data[32..].iter().all(|&b| b == 0));
    assert_eq!(TextureAtlasCache::new("assets/texture_atlas.cache").cache_path, "assets/texture_atlas.cache");
}

#[test]
fn atlas_fits_accepts_whole_tiles() {
    let t = vec![7u8; 2 * 2 * 4];
    assert!(atlas_fits(2, 2, &[t.clone(), t.clone()]));
    assert!(atlas_fits(2, 2, &[t.clone(), t.clone(), t.clone()]));
    assert!(atlas_fits(16, 0, &[]));
}

#[test]
fn atlas_fits_refuses_short_textures_and_overflow() {
    let short = vec![7u8; 4];
    assert!(!atlas_fits(2, 2, &[short]));
    assert!(!atlas_fits(65536, 65536, &[]));
    assert!(!atlas_fits(1024, 64, &[]));
    assert!(!atlas_fits(2, 0, &[vec![0u8; 16]]));
}

#[test]
fn atlas_side_is_the_ceiling_square_root() {
    assert_eq!(tiles_per_row_for(0), 0);
    assert_eq!(tiles_per_row_for(1), 1);
    assert_eq!(tiles_per_row_for(2), 2);
    assert_eq!(tiles_per_row_for(4), 2);
    assert_eq!(tiles_per_row_for(5), 3);
    assert_eq!(tiles_per_row_for(16), 4);
    assert_eq!(tiles_per_row_for(17), 5);
    assert_eq!(tiles_per_row_for(4_294_967_295), 65536);
}
