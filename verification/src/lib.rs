//! Verified core logic of the Render3D voxel engine: sub-allocation of the
//! unified GPU geometry buffers and of the indirect-draw slots, the
//! multiplayer wire protocol and session state, menu input handling, the
//! save format, the chunk store, the visible faces a subchunk's mesh is
//! built from, the block-level rules of world generation (terrain layers,
//! caves, trees and cacti), and world structures.

pub mod range_alloc;
pub mod types;
pub mod buffer_alloc;
pub mod indirect;
pub mod mesh;
pub mod texture;
pub mod atlas;
pub mod protocol;
pub mod text;
pub mod transport;
pub mod server;
pub mod client;
pub mod menu;
pub mod settings;
pub mod block;
pub mod biome;
pub mod constants;
pub mod chunk;
pub mod terrain;
pub mod trees;
pub mod generation;
pub mod world;
pub mod meshing;
pub mod structures;
pub mod loader;
pub mod save_format;
