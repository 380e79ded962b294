use vstd::prelude::*;

verus! {

/// Blocks along each horizontal side of a chunk.
pub const CHUNK_SIZE: i32 = 16;

/// Blocks along the vertical side of a subchunk.
pub const SUBCHUNK_HEIGHT: i32 = 16;

/// The vertical build limit: blocks have `0 <= y < WORLD_HEIGHT`.
pub const WORLD_HEIGHT: i32 = 256;

/// Subchunks stacked in one chunk column.
pub const NUM_SUBCHUNKS: usize = 16;

/// Blocks in one subchunk.
pub const SUBCHUNK_VOLUME: usize = 4096;

/// Water fills open space below this height.
pub const SEA_LEVEL: i32 = 64;

/// Chunks farther than this from the player's chunk, along either axis, are
/// unloaded.
pub const CHUNK_UNLOAD_DISTANCE: i32 = 16;

} // verus!
