use vstd::prelude::*;

verus! {

/// The player's options, stored with `bincode`.
#[derive(Debug, Clone, Copy, PartialEq, Eq, Structural)]
pub struct PlayerSettings {
    pub fov: u32,
    pub render_distance: u32,
    pub simulation_distance: u32,
    pub brightness: u32,
}

} // verus!
