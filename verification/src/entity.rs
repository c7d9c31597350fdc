//! Mob kinds and the AI states they move between.
use vstd::prelude::*;
use crate::voxel::VoxelType;

verus! {

/// Types of mobs that can exist on the ring: passive fauna (Grazer,
/// Skitterling, Floater), the passive Ringkin natives, and the hostile
/// Sentinel machines and nocturnal Stalkers.
#[derive(Clone, Copy, Debug, PartialEq, Eq, Structural)]
pub enum MobType {
    /// Six-legged tan herbivore; placid, common on grass in daylight.
    Grazer,
    /// Small skittish scuttler; fast, harmless.
    Skitterling,
    /// Bioluminescent gasbag that hovers about two blocks up.
    Floater,
    /// The ring's natives: humanoids living in villages.
    Ringkin,
    /// Ancient security mech guarding ring facilities.
    Sentinel,
    /// Low six-legged nocturnal predator.
    Stalker,
}

/// Behavior category for a mob.
#[derive(Clone, Copy, Debug, PartialEq, Eq, Structural)]
pub enum MobBehavior {
    Passive,
    Hostile,
}

/// AI state for controlling mob behavior transitions.
#[derive(Clone, Copy, Debug, PartialEq, Eq, Structural)]
pub enum AiState {
    Idle,
    Wandering,
    Fleeing,
    Chasing,
    Attacking,
}

/// The item a mob of each kind leaves behind.
pub open spec fn spec_drop_item(mob: MobType) -> VoxelType {
    match mob {
        MobType::Grazer => VoxelType::Leaves,
        MobType::Skitterling => VoxelType::Flower,
        MobType::Floater => VoxelType::Torch,
        MobType::Ringkin => VoxelType::Plank,
        MobType::Sentinel => VoxelType::IronIngot,
        MobType::Stalker => VoxelType::Vine,
    }
}

/// Sentinels and Stalkers are hostile; every other kind is passive.
pub open spec fn spec_behavior(mob: MobType) -> MobBehavior {
    match mob {
        MobType::Sentinel | MobType::Stalker => MobBehavior::Hostile,
        _ => MobBehavior::Passive,
    }
}

impl MobType {
    /// Hovering mobs skip normal gravity and float above the ground; only
    /// the Floater hovers.
    pub fn hovers(&self) -> (r: bool)
        ensures
            r == (*self == MobType::Floater),
    {
        matches!(self, MobType::Floater)
    }

    /// The item dropped when a mob of this kind dies.
    pub fn drop_item(&self) -> (r: VoxelType)
        ensures
            r == spec_drop_item(*self),
    {
        match self {
            MobType::Grazer => VoxelType::Leaves,
            MobType::Skitterling => VoxelType::Flower,
            MobType::Floater => VoxelType::Torch,
            MobType::Ringkin => VoxelType::Plank,
            MobType::Sentinel => VoxelType::IronIngot,
            MobType::Stalker => VoxelType::Vine,
        }
    }

    /// Whether mobs of this kind attack the player.
    pub fn behavior(&self) -> (r: MobBehavior)
        ensures
            r == spec_behavior(*self),
    {
        match self {
            MobType::Sentinel | MobType::Stalker => MobBehavior::Hostile,
            _ => MobBehavior::Passive,
        }
    }
}

} // verus!
