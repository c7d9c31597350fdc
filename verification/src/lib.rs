//! Verified game logic for a voxel world on the inner surface of a ring.

pub mod voxel;
pub mod block;
pub mod inventory;
pub mod crafting;
pub mod ring_world;
pub mod chunk;
pub mod lighting;
pub mod hud;
pub mod sky;
pub mod entity;
pub mod effects;
pub mod audio;
pub mod player;
pub mod persistence;
pub mod structures;
pub mod shadow_squares;
pub mod block_gallery;
