//! Simulation core of a turn-based dungeon crawler: a tile map with rooms and
//! corridors, an entity store, and the per-tick systems (visibility, spatial
//! indexing, monster AI, melee combat, damage) that advance it.
pub mod rect;
pub mod dice;
pub mod map;
pub mod connectivity;
pub mod components;
pub mod world;
pub mod indexing;
pub mod combat;
pub mod damage;
pub mod ai;
pub mod visibility;
pub mod player;
pub mod state;
pub mod spawner;
pub mod systems;
pub mod laws;
