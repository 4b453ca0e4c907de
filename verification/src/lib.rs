//! Game rules of a small dungeon crawler: character states and stats, the
//! player's controls, the layout of a dungeon floor, progress from floor to
//! floor, enemy spawning, and how attacks land.

pub mod attack;
pub mod boss;
pub mod collision;
pub mod controller;
pub mod direction;
pub mod floor;
pub mod helper;
pub mod level;
pub mod manifest;
pub mod map;
pub mod metadata;
pub mod movement;
pub mod player;
pub mod prototype;
pub mod random;
pub mod spawn_places;
pub mod state;
pub mod stats;
