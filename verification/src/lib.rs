//! The rules of a small roguelike: dungeon generation, movement, sight, combat
//! bookkeeping, spawning and the on-screen layout, each with a proved contract.
use vstd::prelude::*;

pub mod components;
pub mod damage_system;
pub mod gamelog;
pub mod gui;
pub mod map;
pub mod player;
pub mod random_table;
pub mod rect;
pub mod rng;
pub mod spawner;
pub mod state;
pub mod visibility_system;
