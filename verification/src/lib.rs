//! Game logic of a small turn-based dungeon game and the polygon geometry
//! behind its renderer, with machine-checked contracts.
use vstd::prelude::*;

pub mod animation;
pub mod battle_manager;
pub mod battle_action;
pub mod buffers;
pub mod character;
pub mod dungeon;
pub mod entity;
pub mod event;
pub mod fixed;
pub mod game_logic;
pub mod game_state;
pub mod names;
pub mod polygon;
pub mod scenes;
pub mod simple_polygon;
pub mod sprite;

verus! {

} // verus!
