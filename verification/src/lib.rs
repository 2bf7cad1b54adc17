//! Simulation core of a tile-based dungeon crawler: level generation over a
//! fixed-size grid, shortest-path distance fields, an entity arena, and the
//! turn-phased systems (input, movement, combat, item use, level transition)
//! that act on it.

pub mod components;
pub mod distance;
pub mod game;
pub mod geometry;
pub mod map;
pub mod map_builder;
pub mod random;
pub mod spawner;
pub mod systems;
pub mod turn_state;
pub mod world;
