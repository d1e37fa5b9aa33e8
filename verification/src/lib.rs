//! Simulation core of a turn-based grid dungeon crawler.
//!
//! The crate generates a traversable level of rectangular rooms joined by
//! corridors, keeps a spatial index of blocked cells and cell occupants,
//! computes each actor's field of view, drives hostile actors toward the
//! player with a weighted graph search, and sequences everything through a
//! deterministic turn scheduler.

pub mod components;
pub mod fov;
pub mod map;
pub mod map_indexing_system;
pub mod monster_ai_systems;
pub mod pathfinding;
pub mod player;
pub mod rect;
pub mod rng;
pub mod scheduler;
pub mod spawner;
pub mod visibility_system;
pub mod world;
