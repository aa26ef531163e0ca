//! A small entity-component-system library for a city builder game:
//! entity bookkeeping, component pools, parent/child hierarchies,
//! system scheduling by dependencies, input parsing and change tracking.

pub mod ecs;
pub mod hierarchy;
pub mod schedule;
pub mod text;
pub mod input;
pub mod input_action;
pub mod diffing;
pub mod examples;
pub mod grid;
pub mod game;
pub mod input_manager;
