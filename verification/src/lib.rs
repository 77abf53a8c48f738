//! Evernight: the deterministic core of a small entity-component game engine.
//!
//! The modules here hold the parts of the engine whose behaviour is integer or
//! structural logic: entity identifiers and their allocator, spawn/despawn
//! requests, the command buffer, the component store, tags and lifetimes,
//! name registries, the input snapshot, the phase scheduler and the seeded
//! random-number generators.
pub mod types;
pub mod id_allocator;
pub mod command;
pub mod text;
pub mod registry;
pub mod input;
pub mod components;
pub mod scheduler;
pub mod component_storage;
pub mod commands;
pub mod event;
pub mod world;
pub mod benchmark;
pub mod rng;
pub mod spatial_hash;
pub mod collision;
pub mod systems;
pub mod dispatch;
