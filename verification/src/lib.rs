//! Component-tree ECS core of the cat engine: a world of components linked
//! into parent/child trees, per-entity component forests, a deferred command
//! queue and a bounded material cache.

pub mod ecs;
pub mod graphics;
pub mod text;
pub mod engine;
