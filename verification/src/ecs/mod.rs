pub mod command_queue;
pub mod component;
pub mod entity;
pub mod system;
pub mod world;

pub use command_queue::CommandQueue;
pub use entity::Entity;
pub use world::{ComponentId, World};
