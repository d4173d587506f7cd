//! Entities: the store that owns them, and the factory that fills it.

pub mod entity;
pub mod factory;
pub mod tables;

pub use self::entity::{Component, ComponentVec, Entity, Store, World};
pub use self::factory::HexMapFactory;
