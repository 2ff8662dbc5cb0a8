//! Entities, the arenas that hold their components, and the systems that run
//! over them.

pub mod bitset;
pub mod component;
pub mod system;
pub mod world;

pub use self::bitset::BitSet;
pub use self::component::{Arena, ComponentArena, HashMapArena, StorageKind, VecArena};
pub use self::system::{validate, Fetch, FetchMut, System, SystemData, SystemValidator};
pub use self::world::{Entity, EntityView, TypeKey, World};
