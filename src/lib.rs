//! An entity/component storage engine: generational entity handles, sparse
//! component storage, entity queries and double-buffered event streams.
pub mod generational_array;
pub mod storage;
pub mod entity;
pub mod component;
pub mod query;
pub mod world;
pub mod events;
pub mod archetype;
pub mod time;
