//! A per-client in-memory todo store.
//!
//! Every client, named by an opaque string, owns an ordered list of todo
//! items. The store hands out ids from a per-client counter, merges partial
//! updates field by field, and never lets one client see another's items.
//! The transport around it (HTTP routing, JSON codecs, locking) lives outside
//! this library.

pub mod todos;
pub mod model;
pub mod store;
pub mod laws;

pub use store::{StoreError, TodoStore};
pub use todos::{CreateTodo, ErrorRes, SocketIPAddr, Todo, UpdateTodo};
