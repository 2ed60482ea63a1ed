//! An in-memory tuple store: fixed-capacity columnar blocks addressed by
//! opaque row locators, a primary-key index for point lookups, and a
//! round-robin partitioned write path.

pub mod batch;
pub mod bitmap;
pub mod block;
pub mod error;
pub mod filter;
pub mod index;
pub mod layout;
pub mod model;
pub mod partition;
pub mod row;
pub mod store;
pub mod table;
