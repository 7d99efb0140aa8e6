//! A group index for an entity/component store: beside the map from entity
//! ids to components it keeps, for each component value, the set of the
//! entities that have it. Writes only mark what they touch as dirty; the
//! query for the groups reconciles the index with the store before it
//! answers.
//!
//! `model` says what an index is and what each operation makes of it,
//! `grouped` holds the index itself, `store` the store it sits on, `id_set`
//! the bit sets it is made of, and `laws` what is proved of every index.

pub mod grouped;
pub mod id_set;
pub mod laws;
pub mod model;
pub mod store;
pub mod walk;

pub use grouped::{Grouped, GroupedStorage, StoreInitError, UnprotectedGrouped};
pub use store::{MapStorage, PrimaryStore};
