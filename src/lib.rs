//! A per-key value store with change notification for long-polling readers
//! and sliding expiration. The store here is the single owner of all state:
//! the surrounding runtime hands it commands and timer events one at a time
//! and carries out the actions it returns.
pub mod laws;
pub mod model;
pub mod worker;
