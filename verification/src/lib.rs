//! A task service: an in-memory store of tasks with create, get, list and
//! delete, batches of operations, and the events that each change emits.
pub mod cli;
pub mod laws;
pub mod store;
pub mod task_id;
pub mod types;
