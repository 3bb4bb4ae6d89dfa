//! Per-page analytics counters: the store that holds them and the rules of the
//! service in front of it.
//!
//! - [`record`]: the counters of one page.
//! - [`store`]: the mapping from page to record, viewed as a `Map`.
//! - [`service`]: what each request does to the store and what is replied,
//!   and which store the service starts with.
//! - [`laws`]: what holds of the store after any history of writes.
//! - [`text`]: comparing page identifiers and byte strings.
//!
//! Nothing here waits, locks, reads or writes a file, or speaks HTTP: the
//! caller holds the store behind its lock and hands these functions plain
//! values.

pub mod laws;
pub mod record;
pub mod service;
pub mod store;
pub mod text;
