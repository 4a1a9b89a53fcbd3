//! The core of an authoritative DNS server.
//!
//! The server answers queries for the zones that a record store holds. It
//! does not recurse and does not cache. This crate is what the server
//! decides and computes, with its contracts; sockets, the store and the
//! clock are the caller's.
//!
//! * [`name`], [`record`], [`message`]: names, records and the parts of a
//!   message that the server reads and writes.
//! * [`cache`]: which zones the server answers for, and what changes when
//!   the store lists other zones.
//! * [`handle`]: the query pipeline, from a request to the reply and the
//!   counters to move.
//! * [`storage`]: what a record store owes the pipeline; [`memory`] is a
//!   store in memory, [`redis`] and [`fs`] are the layouts of a store in a
//!   key/value cluster and in a directory tree.
//! * [`metrics`]: the counters of each zone, held in a `prometheus`
//!   registry.
//! * [`api`]: what the administration interface accepts and writes.

pub mod api;
pub mod cache;
pub mod fs;
pub mod handle;
pub mod memory;
pub mod message;
pub mod metrics;
pub mod name;
pub mod record;
pub mod redis;
pub mod storage;
