//! Tag-driven DNS subdomain scanner core.
//!
//! Raw DNS queries are correlated with their responses through a compact
//! per-packet identifier: a scan-wide tag in the high digits of the DNS
//! transaction id, a sub-tag in its low two digits, and a slot carried in
//! the UDP source port. This crate holds the verified heart of the scanner:
//! the packet codec, the correlation table, the index allocator, the
//! timeout/retry policy, the bandwidth pacer, and the response dispatcher.
//! Link-level I/O, the host resolver, and HTTP probing live outside it.

pub mod api;
pub mod bytes;
pub mod codec;
pub mod control;
pub mod gen;
pub mod handle;
pub mod input;
pub mod local_struct;
pub mod model;
pub mod output;
pub mod send;
pub mod speed;
pub mod stack;
pub mod state;
pub mod structs;
pub mod tags;
pub mod util;
pub mod wildcard;

pub use tags::{generate_flag_index_from_map, generate_map_index};
