//! Core of the odss2dash relay service.
//!
//! The library holds the verified dispatch engine: the registry of platforms
//! selected for relaying, the per-platform watermark that suppresses
//! redelivery of old positions, the platform metadata cache, the fan-out
//! publisher, and the poll/diff/fan-out cycle with its cooperative shutdown
//! decisions. Transport concerns (HTTP clients and server, durable files,
//! command line) live outside the library and hand it plain values.

pub mod config;
pub mod dispatched_info;
pub mod dispatcher;
pub mod health;
pub mod management;
pub mod platform_info;
pub mod publisher;
pub mod str_order;
pub mod tethysdash_client;
pub mod trackdb_client;
