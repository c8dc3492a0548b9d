//! Verified core of `mappr`, a network mapper: address arithmetic, target
//! parsing, IPv4 ranges and collections, interface selection, packet framing
//! and the bookkeeping that discovery and the system report rely on.

pub mod addr;
pub mod network;
pub mod iface;
pub mod text;
pub mod domain;
pub mod net;
pub mod common;
pub mod addr_text;
pub mod config;
pub mod adapters;
pub mod info;
pub mod engine;
pub mod application;
