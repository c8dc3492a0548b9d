//! Network model shared by the scanners: scan targets, IPv4 ranges and
//! collections of addresses, and the choice of the LAN interface.

pub mod range;
pub mod interface;
pub mod target;
