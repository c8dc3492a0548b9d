//! Link-layer framing: Ethernet headers and ARP messages.

pub mod ethernet;
pub mod arp;
pub mod channel;
