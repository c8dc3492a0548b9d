//! The scanning engine: ranges walked address by address, packet framing,
//! interface inspection and the sender's configuration.

pub mod range;
pub mod wire;
pub mod utils;
pub mod datalink;
pub mod packets;
pub mod interface;
pub mod ip;
pub mod sender;
