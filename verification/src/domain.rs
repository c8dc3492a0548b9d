//! Domain models: ranges, hosts and the local system report.

pub mod range;
pub mod system;
pub mod host;
pub mod target;
