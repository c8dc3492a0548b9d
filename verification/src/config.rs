//! Settings that shape what the tool prints and sends.

use vstd::prelude::*;

verus! {

/// The user's settings.
#[derive(Clone, Copy, Debug, PartialEq, Eq, Structural, Default)]
pub struct Config {
    /// Keep logs and colors but hide the ASCII art.
    pub no_banner: bool,
    /// Keep the scanners from sending DNS packets; DNS packets are still
    /// accepted.
    pub no_dns: bool,
    /// Redact sensitive details (IPv6 suffixes, MAC addresses and the like).
    pub redact: bool,
    /// Reduce the visual density of the output (1: less styling, 2: raw
    /// addresses).
    pub quiet: u8,
    /// Do not listen for user input (for non-interactive runs).
    pub disable_input: bool,
}

} // verus!
