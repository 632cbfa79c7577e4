//! The server's settings.
use vstd::prelude::*;

verus! {

/// The server's settings.
#[derive(Debug, Clone, Copy)]
pub struct SettingsStruct {
    /// Whether a second connection from one address is turned away.
    pub ignore_multiple_connections_per_ip: bool,
}

impl Default for SettingsStruct {
    /// The settings the server starts with: one connection per address.
    fn default() -> (s: SettingsStruct)
        ensures
            s.ignore_multiple_connections_per_ip,
    {
        SettingsStruct { ignore_multiple_connections_per_ip: true }
    }
}

} // verus!
