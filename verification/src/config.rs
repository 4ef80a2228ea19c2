//! Station configuration for the wifi-backed deployment: the device name
//! and the credentials of the access point to join.

use vstd::prelude::*;

verus! {

/// Build-time station configuration.  Every field defaults to the empty
/// string, as when no configuration is provided.
pub struct Config {
    /// Human-readable device name.
    pub wifi_name: &'static str,
    /// SSID of the access point to join.
    pub wifi_ssid: &'static str,
    /// Password of the access point to join.
    pub wifi_password: &'static str,
}

impl Default for Config {
    /// The empty configuration.
    fn default() -> (c: Config)
        ensures
            c.wifi_name@.len() == 0,
            c.wifi_ssid@.len() == 0,
            c.wifi_password@.len() == 0,
    {
        proof {
            reveal_strlit("");
        }
        Config { wifi_name: "", wifi_ssid: "", wifi_password: "" }
    }
}

} // verus!
