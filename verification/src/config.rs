//! The daemon's settings.

use vstd::prelude::*;

verus! {

/// Settings that steer firewall setup and address tracking.
pub struct Config {
    /// Directory that holds `iptables`, `ip6tables` and `ipset`.
    pub ipt_path: String,
    /// Directory that holds `firewall-cmd`.
    pub fwcmd_path: String,
    /// Seconds an ipset entry lives, and after which an idle address is forgotten.
    pub expires: i32,
    /// Addresses that should never be blocked.
    pub whitelist: Vec<String>,
    /// Whether the IPv6 set and rules are managed as well.
    pub has_ipv6: bool,
    /// When set, no firewall rule or set is created or changed.
    pub nocreate: bool,
    /// Directory that holds the JSON pattern files.
    pub patterns_path: String,
}

} // verus!
