//! The client's settings.
use vstd::prelude::*;

verus! {

/// Kinds of system messages that can be shown or hidden.
#[derive(Debug, Clone, Copy, PartialEq, Eq, Hash, Structural)]
pub enum SystemMessageType {
    Join,
    Leave,
    NickChange,
}

/// The client's settings.
#[derive(Debug, Clone)]
pub struct Config {
    // Network Settings
    pub ipv6_enabled: bool,
    pub udp_enabled: bool,
    pub local_discovery_enabled: bool,
    pub start_port: u16,
    pub end_port: u16,
    pub blocked_strings: Vec<String>,
    pub highlight_strings: Vec<String>,
    pub enabled_system_messages: Vec<SystemMessageType>,
    pub downloads_directory: Option<String>,
    pub timezone: Option<String>,
}

/// The first port of the default port range.
pub const DEFAULT_START_PORT: u16 = 33445;

/// The last port of the default port range.
pub const DEFAULT_END_PORT: u16 = 33455;

impl Default for Config {
    /// IPv6 and UDP on, local discovery off, the standard port range, no
    /// filters, every system message shown.
    fn default() -> (c: Self)
        ensures
            c.ipv6_enabled,
            c.udp_enabled,
            !c.local_discovery_enabled,
            c.start_port == DEFAULT_START_PORT,
            c.end_port == DEFAULT_END_PORT,
            c.blocked_strings@.len() == 0,
            c.highlight_strings@.len() == 0,
            c.enabled_system_messages@ == seq![
                SystemMessageType::Join,
                SystemMessageType::Leave,
                SystemMessageType::NickChange,
            ],
            c.downloads_directory is None,
            c.timezone is None,
    {
        let c = Config {
            ipv6_enabled: true,
            udp_enabled: true,
            local_discovery_enabled: false,
            start_port: DEFAULT_START_PORT,
            end_port: DEFAULT_END_PORT,
            blocked_strings: Vec::new(),
            highlight_strings: Vec::new(),
            enabled_system_messages: vec![
                SystemMessageType::Join,
                SystemMessageType::Leave,
                SystemMessageType::NickChange,
            ],
            downloads_directory: None,
            timezone: None,
        };
        assert(c.enabled_system_messages@ =~= seq![
            SystemMessageType::Join,
            SystemMessageType::Leave,
            SystemMessageType::NickChange,
        ]);
        c
    }
}

impl Config {
    /// The network settings differ, so the new settings take effect only
    /// after a restart.
    pub open spec fn network_differs(&self, other: &Config) -> bool {
        ||| self.ipv6_enabled != other.ipv6_enabled
        ||| self.udp_enabled != other.udp_enabled
        ||| self.local_discovery_enabled != other.local_discovery_enabled
        ||| self.start_port != other.start_port
        ||| self.end_port != other.end_port
    }

    /// Whether going from these settings to `other` needs a restart.
    pub fn requires_restart(&self, other: &Config) -> (r: bool)
        ensures
            r == self.network_differs(other),
            r <==> network_settings(*self) != network_settings(*other),
    {
        self.ipv6_enabled != other.ipv6_enabled || self.udp_enabled != other.udp_enabled
            || self.local_discovery_enabled != other.local_discovery_enabled || self.start_port != other.start_port
            || self.end_port != other.end_port
    }
}

/// The settings the network is started with: IPv6, UDP, local discovery
/// and the port range.
pub open spec fn network_settings(c: Config) -> (bool, bool, bool, u16, u16) {
    (c.ipv6_enabled, c.udp_enabled, c.local_discovery_enabled, c.start_port, c.end_port)
}

/// A restart is needed exactly when the network is to be started with
/// other settings: changing any one of IPv6, UDP, local discovery or
/// either end of the port range needs one, and changing anything else
/// (blocked or highlighted words, system messages, downloads, time zone)
/// does not.
pub proof fn law_restart_iff_network_changes(a: Config, b: Config)
    ensures
        a.network_differs(&b) <==> network_settings(a) != network_settings(b),
        a.udp_enabled != b.udp_enabled ==> a.network_differs(&b),
        a.ipv6_enabled != b.ipv6_enabled ==> a.network_differs(&b),
        a.local_discovery_enabled != b.local_discovery_enabled ==> a.network_differs(&b),
        a.start_port != b.start_port ==> a.network_differs(&b),
        a.end_port != b.end_port ==> a.network_differs(&b),
{
    if network_settings(a) != network_settings(b) {
        assert(a.network_differs(&b));
    }
}

/// Whether a restart is needed does not depend on the direction of the
/// change, and keeping the settings never needs one.
pub proof fn law_restart_symmetric(a: Config, b: Config)
    ensures
        a.network_differs(&b) == b.network_differs(&a),
        !a.network_differs(&a),
{
}

} // verus!
