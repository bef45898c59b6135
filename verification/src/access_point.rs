//! The two records the client hands to its callers.

use vstd::prelude::*;

verus! {

/// One visible wireless network, as one device reported it.
#[derive(Debug, Clone)]
pub struct AccessPoint {
    /// Network name, decoded from the raw bytes the service holds.
    pub ssid: String,
    /// Signal quality as the service reports it, nominally 0 to 100.
    pub strength: u8,
    /// Whether the network announces any protection.
    pub is_secured: bool,
    /// Object path of the access point on the bus.
    pub path: String,
}

/// The mathematical content of an [`AccessPoint`].
pub struct AccessPointView {
    pub ssid: Seq<char>,
    pub strength: u8,
    pub is_secured: bool,
    pub path: Seq<char>,
}

impl View for AccessPoint {
    type V = AccessPointView;

    open spec fn view(&self) -> AccessPointView {
        AccessPointView {
            ssid: self.ssid@,
            strength: self.strength,
            is_secured: self.is_secured,
            path: self.path@,
        }
    }
}

impl DeepView for AccessPoint {
    type V = AccessPointView;

    open spec fn deep_view(&self) -> AccessPointView {
        self@
    }
}

/// The network a wireless device is associated with at the moment of asking.
#[derive(Debug, Clone)]
pub struct ActiveConnection {
    pub ssid: String,
    pub strength: u8,
    /// Name of the network interface, such as `wlan0`.
    pub interface: String,
    /// First IPv4 address of the interface; empty when none could be read.
    pub ip_address: String,
}

/// The mathematical content of an [`ActiveConnection`].
pub struct ActiveConnectionView {
    pub ssid: Seq<char>,
    pub strength: u8,
    pub interface: Seq<char>,
    pub ip_address: Seq<char>,
}

impl View for ActiveConnection {
    type V = ActiveConnectionView;

    open spec fn view(&self) -> ActiveConnectionView {
        ActiveConnectionView {
            ssid: self.ssid@,
            strength: self.strength,
            interface: self.interface@,
            ip_address: self.ip_address@,
        }
    }
}

impl DeepView for ActiveConnection {
    type V = ActiveConnectionView;

    open spec fn deep_view(&self) -> ActiveConnectionView {
        self@
    }
}

} // verus!
