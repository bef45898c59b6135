//! What the wireless widget shows: the rows of its network list and the
//! glyphs that go with them.

use vstd::prelude::*;
use crate::access_point::{AccessPoint, AccessPointView};
use crate::nmcli::{ActiveNetwork, ActiveNetworkView};

verus! {

/// One entry of the list of visible networks.
#[derive(Debug, Clone)]
pub struct NetworkItem {
    pub ssid: String,
    pub strength: u8,
    pub is_secured: bool,
    /// Whether this is the network the machine is on.
    pub is_connected: bool,
}

/// The mathematical content of a [`NetworkItem`].
pub struct NetworkItemView {
    pub ssid: Seq<char>,
    pub strength: u8,
    pub is_secured: bool,
    pub is_connected: bool,
}

impl View for NetworkItem {
    type V = NetworkItemView;

    open spec fn view(&self) -> NetworkItemView {
        NetworkItemView {
            ssid: self.ssid@,
            strength: self.strength,
            is_secured: self.is_secured,
            is_connected: self.is_connected,
        }
    }
}

impl DeepView for NetworkItem {
    type V = NetworkItemView;

    open spec fn deep_view(&self) -> NetworkItemView {
        self@
    }
}

/// What is known of the connection the machine is on.
#[derive(Debug, Clone)]
pub struct ConnectionInfo {
    pub ssid: String,
    pub signal_strength: i32,
    pub interface: String,
    pub ip_address: String,
}

/// The mathematical content of a [`ConnectionInfo`].
pub struct ConnectionInfoView {
    pub ssid: Seq<char>,
    pub signal_strength: i32,
    pub interface: Seq<char>,
    pub ip_address: Seq<char>,
}

impl View for ConnectionInfo {
    type V = ConnectionInfoView;

    open spec fn view(&self) -> ConnectionInfoView {
        ConnectionInfoView {
            ssid: self.ssid@,
            signal_strength: self.signal_strength,
            interface: self.interface@,
            ip_address: self.ip_address@,
        }
    }
}

/// Where a scan for networks stands.
#[derive(Debug, Clone)]
pub enum ScanStatus {
    Idle,
    Scanning,
    Complete,
    /// The scan failed, with the reason.
    Failed(String),
}

/// The glyph for a signal strength: one of five, by bands of twenty from
/// 20 to 100; anything outside gets the weakest.
pub open spec fn signal_glyph(strength: int) -> Seq<char> {
    if 80 <= strength <= 100 {
        "󰤨"@
    } else if 60 <= strength <= 79 {
        "󰤥"@
    } else if 40 <= strength <= 59 {
        "󰤢"@
    } else if 20 <= strength <= 39 {
        "󰤟"@
    } else {
        "󰤯"@
    }
}

/// The glyph that marks a protected network; nothing for an open one.
pub open spec fn lock_glyph(is_secured: bool) -> Seq<char> {
    if is_secured {
        "󰌾"@
    } else {
        ""@
    }
}

/// The glyph for a signal strength given as a percentage.
pub fn signal_icon(strength: i32) -> (icon: &'static str)
    ensures
        icon@ == signal_glyph(strength as int),
{
    if 80 <= strength && strength <= 100 {
        "󰤨"
    } else if 60 <= strength && strength <= 79 {
        "󰤥"
    } else if 40 <= strength && strength <= 59 {
        "󰤢"
    } else if 20 <= strength && strength <= 39 {
        "󰤟"
    } else {
        "󰤯"
    }
}

impl NetworkItem {
    /// The glyph for this network's signal strength.
    pub fn signal_icon(&self) -> (icon: &'static str)
        ensures
            icon@ == signal_glyph(self.strength as int),
    {
        if 80 <= self.strength && self.strength <= 100 {
            "󰤨"
        } else if 60 <= self.strength && self.strength <= 79 {
            "󰤥"
        } else if 40 <= self.strength && self.strength <= 59 {
            "󰤢"
        } else if 20 <= self.strength && self.strength <= 39 {
            "󰤟"
        } else {
            "󰤯"
        }
    }

    /// The glyph that says whether this network is protected.
    pub fn lock_icon(&self) -> (icon: &'static str)
        ensures
            icon@ == lock_glyph(self.is_secured),
    {
        if self.is_secured {
            "󰌾"
        } else {
            ""
        }
    }
}

/// The connection that the system's listings tell of: that of the active
/// network, with the address that was read for its device or, where none
/// was read, the address known before. None without an active network.
pub open spec fn connection_of(
    active: Option<ActiveNetworkView>,
    address: Option<Seq<char>>,
    known_address: Seq<char>,
) -> Option<ConnectionInfoView> {
    match active {
        Some(network) => Some(
            ConnectionInfoView {
                ssid: network.ssid,
                signal_strength: network.signal,
                interface: network.device,
                ip_address: match address {
                    Some(address) => address,
                    None => known_address,
                },
            },
        ),
        None => None,
    }
}

/// Puts together what is known of the connection from what the listings
/// told: the active network, if any, and the address read for its device,
/// if any. `known_address` is the address that was known before.
pub fn connection_info(
    active: Option<ActiveNetwork>,
    address: Option<String>,
    known_address: String,
) -> (info: Option<ConnectionInfo>)
    ensures
        match info {
            Some(info) => connection_of(
                match active {
                    Some(network) => Some(network@),
                    None => None,
                },
                match address {
                    Some(address) => Some(address@),
                    None => None,
                },
                known_address@,
            ) == Some(info@),
            None => active is None,
        },
{
    match active {
        Some(network) => Some(
            ConnectionInfo {
                ssid: network.ssid,
                signal_strength: network.signal,
                interface: network.device,
                ip_address: match address {
                    Some(address) => address,
                    None => known_address,
                },
            },
        ),
        None => None,
    }
}

/// The row that shows `ap`, on a machine that is on the network `current`.
pub open spec fn network_item(ap: AccessPointView, current: Seq<char>) -> NetworkItemView {
    NetworkItemView {
        ssid: ap.ssid,
        strength: ap.strength,
        is_secured: ap.is_secured,
        is_connected: ap.ssid == current,
    }
}

/// The rows for a scan's access points, in the scan's order; the row of the
/// network named `current` is marked as connected.
pub fn network_items(access_points: &Vec<AccessPoint>, current: &str) -> (items: Vec<NetworkItem>)
    ensures
        items.len() == access_points.len(),
        forall|i: int|
            0 <= i < items.len() ==> (#[trigger] items[i])@ == network_item(
                access_points[i]@,
                current@,
            ),
{
    let on = current.to_owned();
    let mut items: Vec<NetworkItem> = Vec::new();
    let mut i: usize = 0;
    while i < access_points.len()
        invariant
            i <= access_points.len(),
            items.len() == i,
            on@ == current@,
            forall|j: int|
                0 <= j < i ==> (#[trigger] items[j])@ == network_item(
                    access_points[j]@,
                    current@,
                ),
        decreases access_points.len() - i,
    {
        let ap = &access_points[i];
        items.push(
            NetworkItem {
                ssid: ap.ssid.clone(),
                strength: ap.strength,
                is_secured: ap.is_secured,
                is_connected: ap.ssid == on,
            },
        );
        i += 1;
    }
    items
}

} // verus!
